use art_window::art::folder::{Folder, FolderError};
use art_window::art::met::{
    artwork_from, avoid_id, byline, candidate_ids, check_length, download_path, extension_for,
    id_of, title_of, Met, MetAction, MetError, MetFetch, MetObject, CANDIDATES, MAX_IMAGE_BYTES,
};
use art_window::art::{
    expand_tilde, pick_from, pick_index, source_for, AnySource, Artwork, Entry, Source, SourceSpec,
};

fn art(path: &str) -> Artwork {
    Artwork {
        title: "T".into(),
        byline: String::new(),
        attribution: "A".into(),
        details_url: None,
        path: path.into(),
    }
}

fn file(path: &str) -> Entry {
    Entry { path: path.into(), is_file: true }
}

#[test]
fn met_recognises_its_downloads() {
    assert_eq!(id_of("/cache/met-436535.jpg"), Some(436535));
    assert_eq!(id_of("met-7.png"), Some(7));
    assert_eq!(id_of("/fav/met-12.jpeg"), Some(12));
    assert_eq!(id_of("/cache/met-.jpg"), None);
    assert_eq!(id_of("/cache/met-12x.jpg"), None);
    assert_eq!(id_of("/pictures/sunset.jpg"), None);
    assert_eq!(id_of("/cache/met-12"), Some(12));
    assert_eq!(id_of("/"), None);
}

#[test]
fn download_names_carry_the_id() {
    let p = download_path("/cache", 436535, "https://images.metmuseum.org/x/DP-1.jpg");
    assert_eq!(p, "/cache/met-436535.jpg");
    assert_eq!(id_of(&p), Some(436535));
    let q = download_path("/cache/", 9, "https://host/image");
    assert_eq!(q, "/cache/met-9.jpg");
    assert_eq!(id_of(&q), Some(9));
    assert_eq!(extension_for("https://h/a.tiff"), "tiff");
    assert_eq!(extension_for("https://h/a.jpeg?x=1"), "jpg");
    assert_eq!(extension_for("https://h/a."), "");
}

#[test]
fn byline_and_title() {
    assert_eq!(byline("Vincent van Gogh", "1889"), "Vincent van Gogh, 1889");
    assert_eq!(byline("  ", "1889 "), "1889");
    assert_eq!(byline(" Sisley ", ""), "Sisley");
    assert_eq!(byline("", ""), "");
    assert_eq!(title_of("  "), "Untitled");
    assert_eq!(title_of(" Wheat Field "), " Wheat Field ");
}

#[test]
fn a_record_becomes_an_artwork() {
    let o = MetObject {
        object_id: 436535,
        title: "Wheat Field with Cypresses".into(),
        artist: "Vincent van Gogh".into(),
        date: "1889".into(),
        primary_image: "https://images/x.jpg".into(),
        object_url: "https://www.metmuseum.org/art/collection/search/436535".into(),
    };
    let a = artwork_from(&o, "/cache/met-436535.jpg".into());
    assert_eq!(a.title, "Wheat Field with Cypresses");
    assert_eq!(a.byline, "Vincent van Gogh, 1889");
    assert_eq!(a.attribution, "The Metropolitan Museum of Art");
    assert_eq!(a.details_url.as_deref(), Some("https://www.metmuseum.org/art/collection/search/436535"));
    assert_eq!(a.path, "/cache/met-436535.jpg");
}

#[test]
fn search_results_and_sizes() {
    assert_eq!(candidate_ids(Some(vec![1, 2])).unwrap(), vec![1, 2]);
    assert!(matches!(candidate_ids(Some(vec![])), Err(MetError::NoPaintings)));
    assert!(matches!(candidate_ids(None), Err(MetError::NoPaintings)));
    assert!(check_length(None).is_ok());
    assert!(check_length(Some(MAX_IMAGE_BYTES)).is_ok());
    assert!(matches!(
        check_length(Some(MAX_IMAGE_BYTES + 1)),
        Err(MetError::TooLarge { len }) if len == MAX_IMAGE_BYTES + 1
    ));
}

#[test]
fn a_fetch_never_looks_up_the_picture_to_avoid() {
    assert_eq!(avoid_id(Some(&art("/cache/met-5.jpg"))), Some(5));
    assert_eq!(avoid_id(None), None);
    let mut f = MetFetch::start(vec![5], Some(5));
    for _ in 0..CANDIDATES {
        assert!(matches!(f.step(false), MetAction::Skip));
    }
    assert!(matches!(f.step(false), MetAction::GiveUp(MetError::NoUsable { attempts: 8 })));
}

#[test]
fn a_fetch_picks_by_the_random_number() {
    let mut f = MetFetch::start(vec![10, 20, 30], None);
    assert!(matches!(f.step_with(false, 4), MetAction::Lookup(20)));
    assert_eq!(f.attempt, 1);
    let mut g = MetFetch::start(vec![10, 20, 30], Some(30));
    assert!(matches!(g.step_with(false, 5), MetAction::Skip));
}

#[test]
fn a_fetch_gives_up_with_the_most_telling_error() {
    let mut f = MetFetch::start(vec![1], None);
    assert!(matches!(f.step(true), MetAction::GiveUp(MetError::GaveUp { secs: 90 })));
    assert!(f.looked_up(Err(MetError::Request("refused".into()))).is_none());
    match f.step(true) {
        MetAction::GiveUp(MetError::Request(m)) => assert_eq!(m, "refused"),
        other => panic!("unexpected {other:?}"),
    }
}

#[test]
fn a_record_without_an_image_is_passed_over() {
    let mut f = MetFetch::start(vec![1], None);
    let mut o = MetObject {
        object_id: 1,
        title: "t".into(),
        artist: "".into(),
        date: "".into(),
        primary_image: "".into(),
        object_url: "u".into(),
    };
    assert!(f.looked_up(Ok(o.clone())).is_none());
    o.primary_image = "https://i/x.jpg".into();
    let wanted = f.looked_up(Ok(o.clone())).unwrap();
    assert_eq!(wanted.object_id, 1);
    assert!(f.downloaded(&o, "/c", Err(MetError::TooLarge { len: 1 })).is_none());
    let done = f.downloaded(&o, "/c", Ok(())).unwrap();
    // The picture is where the download was saved, named for its object.
    assert_eq!(done.path, "/c/met-1.jpg");
    assert_eq!(id_of(&done.path), Some(1));
}

#[test]
fn source_spec_reads_the_setting() {
    assert!(matches!(SourceSpec::parse("met", "/home/u"), SourceSpec::Met));
    match SourceSpec::parse("~/Pictures", "/home/u") {
        SourceSpec::Folder(d) => assert_eq!(d, "/home/u/Pictures"),
        _ => panic!(),
    }
    match SourceSpec::parse("/srv/art", "/home/u") {
        SourceSpec::Folder(d) => assert_eq!(d, "/srv/art"),
        _ => panic!(),
    }
    assert_eq!(expand_tilde("~", "/home/u"), "~");
    assert_eq!(expand_tilde("~/", "/home/u"), "/home/u/");
}

#[test]
fn sources_and_what_they_may_delete() {
    let met = source_for(&SourceSpec::Met, "/cache");
    assert!(matches!(&met, AnySource::Met(m) if m.cache == "/cache"));
    assert_eq!(met.label(), "The Met");
    let entries = vec![
        file("/cache/met-1.jpg"),
        file("/cache/met-2.jpg"),
        file("/cache/notes.txt"),
        Entry { path: "/cache/met-3.jpg".into(), is_file: false },
    ];
    assert_eq!(met.discard_all_but(&entries, "/cache/met-2.jpg"), vec!["/cache/met-1.jpg".to_string()]);
    let folder = source_for(&SourceSpec::Folder("/pics".into()), "/cache");
    assert_eq!(folder.label(), "Folder");
    assert!(folder.discard_all_but(&entries, "").is_empty());
    assert!(!Met::new("/c".into()).owns("/c/other.jpg"));
}

#[test]
fn picks_stay_in_range() {
    assert_eq!(pick_from(3, 7), 1);
    for n in 0..20 {
        assert!(pick_index(5, n) < 5);
    }
}

#[test]
fn a_folder_offers_its_pictures_in_name_order() {
    let f = Folder::new("/pics".into());
    let entries = vec![
        file("/pics/c.JPG"),
        file("/pics/a.png"),
        file("/pics/notes.txt"),
        Entry { path: "/pics/sub.jpg".into(), is_file: false },
        file("/pics/b.tiff"),
        file("/pics/d.heic"),
    ];
    let names: Vec<String> = (0..3)
        .map(|r| f.pick(&entries, None, r, false).unwrap().path)
        .collect();
    assert_eq!(names, vec!["/pics/a.png", "/pics/b.tiff", "/pics/c.JPG"]);
    let a = f.pick(&entries, None, 0, false).unwrap();
    assert_eq!(a.title, "a");
    assert_eq!(a.byline, "");
    assert_eq!(a.attribution, "/pics");
    assert!(a.details_url.is_none());
}

#[test]
fn heic_is_a_picture_where_the_platform_reads_it() {
    let f = Folder::new("/pics".into());
    let entries = vec![file("/pics/a.png"), file("/pics/d.HEIC"), file("/pics/e.heif")];
    let names: Vec<String> = (0..2)
        .map(|r| f.pick(&entries, None, r, true).unwrap().path)
        .collect();
    assert_eq!(names, vec!["/pics/a.png", "/pics/d.HEIC"]);
    assert_eq!(f.pick(&entries, None, 1, false).unwrap().path, "/pics/a.png");
}

#[test]
fn a_folder_passes_over_the_last_picture() {
    let f = Folder::new("/pics".into());
    let entries = vec![file("/pics/a.jpg"), file("/pics/b.jpg")];
    let last = art("/pics/a.jpg");
    for r in 0..4 {
        assert_eq!(f.pick(&entries, Some(&last), r, false).unwrap().path, "/pics/b.jpg");
        assert_eq!(f.fetch(&entries, Some(&last), false).unwrap().path, "/pics/b.jpg");
    }
    // However the last picture's path is spelled, it is the same picture.
    let spelled_otherwise = art("/pics//a.jpg");
    assert_eq!(f.pick(&entries, Some(&spelled_otherwise), 0, false).unwrap().path, "/pics/b.jpg");
    let only = vec![file("/pics/a.jpg")];
    assert_eq!(f.pick(&only, Some(&last), 3, false).unwrap().path, "/pics/a.jpg");
}

#[test]
fn an_empty_folder_is_an_error() {
    let f = Folder::new("/pics".into());
    match f.fetch(&vec![file("/pics/readme.md")], None, false) {
        Err(FolderError::NoImages { dir }) => assert_eq!(dir, "/pics"),
        other => panic!("unexpected {other:?}"),
    }
}
