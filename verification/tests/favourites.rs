use art_window::art::{Artwork, Entry};
use art_window::favourites::{Favourites, Kept};

fn art(path: &str, title: &str) -> Artwork {
    Artwork {
        title: title.into(),
        byline: "B".into(),
        attribution: "A".into(),
        details_url: Some("u".into()),
        path: path.into(),
    }
}

fn file(path: &str) -> Entry {
    Entry { path: path.into(), is_file: true }
}

#[test]
fn keeping_takes_note_of_the_copy() {
    let mut f = Favourites::with_list("/fav".into(), vec![]);
    assert!(f.is_empty());
    let a = art("/cache/met-1.jpg", "One");
    assert!(!f.holds(&a));
    let copy = f.free_name(&a.path, &vec![]);
    assert_eq!(copy, "/fav/met-1.jpg");
    f.keep(&a, copy.clone());
    assert!(f.holds(&a));
    assert!(f.holds(&art(&copy, "One")));
    let got = f.get("met-1.jpg").unwrap();
    assert_eq!(got.path, "/fav/met-1.jpg");
    assert_eq!(got.title, "One");
    assert_eq!(got.byline, "B");
    // Keeping a kept picture does nothing.
    f.keep(&a, "/fav/other.jpg".into());
    assert_eq!(f.list().len(), 1);
}

#[test]
fn names_give_way_when_taken() {
    let f = Favourites::with_list(
        "/fav".into(),
        vec![Kept { origin: "/p/a.jpg".into(), art: art("/fav/sunset.jpg", "S") }],
    );
    assert_eq!(f.free_name("/q/sunset.jpg", &vec![]), "/fav/sunset-2.jpg");
    let existing = vec!["/fav/sunset-2.jpg".to_string(), "/fav/sunset.jpg".to_string()];
    assert_eq!(f.free_name("/q/sunset.jpg", &existing), "/fav/sunset-3.jpg");
    assert_eq!(f.free_name("/q/README", &vec!["/fav/README".into()]), "/fav/README-2");
    assert_eq!(f.free_name("/", &vec![]), "/fav/picture");
    assert_eq!(f.free_name("/q/.bashrc", &vec!["/fav/.bashrc".into()]), "/fav/-2.bashrc");
}

#[test]
fn forgetting_drops_the_row() {
    let mut f = Favourites::with_list(
        "/fav".into(),
        vec![
            Kept { origin: "/c/met-1.jpg".into(), art: art("/fav/met-1.jpg", "One") },
            Kept { origin: "/c/met-2.jpg".into(), art: art("/fav/met-2.jpg", "Two") },
        ],
    );
    let rows = f.iter();
    assert_eq!(rows.len(), 2);
    assert_eq!(rows[0].0, "met-1.jpg");
    assert_eq!(rows[1].1.title, "Two");
    f.forget("met-1.jpg");
    assert!(f.get("met-1.jpg").is_none());
    assert!(f.get("met-2.jpg").is_some());
    assert_eq!(f.iter().len(), 1);
    f.forget("nothing");
    assert_eq!(f.iter().len(), 1);
}

#[test]
fn discarding_spares_the_desktop_the_list_and_the_kept() {
    let f = Favourites::with_list(
        "/fav".into(),
        vec![Kept { origin: "/c/met-1.jpg".into(), art: art("/fav/met-1.jpg", "One") }],
    );
    assert_eq!(f.index_path(), "/fav/index.json");
    let entries = vec![
        file("/fav/met-1.jpg"),
        file("/fav/index.json"),
        file("/fav/met-2.jpg"),
        file("/fav/met-3.jpg"),
        Entry { path: "/fav/dir".into(), is_file: false },
    ];
    assert_eq!(
        f.discard_all_but(&entries, "/fav/met-3.jpg"),
        vec!["/fav/met-2.jpg".to_string()]
    );
}

#[test]
fn paths_are_compared_component_by_component() {
    let mut f = Favourites::with_list("/fav".into(), vec![]);
    let a = art("/cache/met-1.jpg", "One");
    f.keep(&a, "/fav/met-1.jpg".into());
    assert!(f.holds(&art("/cache//met-1.jpg", "One")));
    assert!(f.holds(&art("/cache/./met-1.jpg", "One")));
    assert!(f.holds(&art("/fav/met-1.jpg/", "One")));
    assert!(!f.holds(&art("cache/met-1.jpg", "One")));
    let entries = vec![
        file("/fav/met-1.jpg"),
        file("/fav/index.json"),
        file("/fav/met-2.jpg"),
        file("/fav/met-3.jpg"),
    ];
    assert_eq!(
        f.discard_all_but(&entries, "/fav//met-3.jpg"),
        vec!["/fav/met-2.jpg".to_string()]
    );
}

#[test]
fn copies_stay_apart_in_the_folder() {
    let mut f = Favourites::with_list("/fav".into(), vec![]);
    for (i, origin) in ["/a/x.jpg", "/b/x.jpg", "/c/x.jpg"].iter().enumerate() {
        let copy = f.free_name(origin, &vec![]);
        f.keep(&art(origin, &format!("{i}")), copy);
    }
    let keys: Vec<String> = f.iter().into_iter().map(|(k, _)| k).collect();
    assert_eq!(keys, vec!["x.jpg", "x-2.jpg", "x-3.jpg"]);
    for k in &keys {
        assert!(f.get(k).unwrap().path.starts_with("/fav/"));
    }
}

#[test]
fn a_copy_spelled_otherwise_still_takes_its_name() {
    let mut f = Favourites::with_list("/fav".into(), vec![]);
    f.keep(&art("/a/sky.jpg", "Sky"), "/fav//sky.jpg".into());
    assert_eq!(f.free_name("/b/sky.jpg", &vec![]), "/fav/sky-2.jpg");
    let g = Favourites::with_list("/fav".into(), vec![]);
    assert_eq!(
        g.free_name("/b/sky.jpg", &vec!["/fav/./sky.jpg".to_string()]),
        "/fav/sky-2.jpg"
    );
}
