use art_window::art::Artwork;
use art_window::config::{now_secs, Config, Paths, State};
use art_window::day::local;
use art_window::rotation::{fetch, revisit, show, sweep};
use art_window::art::{AnySource, SourceSpec};

fn art(path: &str, title: &str) -> Artwork {
    Artwork {
        title: title.into(),
        byline: String::new(),
        attribution: "A".into(),
        details_url: None,
        path: path.into(),
    }
}

const DAY: u64 = 86400;

#[test]
fn days_are_counted_from_the_epoch() {
    assert_eq!(local(0, 0), 0);
    assert_eq!(local(DAY - 1, 0), 0);
    assert_eq!(local(DAY, 0), 1);
    assert_eq!(local(0, -1), -1);
    assert_eq!(local(DAY, 3600), 1);
    assert_eq!(local(DAY - 1, 3600), 1);
    assert_eq!(local(DAY - 3600, 7200), 1);
    assert_eq!(local(u64::MAX, i64::MAX), 320255973501901);
}

#[test]
fn a_fresh_state_owes_a_picture() {
    let s = State::default();
    assert!(s.is_due_at(12345, 0, 0));
    assert!(s.is_due(|_| 0));
}

#[test]
fn one_painting_a_day() {
    let mut s = State::default();
    let t = 100 * DAY + 10;
    show(&art("/c/met-1.jpg", "One"), &mut s, t);
    assert!(!s.is_due_at(t, 0, 0));
    assert!(!s.is_due_at(t + 3600, 0, 0));
    assert!(s.is_due_at(101 * DAY, 0, 0));
    // Several days asleep owe one painting, which the next fetch settles.
    assert!(s.is_due_at(105 * DAY, 0, 0));
    show(&art("/c/met-2.jpg", "Two"), &mut s, 105 * DAY);
    assert!(!s.is_due_at(105 * DAY + 5, 0, 0));
    // A clock set back onto an earlier day reads as due.
    assert!(s.is_due_at(104 * DAY, 0, 0));
}

#[test]
fn showing_records_the_days_picture() {
    let mut s = State::default();
    let keep = show(&art("/c/met-1.jpg", "One"), &mut s, 7);
    assert_eq!(keep, "/c/met-1.jpg");
    assert_eq!(s.last_success, Some(7));
    assert_eq!(s.shown.as_ref().unwrap().path, "/c/met-1.jpg");
    assert_eq!(s.fetched.as_ref().unwrap().path, "/c/met-1.jpg");
}

#[test]
fn a_chosen_picture_does_not_disturb_the_schedule() {
    let mut s = State::default();
    let t = 50 * DAY;
    show(&art("/c/met-1.jpg", "Day"), &mut s, t);
    let keep = revisit(&art("/fav/x.jpg", "Fav"), &mut s, t + 60, 0, 0);
    assert_eq!(keep, "/c/met-1.jpg");
    assert_eq!(s.last_success, Some(t));
    assert_eq!(s.shown.as_ref().unwrap().path, "/fav/x.jpg");
    assert_eq!(s.fetched.as_ref().unwrap().path, "/c/met-1.jpg");
}

#[test]
fn an_overdue_choice_settles_the_day() {
    let mut s = State::default();
    show(&art("/c/met-1.jpg", "Day"), &mut s, 10 * DAY);
    revisit(&art("/fav/x.jpg", "Fav"), &mut s, 12 * DAY + 5, 0, 0);
    assert_eq!(s.last_success, Some(12 * DAY + 5));
    assert!(!s.is_due_at(12 * DAY + 100, 0, 0));
}

#[test]
fn sweep_spares_the_days_picture() {
    let s = State::default();
    assert_eq!(sweep(&s), "");
    let mut t = State::default();
    show(&art("/c/met-3.jpg", "x"), &mut t, 1);
    assert_eq!(sweep(&t), "/c/met-3.jpg");
}

#[test]
fn fetch_asks_the_configured_source_to_avoid_the_desktop() {
    let mut s = State::default();
    show(&art("/c/met-3.jpg", "x"), &mut s, 1);
    let config = Config::default();
    let (source, avoid) = fetch(&config, &s, "/c");
    assert!(matches!(source, AnySource::Met(m) if m.cache == "/c"));
    assert_eq!(avoid.unwrap().path, "/c/met-3.jpg");
    let folder = Config { source: SourceSpec::Folder("/p".into()), refresh_hours: 24 };
    let (source, _) = fetch(&folder, &State::default(), "/c");
    assert!(matches!(source, AnySource::Folder(f) if f.dir == "/p"));
}

#[test]
fn defaults_and_paths() {
    let c = Config::default();
    assert!(matches!(c.source, SourceSpec::Met));
    assert_eq!(c.refresh_hours, 24);
    let p = Paths::under("/data/ArtWindow");
    assert_eq!(p.config, "/data/ArtWindow/config.toml");
    assert_eq!(p.state, "/data/ArtWindow/state.json");
    assert_eq!(p.cache, "/data/ArtWindow/cache");
    assert_eq!(p.favourites, "/data/ArtWindow/favourites");
}

#[test]
fn the_clock_reads_the_system_clock() {
    let system = std::time::SystemTime::now()
        .duration_since(std::time::UNIX_EPOCH)
        .unwrap()
        .as_secs();
    let ours = now_secs();
    assert!(ours + 5 >= system && ours <= system + 5);
}

#[test]
fn the_day_turns_at_local_midnight() {
    let mut s = State::default();
    // 23:00 UTC, which is already the next day two hours east of Greenwich.
    let t = 20 * DAY + 23 * 3600;
    show(&art("/c/met-1.jpg", "One"), &mut s, t);
    assert!(!s.is_due_at(t + 1800, 0, 0));
    assert!(s.is_due_at(t + 1800, 7200, 0));
    // Measured east of Greenwich both times, the same evening is the same day.
    assert!(!s.is_due_at(t + 1800, 7200, 7200));
}
