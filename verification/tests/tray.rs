use art_window::art::Artwork;
use art_window::config::State;
use art_window::tray::{
    classify, describe, forget_id, glyph_rgba, shorten, show_id, way_back, Flow, MenuIds,
    Schedule, Wanted, RETRY_SECS,
};

fn art(path: &str, title: &str, byline: &str) -> Artwork {
    Artwork {
        title: title.into(),
        byline: byline.into(),
        attribution: "The Metropolitan Museum of Art".into(),
        details_url: Some("https://met/1".into()),
        path: path.into(),
    }
}

fn ids() -> MenuIds {
    MenuIds {
        keep: "3".into(),
        today: "4".into(),
        next: "5".into(),
        open: "6".into(),
        reapply: "7".into(),
        login: "8".into(),
    }
}

#[test]
fn a_due_day_starts_one_fetch() {
    let mut s = Schedule::new();
    assert_eq!(s.next_flow(true, 1000), Flow::Fetch);
    assert!(s.fetching);
    // Nothing else starts while it is in the air, asked or owed.
    s.ask_for_next();
    assert_eq!(s.next_flow(true, 1001), Flow::Wait);
    assert!(!s.asked_for_next);
    assert!(s.fetch_landed());
    // The request was taken by the download that was in the air.
    assert_eq!(s.next_flow(false, 1002), Flow::Tick);
}

#[test]
fn a_request_during_a_failed_download_does_not_skip_the_cooling_off() {
    let mut s = Schedule::new();
    assert_eq!(s.next_flow(true, 1000), Flow::Fetch);
    s.ask_for_next();
    assert_eq!(s.next_flow(true, 1001), Flow::Wait);
    assert!(s.fetch_landed());
    s.attempt_finished(false, 1010);
    assert_eq!(s.next_flow(true, 1020), Flow::WaitFor(RETRY_SECS - 10));
}

#[test]
fn nothing_owed_means_a_tick() {
    let mut s = Schedule::new();
    assert_eq!(s.next_flow(false, 1000), Flow::Tick);
    assert!(!s.fetching);
}

#[test]
fn a_failure_cools_off() {
    let mut s = Schedule::new();
    assert_eq!(s.next_flow(true, 1000), Flow::Fetch);
    assert!(s.fetch_landed());
    s.attempt_finished(false, 1000);
    assert_eq!(s.hold_until, Some(1000 + RETRY_SECS));
    assert_eq!(s.next_flow(true, 1100), Flow::WaitFor(RETRY_SECS - 100));
    assert_eq!(s.next_flow(true, 1000 + RETRY_SECS), Flow::Fetch);
}

#[test]
fn asking_jumps_the_cooling_off() {
    let mut s = Schedule::new();
    s.attempt_finished(false, 1000);
    s.ask_for_next();
    assert_eq!(s.next_flow(false, 1001), Flow::Fetch);
    assert!(!s.asked_for_next);
}

#[test]
fn a_choice_supersedes_a_download_in_the_air() {
    let mut s = Schedule::new();
    assert_eq!(s.next_flow(true, 1), Flow::Fetch);
    s.chosen_shown();
    assert!(s.superseded);
    assert!(!s.fetch_landed());
    assert!(!s.superseded);
    s.chosen_shown();
    assert!(!s.superseded);
}

#[test]
fn clicks_are_classified() {
    assert!(matches!(classify("favourite/show/met-1.jpg", &ids()), Wanted::Show(k) if k == "met-1.jpg"));
    assert!(matches!(classify("favourite/forget/a b.png", &ids()), Wanted::Forget(k) if k == "a b.png"));
    assert!(matches!(classify("3", &ids()), Wanted::Keep));
    assert!(matches!(classify("4", &ids()), Wanted::Today));
    assert!(matches!(classify("5", &ids()), Wanted::Next));
    assert!(matches!(classify("6", &ids()), Wanted::Open));
    assert!(matches!(classify("7", &ids()), Wanted::Reapply));
    assert!(matches!(classify("8", &ids()), Wanted::Login));
    assert!(matches!(classify("99", &ids()), Wanted::Nothing));
    assert_eq!(show_id("k"), "favourite/show/k");
    assert_eq!(forget_id("k"), "favourite/forget/k");
    assert!(matches!(classify(&show_id("x.jpg"), &ids()), Wanted::Show(k) if k == "x.jpg"));
}

#[test]
fn titles_fit_the_menu() {
    assert_eq!(shorten("Short"), "Short");
    let long = "L'Arlésienne: Madame Joseph-Michel Ginoux and a great deal more";
    let s = shorten(long);
    assert_eq!(s, "L'Arlésienne: Madame Joseph-Michel Ginoux a…");
    assert_eq!(s.chars().count(), 44);
    let spaced = format!("{}{}", "a".repeat(40), "      tail");
    assert_eq!(shorten(&spaced), format!("{}…", "a".repeat(40)));
    let exact = "x".repeat(44);
    assert_eq!(shorten(&exact), exact);
}

#[test]
fn the_menu_names_the_picture() {
    let mut state = State::default();
    let m = describe(&state, false);
    assert_eq!(m.title, "No picture yet");
    assert_eq!(m.byline, "Waiting for the first one");
    assert!(!m.open && !m.keep && !m.reapply);
    state.shown = Some(art("/c/met-1.jpg", "Wheat", "Vincent van Gogh, 1889"));
    let m = describe(&state, false);
    assert_eq!(m.title, "Wheat");
    assert_eq!(m.byline, "Vincent van Gogh, 1889");
    assert!(m.open && m.keep && m.reapply);
    state.shown = Some(art("/c/met-1.jpg", "Wheat", ""));
    let m = describe(&state, true);
    assert_eq!(m.byline, "The Metropolitan Museum of Art");
    assert!(!m.keep);
}

#[test]
fn the_way_back_names_the_days_picture() {
    let mut state = State::default();
    assert_eq!(way_back(&state, true), ("Back to today's picture".to_string(), false));
    state.fetched = Some(art("/c/met-1.jpg", "Wheat", ""));
    state.shown = Some(art("/c/met-1.jpg", "Wheat", ""));
    assert_eq!(way_back(&state, true).1, false);
    state.shown = Some(art("/fav/x.jpg", "Fav", ""));
    assert_eq!(way_back(&state, true), ("Back to Wheat".to_string(), true));
    assert_eq!(way_back(&state, false).1, false);
}

#[test]
fn the_glyph_is_a_framed_picture() {
    let v = glyph_rgba();
    assert_eq!(v.len(), 36 * 36 * 4);
    let alpha = |x: usize, y: usize| v[(y * 36 + x) * 4 + 3];
    assert_eq!(alpha(0, 0), 0);
    assert_eq!(alpha(2, 4), 255);
    assert_eq!(alpha(3, 5), 255);
    assert_eq!(alpha(4, 6), 0);
    assert_eq!(alpha(18, 18), 255);
    assert!(v.chunks(4).all(|p| p[0] == 0 && p[1] == 0 && p[2] == 0));
    assert_eq!(v.iter().filter(|b| **b == 255).count(), 4 * (16 * 2 + 12 * 2 + 2 + 4 + 2 + 2 + 4 + 6 + 8 + 10 + 12));
}

#[test]
fn ticks_while_cooling_off_start_nothing() {
    let mut s = Schedule::new();
    assert_eq!(s.next_flow(true, 1000), Flow::Fetch);
    assert!(s.fetch_landed());
    s.attempt_finished(false, 1000);
    for t in [1000, 1300, 1600, 1899] {
        assert!(matches!(s.next_flow(true, t), Flow::WaitFor(_)));
        assert!(!s.fetching);
    }
    assert_eq!(s.next_flow(true, 1000 + RETRY_SECS), Flow::Fetch);
}
