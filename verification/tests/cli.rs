use art_window::cli::{parse_args, Mode};
use art_window::gallery::{reselect, Pick};

fn args(a: &[&str]) -> Vec<String> {
    a.iter().map(|s| s.to_string()).collect()
}

#[test]
fn arguments_choose_the_mode() {
    assert_eq!(parse_args(&args(&[])).unwrap(), Mode::Tray);
    assert_eq!(parse_args(&args(&["--once"])).unwrap(), Mode::Once { only_if_due: false });
    assert_eq!(parse_args(&args(&["--if-due"])).unwrap(), Mode::Once { only_if_due: true });
    assert_eq!(parse_args(&args(&["--where"])).unwrap(), Mode::Where);
    assert_eq!(parse_args(&args(&["--check"])).unwrap(), Mode::Check);
    assert_eq!(parse_args(&args(&["--quit"])).unwrap(), Mode::Quit);
    assert_eq!(parse_args(&args(&["--check", "--quit"])).unwrap(), Mode::Quit);
    assert_eq!(parse_args(&args(&["--once", "--where"])).unwrap(), Mode::Where);
    assert_eq!(parse_args(&args(&["-h", "--bogus"])).unwrap(), Mode::Help);
    assert_eq!(parse_args(&args(&["--help"])).unwrap(), Mode::Help);
    assert_eq!(parse_args(&args(&["--once", "--bogus", "--help"])).unwrap_err().arg, "--bogus");
}

#[test]
fn selection_survives_a_relist() {
    let keys = args(&["a.jpg", "b.jpg", "c.jpg"]);
    assert_eq!(reselect(Some("b.jpg"), &keys), Some(1));
    assert_eq!(reselect(Some("gone.jpg"), &keys), Some(0));
    assert_eq!(reselect(None, &keys), Some(0));
    assert_eq!(reselect(Some("a.jpg"), &vec![]), None);
    let p = Pick::Show("a.jpg".into());
    assert!(matches!(p, Pick::Show(k) if k == "a.jpg"));
    assert!(matches!(Pick::Forget("x".into()), Pick::Forget(_)));
}
