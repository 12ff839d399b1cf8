use art_window::desktop::dock::{abbreviate, dock_store, needs_spreading, preference_rows, DOCK_PLACEMENT_FIT};
use art_window::desktop::gnome::{background_writes, check_readback, may_write, GnomeError};
use art_window::desktop::login::{
    agent_path, agent_plist, autostart_path, desktop_entry, escape, exec_arg, log_path,
};
use art_window::desktop::Pinned;

fn pairs(w: Vec<(String, String)>) -> Vec<(String, String)> {
    w
}

#[test]
fn a_gnome_write_fits_in_black() {
    let uri = "file:///home/u/.local/share/artwindow/cache/met-1.jpg";
    let w = pairs(background_writes(uri, false));
    let expected: Vec<(String, String)> = vec![
        ("picture-options", "scaled"),
        ("primary-color", "#000000"),
        ("color-shading-type", "solid"),
        ("picture-uri", ""),
        ("picture-uri", uri),
    ]
    .into_iter()
    .map(|(k, v)| (k.to_string(), v.to_string()))
    .collect();
    assert_eq!(w, expected);
    let d = background_writes(uri, true);
    assert_eq!(d.len(), 7);
    assert_eq!(d[4], ("picture-uri-dark".to_string(), String::new()));
    assert_eq!(d[6], ("picture-uri-dark".to_string(), uri.to_string()));
}

#[test]
fn gnome_writes_need_a_session_bus_and_must_hold() {
    assert!(may_write(true).is_ok());
    assert!(matches!(may_write(false), Err(GnomeError::NoSessionBus)));
    assert!(check_readback("file:///a", "file:///a").is_ok());
    match check_readback("", "file:///a") {
        Err(GnomeError::NotStored { stored, expected }) => {
            assert_eq!(stored, "");
            assert_eq!(expected, "file:///a");
        }
        other => panic!("unexpected {other:?}"),
    }
}

#[test]
fn the_dock_sees_paths_its_own_way() {
    assert_eq!(abbreviate("/Users/u/Library/x.jpg", Some("/Users/u")), "~/Library/x.jpg");
    assert_eq!(abbreviate("/Users/u/Library/x.jpg", Some("/Users/u/")), "~/Library/x.jpg");
    assert_eq!(abbreviate("/Users/uv/x.jpg", Some("/Users/u")), "/Users/uv/x.jpg");
    assert_eq!(abbreviate("/Users/u", Some("/Users/u")), "~/");
    assert_eq!(abbreviate("/tmp/x.jpg", None), "/tmp/x.jpg");
    for (p, h) in [("/Users/u/a/b.jpg", "/Users/u"), ("/x/y", "/x"), ("/x", "/y")] {
        let std_form = match std::path::Path::new(p).strip_prefix(h) {
            Ok(rest) => format!("~/{}", rest.display()),
            Err(_) => p.to_string(),
        };
        assert_eq!(abbreviate(p, Some(h)), std_form);
    }
    assert_eq!(dock_store("/Users/u"), "/Users/u/Library/Application Support/Dock/desktoppicture.db");
}

#[test]
fn the_dock_is_rewritten_only_when_it_helps() {
    assert!(!needs_spreading(0, 0));
    assert!(!needs_spreading(49, 49));
    assert!(needs_spreading(49, 2));
    let rows = preference_rows(10, 11, 12, &vec![1, 2]);
    assert_eq!(
        rows,
        vec![
            (1, 10, 1), (2, 11, 1), (3, 12, 1), (4, 12, 1), (5, 12, 1),
            (1, 10, 2), (2, 11, 2), (3, 12, 2), (4, 12, 2), (5, 12, 2),
        ]
    );
    assert_eq!(DOCK_PLACEMENT_FIT, 5);
    assert!(preference_rows(1, 2, 3, &vec![]).is_empty());
}

#[test]
fn the_login_agent_runs_the_program_once() {
    assert_eq!(agent_path("/Users/u"), "/Users/u/Library/LaunchAgents/dev.artwindow.tray.plist");
    assert_eq!(log_path("/Users/u"), "/Users/u/Library/Logs/ArtWindow.log");
    assert_eq!(escape("a&b<c>d"), "a&amp;b&lt;c>d");
    let plist = agent_plist("/Apps/Art & Window/art-window", "/Users/u/Library/Logs/ArtWindow.log");
    assert!(plist.starts_with("<?xml version=\"1.0\" encoding=\"UTF-8\"?>\n"));
    assert!(plist.contains("\t\t<string>/Apps/Art &amp; Window/art-window</string>\n"));
    assert!(plist.contains("<key>RunAtLoad</key>\n\t<true/>"));
    assert!(!plist.contains("KeepAlive"));
    assert_eq!(plist.matches("<string>/Users/u/Library/Logs/ArtWindow.log</string>").count(), 2);
    assert!(plist.ends_with("</dict>\n</plist>\n"));
}

#[test]
fn a_partial_pin_is_owed_again() {
    assert!(Pinned::InPart.owes_another_try());
    assert!(!Pinned::Everywhere.owes_another_try());
}

#[test]
fn the_autostart_entry_starts_this_program() {
    assert_eq!(
        autostart_path("/home/u/.config"),
        "/home/u/.config/autostart/dev.artwindow.desktop"
    );
    assert_eq!(
        desktop_entry("/home/u/.local/bin/art-window"),
        "[Desktop Entry]\nType=Application\nName=Art Window\nExec=\"/home/u/.local/bin/art-window\"\nX-GNOME-Autostart-enabled=true\n"
    );
}

#[test]
fn an_exec_argument_keeps_odd_characters_to_itself() {
    assert_eq!(exec_arg("/a b/c"), "\"/a b/c\"");
    assert_eq!(exec_arg("x\"y"), "\"x\\\\\"y\"");
    assert_eq!(exec_arg("$HOME`"), "\"\\\\$HOME\\\\`\"");
    assert_eq!(exec_arg("a\\b"), "\"a\\\\\\\\b\"");
    assert_eq!(exec_arg("50%"), "\"50%%\"");
}
