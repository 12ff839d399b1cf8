use art_window::paths::{file_name, join, same_path};
use art_window::text::{decimal, parse_u64, trim, trim_end};

#[test]
fn decimal_spells_numbers() {
    assert_eq!(decimal(0), "0");
    assert_eq!(decimal(7), "7");
    assert_eq!(decimal(436535), "436535");
    assert_eq!(decimal(u64::MAX), "18446744073709551615");
}

#[test]
fn parse_reads_what_std_reads() {
    assert_eq!(parse_u64("436535"), Some(436535));
    assert_eq!(parse_u64("+12"), Some(12));
    assert_eq!(parse_u64("007"), Some(7));
    assert_eq!(parse_u64(""), None);
    assert_eq!(parse_u64("+"), None);
    assert_eq!(parse_u64("-1"), None);
    assert_eq!(parse_u64("12a"), None);
    assert_eq!(parse_u64("18446744073709551615"), Some(u64::MAX));
    assert_eq!(parse_u64("18446744073709551616"), None);
    for s in ["0", "1", "99", "+5", "123456789", "x", " 1", "1 "] {
        assert_eq!(parse_u64(s), s.parse::<u64>().ok(), "{s:?}");
    }
}

#[test]
fn decimal_reads_back() {
    for n in [0u64, 1, 9, 10, 99, 100, 1234567, u64::MAX] {
        assert_eq!(parse_u64(&decimal(n)), Some(n));
    }
}

#[test]
fn trim_matches_std() {
    for s in ["", "  ", " a ", "\tVincent van Gogh\n", "x", "\u{3000}y\u{a0}", "a b"] {
        assert_eq!(trim(s), s.trim(), "{s:?}");
        assert_eq!(trim_end(s), s.trim_end(), "{s:?}");
    }
}

#[test]
fn paths_read_like_std() {
    assert_eq!(file_name("/a/b/met-1.jpg").as_deref(), Some("met-1.jpg"));
    assert_eq!(file_name("/a/b/").as_deref(), Some("b"));
    assert_eq!(file_name("name").as_deref(), Some("name"));
    assert_eq!(file_name("/"), None);
    assert_eq!(file_name("/a/.."), None);
    // A trailing `.` component is passed over, as `Path::components` does.
    assert_eq!(file_name("foo.txt/.").as_deref(), Some("foo.txt"));
    assert_eq!(file_name("/a/b/././/").as_deref(), Some("b"));
    assert_eq!(file_name("."), None);
    assert_eq!(file_name("./."), None);
    assert_eq!(file_name("/."), None);
    assert_eq!(file_name("a.").as_deref(), Some("a."));
    for p in ["foo.txt/.", "/a/b/././/", ".", "./.", "/.", "a.", "/x/y.z", "x//"] {
        let std_name = std::path::Path::new(p).file_name().map(|n| n.to_string_lossy().into_owned());
        assert_eq!(file_name(p), std_name, "{p}");
    }
    assert_eq!(join("/cache", "met-1.jpg"), "/cache/met-1.jpg");
    assert_eq!(join("/cache/", "x"), "/cache/x");
    assert_eq!(join("", "x"), "x");
    assert_eq!(join("/cache", "/abs"), "/abs");
}

#[test]
fn paths_compare_like_std() {
    let paths = [
        "a/b", "a//b", "a/b/", "a/./b", "./a/b", "/a/b", "//a/b", "a/b/.", "a/../b", "a/..", "",
        ".", "./", "/", "/.", "a/b/c",
    ];
    for x in paths {
        for y in paths {
            let std_eq = std::path::Path::new(x) == std::path::Path::new(y);
            assert_eq!(same_path(x, y), std_eq, "{x:?} {y:?}");
        }
    }
}
