//! GNOME's fit-and-letterbox wallpaper settings.
//!
//! Placement is part of putting a picture up, never a setting callers have to
//! remember separately, so one write is the whole list of keys below.

use vstd::prelude::*;

verus! {

/// The settings schema that holds the desktop background.
pub const SCHEMA: &'static str = "org.gnome.desktop.background";

/// The key naming the picture.
pub const PICTURE: &'static str = "picture-uri";

/// The key naming the picture for the dark style, where the schema has one.
pub const PICTURE_DARK: &'static str = "picture-uri-dark";

/// A key and the string value written to it.
pub type Write = (String, String);

/// The keys and values of a wallpaper write, as characters.
pub open spec fn writes_view(w: Seq<Write>) -> Seq<(Seq<char>, Seq<char>)> {
    w.map_values(|p: Write| (p.0@, p.1@))
}

/// The writes, in order, that put the picture at `uri` up: fit, black, solid; then
/// the picture keys emptied, because dconf drops a same-value write without telling
/// GNOME Shell; then the picture keys set. The dark key only where the schema has it.
pub open spec fn writes_spec(uri: Seq<char>, has_dark: bool) -> Seq<(Seq<char>, Seq<char>)> {
    let placement = seq![
        ("picture-options"@, "scaled"@),
        ("primary-color"@, "#000000"@),
        ("color-shading-type"@, "solid"@),
    ];
    if has_dark {
        placement + seq![
            ("picture-uri"@, Seq::empty()),
            ("picture-uri-dark"@, Seq::empty()),
            ("picture-uri"@, uri),
            ("picture-uri-dark"@, uri),
        ]
    } else {
        placement + seq![("picture-uri"@, Seq::empty()), ("picture-uri"@, uri)]
    }
}

/// The writes that put the picture at `uri` up.
pub fn background_writes(uri: &str, has_dark: bool) -> (w: Vec<Write>)
    ensures
        writes_view(w@) == writes_spec(uri@, has_dark),
{
    let mut w: Vec<Write> = Vec::new();
    w.push((String::from_str("picture-options"), String::from_str("scaled")));
    w.push((String::from_str("primary-color"), String::from_str("#000000")));
    w.push((String::from_str("color-shading-type"), String::from_str("solid")));
    w.push((String::from_str("picture-uri"), String::new()));
    if has_dark {
        w.push((String::from_str("picture-uri-dark"), String::new()));
    }
    w.push((String::from_str("picture-uri"), String::from_str(uri)));
    if has_dark {
        w.push((String::from_str("picture-uri-dark"), String::from_str(uri)));
    }
    assert(writes_view(w@) =~= writes_spec(uri@, has_dark));
    w
}

/// Why a wallpaper write was not made, or did not hold.
#[derive(Debug, Clone)]
pub enum GnomeError {
    /// There is no session bus to carry the write to the logged-in desktop; a
    /// transient settings backend would report success while nothing reached it.
    NoSessionBus,
    /// GNOME read back another picture than the one written.
    NotStored { stored: String, expected: String },
}

/// Whether a write may be made at all: only with a session bus to carry it.
pub fn may_write(session_bus: bool) -> (r: Result<(), GnomeError>)
    ensures
        r is Ok == session_bus,
        !session_bus ==> (r matches Err(GnomeError::NoSessionBus)),
{
    if session_bus {
        Ok(())
    } else {
        Err(GnomeError::NoSessionBus)
    }
}

/// Whether the picture GNOME reads back, `stored`, is the one written.
pub fn check_readback(stored: &str, uri: &str) -> (r: Result<(), GnomeError>)
    ensures
        r is Ok == (stored@ == uri@),
        r matches Err(GnomeError::NotStored { stored: s, expected: e }) ==> s@ == stored@ && e@
            == uri@,
{
    if crate::text::same(stored, uri) {
        Ok(())
    } else {
        Err(GnomeError::NotStored { stored: String::from_str(stored), expected: String::from_str(uri) })
    }
}

/// The value `key` is left holding after `writes`, if any write touched it.
pub open spec fn final_value(writes: Seq<(Seq<char>, Seq<char>)>, key: Seq<char>) -> Option<
    Seq<char>,
>
    decreases writes.len(),
{
    if writes.len() == 0 {
        None
    } else if writes.last().0 == key {
        Some(writes.last().1)
    } else {
        final_value(writes.drop_last(), key)
    }
}

/// A wallpaper write leaves the picture fit to the screen and letterboxed in black,
/// with the picture keys naming the new picture — the dark one only where the schema
/// has it — and each picture key emptied before it is set, so that GNOME Shell hears
/// of it even when the picture has not changed.
pub proof fn law_write_fits_in_black(uri: Seq<char>, has_dark: bool)
    ensures
        ({
            let w = writes_spec(uri, has_dark);
            &&& final_value(w, "picture-options"@) == Some("scaled"@)
            &&& final_value(w, "primary-color"@) == Some("#000000"@)
            &&& final_value(w, "color-shading-type"@) == Some("solid"@)
            &&& final_value(w, "picture-uri"@) == Some(uri)
            &&& has_dark ==> final_value(w, "picture-uri-dark"@) == Some(uri)
            &&& !has_dark ==> final_value(w, "picture-uri-dark"@) is None
            &&& w[3] == ("picture-uri"@, Seq::<char>::empty())
        }),
{
    reveal_strlit("picture-options");
    reveal_strlit("primary-color");
    reveal_strlit("color-shading-type");
    reveal_strlit("picture-uri");
    reveal_strlit("picture-uri-dark");
    let w = writes_spec(uri, has_dark);
    let keys = seq!["picture-options"@, "primary-color"@, "color-shading-type"@, "picture-uri"@, "picture-uri-dark"@];
    // The keys all differ in length, so no two are the same.
    assert(keys[0].len() == 15 && keys[1].len() == 13 && keys[2].len() == 18);
    assert(keys[3].len() == 11 && keys[4].len() == 16);
    reveal_with_fuel(final_value, 8);
}

} // verus!
