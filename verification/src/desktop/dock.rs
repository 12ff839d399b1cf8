//! The Dock's own store of wallpapers, one per Space on every display.
//!
//! `~/Library/Application Support/Dock/desktoppicture.db` is SQLite: `pictures`
//! has one row per slot, `preferences(key, data_id, picture_id)` the settings keyed
//! by slot, and `data(value)` a shared pool of values. Key 1 is the image path, 2 the
//! placement, and 3, 4 and 5 the fill colour, one row per channel. The database is
//! read and written by the caller; which rows to write, and whether to write at all,
//! is decided here.

use crate::paths::{join, join_spec, trim_slashes};
use crate::text::{chars_of, string_of_range};
use vstd::prelude::*;

verus! {

/// Placement code the Dock stores for "scale to fit, letterbox the remainder".
pub const DOCK_PLACEMENT_FIT: i64 = 5;

/// Where the Dock keeps its store, for the home directory `home`.
pub fn dock_store(home: &str) -> (p: String)
    ensures
        p@ == join_spec(home@, "Library/Application Support/Dock/desktoppicture.db"@),
{
    join(home, "Library/Application Support/Dock/desktoppicture.db")
}

/// What is left of `path` below `home`, when `home` is a whole-component prefix of
/// it, as `Path::strip_prefix` gives it for a path without repeated `/`.
pub open spec fn below_spec(path: Seq<char>, home: Seq<char>) -> Option<Seq<char>> {
    let h = trim_slashes(home);
    if home.len() == 0 {
        Some(path)
    } else if path == h {
        Some(Seq::empty())
    } else if h.len() < path.len() && path.take(h.len() as int) == h && path[h.len() as int]
        == '/' {
        Some(path.skip(h.len() + 1int))
    } else {
        None
    }
}

/// `path` as the Dock records it: a path under the home directory begins `~/`,
/// because the Dock matches only its own form.
pub open spec fn abbreviate_spec(path: Seq<char>, home: Option<Seq<char>>) -> Seq<char> {
    match home {
        Some(h) => match below_spec(path, h) {
            Some(rest) => seq!['~', '/'] + rest,
            None => path,
        },
        None => path,
    }
}

/// `path` as the Dock records it, for the home directory `home` if one is known.
pub fn abbreviate(path: &str, home: Option<&str>) -> (r: String)
    ensures
        r@ == abbreviate_spec(path@, match home {
            Some(h) => Some(h@),
            None => None,
        }),
{
    let h = match home {
        Some(h) => h,
        None => {
            return String::from_str(path);
        },
    };
    let pv = chars_of(path);
    let hv = chars_of(h);
    let ghost t = trim_slashes(h@);
    let mut n = hv.len();
    assert(hv@.take(n as int) =~= h@);
    while n > 0 && hv[n - 1] == '/'
        invariant
            n <= hv.len(),
            hv@ == h@,
            trim_slashes(h@) == trim_slashes(hv@.take(n as int)),
        decreases n,
    {
        assert(hv@.take(n as int).drop_last() =~= hv@.take(n - 1));
        n = n - 1;
    }
    assert(hv@.take(hv.len() as int) =~= hv@);
    assert(trim_slashes(hv@.take(n as int)) == hv@.take(n as int));
    let rest: Option<String> = if hv.len() == 0 {
        Some(String::from_str(path))
    } else {
        let head_matches = n <= pv.len() && {
            let mut i: usize = 0;
            let mut ok = true;
            while i < n
                invariant
                    n <= pv.len(),
                    n <= hv.len(),
                    i <= n,
                    ok == (forall|j: int| 0 <= j < i ==> pv@[j] == hv@[j]),
                decreases n - i,
            {
                if pv[i] != hv[i] {
                    ok = false;
                }
                i = i + 1;
            }
            ok
        };
        proof {
            if n <= pv.len() {
                if head_matches {
                    assert(pv@.take(n as int) =~= t);
                } else {
                    assert(pv@.take(n as int) != t) by {
                        let j = choose|j: int| 0 <= j < n && pv@[j] != hv@[j];
                        assert(pv@.take(n as int)[j] != t[j]);
                    }
                }
            }
        }
        if head_matches && n == pv.len() {
            assert(pv@ =~= t);
            Some(String::new())
        } else if head_matches && n < pv.len() && pv[n] == '/' {
            assert(path@ != t);
            let r = string_of_range(&pv, n + 1, pv.len());
            assert(r@ =~= path@.skip(n + 1));
            Some(r)
        } else {
            assert(path@ != t) by {
                if path@ == t {
                    assert(pv@.take(n as int) =~= t);
                }
            }
            None
        }
    };
    match rest {
        Some(r) => {
            let mut out = String::from_str("~/");
            proof {
                reveal_strlit("~/");
            }
            out.append(r.as_str());
            out
        },
        None => String::from_str(path),
    }
}

/// Whether the store needs rewriting: it has slots, and not every one of them
/// already names the picture. Restarting the Dock for nothing makes it blink.
pub fn needs_spreading(slots: i64, already: i64) -> (r: bool)
    ensures
        r == (slots != 0 && already != slots),
{
    slots != 0 && already != slots
}

/// The rows written for one slot: the image, its placement, and black in each of
/// the three colour channels.
pub open spec fn slot_rows(path_id: i64, fit_id: i64, black_id: i64, picture_id: i64) -> Seq<
    (i64, i64, i64),
> {
    seq![
        (1, path_id, picture_id),
        (2, fit_id, picture_id),
        (3, black_id, picture_id),
        (4, black_id, picture_id),
        (5, black_id, picture_id),
    ]
}

/// The preferences rows that point every slot in `picture_ids` at the picture, fit
/// and letterboxed in black, slot by slot.
pub open spec fn rows_spec(path_id: i64, fit_id: i64, black_id: i64, picture_ids: Seq<i64>) -> Seq<
    (i64, i64, i64),
>
    decreases picture_ids.len(),
{
    if picture_ids.len() == 0 {
        Seq::empty()
    } else {
        rows_spec(path_id, fit_id, black_id, picture_ids.drop_last()) + slot_rows(
            path_id,
            fit_id,
            black_id,
            picture_ids.last(),
        )
    }
}

/// The rows to insert once the old image, placement and colour rows are deleted.
pub fn preference_rows(path_id: i64, fit_id: i64, black_id: i64, picture_ids: &Vec<i64>) -> (rows:
    Vec<(i64, i64, i64)>)
    ensures
        rows@ == rows_spec(path_id, fit_id, black_id, picture_ids@),
{
    let mut rows: Vec<(i64, i64, i64)> = Vec::new();
    let mut i: usize = 0;
    while i < picture_ids.len()
        invariant
            i <= picture_ids.len(),
            rows@ == rows_spec(path_id, fit_id, black_id, picture_ids@.take(i as int)),
        decreases picture_ids.len() - i,
    {
        let id = picture_ids[i];
        assert(picture_ids@.take(i + 1).drop_last() =~= picture_ids@.take(i as int));
        rows.push((1, path_id, id));
        rows.push((2, fit_id, id));
        rows.push((3, black_id, id));
        rows.push((4, black_id, id));
        rows.push((5, black_id, id));
        i = i + 1;
        assert(rows@ =~= rows_spec(path_id, fit_id, black_id, picture_ids@.take(i as int)));
    }
    assert(picture_ids@.take(picture_ids.len() as int) =~= picture_ids@);
    rows
}

} // verus!
