//! The window in which kept pictures can be looked at, and not merely named.
//!
//! The window itself is drawn by the desktop's toolkit. What belongs here is the
//! vocabulary a click comes back in, and which picture stays selected when the list
//! is rebuilt underneath the window.

use crate::art::views;
use vstd::prelude::*;

verus! {

/// What somebody asked of a picture in the window, naming it by its favourites key
/// rather than by where it sat: the list can be rebuilt between the click and the
/// answer, and a position would by then mean a different painting.
#[derive(Debug)]
pub enum Pick {
    /// Hang this one on the desktop.
    Show(String),
    /// Drop this one from the list.
    Forget(String),
}

/// Where `key` first appears in `keys`, or `-1`.
pub open spec fn first_index(keys: Seq<Seq<char>>, key: Seq<char>) -> int
    decreases keys.len(),
{
    if keys.len() == 0 {
        -1
    } else {
        let i = first_index(keys.drop_last(), key);
        if i >= 0 {
            i
        } else if keys.last() == key {
            keys.len() - 1
        } else {
            -1
        }
    }
}

/// The row to select once the list is `keys`: the picture selected before, `was`,
/// where it is still there; otherwise the first row; otherwise none.
pub open spec fn reselect_spec(was: Option<Seq<char>>, keys: Seq<Seq<char>>) -> Option<int> {
    let fallback = if keys.len() > 0 {
        Some(0)
    } else {
        None
    };
    match was {
        Some(k) => if first_index(keys, k) >= 0 {
            Some(first_index(keys, k))
        } else {
            fallback
        },
        None => fallback,
    }
}

/// The row to select once the list is `keys`.
pub fn reselect(was: Option<&str>, keys: &Vec<String>) -> (r: Option<usize>)
    ensures
        ({
            let spec = reselect_spec(
                match was {
                    Some(k) => Some(k@),
                    None => None,
                },
                views(keys@),
            );
            &&& r is Some == spec is Some
            &&& r matches Some(a) ==> spec == Some(a as int)
        }),
{
    if let Some(k) = was {
        let mut i: usize = 0;
        while i < keys.len()
            invariant
                i <= keys.len(),
                was == Some(k),
                first_index(views(keys@.take(i as int)), k@) == -1,
            decreases keys.len() - i,
        {
            assert(views(keys@.take(i + 1)).drop_last() =~= views(keys@.take(i as int)));
            if crate::text::same(keys[i].as_str(), k) {
                proof {
                    let pre = views(keys@.take(i + 1));
                    assert(views(keys@).take(i + 1) =~= pre);
                    assert(pre.last() == k@);
                    assert(first_index(pre, k@) == i);
                    lemma_first_index_prefix(views(keys@), k@, (i + 1) as int);
                }
                return Some(i);
            }
            i = i + 1;
        }
        proof {
            assert(keys@.take(keys.len() as int) =~= keys@);
        }
    }
    if keys.len() > 0 {
        Some(0)
    } else {
        None
    }
}

/// A key found in a prefix is found at the same place in the whole.
proof fn lemma_first_index_prefix(keys: Seq<Seq<char>>, key: Seq<char>, n: int)
    requires
        0 <= n <= keys.len(),
        first_index(keys.take(n), key) >= 0,
    ensures
        first_index(keys, key) == first_index(keys.take(n), key),
    decreases keys.len(),
{
    if n < keys.len() {
        assert(keys.drop_last().take(n) =~= keys.take(n));
        lemma_first_index_prefix(keys.drop_last(), key, n);
    } else {
        assert(keys.take(n) =~= keys);
    }
}

/// Of `a`, in order, those that `b` does not hold.
pub open spec fn not_among(a: Seq<Seq<char>>, b: Seq<Seq<char>>) -> Seq<Seq<char>>
    decreases a.len(),
{
    if a.len() == 0 {
        Seq::empty()
    } else {
        let rest = not_among(a.drop_last(), b);
        if b.contains(a.last()) {
            rest
        } else {
            rest.push(a.last())
        }
    }
}

/// Whether `keys` holds `key`.
fn holds_key(keys: &Vec<String>, key: &str) -> (r: bool)
    ensures
        r == views(keys@).contains(key@),
{
    let mut i: usize = 0;
    while i < keys.len()
        invariant
            i <= keys.len(),
            forall|j: int| 0 <= j < i ==> #[trigger] keys@[j]@ != key@,
        decreases keys.len() - i,
    {
        if crate::text::same(keys[i].as_str(), key) {
            assert(views(keys@)[i as int] == key@);
            return true;
        }
        i = i + 1;
    }
    assert(!views(keys@).contains(key@)) by {
        if views(keys@).contains(key@) {
            let j = choose|j: int| 0 <= j < keys.len() && views(keys@)[j] == key@;
            assert(keys@[j]@ == key@);
        }
    }
    false
}

/// Of `a`, in order, those that `b` does not hold.
fn keys_not_among(a: &Vec<String>, b: &Vec<String>) -> (r: Vec<String>)
    ensures
        views(r@) == not_among(views(a@), views(b@)),
{
    let mut r: Vec<String> = Vec::new();
    let mut i: usize = 0;
    while i < a.len()
        invariant
            i <= a.len(),
            views(r@) == not_among(views(a@).take(i as int), views(b@)),
        decreases a.len() - i,
    {
        assert(views(a@).take(i + 1).drop_last() =~= views(a@).take(i as int));
        assert(views(a@).take(i + 1).last() == a@[i as int]@);
        if !holds_key(b, a[i].as_str()) {
            r.push(a[i].clone());
            assert(views(r@) =~= views(r@).drop_last().push(a@[i as int]@));
        }
        i = i + 1;
    }
    assert(views(a@).take(a.len() as int) =~= views(a@));
    r
}

/// How the cache of thumbnails follows the list when it is rebuilt: the thumbnails
/// of pictures no longer kept, among the `cached` keys, are thrown away, and the
/// kept pictures, among `keys`, that have none yet get one made, in list order.
/// Thumbnails are slow to make, so those still wanted are left as they are.
pub fn thumbnail_changes(cached: &Vec<String>, keys: &Vec<String>) -> (r: (
    Vec<String>,
    Vec<String>,
))
    ensures
        views(r.0@) == not_among(views(cached@), views(keys@)),
        views(r.1@) == not_among(views(keys@), views(cached@)),
{
    (keys_not_among(cached, keys), keys_not_among(keys, cached))
}

} // verus!
