//! A directory of the user's own pictures.
//!
//! No network, no API, and a working fallback when a museum is unreachable. The
//! chosen file is used where it lies — copying it would duplicate a library the user
//! already curates.

use super::{random_u64, views, Artwork, ArtworkView, Entry};
use crate::paths::{
    extension_spec, file_name_range, file_stem_spec, path_eq, same_path, split_dot_at,
};
use crate::text::{
    ascii_lower_char, ascii_lower_spec, chars_of, has_at, lemma_leq_total_ordering,
    less, seq_leq, seq_less, string_of_range, by_name,
};
use vstd::prelude::*;
use vstd::relations::sorted_by;

verus! {

broadcast use vstd::seq_lib::group_to_multiset_ensures;

/// A folder of pictures, used where they lie.
pub struct Folder {
    pub dir: String,
}

impl Folder {
    pub fn new(dir: String) -> (f: Folder)
        ensures
            f.dir@ == dir@,
    {
        Folder { dir }
    }
}

/// Why a folder offered nothing to hang.
#[derive(Debug, Clone)]
pub enum FolderError {
    /// The folder holds no file with a picture's extension.
    NoImages { dir: String },
}

/// The extensions, in lower case, of the files a folder offers as pictures; `heic`
/// among them where the platform reads that format (macOS does).
pub open spec fn image_extension(e: Seq<char>, heic: bool) -> bool {
    ||| e == seq!['j', 'p', 'g']
    ||| e == seq!['j', 'p', 'e', 'g']
    ||| e == seq!['p', 'n', 'g']
    ||| heic && e == seq!['h', 'e', 'i', 'c']
    ||| e == seq!['t', 'i', 'f']
    ||| e == seq!['t', 'i', 'f', 'f']
}

/// Whether a listed entry is a picture: a file whose extension, in any case, is one
/// of the picture extensions.
pub open spec fn is_image(e: Entry, heic: bool) -> bool {
    &&& e.is_file
    &&& match extension_spec(e.path@) {
        Some(x) => image_extension(ascii_lower_spec(x), heic),
        None => false,
    }
}

/// The paths of the pictures among `entries`, in listing order.
pub open spec fn image_paths(entries: Seq<Entry>, heic: bool) -> Seq<Seq<char>>
    decreases entries.len(),
{
    if entries.len() == 0 {
        Seq::empty()
    } else {
        let rest = image_paths(entries.drop_last(), heic);
        if is_image(entries.last(), heic) {
            rest.push(entries.last().path@)
        } else {
            rest
        }
    }
}

/// The pictures among `entries` in name order, so that a random index means the
/// same picture across runs on the same folder.
pub open spec fn sorted_images(entries: Seq<Entry>, heic: bool) -> Seq<Seq<char>> {
    image_paths(entries, heic).sort_by(by_name())
}

/// Whether no two of `s` are the same path, compared component by component, as
/// the entries of one directory listing never are.
pub open spec fn distinct_paths(s: Seq<Seq<char>>) -> bool {
    forall|i: int, j: int| 0 <= i < j < s.len() ==> !path_eq(#[trigger] s[i], #[trigger] s[j])
}

/// `s` with every path that is the same path as `x` taken out.
pub open spec fn without(s: Seq<Seq<char>>, x: Seq<char>) -> Seq<Seq<char>>
    decreases s.len(),
{
    if s.len() == 0 {
        Seq::empty()
    } else {
        let rest = without(s.drop_last(), x);
        if path_eq(s.last(), x) {
            rest
        } else {
            rest.push(s.last())
        }
    }
}

/// What there is to choose from: the sorted pictures, less the previous pick when
/// there is something else to pick.
pub open spec fn candidates_spec(sorted: Seq<Seq<char>>, avoid: Option<Seq<char>>) -> Seq<
    Seq<char>,
> {
    match avoid {
        Some(p) => if sorted.len() > 1 {
            without(sorted, p)
        } else {
            sorted
        },
        None => sorted,
    }
}

/// How a picture from folder `dir` at `path` is described: by its file's stem, and
/// credited to the folder.
pub open spec fn folder_artwork(dir: Seq<char>, path: Seq<char>) -> ArtworkView {
    ArtworkView {
        title: match file_stem_spec(path) {
            Some(stem) => stem,
            None => seq!['U', 'n', 't', 'i', 't', 'l', 'e', 'd'],
        },
        byline: Seq::empty(),
        attribution: dir,
        details_url: None,
        path,
    }
}

/// The path of the picture last shown, if any.
pub open spec fn avoid_path(avoid: Option<&Artwork>) -> Option<Seq<char>> {
    match avoid {
        Some(a) => Some(a.path@),
        None => None,
    }
}

/// Whether `v` holds exactly the characters of `word`.
fn is_word(v: &Vec<char>, word: &str) -> (r: bool)
    ensures
        r == (v@ == word@),
{
    if v.len() != word.unicode_len() {
        return false;
    }
    let r = has_at(v, 0, word);
    assert(v@.subrange(0, word@.len() as int) =~= v@);
    r
}

/// Whether `e` is a picture this folder offers.
pub fn is_image_entry(e: &Entry, heic: bool) -> (r: bool)
    ensures
        r == is_image(*e, heic),
{
    if !e.is_file {
        return false;
    }
    let v = chars_of(e.path.as_str());
    match file_name_range(&v) {
        None => false,
        Some((a, b)) => {
            let m = split_dot_at(&v, a, b);
            if m == b {
                return false;
            }
            let mut lower: Vec<char> = Vec::new();
            let mut i = m + 1;
            while i < b
                invariant
                    m + 1 <= i <= b <= v.len(),
                    lower@ == ascii_lower_spec(v@.subrange(m + 1, i as int)),
                decreases b - i,
            {
                lower.push(ascii_lower_char(v[i]));
                i = i + 1;
                assert(lower@ =~= ascii_lower_spec(v@.subrange(m + 1, i as int)));
            }
            proof {
                reveal_strlit("jpg");
                reveal_strlit("jpeg");
                reveal_strlit("png");
                reveal_strlit("tif");
                reveal_strlit("tiff");
                reveal_strlit("heic");
                assert("heic"@ =~= seq!['h', 'e', 'i', 'c']);
                assert("jpg"@ =~= seq!['j', 'p', 'g']);
                assert("jpeg"@ =~= seq!['j', 'p', 'e', 'g']);
                assert("png"@ =~= seq!['p', 'n', 'g']);
                assert("tif"@ =~= seq!['t', 'i', 'f']);
                assert("tiff"@ =~= seq!['t', 'i', 'f', 'f']);
            }
            is_word(&lower, "jpg") || is_word(&lower, "jpeg") || is_word(&lower, "png") || (heic
                && is_word(&lower, "heic")) || is_word(&lower, "tif") || is_word(&lower, "tiff")
        },
    }
}

/// The paths of the pictures among `entries`, in listing order.
fn collect_images(entries: &Vec<Entry>, heic: bool) -> (imgs: Vec<String>)
    ensures
        views(imgs@) == image_paths(entries@, heic),
{
    let mut imgs: Vec<String> = Vec::new();
    let mut i: usize = 0;
    while i < entries.len()
        invariant
            i <= entries.len(),
            views(imgs@) == image_paths(entries@.take(i as int), heic),
        decreases entries.len() - i,
    {
        assert(entries@.take(i + 1).drop_last() =~= entries@.take(i as int));
        if is_image_entry(&entries[i], heic) {
            imgs.push(entries[i].path.clone());
            assert(views(imgs@) =~= views(imgs@.drop_last()).push(entries@[i as int].path@));
        }
        i = i + 1;
    }
    assert(entries@.take(entries.len() as int) =~= entries@);
    imgs
}

/// Puts `x` into the sorted list `v` where it belongs.
fn insert_sorted(v: &mut Vec<String>, x: String)
    requires
        sorted_by(views(old(v)@), by_name()),
    ensures
        sorted_by(views(final(v)@), by_name()),
        views(final(v)@).to_multiset() == views(old(v)@).to_multiset().insert(x@),
{
    let ghost leq = by_name();
    proof {
        lemma_leq_total_ordering();
    }
    let xv = chars_of(x.as_str());
    let mut j: usize = 0;
    while j < v.len() && !less(&xv, &chars_of(v[j].as_str()))
        invariant
            j <= v.len(),
            xv@ == x@,
            forall|i: int| 0 <= i < j ==> seq_leq(#[trigger] views(v@)[i], x@),
        decreases v.len() - j,
    {
        j = j + 1;
    }
    let ghost before = views(v@);
    v.insert(j, x);
    proof {
        let after = views(v@);
        assert(after =~= before.insert(j as int, x@));
        if j < before.len() {
            assert(seq_less(x@, before[j as int]));
            crate::text::lemma_less_asymmetric(x@, before[j as int]);
        }
        assert forall|p: int, q: int| 0 <= p < q < after.len() implies #[trigger] leq(
            after[p],
            after[q],
        ) by {
            if q < j {
                assert(leq(before[p], before[q]));
            } else if q == j {
                assert(leq(before[p], x@));
            } else if p < j {
                // before[p] <= x < before[j] <= before[q - 1]
                assert(leq(before[p], x@));
                assert(leq(x@, before[j as int]));
                if q - 1 > j {
                    assert(leq(before[j as int], before[q - 1]));
                }
                assert(leq(x@, before[q - 1]));
            } else if p == j {
                assert(leq(x@, before[j as int]));
                if q - 1 > j {
                    assert(leq(before[j as int], before[q - 1]));
                }
            } else {
                assert(leq(before[p - 1], before[q - 1]));
            }
        }
        assert(after.remove(j as int) =~= before);
        broadcast use vstd::seq_lib::group_to_multiset_ensures;

        assert(after.to_multiset().remove(x@) =~= before.to_multiset());
        assert(after[j as int] == x@);
        assert(after.to_multiset().count(x@) > 0);
        assert(after.to_multiset() =~= before.to_multiset().insert(x@));
    }
}

/// `v` sorted by name.
fn sort_paths(v: Vec<String>) -> (s: Vec<String>)
    ensures
        views(s@) == views(v@).sort_by(by_name()),
{
    let mut s: Vec<String> = Vec::new();
    let mut i: usize = 0;
    while i < v.len()
        invariant
            i <= v.len(),
            sorted_by(views(s@), by_name()),
            views(s@).to_multiset() == views(v@).take(i as int).to_multiset(),
        decreases v.len() - i,
    {
        proof {
            broadcast use vstd::seq_lib::group_to_multiset_ensures;

            assert(views(v@).take(i + 1) =~= views(v@).take(i as int).push(v@[i as int]@));
        }
        insert_sorted(&mut s, v[i].clone());
        i = i + 1;
    }
    proof {
        lemma_leq_total_ordering();
        assert(views(v@).take(v.len() as int) =~= views(v@));
        views(v@).lemma_sort_by_ensures(by_name());
        vstd::seq_lib::lemma_sorted_unique(views(s@), views(v@).sort_by(by_name()), by_name());
    }
    s
}

/// `s` with every occurrence of `x` taken out.
fn remove_all(s: Vec<String>, x: &str) -> (r: Vec<String>)
    ensures
        views(r@) == without(views(s@), x@),
{
    let mut r: Vec<String> = Vec::new();
    let mut i: usize = 0;
    while i < s.len()
        invariant
            i <= s.len(),
            views(r@) == without(views(s@).take(i as int), x@),
        decreases s.len() - i,
    {
        assert(views(s@).take(i + 1).drop_last() =~= views(s@).take(i as int));
        if !same_path(s[i].as_str(), x) {
            r.push(s[i].clone());
            assert(views(r@) =~= views(r@.drop_last()).push(s@[i as int]@));
        }
        i = i + 1;
    }
    assert(views(s@).take(s.len() as int) =~= views(s@));
    r
}

/// Removing one path from a list of different paths leaves something whenever
/// there were two to begin with.
proof fn lemma_without_nonempty(s: Seq<Seq<char>>, x: Seq<char>)
    requires
        distinct_paths(s),
        s.len() > 1,
    ensures
        without(s, x).len() > 0,
    decreases s.len(),
{
    let t = s.drop_last();
    if path_eq(s.last(), x) {
        assert(!path_eq(t.last(), x)) by {
            assert(t.last() == s[s.len() - 2]);
            assert(!path_eq(s[s.len() - 2], s[s.len() - 1]));
        }
        assert(distinct_paths(t)) by {
            assert forall|i: int, j: int| 0 <= i < j < t.len() implies !path_eq(
                #[trigger] t[i],
                #[trigger] t[j],
            ) by {
                assert(t[i] == s[i] && t[j] == s[j]);
            }
        }
        if t.len() > 1 {
            lemma_without_nonempty(t, x);
        } else {
            assert(without(t.drop_last(), x) =~= Seq::<Seq<char>>::empty());
        }
    }
}

/// Different paths stay different paths when the list is put in another order.
proof fn lemma_distinct_paths_permuted(u: Seq<Seq<char>>, s: Seq<Seq<char>>)
    requires
        distinct_paths(u),
        s.to_multiset() == u.to_multiset(),
    ensures
        distinct_paths(s),
{
    broadcast use vstd::seq_lib::group_to_multiset_ensures;

    assert(u.no_duplicates()) by {
        assert forall|i: int, j: int| 0 <= i < u.len() && 0 <= j < u.len() && i != j implies u[i]
            != u[j] by {
            if i < j {
                assert(!path_eq(u[i], u[j]));
            } else {
                assert(!path_eq(u[j], u[i]));
            }
        }
    }
    u.lemma_multiset_has_no_duplicates();
    s.lemma_multiset_has_no_duplicates_conv();
    assert forall|i: int, j: int| 0 <= i < j < s.len() implies !path_eq(
        #[trigger] s[i],
        #[trigger] s[j],
    ) by {
        assert(s.contains(s[i]) && s.contains(s[j]));
        assert(s.to_multiset().count(s[i]) > 0);
        assert(s.to_multiset().count(s[j]) > 0);
        assert(u.contains(s[i]) && u.contains(s[j]));
        let p = choose|p: int| 0 <= p < u.len() && u[p] == s[i];
        let q = choose|q: int| 0 <= q < u.len() && u[q] == s[j];
        assert(s[i] != s[j]);
        if p < q {
            assert(!path_eq(u[p], u[q]));
        } else {
            assert(!path_eq(u[q], u[p]));
        }
    }
}

/// The description of a folder picture at `path`.
fn describe(dir: &String, path: String) -> (art: Artwork)
    ensures
        art@ == folder_artwork(dir@, path@),
{
    let v = chars_of(path.as_str());
    let title = match file_name_range(&v) {
        Some((a, b)) => {
            let m = split_dot_at(&v, a, b);
            string_of_range(&v, a, m)
        },
        None => {
            proof {
                reveal_strlit("Untitled");
                assert("Untitled"@ =~= seq!['U', 'n', 't', 'i', 't', 'l', 'e', 'd']);
            }
            String::from_str("Untitled")
        },
    };
    Artwork { title, byline: String::new(), attribution: dir.clone(), details_url: None, path }
}

impl Folder {
    /// Chooses a picture from the listing `entries` of this folder, with `random`
    /// deciding which: the pictures sorted by name, less the previous pick `avoid`
    /// when there is something else, and the one `random` lands on.
    ///
    /// A listing names each file once, and no two of its paths are the same path,
    /// which is what makes the exclusion safe.
    /// `heic` says whether the platform reads HEIC pictures, as macOS does.
    pub fn pick(&self, entries: &Vec<Entry>, avoid: Option<&Artwork>, random: u64, heic: bool) -> (r: Result<
        Artwork,
        FolderError,
    >)
        requires
            distinct_paths(image_paths(entries@, heic)),
        ensures
            ({
                let sorted = sorted_images(entries@, heic);
                let c = candidates_spec(sorted, avoid_path(avoid));
                &&& sorted.len() == 0 ==> (r matches Err(FolderError::NoImages { dir }) && dir@
                    == self.dir@)
                &&& sorted.len() > 0 ==> (r matches Ok(art) && c.len() > 0 && art@
                    == folder_artwork(self.dir@, c[(random as int) % (c.len() as int)]))
            }),
    {
        let imgs = collect_images(entries, heic);
        let ghost leq = by_name();
        proof {
            lemma_leq_total_ordering();
            image_paths(entries@, heic).lemma_sort_by_ensures(leq);
            broadcast use vstd::seq_lib::group_to_multiset_ensures;

        }
        if imgs.len() == 0 {
            proof {
                assert(sorted_images(entries@, heic).to_multiset().len() == 0);
            }
            return Err(FolderError::NoImages { dir: self.dir.clone() });
        }
        let sorted = sort_paths(imgs);
        proof {
            let u = image_paths(entries@, heic);
            assert(views(sorted@) == u.sort_by(by_name()));
            assert(u.sort_by(by_name()).to_multiset() =~= u.to_multiset());
            assert(views(sorted@).len() == views(sorted@).to_multiset().len());
            assert(views(sorted@).len() == u.len());
        }
        let cands = match avoid {
            Some(previous) => if sorted.len() > 1 {
                proof {
                    // Sorting keeps the elements, so it keeps them distinct.
                    let s = views(sorted@);
                    let u = image_paths(entries@, heic);
                    assert(s.to_multiset() =~= u.to_multiset());
                    lemma_distinct_paths_permuted(u, s);
                    lemma_without_nonempty(s, previous.path@);
                }
                remove_all(sorted, previous.path.as_str())
            } else {
                sorted
            },
            None => sorted,
        };
        let k = super::pick_from(cands.len(), random);
        let path = cands[k].clone();
        Ok(describe(&self.dir, path))
    }

    /// Chooses a picture from the listing `entries` of this folder, passing over
    /// `avoid` when there is something else to pick.
    pub fn fetch(&self, entries: &Vec<Entry>, avoid: Option<&Artwork>, heic: bool) -> (r: Result<
        Artwork,
        FolderError,
    >)
        requires
            distinct_paths(image_paths(entries@, heic)),
        ensures
            ({
                let sorted = sorted_images(entries@, heic);
                let c = candidates_spec(sorted, avoid_path(avoid));
                &&& sorted.len() == 0 ==> (r matches Err(FolderError::NoImages { dir }) && dir@
                    == self.dir@)
                &&& sorted.len() > 0 ==> (r matches Ok(art) && exists|i: int|
                    0 <= i < c.len() && art@ == folder_artwork(self.dir@, #[trigger] c[i]))
                &&& sorted.len() > 0 ==> exists|n: u64|
                    #[trigger] super::hashes(n, 0) && (r matches Ok(art) && art@ == folder_artwork(
                        self.dir@,
                        c[(n as int) % (c.len() as int)],
                    ))
            }),
    {
        let random = random_u64(0);
        let r = self.pick(entries, avoid, random, heic);
        proof {
            let sorted = sorted_images(entries@, heic);
            let c = candidates_spec(sorted, avoid_path(avoid));
            if sorted.len() > 0 {
                let i = (random as int) % (c.len() as int);
                assert(0 <= i < c.len());
                assert(c[i] == c[i]);
                assert(super::hashes(random, 0));
            }
        }
        r
    }
}

/// Taking a value out leaves none of it behind.
proof fn lemma_without_excludes(s: Seq<Seq<char>>, x: Seq<char>)
    ensures
        forall|i: int| 0 <= i < without(s, x).len() ==> !path_eq(#[trigger] without(s, x)[i], x),
        forall|i: int| 0 <= i < without(s, x).len() ==> s.contains(#[trigger] without(s, x)[i]),
    decreases s.len(),
{
    if s.len() > 0 {
        let rest = without(s.drop_last(), x);
        lemma_without_excludes(s.drop_last(), x);
        let all = without(s, x);
        assert forall|i: int| 0 <= i < all.len() implies !path_eq(#[trigger] all[i], x) && s.contains(
            all[i],
        ) by {
            if i < rest.len() {
                assert(all[i] == rest[i]);
                let j = choose|j: int| 0 <= j < s.drop_last().len() && s.drop_last()[j] == rest[i];
                assert(s[j] == rest[i]);
            } else {
                assert(all[i] == s.last());
                assert(s[s.len() - 1] == s.last());
            }
        }
    }
}

/// Today's painting is not yesterday's: when the folder has another picture to
/// offer, the one last shown is never chosen, however its path is spelled, and
/// whatever is chosen is one of the folder's pictures.
pub proof fn law_folder_avoids_last(sorted: Seq<Seq<char>>, last: Seq<char>, i: int)
    requires
        sorted.len() > 1,
        0 <= i < candidates_spec(sorted, Some(last)).len(),
    ensures
        !path_eq(candidates_spec(sorted, Some(last))[i], last),
        sorted.contains(candidates_spec(sorted, Some(last))[i]),
{
    lemma_without_excludes(sorted, last);
}

/// The pictures a folder offers are exactly its files named `.jpg`, `.jpeg`, `.png`,
/// `.tif` or `.tiff` — and `.heic` where the platform reads it — in any mix of upper
/// and lower case; no other file is one.
pub proof fn law_picture_extensions(e: Entry, heic: bool)
    ensures
        is_image(e, heic) <==> e.is_file && (extension_spec(e.path@) matches Some(x) && {
            let l = ascii_lower_spec(x);
            ||| l == "jpg"@
            ||| l == "jpeg"@
            ||| l == "png"@
            ||| l == "tif"@
            ||| l == "tiff"@
            ||| heic && l == "heic"@
        }),
{
    reveal_strlit("jpg");
    reveal_strlit("jpeg");
    reveal_strlit("png");
    reveal_strlit("tif");
    reveal_strlit("tiff");
    reveal_strlit("heic");
    assert("jpg"@ =~= seq!['j', 'p', 'g']);
    assert("jpeg"@ =~= seq!['j', 'p', 'e', 'g']);
    assert("png"@ =~= seq!['p', 'n', 'g']);
    assert("tif"@ =~= seq!['t', 'i', 'f']);
    assert("tiff"@ =~= seq!['t', 'i', 'f', 'f']);
    assert("heic"@ =~= seq!['h', 'e', 'i', 'c']);
}

} // verus!
