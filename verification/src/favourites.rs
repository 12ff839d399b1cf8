//! Pictures kept back from the rotation.
//!
//! The cache holds exactly one picture: whatever is on the desktop. Keeping one
//! therefore means taking a copy, into a folder this module owns outright, where
//! nothing else is entitled to tidy it away. What a copy is called, which copies may
//! be deleted, and which picture a menu row means are decided here; the copying,
//! the deleting and the reading and writing of the list are done by the caller.

use crate::art::{views, Artwork, ArtworkView, Entry};
use crate::paths::{
    file_name_range, file_name_spec, is_component, is_rooted, join, join_spec, lemma_parts_of_join,
    parts, path_eq, rfind, rfind_in, same_path,
};
use crate::text::{chars_of, decimal, decimal_spec, push_char, same, string_of_range};
use vstd::prelude::*;

verus! {

/// One kept picture: the copy, and the original it was taken from.
#[derive(Debug, Clone)]
pub struct Kept {
    /// Where the picture stood when it was kept. Never opened again: it is only how
    /// a picture on the desktop is recognised as one already kept.
    pub origin: String,
    /// The picture as it now is, its `path` pointing at the copy.
    pub art: Artwork,
}

/// A [`Kept`] as characters.
pub struct KeptView {
    pub origin: Seq<char>,
    pub art: ArtworkView,
}

impl View for Kept {
    type V = KeptView;

    open spec fn view(&self) -> KeptView {
        KeptView { origin: self.origin@, art: self.art@ }
    }
}

/// How a kept picture is named in a menu: the copy's file name, which is unique
/// within the folder by construction and survives the list being reordered.
pub open spec fn key_spec(k: KeptView) -> Seq<char> {
    match file_name_spec(k.art.path) {
        Some(n) => n,
        None => Seq::empty(),
    }
}

/// The list as views.
pub open spec fn kept_views(v: Seq<Kept>) -> Seq<KeptView> {
    v.map_values(|k: Kept| k@)
}

/// Whether the kept picture `k` is the one at `path`, as a copy or as the original,
/// paths being compared component by component.
pub open spec fn is_at(k: KeptView, path: Seq<char>) -> bool {
    path_eq(k.origin, path) || path_eq(k.art.path, path)
}

/// Whether `path` is already kept: one of the copies, or the original of one.
pub open spec fn holds_spec(list: Seq<KeptView>, path: Seq<char>) -> bool {
    exists|i: int| 0 <= i < list.len() && is_at(#[trigger] list[i], path)
}

/// Where in `list` the first picture named `key` is, or `-1`.
pub open spec fn find_key(list: Seq<KeptView>, key: Seq<char>) -> int
    decreases list.len(),
{
    if list.len() == 0 {
        -1
    } else if key_spec(list[0]) == key {
        0
    } else {
        let rest = find_key(list.drop_first(), key);
        if rest < 0 {
            -1
        } else {
            rest + 1
        }
    }
}

/// `list` without the pictures named `key`.
pub open spec fn without_key(list: Seq<KeptView>, key: Seq<char>) -> Seq<KeptView>
    decreases list.len(),
{
    if list.len() == 0 {
        Seq::empty()
    } else {
        let rest = without_key(list.drop_last(), key);
        if key_spec(list.last()) == key {
            rest
        } else {
            rest.push(list.last())
        }
    }
}

/// Whether some kept picture's copy is at `path`, compared component by component.
pub open spec fn claimed_at(list: Seq<KeptView>, path: Seq<char>) -> bool {
    exists|i: int| 0 <= i < list.len() && path_eq(#[trigger] list[i].art.path, path)
}

/// The name of the list file, kept beside the copies it names.
pub open spec fn index_name() -> Seq<char> {
    "index.json"@
}

/// Of the files `entries` lists in the folder `dir`, those nothing claims any more,
/// other than `keep` and the list itself.
pub open spec fn unclaimed(
    entries: Seq<Entry>,
    dir: Seq<char>,
    list: Seq<KeptView>,
    keep: Seq<char>,
) -> Seq<Seq<char>>
    decreases entries.len(),
{
    if entries.len() == 0 {
        Seq::empty()
    } else {
        let rest = unclaimed(entries.drop_last(), dir, list, keep);
        let e = entries.last();
        if e.is_file && !path_eq(e.path@, keep) && !path_eq(e.path@, join_spec(dir, index_name()))
            && !claimed_at(list, e.path@) {
            rest.push(e.path@)
        } else {
            rest
        }
    }
}

/// The name a copy of `origin` starts from: its file name, or `picture`.
pub open spec fn copy_name(origin: Seq<char>) -> Seq<char> {
    match file_name_spec(origin) {
        Some(n) => n,
        None => seq!['p', 'i', 'c', 't', 'u', 'r', 'e'],
    }
}

/// The name split at its last `.`, as `str::rsplit_once('.')` splits it, the `.`
/// going with the extension; a name without one is all stem.
pub open spec fn stem_and_extension(name: Seq<char>) -> (Seq<char>, Seq<char>) {
    let k = rfind(name, '.');
    if k < 0 {
        (name, Seq::empty())
    } else {
        (name.take(k), name.skip(k))
    }
}

/// The `n`th name tried for a copy of `origin` in `dir`: the original name first,
/// then `stem-2.ext`, `stem-3.ext` and so on.
pub open spec fn candidate_spec(dir: Seq<char>, origin: Seq<char>, n: nat) -> Seq<char> {
    let name = copy_name(origin);
    let (stem, ext) = stem_and_extension(name);
    if n <= 1 {
        join_spec(dir, name)
    } else {
        join_spec(dir, stem + seq!['-'] + decimal_spec(n) + ext)
    }
}

/// Whether `path` is taken: a file already there, or a copy the list names, paths
/// being compared component by component.
pub open spec fn taken(existing: Seq<Seq<char>>, list: Seq<KeptView>, path: Seq<char>) -> bool {
    listed_at(existing, path) || claimed_at(list, path)
}

/// Whether one of `existing` is the same path as `path`, compared component by
/// component.
pub open spec fn listed_at(existing: Seq<Seq<char>>, path: Seq<char>) -> bool {
    exists|i: int| 0 <= i < existing.len() && path_eq(#[trigger] existing[i], path)
}

/// The list, and the folder of copies it describes.
pub struct Favourites {
    dir: String,
    kept: Vec<Kept>,
}

impl View for Favourites {
    type V = Seq<KeptView>;

    closed spec fn view(&self) -> Seq<KeptView> {
        kept_views(self.kept@)
    }
}

/// A copy of a kept picture.
fn copy_kept(k: &Kept) -> (r: Kept)
    ensures
        r@ == k@,
{
    Kept { origin: k.origin.clone(), art: k.art.duplicate() }
}

impl Kept {
    /// How this picture is named in a menu id.
    pub fn key(&self) -> (k: String)
        ensures
            k@ == key_spec(self@),
    {
        let v = chars_of(self.art.path.as_str());
        match file_name_range(&v) {
            Some((a, b)) => string_of_range(&v, a, b),
            None => String::new(),
        }
    }
}

impl Favourites {
    /// The folder the copies live in.
    pub closed spec fn dir_view(&self) -> Seq<char> {
        self.dir@
    }

    /// The list `kept`, describing the folder `dir`.
    pub fn with_list(dir: String, kept: Vec<Kept>) -> (f: Favourites)
        ensures
            f.dir_view() == dir@,
            f@ == kept_views(kept@),
    {
        Favourites { dir, kept }
    }

    /// The folder the copies live in.
    pub fn dir(&self) -> (d: &String)
        ensures
            d@ == self.dir_view(),
    {
        &self.dir
    }

    /// The list, as it is to be written out.
    pub fn list(&self) -> (v: Vec<Kept>)
        ensures
            kept_views(v@) == self@,
    {
        let mut v: Vec<Kept> = Vec::new();
        let mut i: usize = 0;
        while i < self.kept.len()
            invariant
                i <= self.kept.len(),
                v.len() == i,
                self@.len() == self.kept.len(),
                kept_views(v@) == self@.take(i as int),
            decreases self.kept.len() - i,
        {
            v.push(copy_kept(&self.kept[i]));
            proof {
                assert(self@[i as int] == self.kept@[i as int]@);
                assert(kept_views(v@)[i as int] == v@[i as int]@);
            }
            i = i + 1;
            assert(kept_views(v@) =~= self@.take(i as int));
        }
        assert(self@.take(self.kept.len() as int) =~= self@);
        v
    }

    /// Where the list is written.
    pub fn index_path(&self) -> (p: String)
        ensures
            p@ == join_spec(self.dir_view(), index_name()),
    {
        join(self.dir.as_str(), "index.json")
    }

    pub fn is_empty(&self) -> (r: bool)
        ensures
            r == (self@.len() == 0),
    {
        self.kept.len() == 0
    }

    /// Whether `art` is already kept — whether it *is* one of the copies, or is the
    /// original one was taken from.
    pub fn holds(&self, art: &Artwork) -> (r: bool)
        ensures
            r == holds_spec(self@, art.path@),
    {
        let mut i: usize = 0;
        while i < self.kept.len()
            invariant
                i <= self.kept.len(),
                forall|j: int| 0 <= j < i ==> !is_at(#[trigger] self@[j], art.path@),
            decreases self.kept.len() - i,
        {
            let k = &self.kept[i];
            if same_path(k.origin.as_str(), art.path.as_str()) || same_path(
                k.art.path.as_str(),
                art.path.as_str(),
            ) {
                assert(is_at(self@[i as int], art.path@));
                return true;
            }
            i = i + 1;
        }
        false
    }

    /// The picture a menu row meant, or nothing if it has since been dropped.
    pub fn get(&self, key: &str) -> (r: Option<Artwork>)
        ensures
            ({
                let i = find_key(self@, key@);
                &&& i < 0 ==> r is None
                &&& i >= 0 ==> (r matches Some(a) && a@ == self@[i].art)
            }),
    {
        let mut i: usize = 0;
        assert(self@.skip(0) =~= self@);
        while i < self.kept.len()
            invariant
                i <= self.kept.len(),
                find_key(self@, key@) == if find_key(self@.skip(i as int), key@) < 0 {
                    -1
                } else {
                    find_key(self@.skip(i as int), key@) + i
                },
            decreases self.kept.len() - i,
        {
            let k = self.kept[i].key();
            assert(self@.skip(i as int)[0] == self@[i as int]);
            if same(k.as_str(), key) {
                return Some(self.kept[i].art.duplicate());
            }
            assert(self@.skip(i as int).drop_first() =~= self@.skip(i + 1));
            i = i + 1;
        }
        None
    }

    /// Every kept picture, in order, each with the key that names it in a menu.
    pub fn iter(&self) -> (v: Vec<(String, Artwork)>)
        ensures
            v.len() == self@.len(),
            forall|i: int|
                0 <= i < v.len() ==> (#[trigger] v@[i]).0@ == key_spec(self@[i]) && v@[i].1@
                    == self@[i].art,
    {
        let mut v: Vec<(String, Artwork)> = Vec::new();
        let mut i: usize = 0;
        while i < self.kept.len()
            invariant
                i <= self.kept.len(),
                v.len() == i,
                forall|j: int|
                    0 <= j < i ==> (#[trigger] v@[j]).0@ == key_spec(self@[j]) && v@[j].1@
                        == self@[j].art,
            decreases self.kept.len() - i,
        {
            let k = &self.kept[i];
            v.push((k.key(), k.art.duplicate()));
            i = i + 1;
        }
        v
    }

    /// Takes note of a copy of `art` made at `copy`. Keeping a kept picture does
    /// nothing.
    pub fn keep(&mut self, art: &Artwork, copy: String)
        ensures
            final(self).dir_view() == old(self).dir_view(),
            holds_spec(old(self)@, art.path@) ==> final(self)@ == old(self)@,
            !holds_spec(old(self)@, art.path@) ==> final(self)@ == old(self)@.push(
                KeptView { origin: art.path@, art: ArtworkView { path: copy@, ..art@ } },
            ),
    {
        if self.holds(art) {
            return;
        }
        let entry = Kept { origin: art.path.clone(), art: art.moved_to(copy) };
        self.kept.push(entry);
        assert(self@ =~= old(self)@.push(entry@));
    }

    /// Drops the pictures named `key` from the list. The copy itself goes at the next
    /// [`Favourites::discard_all_but`].
    pub fn forget(&mut self, key: &str)
        ensures
            final(self).dir_view() == old(self).dir_view(),
            final(self)@ == without_key(old(self)@, key@),
            final(self)@ == old(self)@.filter(|k: KeptView| key_spec(k) != key@),
    {
        proof {
            law_forget_keeps_order(self@, key@);
        }
        let mut rest: Vec<Kept> = Vec::new();
        let mut i: usize = 0;
        while i < self.kept.len()
            invariant
                i <= self.kept.len(),
                self@ == old(self)@,
                self.dir == old(self).dir,
                kept_views(rest@) == without_key(self@.take(i as int), key@),
            decreases self.kept.len() - i,
        {
            assert(self@.take(i + 1).drop_last() =~= self@.take(i as int));
            let k = self.kept[i].key();
            if !same(k.as_str(), key) {
                rest.push(copy_kept(&self.kept[i]));
                assert(kept_views(rest@) =~= kept_views(rest@.drop_last()).push(self@[i as int]));
            }
            i = i + 1;
        }
        assert(self@.take(self.kept.len() as int) =~= self@);
        self.kept = rest;
    }

    /// Whether some kept picture's copy is at `path`, compared component by component.
    fn claims_at(&self, path: &str) -> (r: bool)
        ensures
            r == claimed_at(self@, path@),
    {
        let mut i: usize = 0;
        while i < self.kept.len()
            invariant
                i <= self.kept.len(),
                forall|j: int| 0 <= j < i ==> !path_eq(#[trigger] self@[j].art.path, path@),
            decreases self.kept.len() - i,
        {
            if same_path(self.kept[i].art.path.as_str(), path) {
                assert(path_eq(self@[i as int].art.path, path@));
                return true;
            }
            i = i + 1;
        }
        false
    }

    /// Of the files `entries` lists in the folder, the copies nothing claims any
    /// more: what may be deleted. `keep`, the file on the desktop, is never among
    /// them, nor is the list itself — which is what lets a picture on screen be
    /// forgotten at once and its file wait until the desktop has moved on.
    pub fn discard_all_but(&self, entries: &Vec<Entry>, keep: &str) -> (gone: Vec<String>)
        ensures
            views(gone@) == unclaimed(entries@, self.dir_view(), self@, keep@),
    {
        proof {
            reveal_strlit("index.json");
        }
        let index = self.index_path();
        let mut gone: Vec<String> = Vec::new();
        let mut i: usize = 0;
        while i < entries.len()
            invariant
                i <= entries.len(),
                index@ == join_spec(self.dir_view(), index_name()),
                views(gone@) == unclaimed(entries@.take(i as int), self.dir_view(), self@, keep@),
            decreases entries.len() - i,
        {
            assert(entries@.take(i + 1).drop_last() =~= entries@.take(i as int));
            let e = &entries[i];
            let p = e.path.as_str();
            if e.is_file && !same_path(p, keep) && !same_path(p, index.as_str()) && !self.claims_at(
                p,
            ) {
                gone.push(e.path.clone());
                assert(views(gone@) =~= views(gone@.drop_last()).push(e.path@));
            }
            i = i + 1;
        }
        assert(entries@.take(entries.len() as int) =~= entries@);
        gone
    }
}

/// A file name holds no `/`.
proof fn lemma_file_name_plain(p: Seq<char>)
    ensures
        file_name_spec(p) matches Some(n) ==> n.len() > 0 && !n.contains('/'),
{
    let q = crate::paths::trim_tail(p);
    let k = rfind(q, '/');
    crate::paths::lemma_rfind(q, '/');
    let n = q.skip(k + 1);
    if n.contains('/') {
        let i = choose|i: int| 0 <= i < n.len() && n[i] == '/';
        assert(q[k + 1 + i] == '/');
    }
}

/// The name a copy starts from is a plain, non-empty name, and its stem and
/// extension put back together are the name.
proof fn lemma_copy_name(origin: Seq<char>)
    ensures
        copy_name(origin).len() > 0,
        !copy_name(origin).contains('/'),
        stem_and_extension(copy_name(origin)).0 + stem_and_extension(copy_name(origin)).1
            == copy_name(origin),
{
    lemma_file_name_plain(origin);
    let name = copy_name(origin);
    if file_name_spec(origin) is None {
        let pic = seq!['p', 'i', 'c', 't', 'u', 'r', 'e'];
        if pic.contains('/') {
            let i = choose|i: int| 0 <= i < pic.len() && pic[i] == '/';
        }
    }
    let k = rfind(name, '.');
    crate::paths::lemma_rfind(name, '.');
    if k >= 0 {
        assert(name.take(k) + name.skip(k) =~= name);
    } else {
        assert(name + Seq::<char>::empty() =~= name);
    }
}

/// Joining onto the same directory keeps different plain names apart.
proof fn lemma_join_injective(dir: Seq<char>, a: Seq<char>, b: Seq<char>)
    requires
        a.len() > 0 && a[0] != '/',
        b.len() > 0 && b[0] != '/',
        a != b,
    ensures
        join_spec(dir, a) != join_spec(dir, b),
{
    let pre = if dir.len() == 0 || dir.last() == '/' {
        dir
    } else {
        dir + seq!['/']
    };
    assert(join_spec(dir, a) =~= pre + a);
    assert(join_spec(dir, b) =~= pre + b);
    if pre + a == pre + b {
        assert((pre + a).skip(pre.len() as int) =~= a);
        assert((pre + b).skip(pre.len() as int) =~= b);
    }
}

/// The names tried for a copy are all different.
proof fn lemma_candidates_distinct(dir: Seq<char>, origin: Seq<char>, a: nat, b: nat)
    requires
        1 <= a < b,
    ensures
        candidate_spec(dir, origin, a) != candidate_spec(dir, origin, b),
{
    lemma_copy_name(origin);
    let name = copy_name(origin);
    let (stem, ext) = stem_and_extension(name);
    let db = decimal_spec(b);
    crate::text::lemma_decimal_digits(b);
    let nb = stem + seq!['-'] + db + ext;
    assert(name.contains(name[0]));
    assert(nb[0] != '/') by {
        if stem.len() > 0 {
            assert(nb[0] == name[0]);
        }
    }
    if a == 1 {
        assert(nb.len() > name.len());
        lemma_join_injective(dir, name, nb);
    } else {
        let da = decimal_spec(a);
        crate::text::lemma_decimal_digits(a);
        let na = stem + seq!['-'] + da + ext;
        assert(na[0] != '/') by {
            if stem.len() > 0 {
                assert(na[0] == name[0]);
            }
        }
        crate::text::lemma_decimal_injective(a, b);
        if na == nb {
            assert(na.len() == stem.len() + 1 + da.len() + ext.len());
            assert(nb.len() == stem.len() + 1 + db.len() + ext.len());
            assert(da.len() == db.len());
            let lo = stem.len() + 1;
            assert(na.subrange(lo as int, lo + da.len() as int) =~= da);
            assert(nb.subrange(lo as int, lo + db.len() as int) =~= db);
        }
        lemma_join_injective(dir, na, nb);
    }
}

/// The copy paths the list names, in order.
pub open spec fn copy_paths(list: Seq<KeptView>) -> Seq<Seq<char>> {
    list.map_values(|k: KeptView| k.art.path)
}

/// What a path is, as paths are compared: whether it begins at the root, and its
/// named components.
pub open spec fn path_key(p: Seq<char>) -> (bool, Seq<Seq<char>>) {
    (is_rooted(p), parts(p))
}

/// The names tried for a copy are all different paths.
proof fn lemma_candidates_apart(dir: Seq<char>, origin: Seq<char>, a: nat, b: nat)
    requires
        1 <= a < b,
    ensures
        !path_eq(candidate_spec(dir, origin, a), candidate_spec(dir, origin, b)),
{
    lemma_candidates_distinct(dir, origin, a, b);
    lemma_candidate_in_dir(dir, origin, a);
    lemma_candidate_in_dir(dir, origin, b);
    let ca = candidate_spec(dir, origin, a);
    let cb = candidate_spec(dir, origin, b);
    let na = choose|n: Seq<char>| is_component(n) && ca == #[trigger] join_spec(dir, n);
    let nb = choose|n: Seq<char>| is_component(n) && cb == #[trigger] join_spec(dir, n);
    lemma_parts_of_join(dir, na);
    lemma_parts_of_join(dir, nb);
}

/// No more names can be taken than there are files and copies to take them.
proof fn lemma_taken_bound(
    existing: Seq<Seq<char>>,
    list: Seq<KeptView>,
    dir: Seq<char>,
    origin: Seq<char>,
    m: nat,
)
    requires
        forall|j: nat| 1 <= j <= m ==> taken(existing, list, #[trigger] candidate_spec(dir, origin, j)),
    ensures
        m <= existing.len() + list.len(),
{
    let cs = Seq::new(m, |i: int| path_key(candidate_spec(dir, origin, (i + 1) as nat)));
    assert(cs.no_duplicates()) by {
        assert forall|i: int, j: int| 0 <= i < cs.len() && 0 <= j < cs.len() && i != j implies cs[i]
            != cs[j] by {
            if i < j {
                lemma_candidates_apart(dir, origin, (i + 1) as nat, (j + 1) as nat);
            } else {
                lemma_candidates_apart(dir, origin, (j + 1) as nat, (i + 1) as nat);
            }
        }
    }
    cs.unique_seq_to_set();
    let ekeys = existing.map_values(|p: Seq<char>| path_key(p));
    let pkeys = copy_paths(list).map_values(|p: Seq<char>| path_key(p));
    let all = ekeys.to_set().union(pkeys.to_set());
    assert(cs.to_set().subset_of(all)) by {
        assert forall|x: (bool, Seq<Seq<char>>)| cs.to_set().contains(x) implies all.contains(x) by {
            let i = choose|i: int| 0 <= i < cs.len() && cs[i] == x;
            let j = (i + 1) as nat;
            let c = candidate_spec(dir, origin, j);
            assert(taken(existing, list, c));
            if claimed_at(list, c) {
                let k = choose|k: int| 0 <= k < list.len() && path_eq(#[trigger] list[k].art.path, c);
                assert(pkeys[k] == x);
            } else {
                let k = choose|k: int| 0 <= k < existing.len() && path_eq(#[trigger] existing[k], c);
                assert(ekeys[k] == x);
            }
        }
    }
    ekeys.lemma_cardinality_of_set();
    pkeys.lemma_cardinality_of_set();
    vstd::seq_lib::seq_to_set_is_finite(ekeys);
    vstd::seq_lib::seq_to_set_is_finite(pkeys);
    vstd::set_lib::lemma_len_union(ekeys.to_set(), pkeys.to_set());
    vstd::set_lib::lemma_set_union_finite_iff(ekeys.to_set(), pkeys.to_set());
    vstd::set_lib::lemma_len_subset(cs.to_set(), all);
}

impl Favourites {
    /// Whether `path` is taken: a file already in the folder, or a copy the list names.
    fn is_taken(&self, existing: &Vec<String>, path: &String) -> (r: bool)
        ensures
            r == taken(views(existing@), self@, path@),
    {
        let mut i: usize = 0;
        while i < existing.len()
            invariant
                i <= existing.len(),
                forall|j: int| 0 <= j < i ==> !path_eq(#[trigger] existing@[j]@, path@),
            decreases existing.len() - i,
        {
            if same_path(existing[i].as_str(), path.as_str()) {
                assert(path_eq(views(existing@)[i as int], path@));
                return true;
            }
            i = i + 1;
        }
        assert(!listed_at(views(existing@), path@)) by {
            if listed_at(views(existing@), path@) {
                let j = choose|j: int|
                    0 <= j < existing.len() && path_eq(#[trigger] views(existing@)[j], path@);
                assert(views(existing@)[j] == existing@[j]@);
            }
        }
        self.claims_at(path.as_str())
    }

    /// A name in the folder that nothing has taken, for a copy of `origin`, given
    /// the files `existing` already in the folder.
    ///
    /// The original name is kept wherever it can be, because the Met recognises its
    /// own downloads by their names whatever folder they sit in; when it is taken,
    /// `stem-2.ext`, `stem-3.ext` and so on are tried in turn, and the first free one
    /// is the answer.
    pub fn free_name(&self, origin: &str, existing: &Vec<String>) -> (p: String)
        requires
            existing@.len() + self@.len() + 2 <= u64::MAX,
        ensures
            exists|n: nat|
                #![trigger candidate_spec(self.dir_view(), origin@, n)]
                n >= 1 && p@ == candidate_spec(self.dir_view(), origin@, n) && !taken(
                    views(existing@),
                    self@,
                    p@,
                ) && forall|m: nat|
                    1 <= m < n ==> taken(
                        views(existing@),
                        self@,
                        #[trigger] candidate_spec(self.dir_view(), origin@, m),
                    ),
    {
        let ghost dir = self.dir_view();
        let ghost ex = views(existing@);
        let v = chars_of(origin);
        let name = match file_name_range(&v) {
            Some((a, b)) => string_of_range(&v, a, b),
            None => {
                proof {
                    reveal_strlit("picture");
                    assert("picture"@ =~= seq!['p', 'i', 'c', 't', 'u', 'r', 'e']);
                }
                String::from_str("picture")
            },
        };
        assert(name@ == copy_name(origin@));
        let nv = chars_of(name.as_str());
        let k = rfind_in(&nv, nv.len(), '.');
        proof {
            assert(nv@.take(nv.len() as int) =~= nv@);
            crate::paths::lemma_rfind(nv@, '.');
        }
        let stem: String;
        let ext: String;
        if k == 0 {
            stem = name.clone();
            ext = String::new();
        } else {
            stem = string_of_range(&nv, 0, k - 1);
            ext = string_of_range(&nv, k - 1, nv.len());
            assert(ext@ =~= name@.skip(k - 1));
        }
        assert(stem@ == stem_and_extension(name@).0 && ext@ == stem_and_extension(name@).1);
        let mut candidate = join(self.dir.as_str(), name.as_str());
        let mut nth: u64 = 2;
        let ghost bound: int = existing@.len() + self@.len() as int;
        while self.is_taken(existing, &candidate)
            invariant
                2 <= nth <= bound + 2,
                dir == self.dir_view(),
                ex == views(existing@),
                bound == existing@.len() + self@.len(),
                bound + 2 <= u64::MAX,
                stem@ == stem_and_extension(copy_name(origin@)).0,
                ext@ == stem_and_extension(copy_name(origin@)).1,
                candidate@ == candidate_spec(dir, origin@, (nth - 1) as nat),
                forall|m: nat|
                    1 <= m < nth - 1 ==> taken(ex, self@, #[trigger] candidate_spec(dir, origin@, m)),
            decreases bound + 2 - nth,
        {
            proof {
                assert forall|m: nat| 1 <= m <= (nth - 1) as nat implies taken(
                    ex,
                    self@,
                    #[trigger] candidate_spec(dir, origin@, m),
                ) by {}
                lemma_taken_bound(ex, self@, dir, origin@, (nth - 1) as nat);
            }
            let mut next = stem.clone();
            push_char(&mut next, '-');
            let digits = decimal(nth);
            next.append(digits.as_str());
            next.append(ext.as_str());
            assert(next@ =~= stem@ + seq!['-'] + decimal_spec(nth as nat) + ext@);
            candidate = join(self.dir.as_str(), next.as_str());
            nth = nth + 1;
        }
        candidate
    }
}

/// A forgotten picture cannot be found by its key any more.
pub proof fn law_forgotten_is_gone(list: Seq<KeptView>, key: Seq<char>)
    ensures
        find_key(without_key(list, key), key) < 0,
        forall|i: int|
            0 <= i < without_key(list, key).len() ==> key_spec(
                #[trigger] without_key(list, key)[i],
            ) != key,
    decreases list.len(),
{
    let rest = without_key(list, key);
    if list.len() > 0 {
        law_forgotten_is_gone(list.drop_last(), key);
    }
    lemma_find_key_absent(rest, key);
}

/// A key no entry carries is found nowhere.
proof fn lemma_find_key_absent(list: Seq<KeptView>, key: Seq<char>)
    requires
        forall|i: int| 0 <= i < list.len() ==> key_spec(#[trigger] list[i]) != key,
    ensures
        find_key(list, key) < 0,
    decreases list.len(),
{
    if list.len() > 0 {
        assert(key_spec(list[0]) != key);
        assert forall|i: int| 0 <= i < list.drop_first().len() implies key_spec(
            #[trigger] list.drop_first()[i],
        ) != key by {
            assert(list.drop_first()[i] == list[i + 1]);
        }
        lemma_find_key_absent(list.drop_first(), key);
    }
}

/// Forgetting keeps every picture named otherwise.
pub proof fn law_forget_keeps_the_rest(list: Seq<KeptView>, key: Seq<char>, k: KeptView)
    requires
        list.contains(k),
        key_spec(k) != key,
    ensures
        without_key(list, key).contains(k),
    decreases list.len(),
{
    if list.last() == k {
        assert(without_key(list, key).last() == k);
    } else {
        let i = choose|i: int| 0 <= i < list.len() && list[i] == k;
        assert(list.drop_last()[i] == k);
        law_forget_keeps_the_rest(list.drop_last(), key, k);
        let r = without_key(list.drop_last(), key);
        let j = choose|j: int| 0 <= j < r.len() && r[j] == k;
        if key_spec(list.last()) != key {
            assert(without_key(list, key)[j] == k);
        }
    }
}

/// A kept picture is held, by its original's path and by its copy's.
pub proof fn law_kept_is_held(list: Seq<KeptView>, k: KeptView)
    ensures
        holds_spec(list.push(k), k.origin),
        holds_spec(list.push(k), k.art.path),
{
    assert(is_at(list.push(k)[list.len() as int], k.origin));
    assert(is_at(list.push(k)[list.len() as int], k.art.path));
}

/// Only whoever wrote a file may decide it is rubbish, and the file on the desktop is
/// never rubbish: nothing offered for deletion is the file on the desktop, the list
/// itself, or a copy the list still names.
pub proof fn law_discard_spares(
    entries: Seq<Entry>,
    dir: Seq<char>,
    list: Seq<KeptView>,
    keep: Seq<char>,
)
    ensures
        forall|i: int|
            0 <= i < unclaimed(entries, dir, list, keep).len() ==> {
                let p = #[trigger] unclaimed(entries, dir, list, keep)[i];
                &&& !path_eq(p, keep)
                &&& !path_eq(p, join_spec(dir, index_name()))
                &&& !claimed_at(list, p)
            },
    decreases entries.len(),
{
    if entries.len() > 0 {
        let rest = unclaimed(entries.drop_last(), dir, list, keep);
        law_discard_spares(entries.drop_last(), dir, list, keep);
        let all = unclaimed(entries, dir, list, keep);
        assert forall|i: int| 0 <= i < all.len() implies {
            let p = #[trigger] all[i];
            &&& !path_eq(p, keep)
            &&& !path_eq(p, join_spec(dir, index_name()))
            &&& !claimed_at(list, p)
        } by {
            if i < rest.len() {
                assert(all[i] == rest[i]);
            }
        }
    }
}

/// A free name is free: a copy made there overwrites nothing and no other copy.
pub proof fn law_free_name_is_free(existing: Seq<Seq<char>>, list: Seq<KeptView>, p: Seq<char>)
    requires
        !taken(existing, list, p),
    ensures
        forall|i: int| 0 <= i < existing.len() ==> !path_eq(#[trigger] existing[i], p),
        forall|i: int| 0 <= i < list.len() ==> !path_eq(#[trigger] list[i].art.path, p),
{
}

/// Whether `path` stands directly in `dir`: it is `dir` joined with one plain
/// component.
pub open spec fn in_dir(dir: Seq<char>, path: Seq<char>) -> bool {
    exists|n: Seq<char>| is_component(n) && path == #[trigger] join_spec(dir, n)
}

/// Whether the copies `list` names are all different paths, and each stands directly in
/// the folder `dir`: then a key, the copy's file name, names exactly one picture.
pub open spec fn copies_in(list: Seq<KeptView>, dir: Seq<char>) -> bool {
    &&& forall|i: int, j: int|
        0 <= i < j < list.len() ==> !path_eq(
            #[trigger] list[i].art.path,
            #[trigger] list[j].art.path,
        )
    &&& forall|i: int| 0 <= i < list.len() ==> #[trigger] in_dir(dir, list[i].art.path)
}

/// The name tried `n`th for a copy of `origin` is one plain component.
proof fn lemma_candidate_in_dir(dir: Seq<char>, origin: Seq<char>, n: nat)
    ensures
        in_dir(dir, candidate_spec(dir, origin, n)),
{
    lemma_copy_name(origin);
    let name = copy_name(origin);
    let (stem, ext) = stem_and_extension(name);
    if n <= 1 {
        assert(name != seq!['.'] && name != seq!['.', '.']) by {
            if file_name_spec(origin) is None {
                let pic = seq!['p', 'i', 'c', 't', 'u', 'r', 'e'];
                assert(pic[0] != '.');
            }
        }
        assert(is_component(name));
        assert(candidate_spec(dir, origin, n) == join_spec(dir, name));
    } else {
        let d = decimal_spec(n);
        crate::text::lemma_decimal_digits(n);
        let m = stem + seq!['-'] + d + ext;
        let k = rfind(name, '.');
        crate::paths::lemma_rfind(name, '.');
        assert(!stem.contains('/')) by {
            if stem.contains('/') {
                let i = choose|i: int| 0 <= i < stem.len() && stem[i] == '/';
                assert(name[i] == '/');
            }
        }
        assert(!ext.contains('/')) by {
            if ext.contains('/') {
                let i = choose|i: int| 0 <= i < ext.len() && ext[i] == '/';
                assert(name[k + i] == '/');
            }
        }
        assert(!m.contains('/')) by {
            if m.contains('/') {
                let i = choose|i: int| 0 <= i < m.len() && m[i] == '/';
                if i < stem.len() {
                    assert(m[i] == stem[i]);
                    assert(stem.contains(stem[i]));
                } else if i == stem.len() {
                    assert(m[i] == '-');
                } else if i < stem.len() + 1 + d.len() {
                    assert(m[i] == d[i - stem.len() - 1]);
                    assert(crate::text::is_digit(d[i - stem.len() - 1]));
                } else {
                    assert(m[i] == ext[i - stem.len() - 1 - d.len()]);
                    assert(ext.contains(ext[i - stem.len() - 1 - d.len()]));
                }
            }
        }
        assert(m[stem.len() as int] == '-');
        assert(d.len() >= 1);
        assert(m.len() == stem.len() + 1 + d.len() + ext.len());
        assert(m != seq!['.'] && m != seq!['.', '.']) by {
            if m == seq!['.'] {
                assert(m.len() == 1);
            }
            if m == seq!['.', '.'] {
                assert(stem.len() == 0);
                assert(m[0] == seq!['.', '.'][0]);
            }
        }
        assert(is_component(m));
        assert(candidate_spec(dir, origin, n) == join_spec(dir, m));
    }
}

/// Keeping a picture under a free name keeps the copies all different and each
/// directly in the folder: whatever was true of the list before a keep is true of
/// it after, so every key goes on naming exactly one kept picture.
pub proof fn law_copies_stay_apart(
    list: Seq<KeptView>,
    dir: Seq<char>,
    existing: Seq<Seq<char>>,
    origin: Seq<char>,
    n: nat,
    art: ArtworkView,
)
    requires
        copies_in(list, dir),
        !taken(existing, list, candidate_spec(dir, origin, n)),
    ensures
        copies_in(
            list.push(
                KeptView {
                    origin: art.path,
                    art: ArtworkView { path: candidate_spec(dir, origin, n), ..art },
                },
            ),
            dir,
        ),
{
    let copy = candidate_spec(dir, origin, n);
    let k = KeptView { origin: art.path, art: ArtworkView { path: copy, ..art } };
    let after = list.push(k);
    lemma_candidate_in_dir(dir, origin, n);
    assert forall|i: int, j: int| 0 <= i < j < after.len() implies !path_eq(
        #[trigger] after[i].art.path,
        #[trigger] after[j].art.path,
    ) by {
        if j == list.len() {
            assert(after[i] == list[i]);
            if path_eq(list[i].art.path, copy) {
                assert(claimed_at(list, copy));
            }
        } else {
            assert(after[i] == list[i] && after[j] == list[j]);
        }
    }
    assert forall|i: int| 0 <= i < after.len() implies #[trigger] in_dir(dir, after[i].art.path) by {
        if i < list.len() {
            assert(after[i] == list[i]);
            assert(in_dir(dir, list[i].art.path));
        } else {
            assert(after[i] == k);
            assert(in_dir(dir, copy));
        }
    }
}

/// Forgetting takes out exactly the pictures named `key` and keeps every other one,
/// in the order they were kept: the list left is the list filtered by key.
pub proof fn law_forget_keeps_order(list: Seq<KeptView>, key: Seq<char>)
    ensures
        without_key(list, key) == list.filter(|k: KeptView| key_spec(k) != key),
    decreases list.len(),
{
    reveal(Seq::filter);
    if list.len() > 0 {
        law_forget_keeps_order(list.drop_last(), key);
    }
}

} // verus!
