//! Where a day's artwork comes from.
//!
//! A source's job ends with a file on disk and enough about it to name in a menu.
//! What is decided here — which collection the settings mean, which files a source
//! may throw away, which of several candidates to take — is stated exactly; the
//! network and the disk are left to whoever drives a source.

use crate::paths::join_spec;
use crate::text::{chars_of, same};
use std::collections::hash_map::{DefaultHasher, RandomState};
use std::hash::{BuildHasher, Hasher};
use vstd::prelude::*;

pub mod folder;
pub mod met;

use self::folder::Folder;
use self::met::Met;

verus! {

/// One picture, ready to hang, with what a person would want to know about it.
#[derive(Debug, Clone)]
pub struct Artwork {
    /// "Wheat Field with Cypresses"
    pub title: String,
    /// "Vincent van Gogh, 1889" — artist and date, already joined for display.
    pub byline: String,
    /// Who to thank: "The Metropolitan Museum of Art".
    pub attribution: String,
    /// Where a curious viewer can read more. Absent for local files.
    pub details_url: Option<String>,
    /// The image file.
    pub path: String,
}

/// An [`Artwork`] as the characters of each of its fields.
pub struct ArtworkView {
    pub title: Seq<char>,
    pub byline: Seq<char>,
    pub attribution: Seq<char>,
    pub details_url: Option<Seq<char>>,
    pub path: Seq<char>,
}

/// The characters an optional string holds.
pub open spec fn opt_view(s: Option<String>) -> Option<Seq<char>> {
    match s {
        Some(t) => Some(t@),
        None => None,
    }
}

impl View for Artwork {
    type V = ArtworkView;

    open spec fn view(&self) -> ArtworkView {
        ArtworkView {
            title: self.title@,
            byline: self.byline@,
            attribution: self.attribution@,
            details_url: opt_view(self.details_url),
            path: self.path@,
        }
    }
}

/// A copy of an optional string.
pub fn copy_opt(s: &Option<String>) -> (r: Option<String>)
    ensures
        opt_view(r) == opt_view(*s),
{
    match s {
        Some(t) => Some(t.clone()),
        None => None,
    }
}

impl Artwork {
    /// A copy of this artwork, field for field.
    pub fn duplicate(&self) -> (r: Artwork)
        ensures
            r@ == self@,
    {
        Artwork {
            title: self.title.clone(),
            byline: self.byline.clone(),
            attribution: self.attribution.clone(),
            details_url: copy_opt(&self.details_url),
            path: self.path.clone(),
        }
    }

    /// The same picture, said to be at `path`.
    pub fn moved_to(&self, path: String) -> (r: Artwork)
        ensures
            r@ == (ArtworkView { path: path@, ..self@ }),
    {
        Artwork {
            title: self.title.clone(),
            byline: self.byline.clone(),
            attribution: self.attribution.clone(),
            details_url: copy_opt(&self.details_url),
            path,
        }
    }
}

/// Which collection a day's picture is drawn from.
#[derive(Debug, Clone)]
pub enum SourceSpec {
    Met,
    Folder(String),
}

/// The word that names the Met in `config.toml`.
pub open spec fn met_word() -> Seq<char> {
    seq!['m', 'e', 't']
}

/// `~/rest` read as the person typing it meant it: `rest` under `home`.
pub open spec fn expand_tilde_spec(s: Seq<char>, home: Seq<char>) -> Seq<char> {
    if s.len() >= 2 && s[0] == '~' && s[1] == '/' {
        join_spec(home, s.skip(2))
    } else {
        s
    }
}

/// What a `source` setting means: the bare word `met`, or else a directory.
pub open spec fn parse_spec(s: Seq<char>, home: Seq<char>) -> Option<Seq<char>> {
    if s == met_word() {
        None
    } else {
        Some(expand_tilde_spec(s, home))
    }
}

impl SourceSpec {
    /// The directory this names, if it names one.
    pub open spec fn folder_view(self) -> Option<Seq<char>> {
        match self {
            SourceSpec::Met => None,
            SourceSpec::Folder(d) => Some(d@),
        }
    }

    /// Reads a `source` setting. `home` is the home directory that a leading `~/`
    /// stands for (empty when unknown).
    pub fn parse(s: &str, home: &str) -> (r: SourceSpec)
        ensures
            r.folder_view() == parse_spec(s@, home@),
    {
        proof {
            reveal_strlit("met");
            assert("met"@ =~= met_word());
        }
        if same(s, "met") {
            SourceSpec::Met
        } else {
            SourceSpec::Folder(expand_tilde(s, home))
        }
    }
}

/// A leading `~/` replaced by the home directory.
pub fn expand_tilde(s: &str, home: &str) -> (r: String)
    ensures
        r@ == expand_tilde_spec(s@, home@),
{
    let v = chars_of(s);
    if v.len() >= 2 && v[0] == '~' && v[1] == '/' {
        let rest = crate::text::string_of_range(&v, 2, v.len());
        assert(rest@ =~= s@.skip(2));
        crate::paths::join(home, rest.as_str())
    } else {
        String::from_str(s)
    }
}

/// One entry of a directory, as a listing reports it.
#[derive(Debug, Clone)]
pub struct Entry {
    pub path: String,
    pub is_file: bool,
}

/// The paths, in order, of the entries of `entries` that are files, are not the same
/// path as `keep` (compared component by component),
/// and satisfy `owns`.
pub open spec fn discardable(
    entries: Seq<Entry>,
    keep: Seq<char>,
    owns: spec_fn(Seq<char>) -> bool,
) -> Seq<Seq<char>>
    decreases entries.len(),
{
    if entries.len() == 0 {
        Seq::empty()
    } else {
        let rest = discardable(entries.drop_last(), keep, owns);
        let e = entries.last();
        if e.is_file && !crate::paths::path_eq(e.path@, keep) && owns(e.path@) {
            rest.push(e.path@)
        } else {
            rest
        }
    }
}

/// The characters of each string.
pub open spec fn views(v: Seq<String>) -> Seq<Seq<char>> {
    v.map_values(|s: String| s@)
}

/// A collection pictures are drawn from.
pub trait Source {
    /// Whether this source wrote the file at `path`, and so may delete it.
    spec fn owns_spec(&self, path: Seq<char>) -> bool;

    /// The name to report a failure under.
    spec fn label_spec(&self) -> Seq<char>;

    /// Name for this source when a failure has to be reported.
    fn label(&self) -> (l: &'static str)
        ensures
            l@ == self.label_spec(),
    ;

    /// Whether the file at `path` is this source's own work.
    fn owns(&self, path: &str) -> (r: bool)
        ensures
            r == self.owns_spec(path@),
    ;

    /// Of the files `entries` lists, those this source wrote, except `keep`: what
    /// it may delete once the wallpaper is up, `keep` being the file on the desktop.
    fn discard_all_but(&self, entries: &Vec<Entry>, keep: &str) -> (gone: Vec<String>)
        ensures
            views(gone@) == discardable(entries@, keep@, |p: Seq<char>| self.owns_spec(p)),
    {
        let mut gone: Vec<String> = Vec::new();
        let mut i: usize = 0;
        while i < entries.len()
            invariant
                i <= entries.len(),
                views(gone@) == discardable(
                    entries@.take(i as int),
                    keep@,
                    |p: Seq<char>| self.owns_spec(p),
                ),
            decreases entries.len() - i,
        {
            let e = &entries[i];
            proof {
                assert(entries@.take(i + 1).drop_last() =~= entries@.take(i as int));
            }
            if e.is_file && !crate::paths::same_path(e.path.as_str(), keep) && self.owns(
                e.path.as_str(),
            ) {
                gone.push(e.path.clone());
                assert(views(gone@) =~= views(gone@.drop_last()).push(e.path@));
            }
            i = i + 1;
        }
        assert(entries@.take(entries.len() as int) =~= entries@);
        gone
    }
}

impl Source for Met {
    open spec fn owns_spec(&self, path: Seq<char>) -> bool {
        met::id_of_spec(path) is Some
    }

    open spec fn label_spec(&self) -> Seq<char> {
        seq!['T', 'h', 'e', ' ', 'M', 'e', 't']
    }

    fn label(&self) -> (l: &'static str) {
        proof {
            reveal_strlit("The Met");
        }
        "The Met"
    }

    fn owns(&self, path: &str) -> (r: bool) {
        met::id_of(path).is_some()
    }
}

impl Source for Folder {
    /// Nothing: this source writes no files, and a folder of the user's own pictures
    /// is the last place to go deleting things.
    open spec fn owns_spec(&self, path: Seq<char>) -> bool {
        false
    }

    open spec fn label_spec(&self) -> Seq<char> {
        seq!['F', 'o', 'l', 'd', 'e', 'r']
    }

    fn label(&self) -> (l: &'static str) {
        proof {
            reveal_strlit("Folder");
        }
        "Folder"
    }

    fn owns(&self, path: &str) -> (r: bool) {
        false
    }
}

/// Either kind of source, as the settings chose it.
pub enum AnySource {
    Met(Met),
    Folder(Folder),
}

impl Source for AnySource {
    open spec fn owns_spec(&self, path: Seq<char>) -> bool {
        match self {
            AnySource::Met(m) => m.owns_spec(path),
            AnySource::Folder(f) => f.owns_spec(path),
        }
    }

    open spec fn label_spec(&self) -> Seq<char> {
        match self {
            AnySource::Met(m) => m.label_spec(),
            AnySource::Folder(f) => f.label_spec(),
        }
    }

    fn label(&self) -> (l: &'static str) {
        match self {
            AnySource::Met(m) => m.label(),
            AnySource::Folder(f) => f.label(),
        }
    }

    fn owns(&self, path: &str) -> (r: bool) {
        match self {
            AnySource::Met(m) => m.owns(path),
            AnySource::Folder(f) => f.owns(path),
        }
    }
}

/// The source `spec` asks for, set up to work in `cache`.
///
/// Whether a source has any use for `cache` is its own affair: the Met downloads
/// into it, a folder leaves the user's library where it lies.
pub fn source_for(spec: &SourceSpec, cache: &str) -> (s: AnySource)
    ensures
        match (spec, s) {
            (SourceSpec::Met, AnySource::Met(m)) => m.cache@ == cache@,
            (SourceSpec::Folder(d), AnySource::Folder(f)) => f.dir@ == d@,
            _ => false,
        },
{
    match spec {
        SourceSpec::Met => AnySource::Met(Met::new(String::from_str(cache))),
        SourceSpec::Folder(dir) => AnySource::Folder(Folder::new(dir.clone())),
    }
}

/// Keys for hashing, chosen afresh from the operating system's randomness.
///
/// Trusted: `RandomState::new`. std seeds each `RandomState` randomly, so nothing is
/// claimed of it.
#[verifier::external_body]
fn random_state() -> RandomState {
    RandomState::new()
}

/// A hasher under the keys of `keys`.
///
/// Trusted: `BuildHasher::build_hasher` on a `RandomState`. The keys are random, so
/// nothing is claimed of the hasher's state.
#[verifier::external_body]
fn build_hasher(keys: &RandomState) -> DefaultHasher {
    keys.build_hasher()
}

/// The `k` lowest bytes of `n`, least significant first.
pub open spec fn le_bytes(n: nat, k: nat) -> Seq<u8>
    decreases k,
{
    if k == 0 {
        Seq::empty()
    } else {
        seq![(n % 256) as u8] + le_bytes(n / 256, (k - 1) as nat)
    }
}

/// What a hasher that has already taken in `earlier` gives once `counter` is
/// written to it as its eight bytes.
pub open spec fn hash_of(earlier: Seq<Seq<u8>>, counter: u64) -> u64 {
    <DefaultHasher as vstd::std_specs::hash::DefaultHasherAdditionalSpecFns>::spec_finish(
        earlier.push(le_bytes(counter as nat, 8)),
    )
}

/// Whether `r` is a hash of `counter`: what some hasher, keyed however it was,
/// gives for it.
pub open spec fn hashes(r: u64, counter: u64) -> bool {
    exists|earlier: Seq<Seq<u8>>| r == #[trigger] hash_of(earlier, counter)
}

/// A random `u64`, different between runs: the hash of `counter` under a key the
/// operating system chose. Which key is nobody's to know, so nothing more is
/// promised of the value.
pub fn random_u64(counter: u64) -> (r: u64)
    ensures
        hashes(r, counter),
{
    let keys = random_state();
    let mut h = build_hasher(&keys);
    let ghost earlier = h@;
    let mut bytes: Vec<u8> = Vec::new();
    let mut rest: u64 = counter;
    let mut i: usize = 0;
    while i < 8
        invariant
            i <= 8,
            bytes@.len() == i,
            bytes@ + le_bytes(rest as nat, (8 - i) as nat) == le_bytes(counter as nat, 8),
        decreases 8 - i,
    {
        let ghost before = bytes@;
        assert(le_bytes(rest as nat, (8 - i) as nat) =~= seq![(rest % 256) as u8] + le_bytes(
            (rest / 256) as nat,
            (8 - i - 1) as nat,
        ));
        bytes.push((rest % 256) as u8);
        rest = rest / 256;
        i = i + 1;
        assert(bytes@ + le_bytes(rest as nat, (8 - i) as nat) =~= before + (seq![
            (bytes@.last())
        ] + le_bytes(rest as nat, (8 - i) as nat)));
    }
    assert(bytes@ =~= le_bytes(counter as nat, 8));
    h.write(bytes.as_slice());
    let r = h.finish();
    assert(r == hash_of(earlier, counter));
    r
}

/// Position `random` picks among `len` items.
pub fn pick_from(len: usize, random: u64) -> (i: usize)
    requires
        len > 0,
    ensures
        i == (random as int) % (len as int),
        i < len,
{
    (random % (len as u64)) as usize
}

/// Picks one of `len` items, which must not be none. `nth` tells repeated picks
/// within one run apart.
pub fn pick_index(len: usize, nth: u64) -> (i: usize)
    requires
        len > 0,
    ensures
        i < len,
        exists|r: u64| #[trigger] hashes(r, nth) && i == (r as int) % (len as int),
{
    let r = random_u64(nth);
    let i = pick_from(len, r);
    assert(hashes(r, nth) && i == (r as int) % (len as int));
    i
}

/// A source offers for deletion only files it wrote, and never `keep`, the file
/// on the desktop.
pub proof fn law_discard_only_own(entries: Seq<Entry>, keep: Seq<char>, owns: spec_fn(Seq<char>) -> bool)
    ensures
        forall|i: int|
            0 <= i < discardable(entries, keep, owns).len() ==> {
                let p = #[trigger] discardable(entries, keep, owns)[i];
                !crate::paths::path_eq(p, keep) && owns(p)
            },
    decreases entries.len(),
{
    if entries.len() > 0 {
        let rest = discardable(entries.drop_last(), keep, owns);
        law_discard_only_own(entries.drop_last(), keep, owns);
        let all = discardable(entries, keep, owns);
        assert forall|i: int| 0 <= i < all.len() implies {
            let p = #[trigger] all[i];
            !crate::paths::path_eq(p, keep) && owns(p)
        } by {
            if i < rest.len() {
                assert(all[i] == rest[i]);
            }
        }
    }
}

/// A folder of the user's own pictures never offers anything for deletion.
pub proof fn law_folder_deletes_nothing(f: Folder, entries: Seq<Entry>, keep: Seq<char>)
    ensures
        discardable(entries, keep, |p: Seq<char>| f.owns_spec(p)).len() == 0,
    decreases entries.len(),
{
    if entries.len() > 0 {
        law_folder_deletes_nothing(f, entries.drop_last(), keep);
    }
}

} // verus!
