//! The Metropolitan Museum of Art's open-access collection.
//!
//! Two calls and a download: ask which European paintings are public domain and
//! photographed, pick one, then fetch its record and its image. What to ask for,
//! which candidate to try, what to call the download and how to describe the
//! painting are decided here; the requests themselves are made by whoever drives
//! a [`MetFetch`].
//!
//! <https://metmuseum.github.io/>

use super::{hashes, random_u64, Artwork, ArtworkView};
use crate::paths::{
    file_name_range, file_stem_spec, join, join_spec, split_dot_at,
};
use crate::text::{
    chars_of, decimal, decimal_spec, parse_u64, parse_u64_spec, push_char, string_of_range,
    trim, trim_spec,
};
use vstd::prelude::*;

verus! {

/// Where the collection API lives.
pub const API: &'static str = "https://collectionapi.metmuseum.org/public/collection/v1";

/// Department 11 is European Paintings.
pub const SEARCH: &'static str = "search?departmentId=11&hasImages=true&isPublicDomain=true&q=painting";

/// Refuse anything implausible for a photograph of a painting: 96 MiB.
pub const MAX_IMAGE_BYTES: u64 = 100663296;

/// How many objects to try before giving up.
pub const CANDIDATES: usize = 8;

/// How long any one request may take, in seconds.
pub const REQUEST_TIMEOUT_SECS: u64 = 45;

/// How long the whole of a fetch may take before it gives up, in seconds.
pub const BUDGET_SECS: u64 = 90;

/// The Met as a source: where its downloads go, and the only directory it will
/// delete from.
pub struct Met {
    pub cache: String,
}

impl Met {
    pub fn new(cache: String) -> (m: Met)
        ensures
            m.cache@ == cache@,
    {
        Met { cache }
    }
}

/// Why a fetch from the Met came to nothing.
#[derive(Debug, Clone)]
pub enum MetError {
    /// The search came back without a single painting.
    NoPaintings,
    /// An image announced itself as bigger than [`MAX_IMAGE_BYTES`].
    TooLarge { len: u64 },
    /// The time budget ran out before any attempt succeeded.
    GaveUp { secs: u64 },
    /// Every attempt was spent without finding a usable painting.
    NoUsable { attempts: usize },
    /// A request, or reading its answer, failed; the words say how.
    Request(String),
}

impl MetError {
    /// A copy of this error.
    pub fn duplicate(&self) -> (r: MetError)
        ensures
            r == *self,
    {
        match self {
            MetError::NoPaintings => MetError::NoPaintings,
            MetError::TooLarge { len } => MetError::TooLarge { len: *len },
            MetError::GaveUp { secs } => MetError::GaveUp { secs: *secs },
            MetError::NoUsable { attempts } => MetError::NoUsable { attempts: *attempts },
            MetError::Request(m) => MetError::Request(m.clone()),
        }
    }
}

/// The prefix that marks a file as this source's download.
pub open spec fn met_prefix() -> Seq<char> {
    seq!['m', 'e', 't', '-']
}

/// The object id a file this source downloaded carries in its name, or `None` if
/// the file came from somewhere else: its stem must be `met-` and a number.
pub open spec fn id_of_spec(path: Seq<char>) -> Option<u64> {
    match file_stem_spec(path) {
        Some(stem) => if stem.len() >= 4 && stem.take(4) == met_prefix() {
            parse_u64_spec(stem.skip(4))
        } else {
            None
        },
        None => None,
    }
}

/// Recovers the object id from a file this source downloaded.
///
/// The id outlives the process in the file's name, so tomorrow's painting is not
/// today's without anything else having to remember it.
pub fn id_of(path: &str) -> (r: Option<u64>)
    ensures
        r == id_of_spec(path@),
{
    let v = chars_of(path);
    match file_name_range(&v) {
        None => None,
        Some((a, b)) => {
            let m = split_dot_at(&v, a, b);
            proof {
                reveal_strlit("met-");
            }
            if m - a >= 4 && crate::text::has_at(&v, a, "met-") {
                let ghost stem = v@.subrange(a as int, m as int);
                assert(stem.take(4) =~= v@.subrange(a as int, a + 4));
                assert("met-"@ =~= met_prefix());
                let digits = string_of_range(&v, a + 4, m);
                assert(digits@ =~= stem.skip(4));
                parse_u64(digits.as_str())
            } else {
                proof {
                    let stem = v@.subrange(a as int, m as int);
                    assert("met-"@ =~= met_prefix());
                    if m - a >= 4 {
                        assert(stem.take(4) =~= v@.subrange(a as int, a + 4));
                    }
                }
                None
            }
        },
    }
}

/// A record from the collection, as far as a painting's description needs it.
#[derive(Debug, Clone)]
pub struct MetObject {
    pub object_id: u64,
    pub title: String,
    pub artist: String,
    pub date: String,
    pub primary_image: String,
    pub object_url: String,
}

/// Artist and date joined for display, either one dropped when it is blank.
pub open spec fn byline_spec(artist: Seq<char>, date: Seq<char>) -> Seq<char> {
    let a = trim_spec(artist);
    let d = trim_spec(date);
    if a.len() == 0 {
        d
    } else if d.len() == 0 {
        a
    } else {
        a + seq![',', ' '] + d
    }
}

/// The title to show: the record's own, unless it is blank.
pub open spec fn title_spec(title: Seq<char>) -> Seq<char> {
    if trim_spec(title).len() == 0 {
        seq!['U', 'n', 't', 'i', 't', 'l', 'e', 'd']
    } else {
        title
    }
}

/// Who the Met's pictures are credited to.
pub open spec fn met_attribution() -> Seq<char> {
    "The Metropolitan Museum of Art"@
}

/// The picture a downloaded record describes.
pub open spec fn artwork_spec(o: MetObject, path: Seq<char>) -> ArtworkView {
    ArtworkView {
        title: title_spec(o.title@),
        byline: byline_spec(o.artist@, o.date@),
        attribution: met_attribution(),
        details_url: Some(o.object_url@),
        path,
    }
}

/// Artist and date, joined for display.
pub fn byline(artist: &str, date: &str) -> (b: String)
    ensures
        b@ == byline_spec(artist@, date@),
{
    let a = trim(artist);
    let d = trim(date);
    if a.unicode_len() == 0 {
        d
    } else if d.unicode_len() == 0 {
        a
    } else {
        let mut b = a;
        proof {
            reveal_strlit(", ");
        }
        b.append(", ");
        b.append(d.as_str());
        assert(b@ =~= byline_spec(artist@, date@));
        b
    }
}

/// The title to show for a record.
pub fn title_of(title: &str) -> (t: String)
    ensures
        t@ == title_spec(title@),
{
    let trimmed = trim(title);
    if trimmed.unicode_len() == 0 {
        proof {
            reveal_strlit("Untitled");
        }
        String::from_str("Untitled")
    } else {
        String::from_str(title)
    }
}

/// The picture a downloaded record describes, its image now at `path`.
pub fn artwork_from(o: &MetObject, path: String) -> (art: Artwork)
    ensures
        art@ == artwork_spec(*o, path@),
{
    Artwork {
        byline: byline(o.artist.as_str(), o.date.as_str()),
        title: title_of(o.title.as_str()),
        attribution: String::from_str("The Metropolitan Museum of Art"),
        details_url: Some(o.object_url.clone()),
        path,
    }
}

/// The ids the search offered, or why there is nothing to choose from.
pub fn candidate_ids(object_ids: Option<Vec<u64>>) -> (r: Result<Vec<u64>, MetError>)
    ensures
        match (object_ids, r) {
            (Some(ids), Ok(c)) => ids.len() > 0 && c@ == ids@,
            (Some(ids), Err(e)) => ids.len() == 0 && e is NoPaintings,
            (None, Err(e)) => e is NoPaintings,
            (None, Ok(_)) => false,
        },
{
    match object_ids {
        Some(ids) => if ids.len() > 0 {
            Ok(ids)
        } else {
            Err(MetError::NoPaintings)
        },
        None => Err(MetError::NoPaintings),
    }
}

/// Whether an image of the announced length may be downloaded: an image that
/// announces no length is let through, and the copy is cut off at the limit.
pub fn check_length(len: Option<u64>) -> (r: Result<(), MetError>)
    ensures
        r == (match len {
            Some(n) => if n > MAX_IMAGE_BYTES {
                Err(MetError::TooLarge { len: n })
            } else {
                Ok(())
            },
            None => Ok(()),
        }),
{
    match len {
        Some(n) => if n > MAX_IMAGE_BYTES {
            Err(MetError::TooLarge { len: n })
        } else {
            Ok(())
        },
        None => Ok(()),
    }
}

/// How many bytes `c` takes in UTF-8.
pub open spec fn utf8_width(c: char) -> nat {
    if '\u{80}' > c {
        1
    } else if '\u{800}' > c {
        2
    } else if '\u{10000}' > c {
        3
    } else {
        4
    }
}

/// How many bytes `s` takes in UTF-8, which is what `str::len` counts.
pub open spec fn utf8_len(s: Seq<char>) -> nat
    decreases s.len(),
{
    if s.len() == 0 {
        0
    } else {
        utf8_len(s.drop_last()) + utf8_width(s.last())
    }
}

/// The extension a download is saved under: whatever follows the URL's last `.`
/// when that is at most four bytes long, and `jpg` otherwise.
pub open spec fn extension_of_url(url: Seq<char>) -> Seq<char> {
    let tail = url.skip(crate::paths::rfind(url, '.') + 1);
    if utf8_len(tail) <= 4 {
        tail
    } else {
        seq!['j', 'p', 'g']
    }
}

/// The name a download of object `id` from `url` is saved under in `cache`:
/// `met-{id}.{extension}`.
pub open spec fn download_path_spec(cache: Seq<char>, id: u64, url: Seq<char>) -> Seq<char> {
    join_spec(cache, download_name_spec(id, url))
}

/// The file name a download of object `id` from `url` is saved under.
pub open spec fn download_name_spec(id: u64, url: Seq<char>) -> Seq<char> {
    met_prefix() + decimal_spec(id as nat) + seq!['.'] + extension_of_url(url)
}

/// Whether `v[from..]` takes at most four bytes of UTF-8.
fn short_tail(v: &Vec<char>, from: usize) -> (r: bool)
    requires
        from <= v.len(),
    ensures
        r == (utf8_len(v@.skip(from as int)) <= 4),
{
    let mut total: usize = 0;
    let mut i: usize = from;
    while i < v.len()
        invariant
            from <= i <= v.len(),
            total == utf8_len(v@.subrange(from as int, i as int)),
            total <= 4,
        decreases v.len() - i,
    {
        let c = v[i];
        let w: usize = if '\u{80}' > c {
            1
        } else if '\u{800}' > c {
            2
        } else if '\u{10000}' > c {
            3
        } else {
            4
        };
        assert(v@.subrange(from as int, i + 1).drop_last() =~= v@.subrange(from as int, i as int));
        if total + w > 4 {
            proof {
                lemma_utf8_len_prefix(v@.skip(from as int), i + 1 - from);
                assert(v@.skip(from as int).take(i + 1 - from) =~= v@.subrange(from as int, i + 1));
            }
            return false;
        }
        total = total + w;
        i = i + 1;
    }
    assert(v@.subrange(from as int, v.len() as int) =~= v@.skip(from as int));
    true
}

/// A prefix takes no more bytes than the whole.
pub proof fn lemma_utf8_len_prefix(s: Seq<char>, k: int)
    requires
        0 <= k <= s.len(),
    ensures
        utf8_len(s.take(k)) <= utf8_len(s),
    decreases s.len(),
{
    if k < s.len() {
        assert(s.drop_last().take(k) =~= s.take(k));
        lemma_utf8_len_prefix(s.drop_last(), k);
    } else {
        assert(s.take(k) =~= s);
    }
}

/// The extension a download from `url` is saved under.
pub fn extension_for(url: &str) -> (e: String)
    ensures
        e@ == extension_of_url(url@),
{
    let v = chars_of(url);
    let from = crate::paths::rfind_in(&v, v.len(), '.');
    proof {
        assert(v@.take(v.len() as int) =~= v@);
        crate::paths::lemma_rfind(v@, '.');
    }
    if short_tail(&v, from) {
        let e = string_of_range(&v, from, v.len());
        assert(e@ =~= v@.skip(from as int));
        e
    } else {
        proof {
            reveal_strlit("jpg");
        }
        String::from_str("jpg")
    }
}

/// Where a download of object `id` from `url` is saved in `cache`.
///
/// Load-bearing: [`id_of`] reads the object id back out of this name, which is how
/// tomorrow's painting avoids being today's.
pub fn download_path(cache: &str, id: u64, url: &str) -> (p: String)
    ensures
        p@ == download_path_spec(cache@, id, url@),
{
    proof {
        reveal_strlit("met-");
    }
    let mut name = String::from_str("met-");
    let digits = decimal(id);
    name.append(digits.as_str());
    push_char(&mut name, '.');
    let ext = extension_for(url);
    name.append(ext.as_str());
    assert("met-"@ =~= met_prefix());
    assert(name@ =~= met_prefix() + decimal_spec(id as nat) + seq!['.'] + extension_of_url(url@));
    join(cache, name.as_str())
}

/// The id of the picture to pass over, read from the picture last shown.
pub fn avoid_id(avoid: Option<&Artwork>) -> (r: Option<u64>)
    ensures
        r == (match avoid {
            Some(a) => id_of_spec(a.path@),
            None => None,
        }),
{
    match avoid {
        Some(a) => id_of(a.path.as_str()),
        None => None,
    }
}

/// What a fetch wants done next.
#[derive(Debug)]
pub enum MetAction {
    /// Ask the collection for the record of this object.
    Lookup(u64),
    /// This attempt landed on the picture to avoid; go round again.
    Skip,
    /// Stop: nothing usable was found.
    GiveUp(MetError),
}

/// A fetch in progress: the candidates, the one to avoid, the attempts spent, and
/// the most telling failure so far.
pub struct MetFetch {
    pub ids: Vec<u64>,
    pub avoid: Option<u64>,
    pub attempt: usize,
    pub last_error: Option<MetError>,
}

/// The error a fetch ends with: the most recent failure if there was one, which
/// says more than the reason it stopped.
pub open spec fn final_error(last: Option<MetError>, otherwise: MetError) -> MetError {
    match last {
        Some(e) => e,
        None => otherwise,
    }
}

impl MetFetch {
    /// The invariant of a fetch: something to choose from, and no more attempts
    /// spent than allowed.
    pub open spec fn wf(&self) -> bool {
        &&& self.ids.len() > 0
        &&& self.attempt <= CANDIDATES
    }

    /// What the next step does when the random number drawn for it is `random`:
    /// give up once the attempts or the time are spent, with the most telling error;
    /// otherwise try `ids[random % len]`, passing over the picture to avoid.
    pub open spec fn step_spec(&self, out_of_time: bool, random: u64) -> MetAction {
        if self.attempt >= CANDIDATES {
            MetAction::GiveUp(final_error(self.last_error, MetError::NoUsable { attempts: CANDIDATES }))
        } else if out_of_time {
            MetAction::GiveUp(final_error(self.last_error, MetError::GaveUp { secs: BUDGET_SECS }))
        } else {
            let id = self.ids@[(random as int) % (self.ids.len() as int)];
            if Some(id) == self.avoid {
                MetAction::Skip
            } else {
                MetAction::Lookup(id)
            }
        }
    }

    /// Begins a fetch among `ids`, passing over `avoid`.
    pub fn start(ids: Vec<u64>, avoid: Option<u64>) -> (f: MetFetch)
        requires
            ids.len() > 0,
        ensures
            f.wf(),
            f.ids@ == ids@,
            f.avoid == avoid,
            f.attempt == 0,
            f.last_error is None,
    {
        MetFetch { ids, avoid, attempt: 0, last_error: None }
    }

    /// The next step, given whether the time budget is spent and a random number
    /// that picks the candidate.
    pub fn step_with(&mut self, out_of_time: bool, random: u64) -> (a: MetAction)
        requires
            old(self).wf(),
        ensures
            a == old(self).step_spec(out_of_time, random),
            final(self).wf(),
            final(self).ids@ == old(self).ids@,
            final(self).avoid == old(self).avoid,
            final(self).last_error == old(self).last_error,
            old(self).attempt >= CANDIDATES ==> final(self).attempt == old(self).attempt && a
                == MetAction::GiveUp(
                final_error(old(self).last_error, MetError::NoUsable { attempts: CANDIDATES }),
            ),
            old(self).attempt < CANDIDATES && out_of_time ==> final(self).attempt == old(
                self,
            ).attempt && a == MetAction::GiveUp(
                final_error(old(self).last_error, MetError::GaveUp { secs: BUDGET_SECS }),
            ),
            old(self).attempt < CANDIDATES && !out_of_time ==> ({
                let id = old(self).ids@[(random as int) % (old(self).ids.len() as int)];
                &&& final(self).attempt == old(self).attempt + 1
                &&& if Some(id) == old(self).avoid {
                    a is Skip
                } else {
                    a == MetAction::Lookup(id)
                }
            }),
    {
        if self.attempt >= CANDIDATES {
            let e = match &self.last_error {
                Some(e) => e.duplicate(),
                None => MetError::NoUsable { attempts: CANDIDATES },
            };
            return MetAction::GiveUp(e);
        }
        if out_of_time {
            let e = match &self.last_error {
                Some(e) => e.duplicate(),
                None => MetError::GaveUp { secs: BUDGET_SECS },
            };
            return MetAction::GiveUp(e);
        }
        let k = super::pick_from(self.ids.len(), random);
        let id = self.ids[k];
        self.attempt = self.attempt + 1;
        if Some(id) == self.avoid {
            MetAction::Skip
        } else {
            MetAction::Lookup(id)
        }
    }

    /// The next step, given whether the time budget is spent: the candidate is
    /// picked at random.
    pub fn step(&mut self, out_of_time: bool) -> (a: MetAction)
        requires
            old(self).wf(),
        ensures
            final(self).wf(),
            final(self).ids@ == old(self).ids@,
            final(self).avoid == old(self).avoid,
            final(self).last_error == old(self).last_error,
            old(self).attempt >= CANDIDATES ==> final(self).attempt == old(self).attempt && a
                == MetAction::GiveUp(
                final_error(old(self).last_error, MetError::NoUsable { attempts: CANDIDATES }),
            ),
            old(self).attempt < CANDIDATES && out_of_time ==> final(self).attempt == old(
                self,
            ).attempt && a == MetAction::GiveUp(
                final_error(old(self).last_error, MetError::GaveUp { secs: BUDGET_SECS }),
            ),
            old(self).attempt < CANDIDATES && !out_of_time ==> final(self).attempt == old(
                self,
            ).attempt + 1 && (a is Skip || a is Lookup),
            a is Skip ==> (old(self).avoid matches Some(id) && old(self).ids@.contains(id)),
            a matches MetAction::Lookup(id) ==> old(self).ids@.contains(id) && Some(id) != old(
                self,
            ).avoid,
            exists|r: u64|
                #[trigger] hashes(r, old(self).attempt as u64) && a == old(self).step_spec(
                    out_of_time,
                    r,
                ),
    {
        let r = random_u64(self.attempt as u64);
        let a = self.step_with(out_of_time, r);
        proof {
            assert(hashes(r, old(self).attempt as u64) && a == old(self).step_spec(out_of_time, r));
            let k = (r as int) % (old(self).ids.len() as int);
            if let MetAction::Lookup(id) = a {
                assert(old(self).ids@[k] == id);
            }
            if a is Skip {
                assert(old(self).ids@.contains(old(self).ids@[k]));
            }
        }
        a
    }

    /// Takes in what the lookup of a record gave: the record to download when it
    /// has an image, and nothing when it has none or the lookup failed.
    pub fn looked_up(&mut self, result: Result<MetObject, MetError>) -> (download: Option<
        MetObject,
    >)
        requires
            old(self).wf(),
        ensures
            final(self).wf(),
            final(self).ids@ == old(self).ids@,
            final(self).avoid == old(self).avoid,
            final(self).attempt == old(self).attempt,
            match result {
                Ok(o) => final(self).last_error == old(self).last_error && if o.primary_image@.len()
                    == 0 {
                    download is None
                } else {
                    download == Some(o)
                },
                Err(e) => final(self).last_error == Some(e) && download is None,
            },
    {
        match result {
            Ok(o) => if o.primary_image.unicode_len() == 0 {
                None
            } else {
                Some(o)
            },
            Err(e) => {
                self.last_error = Some(e);
                None
            },
        }
    }

    /// Takes in what the download of `object`'s image into `cache` gave: the
    /// finished picture, saved under the name [`download_path`] gives it, or nothing
    /// when the download failed.
    pub fn downloaded(&mut self, object: &MetObject, cache: &str, result: Result<(), MetError>) -> (art:
        Option<Artwork>)
        requires
            old(self).wf(),
        ensures
            final(self).wf(),
            final(self).ids@ == old(self).ids@,
            final(self).avoid == old(self).avoid,
            final(self).attempt == old(self).attempt,
            match result {
                Ok(()) => final(self).last_error == old(self).last_error && (art matches Some(a)
                    && a@ == artwork_spec(
                    *object,
                    download_path_spec(cache@, object.object_id, object.primary_image@),
                )),
                Err(e) => final(self).last_error == Some(e) && art is None,
            },
    {
        match result {
            Ok(()) => {
                let path = download_path(cache, object.object_id, object.primary_image.as_str());
                Some(artwork_from(object, path))
            },
            Err(e) => {
                self.last_error = Some(e);
                None
            },
        }
    }
}

/// The extension a download is saved under holds no `.`.
proof fn lemma_extension_has_no_dot(url: Seq<char>)
    ensures
        !extension_of_url(url).contains('.'),
{
    let k = crate::paths::rfind(url, '.');
    crate::paths::lemma_rfind(url, '.');
    let tail = url.skip(k + 1);
    if tail.contains('.') {
        let i = choose|i: int| 0 <= i < tail.len() && tail[i] == '.';
        assert(url[k + 1 + i] == '.');
    }
    let jpg = seq!['j', 'p', 'g'];
    if jpg.contains('.') {
        let i = choose|i: int| 0 <= i < jpg.len() && jpg[i] == '.';
    }
}

/// The name a download is saved under is one plain component, whenever the
/// extension taken from the URL has no `/` in it.
proof fn lemma_download_name_plain(id: u64, url: Seq<char>)
    requires
        !extension_of_url(url).contains('/'),
    ensures
        crate::paths::is_component(download_name_spec(id, url)),
        download_name_spec(id, url).len() >= 6,
{
    let dec = decimal_spec(id as nat);
    let ext = extension_of_url(url);
    let head = met_prefix() + dec + seq!['.'];
    let name = head + ext;
    assert(name =~= download_name_spec(id, url));
    crate::text::lemma_decimal_digits(id as nat);
    lemma_extension_has_no_dot(url);
    assert(!name.contains('/')) by {
        if name.contains('/') {
            let i = choose|i: int| 0 <= i < name.len() && name[i] == '/';
            if i < 4 {
                assert(name[i] == met_prefix()[i]);
            } else if i < 4 + dec.len() {
                assert(name[i] == dec[i - 4]);
                assert(crate::text::is_digit(dec[i - 4]));
            } else if i == 4 + dec.len() {
                assert(name[i] == '.');
            } else {
                assert(name[i] == ext[i - head.len()]);
                assert(ext.contains('/'));
            }
        }
    }
    assert(name.len() >= 6);
}

/// A download stands directly in the cache: its path is the cache joined with one
/// plain component, which is also the name `Path::file_name` reads back. It holds
/// whenever the extension taken from the URL has no `/` in it.
pub proof fn lemma_download_path_parent(cache: Seq<char>, id: u64, url: Seq<char>)
    requires
        !extension_of_url(url).contains('/'),
    ensures
        crate::paths::is_component(download_name_spec(id, url)),
        download_path_spec(cache, id, url) == join_spec(cache, download_name_spec(id, url)),
        crate::paths::file_name_spec(download_path_spec(cache, id, url)) == Some(
            download_name_spec(id, url),
        ),
{
    lemma_download_name_plain(id, url);
    crate::paths::lemma_file_name_of_join(cache, download_name_spec(id, url));
}

/// The name a download is saved under gives its object id back.
///
/// This is what keeps tomorrow's painting from being today's: the id is remembered
/// nowhere but in the file's name. It holds whenever the extension taken from the
/// URL has no `/` in it — an image URL such as `https://host/a.b/c` would be saved
/// somewhere else than its name suggests, and is left out.
pub proof fn lemma_download_path_names_id(cache: Seq<char>, id: u64, url: Seq<char>)
    requires
        !extension_of_url(url).contains('/'),
    ensures
        id_of_spec(download_path_spec(cache, id, url)) == Some(id),
{
    let dec = decimal_spec(id as nat);
    let ext = extension_of_url(url);
    let head = met_prefix() + dec + seq!['.'];
    let name = head + ext;
    assert(name =~= download_name_spec(id, url));
    lemma_download_name_plain(id, url);
    lemma_extension_has_no_dot(url);
    crate::text::lemma_decimal_digits(id as nat);
    assert(name.len() >= 6);
    crate::paths::lemma_file_name_of_join(cache, name);
    assert(download_path_spec(cache, id, url) == crate::paths::join_spec(cache, name));
    // The stem ends at the `.` that follows the digits.
    crate::paths::lemma_rfind_absent(ext, '.');
    crate::paths::lemma_rfind_concat(head, ext, '.');
    assert(head.drop_last() + seq!['.'] =~= head);
    crate::paths::lemma_rfind_concat(head.drop_last(), seq!['.'], '.');
    assert(crate::paths::rfind(seq!['.'], '.') == 0) by {
        assert(seq!['.'].last() == '.');
    }
    assert(crate::paths::rfind(name, '.') == 4 + dec.len());
    let stem = name.take(4 + dec.len() as int);
    assert(stem =~= met_prefix() + dec);
    assert(stem.take(4) =~= met_prefix());
    assert(stem.skip(4) =~= dec);
    crate::text::lemma_parse_decimal(id);
}

/// Which candidate a step tries is the random number's doing: every id of the
/// search can come up at an attempt with time and attempts left, and one comes up
/// only where the number lands on it; only the picture to avoid is passed over.
pub proof fn law_any_candidate_can_come_up(f: MetFetch, random: u64, k: int)
    requires
        f.wf(),
        f.attempt < CANDIDATES,
        0 <= k < f.ids.len(),
    ensures
        f.step_spec(false, k as u64) == if Some(f.ids@[k]) == f.avoid {
            MetAction::Skip
        } else {
            MetAction::Lookup(f.ids@[k])
        },
        f.step_spec(false, random) is Skip || f.step_spec(false, random) == MetAction::Lookup(
            f.ids@[(random as int) % (f.ids.len() as int)],
        ),
        f.step_spec(false, random) is Skip ==> f.avoid == Some(
            f.ids@[(random as int) % (f.ids.len() as int)],
        ),
{
    assert((k as u64) as int % (f.ids.len() as int) == k) by (nonlinear_arith)
        requires
            0 <= k < f.ids.len(),
    ;
}

} // verus!
