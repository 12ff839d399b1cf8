//! The resident program's decisions: when to fetch, what a click asks for, and what
//! the menu says.
//!
//! Wall-clock time decides whether a picture is owed, never a countdown: a
//! countdown cannot survive a closed lid. So every deadline here is a wall-clock
//! instant, and the tick is the one remaining countdown — it schedules a question,
//! not an answer. The event loop itself, the menu and the worker thread belong to
//! whoever runs this; they report what happened and do what [`Schedule`] says.

use crate::art::Artwork;
use crate::config::State;
use crate::text::{chars_of, has_at, push_char, string_of_range, trim_end, trim_end_spec};
use vstd::prelude::*;

verus! {

/// How often to look at the clock while the machine is plainly awake, in seconds.
pub const TICK_SECS: u64 = 300;

/// How long to leave a failed attempt alone, in seconds.
pub const RETRY_SECS: u64 = 900;

/// What the event loop should do once it has dealt with an event.
#[derive(Debug, PartialEq, Eq, Structural)]
pub enum Flow {
    /// Sleep until something happens: a fetch is in the air and will report.
    Wait,
    /// Start a fetch on a worker now, then sleep until it reports.
    Fetch,
    /// A failed attempt is cooling off: look again after this many seconds.
    WaitFor(u64),
    /// Nothing is owed: look at the clock again after [`TICK_SECS`].
    Tick,
}

/// The clock's state between events.
#[derive(Clone, Copy, Debug, PartialEq, Eq, Structural)]
pub struct Schedule {
    /// A fetch is in the air; its worker will report.
    pub fetching: bool,
    /// Unix seconds until which a failed attempt is cooling off.
    pub hold_until: Option<u64>,
    /// A picked picture went up while a fetch was in the air, so that fetch is to be
    /// dropped when it lands.
    pub superseded: bool,
    /// Somebody asked for the next picture and has not been answered yet.
    pub asked_for_next: bool,
}

/// Seconds left of a cooling-off period at `now`, if any remain.
pub open spec fn cooling_spec(hold_until: Option<u64>, now: u64) -> Option<u64> {
    match hold_until {
        Some(until) => if until > now {
            Some((until - now) as u64)
        } else {
            None
        },
        None => None,
    }
}

impl Schedule {
    /// The schedule once a picture somebody picked is on the desktop.
    pub open spec fn after_choice(self) -> Schedule {
        Schedule { hold_until: None, superseded: self.fetching, ..self }
    }

    /// The schedule once a fetch has landed.
    pub open spec fn after_landing(self) -> Schedule {
        Schedule { fetching: false, superseded: false, ..self }
    }

    /// The schedule once the landed picture went up (`ok`) or did not, at `now`.
    pub open spec fn after_attempt(self, ok: bool, now: u64) -> Schedule {
        Schedule {
            hold_until: if ok {
                None
            } else {
                Some((now + RETRY_SECS) as u64)
            },
            ..self
        }
    }

    /// Whether the loop starts a fetch at `now`, with `due` saying whether the day
    /// owes a picture: never while one is in the air; otherwise when somebody asked,
    /// or when a picture is owed and no failure is cooling off.
    pub open spec fn starts_fetch(self, due: bool, now: u64) -> bool {
        !self.fetching && (self.asked_for_next || (cooling_spec(self.hold_until, now) is None
            && due))
    }

    /// What the loop does next at `now`.
    pub open spec fn flow_spec(self, due: bool, now: u64) -> Flow {
        if self.fetching {
            Flow::Wait
        } else if self.starts_fetch(due, now) {
            Flow::Fetch
        } else {
            match cooling_spec(self.hold_until, now) {
                Some(left) => Flow::WaitFor(left),
                None => Flow::Tick,
            }
        }
    }

    /// The schedule after deciding what to do next at `now`. A request for the next
    /// picture is taken either way: one made while a download is in the air is
    /// answered by that download, and starts no second one after it lands.
    pub open spec fn after_flow(self, due: bool, now: u64) -> Schedule {
        if self.fetching {
            Schedule { asked_for_next: false, ..self }
        } else {
            Schedule { fetching: self.starts_fetch(due, now), asked_for_next: false, ..self }
        }
    }

    /// At start: nothing in the air, nothing cooling off, nothing asked.
    pub fn new() -> (s: Schedule)
        ensures
            !s.fetching,
            s.hold_until is None,
            !s.superseded,
            !s.asked_for_next,
    {
        Schedule { fetching: false, hold_until: None, superseded: false, asked_for_next: false }
    }

    /// Somebody asked for the next picture.
    pub fn ask_for_next(&mut self)
        ensures
            *final(self) == (Schedule { asked_for_next: true, ..*old(self) }),
    {
        self.asked_for_next = true;
    }

    /// A picture somebody picked is now on the desktop. Nothing is owed that this has
    /// not just answered, and a download already in the air would only undo it.
    pub fn chosen_shown(&mut self)
        ensures
            *final(self) == old(self).after_choice(),
    {
        self.hold_until = None;
        self.superseded = self.fetching;
    }

    /// A fetch has landed. Says whether to hang what it brought: not when a picked
    /// picture went up while it was in the air.
    pub fn fetch_landed(&mut self) -> (hang: bool)
        ensures
            hang == !old(self).superseded,
            *final(self) == old(self).after_landing(),
    {
        self.fetching = false;
        let hang = !self.superseded;
        self.superseded = false;
        hang
    }

    /// The landed picture went up (`ok`) or could not be fetched or hung, at `now`.
    /// A failure is left alone for [`RETRY_SECS`]; the day is only marked done on
    /// success, so nothing else would stop the loop retrying at once.
    pub fn attempt_finished(&mut self, ok: bool, now: u64)
        requires
            now + RETRY_SECS <= u64::MAX,
        ensures
            *final(self) == old(self).after_attempt(ok, now),
    {
        self.hold_until = if ok {
            None
        } else {
            Some(now + RETRY_SECS)
        };
    }

    /// What to do next, at `now`, with `due` saying whether the day owes a picture.
    ///
    /// Recomputed after every event, so that a click, a finished download and a tick
    /// all leave the clock in the same place. Being asked jumps both queues: a person
    /// looking at a picture they do not like is neither waiting out a museum's bad
    /// afternoon nor waiting for tomorrow.
    pub fn next_flow(&mut self, due: bool, now: u64) -> (flow: Flow)
        ensures
            flow == old(self).flow_spec(due, now),
            *final(self) == old(self).after_flow(due, now),
    {
        let cooling: Option<u64> = match self.hold_until {
            Some(until) => if until > now {
                Some(until - now)
            } else {
                None
            },
            None => None,
        };
        let asked = self.asked_for_next;
        self.asked_for_next = false;
        if self.fetching {
            return Flow::Wait;
        }
        if asked || (cooling.is_none() && due) {
            self.fetching = true;
            Flow::Fetch
        } else {
            match cooling {
                Some(left) => Flow::WaitFor(left),
                None => Flow::Tick,
            }
        }
    }
}

/// Never two downloads at once: while a fetch is in the air the loop only waits,
/// whatever is asked or owed, until that fetch lands.
pub proof fn law_one_fetch_at_a_time(s: Schedule, due: bool, now: u64)
    ensures
        s.starts_fetch(due, now) ==> s.after_flow(due, now).fetching,
        s.after_flow(due, now).fetching ==> !s.after_flow(due, now).starts_fetch(due, now)
            && s.after_flow(due, now).flow_spec(due, now) == Flow::Wait,
{
}

/// A picture somebody chose is not undone by a download that was already in the
/// air: that download is dropped when it lands.
pub proof fn law_choice_beats_download(s: Schedule)
    requires
        s.fetching,
    ensures
        s.after_choice().superseded,
        s.after_choice().hold_until is None,
{
}

/// A failed attempt is left alone until its cooling-off ends, unless somebody asks:
/// the loop waits out exactly the time left.
pub proof fn law_failure_cools_off(s: Schedule, due: bool, now: u64, failed_at: u64)
    requires
        !s.fetching,
        !s.asked_for_next,
        failed_at + RETRY_SECS <= u64::MAX,
        failed_at <= now < failed_at + RETRY_SECS,
    ensures
        !s.after_attempt(false, failed_at).starts_fetch(due, now),
        s.after_attempt(false, failed_at).flow_spec(due, now) == Flow::WaitFor(
            (failed_at + RETRY_SECS - now) as u64,
        ),
{
}

/// A request made while a download is in the air is taken by that download: once it
/// lands nothing is asked any more, and if it failed, its cooling-off holds even
/// though somebody asked while it was on its way. Only a new request jumps it.
pub proof fn law_request_taken_while_fetching(
    s: Schedule,
    due: bool,
    now: u64,
    failed_at: u64,
    later_due: bool,
    later: u64,
)
    requires
        s.fetching,
        failed_at + RETRY_SECS <= u64::MAX,
        failed_at <= later < failed_at + RETRY_SECS,
    ensures
        s.flow_spec(due, now) == Flow::Wait,
        !s.after_flow(due, now).asked_for_next,
        !s.after_flow(due, now).after_landing().asked_for_next,
        !s.after_flow(due, now).after_landing().after_attempt(false, failed_at).starts_fetch(
            later_due,
            later,
        ),
        s.after_flow(due, now).after_landing().after_attempt(false, failed_at).flow_spec(
            later_due,
            later,
        ) == Flow::WaitFor((failed_at + RETRY_SECS - later) as u64),
{
}

/// Whether a fetch starts at any of `steps`, each the question the loop asks after an
/// event — whether a picture is owed, and the time — beginning from `s`, with no
/// other event in between.
pub open spec fn steps_start_fetch(s: Schedule, steps: Seq<(bool, u64)>) -> bool
    decreases steps.len(),
{
    if steps.len() == 0 {
        false
    } else {
        s.starts_fetch(steps[0].0, steps[0].1) || steps_start_fetch(
            s.after_flow(steps[0].0, steps[0].1),
            steps.drop_first(),
        )
    }
}

/// A schedule cooling off until `until`, with nothing in the air and nothing asked,
/// starts no fetch at any number of steps before `until`, owed or not.
proof fn lemma_cooling_holds(s: Schedule, until: u64, steps: Seq<(bool, u64)>)
    requires
        !s.fetching,
        !s.asked_for_next,
        s.hold_until == Some(until),
        forall|i: int| 0 <= i < steps.len() ==> (#[trigger] steps[i]).1 < until,
    ensures
        !steps_start_fetch(s, steps),
    decreases steps.len(),
{
    if steps.len() > 0 {
        assert(steps[0].1 < until);
        assert(s.after_flow(steps[0].0, steps[0].1) == s);
        assert forall|i: int| 0 <= i < steps.drop_first().len() implies (
        #[trigger] steps.drop_first()[i]).1 < until by {
            assert(steps.drop_first()[i] == steps[i + 1]);
        }
        lemma_cooling_holds(s, until, steps.drop_first());
    }
}

/// A failure is never retried at once: once a fetch has failed at `failed_at`, no
/// fetch starts at any step of the loop before `failed_at` plus [`RETRY_SECS`],
/// however many ticks, wakes and owed days come in between, unless somebody asks
/// again — including when somebody asked while the failed download was in the air.
pub proof fn law_no_retry_while_cooling(
    s: Schedule,
    due: bool,
    now: u64,
    failed_at: u64,
    steps: Seq<(bool, u64)>,
)
    requires
        s.fetching,
        failed_at + RETRY_SECS <= u64::MAX,
        forall|i: int|
            0 <= i < steps.len() ==> failed_at <= (#[trigger] steps[i]).1 < failed_at
                + RETRY_SECS,
    ensures
        !steps_start_fetch(
            s.after_flow(due, now).after_landing().after_attempt(false, failed_at),
            steps,
        ),
{
    let c = s.after_flow(due, now).after_landing().after_attempt(false, failed_at);
    lemma_cooling_holds(c, (failed_at + RETRY_SECS) as u64, steps);
}

/// A request for the next picture is answered at the first chance, owed or not,
/// cooling off or not, and answered once.
pub proof fn law_asking_jumps_the_queue(s: Schedule, due: bool, now: u64)
    requires
        !s.fetching,
        s.asked_for_next,
    ensures
        s.flow_spec(due, now) == Flow::Fetch,
        !s.after_flow(due, now).asked_for_next,
{
}

/// What a click asks for.
#[derive(Debug)]
pub enum Wanted {
    Nothing,
    /// Go back to the source for a different picture, now rather than tomorrow.
    Next,
    /// Keep the picture on the desktop.
    Keep,
    /// Put a kept picture up in place of whatever the clock had in mind.
    Show(String),
    /// Put the day's own picture back.
    Today,
    /// Drop a kept picture from the list.
    Forget(String),
    /// Open the picture's page in a browser.
    Open,
    /// Put the wallpaper up again.
    Reapply,
    /// The login switch was thrown.
    Login,
}

/// The prefix of the id of a favourite's Show row.
pub open spec fn show_prefix() -> Seq<char> {
    "favourite/show/"@
}

/// The prefix of the id of a favourite's Forget row.
pub open spec fn forget_prefix() -> Seq<char> {
    "favourite/forget/"@
}

/// The id of the Show row for the favourite named `key`.
pub fn show_id(key: &str) -> (id: String)
    ensures
        id@ == show_prefix() + key@,
{
    crate::text::concat("favourite/show/", key)
}

/// The id of the Forget row for the favourite named `key`.
pub fn forget_id(key: &str) -> (id: String)
    ensures
        id@ == forget_prefix() + key@,
{
    crate::text::concat("favourite/forget/", key)
}

/// The ids the menu's fixed rows were given.
pub struct MenuIds {
    pub keep: String,
    pub today: String,
    pub next: String,
    pub open: String,
    pub reapply: String,
    pub login: String,
}

/// A [`Wanted`] with its key as characters.
pub enum WantedView {
    Nothing,
    Next,
    Keep,
    Show(Seq<char>),
    Today,
    Forget(Seq<char>),
    Open,
    Reapply,
    Login,
}

impl View for Wanted {
    type V = WantedView;

    open spec fn view(&self) -> WantedView {
        match self {
            Wanted::Nothing => WantedView::Nothing,
            Wanted::Next => WantedView::Next,
            Wanted::Keep => WantedView::Keep,
            Wanted::Show(k) => WantedView::Show(k@),
            Wanted::Today => WantedView::Today,
            Wanted::Forget(k) => WantedView::Forget(k@),
            Wanted::Open => WantedView::Open,
            Wanted::Reapply => WantedView::Reapply,
            Wanted::Login => WantedView::Login,
        }
    }
}

/// What a click with id `id` asks for: a favourite's row by its prefix, the key
/// following it; a fixed row by its id; and anything else, nothing.
pub open spec fn classify_spec(id: Seq<char>, ids: MenuIds) -> WantedView {
    if show_prefix().is_prefix_of(id) {
        WantedView::Show(id.skip(show_prefix().len() as int))
    } else if forget_prefix().is_prefix_of(id) {
        WantedView::Forget(id.skip(forget_prefix().len() as int))
    } else if id == ids.keep@ {
        WantedView::Keep
    } else if id == ids.today@ {
        WantedView::Today
    } else if id == ids.next@ {
        WantedView::Next
    } else if id == ids.open@ {
        WantedView::Open
    } else if id == ids.reapply@ {
        WantedView::Reapply
    } else if id == ids.login@ {
        WantedView::Login
    } else {
        WantedView::Nothing
    }
}

/// Answers a click with id `id`: a favourite's row carries the key of its picture
/// after a prefix, and the fixed rows are known by their ids.
pub fn classify(id: &str, ids: &MenuIds) -> (w: Wanted)
    ensures
        w@ == classify_spec(id@, *ids),
{
    let v = chars_of(id);
    proof {
        reveal_strlit("favourite/show/");
        reveal_strlit("favourite/forget/");
    }
    let sp = "favourite/show/";
    let fp = "favourite/forget/";
    if has_at(&v, 0, sp) {
        let n = sp.unicode_len();
        let key = string_of_range(&v, n, v.len());
        assert(v@.subrange(0, show_prefix().len() as int) =~= show_prefix());
        assert(key@ =~= id@.skip(show_prefix().len() as int));
        assert(show_prefix().is_prefix_of(id@));
        return Wanted::Show(key);
    }
    assert(!show_prefix().is_prefix_of(id@)) by {
        if show_prefix().is_prefix_of(id@) {
            assert(v@.subrange(0, show_prefix().len() as int) =~= show_prefix());
        }
    }
    if has_at(&v, 0, fp) {
        let n = fp.unicode_len();
        let key = string_of_range(&v, n, v.len());
        assert(v@.subrange(0, forget_prefix().len() as int) =~= forget_prefix());
        assert(key@ =~= id@.skip(forget_prefix().len() as int));
        assert(forget_prefix().is_prefix_of(id@));
        return Wanted::Forget(key);
    }
    assert(!forget_prefix().is_prefix_of(id@)) by {
        if forget_prefix().is_prefix_of(id@) {
            assert(v@.subrange(0, forget_prefix().len() as int) =~= forget_prefix());
        }
    }
    if crate::text::same(id, ids.keep.as_str()) {
        Wanted::Keep
    } else if crate::text::same(id, ids.today.as_str()) {
        Wanted::Today
    } else if crate::text::same(id, ids.next.as_str()) {
        Wanted::Next
    } else if crate::text::same(id, ids.open.as_str()) {
        Wanted::Open
    } else if crate::text::same(id, ids.reapply.as_str()) {
        Wanted::Reapply
    } else if crate::text::same(id, ids.login.as_str()) {
        Wanted::Login
    } else {
        Wanted::Nothing
    }
}

/// Menu rows are for recognising a picture, not reading a catalogue entry: at most
/// this many characters of a title are shown.
pub const TITLE_LIMIT: usize = 44;

/// A title as a menu row shows it: whole when it fits, and otherwise cut to one
/// character short of the limit, trailing white space dropped, and an ellipsis added.
pub open spec fn shorten_spec(t: Seq<char>) -> Seq<char> {
    if t.len() <= TITLE_LIMIT {
        t
    } else {
        trim_end_spec(t.take(TITLE_LIMIT - 1)) + seq!['\u{2026}']
    }
}

/// A title shortened for a menu row.
pub fn shorten(title: &str) -> (s: String)
    ensures
        s@ == shorten_spec(title@),
{
    let v = chars_of(title);
    if v.len() <= TITLE_LIMIT {
        return String::from_str(title);
    }
    let head = string_of_range(&v, 0, TITLE_LIMIT - 1);
    assert(head@ =~= title@.take(TITLE_LIMIT - 1));
    let mut s = trim_end(head.as_str());
    push_char(&mut s, '\u{2026}');
    s
}

/// What the top of the menu says, and which rows can be chosen.
pub struct MenuView {
    pub title: String,
    pub byline: String,
    pub open: bool,
    pub keep: bool,
    pub reapply: bool,
}

/// The credit line for a picture: its byline, or who to thank when it has none.
pub open spec fn credit_spec(art: crate::art::ArtworkView) -> Seq<char> {
    if art.byline.len() == 0 {
        art.attribution
    } else {
        art.byline
    }
}

/// The menu pointed at whatever is on the desktop now, `kept` saying whether that
/// picture is already among the favourites.
pub fn describe(state: &State, kept: bool) -> (m: MenuView)
    ensures
        match state.shown {
            Some(art) => {
                &&& m.title@ == art.title@
                &&& m.byline@ == credit_spec(art@)
                &&& m.open == art.details_url is Some
                &&& m.keep == !kept
                &&& m.reapply
            },
            None => {
                &&& m.title@ == "No picture yet"@
                &&& m.byline@ == "Waiting for the first one"@
                &&& !m.open && !m.keep && !m.reapply
            },
        },
{
    match &state.shown {
        Some(art) => MenuView {
            title: art.title.clone(),
            byline: if art.byline.unicode_len() == 0 {
                art.attribution.clone()
            } else {
                art.byline.clone()
            },
            open: art.details_url.is_some(),
            keep: !kept,
            reapply: true,
        },
        None => MenuView {
            title: String::from_str("No picture yet"),
            byline: String::from_str("Waiting for the first one"),
            open: false,
            keep: false,
            reapply: false,
        },
    }
}

/// The day's picture, when there is one to go back to: it is not what the desktop
/// shows, and its file (`todays_file_exists`) is still there.
pub open spec fn way_back_spec(state: State, todays_file_exists: bool) -> Option<Artwork> {
    match state.fetched {
        Some(art) => if todays_file_exists && match state.shown {
            Some(s) => !crate::paths::path_eq(s.path@, art.path@),
            None => true,
        } {
            Some(art)
        } else {
            None
        },
        None => None,
    }
}

/// What the way-back row says when there is nowhere to go back to.
pub open spec fn no_way_back() -> Seq<char> {
    "Back to today's picture"@
}

/// The way-back row: its text, and whether it can be chosen. Its text names the
/// picture it would return to.
pub fn way_back(state: &State, todays_file_exists: bool) -> (row: (String, bool))
    ensures
        match way_back_spec(*state, todays_file_exists) {
            Some(art) => row.1 && row.0@ == "Back to "@ + shorten_spec(art.title@),
            None => !row.1 && row.0@ == no_way_back(),
        },
{
    match &state.fetched {
        Some(art) => {
            let differs = match &state.shown {
                Some(s) => !crate::paths::same_path(s.path.as_str(), art.path.as_str()),
                None => true,
            };
            if todays_file_exists && differs {
                let mut text = String::from_str("Back to ");
                let short = shorten(art.title.as_str());
                text.append(short.as_str());
                (text, true)
            } else {
                (String::from_str("Back to today's picture"), false)
            }
        },
        None => (String::from_str("Back to today's picture"), false),
    }
}

/// The menu bar glyph: a framed picture with a sun over a hill. `#` is opaque, a
/// space is not; macOS tints template images itself, so only alpha matters.
pub const GLYPH: [&'static str; 18] = [
    "                  ",
    "                  ",
    " ################ ",
    " #              # ",
    " #  ##          # ",
    " # ####         # ",
    " #  ##          # ",
    " #              # ",
    " #              # ",
    " #      ##      # ",
    " #     ####     # ",
    " #    ######    # ",
    " #   ########   # ",
    " #  ##########  # ",
    " # ############ # ",
    " ################ ",
    "                  ",
    "                  ",
];

/// Every row of the glyph is eighteen characters wide.
proof fn lemma_glyph_rows()
    ensures
        forall|r: int| 0 <= r < 18 ==> (#[trigger] GLYPH@[r])@.len() == 18,
{
    reveal_strlit("                  ");
    reveal_strlit(" ################ ");
    reveal_strlit(" #              # ");
    reveal_strlit(" #  ##          # ");
    reveal_strlit(" # ####         # ");
    reveal_strlit(" #      ##      # ");
    reveal_strlit(" #     ####     # ");
    reveal_strlit(" #    ######    # ");
    reveal_strlit(" #   ########   # ");
    reveal_strlit(" #  ##########  # ");
    reveal_strlit(" # ############ # ");
}

/// How many pixels each glyph cell is drawn per side: the bar draws the icon
/// eighteen points tall, and a Retina bar wants two pixels for each.
pub const SCALE: usize = 2;

/// The side of the drawn icon, in pixels.
pub const SIDE: usize = 36;

/// The alpha of pixel (`x`, `y`) of the drawn icon: opaque where the glyph has
/// anything but a space.
pub open spec fn glyph_alpha(x: int, y: int) -> u8 {
    if GLYPH@[y / 2]@[x / 2] == ' ' {
        0
    } else {
        255
    }
}

/// Byte `b` of the icon's pixels, four bytes (red, green, blue, alpha) to a pixel,
/// row after row: black everywhere, with the glyph's alpha.
pub open spec fn glyph_byte(b: int) -> u8 {
    let p = b / 4;
    if b % 4 < 3 {
        0
    } else {
        glyph_alpha(p % 36, p / 36)
    }
}

/// The icon as RGBA pixels, row after row.
pub fn glyph_rgba() -> (v: Vec<u8>)
    ensures
        v.len() == SIDE * SIDE * 4,
        forall|b: int| 0 <= b < v.len() ==> v@[b] == glyph_byte(b),
{
    proof {
        lemma_glyph_rows();
    }
    let total: usize = SIDE * SIDE * 4;
    let mut v: Vec<u8> = Vec::new();
    let mut b: usize = 0;
    while b < total
        invariant
            total == SIDE * SIDE * 4,
            b <= total,
            v.len() == b,
            forall|r: int| 0 <= r < 18 ==> (#[trigger] GLYPH@[r])@.len() == 18,
            forall|i: int| 0 <= i < b ==> v@[i] == glyph_byte(i),
        decreases total - b,
    {
        let p = b / 4;
        if b % 4 < 3 {
            v.push(0);
        } else {
            let y = p / SIDE;
            let x = p % SIDE;
            assert(y / 2 < 18 && x / 2 < 18);
            let row = GLYPH[y / 2];
            let c = row.get_char(x / 2);
            v.push(if c == ' ' {
                0
            } else {
                255
            });
        }
        b = b + 1;
    }
    v
}

/// Trimming the end never lengthens.
proof fn lemma_trim_end_shorter(s: Seq<char>)
    ensures
        trim_end_spec(s).len() <= s.len(),
    decreases s.len(),
{
    if s.len() > 0 && crate::text::is_space(s.last()) {
        lemma_trim_end_shorter(s.drop_last());
    }
}

/// A shortened title fits its menu row, and a title that already fits is left whole.
pub proof fn law_shortened_title_fits(t: Seq<char>)
    ensures
        shorten_spec(t).len() <= TITLE_LIMIT,
        t.len() <= TITLE_LIMIT ==> shorten_spec(t) == t,
{
    if t.len() > TITLE_LIMIT {
        lemma_trim_end_shorter(t.take(TITLE_LIMIT - 1));
    }
}

} // verus!
