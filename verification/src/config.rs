//! Where settings and remembered state live, and what the remembered state says
//! about whether a picture is owed.
//!
//! Two files, because they have two different authors. `config.toml` belongs to the
//! person using the program: it is read and never written. `state.json` belongs to
//! the program: it is rewritten freely and nobody is expected to read it.

use crate::art::{Artwork, ArtworkView, SourceSpec};
use crate::day::{local, local_spec};
use crate::paths::{join, join_spec};
use std::time::{Duration, SystemTime};
use vstd::prelude::*;

verus! {

/// Settings, as written by a person.
#[derive(Debug, Clone)]
pub struct Config {
    /// The Met, or a directory of the person's own pictures.
    pub source: SourceSpec,
    /// Left over from an older schedule: accepted, so an existing file still reads,
    /// and otherwise ignored. One painting a day is the whole schedule.
    pub refresh_hours: u64,
}

impl Default for Config {
    fn default() -> (c: Self)
        ensures
            c.source is Met,
            c.refresh_hours == 24,
    {
        Config { source: SourceSpec::Met, refresh_hours: 24 }
    }
}

/// What the program remembers between runs.
#[derive(Debug, Clone)]
pub struct State {
    /// Unix seconds of the last picture that settled a day. A failure leaves this
    /// alone, so the next run retries rather than writing the day off.
    pub last_success: Option<u64>,
    /// The picture on the desktop: the menu names it, and the next fetch avoids it.
    pub shown: Option<Artwork>,
    /// The day's own picture, as the rotation brought it: what there is to come
    /// back to after a favourite.
    pub fetched: Option<Artwork>,
}

impl Default for State {
    fn default() -> (s: Self)
        ensures
            s.last_success is None,
            s.shown is None,
            s.fetched is None,
    {
        State { last_success: None, shown: None, fetched: None }
    }
}

/// The view of an optional picture.
pub open spec fn art_view(a: Option<Artwork>) -> Option<ArtworkView> {
    match a {
        Some(x) => Some(x@),
        None => None,
    }
}

/// A copy of an optional picture.
pub fn copy_art(a: &Option<Artwork>) -> (r: Option<Artwork>)
    ensures
        art_view(r) == art_view(*a),
{
    match a {
        Some(x) => Some(x.duplicate()),
        None => None,
    }
}

impl State {
    /// Whether a picture is owed at `now`, where the clock is `now_offset` seconds
    /// east of UTC and was `last_offset` at the last success: none has ever settled
    /// a day, or the last one did so on another local calendar day. A clock that has
    /// moved backwards onto an earlier day reads as due rather than blocking the
    /// rotation.
    pub open spec fn due_at(self, now: u64, now_offset: i64, last_offset: i64) -> bool {
        match self.last_success {
            None => true,
            Some(last) => local_spec(now, now_offset) != local_spec(last, last_offset),
        }
    }

    /// Whether a picture is owed at `now`, given the offsets from UTC in force at
    /// `now` and at the last success.
    pub fn is_due_at(&self, now: u64, now_offset: i64, last_offset: i64) -> (due: bool)
        ensures
            due == self.due_at(now, now_offset, last_offset),
    {
        match self.last_success {
            None => true,
            Some(last) => local(now, now_offset) != local(last, last_offset),
        }
    }

    /// Whether a picture is owed now, with `offset` telling, for an instant, how
    /// many seconds east of UTC the user's clock is then: always when none has ever
    /// settled a day, and otherwise what [`State::due_at`] says of the clock's
    /// reading, each instant measured under the offset `offset` gives for it.
    pub fn is_due(&self, offset: impl Fn(u64) -> i64) -> (due: bool)
        requires
            forall|t: u64| call_requires(offset, (t,)),
        ensures
            self.last_success is None ==> due,
            exists|now: u64, a: i64, b: i64|
                #![trigger self.due_at(now, a, b)]
                call_ensures(offset, (now,), a) && (self.last_success matches Some(last)
                    ==> call_ensures(offset, (last,), b)) && self.due_at(now, a, b) == due,
    {
        let now = now_secs();
        let a = offset(now);
        match self.last_success {
            None => {
                assert(self.due_at(now, a, 0));
                true
            },
            Some(last) => {
                let b = offset(last);
                let due = self.is_due_at(now, a, b);
                assert(self.due_at(now, a, b) == due);
                due
            },
        }
    }

    /// Remembers a picture the rotation brought, now on the desktop at `now`: it is
    /// the day's picture and the desktop's, and it settles the day.
    pub fn record_fetched(&mut self, art: &Artwork, now: u64)
        ensures
            final(self).last_success == Some(now),
            art_view(final(self).shown) == Some(art@),
            art_view(final(self).fetched) == Some(art@),
    {
        self.last_success = Some(now);
        self.shown = Some(art.duplicate());
        self.fetched = Some(art.duplicate());
    }

    /// Remembers a picture somebody chose, now on the desktop at `now`, with the
    /// offsets from UTC in force at `now` and at the last success.
    ///
    /// The day's picture is unchanged, and so, ordinarily, is the schedule. The
    /// exception is a choice made while a picture was owed: that settles the day,
    /// since otherwise the owed fetch would replace it at once.
    pub fn record_chosen(&mut self, art: &Artwork, now: u64, now_offset: i64, last_offset: i64)
        ensures
            art_view(final(self).shown) == Some(art@),
            art_view(final(self).fetched) == art_view(old(self).fetched),
            final(self).last_success == if old(self).due_at(now, now_offset, last_offset) {
                Some(now)
            } else {
                old(self).last_success
            },
    {
        let due = self.is_due_at(now, now_offset, last_offset);
        self.shown = Some(art.duplicate());
        if due {
            self.last_success = Some(now);
        }
    }
}

/// Where the files live.
#[derive(Debug, Clone)]
pub struct Paths {
    pub config: String,
    pub state: String,
    pub cache: String,
    pub favourites: String,
}

impl Paths {
    /// The files, all kept under one data directory `base`.
    pub fn under(base: &str) -> (p: Paths)
        ensures
            p.config@ == join_spec(base@, "config.toml"@),
            p.state@ == join_spec(base@, "state.json"@),
            p.cache@ == join_spec(base@, "cache"@),
            p.favourites@ == join_spec(base@, "favourites"@),
    {
        Paths {
            config: join(base, "config.toml"),
            state: join(base, "state.json"),
            cache: join(base, "cache"),
            favourites: join(base, "favourites"),
        }
    }
}

/// A reading of the wall clock, opaque to the library.
#[verifier::external_type_specification]
#[verifier::external_body]
pub struct ExSystemTime(SystemTime);

/// The wall clock, as std reports it.
///
/// Trusted: `SystemTime::now`, which std documents as the current time of the
/// system clock. Nothing is claimed of the value: the clock can be set anywhere.
#[verifier::external_body]
fn system_now() -> SystemTime {
    SystemTime::now()
}

/// How long after the Unix epoch `t` is, or nothing for a time before it.
///
/// Trusted: `SystemTime::duration_since(UNIX_EPOCH)`, its error (a time before the
/// epoch) read as nothing. Nothing is claimed of the value.
#[verifier::external_body]
fn since_epoch(t: &SystemTime) -> Option<Duration> {
    t.duration_since(std::time::UNIX_EPOCH).ok()
}

/// The whole seconds in `d`.
///
/// Trusted: `Duration::as_secs`. Nothing is claimed of the value, the duration being
/// opaque here.
#[verifier::external_body]
fn whole_seconds(d: &Duration) -> u64 {
    d.as_secs()
}

/// Unix seconds now, or `0` for a clock set before 1970.
pub fn now_secs() -> u64 {
    match since_epoch(&system_now()) {
        Some(d) => whole_seconds(&d),
        None => 0,
    }
}

/// One painting a day: once a picture has settled the day at `settled`, another is
/// owed at `later` exactly when `later` falls on another local calendar day, each
/// instant read under the offset from UTC in force at it. However many days a
/// machine sleeps through, it wakes owing one painting, not one per day.
pub proof fn law_one_painting_a_day(
    s: State,
    settled: u64,
    settled_offset: i64,
    later: u64,
    later_offset: i64,
)
    requires
        s.last_success == Some(settled),
    ensures
        s.due_at(later, later_offset, settled_offset) == (local_spec(later, later_offset)
            != local_spec(settled, settled_offset)),
        !s.due_at(settled, settled_offset, settled_offset),
{
}

/// Choosing a picture by hand leaves the schedule alone, except when a picture was
/// owed: then the choice settles the day, and nothing more is owed that day.
pub proof fn law_choice_and_schedule(
    before: State,
    after: State,
    now: u64,
    now_offset: i64,
    last_offset: i64,
    later: u64,
    later_offset: i64,
)
    requires
        after.last_success == if before.due_at(now, now_offset, last_offset) {
            Some(now)
        } else {
            before.last_success
        },
    ensures
        !before.due_at(now, now_offset, last_offset) ==> after.due_at(
            later,
            later_offset,
            last_offset,
        ) == before.due_at(later, later_offset, last_offset),
        before.due_at(now, now_offset, last_offset) ==> !after.due_at(
            now,
            now_offset,
            now_offset,
        ),
{
}

} // verus!
