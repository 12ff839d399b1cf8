//! One turn of the rotation, and the other way a picture reaches the desktop, which
//! is that somebody asked for it.
//!
//! Fetching and hanging are done by whoever drives the rotation, because one talks
//! to a museum and the other to the desktop. What is decided here is which source
//! to ask and what to pass over, what is remembered once a picture is up, and which
//! file the source must spare when it clears up after itself.

use crate::art::{source_for, AnySource, Artwork};
use crate::config::{art_view, copy_art, Config, State};
use vstd::prelude::*;

verus! {

/// The path of the day's picture, or nothing.
pub open spec fn todays_path(state: State) -> Seq<char> {
    match state.fetched {
        Some(a) => a.path@,
        None => Seq::empty(),
    }
}

/// What to ask for the next picture: the source the settings choose, working in
/// `cache`, and the picture on the desktop now, to be passed over.
pub fn fetch(config: &Config, state: &State, cache: &str) -> (plan: (AnySource, Option<Artwork>))
    ensures
        art_view(plan.1) == art_view(state.shown),
        match (config.source, plan.0) {
            (crate::art::SourceSpec::Met, AnySource::Met(m)) => m.cache@ == cache@,
            (crate::art::SourceSpec::Folder(d), AnySource::Folder(f)) => f.dir@ == d@,
            _ => false,
        },
{
    (source_for(&config.source, cache), copy_art(&state.shown))
}

/// The file a source must spare when it clears up: the day's picture, and
/// deliberately not the desktop's. A favourite on the desktop belongs to the
/// favourites folder; today's download has to outlive being switched away from, or
/// there would be nothing to come back to. An empty path names no file.
pub fn sweep(state: &State) -> (keep: String)
    ensures
        keep@ == todays_path(*state),
{
    match &state.fetched {
        Some(a) => a.path.clone(),
        None => String::new(),
    }
}

/// Records the picture the rotation has just put on the desktop at `now`, as the
/// day's, and says which file the source must spare.
///
/// Called only once the wallpaper is actually up, so a failure to hang it leaves the
/// day unspent and the next attempt retries.
pub fn show(artwork: &Artwork, state: &mut State, now: u64) -> (keep: String)
    ensures
        final(state).last_success == Some(now),
        art_view(final(state).shown) == Some(artwork@),
        art_view(final(state).fetched) == Some(artwork@),
        keep@ == artwork@.path,
{
    state.record_fetched(artwork, now);
    sweep(state)
}

/// Records a picture somebody picked, now on the desktop at `now` (with the offsets
/// from UTC in force at `now` and at the last success) — a favourite, or
/// the day's own picture put back after one — and says which file the source must
/// spare.
pub fn revisit(
    artwork: &Artwork,
    state: &mut State,
    now: u64,
    now_offset: i64,
    last_offset: i64,
) -> (keep: String)
    ensures
        art_view(final(state).shown) == Some(artwork@),
        art_view(final(state).fetched) == art_view(old(state).fetched),
        final(state).last_success == if old(state).due_at(now, now_offset, last_offset) {
            Some(now)
        } else {
            old(state).last_success
        },
        keep@ == todays_path(*old(state)),
{
    state.record_chosen(artwork, now, now_offset, last_offset);
    sweep(state)
}

} // verus!
