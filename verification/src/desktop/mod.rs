//! What Art Window asks of the desktop around it, as far as it is a matter of
//! deciding rather than doing: which settings a wallpaper write consists of, how the
//! Dock's store is to be rewritten, and what a login item says.

use vstd::prelude::*;

pub mod dock;
pub mod gnome;
pub mod login;

verus! {

/// How much of the desktop a picture actually reached.
///
/// A desktop can be more than one surface — macOS keeps a wallpaper for every
/// Mission Control Space on every display — and the store holding the ones the user
/// is not looking at is not always there to be written. A picture that reached only
/// the surface in front of them is not a failure worth undoing the day for; it is a
/// reason to ask again shortly.
#[derive(Clone, Copy, PartialEq, Eq, Debug, Structural)]
pub enum Pinned {
    /// The whole desktop is showing it, and nothing further is owed.
    Everywhere,
    /// Part of the desktop is showing it and the rest kept what it had, so this has
    /// to be asked for again.
    InPart,
}

impl Pinned {
    /// Whether the picture has to be offered again.
    pub fn owes_another_try(self) -> (r: bool)
        ensures
            r == (self == Pinned::InPart),
    {
        match self {
            Pinned::Everywhere => false,
            Pinned::InPart => true,
        }
    }
}

} // verus!
