//! What the command line asks for.
//!
//! With no arguments the program settles into the menu bar and looks after itself.
//! The one-shot forms do exactly one rotation and say what happened, on a terminal
//! where the answer is visible.

use crate::art::views;
use vstd::prelude::*;

verus! {

/// What the program was asked to do.
#[derive(Debug, Clone, Copy, PartialEq, Eq, Structural)]
pub enum Mode {
    /// Live in the menu bar and rotate on a schedule.
    Tray,
    /// Rotate once and report, for a terminal or a script — only if a picture is
    /// owed, when `only_if_due`.
    Once { only_if_due: bool },
    /// Print where the files are and stop.
    Where,
    /// Diagnose the desktop integration and stop (GNOME).
    Check,
    /// Ask the copy already running to quit, and stop (GNOME).
    Quit,
    /// Print how to use the program and stop.
    Help,
}

/// An argument the program does not know.
#[derive(Debug, Clone)]
pub struct UnknownArgument {
    pub arg: String,
}

/// What one argument asks for, or `None` for one the program does not know.
pub open spec fn arg_mode(arg: Seq<char>) -> Option<Mode> {
    if arg == "--once"@ {
        Some(Mode::Once { only_if_due: false })
    } else if arg == "--if-due"@ {
        Some(Mode::Once { only_if_due: true })
    } else if arg == "--where"@ {
        Some(Mode::Where)
    } else if arg == "--check"@ {
        Some(Mode::Check)
    } else if arg == "--quit"@ {
        Some(Mode::Quit)
    } else if arg == "--help"@ || arg == "-h"@ {
        Some(Mode::Help)
    } else {
        None
    }
}

/// What the arguments ask for, read from the first: the last mode named wins, help
/// stops the reading at once, and so does the first unknown argument, which is an
/// error naming it.
pub open spec fn parse_spec(args: Seq<Seq<char>>) -> Result<Mode, Seq<char>>
    decreases args.len(),
{
    if args.len() == 0 {
        Ok(Mode::Tray)
    } else {
        match parse_spec(args.drop_last()) {
            Err(e) => Err(e),
            Ok(Mode::Help) => Ok(Mode::Help),
            Ok(_) => match arg_mode(args.last()) {
                Some(m) => Ok(m),
                None => Err(args.last()),
            },
        }
    }
}

/// What one argument asks for.
fn mode_of(arg: &str) -> (m: Option<Mode>)
    ensures
        m == arg_mode(arg@),
{
    if crate::text::same(arg, "--once") {
        Some(Mode::Once { only_if_due: false })
    } else if crate::text::same(arg, "--if-due") {
        Some(Mode::Once { only_if_due: true })
    } else if crate::text::same(arg, "--where") {
        Some(Mode::Where)
    } else if crate::text::same(arg, "--check") {
        Some(Mode::Check)
    } else if crate::text::same(arg, "--quit") {
        Some(Mode::Quit)
    } else if crate::text::same(arg, "--help") || crate::text::same(arg, "-h") {
        Some(Mode::Help)
    } else {
        None
    }
}

/// What the arguments (without the program's own name) ask for.
pub fn parse_args(args: &Vec<String>) -> (r: Result<Mode, UnknownArgument>)
    ensures
        match (r, parse_spec(views(args@))) {
            (Ok(a), Ok(b)) => a == b,
            (Err(a), Err(b)) => a.arg@ == b,
            _ => false,
        },
{
    let mut mode = Mode::Tray;
    let mut i: usize = 0;
    while i < args.len()
        invariant
            i <= args.len(),
            mode != Mode::Help,
            parse_spec(views(args@.take(i as int))) == Ok::<Mode, Seq<char>>(mode),
        decreases args.len() - i,
    {
        assert(views(args@.take(i + 1)).drop_last() =~= views(args@.take(i as int)));
        match mode_of(args[i].as_str()) {
            Some(Mode::Help) => {
                proof {
                    lemma_parse_stops(views(args@), (i + 1) as int);
                    assert(views(args@).take(i + 1) =~= views(args@.take(i + 1)));
                }
                return Ok(Mode::Help);
            },
            Some(m) => {
                mode = m;
            },
            None => {
                proof {
                    lemma_parse_stops(views(args@), (i + 1) as int);
                    assert(views(args@).take(i + 1) =~= views(args@.take(i + 1)));
                }
                return Err(UnknownArgument { arg: args[i].clone() });
            },
        }
        i = i + 1;
    }
    assert(args@.take(args.len() as int) =~= args@);
    Ok(mode)
}

/// Once help or an error has been reached, later arguments change nothing.
proof fn lemma_parse_stops(args: Seq<Seq<char>>, n: int)
    requires
        0 <= n <= args.len(),
        parse_spec(args.take(n)) is Err || parse_spec(args.take(n)) == Ok::<Mode, Seq<char>>(
            Mode::Help,
        ),
    ensures
        parse_spec(args) == parse_spec(args.take(n)),
    decreases args.len(),
{
    if n < args.len() {
        assert(args.drop_last().take(n) =~= args.take(n));
        lemma_parse_stops(args.drop_last(), n);
    } else {
        assert(args.take(n) =~= args);
    }
}

} // verus!
