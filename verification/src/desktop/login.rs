//! Whether Art Window comes back on its own at login: on macOS a launchd agent, a
//! property list in `~/Library/LaunchAgents` that launchd reads at login; on Linux
//! an XDG autostart entry. The switch is literally whether the file is there; what
//! the file says, and where it goes, is decided here.

use crate::paths::{join, join_spec};
use crate::text::push_char;
use vstd::prelude::*;

verus! {

/// Reverse-DNS name launchd files the agent under.
pub const LABEL: &'static str = "dev.artwindow.tray";

/// Where the agent lives for the home directory `home`.
pub fn agent_path(home: &str) -> (p: String)
    ensures
        p@ == join_spec(join_spec(home@, "Library/LaunchAgents"@), "dev.artwindow.tray.plist"@),
{
    let dir = join(home, "Library/LaunchAgents");
    join(dir.as_str(), "dev.artwindow.tray.plist")
}

/// Where the agent sends the program's output for the home directory `home`.
pub fn log_path(home: &str) -> (p: String)
    ensures
        p@ == join_spec(home@, "Library/Logs/ArtWindow.log"@),
{
    join(home, "Library/Logs/ArtWindow.log")
}

/// `c` as it may stand in XML text.
pub open spec fn escape_char(c: char) -> Seq<char> {
    if c == '&' {
        "&amp;"@
    } else if c == '<' {
        "&lt;"@
    } else {
        seq![c]
    }
}

/// `s` with `&` and `<` escaped, every other character as it was.
pub open spec fn escape_spec(s: Seq<char>) -> Seq<char>
    decreases s.len(),
{
    if s.len() == 0 {
        Seq::empty()
    } else {
        escape_spec(s.drop_last()) + escape_char(s.last())
    }
}

/// `s` made safe to stand in XML text: a home directory may legally hold `&` or `<`.
pub fn escape(s: &str) -> (e: String)
    ensures
        e@ == escape_spec(s@),
{
    let v = crate::text::chars_of(s);
    let mut e = String::new();
    let mut i: usize = 0;
    while i < v.len()
        invariant
            i <= v.len(),
            v@ == s@,
            e@ == escape_spec(s@.take(i as int)),
        decreases v.len() - i,
    {
        let c = v[i];
        assert(s@.take(i + 1).drop_last() =~= s@.take(i as int));
        if c == '&' {
            e.append("&amp;");
        } else if c == '<' {
            e.append("&lt;");
        } else {
            push_char(&mut e, c);
            assert(e@ =~= escape_spec(s@.take(i as int)) + seq![c]);
        }
        i = i + 1;
    }
    assert(s@.take(v.len() as int) =~= s@);
    e
}

/// The agent's text before the program's path.
pub open spec fn plist_head() -> Seq<char> {
    "<?xml version=\"1.0\" encoding=\"UTF-8\"?>\n<!DOCTYPE plist PUBLIC \"-//Apple//DTD PLIST 1.0//EN\" \"http://www.apple.com/DTDs/PropertyList-1.0.dtd\">\n<plist version=\"1.0\">\n<dict>\n\t<key>Label</key>\n\t<string>dev.artwindow.tray</string>\n\t<key>ProgramArguments</key>\n\t<array>\n\t\t<string>"@
}

/// The agent's text between the program's path and the first mention of the log.
pub open spec fn plist_middle() -> Seq<char> {
    "</string>\n\t</array>\n\t<key>RunAtLoad</key>\n\t<true/>\n\t<key>LimitLoadToSessionType</key>\n\t<string>Aqua</string>\n\t<key>StandardOutPath</key>\n\t<string>"@
}

/// The agent's text between the two mentions of the log.
pub open spec fn plist_between() -> Seq<char> {
    "</string>\n\t<key>StandardErrorPath</key>\n\t<string>"@
}

/// The agent's text after the last mention of the log.
pub open spec fn plist_tail() -> Seq<char> {
    "</string>\n</dict>\n</plist>\n"@
}

/// The agent for running `program` at login with its output sent to `log`:
/// `RunAtLoad` and nothing else. `KeepAlive` would be a bug — launchd would
/// relaunch the program the moment Quit worked.
pub open spec fn plist_spec(program: Seq<char>, log: Seq<char>) -> Seq<char> {
    plist_head() + escape_spec(program) + plist_middle() + escape_spec(log) + plist_between()
        + escape_spec(log) + plist_tail()
}

/// The property list of the agent.
pub fn agent_plist(program: &str, log: &str) -> (p: String)
    ensures
        p@ == plist_spec(program@, log@),
{
    let mut p = String::from_str("<?xml version=\"1.0\" encoding=\"UTF-8\"?>\n<!DOCTYPE plist PUBLIC \"-//Apple//DTD PLIST 1.0//EN\" \"http://www.apple.com/DTDs/PropertyList-1.0.dtd\">\n<plist version=\"1.0\">\n<dict>\n\t<key>Label</key>\n\t<string>dev.artwindow.tray</string>\n\t<key>ProgramArguments</key>\n\t<array>\n\t\t<string>");
    p.append(escape(program).as_str());
    p.append("</string>\n\t</array>\n\t<key>RunAtLoad</key>\n\t<true/>\n\t<key>LimitLoadToSessionType</key>\n\t<string>Aqua</string>\n\t<key>StandardOutPath</key>\n\t<string>");
    let escaped_log = escape(log);
    p.append(escaped_log.as_str());
    p.append("</string>\n\t<key>StandardErrorPath</key>\n\t<string>");
    p.append(escaped_log.as_str());
    p.append("</string>\n</dict>\n</plist>\n");
    p
}

/// Escaped text holds no `<`, and every `&` in it starts an entity: a path of any
/// characters can stand in the agent's XML.
pub proof fn law_escaped_has_no_markup(s: Seq<char>)
    ensures
        !escape_spec(s).contains('<'),
    decreases s.len(),
{
    reveal_strlit("&amp;");
    reveal_strlit("&lt;");
    if s.len() > 0 {
        law_escaped_has_no_markup(s.drop_last());
        let a = escape_spec(s.drop_last());
        let b = escape_char(s.last());
        assert(!b.contains('<'));
        if (a + b).contains('<') {
            let i = choose|i: int| 0 <= i < (a + b).len() && (a + b)[i] == '<';
            if i < a.len() {
                assert(a[i] == '<');
            } else {
                assert(b[i - a.len()] == '<');
            }
        }
    }
}

/// Where the XDG autostart entry lives, for the configuration directory
/// `config_home` (`$XDG_CONFIG_HOME`, or `~/.config`).
pub fn autostart_path(config_home: &str) -> (p: String)
    ensures
        p@ == join_spec(join_spec(config_home@, "autostart"@), "dev.artwindow.desktop"@),
{
    let dir = join(config_home, "autostart");
    join(dir.as_str(), "dev.artwindow.desktop")
}

/// `c` as it stands inside a quoted argument of a desktop entry's `Exec` key: `"`,
/// `` ` ``, `$` and `\` are escaped with a backslash for the argument, and that
/// backslash, like any other, is doubled again for the entry's string value; `%`
/// is doubled, since a lone one starts a field code.
pub open spec fn exec_char(c: char) -> Seq<char> {
    if c == '"' || c == '`' || c == '$' {
        seq!['\\', '\\', c]
    } else if c == '\\' {
        seq!['\\', '\\', '\\', '\\']
    } else if c == '%' {
        seq!['%', '%']
    } else {
        seq![c]
    }
}

/// The characters of `s`, each as it stands inside a quoted `Exec` argument.
pub open spec fn exec_chars(s: Seq<char>) -> Seq<char>
    decreases s.len(),
{
    if s.len() == 0 {
        Seq::empty()
    } else {
        exec_chars(s.drop_last()) + exec_char(s.last())
    }
}

/// `s` as one quoted argument of a desktop entry's `Exec` key.
pub open spec fn exec_arg_spec(s: Seq<char>) -> Seq<char> {
    seq!['"'] + exec_chars(s) + seq!['"']
}

/// `s` as one quoted argument of a desktop entry's `Exec` key, so that a path with
/// spaces or quotes in it stays one argument.
pub fn exec_arg(s: &str) -> (a: String)
    ensures
        a@ == exec_arg_spec(s@),
{
    let v = crate::text::chars_of(s);
    let mut a = String::new();
    push_char(&mut a, '"');
    let mut i: usize = 0;
    while i < v.len()
        invariant
            i <= v.len(),
            v@ == s@,
            a@ == seq!['"'] + exec_chars(s@.take(i as int)),
        decreases v.len() - i,
    {
        let c = v[i];
        if c == '"' || c == '`' || c == '$' {
            push_char(&mut a, '\\');
            push_char(&mut a, '\\');
            push_char(&mut a, c);
        } else if c == '\\' {
            push_char(&mut a, '\\');
            push_char(&mut a, '\\');
            push_char(&mut a, '\\');
            push_char(&mut a, '\\');
        } else if c == '%' {
            push_char(&mut a, '%');
            push_char(&mut a, '%');
        } else {
            push_char(&mut a, c);
        }
        assert(s@.take(i + 1).drop_last() =~= s@.take(i as int));
        assert(s@.take(i + 1).last() == c);
        i = i + 1;
        assert(a@ =~= seq!['"'] + exec_chars(s@.take(i as int)));
    }
    assert(s@.take(v.len() as int) =~= s@);
    push_char(&mut a, '"');
    assert(a@ =~= exec_arg_spec(s@));
    a
}

/// The autostart entry's text before the program's path.
pub open spec fn entry_head() -> Seq<char> {
    "[Desktop Entry]\nType=Application\nName=Art Window\nExec="@
}

/// The autostart entry's text after the program's path.
pub open spec fn entry_tail() -> Seq<char> {
    "\nX-GNOME-Autostart-enabled=true\n"@
}

/// The XDG autostart entry for starting `program` at login.
pub open spec fn desktop_entry_spec(program: Seq<char>) -> Seq<char> {
    entry_head() + exec_arg_spec(program) + entry_tail()
}

/// The XDG autostart entry that starts `program`, by its absolute path, at login.
pub fn desktop_entry(program: &str) -> (e: String)
    ensures
        e@ == desktop_entry_spec(program@),
{
    let mut e = String::from_str("[Desktop Entry]\nType=Application\nName=Art Window\nExec=");
    e.append(exec_arg(program).as_str());
    e.append("\nX-GNOME-Autostart-enabled=true\n");
    e
}

/// Within a quoted `Exec` argument every `"` is escaped, so the argument ends only
/// at its closing quote: a path of any characters stays one argument.
pub proof fn law_exec_quotes_are_escaped(s: Seq<char>)
    ensures
        forall|i: int|
            0 <= i < exec_chars(s).len() && #[trigger] exec_chars(s)[i] == '"' ==> i > 0
                && exec_chars(s)[i - 1] == '\\',
    decreases s.len(),
{
    if s.len() > 0 {
        law_exec_quotes_are_escaped(s.drop_last());
        let a = exec_chars(s.drop_last());
        let b = exec_char(s.last());
        let all = exec_chars(s);
        assert(all =~= a + b);
        assert forall|i: int| 0 <= i < all.len() && #[trigger] all[i] == '"' implies i > 0
            && all[i - 1] == '\\' by {
            if i < a.len() {
                assert(all[i] == a[i]);
                assert(all[i - 1] == a[i - 1]);
            } else {
                let k = i - a.len();
                assert(all[i] == b[k]);
                assert(k == 2);
                assert(all[i - 1] == b[1]);
            }
        }
    }
}

/// The agent runs the program and nothing more: its `ProgramArguments` array holds
/// one string, the program's path, escaped — no flag that would make it a one-shot
/// run at login instead of the resident program.
pub proof fn law_agent_runs_the_program_alone(program: Seq<char>, log: Seq<char>)
    ensures
        exists|pre: Seq<char>, post: Seq<char>|
            plist_spec(program, log) == pre + "<key>ProgramArguments</key>\n\t<array>\n\t\t<string>"@ + escape_spec(program) + "</string>\n\t</array>\n"@ + post,
{
    reveal_strlit("<?xml version=\"1.0\" encoding=\"UTF-8\"?>\n<!DOCTYPE plist PUBLIC \"-//Apple//DTD PLIST 1.0//EN\" \"http://www.apple.com/DTDs/PropertyList-1.0.dtd\">\n<plist version=\"1.0\">\n<dict>\n\t<key>Label</key>\n\t<string>dev.artwindow.tray</string>\n\t");
    reveal_strlit("<key>ProgramArguments</key>\n\t<array>\n\t\t<string>");
    reveal_strlit("</string>\n\t</array>\n");
    reveal_strlit("\t<key>RunAtLoad</key>\n\t<true/>\n\t<key>LimitLoadToSessionType</key>\n\t<string>Aqua</string>\n\t<key>StandardOutPath</key>\n\t<string>");
    reveal_strlit("<?xml version=\"1.0\" encoding=\"UTF-8\"?>\n<!DOCTYPE plist PUBLIC \"-//Apple//DTD PLIST 1.0//EN\" \"http://www.apple.com/DTDs/PropertyList-1.0.dtd\">\n<plist version=\"1.0\">\n<dict>\n\t<key>Label</key>\n\t<string>dev.artwindow.tray</string>\n\t<key>ProgramArguments</key>\n\t<array>\n\t\t<string>");
    reveal_strlit("</string>\n\t</array>\n\t<key>RunAtLoad</key>\n\t<true/>\n\t<key>LimitLoadToSessionType</key>\n\t<string>Aqua</string>\n\t<key>StandardOutPath</key>\n\t<string>");
    assert(plist_head() =~= "<?xml version=\"1.0\" encoding=\"UTF-8\"?>\n<!DOCTYPE plist PUBLIC \"-//Apple//DTD PLIST 1.0//EN\" \"http://www.apple.com/DTDs/PropertyList-1.0.dtd\">\n<plist version=\"1.0\">\n<dict>\n\t<key>Label</key>\n\t<string>dev.artwindow.tray</string>\n\t"@ + "<key>ProgramArguments</key>\n\t<array>\n\t\t<string>"@);
    assert(plist_middle() =~= "</string>\n\t</array>\n"@ + "\t<key>RunAtLoad</key>\n\t<true/>\n\t<key>LimitLoadToSessionType</key>\n\t<string>Aqua</string>\n\t<key>StandardOutPath</key>\n\t<string>"@);
    let pre = "<?xml version=\"1.0\" encoding=\"UTF-8\"?>\n<!DOCTYPE plist PUBLIC \"-//Apple//DTD PLIST 1.0//EN\" \"http://www.apple.com/DTDs/PropertyList-1.0.dtd\">\n<plist version=\"1.0\">\n<dict>\n\t<key>Label</key>\n\t<string>dev.artwindow.tray</string>\n\t"@;
    let post = "\t<key>RunAtLoad</key>\n\t<true/>\n\t<key>LimitLoadToSessionType</key>\n\t<string>Aqua</string>\n\t<key>StandardOutPath</key>\n\t<string>"@ + escape_spec(log) + plist_between() + escape_spec(log) + plist_tail();
    assert(plist_spec(program, log) =~= pre + "<key>ProgramArguments</key>\n\t<array>\n\t\t<string>"@ + escape_spec(program) + "</string>\n\t</array>\n"@ + post);
}

/// The autostart entry runs the program and nothing more: its `Exec` line is the
/// program's path, as one quoted argument, and ends there.
pub proof fn law_entry_runs_the_program_alone(program: Seq<char>)
    ensures
        exists|pre: Seq<char>, post: Seq<char>|
            desktop_entry_spec(program) == pre + "\nExec="@ + exec_arg_spec(program) + "\n"@
                + post,
{
    reveal_strlit("[Desktop Entry]\nType=Application\nName=Art Window\nExec=");
    reveal_strlit("[Desktop Entry]\nType=Application\nName=Art Window");
    reveal_strlit("\nExec=");
    reveal_strlit("\nX-GNOME-Autostart-enabled=true\n");
    reveal_strlit("\n");
    reveal_strlit("X-GNOME-Autostart-enabled=true\n");
    let pre = "[Desktop Entry]\nType=Application\nName=Art Window"@;
    let post = "X-GNOME-Autostart-enabled=true\n"@;
    assert(entry_head() =~= pre + "\nExec="@);
    assert(entry_tail() =~= "\n"@ + post);
    assert(desktop_entry_spec(program) =~= pre + "\nExec="@ + exec_arg_spec(program) + "\n"@
        + post);
}

} // verus!
