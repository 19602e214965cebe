use vstd::prelude::*;
use vstd::string::*;

use crate::config::{Config, GROUP_COUNT};

verus! {

/// How an entry is launched.
#[derive(PartialEq, Eq, Structural, Clone, Copy, Debug)]
pub enum LaunchKind {
    /// The entry's path is a shell command, run in a terminal emulator.
    Terminal,
    /// The entry's path is a file or an application, opened by `xdg-open`.
    Opener,
}

/// The process to start for an entry: a program and its arguments. A
/// terminal launch runs with its standard input closed.
pub struct LaunchCommand {
    pub kind: LaunchKind,
    pub program: String,
    pub args: Vec<String>,
}

pub struct LaunchView {
    pub kind: LaunchKind,
    pub program: Seq<char>,
    pub args: Seq<Seq<char>>,
}

impl View for LaunchCommand {
    type V = LaunchView;

    open spec fn view(&self) -> LaunchView {
        LaunchView { kind: self.kind, program: self.program@, args: self.args.deep_view() }
    }
}

/// The text with each single quote replaced by `'\''`, so that it can stand
/// inside a single-quoted shell word.
pub open spec fn escape_quotes(s: Seq<char>) -> Seq<char>
    decreases s.len(),
{
    if s.len() == 0 {
        Seq::empty()
    } else if s.last() == '\'' {
        escape_quotes(s.drop_last()) + seq!['\'', '\\', '\'', '\'']
    } else {
        escape_quotes(s.drop_last()).push(s.last())
    }
}

/// The command that runs the shell command `path` in the terminal emulator
/// `shell`: `shell -e sh -c <path with its quotes escaped>`.
pub open spec fn terminal_launch(shell: Seq<char>, path: Seq<char>) -> LaunchView {
    LaunchView {
        kind: LaunchKind::Terminal,
        program: shell,
        args: seq![seq!['-', 'e'], seq!['s', 'h'], seq!['-', 'c'], escape_quotes(path)],
    }
}

/// The command that opens `target` with `xdg-open`.
pub open spec fn opener_launch(target: Seq<char>) -> LaunchView {
    LaunchView {
        kind: LaunchKind::Opener,
        program: seq!['x', 'd', 'g', '-', 'o', 'p', 'e', 'n'],
        args: seq![target],
    }
}

/// `path` starts with a tilde that stands for the home directory: `~` alone,
/// or `~` followed by a path separator.
pub open spec fn starts_with_home_tilde(path: Seq<char>) -> bool {
    path.len() > 0 && path[0] == '~' && (path.len() == 1 || path[1] == '/' || path[1] == '\\')
}

/// What holds of every result of tilde expansion of `path`: a path without
/// a leading home tilde stays as it is, and a path with a leading tilde keeps
/// everything after it, behind whatever the tilde became.
pub open spec fn tilde_expansion_ok(path: Seq<char>, expanded: Seq<char>) -> bool {
    &&& !starts_with_home_tilde(path) ==> expanded == path
    &&& (path.len() > 0 && path[0] == '~') ==> exists|home: Seq<char>|
        expanded == home + path.skip(1)
}

/// The mode text that selects a terminal launch.
pub open spec fn terminal_mode() -> Seq<char> {
    seq!['t']
}

/// `cmd` is a launch of the entry with path `path` and mode `mode`, with the
/// terminal emulator `shell`.
pub open spec fn launch_plan_ok(path: Seq<char>, mode: Seq<char>, shell: Seq<char>, cmd: LaunchView) -> bool {
    if mode == terminal_mode() {
        cmd == terminal_launch(shell, path)
    } else {
        exists|expanded: Seq<char>| tilde_expansion_ok(path, expanded) && cmd == opener_launch(expanded)
    }
}

/// Escaping a concatenation escapes each part.
pub proof fn lemma_escape_concat(a: Seq<char>, b: Seq<char>)
    ensures
        escape_quotes(a + b) == escape_quotes(a) + escape_quotes(b),
    decreases b.len(),
{
    if b.len() == 0 {
        assert(a + b =~= a);
        assert(escape_quotes(a) + escape_quotes(b) =~= escape_quotes(a));
    } else {
        lemma_escape_concat(a, b.drop_last());
        assert((a + b).drop_last() =~= a + b.drop_last());
        assert((a + b).last() == b.last());
        if b.last() == '\'' {
            assert(escape_quotes(a) + escape_quotes(b) =~= escape_quotes(a) + escape_quotes(
                b.drop_last(),
            ) + seq!['\'', '\\', '\'', '\'']);
        } else {
            assert(escape_quotes(a) + escape_quotes(b) =~= (escape_quotes(a) + escape_quotes(
                b.drop_last(),
            )).push(b.last()));
        }
    }
}

/// A text without single quotes is its own escape.
pub proof fn lemma_escape_no_quotes(s: Seq<char>)
    requires
        !s.contains('\''),
    ensures
        escape_quotes(s) == s,
    decreases s.len(),
{
    if s.len() > 0 {
        assert(!s.drop_last().contains('\'')) by {
            if s.drop_last().contains('\'') {
                let i = choose|i: int| 0 <= i < s.drop_last().len() && s.drop_last()[i] == '\'';
                assert(s[i] == '\'');
            }
        }
        lemma_escape_no_quotes(s.drop_last());
        assert(s.last() != '\'') by {
            assert(s[s.len() - 1] == s.last());
        }
        assert(s.drop_last().push(s.last()) =~= s);
    }
}

/// Replaces each single quote of `input` by `'\''`.
pub fn escape_single_quotes(input: &str) -> (out: String)
    ensures
        out@ == escape_quotes(input@),
{
    let n = input.unicode_len();
    let mut out = String::new();
    let mut start: usize = 0;
    let mut i: usize = 0;
    proof {
        reveal_strlit("'\\''");
    }
    while i < n
        invariant
            0 <= start <= i <= n,
            n == input@.len(),
            !input@.subrange(start as int, i as int).contains('\''),
            out@ + input@.subrange(start as int, i as int) == escape_quotes(input@.take(i as int)),
            "'\\''"@ == seq!['\'', '\\', '\'', '\''],
        decreases n - i,
    {
        let c = input.get_char(i);
        let ghost prefix = input@.take(i as int);
        assert(input@.take(i + 1) =~= prefix.push(c));
        assert(prefix.push(c).drop_last() =~= prefix);
        if c == '\'' {
            let piece = input.substring_char(start, i);
            out.append(piece);
            out.append("'\\''");
            proof {
                lemma_escape_no_quotes(input@.subrange(start as int, i as int));
                assert(escape_quotes(input@.take(i + 1)) == escape_quotes(prefix) + seq![
                    '\'',
                    '\\',
                    '\'',
                    '\'',
                ]);
                assert(input@.subrange((i + 1) as int, (i + 1) as int) =~= Seq::<char>::empty());
                assert(out@ + input@.subrange((i + 1) as int, (i + 1) as int) =~= out@);
            }
            start = i + 1;
        } else {
            proof {
                assert(escape_quotes(input@.take(i + 1)) == escape_quotes(prefix).push(c));
                assert(input@.subrange(start as int, i + 1) =~= input@.subrange(
                    start as int,
                    i as int,
                ).push(c));
                let ghost sub = input@.subrange(start as int, i + 1);
                let ghost before = input@.subrange(start as int, i as int);
                assert forall|j: int| 0 <= j < sub.len() implies sub[j] != '\'' by {
                    if j < before.len() {
                        assert(sub[j] == before[j]);
                    }
                }
            }
        }
        i = i + 1;
    }
    let tail = input.substring_char(start, n);
    out.append(tail);
    proof {
        assert(input@.take(n as int) =~= input@);
    }
    out
}

/// Expands a leading `~` of `path` to the home directory, as
/// `shellexpand::tilde` does: it replaces `~` alone or `~` followed by a path
/// separator with the home directory when that is known, and leaves every
/// other path as it is. Which home directory it finds depends on the
/// environment, so the contract says only what holds of every result.
#[verifier::external_body]
fn expand_tilde(path: &str) -> (expanded: String)
    ensures
        tilde_expansion_ok(path@, expanded@),
{
    shellexpand::tilde(path).to_string()
}

/// The command that runs `path` as a shell command in the terminal emulator `shell`.
pub fn terminal_command(shell: &String, path: &String) -> (cmd: LaunchCommand)
    ensures
        cmd@ == terminal_launch(shell@, path@),
{
    let escaped = escape_single_quotes(path.as_str());
    proof {
        reveal_strlit("-e");
        reveal_strlit("sh");
        reveal_strlit("-c");
        assert("-e"@ =~= seq!['-', 'e']);
        assert("sh"@ =~= seq!['s', 'h']);
        assert("-c"@ =~= seq!['-', 'c']);
    }
    let mut args: Vec<String> = Vec::new();
    args.push("-e".to_owned());
    args.push("sh".to_owned());
    args.push("-c".to_owned());
    args.push(escaped);
    let cmd = LaunchCommand { kind: LaunchKind::Terminal, program: shell.clone(), args };
    assert(cmd@.args =~= terminal_launch(shell@, path@).args);
    cmd
}

/// The command that opens `target`, a path whose tilde is already expanded,
/// with `xdg-open`.
pub fn opener_command(target: String) -> (cmd: LaunchCommand)
    ensures
        cmd@ == opener_launch(target@),
{
    proof {
        reveal_strlit("xdg-open");
        assert("xdg-open"@ =~= seq!['x', 'd', 'g', '-', 'o', 'p', 'e', 'n']);
    }
    let mut args: Vec<String> = Vec::new();
    args.push(target);
    let cmd = LaunchCommand { kind: LaunchKind::Opener, program: "xdg-open".to_owned(), args };
    assert(cmd@.args =~= opener_launch(target@).args);
    cmd
}

/// Whether `mode` selects a terminal launch.
pub fn is_terminal_mode(mode: &String) -> (b: bool)
    ensures
        b == (mode@ == terminal_mode()),
{
    proof {
        reveal_strlit("t");
        assert("t"@ =~= terminal_mode());
    }
    let t = "t".to_owned();
    *mode == t
}

/// The command for an entry with path `path` and mode `mode`: mode `"t"`
/// runs the path as a shell command in the terminal emulator `shell`; any
/// other mode opens the path, with its leading tilde expanded, by `xdg-open`.
pub fn plan_launch(path: &String, mode: &String, shell: &String) -> (cmd: LaunchCommand)
    ensures
        launch_plan_ok(path@, mode@, shell@, cmd@),
{
    if is_terminal_mode(mode) {
        terminal_command(shell, path)
    } else {
        let expanded = expand_tilde(path.as_str());
        let cmd = opener_command(expanded);
        assert(tilde_expansion_ok(path@, expanded@) && cmd@ == opener_launch(expanded@));
        cmd
    }
}

impl Config {
    /// The command that launches entry `row` of group `g`, with the first
    /// terminal emulator; `None` when the group has no path or no mode for
    /// that entry or no terminal emulator is configured.
    pub fn launch_command(&self, g: usize, row: usize) -> (cmd: Option<LaunchCommand>)
        requires
            self@.wf(),
            g < GROUP_COUNT,
        ensures
            cmd is Some <==> (row < self@.groups[g as int].paths.len() && row
                < self@.groups[g as int].modes.len() && self@.shell.len() > 0),
            cmd matches Some(c) ==> launch_plan_ok(
                self@.groups[g as int].paths[row as int],
                self@.groups[g as int].modes[row as int],
                self@.shell[0],
                c@,
            ),
    {
        let grp = &self.groups[g];
        assert(grp@ == self@.groups[g as int]);
        if row < grp.paths.len() && row < grp.modes.len() && self.shell.len() > 0 {
            Some(plan_launch(&grp.paths[row], &grp.modes[row], &self.shell[0]))
        } else {
            None
        }
    }
}

} // verus!
