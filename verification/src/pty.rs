//! Talking to the backend shell: the markers that frame each command,
//! parsing what the shell prints around them, and filtering its output.
pub mod filter;
pub mod launch;
pub mod output_filter;
pub mod parser;
pub mod protocol;
pub mod syntax;

use vstd::prelude::*;
use crate::encryption::lossy_text;
use crate::pty::filter::{clean_fish_repaint_lines, fish_cleaned};
use crate::pty::parser::{
    complete_lines, complete_marker_from, find_complete_marker_chars, first_ready_cwd, hook_output,
    i32_value, int_value, lines_to_strings, normalize_chars, normalized, opt_view, parse_i32_chars,
    parse_ready_cwd, ready_prefix, start_prefix, strings_to_lines, trim_empty_lines,
    without_trailing_newlines,
};
use crate::text::{
    chars_string, contains_char, has_prefix, lines_of, push_chars, push_str_chars, starts_with,
    str_chars, sub_chars, text_lines, trim, trim_chars, trim_end, trim_end_chars,
};

verus! {

broadcast use vstd::string::group_string_axioms;

/// What one command run in the backend shell gave.
#[derive(Debug, Clone, PartialEq, Eq)]
pub struct CommandResult {
    pub command: String,
    pub started_command: Option<String>,
    pub output: String,
    pub exit_code: i32,
    pub cwd: Option<String>,
}

/// The size of the terminal the backend shell writes to.
#[derive(Debug, Clone, Copy, PartialEq, Eq)]
pub struct PtySize {
    pub rows: u16,
    pub cols: u16,
    pub pixel_width: u16,
    pub pixel_height: u16,
}

/// Whether an input needs more lines before it can run, and the prompt
/// for them.
#[derive(Debug, Clone, PartialEq, Eq)]
pub struct ContinuationCheck {
    pub needs_more: bool,
    pub prompt: Option<String>,
}

/// What happens while a command runs: output, a chance to poll the
/// user's input, or nothing for a while.
#[derive(Debug, Clone, Copy, PartialEq, Eq)]
pub enum PtyCommandEvent<'a> {
    Output(&'a [u8]),
    PollInput,
    Idle,
}

/// The backend shell's terminal was closed.
#[derive(Debug, Clone, Copy, PartialEq, Eq)]
pub struct BackendShellClosed;

impl BackendShellClosed {
    pub fn message(&self) -> (r: &'static str)
        ensures
            r@ == "backend shell PTY closed"@,
    {
        "backend shell PTY closed"
    }
}

/// How the backend shell reports that a command started and finished.
#[derive(Debug, Clone, Copy, PartialEq, Eq)]
pub enum ShellIntegration {
    MarkerCommand,
    BashPromptCommand,
    ZshHooks,
    FishEvents,
}

impl ShellIntegration {
    /// The shell reports through its own hooks rather than a marker command.
    pub fn uses_shell_events(self) -> (r: bool)
        ensures
            r == !(self is MarkerCommand),
    {
        match self {
            ShellIntegration::MarkerCommand => false,
            _ => true,
        }
    }

    /// The shell can report on the extra control descriptor.
    pub fn supports_control_channel(self) -> (r: bool)
        ensures
            r == !(self is MarkerCommand),
    {
        self.uses_shell_events()
    }

    /// Multi-line commands need a status marker even with shell events.
    pub fn shell_events_require_marker_for(self, command: &str) -> (r: bool)
        ensures
            r == (command@.contains('\n') && (self is BashPromptCommand || self is ZshHooks)),
    {
        let v = str_chars(command);
        contains_char(v.as_slice(), '\n') && match self {
            ShellIntegration::BashPromptCommand | ShellIntegration::ZshHooks => true,
            _ => false,
        }
    }
}

/// `{` and `}` around a command, each on its own line.
pub open spec fn braced(c: Seq<char>) -> Seq<char> {
    seq!['{', '\n'] + c + seq!['\n', '}']
}

/// A multi-line command as one compound command of the shell.
pub open spec fn wrapped_command(integration: ShellIntegration, c: Seq<char>) -> Seq<char> {
    if !c.contains('\n') {
        c
    } else {
        match integration {
            ShellIntegration::BashPromptCommand | ShellIntegration::ZshHooks => braced(c),
            ShellIntegration::FishEvents => "begin\n"@ + c + "\nend"@,
            ShellIntegration::MarkerCommand => c,
        }
    }
}

/// What the backend runs for a command whose terminal I/O goes straight
/// to the user.
pub open spec fn passthrough_command(integration: ShellIntegration, command: Seq<char>) -> Seq<char> {
    let c = without_trailing_newlines(command);
    match integration {
        ShellIntegration::ZshHooks | ShellIntegration::FishEvents => wrapped_command(integration, c),
        _ => " stty echo; "@ + braced(c)
            + "; __aish_passthrough_status=$?; stty -echo; __aish_preserve_status \"$__aish_passthrough_status\""@,
    }
}

fn push_braced(out: &mut String, c: &[char])
    ensures
        final(out)@ == old(out)@ + braced(c@),
{
    let ghost start = out@;
    out.push('{');
    out.push('\n');
    push_chars(out, c);
    out.push('\n');
    out.push('}');
    assert(out@ =~= start + braced(c@));
}

fn trailing_newlines_removed(command: &str) -> (r: Vec<char>)
    ensures
        r@ == without_trailing_newlines(command@),
{
    let v = str_chars(command);
    let mut nl: Vec<char> = Vec::new();
    nl.push('\n');
    assert(nl@ =~= seq!['\n']);
    let t = crate::pty::filter::trail_in_exec(v.as_slice(), nl.as_slice());
    sub_chars(v.as_slice(), 0, v.len() - t)
}

fn wrapped_of(integration: ShellIntegration, c: &[char]) -> (r: String)
    ensures
        r@ == wrapped_command(integration, c@),
{
    if !contains_char(c, '\n') {
        return chars_string(c);
    }
    let mut out = String::new();
    match integration {
        ShellIntegration::BashPromptCommand | ShellIntegration::ZshHooks => {
            push_braced(&mut out, c);
        },
        ShellIntegration::FishEvents => {
            push_str_chars(&mut out, "begin\n");
            push_chars(&mut out, c);
            push_str_chars(&mut out, "\nend");
        },
        ShellIntegration::MarkerCommand => {
            push_chars(&mut out, c);
        },
    }
    out
}

/// A multi-line command wrapped as one compound command of the shell;
/// one line stays as it is.
pub fn wrap_multiline_shell_event_command(integration: ShellIntegration, command: &str) -> (r: String)
    ensures
        r@ == wrapped_command(integration, command@),
{
    let v = str_chars(command);
    wrapped_of(integration, v.as_slice())
}

/// What the backend runs for a command with shell events.
pub fn shell_event_backend_command(integration: ShellIntegration, command: &str) -> (r: String)
    ensures
        r@ == wrapped_command(integration, without_trailing_newlines(command@)),
{
    let c = trailing_newlines_removed(command);
    wrapped_of(integration, c.as_slice())
}

/// What the backend runs for a command that talks to the terminal itself.
pub fn passthrough_backend_command(integration: ShellIntegration, command: &str) -> (r: String)
    ensures
        r@ == passthrough_command(integration, command@),
{
    let c = trailing_newlines_removed(command);
    match integration {
        ShellIntegration::ZshHooks | ShellIntegration::FishEvents => wrapped_of(integration, c.as_slice()),
        _ => {
            let mut out = String::new();
            push_str_chars(&mut out, " stty echo; ");
            push_braced(&mut out, c.as_slice());
            push_str_chars(
                &mut out,
                "; __aish_passthrough_status=$?; stty -echo; __aish_preserve_status \"$__aish_passthrough_status\"",
            );
            out
        },
    }
}

// ---------------------------------------------------------------------
// The control channel
// ---------------------------------------------------------------------

/// An event the shell reports on the control channel.
#[derive(Debug, Clone, PartialEq, Eq)]
pub enum ControlEvent {
    Start(String),
    Ready { exit_code: i32, cwd: String },
}

/// A control event in terms of sequences.
pub enum ControlView {
    Start(Seq<char>),
    Ready(i32, Seq<char>),
}

pub open spec fn control_view(e: ControlEvent) -> ControlView {
    match e {
        ControlEvent::Start(c) => ControlView::Start(c@),
        ControlEvent::Ready { exit_code, cwd } => ControlView::Ready(exit_code, cwd@),
    }
}

/// The event that a control line reports: a start marker with its
/// command, or a ready marker with an exit status and a nonempty working
/// directory.
pub open spec fn control_event_of(line: Seq<char>) -> Option<ControlView> {
    let l = crate::pty::filter::trim_in(line, seq!['\r', '\n']);
    if has_prefix(l, start_prefix()) {
        Some(ControlView::Start(l.skip(start_prefix().len() as int)))
    } else if has_prefix(l, ready_prefix()) {
        let rest = l.skip(ready_prefix().len() as int);
        match crate::text::first_from(rest, seq!['\t'], 0) {
            Some(k) => match i32_value(trim(rest.take(k))) {
                Some(code) => {
                    let cwd = trim_end(rest.skip(k + 1));
                    if cwd.len() > 0 {
                        Some(ControlView::Ready(code, cwd))
                    } else {
                        None
                    }
                },
                None => None,
            },
            None => None,
        }
    } else {
        None
    }
}

/// Reads one line of the control channel.
pub fn parse_control_event(line: &str) -> (r: Option<ControlEvent>)
    ensures
        match control_event_of(line@) {
            Some(e) => r matches Some(x) && control_view(x) == e,
            None => r is None,
        },
{
    let v = str_chars(line);
    let set: Vec<char> = vec!['\r', '\n'];
    assert(set@ =~= seq!['\r', '\n']);
    let l = crate::pty::filter::trim_in_exec(v.as_slice(), set.as_slice());
    let mut sp = str_chars(crate::pty::protocol::start_marker());
    sp.push('\t');
    let mut rp = str_chars(crate::pty::protocol::ready_marker());
    rp.push('\t');
    if starts_with(l.as_slice(), sp.as_slice()) {
        let c = sub_chars(l.as_slice(), sp.len(), l.len());
        assert(c@ =~= l@.skip(start_prefix().len() as int));
        return Some(ControlEvent::Start(chars_string(c.as_slice())));
    }
    if !starts_with(l.as_slice(), rp.as_slice()) {
        return None;
    }
    let rest = sub_chars(l.as_slice(), rp.len(), l.len());
    assert(rest@ =~= l@.skip(ready_prefix().len() as int));
    let mut tab: Vec<char> = Vec::new();
    tab.push('\t');
    assert(tab@ =~= seq!['\t']);
    let k = match crate::pty::parser::find_from(rest.as_slice(), tab.as_slice(), 0) {
        Some(k) => k,
        None => {
            return None;
        },
    };
    proof {
        crate::pty::parser::lemma_first_from_found(rest@, tab@, 0);
    }
    let first = sub_chars(rest.as_slice(), 0, k);
    assert(first@ =~= rest@.take(k as int));
    let code = match parse_i32_chars(trim_chars(first.as_slice()).as_slice()) {
        Some(c) => c,
        None => {
            return None;
        },
    };
    let second = sub_chars(rest.as_slice(), k + 1, rest.len());
    assert(second@ =~= rest@.skip(k + 1));
    let cwd = trim_end_chars(second.as_slice());
    if cwd.len() > 0 {
        Some(ControlEvent::Ready { exit_code: code, cwd: chars_string(cwd.as_slice()) })
    } else {
        None
    }
}

/// The first line break in `b` at or after `i`; -1 when there is none.
pub open spec fn first_newline_from(b: Seq<u8>, i: int) -> int
    decreases b.len() - i,
{
    if i >= b.len() {
        -1
    } else if b[i] == 10 {
        i
    } else {
        first_newline_from(b, i + 1)
    }
}

pub proof fn lemma_first_newline_from(b: Seq<u8>, i: int)
    requires
        0 <= i,
    ensures
        first_newline_from(b, i) == -1 || (i <= first_newline_from(b, i) < b.len() && b[first_newline_from(b, i)]
            == 10),
        forall|k: int|
            i <= k < (if first_newline_from(b, i) == -1 { b.len() as int } else { first_newline_from(b, i) }) ==> b[k]
                != 10,
    decreases b.len() - i,
{
    if i < b.len() && b[i] != 10 {
        lemma_first_newline_from(b, i + 1);
    }
}

/// The complete lines of `b` from `s` on, each with its line break, and
/// the bytes after the last line break.
pub open spec fn control_lines_from(b: Seq<u8>, s: int) -> (Seq<Seq<u8>>, Seq<u8>)
    decreases b.len() - s,
{
    let k = first_newline_from(b, s);
    if s < 0 || k < 0 {
        (seq![], b.skip(s))
    } else {
        proof {
            lemma_first_newline_from(b, s);
        }
        let rest = control_lines_from(b, k + 1);
        (seq![b.subrange(s, k + 1)] + rest.0, rest.1)
    }
}

/// The events of complete control lines, each read as lossy UTF-8; lines
/// that are no event are passed over.
pub open spec fn control_events_of(lines: Seq<Seq<u8>>) -> Seq<ControlView>
    decreases lines.len(),
{
    if lines.len() == 0 {
        seq![]
    } else {
        match control_event_of(crate::context::text_of(lines[0])) {
            Some(e) => seq![e] + control_events_of(lines.skip(1)),
            None => control_events_of(lines.skip(1)),
        }
    }
}

pub open spec fn control_views(es: Seq<ControlEvent>) -> Seq<ControlView> {
    es.map_values(|e: ControlEvent| control_view(e))
}

pub proof fn lemma_control_events_append(a: Seq<Seq<u8>>, l: Seq<u8>)
    ensures
        control_events_of(a.push(l)) == control_events_of(a) + control_events_of(seq![l]),
    decreases a.len(),
{
    if a.len() == 0 {
        assert(a.push(l) =~= seq![l]);
        assert(Seq::<ControlView>::empty() + control_events_of(seq![l]) =~= control_events_of(seq![l]));
    } else {
        lemma_control_events_append(a.skip(1), l);
        assert(a.push(l).skip(1) =~= a.skip(1).push(l));
        assert(a.push(l)[0] == a[0]);
        assert(control_events_of(seq![l]).len() >= 0);
        match control_event_of(crate::context::text_of(a[0])) {
            Some(e) => {
                assert(seq![e] + (control_events_of(a.skip(1)) + control_events_of(seq![l])) =~= (seq![e]
                    + control_events_of(a.skip(1))) + control_events_of(seq![l]));
            },
            None => {},
        }
    }
}

/// Takes the complete lines out of the pending control bytes and reads
/// their events; the bytes after the last line break stay pending.
pub fn drain_control_events(pending: &mut Vec<u8>) -> (r: Vec<ControlEvent>)
    ensures
        control_views(r@) == control_events_of(control_lines_from(old(pending)@, 0).0),
        final(pending)@ == control_lines_from(old(pending)@, 0).1,
{
    let ghost b = pending@;
    let ghost mut done: Seq<Seq<u8>> = seq![];
    let mut events: Vec<ControlEvent> = Vec::new();
    let mut s: usize = 0;
    loop
        invariant
            b == pending@,
            s <= b.len(),
            control_lines_from(b, 0) == (done + control_lines_from(b, s as int).0, control_lines_from(
                b,
                s as int,
            ).1),
            control_views(events@) == control_events_of(done),
        ensures
            b == pending@,
            s <= b.len(),
            control_lines_from(b, 0) == (done + control_lines_from(b, s as int).0, control_lines_from(
                b,
                s as int,
            ).1),
            control_views(events@) == control_events_of(done),
            first_newline_from(b, s as int) == -1,
        decreases b.len() - s,
    {
        let mut j: usize = s;
        while j < pending.len() && pending[j] != 10
            invariant
                b == pending@,
                s <= j <= b.len(),
                first_newline_from(b, s as int) == first_newline_from(b, j as int),
            decreases b.len() - j,
        {
            j = j + 1;
        }
        proof {
            lemma_first_newline_from(b, s as int);
        }
        if j >= pending.len() {
            proof {
                assert(first_newline_from(b, s as int) == -1);
            }
            break;
        }
        let mut line: Vec<u8> = Vec::new();
        let end = j + 1;
        let mut k: usize = s;
        while k < end
            invariant
                b == pending@,
                s <= k <= end,
                end == j + 1,
                j < b.len(),
                line@ == b.subrange(s as int, k as int),
            decreases end - k,
        {
            line.push(pending[k]);
            k = k + 1;
            assert(line@ =~= b.subrange(s as int, k as int));
        }
        let text = crate::encryption::lossy_text(line.as_slice());
        let ghost before = control_views(events@);
        match parse_control_event(text.as_str()) {
            Some(e) => {
                events.push(e);
                assert(control_views(events@) =~= before.push(control_view(e)));
            },
            None => {},
        }
        proof {
            let l = b.subrange(s as int, j + 1);
            assert(first_newline_from(b, s as int) == j);
            lemma_control_events_append(done, l);
            assert(control_events_of(seq![l]) =~= match control_event_of(crate::context::text_of(l)) {
                Some(e) => seq![e],
                None => seq![],
            }) by {
                reveal_with_fuel(control_events_of, 2);
                assert(seq![l][0] == l);
                assert(seq![l].skip(1) =~= Seq::<Seq<u8>>::empty());
            }
            let rest = control_lines_from(b, j + 1);
            assert(control_lines_from(b, s as int) == (seq![l] + rest.0, rest.1));
            assert(done + (seq![l] + rest.0) =~= done.push(l) + rest.0);
            done = done.push(l);
        }
        s = j + 1;
    }
    proof {
        assert(control_lines_from(b, s as int) == (Seq::<Seq<u8>>::empty(), b.skip(s as int)));
        assert(done + Seq::<Seq<u8>>::empty() =~= done);
    }
    let mut rest: Vec<u8> = Vec::new();
    let mut k: usize = s;
    while k < pending.len()
        invariant
            b == pending@,
            s <= k <= b.len(),
            rest@ == b.subrange(s as int, k as int),
        decreases b.len() - k,
    {
        rest.push(pending[k]);
        k = k + 1;
        assert(rest@ =~= b.subrange(s as int, k as int));
    }
    assert(rest@ =~= b.skip(s as int));
    *pending = rest;
    events
}

/// What a run of control events leaves: the command last reported as
/// started (a blank one counts as none), and the first finish with the
/// started command it goes with, after which the started command is
/// cleared and the remaining events are not read.
pub open spec fn ready_after(
    started: Option<Seq<char>>,
    events: Seq<ControlView>,
) -> (Option<Seq<char>>, Option<(i32, Seq<char>, Option<Seq<char>>)>)
    decreases events.len(),
{
    if events.len() == 0 {
        (started, None)
    } else {
        match events[0] {
            ControlView::Start(c) => ready_after(
                if c.len() > 0 {
                    Some(c)
                } else {
                    None
                },
                events.skip(1),
            ),
            ControlView::Ready(code, cwd) => (None, Some((code, cwd, started))),
        }
    }
}

/// Reads control events in order: a start records the command, the first
/// finish is the command's result; see `ready_after`.
pub fn next_control_ready(started: &mut Option<String>, events: Vec<ControlEvent>) -> (r: Option<ControlReady>)
    ensures
        opt_view(*final(started)) == ready_after(opt_view(*old(started)), control_views(events@)).0,
        match ready_after(opt_view(*old(started)), control_views(events@)).1 {
            Some((code, cwd, s)) => r matches Some(x) && x.exit_code == code && x.cwd@ == cwd
                && opt_view(x.started_command) == s,
            None => r is None,
        },
{
    let ghost all = control_views(events@);
    let mut rest = events;
    let ghost mut done: int = 0;
    while rest.len() > 0
        invariant
            0 <= done <= all.len(),
            all == control_views(events@),
            control_views(rest@) == all.skip(done),
            ready_after(opt_view(*old(started)), all) == ready_after(opt_view(*started), all.skip(done)),
        decreases rest.len(),
    {
        let event = rest.remove(0);
        proof {
            assert(all.skip(done)[0] == control_view(event));
            assert(all.skip(done).skip(1) =~= all.skip(done + 1));
        }
        match event {
            ControlEvent::Start(command) => {
                if !command.as_str().is_empty() {
                    *started = Some(command);
                } else {
                    *started = None;
                }
            },
            ControlEvent::Ready { exit_code, cwd } => {
                let ghost st = opt_view(*started);
                proof {
                    assert(all.skip(done)[0] == ControlView::Ready(exit_code, cwd@));
                    assert(ready_after(st, all.skip(done)) == (None::<Seq<char>>, Some((exit_code, cwd@, st))));
                }
                let s = started.take();
                assert(opt_view(s) == st);
                assert(opt_view(*started) == None::<Seq<char>>);
                return Some(ControlReady { exit_code, cwd, started_command: s });
            },
        }
        proof {
            done = done + 1;
        }
    }
    None
}

/// What the control channel reported when a command finished.
#[derive(Debug, Clone, PartialEq, Eq)]
pub struct ControlReady {
    pub exit_code: i32,
    pub cwd: String,
    pub started_command: Option<String>,
}

/// The output of a command read with the control channel: line endings
/// normalized and leading blank lines dropped; for fish also repaint
/// noise removed, as the ready-marker output is.
pub open spec fn control_output(raw: Seq<char>, started: Option<Seq<char>>, fish: bool) -> Seq<char> {
    let n = normalized(raw);
    if !fish {
        crate::pty::filter::trim_start_in(n, seq!['\n'])
    } else {
        hook_output(fish_cleaned(text_lines(n), started), n.len() > 0 && n.last() == '\n')
    }
}

pub fn output_from_control_raw(raw: &str, started_command: Option<&str>, fish: bool) -> (r: String)
    ensures
        r@ == control_output(
            raw@,
            match started_command {
                Some(c) => Some(c@),
                None => None,
            },
            fish,
        ),
{
    let v = str_chars(raw);
    let n = normalize_chars(v.as_slice());
    if !fish {
        let mut nl: Vec<char> = Vec::new();
        nl.push('\n');
        assert(nl@ =~= seq!['\n']);
        let lead = crate::pty::filter::lead_in_exec(n.as_slice(), nl.as_slice());
        let rest = sub_chars(n.as_slice(), lead, n.len());
        return chars_string(rest.as_slice());
    }
    let ended = n.len() > 0 && n[n.len() - 1] == '\n';
    let lines = lines_of(n.as_slice());
    let as_strings = lines_to_strings(&lines);
    let cleaned = clean_fish_repaint_lines(as_strings, started_command);
    let back = strings_to_lines(&cleaned);
    crate::pty::parser::hook_output_string(&back, ended)
}

/// The result of a command read with the control channel. The started
/// command is the one the shell reported when the backend ran the command
/// as it was given, else the command itself.
pub fn command_result_from_control(
    command: &str,
    backend_command: &str,
    raw: &str,
    ready: ControlReady,
    fish: bool,
) -> (r: CommandResult)
    ensures
        r.command@ == without_trailing_newlines(command@),
        opt_view(r.started_command) == (if backend_command@ == command@ && ready.started_command is Some {
            opt_view(ready.started_command)
        } else {
            Some(without_trailing_newlines(command@))
        }),
        r.output@ == control_output(raw@, opt_view(r.started_command), fish),
        r.exit_code == ready.exit_code,
        r.cwd == Some(ready.cwd),
{
    let trimmed = chars_string(trailing_newlines_removed(command).as_slice());
    let same = crate::text::chars_eq(str_chars(backend_command).as_slice(), str_chars(command).as_slice());
    let started = if same && ready.started_command.is_some() {
        ready.started_command
    } else {
        Some(trimmed.clone())
    };
    let output = match &started {
        Some(c) => output_from_control_raw(raw, Some(c.as_str()), fish),
        None => output_from_control_raw(raw, None, fish),
    };
    CommandResult { command: trimmed, started_command: started, output, exit_code: ready.exit_code, cwd: Some(ready.cwd) }
}

/// The result of a command read up to the ready marker, without the
/// control channel. Bash's prompt prints a line break before the ready
/// marker; fish's output has its repaint noise removed. The started
/// command is the one the shell reported when the backend ran the command
/// as it was given, else the command itself.
pub fn command_result_from_ready_output(
    command: &str,
    backend_command: &str,
    integration: ShellIntegration,
    raw: &str,
) -> (r: Result<CommandResult, crate::pty::parser::ShellOutputError>)
    ensures
        match crate::pty::parser::ready_status_output(raw@, integration is FishEvents, integration is BashPromptCommand) {
            Ok(t) => r matches Ok(c)
                && c.command@ == without_trailing_newlines(command@)
                && opt_view(c.started_command) == (if backend_command@ == command@ && t.3 is Some {
                    t.3
                } else {
                    Some(without_trailing_newlines(command@))
                })
                && c.output@ == t.0
                && c.exit_code == t.1
                && opt_view(c.cwd) == Some(t.2),
            Err(e) => r == Err::<CommandResult, crate::pty::parser::ShellOutputError>(e),
        },
{
    let bash = matches!(integration, ShellIntegration::BashPromptCommand);
    let fish = matches!(integration, ShellIntegration::FishEvents);
    let parsed = if bash {
        crate::pty::parser::parse_ready_status_output_with_prompt_separator(raw, false)
    } else {
        crate::pty::parser::parse_ready_status_output(raw, fish)
    };
    match parsed {
        Err(e) => Err(e),
        Ok(h) => {
            let trimmed = chars_string(trailing_newlines_removed(command).as_slice());
            let same = crate::text::chars_eq(str_chars(backend_command).as_slice(), str_chars(command).as_slice());
            let started = if same && h.started_command.is_some() {
                h.started_command
            } else {
                Some(trimmed.clone())
            };
            Ok(CommandResult { command: trimmed, started_command: started, output: h.output, exit_code: h.exit_code, cwd: Some(h.cwd) })
        },
    }
}

// ---------------------------------------------------------------------
// Waiting for the shell
// ---------------------------------------------------------------------

/// What a read waits for: a status marker, or the ready marker.
pub enum PtyReadTarget<'a> {
    Marker { marker: &'a str },
    Ready,
}

impl<'a> PtyReadTarget<'a> {
    /// Whether `data` holds what the read waits for.
    pub fn is_complete(&self, data: &[u8]) -> (r: bool)
        ensures
            r == match self {
                PtyReadTarget::Marker { marker } => complete_marker_from(crate::context::text_of(data@), marker@, 0) is Some,
                PtyReadTarget::Ready => first_ready_cwd(complete_lines(normalized(crate::context::text_of(data@)))) is Some,
            },
    {
        let current = lossy_text(data);
        match self {
            PtyReadTarget::Marker { marker } => {
                let v = str_chars(current.as_str());
                let p = str_chars(marker);
                find_complete_marker_chars(v.as_slice(), p.as_slice()).is_some()
            },
            PtyReadTarget::Ready => parse_ready_cwd(current.as_str()).is_some(),
        }
    }

    pub fn timeout_message(&self) -> (r: &'static str)
        ensures
            r@ == match self {
                PtyReadTarget::Marker { .. } => "timed out waiting for backend shell prompt marker"@,
                PtyReadTarget::Ready => "timed out waiting for backend shell ready marker"@,
            },
    {
        match self {
            PtyReadTarget::Marker { .. } => "timed out waiting for backend shell prompt marker",
            PtyReadTarget::Ready => "timed out waiting for backend shell ready marker",
        }
    }
}

// ---------------------------------------------------------------------
// Terminal size
// ---------------------------------------------------------------------

/// What `u16::from_str` gives: an optional `+`, then digits, at most 65535.
pub open spec fn u16_value(s: Seq<char>) -> Option<u16> {
    if s.len() > 0 && s[0] == '-' {
        None
    } else {
        match int_value(s) {
            Some(v) => if 0 <= v && v <= 65535 {
                Some(v as u16)
            } else {
                None
            },
            None => None,
        }
    }
}

pub fn parse_u16(s: &str) -> (r: Option<u16>)
    ensures
        r == u16_value(s@),
{
    let v = str_chars(s);
    if v.len() > 0 && v[0] == '-' {
        return None;
    }
    match parse_i32_chars(v.as_slice()) {
        Some(n) => if 0 <= n && n <= 65535 {
            Some(n as u16)
        } else {
            None
        },
        None => None,
    }
}

/// A terminal size of `cols` by `rows` characters.
pub fn pty_size(cols: u16, rows: u16) -> (r: PtySize)
    ensures
        r.cols == cols,
        r.rows == rows,
        r.pixel_width == 0,
        r.pixel_height == 0,
{
    PtySize { rows, cols, pixel_width: 0, pixel_height: 0 }
}

/// A dimension from an environment value: a positive `u16`, else `fallback`.
pub open spec fn env_dimension(value: Option<Seq<char>>, fallback: u16) -> u16 {
    match value {
        Some(v) => match u16_value(v) {
            Some(n) => if n > 0 {
                n
            } else {
                fallback
            },
            None => fallback,
        },
        None => fallback,
    }
}

fn dimension(value: Option<&str>, fallback: u16) -> (r: u16)
    ensures
        r == env_dimension(
            match value {
                Some(v) => Some(v@),
                None => None,
            },
            fallback,
        ),
{
    match value {
        Some(v) => match parse_u16(v) {
            Some(n) => if n > 0 {
                n
            } else {
                fallback
            },
            None => fallback,
        },
        None => fallback,
    }
}

/// The terminal size from the values of `COLUMNS` and `LINES`: 80 by 24
/// where one is missing, not a number or zero.
pub fn default_pty_size(columns: Option<&str>, lines: Option<&str>) -> (r: PtySize)
    ensures
        r.cols == env_dimension(
            match columns {
                Some(v) => Some(v@),
                None => None,
            },
            80,
        ),
        r.rows == env_dimension(
            match lines {
                Some(v) => Some(v@),
                None => None,
            },
            24,
        ),
        r.pixel_width == 0,
        r.pixel_height == 0,
{
    pty_size(dimension(columns, 80), dimension(lines, 24))
}

} // verus!
