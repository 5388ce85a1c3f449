//! Streaming the backend shell's output to the user while hiding the
//! marker lines, the line breaks that belong to them, and (for fish) the
//! command line that the shell repaints.
use vstd::prelude::*;
use crate::encryption::lossy_text;
use crate::pty::filter::{
    command_repaint, contains_terminal_repaint_control, echo_fragment, has_repaint,
    is_fish_command_repaint_token, is_fish_repaint_echo_fragment, lead_in_exec, strip_ctl,
    strip_terminal_control_sequences, trim_in, trim_in_exec, trim_start_in,
};
use crate::pty::parser::start_prefix;
use crate::pty::protocol::{ready_marker, ready_text, start_marker, start_text};
use crate::text::{
    chars_eq, chars_string, has_prefix, starts_with, str_chars, sub_chars, trim, trim_chars, trim_end,
    trim_end_chars,
};

verus! {

broadcast use vstd::string::group_string_axioms;

// ---------------------------------------------------------------------
// The model
// ---------------------------------------------------------------------

/// A fish segment held back because it repainted the terminal.
pub struct HeldView {
    pub bytes: Seq<u8>,
    pub visible: Seq<char>,
}

/// What the fish filter knows.
pub struct FishView {
    pub command_active: bool,
    pub started_command: Option<Seq<char>>,
    pub held: Option<HeldView>,
}

/// What the filter knows, apart from the bytes that wait for a line end.
pub struct CoreView {
    pub marker: Seq<char>,
    pub deferred: Seq<u8>,
    pub fish: Option<FishView>,
    pub complete: bool,
    pub ready_completes: bool,
}

/// A marker line recognized in the output.
pub enum MarkerKind {
    Start(Seq<char>),
    Ready,
    Status,
}

/// Where the next terminal line of `b` ends, from `i` on: after a `\n`,
/// after `\r\n`, or after a `\r` that something other than `\n` follows;
/// `None` while the line is not closed.
pub open spec fn line_end_from(b: Seq<u8>, i: int) -> Option<int>
    decreases b.len() - i,
{
    if i < 0 || i >= b.len() {
        None
    } else if b[i] == 10 {
        Some(i + 1)
    } else if b[i] == 13 {
        if i + 1 >= b.len() {
            None
        } else if b[i + 1] == 10 {
            Some(i + 2)
        } else {
            Some(i + 1)
        }
    } else {
        line_end_from(b, i + 1)
    }
}

/// Every byte is `\r` or `\n`.
pub open spec fn separator_bytes(b: Seq<u8>) -> bool {
    forall|i: int| 0 <= i < b.len() ==> (#[trigger] b[i] == 10 || b[i] == 13)
}

/// A segment's text as the marker checks see it: decoded, control
/// sequences removed, line breaks trimmed, then leading blanks.
pub open spec fn marker_line(seg: Seq<u8>) -> Seq<char> {
    trim_start_in(trim_in(strip_ctl(crate::context::text_of(seg)), seq!['\r', '\n']), seq![' ', '\t'])
}

pub open spec fn internal_marker(marker: Seq<char>, seg: Seq<u8>) -> Option<MarkerKind> {
    let line = marker_line(seg);
    if has_prefix(line, start_prefix()) {
        Some(MarkerKind::Start(trim_end(line.skip(start_prefix().len() as int))))
    } else if has_prefix(line, start_text()) {
        Some(MarkerKind::Start(seq![]))
    } else if has_prefix(line, ready_text()) {
        Some(MarkerKind::Ready)
    } else if marker.len() > 0 && has_prefix(line, marker) {
        Some(MarkerKind::Status)
    } else {
        None
    }
}

pub open spec fn with_deferred(c: CoreView, d: Seq<u8>) -> CoreView {
    CoreView { marker: c.marker, deferred: d, fish: c.fish, complete: c.complete, ready_completes: c.ready_completes }
}

pub open spec fn with_fish(c: CoreView, f: FishView) -> CoreView {
    CoreView { marker: c.marker, deferred: c.deferred, fish: Some(f), complete: c.complete, ready_completes: c.ready_completes }
}

pub open spec fn fish_with_held(f: FishView, h: Option<HeldView>) -> FishView {
    FishView { command_active: f.command_active, started_command: f.started_command, held: h }
}

/// The held segment goes out with the deferred separator, unless it only
/// repainted a piece of the command.
pub open spec fn flush_held(c: CoreView) -> (CoreView, Seq<u8>) {
    match c.fish {
        Some(f) => match f.held {
            Some(h) => {
                let c1 = with_fish(c, fish_with_held(f, None));
                let drop = match f.started_command {
                    Some(cmd) => command_repaint(h.visible, cmd),
                    None => false,
                };
                if drop {
                    (with_deferred(c1, seq![]), seq![])
                } else {
                    (with_deferred(c1, seq![]), h.bytes + c.deferred)
                }
            },
            None => (c, seq![]),
        },
        None => (c, seq![]),
    }
}

pub open spec fn handle_marker(c: CoreView, m: MarkerKind) -> (CoreView, Seq<u8>) {
    match m {
        MarkerKind::Start(cmd) => {
            let c1 = match c.fish {
                Some(f) => with_fish(c, FishView { command_active: true, started_command: Some(cmd), held: None }),
                None => c,
            };
            (with_deferred(c1, seq![]), seq![])
        },
        MarkerKind::Ready => {
            let (c1, out) = flush_held(c);
            let c2 = match c1.fish {
                Some(f) => with_fish(c1, FishView { command_active: false, started_command: f.started_command, held: None }),
                None => c1,
            };
            let c3 = CoreView {
                marker: c2.marker,
                deferred: seq![],
                fish: c2.fish,
                complete: c2.complete || c2.ready_completes,
                ready_completes: c2.ready_completes,
            };
            (c3, out)
        },
        MarkerKind::Status => (
            CoreView { marker: c.marker, deferred: seq![], fish: c.fish, complete: true, ready_completes: c.ready_completes },
            seq![],
        ),
    }
}

/// The fish filter on one output segment: the new state, what goes out
/// now, and the segment when it is to be shown.
pub open spec fn filter_fish(c: CoreView, seg: Seq<u8>) -> (CoreView, Seq<u8>, Option<Seq<u8>>) {
    match c.fish {
        None => (c, seq![], Some(seg)),
        Some(f) => {
            let text = crate::context::text_of(seg);
            let rep = has_repaint(text);
            let visible = trim(strip_ctl(text));
            if (visible.len() > 0 && visible[0] == '\u{23ce}') || (visible.len() == 0 && rep) {
                (c, seq![], None)
            } else if (match f.started_command {
                Some(cmd) => echo_fragment(visible, cmd, rep),
                None => false,
            }) {
                (c, seq![], None)
            } else {
                let (c1, out) = match f.held {
                    Some(h) => {
                        let ch = with_fish(c, fish_with_held(f, None));
                        if h.visible == visible && !rep {
                            (with_deferred(ch, seq![]), seq![])
                        } else {
                            (with_deferred(ch, seq![]), h.bytes + c.deferred)
                        }
                    },
                    None => (c, seq![]),
                };
                if rep && visible.len() > 0 {
                    (with_fish(c1, fish_with_held(f, Some(HeldView { bytes: seg, visible }))), out, None)
                } else {
                    (c1, out, Some(seg))
                }
            }
        },
    }
}

/// One closed line segment through the filter.
pub open spec fn segment_step(c: CoreView, seg: Seq<u8>) -> (CoreView, Seq<u8>) {
    if c.complete {
        (with_deferred(c, seq![]), seq![])
    } else {
        match internal_marker(c.marker, seg) {
            Some(m) => handle_marker(c, m),
            None => if (match c.fish {
                Some(f) => !f.command_active,
                None => false,
            }) {
                (with_deferred(c, seq![]), seq![])
            } else if separator_bytes(seg) {
                if (match c.fish {
                    Some(f) => f.held is Some,
                    None => false,
                }) {
                    (with_deferred(c, c.deferred + seg), seq![])
                } else {
                    (with_deferred(c, seg), c.deferred)
                }
            } else {
                let (c1, out, kept) = filter_fish(c, seg);
                match kept {
                    None => (c1, out),
                    Some(k) => (with_deferred(c1, seq![]), out + c1.deferred + k),
                }
            }
        }
    }
}

/// Every closed line of `rest` through the filter: the state, the bytes
/// still waiting for a line end, and the output.
pub open spec fn drain(c: CoreView, rest: Seq<u8>) -> (CoreView, Seq<u8>, Seq<u8>)
    decreases rest.len(),
{
    match line_end_from(rest, 0) {
        None => (c, rest, seq![]),
        Some(end) => if 0 < end <= rest.len() {
            let (c1, o1) = segment_step(c, rest.take(end));
            let (c2, r2, o2) = drain(c1, rest.skip(end));
            (c2, r2, o1 + o2)
        } else {
            (c, rest, seq![])
        },
    }
}

/// Once the command is complete, the filter stays complete and shows
/// nothing more: the prompt noise after the status marker never reaches
/// the user.
pub proof fn completed_filter_stays_silent(c: CoreView, rest: Seq<u8>)
    requires
        c.complete,
    ensures
        drain(c, rest).0.complete,
        drain(c, rest).2 == Seq::<u8>::empty(),
    decreases rest.len(),
{
    match line_end_from(rest, 0) {
        None => {},
        Some(end) => if 0 < end <= rest.len() {
            let c1 = segment_step(c, rest.take(end)).0;
            assert(c1.complete);
            completed_filter_stays_silent(c1, rest.skip(end));
            assert(segment_step(c, rest.take(end)).1 + drain(c1, rest.skip(end)).2 =~= Seq::<u8>::empty());
        },
    }
}

/// `l` starts with `m`, or could still grow into it.
pub open spec fn starts_or_could_be(l: Seq<char>, m: Seq<char>) -> bool {
    has_prefix(l, m) || has_prefix(m, l)
}

pub open spec fn may_be_marker(marker: Seq<char>, pending: Seq<u8>) -> bool {
    let line = trim_start_in(strip_ctl(crate::context::text_of(pending)), seq![' ', '\t']);
    starts_or_could_be(line, start_text()) || starts_or_could_be(line, ready_text()) || (marker.len() > 0
        && starts_or_could_be(line, marker))
}

// ---------------------------------------------------------------------
// The filter
// ---------------------------------------------------------------------

pub struct FishHeldSegment {
    pub bytes: Vec<u8>,
    pub visible: String,
}

pub struct FishOutputFilter {
    pub command_active: bool,
    pub started_command: Option<String>,
    pub held_segment: Option<FishHeldSegment>,
}

/// Filters the backend's output as it streams; see `segment_step`.
pub struct PtyOutputFilter {
    pub marker: String,
    pub pending: Vec<u8>,
    pub deferred_separator: Vec<u8>,
    pub fish: Option<FishOutputFilter>,
    pub command_complete: bool,
    pub ready_completes_command: bool,
}

pub open spec fn held_view(h: Option<FishHeldSegment>) -> Option<HeldView> {
    match h {
        Some(s) => Some(HeldView { bytes: s.bytes@, visible: s.visible@ }),
        None => None,
    }
}

pub open spec fn fish_view(f: FishOutputFilter) -> FishView {
    FishView {
        command_active: f.command_active,
        started_command: match f.started_command {
            Some(s) => Some(s@),
            None => None,
        },
        held: held_view(f.held_segment),
    }
}

impl PtyOutputFilter {
    pub open spec fn state(&self) -> CoreView {
        CoreView {
            marker: self.marker@,
            deferred: self.deferred_separator@,
            fish: match self.fish {
                Some(f) => Some(fish_view(f)),
                None => None,
            },
            complete: self.command_complete,
            ready_completes: self.ready_completes_command,
        }
    }

    /// A filter for shells that print a status marker after each command.
    pub fn marker(marker: &str) -> (r: Self)
        ensures
            r.state() == (CoreView { marker: marker@, deferred: seq![], fish: None, complete: false, ready_completes: false }),
            r.pending@ == Seq::<u8>::empty(),
    {
        PtyOutputFilter {
            marker: marker.to_owned(),
            pending: Vec::new(),
            deferred_separator: Vec::new(),
            fish: None,
            command_complete: false,
            ready_completes_command: false,
        }
    }

    /// A filter for shells that report through their own hooks; the ready
    /// marker ends the command, and fish repaints are filtered on request.
    pub fn shell_events(filter_fish_repaint: bool) -> (r: Self)
        ensures
            r.state() == (CoreView {
                marker: seq![],
                deferred: seq![],
                fish: if filter_fish_repaint {
                    Some(FishView { command_active: false, started_command: None, held: None })
                } else {
                    None
                },
                complete: false,
                ready_completes: true,
            }),
            r.pending@ == Seq::<u8>::empty(),
    {
        PtyOutputFilter {
            marker: String::new(),
            pending: Vec::new(),
            deferred_separator: Vec::new(),
            fish: if filter_fish_repaint {
                Some(FishOutputFilter { command_active: false, started_command: None, held_segment: None })
            } else {
                None
            },
            command_complete: false,
            ready_completes_command: true,
        }
    }

    fn take_held(&mut self) -> (r: Option<FishHeldSegment>)
        ensures
            held_view(r) == match old(self).fish {
                Some(f) => held_view(f.held_segment),
                None => None,
            },
            final(self).state() == match old(self).state().fish {
                Some(f) => with_fish(old(self).state(), fish_with_held(f, None)),
                None => old(self).state(),
            },
            final(self).pending@ == old(self).pending@,
    {
        match self.fish.take() {
            Some(f) => {
                let FishOutputFilter { command_active, started_command, held_segment } = f;
                self.fish = Some(FishOutputFilter { command_active, started_command, held_segment: None });
                held_segment
            },
            None => None,
        }
    }

    fn push_deferred_separator(&mut self, output: &mut Vec<u8>)
        ensures
            final(output)@ == old(output)@ + old(self).deferred_separator@,
            final(self).state() == with_deferred(old(self).state(), seq![]),
            final(self).pending@ == old(self).pending@,
    {
        let mut i: usize = 0;
        let ghost start = output@;
        while i < self.deferred_separator.len()
            invariant
                i <= self.deferred_separator@.len(),
                output@ == start + self.deferred_separator@.take(i as int),
            decreases self.deferred_separator@.len() - i,
        {
            output.push(self.deferred_separator[i]);
            i = i + 1;
            assert(output@ =~= start + self.deferred_separator@.take(i as int));
        }
        assert(self.deferred_separator@.take(i as int) =~= self.deferred_separator@);
        self.deferred_separator = Vec::new();
        assert(self.state() =~= with_deferred(old(self).state(), seq![]));
    }

    fn flush_fish_held_segment(&mut self, output: &mut Vec<u8>)
        ensures
            final(self).state() == flush_held(old(self).state()).0,
            final(output)@ == old(output)@ + flush_held(old(self).state()).1,
            final(self).pending@ == old(self).pending@,
    {
        let held = self.take_held();
        let h = match held {
            Some(h) => h,
            None => {
                return;
            },
        };
        let drop = match &self.fish {
            Some(f) => match &f.started_command {
                Some(cmd) => is_fish_command_repaint_token(h.visible.as_str(), cmd.as_str()),
                None => false,
            },
            None => false,
        };
        if drop {
            self.deferred_separator = Vec::new();
            return;
        }
        extend_bytes(output, h.bytes.as_slice());
        self.push_deferred_separator(output);
    }

    fn handle_internal_marker(&mut self, kind: MarkerFound, output: &mut Vec<u8>)
        ensures
            final(self).state() == handle_marker(old(self).state(), kind.view()).0,
            final(output)@ == old(output)@ + handle_marker(old(self).state(), kind.view()).1,
            final(self).pending@ == old(self).pending@,
    {
        match kind {
            MarkerFound::Start(command) => {
                if self.fish.is_some() {
                    self.fish = Some(FishOutputFilter { command_active: true, started_command: Some(command), held_segment: None });
                }
            },
            MarkerFound::Ready => {
                self.flush_fish_held_segment(output);
                match self.fish.take() {
                    Some(f) => {
                        self.fish = Some(FishOutputFilter { command_active: false, started_command: f.started_command, held_segment: None });
                    },
                    None => {},
                }
                if self.ready_completes_command {
                    self.command_complete = true;
                }
            },
            MarkerFound::Status => {
                self.command_complete = true;
            },
        }
        self.deferred_separator = Vec::new();
    }

    fn internal_marker_segment(&self, segment: &[u8]) -> (r: Option<MarkerFound>)
        ensures
            match internal_marker(self.marker@, segment@) {
                Some(k) => r matches Some(f) && f.view() == k,
                None => r is None,
            },
    {
        let line = marker_line_of(segment);
        let mut sp = str_chars(start_marker());
        sp.push('\t');
        if starts_with(line.as_slice(), sp.as_slice()) {
            let rest = sub_chars(line.as_slice(), sp.len(), line.len());
            assert(rest@ =~= line@.skip(start_prefix().len() as int));
            let cmd = trim_end_chars(rest.as_slice());
            return Some(MarkerFound::Start(chars_string(cmd.as_slice())));
        }
        if starts_with(line.as_slice(), str_chars(start_marker()).as_slice()) {
            return Some(MarkerFound::Start(String::new()));
        }
        if starts_with(line.as_slice(), str_chars(ready_marker()).as_slice()) {
            return Some(MarkerFound::Ready);
        }
        let m = str_chars(self.marker.as_str());
        if m.len() > 0 && starts_with(line.as_slice(), m.as_slice()) {
            return Some(MarkerFound::Status);
        }
        None
    }

    fn filter_fish_segment(&mut self, segment: Vec<u8>, output: &mut Vec<u8>) -> (r: Option<Vec<u8>>)
        ensures
            final(self).state() == filter_fish(old(self).state(), segment@).0,
            final(output)@ == old(output)@ + filter_fish(old(self).state(), segment@).1,
            match filter_fish(old(self).state(), segment@).2 {
                Some(k) => r matches Some(v) && v@ == k,
                None => r is None,
            },
            final(self).pending@ == old(self).pending@,
    {
        if self.fish.is_none() {
            return Some(segment);
        }
        let text = lossy_text(segment.as_slice());
        let rep = contains_terminal_repaint_control(text.as_str());
        let stripped = strip_terminal_control_sequences(text.as_str());
        let visible = trim_chars(str_chars(stripped.as_str()).as_slice());
        if (visible.len() > 0 && visible[0] == '\u{23ce}') || (visible.len() == 0 && rep) {
            return None;
        }
        let visible_s = chars_string(visible.as_slice());
        let echo = match &self.fish {
            Some(f) => match &f.started_command {
                Some(cmd) => is_fish_repaint_echo_fragment(visible_s.as_str(), cmd.as_str(), rep),
                None => false,
            },
            None => false,
        };
        if echo {
            return None;
        }
        let held = self.take_held();
        match held {
            Some(h) => {
                let same = chars_eq(str_chars(h.visible.as_str()).as_slice(), visible.as_slice());
                if same && !rep {
                    self.deferred_separator = Vec::new();
                } else {
                    extend_bytes(output, h.bytes.as_slice());
                    self.push_deferred_separator(output);
                }
            },
            None => {},
        }
        if rep && visible.len() > 0 {
            match self.fish.take() {
                Some(f) => {
                    self.fish = Some(FishOutputFilter {
                        command_active: f.command_active,
                        started_command: f.started_command,
                        held_segment: Some(FishHeldSegment { bytes: segment, visible: visible_s }),
                    });
                },
                None => {},
            }
            return None;
        }
        Some(segment)
    }

    fn push_segment(&mut self, segment: Vec<u8>, output: &mut Vec<u8>)
        ensures
            final(self).state() == segment_step(old(self).state(), segment@).0,
            final(output)@ == old(output)@ + segment_step(old(self).state(), segment@).1,
            final(self).pending@ == old(self).pending@,
    {
        if self.command_complete {
            self.deferred_separator = Vec::new();
            return;
        }
        match self.internal_marker_segment(segment.as_slice()) {
            Some(kind) => {
                self.handle_internal_marker(kind, output);
                return;
            },
            None => {},
        }
        let inactive = match &self.fish {
            Some(f) => !f.command_active,
            None => false,
        };
        if inactive {
            self.deferred_separator = Vec::new();
            return;
        }
        if separator_only_bytes(segment.as_slice()) {
            let holding = match &self.fish {
                Some(f) => f.held_segment.is_some(),
                None => false,
            };
            if holding {
                extend_bytes(&mut self.deferred_separator, segment.as_slice());
            } else {
                self.push_deferred_separator(output);
                self.deferred_separator = segment;
            }
            return;
        }
        let ghost seg = segment@;
        match self.filter_fish_segment(segment, output) {
            None => {},
            Some(kept) => {
                self.push_deferred_separator(output);
                extend_bytes(output, kept.as_slice());
                assert(seg == segment@);
            },
        }
    }

    /// Takes in a chunk of the shell's output and gives back what of the
    /// closed lines is to be shown; an unclosed line waits.
    pub fn push(&mut self, chunk: &[u8]) -> (r: Vec<u8>)
        ensures
            (final(self).state(), final(self).pending@, r@) == drain(old(self).state(), old(self).pending@ + chunk@),
    {
        extend_bytes(&mut self.pending, chunk);
        let mut output: Vec<u8> = Vec::new();
        let ghost c0 = old(self).state();
        let ghost all = old(self).pending@ + chunk@;
        assert(self.state() == c0 && self.pending@ == all);
        assert(output@ + drain(c0, all).2 =~= drain(c0, all).2);
        loop
            invariant
                c0 == old(self).state(),
                all == old(self).pending@ + chunk@,
                drain(c0, all) == (drain(self.state(), self.pending@).0, drain(self.state(), self.pending@).1, output@ + drain(self.state(), self.pending@).2),
            decreases self.pending@.len(),
        {
            let end = match next_terminal_line_end(self.pending.as_slice()) {
                Some(e) => e,
                None => {
                    assert(drain(self.state(), self.pending@) == (self.state(), self.pending@, Seq::<u8>::empty()));
                    assert(output@ + Seq::<u8>::empty() =~= output@);
                    return output;
                },
            };
            let ghost p = self.pending@;
            assert(line_end_from(p, 0) == Some(end as int));
            let ghost c1 = self.state();
            let ghost before = output@;
            let segment = take_front(&mut self.pending, end);
            assert(segment@ == p.take(end as int));
            assert(self.pending@ == p.skip(end as int));
            assert(self.state() == c1);
            let ghost seg = segment@;
            self.push_segment(segment, &mut output);
            assert(output@ == before + segment_step(c1, seg).1);
            assert(drain(c1, p) == (
                drain(segment_step(c1, seg).0, p.skip(end as int)).0,
                drain(segment_step(c1, seg).0, p.skip(end as int)).1,
                segment_step(c1, seg).1 + drain(segment_step(c1, seg).0, p.skip(end as int)).2,
            ));
            assert(output@ + drain(self.state(), self.pending@).2 =~= before + drain(c1, p).2);
        }
    }

    /// The unclosed line, once no more output is coming, unless the
    /// command is complete or the line may still become a marker.
    pub fn flush_pending(&mut self) -> (r: Vec<u8>)
        ensures
            (if old(self).pending@.len() == 0 || old(self).state().complete || may_be_marker(
                old(self).state().marker,
                old(self).pending@,
            ) {
                final(self).state() == old(self).state() && final(self).pending@ == old(self).pending@ && r@
                    == Seq::<u8>::empty()
            } else {
                final(self).pending@ == Seq::<u8>::empty() && (final(self).state(), r@) == segment_step(
                    old(self).state(),
                    old(self).pending@,
                )
            }),
    {
        if self.pending.len() == 0 || self.command_complete || self.pending_may_be_internal_marker() {
            return Vec::new();
        }
        let n = self.pending.len();
        let segment = take_front(&mut self.pending, n);
        assert(segment@ =~= old(self).pending@);
        assert(self.pending@ =~= Seq::<u8>::empty());
        let mut output: Vec<u8> = Vec::new();
        self.push_segment(segment, &mut output);
        output
    }

    fn pending_may_be_internal_marker(&self) -> (r: bool)
        ensures
            r == may_be_marker(self.marker@, self.pending@),
    {
        let text = lossy_text(self.pending.as_slice());
        let stripped = strip_terminal_control_sequences(text.as_str());
        let v = str_chars(stripped.as_str());
        let blanks: Vec<char> = vec![' ', '\t'];
        assert(blanks@ =~= seq![' ', '\t']);
        let lead = lead_in_exec(v.as_slice(), blanks.as_slice());
        let line = sub_chars(v.as_slice(), lead, v.len());
        let st = str_chars(start_marker());
        let rd = str_chars(ready_marker());
        let m = str_chars(self.marker.as_str());
        starts_or_could_be_exec(line.as_slice(), st.as_slice()) || starts_or_could_be_exec(
            line.as_slice(),
            rd.as_slice(),
        ) || (m.len() > 0 && starts_or_could_be_exec(line.as_slice(), m.as_slice()))
    }
}

/// A marker line as the filter found it.
pub enum MarkerFound {
    Start(String),
    Ready,
    Status,
}

impl MarkerFound {
    pub open spec fn view(self) -> MarkerKind {
        match self {
            MarkerFound::Start(c) => MarkerKind::Start(c@),
            MarkerFound::Ready => MarkerKind::Ready,
            MarkerFound::Status => MarkerKind::Status,
        }
    }
}

fn starts_or_could_be_exec(l: &[char], m: &[char]) -> (r: bool)
    ensures
        r == starts_or_could_be(l@, m@),
{
    starts_with(l, m) || starts_with(m, l)
}

fn marker_line_of(segment: &[u8]) -> (r: Vec<char>)
    ensures
        r@ == marker_line(segment@),
{
    let text = lossy_text(segment);
    let stripped = strip_terminal_control_sequences(text.as_str());
    let v = str_chars(stripped.as_str());
    let breaks: Vec<char> = vec!['\r', '\n'];
    assert(breaks@ =~= seq!['\r', '\n']);
    let t = trim_in_exec(v.as_slice(), breaks.as_slice());
    let blanks: Vec<char> = vec![' ', '\t'];
    assert(blanks@ =~= seq![' ', '\t']);
    let lead = lead_in_exec(t.as_slice(), blanks.as_slice());
    sub_chars(t.as_slice(), lead, t.len())
}

fn extend_bytes(out: &mut Vec<u8>, b: &[u8])
    ensures
        final(out)@ == old(out)@ + b@,
{
    let ghost start = out@;
    let mut i: usize = 0;
    while i < b.len()
        invariant
            i <= b@.len(),
            out@ == start + b@.take(i as int),
        decreases b@.len() - i,
    {
        out.push(b[i]);
        i = i + 1;
        assert(out@ =~= start + b@.take(i as int));
    }
    assert(b@.take(i as int) =~= b@);
}

/// Gives back `v[..at]` and leaves `v[at..]` in `v`.
fn take_front(v: &mut Vec<u8>, at: usize) -> (r: Vec<u8>)
    requires
        at <= old(v)@.len(),
    ensures
        r@ == old(v)@.take(at as int),
        final(v)@ == old(v)@.skip(at as int),
{
    let mut front: Vec<u8> = Vec::new();
    let mut rest: Vec<u8> = Vec::new();
    let mut i: usize = 0;
    while i < v.len()
        invariant
            i <= v@.len(),
            v@ == old(v)@,
            at <= v@.len(),
            front@ == old(v)@.take(if i < at { i as int } else { at as int }),
            rest@ == if i < at { Seq::<u8>::empty() } else { old(v)@.subrange(at as int, i as int) },
        decreases v@.len() - i,
    {
        if i < at {
            front.push(v[i]);
        } else {
            rest.push(v[i]);
        }
        i = i + 1;
        assert(front@ =~= old(v)@.take(if i < at { i as int } else { at as int }));
        assert(rest@ =~= if i < at { Seq::<u8>::empty() } else { old(v)@.subrange(at as int, i as int) });
    }
    *v = rest;
    assert(v@ =~= old(v)@.skip(at as int));
    front
}

fn separator_only_bytes(b: &[u8]) -> (r: bool)
    ensures
        r == separator_bytes(b@),
{
    let mut i: usize = 0;
    while i < b.len()
        invariant
            i <= b@.len(),
            forall|k: int| 0 <= k < i ==> (#[trigger] b@[k] == 10 || b@[k] == 13),
        decreases b@.len() - i,
    {
        if !(b[i] == 10 || b[i] == 13) {
            return false;
        }
        i = i + 1;
    }
    true
}

/// Where the first closed terminal line of `b` ends.
pub fn next_terminal_line_end(b: &[u8]) -> (r: Option<usize>)
    ensures
        match line_end_from(b@, 0) {
            Some(e) => r matches Some(x) && x as int == e && 0 < e <= b@.len(),
            None => r is None,
        },
{
    let mut i: usize = 0;
    while i < b.len()
        invariant
            i <= b@.len(),
            line_end_from(b@, 0) == line_end_from(b@, i as int),
        decreases b@.len() - i,
    {
        if b[i] == 10 {
            return Some(i + 1);
        }
        if b[i] == 13 {
            if i + 1 >= b.len() {
                return None;
            }
            if b[i + 1] == 10 {
                return Some(i + 2);
            }
            return Some(i + 1);
        }
        i = i + 1;
    }
    None
}

} // verus!
