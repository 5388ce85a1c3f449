//! Accepting a candidate into the line, and the text shown for candidates.
use vstd::prelude::*;
use crate::config::model::CompletionTabAccept;
use crate::display_width::{
    checked_display_width, dots, line_width, truncate_end_with_ellipsis, truncate_start_with_ellipsis,
    truncated_end, truncated_start,
};
use crate::text::{
    byte_len, chars_string, has_prefix, join_spaces, push_chars, push_str_chars, split_whitespace,
    starts_with, str_chars, sub_chars, ws_words,
};
use super::parser::{word_suffix_end, word_suffix_end_of};
use super::types::{
    replace_span, valid_span, AcceptedCompletion, CompletionCandidate, CompletionEdit,
    CompletionSource, TokenContext,
};

verus! {

/// The label shown for a source.
pub open spec fn source_label(source: CompletionSource) -> Seq<char> {
    match source {
        CompletionSource::BackendShell => "shell"@,
        CompletionSource::Path => "file"@,
        CompletionSource::Template => "template"@,
        CompletionSource::TemplateTypo => "template"@,
        CompletionSource::History => "history"@,
        CompletionSource::HistoryTypo => "history"@,
        CompletionSource::Executable => "exec"@,
        CompletionSource::TemplatePlaceholder => "placeholder"@,
        CompletionSource::PrivateCommand => "aish"@,
    }
}

/// The label shown for a candidate: directories are labelled apart from
/// files.
pub open spec fn candidate_label(c: CompletionCandidate) -> Seq<char> {
    if c.source == CompletionSource::Path && c.is_dir {
        "dir"@
    } else {
        source_label(c.source)
    }
}

/// Typo candidates stand for a whole command and replace the whole line.
pub open spec fn replaces_whole_line(c: CompletionCandidate) -> bool {
    c.source == CompletionSource::TemplateTypo || c.source == CompletionSource::HistoryTypo
}

/// The text accepted for a candidate.  In word mode only the first shell
/// word that the candidate adds is taken (quoted and escaped whitespace do
/// not end a word); when the replacement does not extend the typed token,
/// its first shell word is taken.
pub open spec fn accepted_text(token: Seq<char>, repl: Seq<char>, mode: CompletionTabAccept) -> Seq<
    char,
> {
    match mode {
        CompletionTabAccept::Full => repl,
        CompletionTabAccept::Word => if has_prefix(repl, token) {
            repl.take(word_suffix_end(repl, token.len() as int, false))
        } else {
            repl.take(word_suffix_end(repl, 0, false))
        },
    }
}

/// The part of the replacement after the typed token, when the
/// replacement extends it.
pub open spec fn ghost_suffix(token: Seq<char>, repl: Seq<char>) -> Option<Seq<char>> {
    if has_prefix(repl, token) && repl.len() > token.len() {
        Some(repl.skip(token.len() as int))
    } else {
        None
    }
}

pub fn completion_source_label(source: CompletionSource) -> (r: &'static str)
    ensures
        r@ == source_label(source),
{
    match source {
        CompletionSource::BackendShell => "shell",
        CompletionSource::Path => "file",
        CompletionSource::Template => "template",
        CompletionSource::TemplateTypo => "template",
        CompletionSource::History => "history",
        CompletionSource::HistoryTypo => "history",
        CompletionSource::Executable => "exec",
        CompletionSource::TemplatePlaceholder => "placeholder",
        CompletionSource::PrivateCommand => "aish",
    }
}

pub fn completion_candidate_label(candidate: &CompletionCandidate) -> (r: &'static str)
    ensures
        r@ == candidate_label(*candidate),
{
    if candidate.source == CompletionSource::Path && candidate.is_dir {
        return "dir";
    }
    completion_source_label(candidate.source)
}

pub fn completion_candidate_replaces_whole_line(candidate: &CompletionCandidate) -> (r: bool)
    ensures
        r == replaces_whole_line(*candidate),
{
    candidate.source == CompletionSource::TemplateTypo || candidate.source
        == CompletionSource::HistoryTypo
}

/// One row per candidate: its label, a tab, and its display text.
pub fn render_completion_candidates(candidates: &[CompletionCandidate]) -> (r: Vec<String>)
    ensures
        r@.len() == candidates@.len(),
        forall|k: int|
            0 <= k < r@.len() ==> (#[trigger] r@[k])@ == candidate_label(candidates@[k]) + seq!['\t']
                + candidates@[k].display@,
{
    let mut rows: Vec<String> = Vec::new();
    let mut i: usize = 0;
    while i < candidates.len()
        invariant
            i <= candidates@.len(),
            rows@.len() == i,
            forall|k: int|
                0 <= k < i ==> (#[trigger] rows@[k])@ == candidate_label(candidates@[k]) + seq![
                    '\t',
                ] + candidates@[k].display@,
        decreases candidates.len() - i,
    {
        let mut row = String::new();
        push_str_chars(&mut row, completion_candidate_label(&candidates[i]));
        row.push('\t');
        push_str_chars(&mut row, candidates[i].display.as_str());
        rows.push(row);
        i = i + 1;
    }
    rows
}

/// The tail that the candidate adds to the typed token, if any.
pub fn ghost_completion_suffix(token: &TokenContext, candidate: &CompletionCandidate) -> (r: Option<
    String,
>)
    ensures
        match r {
            Some(s) => ghost_suffix(token.text@, candidate.replacement@) == Some(s@),
            None => ghost_suffix(token.text@, candidate.replacement@) is None,
        },
{
    let t = str_chars(token.text.as_str());
    let c = str_chars(candidate.replacement.as_str());
    if starts_with(c.as_slice(), t.as_slice()) && c.len() > t.len() {
        let tail = sub_chars(c.as_slice(), t.len(), c.len());
        Some(crate::text::chars_string(tail.as_slice()))
    } else {
        None
    }
}

/// See `accepted_text`.
pub fn accepted_replacement(token: &TokenContext, candidate: &CompletionCandidate, mode: CompletionTabAccept) -> (r:
    String)
    ensures
        r@ == accepted_text(token.text@, candidate.replacement@, mode),
{
    match mode {
        CompletionTabAccept::Full => candidate.replacement.clone(),
        CompletionTabAccept::Word => {
            let t = str_chars(token.text.as_str());
            let c = str_chars(candidate.replacement.as_str());
            if starts_with(c.as_slice(), t.as_slice()) {
                let e = word_suffix_end_of(c.as_slice(), t.len());
                let w = sub_chars(c.as_slice(), 0, e);
                crate::text::chars_string(w.as_slice())
            } else {
                let e = word_suffix_end_of(c.as_slice(), 0);
                let w = sub_chars(c.as_slice(), 0, e);
                crate::text::chars_string(w.as_slice())
            }
        },
    }
}

/// The edit that accepting the candidate makes: typo candidates replace
/// the whole line, others replace the token.
pub fn completion_edit_for_candidate(
    line: &str,
    token: &TokenContext,
    candidate: &CompletionCandidate,
    mode: CompletionTabAccept,
) -> (r: CompletionEdit)
    requires
        byte_len(line@) <= usize::MAX,
    ensures
        replaces_whole_line(*candidate) ==> r.start == 0 && r.end == byte_len(line@)
            && r.replacement@ == candidate.replacement@,
        !replaces_whole_line(*candidate) ==> r.start == token.start && r.end == token.end
            && r.replacement@ == accepted_text(token.text@, candidate.replacement@, mode),
{
    if completion_candidate_replaces_whole_line(candidate) {
        let v = str_chars(line);
        let n = crate::text::chars_byte_len(v.as_slice());
        return CompletionEdit { start: 0, end: n, replacement: candidate.replacement.clone() };
    }
    CompletionEdit {
        start: token.start,
        end: token.end,
        replacement: accepted_replacement(token, candidate, mode),
    }
}

/// The line and cursor after accepting the candidate in `mode`.
pub fn accept_completion_with_mode(
    line: &str,
    token: &TokenContext,
    candidate: &CompletionCandidate,
    mode: CompletionTabAccept,
) -> (r: AcceptedCompletion)
    requires
        !replaces_whole_line(*candidate) ==> valid_span(line@, token.start as int, token.end as int),
        byte_len(line@) + byte_len(candidate.replacement@) <= usize::MAX,
    ensures
        replaces_whole_line(*candidate) ==> r.line@ == candidate.replacement@ && r.cursor == byte_len(
            candidate.replacement@,
        ),
        !replaces_whole_line(*candidate) ==> r.line@ == replace_span(
            line@,
            token.start as int,
            token.end as int,
            accepted_text(token.text@, candidate.replacement@, mode),
        ) && r.cursor == token.start + byte_len(accepted_text(token.text@, candidate.replacement@, mode)),
{
    let v = str_chars(line);
    let repl = str_chars(candidate.replacement.as_str());
    if completion_candidate_replaces_whole_line(candidate) {
        let n = crate::text::chars_byte_len(repl.as_slice());
        return AcceptedCompletion { line: candidate.replacement.clone(), cursor: n };
    }
    let edit = completion_edit_for_candidate(line, token, candidate, mode);
    proof {
        let a = accepted_text(token.text@, candidate.replacement@, mode);
        let e = word_suffix_end(candidate.replacement@, token.text@.len() as int, false);
        let e0 = word_suffix_end(candidate.replacement@, 0, false);
        lemma_word_suffix_end_bound(candidate.replacement@, token.text@.len() as int, false);
        lemma_word_suffix_end_bound(candidate.replacement@, 0, false);
        assert(a.len() <= candidate.replacement@.len());
        assert(candidate.replacement@ =~= a + candidate.replacement@.skip(a.len() as int));
        crate::text::lemma_byte_len_concat(a, candidate.replacement@.skip(a.len() as int));
    }
    edit.apply_to_line(line)
}

proof fn lemma_word_suffix_end_bound(s: Seq<char>, i: int, seen: bool)
    ensures
        word_suffix_end(s, i, seen) <= s.len(),
        0 <= i ==> 0 <= word_suffix_end(s, i, seen),
    decreases s.len() - i,
{
    if 0 <= i < s.len() {
        lemma_word_suffix_end_bound(s, i + 1, true);
        lemma_word_suffix_end_bound(s, i + 1, false);
    }
}

/// The line and cursor after accepting the whole candidate.
pub fn accept_completion(line: &str, token: &TokenContext, candidate: &CompletionCandidate) -> (r:
    AcceptedCompletion)
    requires
        !replaces_whole_line(*candidate) ==> valid_span(line@, token.start as int, token.end as int),
        byte_len(line@) + byte_len(candidate.replacement@) <= usize::MAX,
    ensures
        replaces_whole_line(*candidate) ==> r.line@ == candidate.replacement@ && r.cursor == byte_len(
            candidate.replacement@,
        ),
        !replaces_whole_line(*candidate) ==> r.line@ == replace_span(
            line@,
            token.start as int,
            token.end as int,
            candidate.replacement@,
        ) && r.cursor == token.start + byte_len(candidate.replacement@),
{
    accept_completion_with_mode(line, token, candidate, CompletionTabAccept::Full)
}

/// The line shown for a candidate: the line as accepting it would leave
/// it.
pub open spec fn accepted_line(line: Seq<char>, token: TokenContext, c: CompletionCandidate) -> Seq<char> {
    if replaces_whole_line(c) {
        c.replacement@
    } else {
        replace_span(line, token.start as int, token.end as int, c.replacement@)
    }
}

/// How many of the last words fit in `avail` columns, joined by single
/// spaces, taken from the end while they fit.
pub open spec fn words_back(ws: Seq<Seq<char>>, avail: int, first: bool) -> nat
    decreases ws.len(),
{
    if ws.len() == 0 {
        0
    } else {
        let need = if first {
            line_width(ws.last()) as int
        } else {
            (line_width(ws.last()) + 1) as int
        };
        if need > avail {
            0
        } else {
            1 + words_back(ws.drop_last(), avail - need, false)
        }
    }
}

/// `value` cut to `width` columns at its start, at a word boundary when
/// it has several words, with `... ` marking the cut.
pub open spec fn left_elided(value: Seq<char>, width: nat) -> Seq<char> {
    if line_width(value) <= width {
        value
    } else if width <= 3 {
        dots(width)
    } else {
        let ws = ws_words(value);
        let k = words_back(ws, width - 4, true);
        if ws.len() <= 1 || k == 0 {
            truncated_start(value, width)
        } else {
            seq!['.', '.', '.', ' '] + join_spaces(ws.skip(ws.len() - k))
        }
    }
}

pub open spec fn spaces(n: nat) -> Seq<char> {
    Seq::new(n, |i: int| ' ')
}

/// A candidate's row on a terminal `width` columns wide: its label, then
/// from column `start_col` (or just after the label when that does not
/// fit) the accepted line, elided at its start.
pub open spec fn rendered_row(
    c: CompletionCandidate,
    line: Seq<char>,
    token: TokenContext,
    start_col: nat,
    width: nat,
) -> Seq<char> {
    let label = candidate_label(c);
    let lw = line_width(label);
    if width == 0 {
        seq![]
    } else if width <= lw {
        truncated_end(label, width)
    } else {
        let preferred = if start_col > lw + 1 {
            start_col
        } else {
            lw + 1
        };
        let col = if preferred < width {
            preferred
        } else {
            lw + 1
        };
        if col >= width {
            truncated_end(label, width)
        } else {
            label + spaces((col - lw) as nat) + left_elided(accepted_line(line, token, c), (width - col) as nat)
        }
    }
}

/// Number of trailing words that fit, walking back from word `k`.
fn words_back_from(ws: &Vec<Vec<char>>, k: usize, avail: usize, first: bool) -> (r: usize)
    requires
        k <= ws@.len(),
    ensures
        r == words_back(ws@.take(k as int).map_values(|w: Vec<char>| w@), avail as int, first),
        r <= k,
    decreases k,
{
    let ghost vs = ws@.take(k as int).map_values(|w: Vec<char>| w@);
    if k == 0 {
        return 0;
    }
    proof {
        assert(vs.drop_last() =~= ws@.take(k - 1).map_values(|w: Vec<char>| w@));
        assert(vs.last() == ws@[k - 1]@);
    }
    let piece = chars_string(ws[k - 1].as_slice());
    let fits = match checked_display_width(piece.as_str()) {
        Some(w) => if first {
            if w <= avail {
                Some(avail - w)
            } else {
                None
            }
        } else if w < avail {
            Some(avail - w - 1)
        } else {
            None
        },
        None => None,
    };
    match fits {
        Some(rest) => 1 + words_back_from(ws, k - 1, rest, false),
        None => 0,
    }
}

/// `value` cut at its start to `width` columns; see `left_elided`.
pub fn left_elide_words(value: &str, width: usize) -> (r: String)
    ensures
        r@ == left_elided(value@, width as nat),
{
    let fits = match checked_display_width(value) {
        Some(w) => w <= width,
        None => false,
    };
    if fits {
        return value.to_owned();
    }
    if width <= 3 {
        return truncate_start_with_ellipsis(value, width);
    }
    let v = str_chars(value);
    let ws = split_whitespace(v.as_slice());
    let ghost all = ws@.map_values(|w: Vec<char>| w@);
    proof {
        assert(all =~= ws_words(value@));
        assert(ws@.take(ws@.len() as int) =~= ws@);
    }
    let k = words_back_from(&ws, ws.len(), width - 4, true);
    if ws.len() <= 1 || k == 0 {
        return truncate_start_with_ellipsis(value, width);
    }
    let mut out = String::new();
    out.push('.');
    out.push('.');
    out.push('.');
    out.push(' ');
    let start = ws.len() - k;
    let mut j: usize = start;
    push_chars(&mut out, ws[j].as_slice());
    j = j + 1;
    proof {
        assert(all.subrange(start as int, j as int) =~= seq![all[start as int]]);
        assert(out@ =~= seq!['.', '.', '.', ' '] + join_spaces(all.subrange(start as int, j as int)));
    }
    while j < ws.len()
        invariant
            start < j <= ws@.len(),
            all == ws@.map_values(|w: Vec<char>| w@),
            out@ == seq!['.', '.', '.', ' '] + join_spaces(all.subrange(start as int, j as int)),
        decreases ws.len() - j,
    {
        out.push(' ');
        push_chars(&mut out, ws[j].as_slice());
        proof {
            let sub = all.subrange(start as int, j + 1);
            assert(sub.drop_last() =~= all.subrange(start as int, j as int));
            assert(sub.len() >= 2);
            assert(out@ =~= seq!['.', '.', '.', ' '] + join_spaces(all.subrange(start as int, j + 1)));
        }
        j = j + 1;
    }
    proof {
        assert(all.subrange(start as int, ws@.len() as int) =~= all.skip(all.len() - k));
    }
    out
}

/// One candidate's row for a terminal `width` columns wide; see
/// `rendered_row`.
#[verifier::rlimit(40)]
pub fn render_completion_candidate_for_width(
    candidate: &CompletionCandidate,
    line: &str,
    token: &TokenContext,
    content_start_col: usize,
    width: usize,
) -> (r: String)
    requires
        !replaces_whole_line(*candidate) ==> valid_span(line@, token.start as int, token.end as int),
        byte_len(line@) + byte_len(candidate.replacement@) <= usize::MAX,
    ensures
        r@ == rendered_row(*candidate, line@, *token, content_start_col as nat, width as nat),
{
    if width == 0 {
        return String::new();
    }
    let label = completion_candidate_label(candidate);
    let lw = match checked_display_width(label) {
        Some(w) => w,
        None => {
            return truncate_end_with_ellipsis(label, width);
        },
    };
    if width <= lw {
        return truncate_end_with_ellipsis(label, width);
    }
    let preferred = if content_start_col > lw + 1 {
        content_start_col
    } else {
        lw + 1
    };
    let col = if preferred < width {
        preferred
    } else {
        lw + 1
    };
    if col >= width {
        return truncate_end_with_ellipsis(label, width);
    }
    let accepted = accept_completion(line, token, candidate);
    let shown = left_elide_words(accepted.line.as_str(), width - col);
    assemble_row(label, col - lw, shown.as_str())
}

/// `label`, `pad` spaces, then `shown`.
fn assemble_row(label: &str, pad: usize, shown: &str) -> (r: String)
    ensures
        r@ == label@ + spaces(pad as nat) + shown@,
{
    let mut row = String::new();
    push_str_chars(&mut row, label);
    let mut k: usize = 0;
    proof {
        assert(row@ =~= label@ + spaces(0));
    }
    while k < pad
        invariant
            k <= pad,
            row@ == label@ + spaces(k as nat),
        decreases pad - k,
    {
        row.push(' ');
        k = k + 1;
        assert(row@ =~= label@ + spaces(k as nat));
    }
    push_str_chars(&mut row, shown);
    row
}

/// One row per candidate for a terminal `width` columns wide.
pub fn render_completion_candidates_for_width(
    candidates: &[CompletionCandidate],
    line: &str,
    token: &TokenContext,
    content_start_col: usize,
    width: usize,
) -> (r: Vec<String>)
    requires
        valid_span(line@, token.start as int, token.end as int),
        forall|k: int|
            0 <= k < candidates@.len() ==> byte_len(line@) + byte_len(#[trigger] candidates@[k].replacement@)
                <= usize::MAX,
    ensures
        r@.len() == candidates@.len(),
        forall|k: int|
            0 <= k < r@.len() ==> (#[trigger] r@[k])@ == rendered_row(
                candidates@[k],
                line@,
                *token,
                content_start_col as nat,
                width as nat,
            ),
{
    let mut rows: Vec<String> = Vec::new();
    let mut i: usize = 0;
    while i < candidates.len()
        invariant
            i <= candidates@.len(),
            valid_span(line@, token.start as int, token.end as int),
            forall|k: int|
                0 <= k < candidates@.len() ==> byte_len(line@) + byte_len(
                    #[trigger] candidates@[k].replacement@,
                ) <= usize::MAX,
            rows@.len() == i,
            forall|k: int|
                0 <= k < i ==> (#[trigger] rows@[k])@ == rendered_row(
                    candidates@[k],
                    line@,
                    *token,
                    content_start_col as nat,
                    width as nat,
                ),
        decreases candidates.len() - i,
    {
        rows.push(render_completion_candidate_for_width(&candidates[i], line, token, content_start_col, width));
        i = i + 1;
    }
    rows
}

/// See `truncate_end_with_ellipsis`.
pub fn truncate_with_ellipsis(value: &str, width: usize) -> (r: String)
    ensures
        r@ == truncated_end(value@, width as nat),
{
    truncate_end_with_ellipsis(value, width)
}

} // verus!
