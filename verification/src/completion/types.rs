//! Values that the completion engine takes and returns.
use vstd::prelude::*;
use crate::text::{byte_len, push_chars, str_chars, sub_chars};

verus! {

#[derive(Debug, Clone, Copy, PartialEq, Eq, Structural)]
pub struct CompletionOptions {
    pub max_results: usize,
    pub ignore_spaces: bool,
    pub fuzzy_enabled: bool,
    pub match_threshold_percent: usize,
    pub typo_threshold_percent: usize,
}

impl Default for CompletionOptions {
    fn default() -> (r: Self)
        ensures
            r == (CompletionOptions {
                max_results: 5,
                ignore_spaces: true,
                fuzzy_enabled: true,
                match_threshold_percent: 50,
                typo_threshold_percent: 80,
            }),
    {
        CompletionOptions {
            max_results: 5,
            ignore_spaces: true,
            fuzzy_enabled: true,
            match_threshold_percent: 50,
            typo_threshold_percent: 80,
        }
    }
}

/// The shell token under the cursor; `start` and `end` are byte offsets.
#[derive(Debug, Clone, PartialEq, Eq)]
pub struct TokenContext {
    pub start: usize,
    pub end: usize,
    pub text: String,
    pub is_first_token: bool,
    pub quote: Option<char>,
    pub path_like: bool,
}

#[derive(Debug, Clone, PartialEq, Eq)]
pub struct CompletionCandidate {
    pub display: String,
    pub replacement: String,
    pub is_dir: bool,
    pub source: CompletionSource,
}

impl CompletionCandidate {
    /// A copy of the candidate.
    pub fn clone_candidate(&self) -> (r: Self)
        ensures
            r == *self,
    {
        CompletionCandidate {
            display: self.display.clone(),
            replacement: self.replacement.clone(),
            is_dir: self.is_dir,
            source: self.source,
        }
    }
}

/// A candidate as plain values: display, replacement, directory flag and
/// source.
pub type CandView = (Seq<char>, Seq<char>, bool, CompletionSource);

pub open spec fn cview(c: CompletionCandidate) -> CandView {
    (c.display@, c.replacement@, c.is_dir, c.source)
}

pub open spec fn cviews(s: Seq<CompletionCandidate>) -> Seq<CandView> {
    s.map_values(|c: CompletionCandidate| cview(c))
}

/// Some candidate of `s` has the replacement `r`.
pub open spec fn has_repl(s: Seq<CandView>, r: Seq<char>) -> bool {
    exists|k: int| 0 <= k < s.len() && (#[trigger] s[k]).1 == r
}

/// The candidates of `s` whose replacement no earlier candidate has.
pub open spec fn dedup_views(s: Seq<CandView>) -> Seq<CandView>
    decreases s.len(),
{
    if s.len() == 0 {
        seq![]
    } else {
        let d = dedup_views(s.drop_last());
        if has_repl(s.drop_last(), s.last().1) {
            d
        } else {
            d.push(s.last())
        }
    }
}

/// Candidates whose display and replacement are the same text.
pub open spec fn plain_views(texts: Seq<Seq<char>>, source: CompletionSource) -> Seq<CandView> {
    texts.map_values(|t: Seq<char>| (t, t, false, source))
}

/// Deduplication keeps exactly the replacements that occur.
pub proof fn lemma_dedup_has_repl(s: Seq<CandView>, r: Seq<char>)
    ensures
        has_repl(dedup_views(s), r) == has_repl(s, r),
    decreases s.len(),
{
    if s.len() > 0 {
        let p = s.drop_last();
        lemma_dedup_has_repl(p, r);
        let d = dedup_views(p);
        if has_repl(s, r) {
            let k = choose|k: int| 0 <= k < s.len() && (#[trigger] s[k]).1 == r;
            if k < s.len() - 1 {
                assert(p[k].1 == r);
                if !has_repl(p, s.last().1) {
                    let j = choose|j: int| 0 <= j < d.len() && (#[trigger] d[j]).1 == r;
                    assert(d.push(s.last())[j].1 == r);
                }
            } else {
                if has_repl(p, s.last().1) {
                } else {
                    assert(d.push(s.last())[d.len() as int].1 == r);
                }
            }
        } else {
            if has_repl(dedup_views(s), r) {
                if !has_repl(p, s.last().1) {
                    let j = choose|j: int| 0 <= j < d.len() + 1 && (#[trigger] d.push(s.last())[j]).1 == r;
                    if j < d.len() {
                        assert(d[j].1 == r);
                    } else {
                        assert(s[s.len() - 1].1 == r);
                    }
                }
            }
        }
    }
}

/// Extending the input by one candidate extends the deduplicated list by
/// it exactly when its replacement is new.
pub proof fn lemma_dedup_push(s: Seq<CandView>, v: CandView)
    ensures
        dedup_views(s.push(v)) == if has_repl(dedup_views(s), v.1) {
            dedup_views(s)
        } else {
            dedup_views(s).push(v)
        },
{
    assert(s.push(v).drop_last() =~= s);
    lemma_dedup_has_repl(s, v.1);
}

/// Appends `c` to `out` unless a candidate from index `base` on has its
/// replacement.
pub fn push_unique(out: &mut Vec<CompletionCandidate>, base: usize, c: CompletionCandidate)
    requires
        base <= old(out)@.len(),
    ensures
        if has_repl(cviews(old(out)@.skip(base as int)), c.replacement@) {
            final(out)@ == old(out)@
        } else {
            final(out)@ == old(out)@.push(c)
        },
{
    let mut k = base;
    while k < out.len()
        invariant
            base <= k <= out@.len(),
            forall|j: int| base <= j < k ==> (#[trigger] out@[j]).replacement@ != c.replacement@,
        decreases out.len() - k,
    {
        if out[k].replacement == c.replacement {
            proof {
                let seg = cviews(out@.skip(base as int));
                assert(seg[k - base].1 == c.replacement@);
            }
            return ;
        }
        k = k + 1;
    }
    proof {
        let seg = cviews(out@.skip(base as int));
        assert forall|j: int| 0 <= j < seg.len() implies (#[trigger] seg[j]).1 != c.replacement@ by {
            assert(seg[j] == cview(out@[base + j]));
        }
    }
    out.push(c);
}

pub open spec fn opt_view(item: Option<CompletionCandidate>) -> Option<CandView> {
    match item {
        Some(c) => Some(cview(c)),
        None => None,
    }
}

/// The present items, in order.
pub open spec fn somes(s: Seq<Option<CandView>>) -> Seq<CandView>
    decreases s.len(),
{
    if s.len() == 0 {
        seq![]
    } else if s.last() is Some {
        somes(s.drop_last()).push(s.last()->0)
    } else {
        somes(s.drop_last())
    }
}

pub proof fn lemma_somes_push(s: Seq<Option<CandView>>, x: Option<CandView>)
    ensures
        somes(s.push(x)) == if x is Some {
            somes(s).push(x->0)
        } else {
            somes(s)
        },
{
    assert(s.push(x).drop_last() =~= s);
}

/// Appends the item, if any, to `out` unless a candidate from `base` on
/// has its replacement; keeps `out` equal to the deduplicated items so far.
pub(crate) fn push_item(
    out: &mut Vec<CompletionCandidate>,
    base: usize,
    item: Option<CompletionCandidate>,
    Ghost(items): Ghost<Seq<Option<CandView>>>,
)
    requires
        base <= old(out)@.len(),
        cviews(old(out)@.skip(base as int)) == dedup_views(somes(items)),
    ensures
        final(out)@.take(base as int) == old(out)@.take(base as int),
        final(out)@.len() >= base,
        cviews(final(out)@.skip(base as int)) == dedup_views(somes(items.push(opt_view(item)))),
{
    let ghost iv = opt_view(item);
    proof {
        lemma_somes_push(items, iv);
    }
    match item {
        Some(c) => {
            let ghost before = out@;
            proof {
                lemma_dedup_push(somes(items), cview(c));
            }
            push_unique(out, base, c);
            proof {
                if out@.len() > before.len() {
                    assert(cviews(out@.skip(base as int)) =~= cviews(before.skip(base as int)).push(
                        cview(c),
                    ));
                }
                assert(out@.take(base as int) =~= before.take(base as int));
            }
        },
        None => {},
    }
}

/// A candidate whose display and replacement are `text`.
pub fn plain_candidate(text: &String, source: CompletionSource) -> (r: CompletionCandidate)
    ensures
        cview(r) == (text@, text@, false, source),
{
    CompletionCandidate {
        display: text.clone(),
        replacement: text.clone(),
        is_dir: false,
        source,
    }
}

/// Replace the bytes `[start, end)` of a line by `replacement`.
#[derive(Debug, Clone, PartialEq, Eq)]
pub struct CompletionEdit {
    pub start: usize,
    pub end: usize,
    pub replacement: String,
}

#[derive(Debug, Clone, PartialEq, Eq)]
pub struct AcceptedCompletion {
    pub line: String,
    pub cursor: usize,
}

#[derive(Debug, Clone, Copy, PartialEq, Eq, Hash, Structural)]
pub enum CompletionSource {
    BackendShell,
    Path,
    Template,
    TemplateTypo,
    History,
    HistoryTypo,
    Executable,
    TemplatePlaceholder,
    PrivateCommand,
}

/// The line that applying an edit gives, over character sequences: the
/// characters before byte `start`, the replacement, and the characters from
/// byte `end` on.
pub open spec fn edited_line(line: Seq<char>, i: int, j: int, replacement: Seq<char>) -> Seq<char> {
    line.take(i) + replacement + line.skip(j)
}

/// The bytes `[start, end)` are a span of whole characters of `line`.
pub open spec fn valid_span(line: Seq<char>, start: int, end: int) -> bool {
    exists|i: int, j: int|
        0 <= i <= j <= line.len() && crate::text::byte_offset(line, i) == start
            && crate::text::byte_offset(line, j) == end
}

/// The result of replacing the byte span `[start, end)` of `line`.
pub open spec fn replace_span(line: Seq<char>, start: int, end: int, replacement: Seq<char>) -> Seq<char> {
    edited_line(
        line,
        crate::text::floor_index(line, start),
        crate::text::floor_index(line, end),
        replacement,
    )
}

/// The character indices of a valid span are its floor indices.
pub proof fn lemma_valid_span(line: Seq<char>, start: int, end: int)
    requires
        valid_span(line, start, end),
    ensures
        0 <= crate::text::floor_index(line, start) <= crate::text::floor_index(line, end) <= line.len(),
        crate::text::byte_offset(line, crate::text::floor_index(line, start)) == start,
        crate::text::byte_offset(line, crate::text::floor_index(line, end)) == end,
{
    let (a, b) = choose|i: int, j: int|
        0 <= i <= j <= line.len() && crate::text::byte_offset(line, i) == start
            && crate::text::byte_offset(line, j) == end;
    if a < line.len() {
        crate::text::lemma_byte_offset_step(line, a);
    }
    if b < line.len() {
        crate::text::lemma_byte_offset_step(line, b);
    }
    crate::text::lemma_floor_index(line, start, a);
    crate::text::lemma_floor_index(line, end, b);
}

impl CompletionEdit {
    /// Applies the edit; `start` and `end` must be the byte offsets of the
    /// characters `i <= j` of `line`.  The cursor lands after the
    /// replacement.
    pub fn apply_to_line(&self, line: &str) -> (r: AcceptedCompletion)
        requires
            valid_span(line@, self.start as int, self.end as int),
            byte_len(line@) + byte_len(self.replacement@) <= usize::MAX,
        ensures
            r.line@ == replace_span(line@, self.start as int, self.end as int, self.replacement@),
            r.cursor == self.start + byte_len(self.replacement@),
    {
        let v = str_chars(line);
        let i = crate::text::char_index_at_or_before(v.as_slice(), self.start);
        let j = crate::text::char_index_at_or_before(v.as_slice(), self.end);
        proof {
            lemma_valid_span(line@, self.start as int, self.end as int);
        }
        let r = str_chars(self.replacement.as_str());
        let mut out = String::new();
        let before = sub_chars(v.as_slice(), 0, i);
        push_chars(&mut out, before.as_slice());
        push_chars(&mut out, r.as_slice());
        let after = sub_chars(v.as_slice(), j, v.len());
        push_chars(&mut out, after.as_slice());
        proof {
            assert(out@ =~= edited_line(line@, i as int, j as int, self.replacement@));
            crate::text::lemma_byte_offset_mono(v@, i as int, v@.len() as int);
            crate::text::lemma_byte_offset_full(v@);
        }
        let n = crate::text::chars_byte_len(r.as_slice());
        AcceptedCompletion { line: out, cursor: self.start + n }
    }
}

} // verus!
