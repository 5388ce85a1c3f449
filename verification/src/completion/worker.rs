//! The primary completion tier as the background worker computes it: the
//! candidates for the token at the cursor, and a cache that lets typing
//! more of a first token filter the previous candidates instead of
//! searching again.
use vstd::prelude::*;
use crate::history::HistoryEntry;
use crate::templates::TemplateEntry;
use crate::text::{byte_len, byte_offset, chars_byte_len, chars_eq, floor_index, has_prefix, starts_with, str_chars};
use super::first_token::{
    complete_first_token_executables_from_names_with_options, complete_first_token_history_with_options,
    complete_first_token_templates_with_options, executable_views, history_views, template_views,
};
use super::index::{
    index_history_entries, index_template_entries, indexes_history, indexes_template, IndexedHistoryEntry,
    IndexedTemplateEntry,
};
use super::typo::{complete_non_first_token_typos_for_line_with_indexed_options, non_first_typo_views};
use super::matching::{matches_completion_prefix_with_threshold, prefix_match, views};
use super::parser::{current_token_context, lex, path_like};
use super::ranking::{
    dedupe_completion_candidates, lemma_cviews_ranked, lemma_dedup_views, limit_candidates, limited,
    rank_completion_candidates, ranked_views,
};
use super::types::{cview, cviews, dedup_views, CandView, CompletionCandidate, CompletionOptions, CompletionSource};

verus! {

broadcast use vstd::string::group_string_axioms;

/// Which tier a completion event belongs to.
#[derive(Debug, Clone, Copy, PartialEq, Eq, Structural)]
pub enum CompletionTier {
    History,
    Typo,
}

/// A request for completions. The history and templates come with the
/// number of the snapshot they were taken from: one snapshot number stands
/// for one unchanged list.
#[derive(Debug, Clone, PartialEq, Eq)]
pub struct CompletionJob {
    pub id: u64,
    pub line: String,
    pub cursor: usize,
    pub cwd: String,
    pub path_dirs: Vec<String>,
    pub backend_shell: Option<String>,
    pub history_newest_first: Vec<HistoryEntry>,
    pub history_snapshot: u64,
    pub templates: Vec<TemplateEntry>,
    pub templates_snapshot: u64,
    pub options: CompletionOptions,
}

/// Completions for a job, of one tier.
#[derive(Debug, Clone, PartialEq, Eq)]
pub struct CompletionEvent {
    pub id: u64,
    pub tier: CompletionTier,
    pub candidates: Vec<CompletionCandidate>,
}

/// What the cache kept of the last job, and its candidates before the
/// display limit.
#[derive(Debug, Clone, PartialEq, Eq)]
pub struct PrimaryTierCacheEntry {
    pub line: String,
    pub cursor: usize,
    pub cwd: String,
    pub path_dirs: Vec<String>,
    pub backend_shell: Option<String>,
    pub history_snapshot: u64,
    pub templates_snapshot: u64,
    pub options: CompletionOptions,
    pub candidates: Vec<CompletionCandidate>,
}

/// The primary tier's cache: the last job's candidates.
#[derive(Debug, Clone, PartialEq, Eq)]
pub struct PrimaryTierCache {
    pub entry: Option<PrimaryTierCacheEntry>,
}

pub open spec fn opt_str_view(o: Option<String>) -> Option<Seq<char>> {
    match o {
        Some(s) => Some(s@),
        None => None,
    }
}

/// The token that ends a line: where it starts (in bytes), its text,
/// whether it is the first token, and whether it looks like a path.
pub open spec fn end_token(s: Seq<char>) -> (int, Seq<char>, bool, bool) {
    let st = lex(s, s.len() as int);
    let text = s.subrange(st.start, s.len() as int);
    (byte_offset(s, st.start) as int, text, !st.before, path_like(text))
}

/// The cached candidates can be filtered for `job`: nothing but the line
/// changed, both cursors are at the end of their lines, the new line
/// extends the old one, and both end in the same first token that is not
/// a path, the old one not empty.
pub open spec fn cache_usable(e: PrimaryTierCacheEntry, job: CompletionJob) -> bool {
    let prev = end_token(e.line@);
    let cur = end_token(job.line@);
    &&& e.options == job.options
    &&& e.cwd@ == job.cwd@
    &&& views(e.path_dirs@) == views(job.path_dirs@)
    &&& opt_str_view(e.backend_shell) == opt_str_view(job.backend_shell)
    &&& e.history_snapshot == job.history_snapshot
    &&& e.templates_snapshot == job.templates_snapshot
    &&& e.cursor == byte_len(e.line@)
    &&& job.cursor == byte_len(job.line@)
    &&& has_prefix(job.line@, e.line@)
    &&& byte_len(job.line@) > byte_len(e.line@)
    &&& prev.2 && cur.2 && !prev.3 && !cur.3
    &&& prev.0 == cur.0
    &&& prev.1.len() > 0
    &&& has_prefix(cur.1, prev.1)
}

/// A cached first-token candidate still completes `prefix`: history and
/// templates by the prefix rule, executables and shell candidates by a
/// plain prefix, nothing else.
pub open spec fn first_token_match(c: CandView, prefix: Seq<char>, options: CompletionOptions) -> bool {
    match c.3 {
        CompletionSource::Template | CompletionSource::History => prefix_match(c.1, prefix, options.ignore_spaces),
        CompletionSource::Executable | CompletionSource::BackendShell => has_prefix(c.1, prefix),
        _ => false,
    }
}

pub fn first_token_candidate_matches(candidate: &CompletionCandidate, prefix: &str, options: CompletionOptions) -> (r: bool)
    ensures
        r == first_token_match(cview(*candidate), prefix@, options),
{
    match candidate.source {
        CompletionSource::Template | CompletionSource::History => matches_completion_prefix_with_threshold(
            candidate.replacement.as_str(),
            prefix,
            options.ignore_spaces,
            options.match_threshold_percent,
        ),
        CompletionSource::Executable | CompletionSource::BackendShell => starts_with(
            str_chars(candidate.replacement.as_str()).as_slice(),
            str_chars(prefix).as_slice(),
        ),
        _ => false,
    }
}

fn strings_equal(a: &Vec<String>, b: &Vec<String>) -> (r: bool)
    ensures
        r == (views(a@) == views(b@)),
{
    if a.len() != b.len() {
        assert(views(a@).len() != views(b@).len());
        return false;
    }
    let mut i: usize = 0;
    while i < a.len()
        invariant
            i <= a@.len() == b@.len(),
            forall|k: int| 0 <= k < i ==> a@[k]@ == b@[k]@,
        decreases a@.len() - i,
    {
        if !chars_eq(str_chars(a[i].as_str()).as_slice(), str_chars(b[i].as_str()).as_slice()) {
            assert(views(a@)[i as int] != views(b@)[i as int]);
            return false;
        }
        i = i + 1;
    }
    assert(views(a@) =~= views(b@));
    true
}

fn opt_strings_equal(a: &Option<String>, b: &Option<String>) -> (r: bool)
    ensures
        r == (opt_str_view(*a) == opt_str_view(*b)),
{
    match (a, b) {
        (Some(x), Some(y)) => chars_eq(str_chars(x.as_str()).as_slice(), str_chars(y.as_str()).as_slice()),
        (None, None) => true,
        _ => false,
    }
}

proof fn lemma_end_cursor(s: Seq<char>)
    ensures
        floor_index(s, byte_len(s) as int) == s.len(),
{
    crate::text::lemma_byte_offset_full(s);
    crate::text::lemma_floor_index(s, byte_len(s) as int, s.len() as int);
}

/// Whether the cache entry's candidates can be filtered for `job`.
pub fn can_filter_primary_cache(entry: &PrimaryTierCacheEntry, job: &CompletionJob) -> (r: bool)
    ensures
        r == cache_usable(*entry, *job),
{
    let el = str_chars(entry.line.as_str());
    let jl = str_chars(job.line.as_str());
    let elen = chars_byte_len(el.as_slice());
    let jlen = chars_byte_len(jl.as_slice());
    if entry.options != job.options || !chars_eq(
        str_chars(entry.cwd.as_str()).as_slice(),
        str_chars(job.cwd.as_str()).as_slice(),
    ) || !strings_equal(&entry.path_dirs, &job.path_dirs) || !opt_strings_equal(
        &entry.backend_shell,
        &job.backend_shell,
    ) || entry.history_snapshot != job.history_snapshot || entry.templates_snapshot != job.templates_snapshot
        || entry.cursor != elen || job.cursor != jlen || !starts_with(jl.as_slice(), el.as_slice()) || jlen <= elen {
        return false;
    }
    let previous = current_token_context(entry.line.as_str(), entry.cursor);
    let current = current_token_context(job.line.as_str(), job.cursor);
    proof {
        lemma_end_cursor(entry.line@);
        lemma_end_cursor(job.line@);
        crate::completion::parser::lemma_lex_bounds(entry.line@, entry.line@.len() as int);
        crate::completion::parser::lemma_lex_bounds(job.line@, job.line@.len() as int);
        crate::text::lemma_byte_offset_injective(entry.line@, 0, 0);
    }
    previous.is_first_token && current.is_first_token && !previous.path_like && !current.path_like
        && previous.start == current.start && !previous.text.as_str().is_empty() && starts_with(
        str_chars(current.text.as_str()).as_slice(),
        str_chars(previous.text.as_str()).as_slice(),
    )
}

/// The cached candidates that still complete the token, in order.
pub open spec fn cached_filtered(e: PrimaryTierCacheEntry, job: CompletionJob) -> Seq<CandView> {
    cviews(e.candidates@).filter(|c: CandView| first_token_match(c, end_token(job.line@).1, job.options))
}

impl PrimaryTierCache {
    pub fn new() -> (r: Self)
        ensures
            r.entry is None,
    {
        PrimaryTierCache { entry: None }
    }

    /// The cached candidates that still complete the token, when the cache
    /// applies to `job`.
    pub fn filtered_candidates(&self, job: &CompletionJob) -> (r: Option<Vec<CompletionCandidate>>)
        ensures
            match self.entry {
                Some(e) => if cache_usable(e, *job) {
                    r matches Some(v) && cviews(v@) == cached_filtered(e, *job)
                } else {
                    r is None
                },
                None => r is None,
            },
    {
        let entry = match &self.entry {
            Some(e) => e,
            None => {
                return None;
            },
        };
        if !can_filter_primary_cache(entry, job) {
            return None;
        }
        let token = current_token_context(job.line.as_str(), job.cursor);
        proof {
            lemma_end_cursor(job.line@);
        }
        let ghost all = cviews(entry.candidates@);
        let ghost pred = |c: CandView| first_token_match(c, end_token(job.line@).1, job.options);
        let mut out: Vec<CompletionCandidate> = Vec::new();
        let mut i: usize = 0;
        assert(all.take(0) =~= Seq::<CandView>::empty());
        while i < entry.candidates.len()
            invariant
                i <= entry.candidates@.len(),
                all == cviews(entry.candidates@),
                token.text@ == end_token(job.line@).1,
                pred == (|c: CandView| first_token_match(c, end_token(job.line@).1, job.options)),
                cviews(out@) == all.take(i as int).filter(pred),
            decreases entry.candidates@.len() - i,
        {
            let c = &entry.candidates[i];
            assert(all.take(i + 1).drop_last() =~= all.take(i as int));
            assert(all.take(i + 1).last() == cview(*c));
            reveal_with_fuel(Seq::filter, 1);
            let ghost before = cviews(out@);
            if first_token_candidate_matches(c, token.text.as_str(), job.options) {
                let copy = c.clone_candidate();
                out.push(copy);
                assert(cviews(out@) =~= before.push(cview(*c)));
            }
            i = i + 1;
        }
        assert(all.take(entry.candidates@.len() as int) =~= all);
        Some(out)
    }

    /// Keeps `candidates` as those of `job`.
    pub fn store(&mut self, job: &CompletionJob, candidates: Vec<CompletionCandidate>)
        ensures
            final(self).entry matches Some(e) && e.line@ == job.line@ && e.cursor == job.cursor && e.cwd@
                == job.cwd@ && views(e.path_dirs@) == views(job.path_dirs@) && opt_str_view(e.backend_shell)
                == opt_str_view(job.backend_shell) && e.history_snapshot == job.history_snapshot
                && e.templates_snapshot == job.templates_snapshot && e.options == job.options && e.candidates
                == candidates,
    {
        let backend_shell = match &job.backend_shell {
            Some(s) => Some(s.clone()),
            None => None,
        };
        self.entry = Some(
            PrimaryTierCacheEntry {
                line: job.line.clone(),
                cursor: job.cursor,
                cwd: job.cwd.clone(),
                path_dirs: copy_strings(&job.path_dirs),
                backend_shell,
                history_snapshot: job.history_snapshot,
                templates_snapshot: job.templates_snapshot,
                options: job.options,
                candidates,
            },
        );
    }
}

fn copy_strings(v: &Vec<String>) -> (r: Vec<String>)
    ensures
        views(r@) == views(v@),
{
    let mut out: Vec<String> = Vec::new();
    let mut i: usize = 0;
    while i < v.len()
        invariant
            i <= v@.len(),
            out@.len() == i,
            forall|k: int| 0 <= k < i ==> out@[k]@ == v@[k]@,
        decreases v@.len() - i,
    {
        out.push(v[i].clone());
        i = i + 1;
    }
    assert(views(out@) =~= views(v@));
    out
}

/// The candidates that the first-token search finds: templates, history,
/// then executables, with the limit lifted.
pub open spec fn first_token_search(job: CompletionJob, executables: Seq<String>) -> Seq<CandView> {
    let text = end_token_at(job).1;
    let m = usize::MAX as int;
    if text.len() == 0 {
        limited(executable_views(executables, text), m)
    } else {
        limited(template_views(job.templates@, text, job.options.ignore_spaces), m) + limited(
            history_views(job.history_newest_first@, text, job.options.ignore_spaces),
            m,
        ) + limited(executable_views(executables, text), m)
    }
}

/// The token at the job's cursor.
pub open spec fn end_token_at(job: CompletionJob) -> (int, Seq<char>, bool, bool) {
    let s = job.line@;
    let c = floor_index(s, job.cursor as int);
    let st = lex(s, c);
    let text = s.subrange(st.start, c);
    (byte_offset(s, st.start) as int, text, !st.before, path_like(text))
}

/// Candidates of the primary tier before ranking: filtered from the cache
/// when it applies; else, for a first token that is not a path, the
/// first-token search; else those of the rest of the line, `rest_of_line`.
pub open spec fn primary_source(
    cache: PrimaryTierCache,
    job: CompletionJob,
    executables: Seq<String>,
    rest_of_line: Seq<CandView>,
) -> Seq<CandView> {
    match cache.entry {
        Some(e) if cache_usable(e, job) => cached_filtered(e, job),
        _ => if end_token_at(job).2 && !end_token_at(job).3 {
            first_token_search(job, executables)
        } else {
            rest_of_line
        },
    }
}

/// The primary tier for `job`: its candidates deduplicated, ranked, kept
/// whole in the cache, and limited for display. `executables` are the
/// names found on the job's `PATH`; `rest_of_line` the candidates for a
/// token after the first, which are used only when the cache does not
/// apply and the token is not a first one.
pub fn complete_primary_tier(
    job: &CompletionJob,
    executables: &[String],
    rest_of_line: Vec<CompletionCandidate>,
    cache: &mut PrimaryTierCache,
) -> (r: Vec<CompletionCandidate>)
    ensures
        ({
            let shown = ranked_views(dedup_views(primary_source(*old(cache), *job, executables@, cviews(rest_of_line@))));
            &&& cviews(r@) == limited(shown, job.options.max_results as int)
            &&& final(cache).entry matches Some(e) && e.line@ == job.line@ && e.cursor == job.cursor && e.cwd@
                == job.cwd@ && views(e.path_dirs@) == views(job.path_dirs@) && opt_str_view(e.backend_shell)
                == opt_str_view(job.backend_shell) && e.history_snapshot == job.history_snapshot
                && e.templates_snapshot == job.templates_snapshot && e.options == job.options && cviews(
                e.candidates@,
            ) == shown
        }),
{
    let mut options = job.options;
    options.max_results = usize::MAX;
    let token = current_token_context(job.line.as_str(), job.cursor);
    let mut candidates = match cache.filtered_candidates(job) {
        Some(c) => c,
        None => if token.is_first_token && !token.path_like {
            let mut c = complete_first_token_templates_with_options(token.text.as_str(), job.templates.as_slice(), options);
            let mut h = complete_first_token_history_with_options(
                token.text.as_str(),
                job.history_newest_first.as_slice(),
                options,
            );
            c.append(&mut h);
            let mut x = complete_first_token_executables_from_names_with_options(token.text.as_str(), executables, options);
            c.append(&mut x);
            assert(cviews(c@) =~= first_token_search(*job, executables@));
            c
        } else {
            rest_of_line
        },
    };
    let ghost found = cviews(candidates@);
    proof {
        lemma_dedup_views(candidates@);
    }
    dedupe_completion_candidates(&mut candidates);
    proof {
        lemma_cviews_ranked(candidates@);
    }
    rank_completion_candidates(&mut candidates);
    let mut kept: Vec<CompletionCandidate> = Vec::new();
    let mut i: usize = 0;
    while i < candidates.len()
        invariant
            i <= candidates@.len(),
            kept@.len() == i,
            forall|k: int| 0 <= k < i ==> cview(#[trigger] kept@[k]) == cview(candidates@[k]),
        decreases candidates@.len() - i,
    {
        kept.push(candidates[i].clone_candidate());
        i = i + 1;
    }
    assert(cviews(kept@) =~= cviews(candidates@));
    cache.store(job, kept);
    let r = limit_candidates(candidates, job.options.max_results);
    assert(cviews(r@) =~= limited(cviews(candidates@), job.options.max_results as int));
    r
}

// ---------------------------------------------------------------------
// The indexed history and templates, and the typo tier
// ---------------------------------------------------------------------

/// The indexes that the worker keeps, with the snapshots they were built
/// from.
pub struct CompletionDataIndex {
    pub history_snapshot: Option<u64>,
    pub history: Vec<IndexedHistoryEntry>,
    pub templates_snapshot: Option<u64>,
    pub templates: Vec<IndexedTemplateEntry>,
}

/// `ih` indexes `h`, entry by entry.
pub open spec fn indexes_all_history(ih: Seq<IndexedHistoryEntry>, h: Seq<HistoryEntry>) -> bool {
    ih.len() == h.len() && forall|k: int| 0 <= k < ih.len() ==> indexes_history(#[trigger] ih[k], h[k])
}

/// `it` indexes `t`, entry by entry.
pub open spec fn indexes_all_templates(it: Seq<IndexedTemplateEntry>, t: Seq<TemplateEntry>) -> bool {
    it.len() == t.len() && forall|k: int| 0 <= k < it.len() ==> indexes_template(#[trigger] it[k], t[k])
}

impl CompletionDataIndex {
    pub fn new() -> (r: Self)
        ensures
            r.history_snapshot is None,
            r.templates_snapshot is None,
    {
        CompletionDataIndex { history_snapshot: None, history: Vec::new(), templates_snapshot: None, templates: Vec::new() }
    }

    /// Rebuilds each index whose snapshot is not the job's.
    pub fn refresh_for_job(&mut self, job: &CompletionJob)
        ensures
            final(self).history_snapshot == Some(job.history_snapshot),
            final(self).templates_snapshot == Some(job.templates_snapshot),
            old(self).history_snapshot == Some(job.history_snapshot) ==> final(self).history == old(self).history,
            old(self).history_snapshot != Some(job.history_snapshot) ==> indexes_all_history(
                final(self).history@,
                job.history_newest_first@,
            ),
            old(self).templates_snapshot == Some(job.templates_snapshot) ==> final(self).templates
                == old(self).templates,
            old(self).templates_snapshot != Some(job.templates_snapshot) ==> indexes_all_templates(
                final(self).templates@,
                job.templates@,
            ),
    {
        if self.history_snapshot != Some(job.history_snapshot) {
            self.history = index_history_entries(job.history_newest_first.as_slice());
            self.history_snapshot = Some(job.history_snapshot);
        }
        if self.templates_snapshot != Some(job.templates_snapshot) {
            self.templates = index_template_entries(job.templates.as_slice());
            self.templates_snapshot = Some(job.templates_snapshot);
        }
    }
}

/// Typo candidates of the history taken in chunks of `size`, chunk after
/// chunk.
pub open spec fn chunk_typos(
    line: Seq<char>,
    cursor: int,
    h: Seq<IndexedHistoryEntry>,
    size: int,
    options: CompletionOptions,
) -> Seq<CandView>
    decreases h.len(),
{
    if h.len() == 0 || size <= 0 {
        seq![]
    } else {
        let k = if size < h.len() {
            size
        } else {
            h.len() as int
        };
        non_first_typo_views(line, cursor, h.take(k), seq![], options) + chunk_typos(
            line,
            cursor,
            h.skip(k),
            size,
            options,
        )
    }
}

/// The typo tier: with one worker or a short history, the typo search on
/// everything; else the templates' candidates, then those of each history
/// chunk (the history cut into `parallelism` chunks), deduplicated and
/// limited.
pub open spec fn typo_tier(
    line: Seq<char>,
    cursor: int,
    history: Seq<IndexedHistoryEntry>,
    templates: Seq<IndexedTemplateEntry>,
    options: CompletionOptions,
    parallelism: int,
) -> Seq<CandView> {
    if parallelism <= 1 || history.len() < 256 {
        non_first_typo_views(line, cursor, history, templates, options)
    } else {
        let size = (history.len() + parallelism - 1) / parallelism;
        limited(
            dedup_views(
                non_first_typo_views(line, cursor, seq![], templates, options) + chunk_typos(
                    line,
                    cursor,
                    history,
                    size,
                    options,
                ),
            ),
            options.max_results as int,
        )
    }
}

/// The typo tier for `job` over the worker's indexes; `parallelism` is how
/// many workers the machine offers, and the history is searched in that
/// many chunks.
pub fn complete_typo_tier(job: &CompletionJob, data_index: &mut CompletionDataIndex, parallelism: usize) -> (r: Vec<
    CompletionCandidate,
>)
    requires
        job.cursor >= byte_len(job.line@) || crate::text::is_boundary(job.line@, job.cursor as int),
    ensures
        final(data_index).history_snapshot == Some(job.history_snapshot),
        final(data_index).templates_snapshot == Some(job.templates_snapshot),
        cviews(r@) == typo_tier(
            job.line@,
            job.cursor as int,
            final(data_index).history@,
            final(data_index).templates@,
            job.options,
            parallelism as int,
        ),
{
    data_index.refresh_for_job(job);
    let history = data_index.history.as_slice();
    let templates = data_index.templates.as_slice();
    let n = history.len();
    if parallelism <= 1 || n < 256 {
        return complete_non_first_token_typos_for_line_with_indexed_options(
            job.line.as_str(),
            job.cursor,
            history,
            templates,
            job.options,
        );
    }
    let q = n / parallelism;
    let ghost ni = n as int;
    let ghost pi = parallelism as int;
    assert(q < n) by (nonlinear_arith)
        requires
            q as int == ni / pi,
            ni == n,
            pi > 1,
            ni >= 256,
    ;
    let size = q + if n % parallelism == 0 {
        0
    } else {
        1
    };
    assert(size as int == (ni + pi - 1) / pi) by (nonlinear_arith)
        requires
            q as int == ni / pi,
            size as int == q as int + if ni % pi == 0 {
                0int
            } else {
                1int
            },
            pi > 1,
            ni >= 0,
    ;
    assert(size > 0) by (nonlinear_arith)
        requires
            size as int == (ni + pi - 1) / pi,
            pi > 1,
            ni >= 256,
    ;
    let empty: Vec<IndexedHistoryEntry> = Vec::new();
    let mut candidates = complete_non_first_token_typos_for_line_with_indexed_options(
        job.line.as_str(),
        job.cursor,
        empty.as_slice(),
        templates,
        job.options,
    );
    assert(empty@ =~= Seq::<IndexedHistoryEntry>::empty());
    let ghost first = cviews(candidates@);
    let no_templates: Vec<IndexedTemplateEntry> = Vec::new();
    assert(no_templates@ =~= Seq::<IndexedTemplateEntry>::empty());
    let mut start: usize = 0;
    assert(history@.skip(0) =~= history@);
    while start < n
        invariant
            start <= n == history@.len(),
            size > 0,
            no_templates@ == Seq::<IndexedTemplateEntry>::empty(),
            job.cursor >= byte_len(job.line@) || crate::text::is_boundary(job.line@, job.cursor as int),
            cviews(candidates@) + chunk_typos(job.line@, job.cursor as int, history@.skip(start as int), size as int, job.options)
                == first + chunk_typos(job.line@, job.cursor as int, history@, size as int, job.options),
        decreases n - start,
    {
        let end = if n - start > size {
            start + size
        } else {
            n
        };
        let chunk = vstd::slice::slice_subrange(history, start, end);
        let ghost rest = history@.skip(start as int);
        assert(rest.take(end - start) =~= chunk@);
        assert(rest.skip(end - start) =~= history@.skip(end as int));
        let mut found = complete_non_first_token_typos_for_line_with_indexed_options(
            job.line.as_str(),
            job.cursor,
            chunk,
            no_templates.as_slice(),
            job.options,
        );
        let ghost before = cviews(candidates@);
        candidates.append(&mut found);
        assert(cviews(candidates@) =~= before + non_first_typo_views(
            job.line@,
            job.cursor as int,
            chunk@,
            seq![],
            job.options,
        ));
        start = end;
    }
    assert(history@.skip(n as int) =~= Seq::<IndexedHistoryEntry>::empty());
    assert(cviews(candidates@) =~= first + chunk_typos(job.line@, job.cursor as int, history@, size as int, job.options));
    proof {
        lemma_dedup_views(candidates@);
    }
    dedupe_completion_candidates(&mut candidates);
    let r = limit_candidates(candidates, job.options.max_results);
    assert(cviews(r@) =~= limited(cviews(candidates@), job.options.max_results as int));
    r
}


/// A message to the completion worker: a job to run, or the order to stop.
pub enum CompletionWorkerMessage {
    Job(CompletionJob),
    Stop,
}

/// The job that is latest among `first` and the queued messages; the
/// queued stops are passed over.
pub open spec fn last_job(first: CompletionJob, queued: Seq<CompletionWorkerMessage>) -> CompletionJob
    decreases queued.len(),
{
    if queued.len() == 0 {
        first
    } else {
        match queued.last() {
            CompletionWorkerMessage::Job(j) => j,
            CompletionWorkerMessage::Stop => last_job(first, queued.drop_last()),
        }
    }
}

pub open spec fn has_stop(queued: Seq<CompletionWorkerMessage>) -> bool {
    exists|k: int| 0 <= k < queued.len() && queued[k] is Stop
}

/// What the worker does after taking `first` and then every message
/// already queued: a stop among them ends it (`None`); else it runs the
/// latest job, which replaces the earlier ones.
pub fn coalesce_jobs(first: CompletionJob, queued: Vec<CompletionWorkerMessage>) -> (r: Option<CompletionJob>)
    ensures
        has_stop(queued@) ==> r is None,
        !has_stop(queued@) ==> r == Some(last_job(first, queued@)),
{
    let ghost all = queued@;
    let mut job = first;
    let mut rest = queued;
    let ghost mut done: int = 0;
    while rest.len() > 0
        invariant
            0 <= done <= all.len(),
            all == queued@,
            rest@ == all.skip(done),
            job == last_job(first, all.take(done)),
            !has_stop(all.take(done)),
        decreases rest.len(),
    {
        let message = rest.remove(0);
        proof {
            assert(all.take(done + 1).drop_last() =~= all.take(done));
            assert(all.take(done + 1).last() == all[done]);
            assert(all.skip(done).drop_first() =~= all.skip(done + 1));
        }
        match message {
            CompletionWorkerMessage::Job(next) => {
                job = next;
            },
            CompletionWorkerMessage::Stop => {
                assert(all[done] is Stop);
                assert(has_stop(all));
                return None;
            },
        }
        proof {
            assert(!has_stop(all.take(done + 1))) by {
                if has_stop(all.take(done + 1)) {
                    let k = choose|k: int| 0 <= k < done + 1 && (#[trigger] all.take(done + 1)[k]) is Stop;
                    if k < done {
                        assert(all.take(done)[k] is Stop);
                    }
                }
            }
            done = done + 1;
        }
    }
    proof {
        assert(all.take(done) =~= all);
    }
    Some(job)
}

} // verus!
