//! Ordering, deduplication and truncation of candidate lists.
use vstd::prelude::*;
use super::types::{cview, cviews, dedup_views, has_repl, CandView, CompletionCandidate, CompletionSource};

verus! {

/// Rank of a source; lower ranks are shown first.
pub open spec fn source_rank(source: CompletionSource) -> u8 {
    match source {
        CompletionSource::BackendShell => 0,
        CompletionSource::PrivateCommand => 1,
        CompletionSource::TemplateTypo => 9,
        CompletionSource::Template => 10,
        CompletionSource::HistoryTypo => 19,
        CompletionSource::History => 20,
        CompletionSource::Executable => 30,
        CompletionSource::TemplatePlaceholder => 40,
        CompletionSource::Path => 50,
    }
}

/// Rank of a candidate: directories rank just before history.
pub open spec fn candidate_rank(c: CompletionCandidate) -> u8 {
    if c.source == CompletionSource::Path && c.is_dir {
        18
    } else {
        source_rank(c.source)
    }
}

/// All ranks, in increasing order.
pub open spec fn rank_order() -> Seq<u8> {
    seq![0u8, 1, 9, 10, 18, 19, 20, 30, 40, 50]
}

/// The candidates of rank `r`, in their order.
pub open spec fn with_rank(s: Seq<CompletionCandidate>, r: u8) -> Seq<CompletionCandidate> {
    s.filter(|c: CompletionCandidate| candidate_rank(c) == r)
}

/// The candidates of the first `n` ranks of `rank_order`, rank by rank,
/// keeping the order within a rank.
pub open spec fn ranked_prefix(s: Seq<CompletionCandidate>, n: int) -> Seq<CompletionCandidate>
    decreases n,
{
    if n <= 0 {
        seq![]
    } else {
        ranked_prefix(s, n - 1) + with_rank(s, rank_order()[n - 1])
    }
}

/// The candidates stably sorted by rank.
pub open spec fn ranked(s: Seq<CompletionCandidate>) -> Seq<CompletionCandidate> {
    ranked_prefix(s, 10)
}

/// The candidates without those whose replacement an earlier one has.
pub open spec fn dedup_replacements(s: Seq<CompletionCandidate>) -> Seq<CompletionCandidate>
    decreases s.len(),
{
    if s.len() == 0 {
        seq![]
    } else {
        let d = dedup_replacements(s.drop_last());
        if exists|k: int| 0 <= k < s.len() - 1 && (#[trigger] s[k]).replacement@ == s.last().replacement@ {
            d
        } else {
            d.push(s.last())
        }
    }
}

/// Deduplicating candidates is deduplicating their views.
pub proof fn lemma_dedup_views(s: Seq<CompletionCandidate>)
    ensures
        cviews(dedup_replacements(s)) == dedup_views(cviews(s)),
    decreases s.len(),
{
    if s.len() > 0 {
        lemma_dedup_views(s.drop_last());
        assert(cviews(s).drop_last() =~= cviews(s.drop_last()));
        let p = s.drop_last();
        if exists|k: int| 0 <= k < s.len() - 1 && (#[trigger] s[k]).replacement@ == s.last().replacement@ {
            let k = choose|k: int| 0 <= k < s.len() - 1 && (#[trigger] s[k]).replacement@ == s.last().replacement@;
            assert(cviews(p)[k].1 == s.last().replacement@);
        } else {
            assert(!has_repl(cviews(p), s.last().replacement@)) by {
                if has_repl(cviews(p), s.last().replacement@) {
                    let k = choose|k: int| 0 <= k < cviews(p).len() && (#[trigger] cviews(p)[k]).1 == s.last().replacement@;
                    assert(s[k].replacement@ == s.last().replacement@);
                }
            }
            assert(cviews(dedup_replacements(p).push(s.last())) =~= cviews(dedup_replacements(p)).push(cview(s.last())));
        }
    }
}

/// The rank of a candidate's view.
pub open spec fn view_rank(v: CandView) -> u8 {
    if v.3 == CompletionSource::Path && v.2 {
        18
    } else {
        source_rank(v.3)
    }
}

/// Views of the first `n` ranks, rank by rank.
pub open spec fn ranked_views_prefix(s: Seq<CandView>, n: int) -> Seq<CandView>
    decreases n,
{
    if n <= 0 {
        seq![]
    } else {
        ranked_views_prefix(s, n - 1) + s.filter(|v: CandView| view_rank(v) == rank_order()[n - 1])
    }
}

/// Views stably sorted by rank.
pub open spec fn ranked_views(s: Seq<CandView>) -> Seq<CandView> {
    ranked_views_prefix(s, 10)
}

proof fn lemma_cviews_with_rank(s: Seq<CompletionCandidate>, r: u8)
    ensures
        cviews(with_rank(s, r)) == cviews(s).filter(|v: CandView| view_rank(v) == r),
    decreases s.len(),
{
    reveal_with_fuel(Seq::filter, 1);
    if s.len() > 0 {
        lemma_cviews_with_rank(s.drop_last(), r);
        assert(cviews(s).drop_last() =~= cviews(s.drop_last()));
        assert(cviews(s).last() == cview(s.last()));
        let f = s.drop_last().filter(|c: CompletionCandidate| candidate_rank(c) == r);
        if candidate_rank(s.last()) == r {
            assert(cviews(f.push(s.last())) =~= cviews(f).push(cview(s.last())));
        }
    }
}

proof fn lemma_cviews_ranked_prefix(s: Seq<CompletionCandidate>, n: int)
    ensures
        cviews(ranked_prefix(s, n)) == ranked_views_prefix(cviews(s), n),
    decreases n,
{
    if n > 0 {
        lemma_cviews_ranked_prefix(s, n - 1);
        lemma_cviews_with_rank(s, rank_order()[n - 1]);
        assert(cviews(ranked_prefix(s, n - 1) + with_rank(s, rank_order()[n - 1])) =~= cviews(ranked_prefix(s, n - 1))
            + cviews(with_rank(s, rank_order()[n - 1])));
    }
}

/// Ranking candidates is ranking their views.
pub proof fn lemma_cviews_ranked(s: Seq<CompletionCandidate>)
    ensures
        cviews(ranked(s)) == ranked_views(cviews(s)),
{
    lemma_cviews_ranked_prefix(s, 10);
}

/// No two candidates share a replacement.
pub open spec fn distinct_replacements(s: Seq<CompletionCandidate>) -> bool {
    forall|i: int, j: int| 0 <= i < j < s.len() ==> (#[trigger] s[i]).replacement@ != (#[trigger] s[j]).replacement@
}

proof fn lemma_dedup_members(s: Seq<CompletionCandidate>)
    ensures
        forall|i: int|
            0 <= i < dedup_replacements(s).len() ==> exists|k: int|
                0 <= k < s.len() && s[k] == #[trigger] dedup_replacements(s)[i],
    decreases s.len(),
{
    if s.len() > 0 {
        let p = s.drop_last();
        lemma_dedup_members(p);
        let d = dedup_replacements(p);
        assert forall|i: int| 0 <= i < dedup_replacements(s).len() implies exists|k: int|
            0 <= k < s.len() && s[k] == #[trigger] dedup_replacements(s)[i] by {
            if i < d.len() {
                let k = choose|k: int| 0 <= k < p.len() && p[k] == #[trigger] d[i];
                assert(s[k] == p[k]);
                assert(dedup_replacements(s)[i] == d[i]);
            } else {
                assert(dedup_replacements(s)[i] == s.last());
                assert(s[s.len() - 1] == s.last());
            }
        }
    }
}

proof fn lemma_dedup_distinct(s: Seq<CompletionCandidate>)
    ensures
        distinct_replacements(dedup_replacements(s)),
    decreases s.len(),
{
    if s.len() > 0 {
        let p = s.drop_last();
        lemma_dedup_distinct(p);
        lemma_dedup_members(p);
        let d = dedup_replacements(p);
        if !(exists|k: int| 0 <= k < s.len() - 1 && (#[trigger] s[k]).replacement@ == s.last().replacement@) {
            let t = d.push(s.last());
            assert forall|i: int, j: int| 0 <= i < j < t.len() implies (#[trigger] t[i]).replacement@
                != (#[trigger] t[j]).replacement@ by {
                if j == t.len() - 1 {
                    assert(t[i] == d[i]);
                    let k = choose|k: int| 0 <= k < p.len() && p[k] == #[trigger] d[i];
                    assert(s[k] == p[k]);
                } else {
                    assert(t[i] == d[i] && t[j] == d[j]);
                }
            }
        }
    }
}

proof fn lemma_dedup_keeps_distinct(s: Seq<CompletionCandidate>)
    requires
        distinct_replacements(s),
    ensures
        dedup_replacements(s) == s,
    decreases s.len(),
{
    if s.len() > 0 {
        let p = s.drop_last();
        assert(distinct_replacements(p)) by {
            assert forall|i: int, j: int| 0 <= i < j < p.len() implies (#[trigger] p[i]).replacement@
                != (#[trigger] p[j]).replacement@ by {
                assert(p[i] == s[i] && p[j] == s[j]);
            }
        }
        lemma_dedup_keeps_distinct(p);
        assert(!(exists|k: int| 0 <= k < s.len() - 1 && (#[trigger] s[k]).replacement@ == s.last().replacement@))
            by {
            if exists|k: int| 0 <= k < s.len() - 1 && (#[trigger] s[k]).replacement@ == s.last().replacement@ {
                let k = choose|k: int| 0 <= k < s.len() - 1 && (#[trigger] s[k]).replacement@ == s.last().replacement@;
                assert(s[k].replacement@ != s[s.len() - 1].replacement@);
            }
        }
        assert(p.push(s.last()) =~= s);
    }
}

/// Deduplicating candidates leaves no two with the same replacement, and
/// deduplicating again changes nothing.
pub proof fn dedupe_is_idempotent(s: Seq<CompletionCandidate>)
    ensures
        distinct_replacements(dedup_replacements(s)),
        dedup_replacements(dedup_replacements(s)) == dedup_replacements(s),
{
    lemma_dedup_distinct(s);
    lemma_dedup_keeps_distinct(dedup_replacements(s));
}

/// Limiting keeps at most `max` candidates, the leading ones, and a list
/// within the limit is kept whole.
pub proof fn limit_keeps_leading_candidates<T>(s: Seq<T>, max: int)
    requires
        max >= 0,
    ensures
        limited(s, max).len() <= max,
        limited(s, max) == s.take(limited(s, max).len() as int),
        s.len() <= max ==> limited(s, max) == s,
{
    assert(s.take(s.len() as int) =~= s);
}

/// At most `max` leading candidates.
pub open spec fn limited<T>(s: Seq<T>, max: int) -> Seq<T> {
    if s.len() <= max {
        s
    } else {
        s.take(max)
    }
}

pub fn completion_source_rank(source: CompletionSource) -> (r: u8)
    ensures
        r == source_rank(source),
{
    match source {
        CompletionSource::BackendShell => 0,
        CompletionSource::PrivateCommand => 1,
        CompletionSource::TemplateTypo => 9,
        CompletionSource::Template => 10,
        CompletionSource::HistoryTypo => 19,
        CompletionSource::History => 20,
        CompletionSource::Executable => 30,
        CompletionSource::TemplatePlaceholder => 40,
        CompletionSource::Path => 50,
    }
}

pub fn completion_candidate_rank(candidate: &CompletionCandidate) -> (r: u8)
    ensures
        r == candidate_rank(*candidate),
{
    if candidate.source == CompletionSource::Path && candidate.is_dir {
        return 18;
    }
    completion_source_rank(candidate.source)
}

/// Sorts the candidates by rank, keeping the order of equal ranks.
pub fn rank_completion_candidates(candidates: &mut Vec<CompletionCandidate>)
    ensures
        final(candidates)@ == ranked(old(candidates)@),
{
    let order: [u8; 10] = [0, 1, 9, 10, 18, 19, 20, 30, 40, 50];
    proof {
        assert(order@ =~= rank_order());
    }
    let ghost s = candidates@;
    let mut out: Vec<CompletionCandidate> = Vec::new();
    let mut n: usize = 0;
    while n < 10
        invariant
            n <= 10,
            order@ == rank_order(),
            candidates@ == s,
            out@ == ranked_prefix(s, n as int),
        decreases 10 - n,
    {
        let r = order[n];
        let mut i: usize = 0;
        let ghost base = out@;
        while i < candidates.len()
            invariant
                i <= candidates@.len(),
                candidates@ == s,
                out@ == base + with_rank(s.take(i as int), r),
            decreases candidates.len() - i,
        {
            proof {
                assert(s.take(i + 1).drop_last() =~= s.take(i as int));
                reveal_with_fuel(Seq::filter, 1);
            }
            if completion_candidate_rank(&candidates[i]) == r {
                out.push(candidates[i].clone_candidate());
            }
            i = i + 1;
            proof {
                assert(out@ =~= base + with_rank(s.take(i as int), r));
            }
        }
        proof {
            assert(s.take(s.len() as int) =~= s);
        }
        n = n + 1;
    }
    *candidates = out;
}

/// Drops candidates whose replacement an earlier candidate has.
pub fn dedupe_completion_candidates(candidates: &mut Vec<CompletionCandidate>)
    ensures
        final(candidates)@ == dedup_replacements(old(candidates)@),
{
    let ghost s = candidates@;
    let mut out: Vec<CompletionCandidate> = Vec::new();
    let mut i: usize = 0;
    while i < candidates.len()
        invariant
            i <= candidates@.len(),
            candidates@ == s,
            out@ == dedup_replacements(s.take(i as int)),
        decreases candidates.len() - i,
    {
        let mut seen = false;
        let mut k: usize = 0;
        while k < i
            invariant
                k <= i < candidates@.len(),
                candidates@ == s,
                seen == exists|j: int| 0 <= j < k && (#[trigger] s[j]).replacement@ == s[i as int].replacement@,
            decreases i - k,
        {
            if candidates[k].replacement == candidates[i].replacement {
                seen = true;
            }
            k = k + 1;
        }
        proof {
            let t = s.take(i + 1);
            assert(t.drop_last() =~= s.take(i as int));
            assert(t.last() == s[i as int]);
            assert forall|j: int| 0 <= j < t.len() - 1 implies t[j] == s[j] by {}
        }
        if !seen {
            out.push(candidates[i].clone_candidate());
        }
        i = i + 1;
        proof {
            assert(out@ =~= dedup_replacements(s.take(i as int)));
        }
    }
    proof {
        assert(s.take(s.len() as int) =~= s);
    }
    *candidates = out;
}

/// At most `max_results` leading candidates.
pub fn limit_candidates(candidates: Vec<CompletionCandidate>, max_results: usize) -> (r: Vec<
    CompletionCandidate,
>)
    ensures
        r@ == limited(candidates@, max_results as int),
{
    let mut candidates = candidates;
    candidates.truncate(max_results);
    candidates
}

} // verus!
