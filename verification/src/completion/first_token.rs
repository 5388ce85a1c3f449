//! Completion of the first token of a line: whole templates, whole history
//! commands and executables.
use vstd::prelude::*;
use crate::history::HistoryEntry;
use crate::templates::TemplateEntry;
use crate::text::{has_prefix, starts_with, str_chars};
use super::matching::{prefix_match, CompletionMatcher};
use super::ranking::{limit_candidates, limited};
use super::types::{
    cview, cviews, dedup_views, lemma_dedup_push, plain_candidate, plain_views, push_unique,
    CandView, CompletionCandidate, CompletionOptions, CompletionSource,
};

verus! {

/// The texts whose flag is set, in order.
pub open spec fn select(texts: Seq<Seq<char>>, flags: Seq<bool>) -> Seq<Seq<char>>
    decreases texts.len(),
{
    if texts.len() == 0 {
        seq![]
    } else {
        let p = select(texts.drop_last(), flags);
        if flags[texts.len() - 1] {
            p.push(texts.last())
        } else {
            p
        }
    }
}

/// Selecting by flags that hold exactly where `pred` does is filtering by
/// `pred`.
pub proof fn lemma_select_filter(texts: Seq<Seq<char>>, flags: Seq<bool>, pred: spec_fn(Seq<char>) -> bool)
    requires
        flags.len() >= texts.len(),
        forall|k: int| 0 <= k < texts.len() ==> flags[k] == pred(#[trigger] texts[k]),
    ensures
        select(texts, flags) == texts.filter(pred),
    decreases texts.len(),
{
    reveal_with_fuel(Seq::filter, 1);
    if texts.len() > 0 {
        lemma_select_filter(texts.drop_last(), flags, pred);
    }
}

pub open spec fn bodies(t: Seq<TemplateEntry>) -> Seq<Seq<char>> {
    t.map_values(|e: TemplateEntry| e.body@)
}

pub open spec fn commands(h: Seq<HistoryEntry>) -> Seq<Seq<char>> {
    h.map_values(|e: HistoryEntry| e.command@)
}

pub open spec fn names(v: Seq<String>) -> Seq<Seq<char>> {
    v.map_values(|s: String| s@)
}

/// Candidates for the selected texts, deduplicated when asked.
pub fn collect_plain(
    out: &mut Vec<CompletionCandidate>,
    texts: &[String],
    flags: &[bool],
    source: CompletionSource,
    unique: bool,
)
    requires
        flags@.len() == texts@.len(),
    ensures
        cviews(final(out)@) == cviews(old(out)@) + if unique {
            dedup_views(plain_views(select(names(texts@), flags@), source))
        } else {
            plain_views(select(names(texts@), flags@), source)
        },
{
    let base = out.len();
    let ghost start = out@;
    let mut i: usize = 0;
    while i < texts.len()
        invariant
            i <= texts@.len(),
            flags@.len() == texts@.len(),
            base == start.len(),
            out@.len() >= base,
            out@.take(base as int) == start,
            cviews(out@.skip(base as int)) == if unique {
                dedup_views(plain_views(select(names(texts@.take(i as int)), flags@), source))
            } else {
                plain_views(select(names(texts@.take(i as int)), flags@), source)
            },
        decreases texts.len() - i,
    {
        let ghost before = out@;
        let ghost ts = names(texts@.take(i as int));
        let ghost ts2 = names(texts@.take(i + 1));
        proof {
            assert(ts2.drop_last() =~= ts);
            assert(ts2.last() == texts@[i as int]@);
        }
        if flags[i] {
            let c = plain_candidate(&texts[i], source);
            proof {
                assert(select(ts2, flags@) == select(ts, flags@).push(texts@[i as int]@));
                assert(plain_views(select(ts2, flags@), source) =~= plain_views(select(ts, flags@), source).push(
                    cview(c),
                ));
                lemma_dedup_push(plain_views(select(ts, flags@), source), cview(c));
            }
            if unique {
                push_unique(out, base, c);
            } else {
                out.push(c);
            }
            proof {
                assert(out@.take(base as int) =~= start);
                if out@.len() > before.len() {
                    assert(cviews(out@.skip(base as int)) =~= cviews(before.skip(base as int)).push(cview(c)));
                } else {
                    assert(out@ == before);
                }
            }
        } else {
            proof {
                assert(select(ts2, flags@) == select(ts, flags@));
            }
        }
        i = i + 1;
    }
    proof {
        assert(texts@.take(texts@.len() as int) =~= texts@);
        assert(out@ =~= start + out@.skip(base as int));
        assert(cviews(out@) =~= cviews(start) + cviews(out@.skip(base as int)));
    }
}

/// Template bodies, newest first.
pub fn template_bodies_newest_first(templates: &[TemplateEntry]) -> (r: Vec<String>)
    ensures
        names(r@) == bodies(templates@).reverse(),
{
    let mut r: Vec<String> = Vec::new();
    let mut i: usize = templates.len();
    while i > 0
        invariant
            i <= templates@.len(),
            names(r@) == bodies(templates@).reverse().take(templates@.len() - i),
        decreases i,
    {
        i = i - 1;
        let ghost old_r = r@;
        r.push(templates[i].body.clone());
        proof {
            assert(names(r@) =~= names(old_r).push(templates@[i as int].body@));
            assert(bodies(templates@).reverse().take(templates@.len() - i) =~= bodies(
                templates@,
            ).reverse().take(templates@.len() - i - 1).push(templates@[i as int].body@));
        }
    }
    proof {
        assert(bodies(templates@).reverse().take(templates@.len() as int) =~= bodies(templates@).reverse());
    }
    r
}

/// History commands in the given order.
pub fn history_commands(history: &[HistoryEntry]) -> (r: Vec<String>)
    ensures
        names(r@) == commands(history@),
{
    let mut r: Vec<String> = Vec::new();
    let mut i: usize = 0;
    while i < history.len()
        invariant
            i <= history@.len(),
            names(r@) == commands(history@).take(i as int),
        decreases history.len() - i,
    {
        let ghost old_r = r@;
        r.push(history[i].command.clone());
        proof {
            assert(names(r@) =~= names(old_r).push(history@[i as int].command@));
            assert(commands(history@).take(i + 1) =~= commands(history@).take(i as int).push(
                history@[i as int].command@,
            ));
        }
        i = i + 1;
    }
    proof {
        assert(commands(history@).take(history@.len() as int) =~= commands(history@));
    }
    r
}

/// Flags for the texts that complete `prefix`.
fn prefix_flags(texts: &[String], prefix: &str, matcher: &CompletionMatcher) -> (r: Vec<bool>)
    ensures
        r@.len() == texts@.len(),
        forall|k: int|
            0 <= k < texts@.len() ==> r@[k] == prefix_match(
                #[trigger] names(texts@)[k],
                prefix@,
                matcher.ignore_spaces,
            ),
{
    let mut r: Vec<bool> = Vec::new();
    let mut i: usize = 0;
    while i < texts.len()
        invariant
            i <= texts@.len(),
            r@.len() == i,
            forall|k: int|
                0 <= k < i ==> r@[k] == prefix_match(
                    #[trigger] names(texts@)[k],
                    prefix@,
                    matcher.ignore_spaces,
                ),
        decreases texts.len() - i,
    {
        r.push(matcher.prefix_matches(texts[i].as_str(), prefix));
        i = i + 1;
    }
    r
}

/// Flags for the names that start with `prefix`.
fn starts_flags(texts: &[String], prefix: &str) -> (r: Vec<bool>)
    ensures
        r@.len() == texts@.len(),
        forall|k: int| 0 <= k < texts@.len() ==> r@[k] == has_prefix(#[trigger] names(texts@)[k], prefix@),
{
    let p = str_chars(prefix);
    let mut r: Vec<bool> = Vec::new();
    let mut i: usize = 0;
    while i < texts.len()
        invariant
            i <= texts@.len(),
            p@ == prefix@,
            r@.len() == i,
            forall|k: int| 0 <= k < i ==> r@[k] == has_prefix(#[trigger] names(texts@)[k], prefix@),
        decreases texts.len() - i,
    {
        let t = str_chars(texts[i].as_str());
        r.push(starts_with(t.as_slice(), p.as_slice()));
        i = i + 1;
    }
    r
}

/// Whole templates (newest first) that the prefix matches, one per body.
pub open spec fn template_views(templates: Seq<TemplateEntry>, prefix: Seq<char>, ignore_spaces: bool) -> Seq<
    CandView,
> {
    dedup_views(
        plain_views(
            bodies(templates).reverse().filter(|b: Seq<char>| prefix_match(b, prefix, ignore_spaces)),
            CompletionSource::Template,
        ),
    )
}

/// History commands that the prefix matches, one per command.
pub open spec fn history_views(history: Seq<HistoryEntry>, prefix: Seq<char>, ignore_spaces: bool) -> Seq<
    CandView,
> {
    dedup_views(
        plain_views(
            commands(history).filter(|c: Seq<char>| prefix_match(c, prefix, ignore_spaces)),
            CompletionSource::History,
        ),
    )
}

/// Executable names that start with the prefix.
pub open spec fn executable_views(executables: Seq<String>, prefix: Seq<char>) -> Seq<CandView> {
    if prefix.len() == 0 {
        seq![]
    } else {
        plain_views(
            names(executables).filter(|n: Seq<char>| has_prefix(n, prefix)),
            CompletionSource::Executable,
        )
    }
}

fn push_templates(out: &mut Vec<CompletionCandidate>, prefix: &str, templates: &[TemplateEntry], matcher: &CompletionMatcher)
    ensures
        cviews(final(out)@) == cviews(old(out)@) + template_views(templates@, prefix@, matcher.ignore_spaces),
{
    let texts = template_bodies_newest_first(templates);
    let flags = prefix_flags(texts.as_slice(), prefix, matcher);
    proof {
        lemma_select_filter(names(texts@), flags@, |b: Seq<char>| prefix_match(b, prefix@, matcher.ignore_spaces));
    }
    collect_plain(out, texts.as_slice(), flags.as_slice(), CompletionSource::Template, true);
}

fn push_history(out: &mut Vec<CompletionCandidate>, prefix: &str, history: &[HistoryEntry], matcher: &CompletionMatcher)
    ensures
        cviews(final(out)@) == cviews(old(out)@) + history_views(history@, prefix@, matcher.ignore_spaces),
{
    let texts = history_commands(history);
    let flags = prefix_flags(texts.as_slice(), prefix, matcher);
    proof {
        lemma_select_filter(names(texts@), flags@, |c: Seq<char>| prefix_match(c, prefix@, matcher.ignore_spaces));
    }
    collect_plain(out, texts.as_slice(), flags.as_slice(), CompletionSource::History, true);
}

/// Executables whose name starts with the (non-empty) prefix.
pub fn complete_first_token_executables_from_names_with_options(
    prefix: &str,
    executables: &[String],
    options: CompletionOptions,
) -> (r: Vec<CompletionCandidate>)
    ensures
        cviews(r@) == limited(executable_views(executables@, prefix@), options.max_results as int),
{
    let mut out: Vec<CompletionCandidate> = Vec::new();
    if prefix.is_empty() {
        proof {
            assert(cviews(out@) =~= Seq::<CandView>::empty());
        }
        return out;
    }
    let flags = starts_flags(executables, prefix);
    proof {
        lemma_select_filter(names(executables@), flags@, |n: Seq<char>| has_prefix(n, prefix@));
    }
    collect_plain(&mut out, executables, flags.as_slice(), CompletionSource::Executable, false);
    proof {
        assert(cviews(out@) =~= plain_views(
            names(executables@).filter(|n: Seq<char>| has_prefix(n, prefix@)),
            CompletionSource::Executable,
        ));
    }
    let r = limit_candidates(out, options.max_results);
    proof {
        assert(cviews(r@) =~= limited(cviews(out@), options.max_results as int));
    }
    r
}

/// First-token candidates: templates, then history, then executables
/// (the names found on the search path), at most `max_results` of them.
pub open spec fn first_token_views(
    prefix: Seq<char>,
    templates: Seq<TemplateEntry>,
    history: Seq<HistoryEntry>,
    executables: Seq<String>,
    options: CompletionOptions,
) -> Seq<CandView> {
    if prefix.len() == 0 {
        seq![]
    } else {
        limited(
            template_views(templates, prefix, options.ignore_spaces) + history_views(
                history,
                prefix,
                options.ignore_spaces,
            ) + executable_views(executables, prefix),
            options.max_results as int,
        )
    }
}

/// See `first_token_views`.
pub fn complete_first_token_with_options(
    prefix: &str,
    templates: &[TemplateEntry],
    history_newest_first: &[HistoryEntry],
    executables: &[String],
    options: CompletionOptions,
) -> (r: Vec<CompletionCandidate>)
    ensures
        cviews(r@) == first_token_views(prefix@, templates@, history_newest_first@, executables@, options),
{
    let mut out: Vec<CompletionCandidate> = Vec::new();
    if prefix.is_empty() {
        proof {
            assert(cviews(out@) =~= Seq::<CandView>::empty());
        }
        return out;
    }
    let matcher = CompletionMatcher::new(
        options.ignore_spaces,
        options.match_threshold_percent,
        options.typo_threshold_percent,
    );
    push_templates(&mut out, prefix, templates, &matcher);
    push_history(&mut out, prefix, history_newest_first, &matcher);
    let all_options = CompletionOptions {
        max_results: usize::MAX,
        ignore_spaces: false,
        fuzzy_enabled: true,
        match_threshold_percent: 50,
        typo_threshold_percent: 80,
    };
    let mut exec = complete_first_token_executables_from_names_with_options(prefix, executables, all_options);
    let ghost before = out@;
    let ghost ex = exec@;
    out.append(&mut exec);
    proof {
        assert(cviews(out@) =~= cviews(before) + cviews(ex));
    }
    let r = limit_candidates(out, options.max_results);
    proof {
        assert(cviews(r@) =~= limited(cviews(out@), options.max_results as int));
    }
    r
}

pub fn complete_first_token(
    prefix: &str,
    templates: &[TemplateEntry],
    history_newest_first: &[HistoryEntry],
    executables: &[String],
) -> (r: Vec<CompletionCandidate>)
    ensures
        cviews(r@) == first_token_views(
            prefix@,
            templates@,
            history_newest_first@,
            executables@,
            CompletionOptions {
                max_results: usize::MAX,
                ignore_spaces: false,
                fuzzy_enabled: true,
                match_threshold_percent: 50,
                typo_threshold_percent: 80,
            },
        ),
{
    complete_first_token_with_options(
        prefix,
        templates,
        history_newest_first,
        executables,
        CompletionOptions {
            max_results: usize::MAX,
            ignore_spaces: false,
            fuzzy_enabled: true,
            match_threshold_percent: 50,
            typo_threshold_percent: 80,
        },
    )
}

/// History commands that complete a non-empty prefix.
pub fn complete_first_token_history_with_options(
    prefix: &str,
    history_newest_first: &[HistoryEntry],
    options: CompletionOptions,
) -> (r: Vec<CompletionCandidate>)
    ensures
        cviews(r@) == if prefix@.len() == 0 {
            seq![]
        } else {
            limited(history_views(history_newest_first@, prefix@, options.ignore_spaces), options.max_results as int)
        },
{
    let mut out: Vec<CompletionCandidate> = Vec::new();
    if prefix.is_empty() {
        proof {
            assert(cviews(out@) =~= Seq::<CandView>::empty());
        }
        return out;
    }
    let matcher = CompletionMatcher::new(
        options.ignore_spaces,
        options.match_threshold_percent,
        options.typo_threshold_percent,
    );
    push_history(&mut out, prefix, history_newest_first, &matcher);
    proof {
        assert(cviews(out@) =~= history_views(history_newest_first@, prefix@, options.ignore_spaces));
    }
    let r = limit_candidates(out, options.max_results);
    proof {
        assert(cviews(r@) =~= limited(cviews(out@), options.max_results as int));
    }
    r
}

/// Whole templates that complete a non-empty prefix.
pub fn complete_first_token_templates_with_options(
    prefix: &str,
    templates: &[TemplateEntry],
    options: CompletionOptions,
) -> (r: Vec<CompletionCandidate>)
    ensures
        cviews(r@) == if prefix@.len() == 0 {
            seq![]
        } else {
            limited(template_views(templates@, prefix@, options.ignore_spaces), options.max_results as int)
        },
{
    let mut out: Vec<CompletionCandidate> = Vec::new();
    if prefix.is_empty() {
        proof {
            assert(cviews(out@) =~= Seq::<CandView>::empty());
        }
        return out;
    }
    let matcher = CompletionMatcher::new(
        options.ignore_spaces,
        options.match_threshold_percent,
        options.typo_threshold_percent,
    );
    push_templates(&mut out, prefix, templates, &matcher);
    proof {
        assert(cviews(out@) =~= template_views(templates@, prefix@, options.ignore_spaces));
    }
    let r = limit_candidates(out, options.max_results);
    proof {
        assert(cviews(r@) =~= limited(cviews(out@), options.max_results as int));
    }
    r
}

} // verus!
