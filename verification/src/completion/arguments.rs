//! Completion of arguments from earlier commands and of template
//! placeholders.
use vstd::prelude::*;
use crate::history::HistoryEntry;
use crate::templates::TemplateEntry;
use super::index::{
    argument_pairs, placeholder_pairs, placeholders_of, template_placeholder_words, word_pairs,
    IndexedHistoryEntry, IndexedTemplateEntry, IndexedTemplatePlaceholder,
};
use super::matching::{matches_completion_prefix_with_threshold, prefix_match};
use super::parser::{command_argument_words, shell_word_value, word_value, ShellWord};
use super::types::{cviews, dedup_views, push_item, somes, CandView, CompletionCandidate, CompletionSource};

verus! {

/// An argument (raw text, value) offered when its value starts with the
/// typed value.
pub open spec fn argument_view(p: (Seq<char>, Seq<char>), typed: Seq<char>, ignore_spaces: bool) -> Option<
    CandView,
> {
    if prefix_match(p.1, typed, ignore_spaces) {
        Some((p.0, p.0, false, CompletionSource::History))
    } else {
        None
    }
}

pub open spec fn argument_items(ps: Seq<(Seq<char>, Seq<char>)>, typed: Seq<char>, ignore_spaces: bool) -> Seq<
    Option<CandView>,
> {
    ps.map_values(|p: (Seq<char>, Seq<char>)| argument_view(p, typed, ignore_spaces))
}

/// The arguments of the commands, newest first, whose value starts with
/// the value of the typed token, each raw text once.
pub open spec fn argument_views(
    per_command: Seq<Seq<(Seq<char>, Seq<char>)>>,
    token: Seq<char>,
    ignore_spaces: bool,
) -> Seq<CandView> {
    dedup_views(somes(argument_items(per_command.flatten(), word_value(token), ignore_spaces)))
}

pub open spec fn history_argument_pairs(history: Seq<HistoryEntry>) -> Seq<Seq<(Seq<char>, Seq<char>)>> {
    history.map_values(|e: HistoryEntry| argument_pairs(e.command@))
}

pub open spec fn indexed_argument_pairs(history: Seq<IndexedHistoryEntry>) -> Seq<
    Seq<(Seq<char>, Seq<char>)>,
> {
    history.map_values(|e: IndexedHistoryEntry| word_pairs(e.arguments@))
}

/// A placeholder (raw word, name) offered when either starts with the
/// typed text.
pub open spec fn placeholder_view(p: (Seq<char>, Seq<char>), typed: Seq<char>, ignore_spaces: bool) -> Option<
    CandView,
> {
    if prefix_match(p.0, typed, ignore_spaces) || prefix_match(p.1, typed, ignore_spaces) {
        Some((p.0, p.0, false, CompletionSource::TemplatePlaceholder))
    } else {
        None
    }
}

pub open spec fn placeholder_items(ps: Seq<(Seq<char>, Seq<char>)>, typed: Seq<char>, ignore_spaces: bool) -> Seq<
    Option<CandView>,
> {
    ps.map_values(|p: (Seq<char>, Seq<char>)| placeholder_view(p, typed, ignore_spaces))
}

/// The placeholders of the templates, in order, whose word or name starts
/// with the typed text, each word once.
pub open spec fn placeholder_views(
    per_template: Seq<Seq<(Seq<char>, Seq<char>)>>,
    typed: Seq<char>,
    ignore_spaces: bool,
) -> Seq<CandView> {
    dedup_views(somes(placeholder_items(per_template.flatten(), typed, ignore_spaces)))
}

pub open spec fn template_placeholder_pairs(templates: Seq<TemplateEntry>) -> Seq<
    Seq<(Seq<char>, Seq<char>)>,
> {
    templates.map_values(|t: TemplateEntry| placeholders_of(t.body@))
}

pub open spec fn indexed_placeholder_pairs(templates: Seq<IndexedTemplateEntry>) -> Seq<
    Seq<(Seq<char>, Seq<char>)>,
> {
    templates.map_values(|t: IndexedTemplateEntry| placeholder_pairs(t.placeholders@))
}

/// The text that an argument's value is matched against: the value of the
/// typed shell word.
pub fn shell_word_match_text(token: &str) -> (r: String)
    ensures
        r@ == word_value(token@),
{
    shell_word_value(token)
}

/// Offers each argument in turn, keeping `out` deduplicated.
fn push_argument_candidates(
    out: &mut Vec<CompletionCandidate>,
    args: &[ShellWord],
    typed: &str,
    ignore_spaces: bool,
    match_threshold_percent: usize,
    Ghost(done): Ghost<Seq<(Seq<char>, Seq<char>)>>,
)
    requires
        cviews(old(out)@) == dedup_views(somes(argument_items(done, typed@, ignore_spaces))),
    ensures
        cviews(final(out)@) == dedup_views(
            somes(argument_items(done + word_pairs(args@), typed@, ignore_spaces)),
        ),
{
    let mut j: usize = 0;
    while j < args.len()
        invariant
            j <= args@.len(),
            cviews(out@) == dedup_views(
                somes(argument_items(done + word_pairs(args@.take(j as int)), typed@, ignore_spaces)),
            ),
        decreases args.len() - j,
    {
        let a = &args[j];
        let item = if matches_completion_prefix_with_threshold(
            a.value.as_str(),
            typed,
            ignore_spaces,
            match_threshold_percent,
        ) {
            Some(
                CompletionCandidate {
                    display: a.raw.clone(),
                    replacement: a.raw.clone(),
                    is_dir: false,
                    source: CompletionSource::History,
                },
            )
        } else {
            None
        };
        let ghost prev = argument_items(done + word_pairs(args@.take(j as int)), typed@, ignore_spaces);
        proof {
            assert(out@.skip(0) =~= out@);
            assert(argument_items(done + word_pairs(args@.take(j + 1)), typed@, ignore_spaces) =~= prev.push(
                argument_view((a.raw@, a.value@), typed@, ignore_spaces),
            ));
        }
        push_item(out, 0, item, Ghost(prev));
        proof {
            assert(out@.skip(0) =~= out@);
        }
        j = j + 1;
    }
    proof {
        assert(args@.take(args@.len() as int) =~= args@);
    }
}

/// Offers each placeholder in turn, keeping `out` deduplicated.
fn push_placeholder_candidates(
    out: &mut Vec<CompletionCandidate>,
    placeholders: &[IndexedTemplatePlaceholder],
    prefix: &str,
    ignore_spaces: bool,
    match_threshold_percent: usize,
    Ghost(done): Ghost<Seq<(Seq<char>, Seq<char>)>>,
)
    requires
        cviews(old(out)@) == dedup_views(somes(placeholder_items(done, prefix@, ignore_spaces))),
    ensures
        cviews(final(out)@) == dedup_views(
            somes(placeholder_items(done + placeholder_pairs(placeholders@), prefix@, ignore_spaces)),
        ),
{
    let mut j: usize = 0;
    while j < placeholders.len()
        invariant
            j <= placeholders@.len(),
            cviews(out@) == dedup_views(
                somes(
                    placeholder_items(
                        done + placeholder_pairs(placeholders@.take(j as int)),
                        prefix@,
                        ignore_spaces,
                    ),
                ),
            ),
        decreases placeholders.len() - j,
    {
        let p = &placeholders[j];
        let item = if matches_completion_prefix_with_threshold(
            p.raw.as_str(),
            prefix,
            ignore_spaces,
            match_threshold_percent,
        ) || matches_completion_prefix_with_threshold(
            p.name.as_str(),
            prefix,
            ignore_spaces,
            match_threshold_percent,
        ) {
            Some(
                CompletionCandidate {
                    display: p.raw.clone(),
                    replacement: p.raw.clone(),
                    is_dir: false,
                    source: CompletionSource::TemplatePlaceholder,
                },
            )
        } else {
            None
        };
        let ghost prev = placeholder_items(
            done + placeholder_pairs(placeholders@.take(j as int)),
            prefix@,
            ignore_spaces,
        );
        proof {
            assert(out@.skip(0) =~= out@);
            assert(placeholder_items(done + placeholder_pairs(placeholders@.take(j + 1)), prefix@, ignore_spaces)
                =~= prev.push(placeholder_view((p.raw@, p.name@), prefix@, ignore_spaces)));
        }
        push_item(out, 0, item, Ghost(prev));
        proof {
            assert(out@.skip(0) =~= out@);
        }
        j = j + 1;
    }
    proof {
        assert(placeholders@.take(placeholders@.len() as int) =~= placeholders@);
    }
}

/// Arguments of earlier commands (newest first) that continue the typed
/// token.
pub fn complete_history_arguments(
    prefix: &str,
    history_newest_first: &[HistoryEntry],
    ignore_spaces: bool,
    match_threshold_percent: usize,
) -> (r: Vec<CompletionCandidate>)
    ensures
        cviews(r@) == argument_views(history_argument_pairs(history_newest_first@), prefix@, ignore_spaces),
{
    let typed = shell_word_match_text(prefix);
    let ghost per = history_argument_pairs(history_newest_first@);
    let mut out: Vec<CompletionCandidate> = Vec::new();
    let mut i: usize = 0;
    proof {
        assert(per.take(0).flatten() =~= Seq::<(Seq<char>, Seq<char>)>::empty());
        assert(cviews(out@) =~= Seq::<CandView>::empty());
    }
    while i < history_newest_first.len()
        invariant
            i <= history_newest_first@.len(),
            per == history_argument_pairs(history_newest_first@),
            typed@ == word_value(prefix@),
            cviews(out@) == dedup_views(somes(argument_items(per.take(i as int).flatten(), typed@, ignore_spaces))),
        decreases history_newest_first.len() - i,
    {
        let args = command_argument_words(history_newest_first[i].command.as_str());
        proof {
            let cmd = history_newest_first@[i as int].command@;
            assert(word_pairs(args@) =~= argument_pairs(cmd));
            assert(per.take(i + 1) =~= per.take(i as int).push(per[i as int]));
            per.take(i as int).lemma_flatten_push(per[i as int]);
        }
        push_argument_candidates(
            &mut out,
            args.as_slice(),
            typed.as_str(),
            ignore_spaces,
            match_threshold_percent,
            Ghost(per.take(i as int).flatten()),
        );
        i = i + 1;
    }
    proof {
        assert(per.take(per.len() as int) =~= per);
    }
    out
}

/// Arguments of earlier commands (newest first), from their precomputed
/// words, that continue the typed token.
pub fn complete_history_arguments_indexed(
    prefix: &str,
    history_newest_first: &[IndexedHistoryEntry],
    ignore_spaces: bool,
    match_threshold_percent: usize,
) -> (r: Vec<CompletionCandidate>)
    ensures
        cviews(r@) == argument_views(indexed_argument_pairs(history_newest_first@), prefix@, ignore_spaces),
{
    let typed = shell_word_match_text(prefix);
    let ghost per = indexed_argument_pairs(history_newest_first@);
    let mut out: Vec<CompletionCandidate> = Vec::new();
    let mut i: usize = 0;
    proof {
        assert(per.take(0).flatten() =~= Seq::<(Seq<char>, Seq<char>)>::empty());
        assert(cviews(out@) =~= Seq::<CandView>::empty());
    }
    while i < history_newest_first.len()
        invariant
            i <= history_newest_first@.len(),
            per == indexed_argument_pairs(history_newest_first@),
            typed@ == word_value(prefix@),
            cviews(out@) == dedup_views(somes(argument_items(per.take(i as int).flatten(), typed@, ignore_spaces))),
        decreases history_newest_first.len() - i,
    {
        proof {
            assert(per.take(i + 1) =~= per.take(i as int).push(per[i as int]));
            per.take(i as int).lemma_flatten_push(per[i as int]);
        }
        push_argument_candidates(
            &mut out,
            history_newest_first[i].arguments.as_slice(),
            typed.as_str(),
            ignore_spaces,
            match_threshold_percent,
            Ghost(per.take(i as int).flatten()),
        );
        i = i + 1;
    }
    proof {
        assert(per.take(per.len() as int) =~= per);
    }
    out
}

/// Placeholder words of the templates that continue the typed text.
pub fn complete_template_placeholders(
    prefix: &str,
    templates: &[TemplateEntry],
    ignore_spaces: bool,
    match_threshold_percent: usize,
) -> (r: Vec<CompletionCandidate>)
    ensures
        cviews(r@) == placeholder_views(template_placeholder_pairs(templates@), prefix@, ignore_spaces),
{
    let ghost per = template_placeholder_pairs(templates@);
    let mut out: Vec<CompletionCandidate> = Vec::new();
    let mut i: usize = 0;
    proof {
        assert(per.take(0).flatten() =~= Seq::<(Seq<char>, Seq<char>)>::empty());
        assert(cviews(out@) =~= Seq::<CandView>::empty());
    }
    while i < templates.len()
        invariant
            i <= templates@.len(),
            per == template_placeholder_pairs(templates@),
            cviews(out@) == dedup_views(somes(placeholder_items(per.take(i as int).flatten(), prefix@, ignore_spaces))),
        decreases templates.len() - i,
    {
        let ps = template_placeholder_words(templates[i].body.as_str());
        proof {
            assert(per.take(i + 1) =~= per.take(i as int).push(per[i as int]));
            per.take(i as int).lemma_flatten_push(per[i as int]);
        }
        push_placeholder_candidates(
            &mut out,
            ps.as_slice(),
            prefix,
            ignore_spaces,
            match_threshold_percent,
            Ghost(per.take(i as int).flatten()),
        );
        i = i + 1;
    }
    proof {
        assert(per.take(per.len() as int) =~= per);
    }
    out
}

/// Placeholder words of the templates, from their precomputed
/// placeholders, that continue the typed text.
pub fn complete_template_placeholders_indexed(
    prefix: &str,
    templates: &[IndexedTemplateEntry],
    ignore_spaces: bool,
    match_threshold_percent: usize,
) -> (r: Vec<CompletionCandidate>)
    ensures
        cviews(r@) == placeholder_views(indexed_placeholder_pairs(templates@), prefix@, ignore_spaces),
{
    let ghost per = indexed_placeholder_pairs(templates@);
    let mut out: Vec<CompletionCandidate> = Vec::new();
    let mut i: usize = 0;
    proof {
        assert(per.take(0).flatten() =~= Seq::<(Seq<char>, Seq<char>)>::empty());
        assert(cviews(out@) =~= Seq::<CandView>::empty());
    }
    while i < templates.len()
        invariant
            i <= templates@.len(),
            per == indexed_placeholder_pairs(templates@),
            cviews(out@) == dedup_views(somes(placeholder_items(per.take(i as int).flatten(), prefix@, ignore_spaces))),
        decreases templates.len() - i,
    {
        proof {
            assert(per.take(i + 1) =~= per.take(i as int).push(per[i as int]));
            per.take(i as int).lemma_flatten_push(per[i as int]);
        }
        push_placeholder_candidates(
            &mut out,
            templates[i].placeholders.as_slice(),
            prefix,
            ignore_spaces,
            match_threshold_percent,
            Ghost(per.take(i as int).flatten()),
        );
        i = i + 1;
    }
    proof {
        assert(per.take(per.len() as int) =~= per);
    }
    out
}

} // verus!
