//! Typo correction: whole commands and templates whose words are close to
//! what was typed.
use vstd::prelude::*;
use crate::history::HistoryEntry;
use crate::templates::TemplateEntry;
use crate::text::{chars_eq, floor_index, is_boundary, str_chars, sub_chars, char_index_at_or_before};
use super::index::{
    index_history_entries, index_template_entries, indexes_history, indexes_template,
    IndexedHistoryEntry, IndexedTemplateEntry,
};
use super::matching::{
    similarity, template_words_match_threshold_with_typos, typo_similarity_percent, views,
    word_prefix_match, word_prefix_matches, words_match_threshold_with_typos, words_threshold_typos,
    WordRule,
};
use super::parser::{current_token_context, lex, split_shell_like_words, token_text, word_values};
use super::ranking::{dedup_replacements, dedupe_completion_candidates, lemma_dedup_views, limit_candidates, limited};
use super::structural::current_word_index;
use super::types::{
    cviews, dedup_views, push_item, somes, CandView, CompletionCandidate, CompletionOptions,
    CompletionSource,
};

verus! {

/// The first word is close to the typed prefix without completing it.
pub open spec fn first_word_typo(ws: Seq<Seq<char>>, prefix: Seq<char>, options: CompletionOptions) -> bool {
    ws.len() > 0 && !word_prefix_match(ws[0], prefix, options.ignore_spaces) && similarity(
        ws[0],
        prefix,
        options.ignore_spaces,
    ) >= options.typo_threshold_percent
}

pub open spec fn first_typo_template(e: IndexedTemplateEntry, prefix: Seq<char>, options: CompletionOptions) -> Option<
    CandView,
> {
    if first_word_typo(views(e.words@), prefix, options) {
        Some((e.entry.body@, e.entry.body@, false, CompletionSource::TemplateTypo))
    } else {
        None
    }
}

pub open spec fn first_typo_history(e: IndexedHistoryEntry, prefix: Seq<char>, options: CompletionOptions) -> Option<
    CandView,
> {
    if first_word_typo(views(e.words@), prefix, options) {
        Some((e.entry.command@, e.entry.command@, false, CompletionSource::HistoryTypo))
    } else {
        None
    }
}

/// Whole templates (newest first) and commands whose first word is a typo
/// of the prefix.
pub open spec fn first_token_typo_views(
    prefix: Seq<char>,
    history: Seq<IndexedHistoryEntry>,
    templates: Seq<IndexedTemplateEntry>,
    options: CompletionOptions,
) -> Seq<CandView> {
    if !options.fuzzy_enabled || prefix.len() == 0 {
        seq![]
    } else {
        limited(
            dedup_views(
                somes(
                    templates.reverse().map_values(
                        |e: IndexedTemplateEntry| first_typo_template(e, prefix, options),
                    ),
                ),
            ) + dedup_views(
                somes(history.map_values(|e: IndexedHistoryEntry| first_typo_history(e, prefix, options))),
            ),
            options.max_results as int,
        )
    }
}

fn first_word_is_typo(words: &[String], prefix: &str, options: CompletionOptions) -> (r: bool)
    ensures
        r == first_word_typo(views(words@), prefix@, options),
{
    if words.len() == 0 {
        return false;
    }
    !word_prefix_matches(words[0].as_str(), prefix, options.ignore_spaces) && typo_similarity_percent(
        words[0].as_str(),
        prefix,
        options.ignore_spaces,
    ) >= options.typo_threshold_percent
}

pub fn complete_first_token_typos_with_indexed_options(
    prefix: &str,
    history_newest_first: &[IndexedHistoryEntry],
    templates: &[IndexedTemplateEntry],
    options: CompletionOptions,
) -> (r: Vec<CompletionCandidate>)
    ensures
        cviews(r@) == first_token_typo_views(prefix@, history_newest_first@, templates@, options),
{
    let mut out: Vec<CompletionCandidate> = Vec::new();
    if !options.fuzzy_enabled || prefix.is_empty() {
        proof {
            assert(cviews(out@) =~= Seq::<CandView>::empty());
        }
        return out;
    }
    let ghost ft = |e: IndexedTemplateEntry| first_typo_template(e, prefix@, options);
    let ghost rev = templates@.reverse();
    let mut i: usize = 0;
    while i < templates.len()
        invariant
            i <= templates@.len(),
            rev == templates@.reverse(),
            ft == (|e: IndexedTemplateEntry| first_typo_template(e, prefix@, options)),
            cviews(out@.skip(0)) == dedup_views(somes(rev.take(i as int).map_values(ft))),
        decreases templates.len() - i,
    {
        let j = templates.len() - 1 - i;
        let e = &templates[j];
        proof {
            assert(rev[i as int] == templates@[j as int]);
        }
        let item = if first_word_is_typo(e.words.as_slice(), prefix, options) {
            Some(
                CompletionCandidate {
                    display: e.entry.body.clone(),
                    replacement: e.entry.body.clone(),
                    is_dir: false,
                    source: CompletionSource::TemplateTypo,
                },
            )
        } else {
            None
        };
        proof {
            assert(rev.take(i + 1).map_values(ft) =~= rev.take(i as int).map_values(ft).push(ft(rev[i as int])));
        }
        push_item(&mut out, 0, item, Ghost(rev.take(i as int).map_values(ft)));
        i = i + 1;
    }
    proof {
        assert(rev.take(rev.len() as int) =~= rev);
        assert(out@.skip(0) =~= out@);
    }
    let base = out.len();
    let ghost start = out@;
    let ghost fh = |e: IndexedHistoryEntry| first_typo_history(e, prefix@, options);
    let mut i: usize = 0;
    proof {
        assert(out@.skip(base as int) =~= Seq::<CompletionCandidate>::empty());
        assert(history_newest_first@.take(0).map_values(fh) =~= Seq::<Option<CandView>>::empty());
    }
    while i < history_newest_first.len()
        invariant
            i <= history_newest_first@.len(),
            base == start.len(),
            out@.len() >= base,
            out@.take(base as int) == start,
            fh == (|e: IndexedHistoryEntry| first_typo_history(e, prefix@, options)),
            cviews(out@.skip(base as int)) == dedup_views(somes(history_newest_first@.take(i as int).map_values(fh))),
        decreases history_newest_first.len() - i,
    {
        let e = &history_newest_first[i];
        let item = if first_word_is_typo(e.words.as_slice(), prefix, options) {
            Some(
                CompletionCandidate {
                    display: e.entry.command.clone(),
                    replacement: e.entry.command.clone(),
                    is_dir: false,
                    source: CompletionSource::HistoryTypo,
                },
            )
        } else {
            None
        };
        proof {
            assert(history_newest_first@.take(i + 1).map_values(fh) =~= history_newest_first@.take(
                i as int,
            ).map_values(fh).push(fh(history_newest_first@[i as int])));
        }
        push_item(&mut out, base, item, Ghost(history_newest_first@.take(i as int).map_values(fh)));
        i = i + 1;
    }
    proof {
        assert(history_newest_first@.take(history_newest_first@.len() as int) =~= history_newest_first@);
        assert(out@ =~= start + out@.skip(base as int));
        assert(cviews(out@) =~= cviews(start) + cviews(out@.skip(base as int)));
    }
    let r = limit_candidates(out, options.max_results);
    proof {
        assert(cviews(r@) =~= limited(cviews(out@), options.max_results as int));
    }
    r
}

pub open spec fn line_typo_template(
    e: IndexedTemplateEntry,
    line: Seq<char>,
    before: Seq<Seq<char>>,
    idx: int,
    options: CompletionOptions,
) -> Option<CandView> {
    let ws = views(e.words@);
    if ws.len() > idx && words_threshold_typos(
        WordRule::Template,
        ws,
        before,
        options.ignore_spaces,
        options.match_threshold_percent as int,
        options.typo_threshold_percent as int,
    ) && e.entry.body@ != line {
        Some((e.entry.body@, e.entry.body@, false, CompletionSource::TemplateTypo))
    } else {
        None
    }
}

pub open spec fn line_typo_history(
    e: IndexedHistoryEntry,
    line: Seq<char>,
    before: Seq<Seq<char>>,
    idx: int,
    options: CompletionOptions,
) -> Option<CandView> {
    let ws = views(e.words@);
    if ws.len() > idx && words_threshold_typos(
        WordRule::Prefix,
        ws,
        before,
        options.ignore_spaces,
        options.match_threshold_percent as int,
        options.typo_threshold_percent as int,
    ) && e.entry.command@ != line {
        Some((e.entry.command@, e.entry.command@, false, CompletionSource::HistoryTypo))
    } else {
        None
    }
}

/// Whole templates and commands whose words are close to the words
/// before the cursor.
pub open spec fn line_typo_views(
    line: Seq<char>,
    cursor: int,
    history: Seq<IndexedHistoryEntry>,
    templates: Seq<IndexedTemplateEntry>,
    options: CompletionOptions,
) -> Seq<CandView> {
    let before = word_values(line.take(floor_index(line, cursor)));
    let idx = current_word_index(before, token_text(line, cursor));
    if !options.fuzzy_enabled || before.len() == 0 {
        seq![]
    } else {
        limited(
            dedup_views(
                dedup_views(
                    somes(
                        templates.reverse().map_values(
                            |e: IndexedTemplateEntry| line_typo_template(e, line, before, idx, options),
                        ),
                    ),
                ) + dedup_views(
                    somes(
                        history.map_values(
                            |e: IndexedHistoryEntry| line_typo_history(e, line, before, idx, options),
                        ),
                    ),
                ),
            ),
            options.max_results as int,
        )
    }
}

fn string_is(a: &String, b: &[char]) -> (r: bool)
    ensures
        r == (a@ == b@),
{
    let x = str_chars(a.as_str());
    chars_eq(x.as_slice(), b)
}

pub fn complete_typo_candidates_for_line_with_indexed_options(
    line: &str,
    cursor: usize,
    history_newest_first: &[IndexedHistoryEntry],
    templates: &[IndexedTemplateEntry],
    options: CompletionOptions,
) -> (r: Vec<CompletionCandidate>)
    requires
        cursor >= crate::text::byte_len(line@) || is_boundary(line@, cursor as int),
    ensures
        cviews(r@) == line_typo_views(line@, cursor as int, history_newest_first@, templates@, options),
{
    let mut out: Vec<CompletionCandidate> = Vec::new();
    if !options.fuzzy_enabled {
        proof {
            assert(cviews(out@) =~= Seq::<CandView>::empty());
        }
        return out;
    }
    let token = current_token_context(line, cursor);
    let v = str_chars(line);
    let c = char_index_at_or_before(v.as_slice(), cursor);
    let head = crate::text::chars_range_string(v.as_slice(), 0, c);
    let before = split_shell_like_words(head.as_str());
    let ghost bw = word_values(line@.take(floor_index(line@, cursor as int)));
    proof {
        assert(head@ =~= line@.take(c as int));
        assert(views(before@) =~= bw);
    }
    if before.len() == 0 {
        proof {
            assert(cviews(out@) =~= Seq::<CandView>::empty());
        }
        return out;
    }
    let idx = if token.text.as_str().is_empty() {
        before.len()
    } else {
        before.len() - 1
    };
    let ghost ft = |e: IndexedTemplateEntry| line_typo_template(e, line@, bw, idx as int, options);
    let ghost rev = templates@.reverse();
    let mut i: usize = 0;
    while i < templates.len()
        invariant
            i <= templates@.len(),
            rev == templates@.reverse(),
            views(before@) == bw,
            v@ == line@,
            ft == (|e: IndexedTemplateEntry| line_typo_template(e, line@, bw, idx as int, options)),
            cviews(out@.skip(0)) == dedup_views(somes(rev.take(i as int).map_values(ft))),
        decreases templates.len() - i,
    {
        let j = templates.len() - 1 - i;
        let e = &templates[j];
        proof {
            assert(rev[i as int] == templates@[j as int]);
        }
        let item = if e.words.len() > idx && template_words_match_threshold_with_typos(
            e.words.as_slice(),
            before.as_slice(),
            options.ignore_spaces,
            options.match_threshold_percent,
            options.typo_threshold_percent,
        ) && !string_is(&e.entry.body, v.as_slice()) {
            Some(
                CompletionCandidate {
                    display: e.entry.body.clone(),
                    replacement: e.entry.body.clone(),
                    is_dir: false,
                    source: CompletionSource::TemplateTypo,
                },
            )
        } else {
            None
        };
        proof {
            assert(rev.take(i + 1).map_values(ft) =~= rev.take(i as int).map_values(ft).push(ft(rev[i as int])));
        }
        push_item(&mut out, 0, item, Ghost(rev.take(i as int).map_values(ft)));
        i = i + 1;
    }
    proof {
        assert(rev.take(rev.len() as int) =~= rev);
        assert(out@.skip(0) =~= out@);
    }
    let base = out.len();
    let ghost start = out@;
    let ghost fh = |e: IndexedHistoryEntry| line_typo_history(e, line@, bw, idx as int, options);
    let mut i: usize = 0;
    proof {
        assert(out@.skip(base as int) =~= Seq::<CompletionCandidate>::empty());
        assert(history_newest_first@.take(0).map_values(fh) =~= Seq::<Option<CandView>>::empty());
    }
    while i < history_newest_first.len()
        invariant
            i <= history_newest_first@.len(),
            base == start.len(),
            out@.len() >= base,
            out@.take(base as int) == start,
            views(before@) == bw,
            v@ == line@,
            fh == (|e: IndexedHistoryEntry| line_typo_history(e, line@, bw, idx as int, options)),
            cviews(out@.skip(base as int)) == dedup_views(somes(history_newest_first@.take(i as int).map_values(fh))),
        decreases history_newest_first.len() - i,
    {
        let e = &history_newest_first[i];
        let item = if e.words.len() > idx && words_match_threshold_with_typos(
            e.words.as_slice(),
            before.as_slice(),
            options.ignore_spaces,
            options.match_threshold_percent,
            options.typo_threshold_percent,
        ) && !string_is(&e.entry.command, v.as_slice()) {
            Some(
                CompletionCandidate {
                    display: e.entry.command.clone(),
                    replacement: e.entry.command.clone(),
                    is_dir: false,
                    source: CompletionSource::HistoryTypo,
                },
            )
        } else {
            None
        };
        proof {
            assert(history_newest_first@.take(i + 1).map_values(fh) =~= history_newest_first@.take(
                i as int,
            ).map_values(fh).push(fh(history_newest_first@[i as int])));
        }
        push_item(&mut out, base, item, Ghost(history_newest_first@.take(i as int).map_values(fh)));
        i = i + 1;
    }
    proof {
        assert(history_newest_first@.take(history_newest_first@.len() as int) =~= history_newest_first@);
        assert(out@ =~= start + out@.skip(base as int));
        assert(cviews(out@) =~= cviews(start) + cviews(out@.skip(base as int)));
    }
    let ghost all = out@;
    dedupe_completion_candidates(&mut out);
    proof {
        lemma_dedup_views(all);
    }
    let r = limit_candidates(out, options.max_results);
    proof {
        assert(cviews(r@) =~= limited(cviews(out@), options.max_results as int));
    }
    r
}

/// Whether the token at the cursor is the first token of the line.
pub open spec fn token_is_first(s: Seq<char>, cursor: int) -> bool {
    !lex(s, floor_index(s, cursor)).before
}

/// Typo candidates for the token at the cursor: whole commands for the
/// first token, otherwise commands whose words are close to the line's.
pub open spec fn non_first_typo_views(
    line: Seq<char>,
    cursor: int,
    history: Seq<IndexedHistoryEntry>,
    templates: Seq<IndexedTemplateEntry>,
    options: CompletionOptions,
) -> Seq<CandView> {
    if !options.fuzzy_enabled {
        seq![]
    } else if token_is_first(line, cursor) {
        first_token_typo_views(token_text(line, cursor), history, templates, options)
    } else {
        line_typo_views(line, cursor, history, templates, options)
    }
}

pub fn complete_non_first_token_typos_for_line_with_indexed_options(
    line: &str,
    cursor: usize,
    history_newest_first: &[IndexedHistoryEntry],
    templates: &[IndexedTemplateEntry],
    options: CompletionOptions,
) -> (r: Vec<CompletionCandidate>)
    requires
        cursor >= crate::text::byte_len(line@) || is_boundary(line@, cursor as int),
    ensures
        cviews(r@) == non_first_typo_views(line@, cursor as int, history_newest_first@, templates@, options),
{
    if !options.fuzzy_enabled {
        let out: Vec<CompletionCandidate> = Vec::new();
        proof {
            assert(cviews(out@) =~= Seq::<CandView>::empty());
        }
        return out;
    }
    let token = current_token_context(line, cursor);
    if token.is_first_token {
        return complete_first_token_typos_with_indexed_options(
            token.text.as_str(),
            history_newest_first,
            templates,
            options,
        );
    }
    complete_typo_candidates_for_line_with_indexed_options(
        line,
        cursor,
        history_newest_first,
        templates,
        options,
    )
}

pub fn complete_first_token_typos_with_options(
    prefix: &str,
    history_newest_first: &[HistoryEntry],
    templates: &[TemplateEntry],
    options: CompletionOptions,
) -> (r: Vec<CompletionCandidate>)
    ensures
        exists|h: Seq<IndexedHistoryEntry>, t: Seq<IndexedTemplateEntry>|
            indexed_all(h, history_newest_first@, t, templates@) && cviews(r@)
                == first_token_typo_views(prefix@, h, t, options),
{
    let h = index_history_entries(history_newest_first);
    let t = index_template_entries(templates);
    let r = complete_first_token_typos_with_indexed_options(prefix, h.as_slice(), t.as_slice(), options);
    proof {
        assert(indexed_all(h@, history_newest_first@, t@, templates@));
    }
    r
}

/// `h` and `t` index the history entries and templates.
pub open spec fn indexed_all(
    h: Seq<IndexedHistoryEntry>,
    history: Seq<HistoryEntry>,
    t: Seq<IndexedTemplateEntry>,
    templates: Seq<TemplateEntry>,
) -> bool {
    &&& h.len() == history.len()
    &&& forall|k: int| 0 <= k < h.len() ==> indexes_history(#[trigger] h[k], history[k])
    &&& t.len() == templates.len()
    &&& forall|k: int| 0 <= k < t.len() ==> indexes_template(#[trigger] t[k], templates[k])
}

pub fn complete_non_first_token_typos_for_line_with_options(
    line: &str,
    cursor: usize,
    history_newest_first: &[HistoryEntry],
    templates: &[TemplateEntry],
    options: CompletionOptions,
) -> (r: Vec<CompletionCandidate>)
    requires
        cursor >= crate::text::byte_len(line@) || is_boundary(line@, cursor as int),
    ensures
        exists|h: Seq<IndexedHistoryEntry>, t: Seq<IndexedTemplateEntry>|
            indexed_all(h, history_newest_first@, t, templates@) && cviews(r@)
                == non_first_typo_views(line@, cursor as int, h, t, options),
{
    let h = index_history_entries(history_newest_first);
    let t = index_template_entries(templates);
    let r = complete_non_first_token_typos_for_line_with_indexed_options(
        line,
        cursor,
        h.as_slice(),
        t.as_slice(),
        options,
    );
    proof {
        assert(indexed_all(h@, history_newest_first@, t@, templates@));
    }
    r
}

pub fn complete_typo_candidates_for_line_with_options(
    line: &str,
    cursor: usize,
    history_newest_first: &[HistoryEntry],
    templates: &[TemplateEntry],
    options: CompletionOptions,
) -> (r: Vec<CompletionCandidate>)
    requires
        cursor >= crate::text::byte_len(line@) || is_boundary(line@, cursor as int),
    ensures
        exists|h: Seq<IndexedHistoryEntry>, t: Seq<IndexedTemplateEntry>|
            indexed_all(h, history_newest_first@, t, templates@) && cviews(r@)
                == line_typo_views(line@, cursor as int, h, t, options),
{
    let h = index_history_entries(history_newest_first);
    let t = index_template_entries(templates);
    let r = complete_typo_candidates_for_line_with_indexed_options(
        line,
        cursor,
        h.as_slice(),
        t.as_slice(),
        options,
    );
    proof {
        assert(indexed_all(h@, history_newest_first@, t@, templates@));
    }
    r
}

} // verus!
