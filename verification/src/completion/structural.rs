//! Completion that continues a history command or template whose leading
//! words match the words already typed.
use vstd::prelude::*;
use crate::history::HistoryEntry;
use crate::templates::TemplateEntry;
use crate::text::{byte_len, chars_byte_len, chars_eq, join_spaces, str_chars};
use super::index::{
    index_history_entries, index_template_entries, indexes_history, indexes_template,
    IndexedHistoryEntry, IndexedTemplateEntry,
};
use super::matching::{
    join_words, sub_strings, template_replacement, template_replacement_for_index,
    template_words_match_threshold, views, words_match_threshold, words_threshold, WordRule,
};
use super::parser::{current_token_context, split_shell_like_words, token_text, word_values};
use super::ranking::{limit_candidates, limited};
use super::types::{
    cviews, dedup_views, push_item, somes, CandView, CompletionCandidate, CompletionOptions,
    CompletionSource, TokenContext,
};

verus! {

/// Index of the word being completed: a new word after a trailing space,
/// else the last typed word.
pub open spec fn current_word_index(before: Seq<Seq<char>>, token: Seq<char>) -> int {
    if token.len() == 0 {
        before.len() as int
    } else {
        before.len() - 1
    }
}

/// The continuation that a history entry offers: its raw words from the
/// current one on, when its words match the typed words.
pub open spec fn history_item(
    e: IndexedHistoryEntry,
    before: Seq<Seq<char>>,
    idx: int,
    token: Seq<char>,
    ignore_spaces: bool,
    threshold: int,
) -> Option<CandView> {
    words_item(views(e.words@), views(e.raw_words@), before, idx, token, ignore_spaces, threshold)
}

/// The continuation offered by a command with the given words and raw
/// words.
pub open spec fn words_item(
    ws: Seq<Seq<char>>,
    raws: Seq<Seq<char>>,
    before: Seq<Seq<char>>,
    idx: int,
    token: Seq<char>,
    ignore_spaces: bool,
    threshold: int,
) -> Option<CandView> {
    if ws.len() <= idx || !words_threshold(WordRule::Prefix, ws, before, ignore_spaces, threshold) {
        None
    } else {
        let repl = join_spaces(raws.skip(idx));
        if repl == token {
            None
        } else {
            Some((repl, repl, false, CompletionSource::History))
        }
    }
}

/// The continuation that a template offers.
pub open spec fn template_item(
    e: IndexedTemplateEntry,
    before: Seq<Seq<char>>,
    idx: int,
    token: Seq<char>,
    ignore_spaces: bool,
    threshold: int,
) -> Option<CandView> {
    template_words_item(views(e.words@), e.entry.body@, before, idx, token, ignore_spaces, threshold)
}

/// The continuation offered by a template with the given words and body.
pub open spec fn template_words_item(
    ws: Seq<Seq<char>>,
    body: Seq<char>,
    before: Seq<Seq<char>>,
    idx: int,
    token: Seq<char>,
    ignore_spaces: bool,
    threshold: int,
) -> Option<CandView> {
    if ws.len() <= idx || !words_threshold(WordRule::Template, ws, before, ignore_spaces, threshold) {
        None
    } else {
        let repl = template_replacement(ws, idx, token, ignore_spaces);
        if repl == token {
            None
        } else {
            Some((body, repl, false, CompletionSource::Template))
        }
    }
}

/// Structural history candidates for a cursor at the end of the line.
pub open spec fn structural_history_views(
    line: Seq<char>,
    cursor: int,
    token: Seq<char>,
    entries: Seq<IndexedHistoryEntry>,
    ignore_spaces: bool,
    threshold: int,
) -> Seq<CandView> {
    let before = word_values(line);
    if cursor != byte_len(line) || before.len() == 0 {
        seq![]
    } else {
        let idx = current_word_index(before, token);
        dedup_views(
            somes(
                entries.map_values(
                    |e: IndexedHistoryEntry| history_item(e, before, idx, token, ignore_spaces, threshold),
                ),
            ),
        )
    }
}

/// Structural history candidates computed from the commands themselves.
pub open spec fn structural_history_plain(
    line: Seq<char>,
    cursor: int,
    token: Seq<char>,
    history: Seq<HistoryEntry>,
    ignore_spaces: bool,
    threshold: int,
) -> Seq<CandView> {
    let before = word_values(line);
    if cursor != byte_len(line) || before.len() == 0 {
        seq![]
    } else {
        let idx = current_word_index(before, token);
        dedup_views(
            somes(
                history.map_values(
                    |e: HistoryEntry|
                        words_item(
                            word_values(e.command@),
                            crate::completion::parser::raw_words(e.command@),
                            before,
                            idx,
                            token,
                            ignore_spaces,
                            threshold,
                        ),
                ),
            ),
        )
    }
}

/// Structural template candidates computed from the bodies themselves.
pub open spec fn structural_template_plain(
    line: Seq<char>,
    cursor: int,
    token: Seq<char>,
    templates: Seq<TemplateEntry>,
    ignore_spaces: bool,
    threshold: int,
) -> Seq<CandView> {
    let before = word_values(line);
    if cursor != byte_len(line) || before.len() == 0 {
        seq![]
    } else {
        let idx = current_word_index(before, token);
        dedup_views(
            somes(
                templates.reverse().map_values(
                    |e: TemplateEntry| template_words_item(word_values(e.body@), e.body@, before, idx, token, ignore_spaces, threshold),
                ),
            ),
        )
    }
}

/// Structural template candidates, newest template first.
pub open spec fn structural_template_views(
    line: Seq<char>,
    cursor: int,
    token: Seq<char>,
    entries: Seq<IndexedTemplateEntry>,
    ignore_spaces: bool,
    threshold: int,
) -> Seq<CandView> {
    let before = word_values(line);
    if cursor != byte_len(line) || before.len() == 0 {
        seq![]
    } else {
        let idx = current_word_index(before, token);
        dedup_views(
            somes(
                entries.reverse().map_values(
                    |e: IndexedTemplateEntry| template_item(e, before, idx, token, ignore_spaces, threshold),
                ),
            ),
        )
    }
}

/// Entries whose raw and plain word lists have the same length.
pub open spec fn aligned(entries: Seq<IndexedHistoryEntry>) -> bool {
    forall|k: int| 0 <= k < entries.len() ==> (#[trigger] entries[k]).raw_words@.len() == entries[k].words@.len()
}

fn string_eq_chars(a: &String, b: &String) -> (r: bool)
    ensures
        r == (a@ == b@),
{
    let x = str_chars(a.as_str());
    let y = str_chars(b.as_str());
    chars_eq(x.as_slice(), y.as_slice())
}

pub fn complete_structural_history_for_line_indexed(
    line: &str,
    cursor: usize,
    token: &TokenContext,
    history_newest_first: &[IndexedHistoryEntry],
    ignore_spaces: bool,
    match_threshold_percent: usize,
) -> (r: Vec<CompletionCandidate>)
    requires
        aligned(history_newest_first@),
    ensures
        cviews(r@) == structural_history_views(
            line@,
            cursor as int,
            token.text@,
            history_newest_first@,
            ignore_spaces,
            match_threshold_percent as int,
        ),
{
    let mut out: Vec<CompletionCandidate> = Vec::new();
    let v = str_chars(line);
    let n = chars_byte_len(v.as_slice());
    let before = split_shell_like_words(line);
    proof {
        assert(views(before@) =~= word_values(line@));
    }
    if cursor != n || before.len() == 0 {
        proof {
            assert(cviews(out@) =~= Seq::<CandView>::empty());
        }
        return out;
    }
    let idx = if token.text.as_str().is_empty() {
        before.len()
    } else {
        before.len() - 1
    };
    proof {
        lemma_bytes_empty(token.text@);
    }
    let ghost bw = word_values(line@);
    let ghost f = |e: IndexedHistoryEntry|
        history_item(e, bw, idx as int, token.text@, ignore_spaces, match_threshold_percent as int);
    let mut i: usize = 0;
    while i < history_newest_first.len()
        invariant
            i <= history_newest_first@.len(),
            aligned(history_newest_first@),
            views(before@) == bw,
            bw == word_values(line@),
            idx as int == current_word_index(bw, token.text@),
            f == (|e: IndexedHistoryEntry|
                history_item(e, bw, idx as int, token.text@, ignore_spaces, match_threshold_percent as int)),
            cviews(out@.skip(0)) == dedup_views(somes(history_newest_first@.take(i as int).map_values(f))),
        decreases history_newest_first.len() - i,
    {
        let e = &history_newest_first[i];
        let mut item: Option<CompletionCandidate> = None;
        if e.words.len() > idx && words_match_threshold(
            e.words.as_slice(),
            before.as_slice(),
            ignore_spaces,
            match_threshold_percent,
        ) {
            let rest = sub_strings(e.raw_words.as_slice(), idx);
            let repl = join_words(rest.as_slice());
            if !string_eq_chars(&repl, &token.text) {
                item = Some(
                    CompletionCandidate {
                        display: repl.clone(),
                        replacement: repl,
                        is_dir: false,
                        source: CompletionSource::History,
                    },
                );
            }
        }
        proof {
            assert(history_newest_first@.take(i + 1).map_values(f) =~= history_newest_first@.take(
                i as int,
            ).map_values(f).push(f(history_newest_first@[i as int])));
        }
        push_item(&mut out, 0, item, Ghost(history_newest_first@.take(i as int).map_values(f)));
        i = i + 1;
    }
    proof {
        assert(history_newest_first@.take(history_newest_first@.len() as int) =~= history_newest_first@);
        assert(out@.skip(0) =~= out@);
    }
    out
}

/// A string is empty exactly when its UTF-8 encoding is.
proof fn lemma_bytes_empty(s: Seq<char>)
    ensures
        vstd::utf8::encode_utf8(s).len() == 0 <==> s.len() == 0,
{
    if s.len() > 0 {
        vstd::utf8::char_is_scalar(s[0]);
        assert(vstd::utf8::encode_utf8(s) == vstd::utf8::encode_scalar(s[0] as u32) + vstd::utf8::encode_utf8(
            s.drop_first(),
        ));
    }
}

pub fn complete_structural_templates_for_line_indexed(
    line: &str,
    cursor: usize,
    token: &TokenContext,
    templates: &[IndexedTemplateEntry],
    ignore_spaces: bool,
    match_threshold_percent: usize,
) -> (r: Vec<CompletionCandidate>)
    ensures
        cviews(r@) == structural_template_views(
            line@,
            cursor as int,
            token.text@,
            templates@,
            ignore_spaces,
            match_threshold_percent as int,
        ),
{
    let mut out: Vec<CompletionCandidate> = Vec::new();
    let v = str_chars(line);
    let n = chars_byte_len(v.as_slice());
    let before = split_shell_like_words(line);
    proof {
        assert(views(before@) =~= word_values(line@));
    }
    if cursor != n || before.len() == 0 {
        proof {
            assert(cviews(out@) =~= Seq::<CandView>::empty());
        }
        return out;
    }
    let idx = if token.text.as_str().is_empty() {
        before.len()
    } else {
        before.len() - 1
    };
    proof {
        lemma_bytes_empty(token.text@);
    }
    let ghost bw = word_values(line@);
    let ghost f = |e: IndexedTemplateEntry|
        template_item(e, bw, idx as int, token.text@, ignore_spaces, match_threshold_percent as int);
    let ghost rev = templates@.reverse();
    let mut i: usize = 0;
    while i < templates.len()
        invariant
            i <= templates@.len(),
            rev == templates@.reverse(),
            views(before@) == bw,
            bw == word_values(line@),
            idx as int == current_word_index(bw, token.text@),
            f == (|e: IndexedTemplateEntry|
                template_item(e, bw, idx as int, token.text@, ignore_spaces, match_threshold_percent as int)),
            cviews(out@.skip(0)) == dedup_views(somes(rev.take(i as int).map_values(f))),
        decreases templates.len() - i,
    {
        let j = templates.len() - 1 - i;
        let e = &templates[j];
        proof {
            assert(rev[i as int] == templates@[j as int]);
        }
        let mut item: Option<CompletionCandidate> = None;
        if e.words.len() > idx && template_words_match_threshold(
            e.words.as_slice(),
            before.as_slice(),
            ignore_spaces,
            match_threshold_percent,
        ) {
            let repl = template_replacement_for_index(
                e.words.as_slice(),
                idx,
                token,
                ignore_spaces,
                match_threshold_percent,
            );
            if !string_eq_chars(&repl, &token.text) {
                item = Some(
                    CompletionCandidate {
                        display: e.entry.body.clone(),
                        replacement: repl,
                        is_dir: false,
                        source: CompletionSource::Template,
                    },
                );
            }
        }
        proof {
            assert(rev.take(i + 1).map_values(f) =~= rev.take(i as int).map_values(f).push(f(rev[i as int])));
        }
        push_item(&mut out, 0, item, Ghost(rev.take(i as int).map_values(f)));
        i = i + 1;
    }
    proof {
        assert(rev.take(rev.len() as int) =~= rev);
        assert(out@.skip(0) =~= out@);
    }
    out
}

pub fn complete_structural_history_for_line_with_options(
    line: &str,
    cursor: usize,
    history_newest_first: &[HistoryEntry],
    options: CompletionOptions,
) -> (r: Vec<CompletionCandidate>)
    ensures
        cviews(r@) == limited(
            structural_history_plain(
                line@,
                cursor as int,
                token_text(line@, cursor as int),
                history_newest_first@,
                options.ignore_spaces,
                options.match_threshold_percent as int,
            ),
            options.max_results as int,
        ),
{
    let token = current_token_context(line, cursor);
    let indexed = index_history_entries(history_newest_first);
    proof {
        assert forall|k: int| 0 <= k < indexed@.len() implies (#[trigger] indexed@[k]).raw_words@.len()
            == indexed@[k].words@.len() by {
            assert(views(indexed@[k].raw_words@).len() == views(indexed@[k].words@).len());
        }
    }
    let out = complete_structural_history_for_line_indexed(
        line,
        cursor,
        &token,
        indexed.as_slice(),
        options.ignore_spaces,
        options.match_threshold_percent,
    );
    proof {
        let before = word_values(line@);
        let idx = current_word_index(before, token.text@);
        let t = token.text@;
        let ign = options.ignore_spaces;
        let th = options.match_threshold_percent as int;
        assert(indexed@.map_values(|e: IndexedHistoryEntry| history_item(e, before, idx, t, ign, th))
            =~= history_newest_first@.map_values(
            |e: HistoryEntry|
                words_item(
                    word_values(e.command@),
                    crate::completion::parser::raw_words(e.command@),
                    before,
                    idx,
                    t,
                    ign,
                    th,
                ),
        ));
    }
    let r = limit_candidates(out, options.max_results);
    proof {
        assert(cviews(r@) =~= limited(cviews(out@), options.max_results as int));
    }
    r
}

pub fn complete_structural_templates_for_line_with_options(
    line: &str,
    cursor: usize,
    templates: &[TemplateEntry],
    options: CompletionOptions,
) -> (r: Vec<CompletionCandidate>)
    ensures
        cviews(r@) == limited(
            structural_template_plain(
                line@,
                cursor as int,
                token_text(line@, cursor as int),
                templates@,
                options.ignore_spaces,
                options.match_threshold_percent as int,
            ),
            options.max_results as int,
        ),
{
    let token = current_token_context(line, cursor);
    let indexed = index_template_entries(templates);
    let out = complete_structural_templates_for_line_indexed(
        line,
        cursor,
        &token,
        indexed.as_slice(),
        options.ignore_spaces,
        options.match_threshold_percent,
    );
    proof {
        let before = word_values(line@);
        let idx = current_word_index(before, token.text@);
        let t = token.text@;
        let ign = options.ignore_spaces;
        let th = options.match_threshold_percent as int;
        assert(indexed@.reverse().map_values(|e: IndexedTemplateEntry| template_item(e, before, idx, t, ign, th))
            =~= templates@.reverse().map_values(
            |e: TemplateEntry| template_words_item(word_values(e.body@), e.body@, before, idx, t, ign, th),
        ));
    }
    let r = limit_candidates(out, options.max_results);
    proof {
        assert(cviews(r@) =~= limited(cviews(out@), options.max_results as int));
    }
    r
}

} // verus!
