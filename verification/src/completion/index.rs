//! Precomputed shell words of history entries and templates.
use vstd::prelude::*;
use crate::history::HistoryEntry;
use crate::templates::TemplateEntry;
use super::matching::{is_placeholder, placeholder_name, template_word_placeholder_name, views};
use super::parser::{
    command_argument_words, raw_words, shell_like_words, split_shell_like_words, word_ranges,
    word_value, word_values, ShellWord,
};

verus! {

/// The raw text and value of each shell word after the first.
pub open spec fn argument_pairs(cmd: Seq<char>) -> Seq<(Seq<char>, Seq<char>)> {
    if word_ranges(cmd).len() == 0 {
        seq![]
    } else {
        word_ranges(cmd).skip(1).map_values(
            |r: (int, int)| (cmd.subrange(r.0, r.1), word_value(cmd.subrange(r.0, r.1))),
        )
    }
}

pub open spec fn word_pairs(v: Seq<ShellWord>) -> Seq<(Seq<char>, Seq<char>)> {
    v.map_values(|w: ShellWord| (w.raw@, w.value@))
}

/// The placeholder words of a template body with their names.
pub open spec fn placeholders_of(body: Seq<char>) -> Seq<(Seq<char>, Seq<char>)> {
    word_values(body).filter(|w: Seq<char>| is_placeholder(w)).map_values(
        |w: Seq<char>| (w, placeholder_name(w)->0),
    )
}

#[derive(Debug, Clone, PartialEq, Eq)]
pub struct IndexedHistoryEntry {
    pub entry: HistoryEntry,
    pub words: Vec<String>,
    pub raw_words: Vec<String>,
    pub arguments: Vec<ShellWord>,
}

#[derive(Debug, Clone, PartialEq, Eq)]
pub struct IndexedTemplatePlaceholder {
    pub raw: String,
    pub name: String,
}

#[derive(Debug, Clone, PartialEq, Eq)]
pub struct IndexedTemplateEntry {
    pub entry: TemplateEntry,
    pub words: Vec<String>,
    pub placeholders: Vec<IndexedTemplatePlaceholder>,
}

pub open spec fn placeholder_pairs(v: Seq<IndexedTemplatePlaceholder>) -> Seq<(Seq<char>, Seq<char>)> {
    v.map_values(|p: IndexedTemplatePlaceholder| (p.raw@, p.name@))
}

/// `ih` holds the shell words of the entry's command.
pub open spec fn indexes_history(ih: IndexedHistoryEntry, e: HistoryEntry) -> bool {
    &&& ih.entry == e
    &&& views(ih.words@) == word_values(e.command@)
    &&& views(ih.raw_words@) == raw_words(e.command@)
    &&& word_pairs(ih.arguments@) == argument_pairs(e.command@)
}

/// `it` holds the shell words and placeholders of the template's body.
pub open spec fn indexes_template(it: IndexedTemplateEntry, t: TemplateEntry) -> bool {
    &&& it.entry == t
    &&& views(it.words@) == word_values(t.body@)
    &&& placeholder_pairs(it.placeholders@) == placeholders_of(t.body@)
}

fn copy_strings(v: &[String]) -> (r: Vec<String>)
    ensures
        r@ == v@,
{
    let mut r: Vec<String> = Vec::new();
    let mut i: usize = 0;
    while i < v.len()
        invariant
            i <= v@.len(),
            r@ == v@.take(i as int),
        decreases v.len() - i,
    {
        r.push(v[i].clone());
        i = i + 1;
        assert(r@ =~= v@.take(i as int));
    }
    assert(v@.take(v@.len() as int) =~= v@);
    r
}

/// The shell words of one history entry.
pub fn index_history_entry(entry: &HistoryEntry) -> (r: IndexedHistoryEntry)
    ensures
        indexes_history(r, *entry),
{
    let words = shell_like_words(entry.command.as_str());
    let mut raw: Vec<String> = Vec::new();
    let mut i: usize = 0;
    while i < words.len()
        invariant
            i <= words@.len(),
            words@.len() == word_ranges(entry.command@).len(),
            forall|k: int|
                0 <= k < words@.len() ==> (#[trigger] words@[k]).raw@ == entry.command@.subrange(
                    word_ranges(entry.command@)[k].0,
                    word_ranges(entry.command@)[k].1,
                ),
            raw@.len() == i,
            forall|k: int| 0 <= k < i ==> (#[trigger] raw@[k])@ == raw_words(entry.command@)[k],
        decreases words.len() - i,
    {
        raw.push(words[i].raw.clone());
        i = i + 1;
    }
    proof {
        assert(views(raw@) =~= raw_words(entry.command@));
    }
    let values = split_shell_like_words(entry.command.as_str());
    proof {
        assert(views(values@) =~= word_values(entry.command@));
    }
    let arguments = command_argument_words(entry.command.as_str());
    proof {
        assert(word_pairs(arguments@) =~= argument_pairs(entry.command@));
    }
    IndexedHistoryEntry { entry: entry.clone_entry(), words: values, raw_words: raw, arguments }
}

/// The shell words of each history entry.
pub fn index_history_entries(history_newest_first: &[HistoryEntry]) -> (r: Vec<IndexedHistoryEntry>)
    ensures
        r@.len() == history_newest_first@.len(),
        forall|k: int| 0 <= k < r@.len() ==> indexes_history(#[trigger] r@[k], history_newest_first@[k]),
{
    let mut r: Vec<IndexedHistoryEntry> = Vec::new();
    let mut i: usize = 0;
    while i < history_newest_first.len()
        invariant
            i <= history_newest_first@.len(),
            r@.len() == i,
            forall|k: int| 0 <= k < i ==> indexes_history(#[trigger] r@[k], history_newest_first@[k]),
        decreases history_newest_first.len() - i,
    {
        r.push(index_history_entry(&history_newest_first[i]));
        i = i + 1;
    }
    r
}

/// A placeholder word of a template and its name.
#[derive(Debug, Clone, PartialEq, Eq)]
pub struct TemplatePlaceholderWord {
    pub raw: String,
    pub name: String,
}

/// The placeholder words of a template body, in order.
pub fn template_placeholder_words(body: &str) -> (r: Vec<IndexedTemplatePlaceholder>)
    ensures
        placeholder_pairs(r@) == placeholders_of(body@),
{
    let words = split_shell_like_words(body);
    let ghost all = word_values(body@);
    let ghost pred = |w: Seq<char>| is_placeholder(w);
    let ghost f = |w: Seq<char>| (w, placeholder_name(w)->0);
    let mut r: Vec<IndexedTemplatePlaceholder> = Vec::new();
    let mut i: usize = 0;
    while i < words.len()
        invariant
            i <= words@.len(),
            all == word_values(body@),
            words@.len() == all.len(),
            forall|k: int| 0 <= k < words@.len() ==> (#[trigger] words@[k])@ == all[k],
            pred == (|w: Seq<char>| is_placeholder(w)),
            f == (|w: Seq<char>| (w, placeholder_name(w)->0)),
            placeholder_pairs(r@) == all.take(i as int).filter(pred).map_values(f),
        decreases words.len() - i,
    {
        proof {
            assert(all.take(i + 1).drop_last() =~= all.take(i as int));
            reveal_with_fuel(Seq::filter, 1);
        }
        let w = crate::text::str_chars(words[i].as_str());
        let ghost old_r = r@;
        match template_word_placeholder_name(w.as_slice()) {
            Some(name) => {
                r.push(
                    IndexedTemplatePlaceholder {
                        raw: words[i].clone(),
                        name: crate::text::chars_string(name.as_slice()),
                    },
                );
                proof {
                    assert(placeholder_pairs(r@) =~= placeholder_pairs(old_r).push(f(all[i as int])));
                    assert(all.take(i + 1).filter(pred) =~= all.take(i as int).filter(pred).push(all[i as int]));
                }
            },
            None => {
                proof {
                    assert(all.take(i + 1).filter(pred) =~= all.take(i as int).filter(pred));
                }
            },
        }
        i = i + 1;
    }
    proof {
        assert(all.take(all.len() as int) =~= all);
    }
    r
}

/// The shell words and placeholders of one template.
pub fn index_template_entry(template: &TemplateEntry) -> (r: IndexedTemplateEntry)
    ensures
        indexes_template(r, *template),
{
    let values = split_shell_like_words(template.body.as_str());
    proof {
        assert(views(values@) =~= word_values(template.body@));
    }
    let placeholders = template_placeholder_words(template.body.as_str());
    IndexedTemplateEntry { entry: template.clone_entry(), words: values, placeholders }
}

/// The shell words and placeholders of each template.
pub fn index_template_entries(templates: &[TemplateEntry]) -> (r: Vec<IndexedTemplateEntry>)
    ensures
        r@.len() == templates@.len(),
        forall|k: int| 0 <= k < r@.len() ==> indexes_template(#[trigger] r@[k], templates@[k]),
{
    let mut r: Vec<IndexedTemplateEntry> = Vec::new();
    let mut i: usize = 0;
    while i < templates.len()
        invariant
            i <= templates@.len(),
            r@.len() == i,
            forall|k: int| 0 <= k < i ==> indexes_template(#[trigger] r@[k], templates@[k]),
        decreases templates.len() - i,
    {
        r.push(index_template_entry(&templates[i]));
        i = i + 1;
    }
    r
}

} // verus!
