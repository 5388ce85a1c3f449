//! Completion of the shell's own `#` commands and their arguments.
use vstd::prelude::*;
use crate::text::{any_ws, char_index_at_or_before, chars_range_string, floor_index, lemma_byte_offset_step, lemma_floor_index, prefix_byte_len, chars_eq, has_prefix, is_whitespace, is_ws, starts_with, str_chars, sub_chars};
use super::parser::{current_token_context, lemma_lex_bounds, lex, lex_prefix, split_shell_like_words, word_values};
use super::ranking::{limit_candidates, limited};
use super::types::{CompletionCandidate, CompletionSource};

verus! {

/// The `#` commands that the shell implements.
pub open spec fn private_commands() -> Seq<Seq<char>> {
    seq![
        "help"@,
        "status"@,
        "history"@,
        "template"@,
        "completion"@,
        "paste"@,
        "prompt"@,
        "context"@,
        "key"@,
        "encrypt"@,
        "sync"@,
    ]
}

pub fn implemented_private_commands() -> (r: Vec<&'static str>)
    ensures
        r@.len() == private_commands().len(),
        forall|k: int| 0 <= k < r@.len() ==> (#[trigger] r@[k])@ == private_commands()[k],
{
    let r = vec!["help", "status", "history", "template", "completion", "paste", "prompt", "context", "key", "encrypt", "sync"];
    r
}

/// Topics of `#help`.
pub open spec fn help_topics() -> Seq<&'static str> {
    seq!["commands", "keys", "ai", "paste", "completion", "templates", "sync", "encryption", "config"]
}

/// The arguments that may follow a command and the arguments already
/// given.
pub open spec fn argument_table(command: Seq<char>, args: Seq<Seq<char>>) -> Seq<&'static str> {
    let n = args.len();
    if command == "completion"@ {
        if n == 0 {
            seq![
                "on",
                "off",
                "mode",
                "max",
                "coalesce-ms",
                "display-delay-ms",
                "inline",
                "fuzzy",
                "tab-accept",
                "match-threshold",
                "typo-threshold",
            ]
        } else if n == 1 && args[0] == "mode"@ {
            seq!["auto", "tab", "off"]
        } else if n == 1 && (args[0] == "inline"@ || args[0] == "fuzzy"@) {
            seq!["on", "off"]
        } else if n == 1 && args[0] == "tab-accept"@ {
            seq!["full", "word"]
        } else {
            seq![]
        }
    } else if command == "paste"@ {
        if n == 0 {
            seq![
                "multiline",
                "confirm",
                "confirm-execute",
                "preview",
                "preview-lines",
                "preview-bytes",
            ]
        } else if n == 1 && args[0] == "multiline"@ {
            seq!["editor", "execute", "discard"]
        } else if n == 1 && (args[0] == "confirm"@ || args[0] == "confirm-execute"@ || args[0]
            == "preview"@) {
            seq!["on", "off"]
        } else {
            seq![]
        }
    } else if command == "help"@ && n == 0 {
        help_topics()
    } else if command == "key"@ && n == 0 {
        seq!["set", "clear"]
    } else if command == "prompt"@ && n == 0 {
        seq!["draft", "history", "ai", "reset"]
    } else if command == "context"@ {
        if n == 0 {
            seq!["on", "off", "confirm"]
        } else if n == 1 && args[0] == "confirm"@ {
            seq!["on", "off"]
        } else {
            seq![]
        }
    } else if command == "template"@ {
        if n == 0 {
            seq![
                "analyze",
                "fetch",
                "find",
                "import",
                "list",
                "publish",
                "remote",
                "rm",
                "replace",
                "search",
                "show",
                "use",
            ]
        } else if n == 1 && args[0] == "remote"@ {
            seq!["add", "list", "rm"]
        } else if n == 1 && args[0] == "publish"@ {
            seq!["--encrypt"]
        } else {
            seq![]
        }
    } else if command == "history"@ && n == 0 {
        seq!["list", "search"]
    } else if command == "encrypt"@ {
        if n == 0 {
            seq!["on", "off", "rotate", "unlock-mode", "rewrite-history"]
        } else if n == 1 && args[0] == "unlock-mode"@ {
            seq!["lazy", "prompt"]
        } else if n == 1 && args[0] == "rewrite-history"@ {
            seq!["plan", "run"]
        } else {
            seq![]
        }
    } else if command == "sync"@ {
        if n == 0 {
            seq![
                "now",
                "abort",
                "continue",
                "resolve-union",
                "off",
                "startup",
                "exit",
                "ai",
                "history",
                "templates",
                "drafts",
            ]
        } else if n == 1 && (args[0] == "startup"@ || args[0] == "exit"@ || args[0] == "ai"@
            || args[0] == "history"@ || args[0] == "templates"@ || args[0] == "drafts"@) {
            seq!["on", "off"]
        } else {
            seq![]
        }
    } else {
        seq![]
    }
}

/// The character views of a list of character vectors.
pub open spec fn chars_views(v: Seq<Vec<char>>) -> Seq<Seq<char>> {
    v.map_values(|w: Vec<char>| w@)
}

fn argument_table_of(command: &[char], args: &[Vec<char>]) -> (r: Vec<&'static str>)
    ensures
        r@ == argument_table(command@, chars_views(args@)),
{
    let n = args.len();
    if is_literal(command, "completion") {
        if n == 0 {
            vec![
                "on",
                "off",
                "mode",
                "max",
                "coalesce-ms",
                "display-delay-ms",
                "inline",
                "fuzzy",
                "tab-accept",
                "match-threshold",
                "typo-threshold",
            ]
        } else if n == 1 && is_literal(args[0].as_slice(), "mode") {
            vec!["auto", "tab", "off"]
        } else if n == 1 && (is_literal(args[0].as_slice(), "inline") || is_literal(args[0].as_slice(), "fuzzy")) {
            vec!["on", "off"]
        } else if n == 1 && is_literal(args[0].as_slice(), "tab-accept") {
            vec!["full", "word"]
        } else {
            vec![]
        }
    } else if is_literal(command, "paste") {
        if n == 0 {
            vec![
                "multiline",
                "confirm",
                "confirm-execute",
                "preview",
                "preview-lines",
                "preview-bytes",
            ]
        } else if n == 1 && is_literal(args[0].as_slice(), "multiline") {
            vec!["editor", "execute", "discard"]
        } else if n == 1 && (is_literal(args[0].as_slice(), "confirm") || is_literal(args[0].as_slice(), "confirm-execute") || is_literal(args[0].as_slice(), "preview")) {
            vec!["on", "off"]
        } else {
            vec![]
        }
    } else if is_literal(command, "help") && n == 0 {
        vec!["commands", "keys", "ai", "paste", "completion", "templates", "sync", "encryption", "config"]
    } else if is_literal(command, "key") && n == 0 {
        vec!["set", "clear"]
    } else if is_literal(command, "prompt") && n == 0 {
        vec!["draft", "history", "ai", "reset"]
    } else if is_literal(command, "context") {
        if n == 0 {
            vec!["on", "off", "confirm"]
        } else if n == 1 && is_literal(args[0].as_slice(), "confirm") {
            vec!["on", "off"]
        } else {
            vec![]
        }
    } else if is_literal(command, "template") {
        if n == 0 {
            vec![
                "analyze",
                "fetch",
                "find",
                "import",
                "list",
                "publish",
                "remote",
                "rm",
                "replace",
                "search",
                "show",
                "use",
            ]
        } else if n == 1 && is_literal(args[0].as_slice(), "remote") {
            vec!["add", "list", "rm"]
        } else if n == 1 && is_literal(args[0].as_slice(), "publish") {
            vec!["--encrypt"]
        } else {
            vec![]
        }
    } else if is_literal(command, "history") && n == 0 {
        vec!["list", "search"]
    } else if is_literal(command, "encrypt") {
        if n == 0 {
            vec!["on", "off", "rotate", "unlock-mode", "rewrite-history"]
        } else if n == 1 && is_literal(args[0].as_slice(), "unlock-mode") {
            vec!["lazy", "prompt"]
        } else if n == 1 && is_literal(args[0].as_slice(), "rewrite-history") {
            vec!["plan", "run"]
        } else {
            vec![]
        }
    } else if is_literal(command, "sync") {
        if n == 0 {
            vec![
                "now",
                "abort",
                "continue",
                "resolve-union",
                "off",
                "startup",
                "exit",
                "ai",
                "history",
                "templates",
                "drafts",
            ]
        } else if n == 1 && (is_literal(args[0].as_slice(), "startup") || is_literal(args[0].as_slice(), "exit") || is_literal(args[0].as_slice(), "ai")
            || is_literal(args[0].as_slice(), "history") || is_literal(args[0].as_slice(), "templates") || is_literal(args[0].as_slice(), "drafts")) {
            vec!["on", "off"]
        } else {
            vec![]
        }
    } else {
        vec![]
    }
}

/// The words that an empty prefix keeps, or that start with the prefix.
pub open spec fn filter_prefix(words: Seq<Seq<char>>, prefix: Seq<char>) -> Seq<Seq<char>> {
    words.filter(|w: Seq<char>| prefix.len() == 0 || has_prefix(w, prefix))
}

/// A candidate for a private command or argument.
pub open spec fn private_candidate(text: Seq<char>, c: CompletionCandidate) -> bool {
    c.display@ == text && c.replacement@ == text && !c.is_dir && c.source
        == CompletionSource::PrivateCommand
}

/// `cands` stand, in order, for `texts`.
pub open spec fn candidates_for(cands: Seq<CompletionCandidate>, texts: Seq<Seq<char>>) -> bool {
    cands.len() == texts.len() && forall|k: int|
        0 <= k < cands.len() ==> private_candidate(texts[k], #[trigger] cands[k])
}

/// The `#` commands that complete `prefix`, written with their `#`.
pub open spec fn command_completions(prefix: Seq<char>) -> Seq<Seq<char>> {
    if prefix.len() >= 2 && prefix[0] == '#' && !any_ws(prefix.skip(1)) {
        private_commands().filter(|c: Seq<char>| has_prefix(c, prefix.skip(1))).map_values(
            |c: Seq<char>| seq!['#'] + c,
        )
    } else {
        seq![]
    }
}

fn is_literal(a: &[char], lit: &str) -> (r: bool)
    ensures
        r == (a@ == lit@),
{
    let l = str_chars(lit);
    chars_eq(a, l.as_slice())
}

fn candidates_from(texts: &[Vec<char>]) -> (r: Vec<CompletionCandidate>)
    ensures
        r@.len() == texts@.len(),
        forall|k: int| 0 <= k < r@.len() ==> private_candidate(texts@[k]@, #[trigger] r@[k]),
{
    let mut r: Vec<CompletionCandidate> = Vec::new();
    let mut i: usize = 0;
    while i < texts.len()
        invariant
            i <= texts@.len(),
            r@.len() == i,
            forall|k: int| 0 <= k < i ==> private_candidate(texts@[k]@, #[trigger] r@[k]),
        decreases texts.len() - i,
    {
        let s = crate::text::chars_string(texts[i].as_slice());
        let s2 = crate::text::chars_string(texts[i].as_slice());
        r.push(
            CompletionCandidate {
                display: s,
                replacement: s2,
                is_dir: false,
                source: CompletionSource::PrivateCommand,
            },
        );
        i = i + 1;
    }
    r
}

/// Completes a `#` command name; the prefix includes the `#`.
pub fn complete_private_commands(prefix: &str, max_results: usize) -> (r: Vec<CompletionCandidate>)
    ensures
        candidates_for(r@, limited(command_completions(prefix@), max_results as int)),
{
    let p = str_chars(prefix);
    let empty: Vec<CompletionCandidate> = Vec::new();
    if p.len() < 2 || p[0] != '#' {
        return empty;
    }
    let rest = sub_chars(p.as_slice(), 1, p.len());
    let mut i: usize = 0;
    while i < rest.len()
        invariant
            i <= rest@.len(),
            rest@ == p@.skip(1),
            p@ == prefix@,
            forall|k: int| 0 <= k < i ==> !is_ws(#[trigger] rest@[k]),
        decreases rest.len() - i,
    {
        if is_whitespace(rest[i]) {
            assert(is_ws(rest@[i as int]));
            assert(any_ws(prefix@.skip(1)));
            return Vec::new();
        }
        i = i + 1;
    }
    assert(!any_ws(prefix@.skip(1)));
    let commands = implemented_private_commands();
    let mut texts: Vec<Vec<char>> = Vec::new();
    let ghost all = private_commands();
    let ghost pred = |c: Seq<char>| has_prefix(c, prefix@.skip(1));
    let mut k: usize = 0;
    while k < commands.len()
        invariant
            k <= commands@.len(),
            commands@.len() == all.len(),
            all == private_commands(),
            forall|j: int| 0 <= j < commands@.len() ==> (#[trigger] commands@[j])@ == all[j],
            rest@ == prefix@.skip(1),
            pred == (|c: Seq<char>| has_prefix(c, prefix@.skip(1))),
            texts@.len() == all.take(k as int).filter(pred).len(),
            forall|j: int|
                0 <= j < texts@.len() ==> (#[trigger] texts@[j])@ == seq!['#'] + all.take(
                    k as int,
                ).filter(pred)[j],
        decreases commands.len() - k,
    {
        proof {
            assert(all.take(k + 1).drop_last() =~= all.take(k as int));
            reveal_with_fuel(Seq::filter, 1);
        }
        let c = str_chars(commands[k]);
        if starts_with(c.as_slice(), rest.as_slice()) {
            let mut t: Vec<char> = Vec::new();
            t.push('#');
            crate::text::extend_chars(&mut t, c.as_slice());
            texts.push(t);
        }
        k = k + 1;
        proof {
            assert forall|j: int|
                0 <= j < texts@.len() implies (#[trigger] texts@[j])@ == seq!['#'] + all.take(
                    k as int,
                ).filter(pred)[j] by {
                assert(seq!['#'] + all.take(k as int).filter(pred)[j] =~= texts@[j]@);
            }
        }
    }
    proof {
        assert(all.take(all.len() as int) =~= all);
    }
    let cands = candidates_from(texts.as_slice());
    let r = limit_candidates(cands, max_results);
    proof {
        let target = command_completions(prefix@);
        assert(target.len() == texts@.len());
        assert forall|j: int| 0 <= j < texts@.len() implies texts@[j]@ == target[j] by {}
    }
    r
}

/// The texts that complete the token before the cursor of a `#` command
/// line: command names for the first token, otherwise the arguments that
/// the command takes after the words already typed.
pub open spec fn private_line_completions(line: Seq<char>, cursor: int) -> Seq<Seq<char>> {
    let c = floor_index(line, cursor);
    let before = line.take(c);
    let st = lex(line, c);
    let text = line.subrange(st.start, c);
    let words = word_values(line.take(st.start));
    if before.len() == 0 || before[0] != '#' {
        seq![]
    } else if before.len() > 1 && is_ws(before[1]) {
        seq![]
    } else if !st.before && text.len() > 0 && text[0] == '#' {
        command_completions(text)
    } else if words.len() == 0 || words[0].len() == 0 || words[0][0] != '#'
        || !private_commands().contains(words[0].skip(1)) {
        seq![]
    } else {
        argument_candidates(words[0].skip(1), words.skip(1), text)
    }
}

/// The arguments offered for a `#` command after the given arguments:
/// those of its table that begin with the typed prefix, all of them when
/// nothing is typed.
pub open spec fn argument_candidates(command: Seq<char>, args: Seq<Seq<char>>, prefix: Seq<char>) -> Seq<Seq<char>> {
    strs_views(argument_table(command, args)).filter(
        |w: Seq<char>| prefix.len() == 0 || has_prefix(w, prefix),
    )
}

/// The arguments offered for `command` after the arguments already typed,
/// filtered by the prefix under the cursor.
fn private_command_argument_candidates(command: &[char], args: &[Vec<char>], prefix: &[char]) -> (r: Vec<Vec<char>>)
    ensures
        chars_views(r@) == argument_candidates(command@, chars_views(args@), prefix@),
{
    let table = argument_table_of(command, args);
    let mut texts: Vec<Vec<char>> = Vec::new();
    let ghost all = strs_views(table@);
    let ghost pred = |w: Seq<char>| prefix@.len() == 0 || has_prefix(w, prefix@);
    let mut k: usize = 0;
    while k < table.len()
        invariant
            k <= table@.len(),
            all == strs_views(table@),
            pred == (|w: Seq<char>| prefix@.len() == 0 || has_prefix(w, prefix@)),
            texts@.len() == all.take(k as int).filter(pred).len(),
            forall|j: int| 0 <= j < texts@.len() ==> (#[trigger] texts@[j])@ == all.take(k as int).filter(pred)[j],
        decreases table.len() - k,
    {
        proof {
            assert(all.take(k + 1).drop_last() =~= all.take(k as int));
            reveal_with_fuel(Seq::filter, 1);
        }
        let w = str_chars(table[k]);
        if prefix.len() == 0 || starts_with(w.as_slice(), prefix) {
            texts.push(w);
        }
        k = k + 1;
    }
    proof {
        assert(all.take(all.len() as int) =~= all);
        assert(chars_views(texts@) =~= all.filter(pred));
    }
    texts
}

pub open spec fn strs_views(v: Seq<&'static str>) -> Seq<Seq<char>> {
    v.map_values(|w: &'static str| w@)
}

/// Completes the command or argument before the cursor of a `#` command
/// line.
pub fn complete_private_command_line(line: &str, cursor: usize, max_results: usize) -> (r: Vec<
    CompletionCandidate,
>)
    ensures
        candidates_for(r@, limited(private_line_completions(line@, cursor as int), max_results as int)),
{
    let v = str_chars(line);
    let c = char_index_at_or_before(v.as_slice(), cursor);
    let ghost spec_c = floor_index(line@, cursor as int);
    if c == 0 || v[0] != '#' {
        return Vec::new();
    }
    if c > 1 && is_whitespace(v[1]) {
        return Vec::new();
    }
    let cb = prefix_byte_len(v.as_slice(), c);
    proof {
        if c < v@.len() {
            lemma_byte_offset_step(v@, c as int);
        }
        lemma_floor_index(v@, cb as int, c as int);
    }
    let token = current_token_context(line, cb);
    let st = lex_prefix(v.as_slice(), c);
    proof {
        lemma_lex_bounds(v@, c as int);
    }
    let text = str_chars(token.text.as_str());
    if token.is_first_token && text.len() > 0 && text[0] == '#' {
        return complete_private_commands(token.text.as_str(), max_results);
    }
    let head = chars_range_string(v.as_slice(), 0, st.start);
    let words = split_shell_like_words(head.as_str());
    proof {
        assert(head@ =~= line@.take(st.start as int));
    }
    if words.len() == 0 {
        return Vec::new();
    }
    let w0 = str_chars(words[0].as_str());
    if w0.len() == 0 || w0[0] != '#' {
        return Vec::new();
    }
    let name = sub_chars(w0.as_slice(), 1, w0.len());
    let commands = implemented_private_commands();
    let mut known = false;
    let mut k: usize = 0;
    while k < commands.len()
        invariant
            k <= commands@.len(),
            commands@.len() == private_commands().len(),
            forall|j: int| 0 <= j < commands@.len() ==> (#[trigger] commands@[j])@ == private_commands()[j],
            known == exists|j: int| 0 <= j < k && private_commands()[j] == name@,
        decreases commands.len() - k,
    {
        if is_literal(name.as_slice(), commands[k]) {
            known = true;
        }
        k = k + 1;
    }
    if !known {
        proof {
            assert(!private_commands().contains(name@)) by {
                if private_commands().contains(name@) {
                    let j = choose|j: int| 0 <= j < private_commands().len() && private_commands()[j] == name@;
                }
            }
        }
        return Vec::new();
    }
    let mut args: Vec<Vec<char>> = Vec::new();
    let mut i: usize = 1;
    while i < words.len()
        invariant
            1 <= i <= words@.len(),
            args@.len() == i - 1,
            forall|j: int| 0 <= j < args@.len() ==> (#[trigger] args@[j])@ == words@[j + 1]@,
        decreases words.len() - i,
    {
        args.push(str_chars(words[i].as_str()));
        i = i + 1;
    }
    proof {
        let ws = word_values(line@.take(st.start as int));
        assert(chars_views(args@) =~= ws.skip(1));
        assert(name@ =~= ws[0].skip(1));
    }
    let texts = private_command_argument_candidates(name.as_slice(), args.as_slice(), text.as_slice());
    let cands = candidates_from(texts.as_slice());
    limit_candidates(cands, max_results)
}

} // verus!
