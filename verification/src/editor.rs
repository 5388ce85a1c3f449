//! Choosing the external editor for drafts and the command line that
//! opens a draft file in it.
use vstd::prelude::*;
use crate::completion::matching::views;
use crate::config::model::EditorConfig;
use crate::text::{chars_string, split_whitespace, str_chars, ws_words};

verus! {

broadcast use vstd::string::group_string_axioms;

/// The editor program and its arguments.
#[derive(Debug, Clone, PartialEq, Eq)]
pub struct EditorCommand {
    pub argv: Vec<String>,
}

/// The draft file that the editor opens.
#[derive(Debug, Clone, PartialEq, Eq)]
pub struct PreparedEditorSession {
    pub path: String,
}

/// How the editor exited.
#[derive(Debug, Clone, PartialEq, Eq)]
pub struct EditorRunResult {
    pub exit_code: Option<i32>,
}

/// Why the editor could not be run.
#[derive(Debug, Clone, Copy, PartialEq, Eq)]
pub enum EditorError {
    EmptyCommand,
}

impl EditorError {
    pub fn message(&self) -> (r: &'static str)
        ensures
            r@ == "editor command is empty"@,
    {
        "editor command is empty"
    }
}

/// The words of an editor variable, when it has any.
pub open spec fn editor_words(value: Seq<char>) -> Option<Seq<Seq<char>>> {
    if ws_words(value).len() > 0 {
        Some(ws_words(value))
    } else {
        None
    }
}

/// An editor variable split at whitespace; `None` when it is blank.
pub fn split_editor_command(value: &str) -> (r: Option<Vec<String>>)
    ensures
        match editor_words(value@) {
            Some(w) => r matches Some(v) && views(v@) == w,
            None => r is None,
        },
{
    let words = split_whitespace(str_chars(value).as_slice());
    if words.len() == 0 {
        return None;
    }
    let mut out: Vec<String> = Vec::new();
    let mut i: usize = 0;
    while i < words.len()
        invariant
            i <= words@.len(),
            words@.len() == ws_words(value@).len(),
            forall|k: int| 0 <= k < words@.len() ==> #[trigger] words@[k]@ == ws_words(value@)[k],
            out@.len() == i,
            forall|k: int| 0 <= k < i ==> #[trigger] out@[k]@ == ws_words(value@)[k],
        decreases words@.len() - i,
    {
        out.push(chars_string(words[i].as_slice()));
        i = i + 1;
    }
    assert(views(out@) =~= ws_words(value@));
    Some(out)
}

/// The editors tried last, in order, when nothing names one.
pub open spec fn fallback_editors() -> Seq<Seq<char>> {
    seq!["nvim"@, "vim"@, "vi"@]
}

/// The editor: the configured command; else `$VISUAL`, then `$EDITOR`,
/// when not blank; else the first of `nvim`, `vim`, `vi` found on the
/// `PATH` (`found[k]` tells whether the `k`-th is).
pub open spec fn chosen_editor(
    config: Seq<Seq<char>>,
    visual: Option<Seq<char>>,
    editor: Option<Seq<char>>,
    found: Seq<bool>,
) -> Option<Seq<Seq<char>>> {
    if config.len() > 0 {
        Some(config)
    } else if visual is Some && editor_words(visual->0) is Some {
        editor_words(visual->0)
    } else if editor is Some && editor_words(editor->0) is Some {
        editor_words(editor->0)
    } else if found[0] {
        Some(seq![fallback_editors()[0]])
    } else if found[1] {
        Some(seq![fallback_editors()[1]])
    } else if found[2] {
        Some(seq![fallback_editors()[2]])
    } else {
        None
    }
}

pub open spec fn opt_view(o: Option<&str>) -> Option<Seq<char>> {
    match o {
        Some(s) => Some(s@),
        None => None,
    }
}

fn copy_strings(v: &Vec<String>) -> (r: Vec<String>)
    ensures
        views(r@) == views(v@),
{
    let mut out: Vec<String> = Vec::new();
    let mut i: usize = 0;
    while i < v.len()
        invariant
            i <= v@.len(),
            out@.len() == i,
            forall|k: int| 0 <= k < i ==> out@[k]@ == v@[k]@,
        decreases v@.len() - i,
    {
        out.push(v[i].clone());
        i = i + 1;
    }
    assert(views(out@) =~= views(v@));
    out
}

/// The editor to run; `visual` and `editor` are the values of `$VISUAL`
/// and `$EDITOR`, and `found` whether `nvim`, `vim` and `vi` are on the
/// `PATH`.
pub fn resolve_editor_command(config: &EditorConfig, visual: Option<&str>, editor: Option<&str>, found: &[bool])
    -> (r: Option<EditorCommand>)
    requires
        found@.len() == 3,
    ensures
        match chosen_editor(views(config.command@), opt_view(visual), opt_view(editor), found@) {
            Some(argv) => r matches Some(c) && views(c.argv@) == argv,
            None => r is None,
        },
{
    proof {
        reveal_strlit("nvim");
        reveal_strlit("vim");
        reveal_strlit("vi");
    }
    if config.command.len() > 0 {
        return Some(EditorCommand { argv: copy_strings(&config.command) });
    }
    match visual {
        Some(v) => match split_editor_command(v) {
            Some(argv) => {
                return Some(EditorCommand { argv });
            },
            None => {},
        },
        None => {},
    }
    match editor {
        Some(v) => match split_editor_command(v) {
            Some(argv) => {
                return Some(EditorCommand { argv });
            },
            None => {},
        },
        None => {},
    }
    let name = if found[0] {
        "nvim"
    } else if found[1] {
        "vim"
    } else if found[2] {
        "vi"
    } else {
        return None;
    };
    let mut argv: Vec<String> = Vec::new();
    argv.push(name.to_owned());
    assert(views(argv@) =~= seq![name@]);
    Some(EditorCommand { argv })
}

/// The program to run and its arguments: the command's, then the file.
pub open spec fn editor_invocation_of(argv: Seq<Seq<char>>, path: Seq<char>) -> Result<Seq<Seq<char>>, EditorError> {
    if argv.len() == 0 {
        Err(EditorError::EmptyCommand)
    } else {
        Ok(argv.push(path))
    }
}

/// The command line that opens the session's file in the editor.
pub fn editor_invocation(command: &EditorCommand, session: &PreparedEditorSession) -> (r: Result<Vec<String>, EditorError>)
    ensures
        match editor_invocation_of(views(command.argv@), session.path@) {
            Ok(a) => r matches Ok(v) && views(v@) == a,
            Err(e) => r == Err::<Vec<String>, EditorError>(e),
        },
{
    if command.argv.len() == 0 {
        return Err(EditorError::EmptyCommand);
    }
    let mut argv = copy_strings(&command.argv);
    let ghost before = views(argv@);
    argv.push(session.path.clone());
    assert(views(argv@) =~= before.push(session.path@));
    Ok(argv)
}

} // verus!
