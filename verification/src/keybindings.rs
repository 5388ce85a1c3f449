//! The key bindings the editor offers, for the help screen.
use vstd::prelude::*;

verus! {

/// A key, what it does, and whether the editor handles it yet.
#[derive(Debug, Clone, Copy, PartialEq, Eq)]
pub struct KeyBinding {
    pub key: &'static str,
    pub action: &'static str,
    pub implemented: bool,
}

pub open spec fn binding_view(b: KeyBinding) -> (Seq<char>, Seq<char>, bool) {
    (b.key@, b.action@, b.implemented)
}

/// The default bindings, in the order the help screen lists them.
pub open spec fn default_binding_table() -> Seq<(Seq<char>, Seq<char>, bool)> {
    seq![
        ("Ctrl-C"@, "clear the draft, cancel continuation, or reject context confirmation"@, true),
        ("Ctrl-D"@, "exit on empty draft or delete character"@, true),
        ("Ctrl-L"@, "clear screen"@, true),
        ("Ctrl-A"@, "move to start"@, true),
        ("Ctrl-E"@, "move to end"@, true),
        ("Ctrl-U"@, "delete to start"@, true),
        ("Ctrl-K"@, "delete to end"@, true),
        ("Ctrl-W"@, "delete previous word"@, true),
        ("Alt-Backspace"@, "delete previous word"@, true),
        ("Alt-D / Alt-Delete"@, "delete next word"@, true),
        ("Alt-B / Alt-Left"@, "move previous word"@, true),
        ("Alt-F / Alt-Right"@, "move next word"@, true),
        ("Tab"@, "empty draft cycles modes; non-empty draft shows or accepts completion"@, true),
        ("Enter"@, "submit the draft or selected read-only item"@, true),
        ("Up / Down"@, "browse saved drafts, history, or AI selections"@, true),
        ("Ctrl-R"@, "search history with the configured picker"@, true),
        ("Esc"@, "clear draft and return to draft mode"@, true),
        ("Ctrl-X Ctrl-E"@, "open the configured external editor"@, true),
        ("Ctrl-X Ctrl-F"@, "open the file picker"@, true),
        ("Ctrl-X Ctrl-T"@, "open the template picker"@, true),
        ("Ctrl-X Ctrl-B"@, "open the git branch picker"@, true),
        ("Ctrl-X Ctrl-V"@, "open the environment variable picker"@, true)
    ]
}

pub fn default_keybindings() -> (r: Vec<KeyBinding>)
    ensures
        r@.map_values(|b: KeyBinding| binding_view(b)) == default_binding_table(),
{
    let mut v: Vec<KeyBinding> = Vec::new();
    v.push(KeyBinding { key: "Ctrl-C", action: "clear the draft, cancel continuation, or reject context confirmation", implemented: true });
    v.push(KeyBinding { key: "Ctrl-D", action: "exit on empty draft or delete character", implemented: true });
    v.push(KeyBinding { key: "Ctrl-L", action: "clear screen", implemented: true });
    v.push(KeyBinding { key: "Ctrl-A", action: "move to start", implemented: true });
    v.push(KeyBinding { key: "Ctrl-E", action: "move to end", implemented: true });
    v.push(KeyBinding { key: "Ctrl-U", action: "delete to start", implemented: true });
    v.push(KeyBinding { key: "Ctrl-K", action: "delete to end", implemented: true });
    v.push(KeyBinding { key: "Ctrl-W", action: "delete previous word", implemented: true });
    v.push(KeyBinding { key: "Alt-Backspace", action: "delete previous word", implemented: true });
    v.push(KeyBinding { key: "Alt-D / Alt-Delete", action: "delete next word", implemented: true });
    v.push(KeyBinding { key: "Alt-B / Alt-Left", action: "move previous word", implemented: true });
    v.push(KeyBinding { key: "Alt-F / Alt-Right", action: "move next word", implemented: true });
    v.push(KeyBinding { key: "Tab", action: "empty draft cycles modes; non-empty draft shows or accepts completion", implemented: true });
    v.push(KeyBinding { key: "Enter", action: "submit the draft or selected read-only item", implemented: true });
    v.push(KeyBinding { key: "Up / Down", action: "browse saved drafts, history, or AI selections", implemented: true });
    v.push(KeyBinding { key: "Ctrl-R", action: "search history with the configured picker", implemented: true });
    v.push(KeyBinding { key: "Esc", action: "clear draft and return to draft mode", implemented: true });
    v.push(KeyBinding { key: "Ctrl-X Ctrl-E", action: "open the configured external editor", implemented: true });
    v.push(KeyBinding { key: "Ctrl-X Ctrl-F", action: "open the file picker", implemented: true });
    v.push(KeyBinding { key: "Ctrl-X Ctrl-T", action: "open the template picker", implemented: true });
    v.push(KeyBinding { key: "Ctrl-X Ctrl-B", action: "open the git branch picker", implemented: true });
    v.push(KeyBinding { key: "Ctrl-X Ctrl-V", action: "open the environment variable picker", implemented: true });
    assert(v@.map_values(|b: KeyBinding| binding_view(b)) =~= default_binding_table());
    v
}

} // verus!
