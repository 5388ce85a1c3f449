//! How the backend shell is started: which program, with which arguments,
//! and the command that sets up its markers.
use vstd::prelude::*;
use crate::pty::ShellIntegration;
use crate::pty::filter::{lead_in, lead_in_exec, trim_start_in};
use crate::pty::parser::{find_from, lemma_first_from_found, opt_view};
use crate::pty::protocol::{ready_marker, ready_text, start_marker, start_text};
use crate::text::{
    chars_string, decimal, first_from, has_suffix, push_chars, push_decimal, push_str_chars, str_chars,
    sub_chars, trim, trim_chars,
};

verus! {

broadcast use vstd::string::group_string_axioms;

/// The descriptor on which the shell reports to the control channel.
pub const CONTROL_FD: i32 = 64;

/// What the backend shell is started with.
#[derive(Debug, Clone, PartialEq, Eq)]
pub struct ShellLaunch {
    pub program: String,
    pub args: Vec<String>,
    pub init_command: String,
    pub integration: ShellIntegration,
}

/// What the installed fish accepts; found out by running it.
#[derive(Debug, Clone, Copy, PartialEq, Eq, Default)]
pub struct FishSupport {
    pub private_mode: bool,
    pub features: bool,
}

// ---------------------------------------------------------------------
// Replacing placeholders
// ---------------------------------------------------------------------

/// `s` from `i` on with each occurrence of `pat`, found left to right and
/// without overlap, replaced by `with`.
pub open spec fn replaced_from(s: Seq<char>, pat: Seq<char>, with: Seq<char>, i: int) -> Seq<char>
    decreases s.len() + 1 - i,
{
    if i < 0 || i > s.len() || pat.len() == 0 {
        seq![]
    } else {
        match first_from(s, pat, i) {
            None => s.skip(i),
            Some(m) => if i <= m && m + pat.len() <= s.len() {
                s.subrange(i, m) + with + replaced_from(s, pat, with, m + pat.len())
            } else {
                seq![]
            },
        }
    }
}

/// `str::replace` with a nonempty pattern.
pub open spec fn replaced(s: Seq<char>, pat: Seq<char>, with: Seq<char>) -> Seq<char> {
    replaced_from(s, pat, with, 0)
}

fn replace_chars(s: &[char], pat: &[char], with: &[char]) -> (r: Vec<char>)
    requires
        pat@.len() > 0,
    ensures
        r@ == replaced(s@, pat@, with@),
{
    let mut out: Vec<char> = Vec::new();
    let mut i: usize = 0;
    while i <= s.len()
        invariant
            i <= s@.len() + 1,
            pat@.len() > 0,
            i <= s@.len() ==> out@ + replaced_from(s@, pat@, with@, i as int) == replaced(s@, pat@, with@),
            i > s@.len() ==> out@ == replaced(s@, pat@, with@),
        decreases s@.len() + 1 - i,
    {
        match find_from(s, pat, i) {
            None => {
                let rest = sub_chars(s, i, s.len());
                assert(rest@ =~= s@.skip(i as int));
                crate::text::extend_chars(&mut out, rest.as_slice());
                return out;
            },
            Some(m) => {
                proof {
                    lemma_first_from_found(s@, pat@, i as int);
                }
                let piece = sub_chars(s, i, m);
                let ghost before = out@;
                crate::text::extend_chars(&mut out, piece.as_slice());
                crate::text::extend_chars(&mut out, with);
                assert(out@ + replaced_from(s@, pat@, with@, m + pat@.len()) =~= before + replaced_from(
                    s@,
                    pat@,
                    with@,
                    i as int,
                ));
                i = m + pat.len();
            },
        }
    }
    out
}

/// The init template with the markers and the control descriptor filled in.
pub open spec fn filled_template(template: Seq<char>, ready: Seq<char>, start: Option<Seq<char>>, fd: i32) -> Seq<char> {
    replaced(
        replaced(
            replaced(template, "@READY_MARKER@"@, ready),
            "@START_MARKER@"@,
            match start {
                Some(s) => s,
                None => seq![],
            },
        ),
        "@CONTROL_FD@"@,
        decimal(fd as int),
    )
}

/// Fills `@READY_MARKER@`, `@START_MARKER@` and `@CONTROL_FD@` in.
pub fn fill_shell_init_template(template: &str, ready_marker: &str, start_marker: Option<&str>, control_fd: i32) -> (r: String)
    ensures
        r@ == filled_template(template@, ready_marker@, opt_str(start_marker), control_fd),
{
    let t = str_chars(template);
    let p1 = str_chars("@READY_MARKER@");
    let p2 = str_chars("@START_MARKER@");
    let p3 = str_chars("@CONTROL_FD@");
    proof {
        reveal_strlit("@READY_MARKER@");
        reveal_strlit("@START_MARKER@");
        reveal_strlit("@CONTROL_FD@");
    }
    let a = replace_chars(t.as_slice(), p1.as_slice(), str_chars(ready_marker).as_slice());
    let start = match start_marker {
        Some(s) => str_chars(s),
        None => Vec::new(),
    };
    assert(start@ == match opt_str(start_marker) {
        Some(s) => s,
        None => Seq::<char>::empty(),
    });
    let b = replace_chars(a.as_slice(), p2.as_slice(), start.as_slice());
    let mut fd = String::new();
    push_decimal(&mut fd, control_fd as i64);
    let c = replace_chars(b.as_slice(), p3.as_slice(), str_chars(fd.as_str()).as_slice());
    chars_string(c.as_slice())
}

pub open spec fn opt_str(o: Option<&str>) -> Option<Seq<char>> {
    match o {
        Some(s) => Some(s@),
        None => None,
    }
}

// ---------------------------------------------------------------------
// The shell and its name
// ---------------------------------------------------------------------

/// The configured shell unless it is empty or `auto`; then `$SHELL`
/// unless that is empty; then `/bin/bash`. Each is trimmed.
pub open spec fn resolved_shell(configured: Seq<char>, env_shell: Option<Seq<char>>) -> Seq<char> {
    let c = trim(configured);
    if c != "auto"@ && c.len() > 0 {
        c
    } else {
        match env_shell {
            Some(e) => if trim(e).len() > 0 {
                trim(e)
            } else {
                "/bin/bash"@
            },
            None => "/bin/bash"@,
        }
    }
}

/// The shell program to start; `env_shell` is the value of `$SHELL`.
pub fn resolve_shell(configured_shell: &str, env_shell: Option<&str>) -> (r: String)
    ensures
        r@ == resolved_shell(configured_shell@, opt_str(env_shell)),
{
    let c = trim_chars(str_chars(configured_shell).as_slice());
    let auto = str_chars("auto");
    if !crate::text::chars_eq(c.as_slice(), auto.as_slice()) && c.len() > 0 {
        return chars_string(c.as_slice());
    }
    match env_shell {
        Some(e) => {
            let t = trim_chars(str_chars(e).as_slice());
            if t.len() > 0 {
                chars_string(t.as_slice())
            } else {
                "/bin/bash".to_owned()
            }
        },
        None => "/bin/bash".to_owned(),
    }
}

/// The final component of a path, as `std::path::Path::file_name` gives it.
pub uninterp spec fn path_file_name(path: Seq<char>) -> Option<Seq<char>>;

/// `std::path::Path::file_name` of a path given as text: the name of its
/// last component, `None` when the path ends in `..` or has no name.
#[verifier::external_body]
fn file_name_of(path: &str) -> (r: Option<String>)
    ensures
        opt_view(r) == path_file_name(path@),
{
    std::path::Path::new(path).file_name().and_then(|n| n.to_str()).map(|n| n.to_owned())
}

pub open spec fn ascii_lower_char(c: char) -> char {
    if 'A' <= c && c <= 'Z' {
        ((c as u32) + 32) as char
    } else {
        c
    }
}

/// `s` with ASCII capitals made small, as `str::to_ascii_lowercase` does.
pub open spec fn ascii_lower(s: Seq<char>) -> Seq<char> {
    s.map_values(|c: char| ascii_lower_char(c))
}

fn to_ascii_lowercase(v: &[char]) -> (r: Vec<char>)
    ensures
        r@ == ascii_lower(v@),
{
    let mut out: Vec<char> = Vec::new();
    let mut i: usize = 0;
    while i < v.len()
        invariant
            i <= v@.len(),
            out@ == ascii_lower(v@.take(i as int)),
        decreases v@.len() - i,
    {
        let c = v[i];
        let l = if 'A' <= c && c <= 'Z' {
            let b = c as u8;
            assert(b == c as u32);
            (b + 32) as char
        } else {
            c
        };
        out.push(l);
        i = i + 1;
        assert(out@ =~= ascii_lower(v@.take(i as int)));
    }
    assert(v@.take(v@.len() as int) =~= v@);
    out
}

/// The name of the shell: the file name of the program without leading
/// dashes, in lower case, without `.exe`.
pub open spec fn shell_name_of(program: Seq<char>) -> Seq<char> {
    let base = match path_file_name(trim(program)) {
        Some(n) => n,
        None => seq![],
    };
    let name = ascii_lower(trim_start_in(base, seq!['-']));
    if has_suffix(name, ".exe"@) {
        name.take(name.len() - 4)
    } else {
        name
    }
}

pub fn shell_name(program: &str) -> (r: String)
    ensures
        r@ == shell_name_of(program@),
{
    let t = chars_string(trim_chars(str_chars(program).as_slice()).as_slice());
    let base = match file_name_of(t.as_str()) {
        Some(n) => str_chars(n.as_str()),
        None => Vec::new(),
    };
    let dash: Vec<char> = vec!['-'];
    assert(dash@ =~= seq!['-']);
    let lead = lead_in_exec(base.as_slice(), dash.as_slice());
    let rest = sub_chars(base.as_slice(), lead, base.len());
    let name = to_ascii_lowercase(rest.as_slice());
    let exe = str_chars(".exe");
    proof {
        reveal_strlit(".exe");
    }
    if crate::text::ends_with(name.as_slice(), exe.as_slice()) {
        chars_string(sub_chars(name.as_slice(), 0, name.len() - 4).as_slice())
    } else {
        chars_string(name.as_slice())
    }
}

// ---------------------------------------------------------------------
// The launch
// ---------------------------------------------------------------------

pub const BASH_INIT_TEMPLATE: &'static str = r#" set +o history 2>/dev/null || true
stty -echo
 {
export HISTCONTROL=ignorespace${HISTCONTROL:+:$HISTCONTROL}
unset AISH_CONTROL_FD
__aish_prompt_command_set=0
__aish_prompt_command_is_array=0
__aish_prompt_command_string=
__aish_prompt_command_array=()
if declare -p PROMPT_COMMAND >/dev/null 2>&1; then
  __aish_prompt_command_set=1
  case "$(declare -p PROMPT_COMMAND 2>/dev/null)" in
    declare\ -a*|declare\ -A*)
      __aish_prompt_command_is_array=1
      __aish_prompt_command_array=("${PROMPT_COMMAND[@]}")
      ;;
    *)
      __aish_prompt_command_string=$PROMPT_COMMAND
      ;;
  esac
fi
PROMPT_COMMAND=
trap - DEBUG 2>/dev/null || true
__aish_preserve_status() {
  return "$1"
}
__aish_disable_history() {
  unset HISTFILE
  HISTSIZE=0
  HISTIGNORE='*'
  set +o history 2>/dev/null || true
  history -c 2>/dev/null || true
}
__aish_run_prompt_command() {
  if [ "$__aish_prompt_command_set" = 1 ]; then
    if [ "$__aish_prompt_command_is_array" = 1 ]; then
      local __aish_pc
      for __aish_pc in "${__aish_prompt_command_array[@]}"; do
        eval "$__aish_pc"
      done
    else
      eval "$__aish_prompt_command_string"
    fi
  fi
}
__aish_emit_ready() {
  local __aish_status=$?
  __aish_disable_history
  {
    printf '@READY_MARKER@\t%s\t%s\n' "$__aish_status" "$PWD" >&@CONTROL_FD@
  } 2>/dev/null || true
  stty -echo
  __aish_run_prompt_command >/dev/null 2>&1
  __aish_disable_history
  return "$__aish_status"
}
bind 'set enable-bracketed-paste off' 2>/dev/null || true
PS0=''
PS1=''
PS2=''
__aish_disable_history
stty -echo
PROMPT_COMMAND=__aish_emit_ready
}
"#;

pub const ZSH_INIT_TEMPLATE: &'static str = r#" setopt histignorespace; unset HISTFILE; HISTSIZE=0; SAVEHIST=0
 unsetopt append_history inc_append_history inc_append_history_time share_history 2>/dev/null || true
 fc -p /dev/null 0 0 2>/dev/null || true
stty -echo
 {
unset AISH_CONTROL_FD
unset HISTFILE
HISTSIZE=0
SAVEHIST=0
unsetopt append_history inc_append_history inc_append_history_time share_history 2>/dev/null || true
fc -p /dev/null 0 0 2>/dev/null || true
unsetopt zle prompt_cr prompt_sp
PROMPT=''
RPROMPT=''
PROMPT2=''
autoload -Uz add-zsh-hook
typeset -ga __aish_user_preexec_functions
typeset -ga __aish_user_precmd_functions
__aish_user_preexec_functions=(${preexec_functions:#__aish_preexec})
__aish_user_precmd_functions=(${precmd_functions:#__aish_precmd})
if functions preexec >/dev/null 2>&1; then
  functions -c preexec __aish_user_preexec_function 2>/dev/null || true
  unfunction preexec 2>/dev/null || true
fi
if functions precmd >/dev/null 2>&1; then
  functions -c precmd __aish_user_precmd_function 2>/dev/null || true
  unfunction precmd 2>/dev/null || true
fi
function __aish_preserve_status() {
  return "$1"
}
function __aish_disable_history() {
  unset HISTFILE
  HISTSIZE=0
  SAVEHIST=0
  unsetopt append_history inc_append_history inc_append_history_time share_history 2>/dev/null || true
}
function __aish_run_user_preexec() {
  if functions __aish_user_preexec_function >/dev/null 2>&1; then
    __aish_user_preexec_function "$@" >/dev/null 2>&1
  fi
  local __aish_fn
  for __aish_fn in ${__aish_user_preexec_functions[@]}; do
    if functions "$__aish_fn" >/dev/null 2>&1; then
      "$__aish_fn" "$@" >/dev/null 2>&1
    fi
  done
}
function __aish_run_user_precmd() {
  if functions __aish_user_precmd_function >/dev/null 2>&1; then
    __aish_user_precmd_function >/dev/null 2>&1
  fi
  local __aish_fn
  for __aish_fn in ${__aish_user_precmd_functions[@]}; do
    if functions "$__aish_fn" >/dev/null 2>&1; then
      "$__aish_fn" >/dev/null 2>&1
    fi
  done
}
function __aish_emit_start() {
  {
    printf '@START_MARKER@\t%s\n' "$1" >&@CONTROL_FD@
  } 2>/dev/null || true
}
function __aish_preexec() {
  stty echo
  __aish_disable_history
  __aish_run_user_preexec "$@"
  __aish_emit_start "$1"
}
function __aish_precmd() {
  local __aish_status=$?
  __aish_disable_history
  __aish_run_user_precmd
  __aish_disable_history
  stty -echo
  {
    printf '@READY_MARKER@\t%s\t%s\n' "$__aish_status" "$PWD" >&@CONTROL_FD@
  } 2>/dev/null || true
  return "$__aish_status"
}
preexec_functions=(__aish_preexec)
precmd_functions=(__aish_precmd)
__aish_disable_history
}
"#;

pub const FISH_INIT_TEMPLATE: &'static str = r#"set -g fish_history ""; builtin history clear-session >/dev/null 2>&1; or true
stty -echo
begin
set -g __aish_initializing
set -e AISH_CONTROL_FD
set -g fish_greeting
set -g fish_history ""
function __aish_clear_fish_history
  set -g fish_history ""
  builtin history clear-session >/dev/null 2>&1; or true
end
__aish_clear_fish_history
function fish_title
end
set -g __aish_user_fish_preexec_functions
set -g __aish_user_fish_postexec_functions
set -l __aish_i 0
for __aish_line in (functions --handlers-type generic 2>/dev/null | string match -r '^fish_preexec[ \t].+')
  set -l __aish_fn (string replace -r '^fish_preexec[ \t]+' '' -- $__aish_line)
  if test "$__aish_fn" != "__aish_preexec"
    set __aish_i (math $__aish_i + 1)
    set -l __aish_copy "__aish_user_fish_preexec_$__aish_i"
    functions -c $__aish_fn $__aish_copy 2>/dev/null
    and functions -e $__aish_fn 2>/dev/null
    and set -a __aish_user_fish_preexec_functions $__aish_copy
  end
end
set __aish_i 0
for __aish_line in (functions --handlers-type generic 2>/dev/null | string match -r '^fish_postexec[ \t].+')
  set -l __aish_fn (string replace -r '^fish_postexec[ \t]+' '' -- $__aish_line)
  if test "$__aish_fn" != "__aish_postexec"
    set __aish_i (math $__aish_i + 1)
    set -l __aish_copy "__aish_user_fish_postexec_$__aish_i"
    functions -c $__aish_fn $__aish_copy 2>/dev/null
    and functions -e $__aish_fn 2>/dev/null
    and set -a __aish_user_fish_postexec_functions $__aish_copy
  end
end
function __aish_preserve_status
  return $argv[1]
end
function __aish_restore_status
  return $argv[1]
end
function __aish_run_user_fish_preexec
  for __aish_fn in $__aish_user_fish_preexec_functions
    $__aish_fn $argv >/dev/null 2>&1
  end
end
function __aish_run_user_fish_postexec
  set -l __aish_status $argv[1]
  set -e argv[1]
  for __aish_fn in $__aish_user_fish_postexec_functions
    __aish_restore_status $__aish_status
    $__aish_fn $argv >/dev/null 2>&1
  end
end
function __aish_preexec --on-event fish_preexec
  if set -q __aish_initializing
    return
  end
  __aish_clear_fish_history
  stty echo
  __aish_run_user_fish_preexec $argv
  printf '@START_MARKER@\t%s\n' $argv[1] >&@CONTROL_FD@ 2>/dev/null; or true
end
function __aish_emit_ready
  set -l __aish_status $status
  if test (count $argv) -gt 0
    set __aish_status $argv[1]
  end
  printf '@READY_MARKER@\t%s\t%s\n' $__aish_status $PWD >&@CONTROL_FD@ 2>/dev/null; or true
  return $__aish_status
end
function __aish_postexec --on-event fish_postexec
  set -l __aish_status $status
  if set -q __aish_initializing
    return
  end
  if set -q __aish_suppress_next_postexec
    set -e __aish_suppress_next_postexec
    return
  end
  stty -echo
  __aish_run_user_fish_postexec $__aish_status $argv
  __aish_clear_fish_history
  __aish_emit_ready $__aish_status
end
function fish_prompt
end
function fish_right_prompt
end
function fish_mode_prompt
end
function __aish_finish_init
  set -g __aish_suppress_next_postexec
  set -e __aish_initializing
  __aish_clear_fish_history
  __aish_emit_ready
end
end
__aish_finish_init
"#;

/// The setup of a shell without hooks: a status-keeping function, no echo,
/// and the ready marker with the working directory.
pub open spec fn marker_init_text() -> Seq<char> {
    "__aish_preserve_status() { return \"$1\"; }; stty -echo; printf '\\n"@ + ready_text()
        + "\\t%s\\n' \"$PWD\"\n"@
}

pub open spec fn string_views(v: Vec<String>) -> Seq<Seq<char>> {
    v@.map_values(|s: String| s@)
}

/// The arguments for fish: private mode and the features that keep it
/// quiet, each only where the installed fish takes it.
pub open spec fn fish_args(support: FishSupport) -> Seq<Seq<char>> {
    (if support.private_mode {
        seq!["--private"@]
    } else {
        seq![]
    }) + (if support.features {
        seq!["--features"@, "no-query-term,no-mark-prompt"@]
    } else {
        seq![]
    })
}

pub fn fish_launch_args(support: FishSupport) -> (r: Vec<String>)
    ensures
        string_views(r) == fish_args(support),
{
    let mut args: Vec<String> = Vec::new();
    if support.private_mode {
        args.push("--private".to_owned());
    }
    if support.features {
        args.push("--features".to_owned());
        args.push("no-query-term,no-mark-prompt".to_owned());
    }
    assert(string_views(args) =~= fish_args(support));
    args
}

/// How each shell is started: bash and zsh interactively with their hook
/// setups, fish with its events, any other shell with a marker command.
pub open spec fn launch_of(program: Seq<char>, support: FishSupport) -> (Seq<Seq<char>>, Seq<char>, ShellIntegration) {
    let name = shell_name_of(program);
    if name == "bash"@ {
        (seq!["-i"@], filled_template(BASH_INIT_TEMPLATE@, ready_text(), None, CONTROL_FD), ShellIntegration::BashPromptCommand)
    } else if name == "zsh"@ {
        (
            seq!["-i"@, "-o"@, "histignorespace"@],
            filled_template(ZSH_INIT_TEMPLATE@, ready_text(), Some(start_text()), CONTROL_FD),
            ShellIntegration::ZshHooks,
        )
    } else if name == "fish"@ {
        (fish_args(support), filled_template(FISH_INIT_TEMPLATE@, ready_text(), Some(start_text()), CONTROL_FD), ShellIntegration::FishEvents)
    } else {
        (seq![], marker_init_text(), ShellIntegration::MarkerCommand)
    }
}

/// The launch for the configured shell; `env_shell` is `$SHELL` and
/// `fish` what the installed fish supports.
pub fn shell_launch(configured_shell: &str, env_shell: Option<&str>, fish: FishSupport) -> (r: ShellLaunch)
    ensures
        r.program@ == resolved_shell(configured_shell@, opt_str(env_shell)),
        string_views(r.args) == launch_of(r.program@, fish).0,
        r.init_command@ == launch_of(r.program@, fish).1,
        r.integration == launch_of(r.program@, fish).2,
{
    let program = resolve_shell(configured_shell, env_shell);
    let name = str_chars(shell_name(program.as_str()).as_str());
    proof {
        reveal_strlit("bash");
        reveal_strlit("zsh");
        reveal_strlit("fish");
    }
    if crate::text::chars_eq(name.as_slice(), str_chars("bash").as_slice()) {
        let mut args: Vec<String> = Vec::new();
        args.push("-i".to_owned());
        assert(string_views(args) =~= seq!["-i"@]);
        let init = fill_shell_init_template(BASH_INIT_TEMPLATE, ready_marker(), None, CONTROL_FD);
        return ShellLaunch { program, args, init_command: init, integration: ShellIntegration::BashPromptCommand };
    }
    if crate::text::chars_eq(name.as_slice(), str_chars("zsh").as_slice()) {
        let mut args: Vec<String> = Vec::new();
        args.push("-i".to_owned());
        args.push("-o".to_owned());
        args.push("histignorespace".to_owned());
        assert(string_views(args) =~= seq!["-i"@, "-o"@, "histignorespace"@]);
        let init = fill_shell_init_template(ZSH_INIT_TEMPLATE, ready_marker(), Some(start_marker()), CONTROL_FD);
        return ShellLaunch { program, args, init_command: init, integration: ShellIntegration::ZshHooks };
    }
    if crate::text::chars_eq(name.as_slice(), str_chars("fish").as_slice()) {
        let args = fish_launch_args(fish);
        let init = fill_shell_init_template(FISH_INIT_TEMPLATE, ready_marker(), Some(start_marker()), CONTROL_FD);
        return ShellLaunch { program, args, init_command: init, integration: ShellIntegration::FishEvents };
    }
    let mut init = String::new();
    push_str_chars(&mut init, "__aish_preserve_status() { return \"$1\"; }; stty -echo; printf '\\n");
    push_str_chars(&mut init, ready_marker());
    push_str_chars(&mut init, "\\t%s\\n' \"$PWD\"\n");
    let args: Vec<String> = Vec::new();
    assert(string_views(args) =~= Seq::<Seq<char>>::empty());
    ShellLaunch { program, args, init_command: init, integration: ShellIntegration::MarkerCommand }
}

} // verus!
