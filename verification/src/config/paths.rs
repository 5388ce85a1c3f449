//! Where aish keeps its files: the root directory and the layout under it.
use vstd::prelude::*;
use crate::text::{chars_string, has_prefix, has_suffix, push_str_chars, str_chars, trim, trim_chars};

verus! {

broadcast use vstd::string::group_string_axioms;

/// `base` and a relative `name` joined as `PathBuf::join` joins them on
/// Unix: with a `/` between unless `base` is empty or already ends in one.
pub open spec fn joined(base: Seq<char>, name: Seq<char>) -> Seq<char> {
    if base.len() == 0 || base.last() == '/' {
        base + name
    } else {
        base + seq!['/'] + name
    }
}

/// `name` joined to `base`; `name` is a relative path.
pub fn join_path(base: &str, name: &str) -> (r: String)
    ensures
        r@ == joined(base@, name@),
{
    let b = str_chars(base);
    let mut out = chars_string(b.as_slice());
    if !(b.len() == 0 || b[b.len() - 1] == '/') {
        out.push('/');
    }
    push_str_chars(&mut out, name);
    out
}

/// A Unix path is absolute when it starts at the root.
pub open spec fn is_absolute(p: Seq<char>) -> bool {
    p.len() > 0 && p[0] == '/'
}

pub open spec fn opt_chars(o: Option<&str>) -> Option<Seq<char>> {
    match o {
        Some(s) => Some(s@),
        None => None,
    }
}

/// The root directory: `$AISH_HOME` as it is when it is not blank, else
/// `.aish` in the home directory (or in `.` when there is none).
pub open spec fn default_dir(aish_home: Option<Seq<char>>, home_dir: Option<Seq<char>>) -> Seq<char> {
    match aish_home {
        Some(h) if trim(h).len() > 0 => h,
        _ => joined(
            match home_dir {
                Some(d) => d,
                None => seq!['.'],
            },
            ".aish"@,
        ),
    }
}

/// The default root; `aish_home` is `$AISH_HOME`, `home_dir` the user's
/// home directory.
pub fn default_aish_dir(aish_home: Option<&str>, home_dir: Option<&str>) -> (r: String)
    ensures
        r@ == default_dir(opt_chars(aish_home), opt_chars(home_dir)),
{
    proof {
        reveal_strlit(".aish");
        reveal_strlit(".");
    }
    match aish_home {
        Some(h) => {
            if trim_chars(str_chars(h).as_slice()).len() > 0 {
                return h.to_owned();
            }
        },
        None => {},
    }
    match home_dir {
        Some(d) => join_path(d, ".aish"),
        None => join_path(".", ".aish"),
    }
}

/// Why no root directory could be found.
#[derive(Debug, Clone, Copy, PartialEq, Eq)]
pub enum AishDirError {
    RelativeAishHome,
    MissingHome,
}

impl AishDirError {
    pub fn message(&self) -> (r: &'static str)
        ensures
            r@ == match self {
                AishDirError::RelativeAishHome => "AISH_HOME must be set to an absolute path"@,
                AishDirError::MissingHome => "AISH_HOME or HOME must be set to an absolute path"@,
            },
    {
        match self {
            AishDirError::RelativeAishHome => "AISH_HOME must be set to an absolute path",
            AishDirError::MissingHome => "AISH_HOME or HOME must be set to an absolute path",
        }
    }
}

/// The root at run time: `$AISH_HOME` trimmed when it is not blank, which
/// must then be absolute; else `.aish` in `$HOME`, which must be set and
/// absolute.
pub open spec fn runtime_dir(aish_home: Option<Seq<char>>, home: Option<Seq<char>>) -> Result<Seq<char>, AishDirError> {
    match aish_home {
        Some(h) if trim(h).len() > 0 => if is_absolute(trim(h)) {
            Ok(trim(h))
        } else {
            Err(AishDirError::RelativeAishHome)
        },
        _ => match home {
            Some(d) => if is_absolute(d) {
                Ok(joined(d, ".aish"@))
            } else {
                Err(AishDirError::MissingHome)
            },
            None => Err(AishDirError::MissingHome),
        },
    }
}

/// The root at run time; `aish_home` is `$AISH_HOME` and `home` is `$HOME`.
pub fn runtime_aish_dir(aish_home: Option<&str>, home: Option<&str>) -> (r: Result<String, AishDirError>)
    ensures
        match runtime_dir(opt_chars(aish_home), opt_chars(home)) {
            Ok(p) => r matches Ok(s) && s@ == p,
            Err(e) => r == Err::<String, AishDirError>(e),
        },
{
    proof {
        reveal_strlit(".aish");
    }
    match aish_home {
        Some(h) => {
            let t = trim_chars(str_chars(h).as_slice());
            if t.len() > 0 {
                if t[0] == '/' {
                    return Ok(chars_string(t.as_slice()));
                } else {
                    return Err(AishDirError::RelativeAishHome);
                }
            }
        },
        None => {},
    }
    match home {
        Some(d) => {
            let v = str_chars(d);
            if v.len() > 0 && v[0] == '/' {
                Ok(join_path(d, ".aish"))
            } else {
                Err(AishDirError::MissingHome)
            }
        },
        None => Err(AishDirError::MissingHome),
    }
}

/// The files and directories under the root.
#[derive(Debug, Clone, PartialEq, Eq)]
pub struct DirectoryLayout {
    pub root: String,
    pub config: String,
    pub history: String,
    pub regular_history: String,
    pub ai_history: String,
    pub draft_history: String,
    pub notes: String,
    pub templates: String,
    pub template_store: String,
    pub secrets: String,
    pub logs: String,
    pub events: String,
    pub cache: String,
    pub runtime_cache: String,
    pub gitignore: String,
}

impl DirectoryLayout {
    /// The layout under `root`.
    pub fn new(root: &str) -> (r: Self)
        ensures
            r.root@ == root@,
            r.config@ == joined(root@, "config.toml"@),
            r.history@ == joined(root@, "history"@),
            r.regular_history@ == joined(joined(root@, "history"@), "regular.jsonl"@),
            r.ai_history@ == joined(joined(root@, "history"@), "ai.jsonl"@),
            r.draft_history@ == joined(joined(root@, "history"@), "draft.jsonl"@),
            r.notes@ == joined(joined(root@, "history"@), "notes.jsonl"@),
            r.templates@ == joined(root@, "templates"@),
            r.template_store@ == joined(joined(root@, "templates"@), "templates.jsonl"@),
            r.secrets@ == joined(root@, "secrets"@),
            r.logs@ == joined(root@, "logs"@),
            r.events@ == joined(joined(root@, "logs"@), "events.jsonl"@),
            r.cache@ == joined(root@, "cache"@),
            r.runtime_cache@ == joined(joined(root@, "cache"@), "runtime"@),
            r.gitignore@ == joined(root@, ".gitignore"@),
    {
        proof {
            reveal_strlit("config.toml");
            reveal_strlit("history");
            reveal_strlit("regular.jsonl");
            reveal_strlit("ai.jsonl");
            reveal_strlit("draft.jsonl");
            reveal_strlit("notes.jsonl");
            reveal_strlit("templates");
            reveal_strlit("templates.jsonl");
            reveal_strlit("secrets");
            reveal_strlit("logs");
            reveal_strlit("events.jsonl");
            reveal_strlit("cache");
            reveal_strlit("runtime");
            reveal_strlit(".gitignore");
        }
        let history = join_path(root, "history");
        let templates = join_path(root, "templates");
        let logs = join_path(root, "logs");
        let cache = join_path(root, "cache");
        DirectoryLayout {
            root: root.to_owned(),
            config: join_path(root, "config.toml"),
            regular_history: join_path(history.as_str(), "regular.jsonl"),
            ai_history: join_path(history.as_str(), "ai.jsonl"),
            draft_history: join_path(history.as_str(), "draft.jsonl"),
            notes: join_path(history.as_str(), "notes.jsonl"),
            template_store: join_path(templates.as_str(), "templates.jsonl"),
            secrets: join_path(root, "secrets"),
            events: join_path(logs.as_str(), "events.jsonl"),
            runtime_cache: join_path(cache.as_str(), "runtime"),
            gitignore: join_path(root, ".gitignore"),
            history,
            templates,
            logs,
            cache,
        }
    }
}

} // verus!
