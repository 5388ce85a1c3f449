//! Bringing a loaded configuration into range: blank or unknown values
//! take their defaults, text is trimmed, remotes are checked.
use vstd::prelude::*;
use crate::completion::matching::views;
use crate::git_remote::{sanitize_git_remote, sanitized_remote, valid_remote_name, valid_template_remote_name};
use crate::text::{chars_eq, chars_string, str_chars, trim, trim_chars};
use super::model::{
    default_ai_prompt, default_draft_prompt, default_history_prompt, AiConfig, CompletionConfig,
    CompletionMode, Config, ContextConfig, EditorConfig, EncryptionConfig, PasteConfig, PromptConfig,
    ShellConfig, StorageConfig, SyncConfig, TemplateRemoteConfig, TemplateSharingConfig,
};

verus! {

broadcast use vstd::string::group_string_axioms;

pub open spec fn or_default(v: Seq<char>, d: Seq<char>) -> Seq<char> {
    if v.len() == 0 {
        d
    } else {
        v
    }
}

/// The ways a multi-line paste can be handled.
pub open spec fn multiline_known(m: Seq<char>) -> bool {
    m == "editor"@ || m == "execute"@ || m == "discard"@
}

/// The remote with its name trimmed and its URL sanitized (empty when
/// refused).
pub open spec fn remote_fixed(r: (Seq<char>, Seq<char>)) -> (Seq<char>, Seq<char>) {
    (
        trim(r.0),
        match sanitized_remote(r.1) {
            Some(u) => u,
            None => seq![],
        },
    )
}

/// A remote is kept when its name is a stable path component and its URL
/// survived sanitizing.
pub open spec fn remote_kept(r: (Seq<char>, Seq<char>)) -> bool {
    r.0.len() > 0 && valid_remote_name(r.0) && r.1.len() > 0
}

pub open spec fn has_name(s: Seq<(Seq<char>, Seq<char>)>, n: Seq<char>) -> bool {
    exists|k: int| 0 <= k < s.len() && (#[trigger] s[k]).0 == n
}

/// The remotes of `s` whose name no earlier remote has.
pub open spec fn first_by_name(s: Seq<(Seq<char>, Seq<char>)>) -> Seq<(Seq<char>, Seq<char>)>
    decreases s.len(),
{
    if s.len() == 0 {
        seq![]
    } else {
        let d = first_by_name(s.drop_last());
        if has_name(s.drop_last(), s.last().0) {
            d
        } else {
            d.push(s.last())
        }
    }
}

pub open spec fn remote_views(v: Seq<TemplateRemoteConfig>) -> Seq<(Seq<char>, Seq<char>)> {
    v.map_values(|r: TemplateRemoteConfig| (r.name@, r.remote@))
}

/// The template remotes after normalization.
pub open spec fn normalized_remotes(v: Seq<TemplateRemoteConfig>) -> Seq<(Seq<char>, Seq<char>)> {
    first_by_name(
        remote_views(v).map_values(|r: (Seq<char>, Seq<char>)| remote_fixed(r)).filter(
            |r: (Seq<char>, Seq<char>)| remote_kept(r),
        ),
    )
}

/// Completion settings brought into range, with an explicit mode applied
/// to the older switches.
pub open spec fn normalized_completion(c: CompletionConfig) -> CompletionConfig {
    let mode_on = match c.mode {
        Some(m) => m != CompletionMode::Off,
        None => c.enabled,
    };
    let inline = match c.mode {
        Some(m) => m == CompletionMode::Auto,
        None => c.inline,
    };
    CompletionConfig {
        mode: c.mode,
        enabled: mode_on,
        max_results: if c.max_results == 0 {
            5
        } else {
            c.max_results
        },
        coalesce_ms: if c.coalesce_ms > 1_000 {
            50
        } else {
            c.coalesce_ms
        },
        display_delay_ms: if c.display_delay_ms > 1_000 {
            120
        } else {
            c.display_delay_ms
        },
        ignore_spaces: c.ignore_spaces,
        template_first: c.template_first,
        inline: inline,
        fuzzy: c.fuzzy,
        tab_accept: c.tab_accept,
        match_threshold_percent: if c.match_threshold_percent > 100 {
            50
        } else {
            c.match_threshold_percent
        },
        typo_threshold_percent: if c.typo_threshold_percent > 100 {
            80
        } else {
            c.typo_threshold_percent
        },
    }
}

/// `new` is `old` normalized, with `home` as the default storage home.
pub open spec fn normalized(old: Config, new: Config, home: Seq<char>) -> bool {
    &&& new.shell.backend@ == or_default(trim(old.shell.backend@), "auto"@)
    &&& new.prompt.draft@ == or_default(old.prompt.draft@, default_draft_prompt())
    &&& new.prompt.history@ == or_default(old.prompt.history@, default_history_prompt())
    &&& new.prompt.ai@ == or_default(old.prompt.ai@, default_ai_prompt())
    &&& new.storage.home@ == or_default(old.storage.home@, home)
    &&& new.draft == old.draft
    &&& views(new.editor.command@) == views(old.editor.command@).filter(|p: Seq<char>| trim(p).len() > 0)
    &&& new.editor.execute_after_save == old.editor.execute_after_save
    &&& new.paste.multiline@ == if multiline_known(old.paste.multiline@) {
        old.paste.multiline@
    } else {
        "editor"@
    }
    &&& new.paste.confirm_execute == old.paste.confirm_execute
    &&& new.paste.preview == old.paste.preview
    &&& new.paste.preview_lines == if old.paste.preview_lines == 0 || old.paste.preview_lines > 20 {
        3
    } else {
        old.paste.preview_lines
    }
    &&& new.paste.preview_bytes == if old.paste.preview_bytes == 0 || old.paste.preview_bytes > 4_096 {
        240
    } else {
        old.paste.preview_bytes
    }
    &&& new.completion == normalized_completion(old.completion)
    &&& new.ai.model@ == trim(old.ai.model@)
    &&& new.ai.base_url@ == trim(old.ai.base_url@)
    &&& new.ai.env_key@ == trim(old.ai.env_key@)
    &&& new.ai.api_key_override is None
    &&& new.context.enabled == old.context.enabled
    &&& new.context.confirm == old.context.confirm
    &&& new.context.max_bytes == if old.context.max_bytes == 0 {
        65_536
    } else {
        old.context.max_bytes
    }
    &&& new.encryption.enabled == old.encryption.enabled
    &&& new.encryption.key_fingerprint@ == trim(old.encryption.key_fingerprint@)
    &&& new.encryption.startup_unlock == old.encryption.startup_unlock
    &&& new.encryption.recipient@ == trim(old.encryption.recipient@)
    &&& new.sync.remote@ == match sanitized_remote(old.sync.remote@) {
        Some(u) => u,
        None => seq![],
    }
    &&& new.sync.schedule@ == trim(old.sync.schedule@)
    &&& new.sync.enabled == old.sync.enabled && new.sync.startup == old.sync.startup
    &&& new.sync.exit == old.sync.exit && new.sync.ai == old.sync.ai
    &&& new.sync.history == old.sync.history && new.sync.templates == old.sync.templates
    &&& new.sync.drafts == old.sync.drafts
    &&& remote_views(new.template_sharing.remotes@) == normalized_remotes(old.template_sharing.remotes@)
}

fn trimmed(s: &str) -> (r: String)
    ensures
        r@ == trim(s@),
{
    let v = str_chars(s);
    let t = trim_chars(v.as_slice());
    chars_string(t.as_slice())
}

fn sanitized_or_empty(s: &str) -> (r: String)
    ensures
        r@ == match sanitized_remote(s@) {
            Some(u) => u,
            None => seq![],
        },
{
    match sanitize_git_remote(s) {
        Some(u) => u,
        None => String::new(),
    }
}

fn str_is(s: &str, lit: &str) -> (r: bool)
    ensures
        r == (s@ == lit@),
{
    let a = str_chars(s);
    let b = str_chars(lit);
    chars_eq(a.as_slice(), b.as_slice())
}

fn non_blank_parts(parts: &Vec<String>) -> (r: Vec<String>)
    ensures
        views(r@) == views(parts@).filter(|p: Seq<char>| trim(p).len() > 0),
{
    let ghost pred = |p: Seq<char>| trim(p).len() > 0;
    let mut r: Vec<String> = Vec::new();
    let mut i: usize = 0;
    while i < parts.len()
        invariant
            i <= parts@.len(),
            pred == (|p: Seq<char>| trim(p).len() > 0),
            views(r@) == views(parts@.take(i as int)).filter(pred),
        decreases parts.len() - i,
    {
        proof {
            assert(views(parts@.take(i + 1)).drop_last() =~= views(parts@.take(i as int)));
            assert(views(parts@.take(i + 1)).last() == parts@[i as int]@);
            reveal_with_fuel(Seq::filter, 1);
        }
        let t = trimmed(parts[i].as_str());
        let ghost before = r@;
        if !t.as_str().is_empty() {
            r.push(parts[i].clone());
            proof {
                assert(views(r@) =~= views(before).push(parts@[i as int]@));
            }
        } else {
            proof {
                assert(t@.len() == 0) by {
                    if t@.len() > 0 {
                        crate::text::lemma_len_le_byte_len(t@);
                    }
                }
            }
        }
        i = i + 1;
    }
    proof {
        assert(parts@.take(parts@.len() as int) =~= parts@);
    }
    r
}

/// Trims names, sanitizes URLs and drops the remotes that fail.
fn kept_remotes(remotes: &Vec<TemplateRemoteConfig>) -> (r: Vec<TemplateRemoteConfig>)
    ensures
        remote_views(r@) == remote_views(remotes@).map_values(|r: (Seq<char>, Seq<char>)| remote_fixed(r)).filter(
            |r: (Seq<char>, Seq<char>)| remote_kept(r),
        ),
{
    let ghost f = |r: (Seq<char>, Seq<char>)| remote_fixed(r);
    let ghost pred = |r: (Seq<char>, Seq<char>)| remote_kept(r);
    let mut out: Vec<TemplateRemoteConfig> = Vec::new();
    let mut i: usize = 0;
    while i < remotes.len()
        invariant
            i <= remotes@.len(),
            f == (|r: (Seq<char>, Seq<char>)| remote_fixed(r)),
            pred == (|r: (Seq<char>, Seq<char>)| remote_kept(r)),
            remote_views(out@) == remote_views(remotes@.take(i as int)).map_values(f).filter(pred),
        decreases remotes.len() - i,
    {
        let ghost m = remote_views(remotes@.take(i + 1)).map_values(f);
        proof {
            assert(m.drop_last() =~= remote_views(remotes@.take(i as int)).map_values(f));
            assert(m.last() == remote_fixed((remotes@[i as int].name@, remotes@[i as int].remote@)));
            reveal_with_fuel(Seq::filter, 1);
        }
        let name = trimmed(remotes[i].name.as_str());
        let url = sanitized_or_empty(remotes[i].remote.as_str());
        let ghost before = out@;
        if !name.as_str().is_empty() && valid_template_remote_name(name.as_str()) && !url.as_str().is_empty() {
            let ghost item = (name@, url@);
            out.push(TemplateRemoteConfig { name, remote: url });
            proof {
                assert(remote_views(out@) =~= remote_views(before).push(item));
            }
        } else {
            proof {
                if name@.len() > 0 && valid_remote_name(name@) && url@.len() > 0 {
                    crate::text::lemma_len_le_byte_len(name@);
                    crate::text::lemma_len_le_byte_len(url@);
                    assert(false);
                }
            }
        }
        i = i + 1;
    }
    proof {
        assert(remotes@.take(remotes@.len() as int) =~= remotes@);
    }
    out
}

/// Deduplication keeps exactly the names that occur.
proof fn lemma_first_by_name_has(s: Seq<(Seq<char>, Seq<char>)>, n: Seq<char>)
    ensures
        has_name(first_by_name(s), n) == has_name(s, n),
    decreases s.len(),
{
    if s.len() > 0 {
        let p = s.drop_last();
        lemma_first_by_name_has(p, n);
        let d = first_by_name(p);
        if has_name(s, n) {
            let k = choose|k: int| 0 <= k < s.len() && (#[trigger] s[k]).0 == n;
            if k < s.len() - 1 {
                assert(p[k].0 == n);
                if !has_name(p, s.last().0) {
                    let j = choose|j: int| 0 <= j < d.len() && (#[trigger] d[j]).0 == n;
                    assert(d.push(s.last())[j].0 == n);
                }
            } else if !has_name(p, s.last().0) {
                assert(d.push(s.last())[d.len() as int].0 == n);
            }
        } else if has_name(first_by_name(s), n) && !has_name(p, s.last().0) {
            let j = choose|j: int| 0 <= j < d.len() + 1 && (#[trigger] d.push(s.last())[j]).0 == n;
            if j < d.len() {
                assert(d[j].0 == n);
            } else {
                assert(s[s.len() - 1].0 == n);
            }
        }
    }
}

/// Keeps the first remote of each name.
fn first_remote_per_name(remotes: Vec<TemplateRemoteConfig>) -> (r: Vec<TemplateRemoteConfig>)
    ensures
        remote_views(r@) == first_by_name(remote_views(remotes@)),
{
    let ghost all = remote_views(remotes@);
    let mut out: Vec<TemplateRemoteConfig> = Vec::new();
    let mut i: usize = 0;
    while i < remotes.len()
        invariant
            i <= remotes@.len(),
            all == remote_views(remotes@),
            remote_views(out@) == first_by_name(all.take(i as int)),
        decreases remotes.len() - i,
    {
        let ghost prev = all.take(i as int);
        proof {
            assert(all.take(i + 1).drop_last() =~= prev);
            assert(all.take(i + 1).last() == all[i as int]);
            lemma_first_by_name_has(prev, all[i as int].0);
        }
        let mut found = false;
        let mut k: usize = 0;
        while k < out.len()
            invariant
                k <= out@.len(),
                i < remotes@.len(),
                found == (exists|j: int| 0 <= j < k && (#[trigger] out@[j]).name@ == remotes@[i as int].name@),
            decreases out.len() - k,
        {
            if out[k].name == remotes[i].name {
                found = true;
            }
            k = k + 1;
        }
        let ghost ov = remote_views(out@);
        proof {
            if found {
                let j = choose|j: int| 0 <= j < out@.len() && (#[trigger] out@[j]).name@ == remotes@[i as int].name@;
                assert(ov[j].0 == all[i as int].0);
            } else {
                if has_name(ov, all[i as int].0) {
                    let j = choose|j: int| 0 <= j < ov.len() && (#[trigger] ov[j]).0 == all[i as int].0;
                    assert(out@[j].name@ == remotes@[i as int].name@);
                }
            }
        }
        if !found {
            let ghost before = out@;
            out.push(remotes[i].clone_remote());
            proof {
                assert(remote_views(out@) =~= remote_views(before).push(all[i as int]));
            }
        }
        i = i + 1;
    }
    proof {
        assert(all.take(all.len() as int) =~= all);
    }
    out
}

impl TemplateRemoteConfig {
    /// A copy of the remote.
    pub fn clone_remote(&self) -> (r: Self)
        ensures
            r == *self,
    {
        TemplateRemoteConfig { name: self.name.clone(), remote: self.remote.clone() }
    }
}

fn normalize_prompt(p: &PromptConfig) -> (r: PromptConfig)
    ensures
        r.draft@ == or_default(p.draft@, default_draft_prompt()),
        r.history@ == or_default(p.history@, default_history_prompt()),
        r.ai@ == or_default(p.ai@, default_ai_prompt()),
{
    PromptConfig {
        draft: if p.draft.as_str().is_empty() {
            "{user}@{host} {cwd} > ".to_owned()
        } else {
            p.draft.clone()
        },
        history: if p.history.as_str().is_empty() {
            "{user}@{host} {cwd} $ ".to_owned()
        } else {
            p.history.clone()
        },
        ai: if p.ai.as_str().is_empty() {
            "{user}@{host} {cwd} % ".to_owned()
        } else {
            p.ai.clone()
        },
    }
}

fn normalize_paste(p: &PasteConfig) -> (r: PasteConfig)
    ensures
        r.multiline@ == if multiline_known(p.multiline@) {
            p.multiline@
        } else {
            "editor"@
        },
        r.confirm_execute == p.confirm_execute,
        r.preview == p.preview,
        r.preview_lines == if p.preview_lines == 0 || p.preview_lines > 20 {
            3
        } else {
            p.preview_lines
        },
        r.preview_bytes == if p.preview_bytes == 0 || p.preview_bytes > 4_096 {
            240
        } else {
            p.preview_bytes
        },
{
    let m = p.multiline.as_str();
    let known = str_is(m, "editor") || str_is(m, "execute") || str_is(m, "discard");
    PasteConfig {
        multiline: if known {
            p.multiline.clone()
        } else {
            "editor".to_owned()
        },
        confirm_execute: p.confirm_execute,
        preview: p.preview,
        preview_lines: if p.preview_lines == 0 || p.preview_lines > 20 {
            3
        } else {
            p.preview_lines
        },
        preview_bytes: if p.preview_bytes == 0 || p.preview_bytes > 4_096 {
            240
        } else {
            p.preview_bytes
        },
    }
}

fn normalize_completion(c: CompletionConfig) -> (r: CompletionConfig)
    ensures
        r == normalized_completion(c),
{
    let mut c = c;
    if c.max_results == 0 {
        c.max_results = 5;
    }
    if c.coalesce_ms > 1_000 {
        c.coalesce_ms = 50;
    }
    if c.display_delay_ms > 1_000 {
        c.display_delay_ms = 120;
    }
    if c.match_threshold_percent > 100 {
        c.match_threshold_percent = 50;
    }
    if c.typo_threshold_percent > 100 {
        c.typo_threshold_percent = 80;
    }
    if let Some(mode) = c.mode {
        c.set_mode(mode);
    }
    c
}

fn normalize_ai(a: &AiConfig) -> (r: AiConfig)
    ensures
        r.model@ == trim(a.model@),
        r.base_url@ == trim(a.base_url@),
        r.env_key@ == trim(a.env_key@),
        r.api_key_override is None,
{
    AiConfig {
        model: trimmed(a.model.as_str()),
        base_url: trimmed(a.base_url.as_str()),
        env_key: trimmed(a.env_key.as_str()),
        api_key_override: None,
    }
}

fn normalize_encryption(e: &EncryptionConfig) -> (r: EncryptionConfig)
    ensures
        r.enabled == e.enabled,
        r.key_fingerprint@ == trim(e.key_fingerprint@),
        r.startup_unlock == e.startup_unlock,
        r.recipient@ == trim(e.recipient@),
{
    EncryptionConfig {
        enabled: e.enabled,
        key_fingerprint: trimmed(e.key_fingerprint.as_str()),
        startup_unlock: e.startup_unlock,
        recipient: trimmed(e.recipient.as_str()),
    }
}

fn normalize_sync(s: &SyncConfig) -> (r: SyncConfig)
    ensures
        r.remote@ == match sanitized_remote(s.remote@) {
            Some(u) => u,
            None => seq![],
        },
        r.schedule@ == trim(s.schedule@),
        r.enabled == s.enabled && r.startup == s.startup,
        r.exit == s.exit && r.ai == s.ai,
        r.history == s.history && r.templates == s.templates,
        r.drafts == s.drafts,
{
    SyncConfig {
        remote: sanitized_or_empty(s.remote.as_str()),
        enabled: s.enabled,
        schedule: trimmed(s.schedule.as_str()),
        startup: s.startup,
        exit: s.exit,
        ai: s.ai,
        history: s.history,
        templates: s.templates,
        drafts: s.drafts,
    }
}

proof fn lemma_or_default_twice(v: Seq<char>, d: Seq<char>)
    ensures
        or_default(or_default(v, d), d) == or_default(v, d),
{
}

proof fn lemma_trimmed_or_default(v: Seq<char>, d: Seq<char>)
    requires
        trim(d) == d,
    ensures
        or_default(trim(or_default(trim(v), d)), d) == or_default(trim(v), d),
{
    crate::text::lemma_trim_idempotent(v);
}

proof fn lemma_sanitized_twice(x: Seq<char>)
    ensures
        match sanitized_remote(match sanitized_remote(x) {
            Some(u) => u,
            None => seq![],
        }) {
            Some(u) => u,
            None => seq![],
        } == match sanitized_remote(x) {
            Some(u) => u,
            None => seq![],
        },
{
    crate::text::lemma_trim_idempotent(x);
    let t: Seq<char> = seq![];
    assert(trim(t).len() == 0) by {
        crate::text::lemma_trail_ws_bound(crate::text::trim_start(t));
    }
}

proof fn lemma_remote_fixed_twice(r: (Seq<char>, Seq<char>))
    ensures
        remote_fixed(remote_fixed(r)) == remote_fixed(r),
{
    crate::text::lemma_trim_idempotent(r.0);
    lemma_sanitized_twice(r.1);
}

proof fn lemma_filter_keeps<A>(s: Seq<A>, p: spec_fn(A) -> bool, q: spec_fn(A) -> bool)
    requires
        forall|i: int| 0 <= i < s.len() ==> q(#[trigger] s[i]),
    ensures
        forall|i: int| 0 <= i < s.filter(p).len() ==> p(#[trigger] s.filter(p)[i]) && q(s.filter(p)[i]),
    decreases s.len(),
{
    reveal(Seq::filter);
    if s.len() > 0 {
        let front = s.drop_last();
        assert forall|i: int| 0 <= i < front.len() implies q(#[trigger] front[i]) by {
            assert(front[i] == s[i]);
        }
        lemma_filter_keeps(front, p, q);
        assert(q(s[s.len() - 1]));
        let f = front.filter(p);
        assert(s.filter(p) == if p(s.last()) { f.push(s.last()) } else { f });
        assert forall|i: int| 0 <= i < s.filter(p).len() implies p(#[trigger] s.filter(p)[i]) && q(s.filter(p)[i]) by {
            if i < f.len() {
                assert(s.filter(p)[i] == f[i]);
            } else {
                assert(s.filter(p)[i] == s.last());
            }
        }
    }
}

proof fn lemma_filter_all<A>(s: Seq<A>, p: spec_fn(A) -> bool)
    requires
        forall|i: int| 0 <= i < s.len() ==> p(#[trigger] s[i]),
    ensures
        s.filter(p) == s,
    decreases s.len(),
{
    reveal(Seq::filter);
    if s.len() > 0 {
        let front = s.drop_last();
        assert forall|i: int| 0 <= i < front.len() implies p(#[trigger] front[i]) by {
            assert(front[i] == s[i]);
        }
        lemma_filter_all(front, p);
        assert(p(s[s.len() - 1]));
        assert(front.push(s.last()) =~= s);
    }
}

/// No two remotes of `s` share a name.
pub open spec fn distinct_names(s: Seq<(Seq<char>, Seq<char>)>) -> bool {
    forall|i: int, j: int| 0 <= i < j < s.len() ==> (#[trigger] s[i]).0 != (#[trigger] s[j]).0
}

proof fn lemma_first_by_name_props(s: Seq<(Seq<char>, Seq<char>)>)
    ensures
        distinct_names(first_by_name(s)),
        forall|k: int|
            0 <= k < first_by_name(s).len() ==> exists|m: int| 0 <= m < s.len() && s[m] == #[trigger] first_by_name(s)[k],
    decreases s.len(),
{
    if s.len() > 0 {
        let front = s.drop_last();
        lemma_first_by_name_props(front);
        let d = first_by_name(front);
        assert forall|k: int| 0 <= k < d.len() implies exists|m: int| 0 <= m < s.len() && s[m] == #[trigger] d[k] by {
            let m = choose|m: int| 0 <= m < front.len() && front[m] == d[k];
            assert(s[m] == front[m]);
        }
        if !has_name(front, s.last().0) {
            let e = d.push(s.last());
            assert forall|i: int, j: int| 0 <= i < j < e.len() implies (#[trigger] e[i]).0 != (#[trigger] e[j]).0 by {
                if j == d.len() {
                    let m = choose|m: int| 0 <= m < front.len() && front[m] == d[i];
                    assert(front[m].0 == e[i].0);
                } else {
                    assert(e[i] == d[i] && e[j] == d[j]);
                }
            }
            assert forall|k: int| 0 <= k < e.len() implies exists|m: int| 0 <= m < s.len() && s[m] == #[trigger] e[k] by {
                if k == d.len() {
                    assert(s[s.len() - 1] == e[k]);
                } else {
                    assert(e[k] == d[k]);
                }
            }
        }
    }
}

proof fn lemma_first_by_name_of_distinct(s: Seq<(Seq<char>, Seq<char>)>)
    requires
        distinct_names(s),
    ensures
        first_by_name(s) == s,
    decreases s.len(),
{
    if s.len() > 0 {
        let front = s.drop_last();
        assert(distinct_names(front)) by {
            assert forall|i: int, j: int| 0 <= i < j < front.len() implies (#[trigger] front[i]).0 != (#[trigger] front[j]).0 by {
                assert(front[i] == s[i] && front[j] == s[j]);
            }
        }
        lemma_first_by_name_of_distinct(front);
        assert(!has_name(front, s.last().0)) by {
            if has_name(front, s.last().0) {
                let k = choose|k: int| 0 <= k < front.len() && (#[trigger] front[k]).0 == s.last().0;
                assert(front[k] == s[k]);
                assert(s[k].0 != s[s.len() - 1].0);
            }
        }
        assert(front.push(s.last()) =~= s);
    }
}

proof fn lemma_normalized_remotes_twice(v0: Seq<TemplateRemoteConfig>, v1: Seq<TemplateRemoteConfig>)
    requires
        remote_views(v1) == normalized_remotes(v0),
    ensures
        normalized_remotes(v1) == remote_views(v1),
{
    let fixed = |r: (Seq<char>, Seq<char>)| remote_fixed(r);
    let kept = |r: (Seq<char>, Seq<char>)| remote_kept(r);
    let is_fixed = |r: (Seq<char>, Seq<char>)| remote_fixed(r) == r;
    let mapped = remote_views(v0).map_values(fixed);
    assert forall|i: int| 0 <= i < mapped.len() implies is_fixed(#[trigger] mapped[i]) by {
        lemma_remote_fixed_twice(remote_views(v0)[i]);
    }
    lemma_filter_keeps(mapped, kept, is_fixed);
    let filtered = mapped.filter(kept);
    lemma_first_by_name_props(filtered);
    let s1 = first_by_name(filtered);
    assert(s1 == remote_views(v1));
    assert forall|k: int| 0 <= k < s1.len() implies kept(#[trigger] s1[k]) && is_fixed(s1[k]) by {
        let m = choose|m: int| 0 <= m < filtered.len() && filtered[m] == s1[k];
        assert(kept(filtered[m]) && is_fixed(filtered[m]));
    }
    let m1 = remote_views(v1).map_values(fixed);
    assert(m1 =~= s1);
    lemma_filter_all(m1, kept);
    lemma_first_by_name_of_distinct(s1);
}

/// Normalizing a normalized configuration changes nothing: the result of
/// `normalize_config` is itself what normalizing it gives, for the same
/// default home.
pub proof fn normalizing_twice_changes_nothing(c0: Config, c1: Config, home: Seq<char>)
    requires
        normalized(c0, c1, home),
    ensures
        normalized(c1, c1, home),
{
    reveal_strlit("auto");
    reveal_strlit("editor");
    reveal_strlit("{user}@{host} {cwd} > ");
    reveal_strlit("{user}@{host} {cwd} $ ");
    reveal_strlit("{user}@{host} {cwd} % ");
    assert(trim("auto"@) == "auto"@) by {
        crate::text::lemma_lead_ws_exact("auto"@, 0);
        crate::text::lemma_trail_ws_exact("auto"@.skip(0), 4);
        assert("auto"@.skip(0) =~= "auto"@);
        assert("auto"@.take(4) =~= "auto"@);
    }
    lemma_trimmed_or_default(c0.shell.backend@, "auto"@);
    lemma_or_default_twice(c0.prompt.draft@, default_draft_prompt());
    lemma_or_default_twice(c0.prompt.history@, default_history_prompt());
    lemma_or_default_twice(c0.prompt.ai@, default_ai_prompt());
    lemma_or_default_twice(c0.storage.home@, home);
    let p = |x: Seq<char>| trim(x).len() > 0;
    let cmd = views(c0.editor.command@).filter(p);
    lemma_filter_keeps(views(c0.editor.command@), p, |x: Seq<char>| true);
    lemma_filter_all(cmd, p);
    crate::text::lemma_trim_idempotent(c0.ai.model@);
    crate::text::lemma_trim_idempotent(c0.ai.base_url@);
    crate::text::lemma_trim_idempotent(c0.ai.env_key@);
    crate::text::lemma_trim_idempotent(c0.encryption.key_fingerprint@);
    crate::text::lemma_trim_idempotent(c0.encryption.recipient@);
    crate::text::lemma_trim_idempotent(c0.sync.schedule@);
    lemma_sanitized_twice(c0.sync.remote@);
    lemma_normalized_remotes_twice(c0.template_sharing.remotes@, c1.template_sharing.remotes@);
}

/// Normalizes `config` in place; an empty storage home becomes
/// `default_home`.
pub fn normalize_config(config: &mut Config, default_home: &str)
    ensures
        normalized(*old(config), *final(config), default_home@),
{
    let backend = trimmed(config.shell.backend.as_str());
    let shell = ShellConfig {
        backend: if backend.as_str().is_empty() {
            "auto".to_owned()
        } else {
            backend
        },
    };
    let storage = StorageConfig {
        home: if config.storage.home.as_str().is_empty() {
            default_home.to_owned()
        } else {
            config.storage.home.clone()
        },
    };
    let editor = EditorConfig {
        command: non_blank_parts(&config.editor.command),
        execute_after_save: config.editor.execute_after_save,
    };
    let context = ContextConfig {
        enabled: config.context.enabled,
        confirm: config.context.confirm,
        max_bytes: if config.context.max_bytes == 0 {
            65_536
        } else {
            config.context.max_bytes
        },
    };
    let kept = kept_remotes(&config.template_sharing.remotes);
    let template_sharing = TemplateSharingConfig { remotes: first_remote_per_name(kept) };
    let fresh = Config {
        shell,
        prompt: normalize_prompt(&config.prompt),
        storage,
        draft: config.draft,
        editor,
        paste: normalize_paste(&config.paste),
        completion: normalize_completion(config.completion),
        ai: normalize_ai(&config.ai),
        context,
        encryption: normalize_encryption(&config.encryption),
        sync: normalize_sync(&config.sync),
        template_sharing,
    };
    *config = fresh;
}

} // verus!
