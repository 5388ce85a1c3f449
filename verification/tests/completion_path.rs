use aish::completion::path::{
    complete_path_from_bases, directory_typo_matches, format_path_display,
    home_tilde_expansion_is_active, last_path_component, order_path_candidates_for_completion,
    path_components, path_replacement, PathEntry, PathListing,
};
use aish::completion::types::{CompletionCandidate, CompletionOptions, CompletionSource};

fn listing(dir: &str, entries: &[(&str, bool)]) -> PathListing {
    PathListing {
        display_dir: dir.to_string(),
        entries: entries
            .iter()
            .map(|(name, is_dir)| PathEntry {
                name: name.to_string(),
                is_dir: *is_dir,
            })
            .collect(),
    }
}

fn path(display: &str, replacement: &str, is_dir: bool) -> CompletionCandidate {
    CompletionCandidate {
        display: display.to_string(),
        replacement: replacement.to_string(),
        is_dir,
        source: CompletionSource::Path,
    }
}

#[test]
fn path_candidates_keep_the_opening_quote_in_the_replacement_only() {
    let ls = vec![listing("", &[("my file.txt", false)])];
    assert_eq!(
        complete_path_from_bases(&ls, "my", Some('\''), false, None),
        [path("my file.txt", "'my file.txt'", false)]
    );
}

#[test]
fn path_candidates_escape_unquoted_shell_metacharacters() {
    let ls = vec![listing("", &[("hash#file.txt", false), ("my file.txt", false)])];
    assert_eq!(
        complete_path_from_bases(&ls, "my", None, false, None),
        [path("my file.txt", "my\\ file.txt", false)]
    );
    assert_eq!(
        complete_path_from_bases(&ls, "hash", None, false, None),
        [path("hash#file.txt", "hash\\#file.txt", false)]
    );
}

#[test]
fn path_candidates_close_quotes_and_escape_quote_sensitive_chars() {
    let ls = vec![listing("", &[("it's.txt", false), ("price$1.txt", false)])];
    assert_eq!(
        complete_path_from_bases(&ls, "it", Some('\''), false, None),
        [path("it's.txt", "'it'\\''s.txt'", false)]
    );
    assert_eq!(
        complete_path_from_bases(&ls, "price", Some('"'), false, None),
        [path("price$1.txt", "\"price\\$1.txt\"", false)]
    );
}

#[test]
fn path_candidates_keep_a_literal_tilde_literal() {
    let ls = vec![listing("~/", &[("local.txt", false)])];
    assert_eq!(
        complete_path_from_bases(&ls, "lo", None, true, None),
        [path("~/local.txt", "\\~/local.txt", false)]
    );
    assert_eq!(
        complete_path_from_bases(&ls, "lo", None, false, None),
        [path("~/local.txt", "~/local.txt", false)]
    );
}

#[test]
fn directory_typos_are_offered_only_without_a_prefix_directory() {
    let options = CompletionOptions::default();
    let ls = vec![listing("", &[("documents", true), ("downloads", true)])];
    let found = complete_path_from_bases(&ls, "documants", None, false, Some(options));
    assert_eq!(found, [path("documents/", "documents/", true)]);
    let ls = vec![listing("", &[("doc", true), ("documents", true)])];
    let found = complete_path_from_bases(&ls, "doc", None, false, Some(options));
    assert_eq!(found, [path("doc/", "doc/", true), path("documents/", "documents/", true)]);
    assert!(!directory_typo_matches("documents", "do", options));
}

#[test]
fn path_helpers() {
    assert_eq!(format_path_display("src/", "lib", true), "src/lib/");
    assert!(home_tilde_expansion_is_active("~/x"));
    assert!(!home_tilde_expansion_is_active("'~/x"));
    assert_eq!(path_components("/a//b/"), ["a", "b"]);
    assert_eq!(last_path_component("a/.hidden/"), Some(".hidden".to_string()));
    assert_eq!(last_path_component("///"), None);
    assert_eq!(path_replacement(None, "line\nbreak", false), "'line\nbreak'");
    let ordered = order_path_candidates_for_completion(vec![
        path("a.txt", "a.txt", false),
        path("b/", "b/", true),
    ]);
    assert_eq!(ordered[0].display, "b/");
}
