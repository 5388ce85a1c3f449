use aish::completion::path::{
    complete_path_in_listings, component_completion_root, intermediate_directory_matches, join_dir,
    next_component_bases, path_token_parts, resolve_search_dir, split_path_token, PathCompletionBase,
    PathEntry, PathListing, PATH_COMPLETION_MAX_COMPONENT_BASES,
};
use aish::completion::path_sort::{chars_less, path_key_less, sort_path_candidates, sort_path_completion_bases};
use aish::completion::types::{CompletionCandidate, CompletionOptions, CompletionSource};

fn entries(list: &[(&str, bool)]) -> Vec<PathEntry> {
    list.iter()
        .map(|(name, is_dir)| PathEntry {
            name: name.to_string(),
            is_dir: *is_dir,
        })
        .collect()
}

fn base(search_dir: &str, display_dir: &str) -> PathCompletionBase {
    PathCompletionBase {
        search_dir: search_dir.to_string(),
        display_dir: display_dir.to_string(),
    }
}

fn shown(bases: &[PathCompletionBase]) -> Vec<(String, String)> {
    bases
        .iter()
        .map(|b| (b.search_dir.clone(), b.display_dir.clone()))
        .collect()
}

fn path(display: &str, replacement: &str, is_dir: bool) -> CompletionCandidate {
    CompletionCandidate {
        display: display.to_string(),
        replacement: replacement.to_string(),
        is_dir,
        source: CompletionSource::Path,
    }
}

fn fuzzy() -> CompletionOptions {
    CompletionOptions::default()
}

fn strict() -> CompletionOptions {
    CompletionOptions {
        fuzzy_enabled: false,
        ..CompletionOptions::default()
    }
}

#[test]
fn joining_keeps_absolute_names_and_adds_one_slash() {
    assert_eq!(join_dir("/work", "src"), "/work/src");
    assert_eq!(join_dir("/work/", "src"), "/work/src");
    assert_eq!(join_dir("", "src"), "src");
    assert_eq!(join_dir("/work", "/etc"), "/etc");
}

#[test]
fn search_dir_follows_the_directory_part() {
    assert_eq!(resolve_search_dir("", "/work", true, None), Some("/work".to_string()));
    assert_eq!(resolve_search_dir("src/", "/work", false, None), Some("/work/src/".to_string()));
    assert_eq!(resolve_search_dir("/etc/", "/work", false, None), Some("/etc/".to_string()));
    assert_eq!(
        resolve_search_dir("~/notes/", "/work", true, Some("/home/me")),
        Some("/home/me/notes/".to_string())
    );
    assert_eq!(resolve_search_dir("~/notes/", "/work", true, None), None);
    assert_eq!(
        resolve_search_dir("~/notes/", "/work", false, Some("/home/me")),
        Some("/work/~/notes/".to_string())
    );
}

#[test]
fn a_path_token_splits_at_its_last_slash() {
    assert_eq!(split_path_token("src/ma"), ("src/".to_string(), "ma".to_string()));
    assert_eq!(split_path_token("a/b/"), ("a/b/".to_string(), String::new()));
    assert_eq!(split_path_token("plain"), (String::new(), "plain".to_string()));
}

#[test]
fn token_parts_read_quote_tilde_and_shell_value() {
    let parts = path_token_parts("'my dir/fi");
    assert_eq!(parts.quote, Some('\''));
    assert!(!parts.home_tilde_active);
    assert_eq!(parts.dir_token, "my dir/");
    assert_eq!(parts.prefix, "fi");
    assert!(!parts.literal_leading_tilde);

    let parts = path_token_parts("~/lo");
    assert!(parts.home_tilde_active);
    assert!(!parts.literal_leading_tilde);
    assert_eq!(parts.dir_token, "~/");

    let parts = path_token_parts("\\~/lo");
    assert!(!parts.home_tilde_active);
    assert!(parts.literal_leading_tilde);
    assert_eq!(parts.quote, None);
}

#[test]
fn component_roots_start_where_the_part_does() {
    let root = component_completion_root("sr/ma/", "/work", false, None).unwrap();
    assert_eq!(root.search_dir, "/work");
    assert_eq!(root.display_dir, "");
    assert_eq!(root.components, vec!["sr".to_string(), "ma".to_string()]);

    let root = component_completion_root("/us/lo/", "/work", false, None).unwrap();
    assert_eq!(root.search_dir, "/");
    assert_eq!(root.display_dir, "/");
    assert_eq!(root.components, vec!["us".to_string(), "lo".to_string()]);

    let root = component_completion_root("~/doc/", "/work", true, Some("/home/me")).unwrap();
    assert_eq!(root.search_dir, "/home/me");
    assert_eq!(root.display_dir, "~/");
    assert_eq!(root.components, vec!["doc".to_string()]);

    let root = component_completion_root("~/", "/work", false, None).unwrap();
    assert_eq!(root.components, vec!["~".to_string()]);

    let root = component_completion_root("", "/work", false, None).unwrap();
    assert!(root.components.is_empty());

    assert!(component_completion_root("~/doc/", "/work", true, None).is_none());
}

#[test]
fn intermediate_components_complete_prefixes_exact_names_and_typos() {
    let listed = entries(&[("src", true), ("srv.txt", false), ("target", true)]);
    let start = base("/work", "");

    assert_eq!(
        shown(&intermediate_directory_matches(&start, "sr", false, &listed, fuzzy())),
        vec![("/work/src".to_string(), "src/".to_string())]
    );
    assert_eq!(
        shown(&intermediate_directory_matches(&start, "srd", false, &listed, fuzzy())),
        vec![("/work/src".to_string(), "src/".to_string())]
    );
    assert!(intermediate_directory_matches(&start, "srd", false, &listed, strict()).is_empty());
    assert_eq!(
        shown(&intermediate_directory_matches(&start, "target", true, &listed, fuzzy())),
        vec![("/work/target".to_string(), "target/".to_string())]
    );
    assert_eq!(
        shown(&intermediate_directory_matches(&start, "", false, &listed, fuzzy())),
        vec![("/work".to_string(), String::new())]
    );
}

#[test]
fn intermediate_matches_come_in_path_order() {
    let listed = entries(&[(".cache", true), ("cargo", true), ("a-b", true), ("a", true)]);
    let start = base("/work", "");
    assert_eq!(
        shown(&intermediate_directory_matches(&start, "a", false, &listed, fuzzy())),
        vec![
            ("/work/a-b".to_string(), "a-b/".to_string()),
            ("/work/a".to_string(), "a/".to_string()),
        ]
    );
    let typos = intermediate_directory_matches(&start, "srd", false, &entries(&[("sre", true), ("src", true)]), fuzzy());
    assert_eq!(
        shown(&typos),
        vec![
            ("/work/src".to_string(), "src/".to_string()),
            ("/work/sre".to_string(), "sre/".to_string()),
        ]
    );
}

#[test]
fn next_bases_drop_repeats_and_stop_at_the_limit() {
    let a = base("/w/a", "a/");
    let b = base("/w/b", "b/");
    let found = vec![vec![a.clone(), b.clone()], vec![a.clone()]];
    assert_eq!(shown(&next_component_bases(&found)), shown(&[a.clone(), b.clone()]));

    let many: Vec<PathCompletionBase> = (0..40)
        .map(|i| base(&format!("/w/d{i}"), &format!("d{i}/")))
        .collect();
    let found = vec![many.clone(), vec![base("/w/late", "late/")]];
    let next = next_component_bases(&found);
    assert_eq!(next.len(), PATH_COMPLETION_MAX_COMPONENT_BASES);
    assert_eq!(shown(&next), shown(&many[..PATH_COMPLETION_MAX_COMPONENT_BASES]));

    let first: Vec<PathCompletionBase> = many[..31].to_vec();
    let found = vec![first.clone(), vec![base("/w/x", "x/"), base("/w/y", "y/")], vec![base("/w/z", "z/")]];
    let next = next_component_bases(&found);
    assert_eq!(next.len(), PATH_COMPLETION_MAX_COMPONENT_BASES);
    assert_eq!(next[31].display_dir, "x/");
}

#[test]
fn path_order_puts_visible_first_then_character_order() {
    assert!(chars_less(&['a', '-'], &['a', '/']));
    assert!(chars_less(&['a'], &['a', 'b']));
    assert!(!chars_less(&['b'], &['a', 'b']));
    assert!(!chars_less(&['a'], &['a']));
    assert!(path_key_less("zeta", ".alpha"));
    assert!(!path_key_less(".alpha", "zeta"));
    assert!(path_key_less("a-b/", "a/"));
    assert!(path_key_less("./x", "..y"));

    let mut candidates = vec![
        path(".alpha", ".alpha", false),
        path("beta", "beta", false),
        path("a/", "a/", true),
        path("a-b/", "a-b/", true),
    ];
    sort_path_candidates(&mut candidates);
    let order: Vec<&str> = candidates.iter().map(|c| c.display.as_str()).collect();
    assert_eq!(order, ["a-b/", "a/", "beta", ".alpha"]);

    let mut bases = vec![base("/w/.h", ".h/"), base("/w/b", "b/"), base("/w/a", "a/")];
    sort_path_completion_bases(&mut bases);
    let order: Vec<&str> = bases.iter().map(|b| b.display_dir.as_str()).collect();
    assert_eq!(order, ["a/", "b/", ".h/"]);
}

#[test]
fn completion_in_listings_orders_hidden_entries_after_visible_entries() {
    let parts = path_token_parts("");
    let listings = vec![PathListing {
        display_dir: String::new(),
        entries: entries(&[(".alpha", false), ("beta", false)]),
    }];
    assert_eq!(
        complete_path_in_listings(&listings, &parts, None),
        [path("beta", "beta", false), path(".alpha", ".alpha", false)]
    );
}

#[test]
fn completion_through_a_typo_component_reaches_the_file() {
    let parts = path_token_parts("srd/ma");
    assert_eq!(parts.dir_token, "srd/");
    let root = component_completion_root(&parts.dir_token, "/work", parts.home_tilde_active, None).unwrap();
    let start = base(&root.search_dir, &root.display_dir);
    let listed = entries(&[("src", true)]);
    let found = vec![intermediate_directory_matches(&start, &root.components[0], false, &listed, fuzzy())];
    let bases = next_component_bases(&found);
    assert_eq!(shown(&bases), vec![("/work/src".to_string(), "src/".to_string())]);
    let listings = vec![PathListing {
        display_dir: bases[0].display_dir.clone(),
        entries: entries(&[("main.rs", false)]),
    }];
    assert_eq!(
        complete_path_in_listings(&listings, &parts, None),
        [path("src/main.rs", "src/main.rs", false)]
    );
}

#[test]
fn completion_in_listings_drops_repeated_replacements() {
    let parts = path_token_parts("b");
    let listings = vec![
        PathListing {
            display_dir: String::new(),
            entries: entries(&[("beta", false)]),
        },
        PathListing {
            display_dir: String::new(),
            entries: entries(&[("beta", false), ("bin", true)]),
        },
    ];
    assert_eq!(
        complete_path_in_listings(&listings, &parts, None),
        [path("beta", "beta", false), path("bin/", "bin/", true)]
    );
}

#[test]
fn executable_names_take_first_occurrences_in_character_order() {
    let entries = vec![
        ("zsh".to_string(), true),
        ("ls".to_string(), true),
        ("cat".to_string(), false),
        ("cat".to_string(), true),
        ("ls".to_string(), true),
        ("git".to_string(), true),
        ("Git".to_string(), true),
    ];
    assert_eq!(aish::completion::path_sort::executable_names(&entries), ["Git", "git", "ls", "zsh"]);
}

#[test]
fn names_sort_in_character_order() {
    let mut names = vec!["b".to_string(), "a-b".to_string(), "a".to_string(), "a/".to_string()];
    aish::completion::path_sort::sort_names(&mut names);
    assert_eq!(names, ["a", "a-b", "a/", "b"]);
}

#[test]
fn listings_sort_by_name_in_character_order() {
    let mut listed = entries(&[("b", false), ("a-b", true), ("a", false), ("B", true)]);
    aish::completion::path_sort::sort_path_entries(&mut listed);
    let names: Vec<&str> = listed.iter().map(|e| e.name.as_str()).collect();
    assert_eq!(names, ["B", "a", "a-b", "b"]);
}
