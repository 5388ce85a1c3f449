use aish::completion::types::{CompletionCandidate, CompletionOptions, CompletionSource};
use aish::completion::worker::{
    can_filter_primary_cache, complete_typo_tier, CompletionDataIndex, complete_primary_tier, first_token_candidate_matches, CompletionJob,
    PrimaryTierCache,
};
use aish::history::{HistoryEntry, HistorySource};

fn history(command: &str, t: i64) -> HistoryEntry {
    HistoryEntry {
        t,
        command: command.to_string(),
        exit_code: Some(0),
        source: HistorySource::User,
    }
}

fn job(id: u64, line: &str, max_results: usize, history_newest_first: Vec<HistoryEntry>) -> CompletionJob {
    CompletionJob {
        id,
        line: line.to_string(),
        cursor: line.len(),
        cwd: "/".to_string(),
        path_dirs: Vec::new(),
        backend_shell: None,
        history_newest_first,
        history_snapshot: 1,
        templates: Vec::new(),
        templates_snapshot: 1,
        options: CompletionOptions {
            max_results,
            ..CompletionOptions::default()
        },
    }
}

#[test]
fn primary_cache_filters_full_candidate_set_not_display_limit() {
    let history = vec![history("cargo build", 2), history("cat alpha", 1)];
    let mut primary_cache = PrimaryTierCache::new();

    let first = complete_primary_tier(
        &job(1, "c", 1, history.clone()),
        &[],
        Vec::new(),
        &mut primary_cache,
    );
    assert_eq!(first.len(), 1);
    assert_eq!(first[0].replacement, "cargo build");

    let second = complete_primary_tier(
        &job(2, "cat", 1, history.clone()),
        &[],
        Vec::new(),
        &mut primary_cache,
    );
    assert_eq!(
        second,
        [CompletionCandidate {
            display: "cat alpha".to_string(),
            replacement: "cat alpha".to_string(),
            is_dir: false,
            source: CompletionSource::History,
        }]
    );
}

#[test]
fn primary_cache_invalidates_on_deletion() {
    let history = vec![history("cargo build", 2), history("cat alpha", 1)];
    let mut primary_cache = PrimaryTierCache::new();

    let cat = complete_primary_tier(
        &job(1, "cat", usize::MAX, history.clone()),
        &[],
        Vec::new(),
        &mut primary_cache,
    );
    assert_eq!(cat[0].replacement, "cat alpha");

    let c = complete_primary_tier(
        &job(2, "c", usize::MAX, history.clone()),
        &[],
        Vec::new(),
        &mut primary_cache,
    );
    assert_eq!(
        c.iter()
            .map(|candidate| candidate.replacement.as_str())
            .collect::<Vec<_>>(),
        ["cargo build", "cat alpha"]
    );
}

#[test]
fn primary_cache_needs_the_same_snapshot_and_a_longer_first_token() {
    let history = vec![history("cargo build", 2)];
    let mut cache = PrimaryTierCache::new();
    let _ = complete_primary_tier(&job(1, "ca", 5, history.clone()), &[], Vec::new(), &mut cache);
    let entry = cache.entry.clone().unwrap();
    assert!(can_filter_primary_cache(&entry, &job(2, "car", 5, history.clone())));
    let mut other = job(2, "car", 5, history.clone());
    other.history_snapshot = 2;
    assert!(!can_filter_primary_cache(&entry, &other));
    assert!(!can_filter_primary_cache(&entry, &job(2, "ca ", 5, history.clone())));
    assert!(!can_filter_primary_cache(&entry, &job(2, "ca", 5, history)));
}

#[test]
fn executables_and_rest_of_line_candidates_take_their_paths() {
    let mut cache = PrimaryTierCache::new();
    let names = vec!["cargo".to_string(), "cat".to_string(), "ls".to_string()];
    let found = complete_primary_tier(&job(1, "ca", 5, Vec::new()), &names, Vec::new(), &mut cache);
    assert_eq!(
        found.iter().map(|c| c.replacement.as_str()).collect::<Vec<_>>(),
        ["cargo", "cat"]
    );
    let rest = vec![CompletionCandidate {
        display: "status".to_string(),
        replacement: "status".to_string(),
        is_dir: false,
        source: CompletionSource::History,
    }];
    let mut cache = PrimaryTierCache::new();
    let found = complete_primary_tier(&job(1, "git st", 5, Vec::new()), &names, rest, &mut cache);
    assert!(found.iter().all(|c| c.source != CompletionSource::BackendShell));
    assert_eq!(found[0].replacement, "status");
    let exe = CompletionCandidate {
        display: "cargo".to_string(),
        replacement: "cargo".to_string(),
        is_dir: false,
        source: CompletionSource::Executable,
    };
    assert!(first_token_candidate_matches(&exe, "car", CompletionOptions::default()));
    assert!(!first_token_candidate_matches(&exe, "x", CompletionOptions::default()));
}

#[test]
fn typo_tier_in_chunks_matches_the_whole_search_after_dedup() {
    let entries: Vec<HistoryEntry> = (0..300)
        .map(|t| history(if t % 2 == 0 { "git status" } else { "git stash" }, t))
        .collect();
    let mut j = job(1, "gti", 5, entries.clone());
    j.options.fuzzy_enabled = true;
    let mut index = CompletionDataIndex::new();
    let one = complete_typo_tier(&j, &mut index, 1);
    let mut index = CompletionDataIndex::new();
    let four = complete_typo_tier(&j, &mut index, 4);
    let names = |v: &Vec<CompletionCandidate>| v.iter().map(|c| c.replacement.clone()).collect::<Vec<_>>();
    assert_eq!(names(&one), names(&four));
    assert_eq!(index.history.len(), 300);
    assert_eq!(index.history_snapshot, Some(1));
}

#[test]
fn the_worker_runs_the_latest_queued_job_and_stops_on_request() {
    let queued = vec![
        aish::completion::worker::CompletionWorkerMessage::Job(job(2, "gi", 5, Vec::new())),
        aish::completion::worker::CompletionWorkerMessage::Job(job(3, "git", 5, Vec::new())),
    ];
    let chosen = aish::completion::worker::coalesce_jobs(job(1, "g", 5, Vec::new()), queued).unwrap();
    assert_eq!(chosen.id, 3);
    assert_eq!(chosen.line, "git");

    let alone = aish::completion::worker::coalesce_jobs(job(1, "g", 5, Vec::new()), Vec::new()).unwrap();
    assert_eq!(alone.id, 1);

    let stopped = aish::completion::worker::coalesce_jobs(
        job(1, "g", 5, Vec::new()),
        vec![
            aish::completion::worker::CompletionWorkerMessage::Job(job(2, "gi", 5, Vec::new())),
            aish::completion::worker::CompletionWorkerMessage::Stop,
        ],
    );
    assert!(stopped.is_none());
}

#[test]
fn backend_shell_candidates_are_not_part_of_primary_tier() {
    let mut job = job(1, "git st", usize::MAX, vec![history("git status", 1)]);
    job.backend_shell = Some("aish-test-backend:status,stash".to_string());
    let rest = aish::completion::arguments::complete_history_arguments(
        "st",
        &job.history_newest_first,
        job.options.ignore_spaces,
        job.options.match_threshold_percent,
    );
    let mut cache = PrimaryTierCache::new();

    let candidates = complete_primary_tier(&job, &[], rest, &mut cache);

    assert!(candidates
        .iter()
        .all(|candidate| candidate.source != CompletionSource::BackendShell));
    assert!(candidates.iter().any(|candidate| {
        candidate.source == CompletionSource::History && candidate.replacement == "status"
    }));
}
