use aish::history::{
    trim_combined_items, trim_regular_items, AiCommandIndex, AiItem, AiItemKind, AiSession,
    DraftEntry, HistoryEntry, HistorySource, HistoryStore, JsonlLineError, JsonlLoad, NoteEntry, NoteTag,
};

fn entry(t: i64, command: &str) -> HistoryEntry {
    HistoryEntry {
        t,
        command: command.to_string(),
        exit_code: Some(0),
        source: HistorySource::User,
    }
}

fn load<T>(items: Vec<T>) -> JsonlLoad<T> {
    JsonlLoad {
        items,
        errors: Vec::new(),
    }
}

fn command(text: &str) -> AiItem {
    AiItem {
        kind: AiItemKind::Command,
        text: text.to_string(),
        name: None,
    }
}

fn template(text: &str, name: &str) -> AiItem {
    AiItem {
        kind: AiItemKind::Template,
        text: text.to_string(),
        name: Some(name.to_string()),
    }
}

fn session(id: &str, t: i64, prompt: &str, items: Vec<AiItem>) -> AiSession {
    AiSession {
        id: id.to_string(),
        t,
        prompt: prompt.to_string(),
        ctx: false,
        model: "test".to_string(),
        items,
    }
}

#[test]
fn history_store_loads_all_history_categories() {
    let store = HistoryStore::from_loads(
        load(vec![entry(1, "pwd")]),
        load(vec![DraftEntry {
            t: 2,
            text: "git status".to_string(),
        }]),
        load(vec![session("a_1", 3, "list files", vec![command("ls")])]),
        load(vec![NoteEntry {
            tag: NoteTag::Todo,
            text: "ship it".to_string(),
        }]),
    );

    assert_eq!(store.errors, []);
    assert_eq!(store.regular.len(), 1);
    assert_eq!(store.regular_newest_indices, [0]);
    assert_eq!(store.drafts.len(), 1);
    assert_eq!(store.ai_sessions.len(), 1);
    assert_eq!(store.ai_command_indices.len(), 1);
    assert_eq!(store.notes.len(), 1);
    assert_eq!(store.regular[0].command, "pwd");
    assert_eq!(store.drafts[0].text, "git status");
    assert_eq!(store.ai_sessions[0].items[0].text, "ls");
}

#[test]
fn history_store_indexes_regular_history_newest_first() {
    let store = HistoryStore::from_loads(
        load(vec![entry(1, "one"), entry(2, "two"), entry(3, "three")]),
        load(Vec::new()),
        load(Vec::new()),
        load(Vec::new()),
    );
    let commands: Vec<_> = store
        .regular_newest()
        .into_iter()
        .map(|entry| entry.command.as_str())
        .collect();

    assert_eq!(store.regular_newest_indices, [2, 1, 0]);
    assert_eq!(commands, ["three", "two", "one"]);
    assert_eq!(store.regular_by_newest_index(1).unwrap().command, "two");
    assert!(store.regular_by_newest_index(3).is_none());
}

#[test]
fn history_store_indexes_ai_command_items_in_execution_order() {
    let store = HistoryStore::from_loads(
        load(Vec::new()),
        load(Vec::new()),
        load(vec![
            session(
                "a_1",
                1,
                "setup",
                vec![command("one"), template("skip-template", "template"), command("two")],
            ),
            session("a_2", 2, "next", vec![command("three")]),
        ]),
        load(Vec::new()),
    );
    let commands: Vec<_> = store
        .ai_commands()
        .into_iter()
        .map(|(_, item)| item.text.as_str())
        .collect();

    assert_eq!(
        store.ai_command_indices,
        [
            AiCommandIndex {
                session_index: 0,
                item_index: 0
            },
            AiCommandIndex {
                session_index: 0,
                item_index: 2
            },
            AiCommandIndex {
                session_index: 1,
                item_index: 0
            },
        ]
    );
    assert_eq!(commands, ["one", "two", "three"]);
    let (session, item) = store.ai_command_by_index(2).unwrap();
    assert_eq!(session.id, "a_2");
    assert_eq!(item.text, "three");
    assert!(store.ai_command_by_index(3).is_none());
}

#[test]
fn history_store_aggregates_load_errors_across_categories() {
    let error = |path: &str| JsonlLineError {
        path: path.to_string(),
        line: 1,
        message: "expected value".to_string(),
    };
    let store = HistoryStore::from_loads(
        JsonlLoad {
            items: Vec::new(),
            errors: vec![error("regular.jsonl")],
        },
        load(Vec::new()),
        JsonlLoad {
            items: Vec::new(),
            errors: vec![error("ai.jsonl")],
        },
        load(Vec::new()),
    );

    assert!(store.regular.is_empty());
    assert!(store.ai_sessions.is_empty());
    assert_eq!(store.errors.len(), 2);
    assert!(store.errors.iter().any(|e| e.path == "regular.jsonl"));
    assert!(store.errors.iter().any(|e| e.path == "ai.jsonl"));
}

#[test]
fn trim_regular_history_keeps_newest_entries_and_skips_bad_lines() {
    let items = vec![entry(1, "one"), entry(2, "two"), entry(3, "three")];
    let after_trim = trim_regular_items(&items, 2);

    assert_eq!(items.len(), 3);
    assert_eq!(after_trim.len(), 2);
    assert_eq!(after_trim[0].command, "two");
    assert_eq!(after_trim[1].command, "three");
}

#[test]
fn trim_combined_history_limits_regular_plus_ai_command_items() {
    let regular = vec![entry(1, "one"), entry(2, "two"), entry(3, "three")];
    let sessions = vec![
        session(
            "a_1",
            4,
            "older",
            vec![command("ai one"), template("template one", "t1")],
        ),
        session("a_2", 5, "newer", vec![command("ai two"), command("ai three")]),
    ];

    let (after_regular, after_ai) = trim_combined_items(&regular, &sessions, 2);

    assert_eq!(after_regular.len(), 2);
    assert_eq!(after_regular[0].command, "two");
    assert_eq!(after_regular[1].command, "three");
    assert!(after_ai.is_empty());
}

#[test]
fn trim_combined_keeps_newest_ai_commands_within_the_budget() {
    let regular = vec![entry(1, "one")];
    let sessions = vec![
        session(
            "a_1",
            4,
            "older",
            vec![command("ai one"), template("template one", "t1")],
        ),
        session("a_2", 5, "newer", vec![command("ai two"), command("ai three")]),
    ];

    let (after_regular, after_ai) = trim_combined_items(&regular, &sessions, 3);
    assert_eq!(after_regular.len(), 1);
    assert_eq!(after_ai.len(), 1);
    assert_eq!(after_ai[0].id, "a_2");
    assert_eq!(after_ai[0].items.len(), 2);

    let (_, after_ai) = trim_combined_items(&regular, &sessions, 4);
    assert_eq!(after_ai.len(), 2);
    assert_eq!(after_ai[0].items, vec![command("ai one"), template("template one", "t1")]);

    let (_, after_ai) = trim_combined_items(&Vec::new(), &sessions, 1);
    assert_eq!(after_ai.len(), 1);
    assert_eq!(after_ai[0].items, vec![command("ai three")]);
}

#[test]
fn jsonl_records_number_lines_and_skip_blank_ones() {
    let records = aish::history::jsonl_records("{\"a\":1}\n\n   \r\n{\"b\":2}\r\nlast");
    let seen: Vec<(usize, &str)> = records.iter().map(|r| (r.line, r.text.as_str())).collect();
    assert_eq!(seen, [(1, "{\"a\":1}"), (4, "{\"b\":2}"), (5, "last")]);
    assert!(aish::history::jsonl_records("").is_empty());
}

#[test]
fn jsonl_text_ends_every_record_with_a_line_break() {
    let text = aish::history::jsonl_text(&vec!["{\"a\":1}".to_string(), "{\"b\":2}".to_string()]);
    assert_eq!(text, "{\"a\":1}\n{\"b\":2}\n");
    assert_eq!(aish::history::jsonl_text(&Vec::new()), "");
}

#[test]
fn jsonl_load_keeps_parsed_items_and_reports_bad_lines() {
    let parsed: Vec<(usize, Result<u32, String>)> = vec![
        (1, Ok(10)),
        (2, Err("expected value".to_string())),
        (4, Ok(20)),
    ];
    let load = aish::history::jsonl_load("/tmp/regular.jsonl", parsed);
    assert_eq!(load.items, [10, 20]);
    assert_eq!(load.errors.len(), 1);
    assert_eq!(load.errors[0].path, "/tmp/regular.jsonl");
    assert_eq!(load.errors[0].line, 2);
    assert_eq!(load.errors[0].message, "expected value");
}

#[test]
fn jsonl_written_lines_read_back_numbered() {
    let lines = vec!["{\"t\":1}".to_string(), "{\"t\":2}".to_string(), "{\"t\":3}".to_string()];
    let text = aish::history::jsonl_text(&lines);
    let records = aish::history::jsonl_records(&text);
    let seen: Vec<(usize, String)> = records.into_iter().map(|r| (r.line, r.text)).collect();
    assert_eq!(
        seen,
        [(1, lines[0].clone()), (2, lines[1].clone()), (3, lines[2].clone())]
    );
}
