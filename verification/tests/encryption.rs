use aish::encryption::{
    atomic_gpg_write_paths, encrypted_path, encryption_git_history_warning, gpg_encrypt_plan,
    gpg_stderr_summary, parse_gpg_public_keys, split_concatenated_openpgp_messages, GpgPublicKey,
};

#[test]
fn encryption_plaintext_git_history_warning_is_conservative() {
    let warning = encryption_git_history_warning();

    assert!(warning.contains("plaintext data"));
    assert!(warning.contains("older key"));
    assert!(warning.contains("will not rewrite git history"));
}

#[test]
fn tests_plaintext_git_history_warning_is_conservative() {
    let warning = encryption_git_history_warning();

    assert!(warning.contains("plaintext data"));
    assert!(warning.contains("older key"));
    assert!(warning.contains("will not rewrite git history"));
}

#[test]
fn encryption_gpg_stderr_summary_prefers_actionable_failure_lines() {
    let stderr = b"gpg: encrypted with cv25519 key, ID 1234\n      \"Test User\"\ngpg: WARNING: multiple plaintexts seen\ngpg: handle plaintext failed: Unexpected error\ngpg: decryption failed: Bad data\n";

    let summary = gpg_stderr_summary(stderr, "fallback");

    assert!(summary.contains("multiple plaintexts seen"));
    assert!(summary.contains("decryption failed: Bad data"));
    assert!(!summary.contains("encrypted with cv25519 key"));
}

#[test]
fn tests_gpg_stderr_summary_prefers_actionable_failure_lines() {
    let stderr = b"gpg: encrypted with cv25519 key, ID 1234\n      \"Test User\"\ngpg: WARNING: multiple plaintexts seen\ngpg: handle plaintext failed: Unexpected error\ngpg: decryption failed: Bad data\n";

    let summary = gpg_stderr_summary(stderr, "fallback");

    assert!(summary.contains("multiple plaintexts seen"));
    assert!(summary.contains("decryption failed: Bad data"));
    assert!(!summary.contains("encrypted with cv25519 key"));
}

#[test]
fn encryption_openpgp_splitter_finds_concatenated_encrypted_messages() {
    let first = [0x84, 0x01, 0xaa, 0xd4, 0x01, 0xbb];
    let second = [0x84, 0x01, 0xcc, 0xd4, 0x01, 0xdd];
    let mut concatenated = Vec::new();
    concatenated.extend_from_slice(&first);
    concatenated.extend_from_slice(&second);

    let messages = split_concatenated_openpgp_messages(&concatenated).unwrap();

    assert_eq!(messages, vec![first.as_slice(), second.as_slice()]);
}

#[test]
fn tests_openpgp_splitter_finds_concatenated_encrypted_messages() {
    let first = [0x84, 0x01, 0xaa, 0xd4, 0x01, 0xbb];
    let second = [0x84, 0x01, 0xcc, 0xd4, 0x01, 0xdd];
    let mut concatenated = Vec::new();
    concatenated.extend_from_slice(&first);
    concatenated.extend_from_slice(&second);

    let messages = split_concatenated_openpgp_messages(&concatenated).unwrap();

    assert_eq!(messages, vec![first.as_slice(), second.as_slice()]);
}

#[test]
fn encryption_openpgp_splitter_leaves_single_message_alone() {
    let message = [0x84, 0x01, 0xaa, 0xd4, 0x01, 0xbb];

    assert!(split_concatenated_openpgp_messages(&message).is_none());
}

#[test]
fn tests_openpgp_splitter_leaves_single_message_alone() {
    let message = [0x84, 0x01, 0xaa, 0xd4, 0x01, 0xbb];

    assert!(split_concatenated_openpgp_messages(&message).is_none());
}

#[test]
fn encryption_parse_gpg_public_keys_reads_primary_fingerprints_and_uids() {
    let keys = parse_gpg_public_keys(
        "tru::1:0:0:0:0:0:0:0::\n\
         pub:u:255:22:1111111111111111:1:::u:::scESC::::::23::0:\n\
         fpr:::::::::AAAAAAAAAAAAAAAAAAAAAAAAAAAAAAAAAAAAAAAA:\n\
         uid:u::::1::hash::Test User <test@example.invalid>::::::::::0:\n\
         sub:u:255:18:2222222222222222:1::::::e::::::23:\n\
         fpr:::::::::BBBBBBBBBBBBBBBBBBBBBBBBBBBBBBBBBBBBBBBB:\n\
         pub:u:255:22:3333333333333333:1:::u:::scESC::::::23::0:\n\
         fpr:::::::::CCCCCCCCCCCCCCCCCCCCCCCCCCCCCCCCCCCCCCCC:\n",
    );

    assert_eq!(
        keys,
        vec![
            GpgPublicKey {
                fingerprint: "AAAAAAAAAAAAAAAAAAAAAAAAAAAAAAAAAAAAAAAA".to_string(),
                user_ids: vec!["Test User <test@example.invalid>".to_string()],
            },
            GpgPublicKey {
                fingerprint: "CCCCCCCCCCCCCCCCCCCCCCCCCCCCCCCCCCCCCCCC".to_string(),
                user_ids: Vec::new(),
            },
        ]
    );
}

#[test]
fn tests_parse_gpg_public_keys_reads_primary_fingerprints_and_uids() {
    let keys = parse_gpg_public_keys(
        "tru::1:0:0:0:0:0:0:0::\n\
         pub:u:255:22:1111111111111111:1:::u:::scESC::::::23::0:\n\
         fpr:::::::::AAAAAAAAAAAAAAAAAAAAAAAAAAAAAAAAAAAAAAAA:\n\
         uid:u::::1::hash::Test User <test@example.invalid>::::::::::0:\n\
         sub:u:255:18:2222222222222222:1::::::e::::::23:\n\
         fpr:::::::::BBBBBBBBBBBBBBBBBBBBBBBBBBBBBBBBBBBBBBBB:\n\
         pub:u:255:22:3333333333333333:1:::u:::scESC::::::23::0:\n\
         fpr:::::::::CCCCCCCCCCCCCCCCCCCCCCCCCCCCCCCCCCCCCCCC:\n",
    );

    assert_eq!(
        keys,
        vec![
            GpgPublicKey {
                fingerprint: "AAAAAAAAAAAAAAAAAAAAAAAAAAAAAAAAAAAAAAAA".to_string(),
                user_ids: vec!["Test User <test@example.invalid>".to_string()],
            },
            GpgPublicKey {
                fingerprint: "CCCCCCCCCCCCCCCCCCCCCCCCCCCCCCCCCCCCCCCC".to_string(),
                user_ids: Vec::new(),
            },
        ]
    );
}

#[test]
fn encryption_encrypted_path_appends_gpg_extension() {
    assert_eq!(
        encrypted_path("history/regular.jsonl"),
        String::from("history/regular.jsonl.gpg")
    );
    assert_eq!(encrypted_path("secret"), String::from("secret.gpg"));
}

#[test]
fn tests_encrypted_path_appends_gpg_extension() {
    assert_eq!(
        encrypted_path("history/regular.jsonl"),
        String::from("history/regular.jsonl.gpg")
    );
    assert_eq!(encrypted_path("secret"), String::from("secret.gpg"));
}

#[test]
fn encryption_gpg_encrypt_plan_uses_batch_encrypt_arguments() {
    let plan = gpg_encrypt_plan("gpg", "test@example.invalid", "plain.txt", "plain.txt.gpg");

    assert_eq!(plan.program, "gpg");
    assert_eq!(
        plan.args,
        vec![
            "--batch",
            "--yes",
            "--no-tty",
            "--trust-model",
            "always",
            "--encrypt",
            "--recipient",
            "test@example.invalid",
            "--output",
            "plain.txt.gpg",
            "--",
            "plain.txt"
        ]
    );
}

#[test]
fn tests_gpg_encrypt_plan_uses_batch_encrypt_arguments() {
    let plan = gpg_encrypt_plan("gpg", "test@example.invalid", "plain.txt", "plain.txt.gpg");

    assert_eq!(plan.program, "gpg");
    assert_eq!(
        plan.args,
        vec![
            "--batch",
            "--yes",
            "--no-tty",
            "--trust-model",
            "always",
            "--encrypt",
            "--recipient",
            "test@example.invalid",
            "--output",
            "plain.txt.gpg",
            "--",
            "plain.txt"
        ]
    );
}

#[test]
fn encryption_atomic_gpg_write_paths_keep_temp_files_next_to_output() {
    let paths = atomic_gpg_write_paths("secrets/key.json.gpg");

    assert_eq!(
        paths.plaintext_tmp,
        String::from("secrets/key.json.plain.tmp")
    );
    assert_eq!(
        paths.encrypted_tmp,
        String::from("secrets/key.json.gpg.tmp")
    );
    assert_eq!(paths.final_path, String::from("secrets/key.json.gpg"));
}

#[test]
fn tests_atomic_gpg_write_paths_keep_temp_files_next_to_output() {
    let paths = atomic_gpg_write_paths("secrets/key.json.gpg");

    assert_eq!(
        paths.plaintext_tmp,
        String::from("secrets/key.json.plain.tmp")
    );
    assert_eq!(
        paths.encrypted_tmp,
        String::from("secrets/key.json.gpg.tmp")
    );
    assert_eq!(paths.final_path, String::from("secrets/key.json.gpg"));
}

#[test]
fn encryption_atomic_gpg_write_paths_support_relative_output_without_parent() {
    let paths = atomic_gpg_write_paths("secret.json.gpg");

    assert_eq!(paths.plaintext_tmp, String::from("secret.json.plain.tmp"));
    assert_eq!(paths.encrypted_tmp, String::from("secret.json.gpg.tmp"));
    assert_eq!(paths.final_path, String::from("secret.json.gpg"));
}

#[test]
fn tests_atomic_gpg_write_paths_support_relative_output_without_parent() {
    let paths = atomic_gpg_write_paths("secret.json.gpg");

    assert_eq!(paths.plaintext_tmp, String::from("secret.json.plain.tmp"));
    assert_eq!(paths.encrypted_tmp, String::from("secret.json.gpg.tmp"));
    assert_eq!(paths.final_path, String::from("secret.json.gpg"));
}

#[test]
fn gpg_program_comes_from_the_environment_when_set() {
    assert_eq!(aish::encryption::gpg_program(Some("  /opt/gpg2 ")), "/opt/gpg2");
    assert_eq!(aish::encryption::gpg_program(Some("   ")), "gpg");
    assert_eq!(aish::encryption::gpg_program(None), "gpg");
}

#[test]
fn gpg_multiple_plaintexts_are_detected_in_stderr() {
    assert!(aish::encryption::gpg_stderr_mentions_multiple_plaintexts(
        b"gpg: decryption failed\ngpg: multiple plaintexts seen\n"
    ));
    assert!(!aish::encryption::gpg_stderr_mentions_multiple_plaintexts(b"gpg: bad passphrase"));
}

#[test]
fn fingerprints_compare_without_spaces_and_case() {
    assert_eq!(aish::encryption::normalize_fingerprint("aaaa bbbb\t1234\n"), "AAAABBBB1234");
    assert_eq!(aish::encryption::normalize_fingerprint(""), "");
}

#[test]
fn key_selectors_are_trimmed_and_must_not_be_blank() {
    assert_eq!(
        aish::encryption::gpg_key_selector("  test@example.invalid \n"),
        Ok("test@example.invalid".to_string())
    );
    let err = aish::encryption::gpg_key_selector(" \t").unwrap_err();
    assert_eq!(err, aish::encryption::GpgKeySelectError::EmptySelector);
    assert!(err.message().contains("selector is empty"));
}

#[test]
fn key_listing_puts_the_selector_after_the_option_boundary() {
    assert_eq!(
        aish::encryption::gpg_list_keys_args("--looks-like-option"),
        ["--batch", "--with-colons", "--fingerprint", "--list-keys", "--", "--looks-like-option"]
    );
}

#[test]
fn key_choice_accepts_a_unique_listed_key() {
    let keys = parse_gpg_public_keys(
        "pub:u:255:22:1111111111111111:1:::u:::scESC::::::23::0:\n\
         fpr:::::::::AAAAAAAAAAAAAAAAAAAAAAAAAAAAAAAAAAAAAAAA:\n\
         uid:u::::1::hash::Test User <test@example.invalid>::::::::::0:\n",
    );
    assert_eq!(
        aish::encryption::choose_gpg_key_fingerprint("test@example.invalid", &keys),
        Ok("AAAAAAAAAAAAAAAAAAAAAAAAAAAAAAAAAAAAAAAA".to_string())
    );
}

#[test]
fn key_choice_prefers_the_key_whose_fingerprint_is_the_selector() {
    let keys = vec![
        GpgPublicKey {
            fingerprint: "AAAAAAAAAAAAAAAAAAAAAAAAAAAAAAAAAAAAAAAA".to_string(),
            user_ids: Vec::new(),
        },
        GpgPublicKey {
            fingerprint: "BBBBBBBBBBBBBBBBBBBBBBBBBBBBBBBBBBBBBBBB".to_string(),
            user_ids: Vec::new(),
        },
    ];
    assert_eq!(
        aish::encryption::choose_gpg_key_fingerprint("bbbb bbbb bbbb bbbb bbbb bbbb bbbb bbbb bbbb bbbb", &keys),
        Ok("BBBBBBBBBBBBBBBBBBBBBBBBBBBBBBBBBBBBBBBB".to_string())
    );
}

#[test]
fn key_choice_rejects_an_ambiguous_selector() {
    let keys = parse_gpg_public_keys(
        "pub:u:255:22:1111111111111111:1:::u:::scESC::::::23::0:\n\
         fpr:::::::::AAAAAAAAAAAAAAAAAAAAAAAAAAAAAAAAAAAAAAAA:\n\
         pub:u:255:22:2222222222222222:1:::u:::scESC::::::23::0:\n\
         fpr:::::::::BBBBBBBBBBBBBBBBBBBBBBBBBBBBBBBBBBBBBBBB:\n",
    );
    let err = aish::encryption::choose_gpg_key_fingerprint("test@example.invalid", &keys)
        .unwrap_err()
        .message();
    assert!(err.contains("ambiguous"), "unexpected error: {err}");
    assert!(err.contains("AAAAAAAAAAAAAAAAAAAAAAAAAAAAAAAAAAAAAAAA, BBBBBBBBBBBBBBBBBBBBBBBBBBBBBBBBBBBBBBBB"));
}

#[test]
fn key_choice_reports_a_selector_without_keys() {
    let err = aish::encryption::choose_gpg_key_fingerprint("nobody@example.invalid", &Vec::new()).unwrap_err();
    assert_eq!(err.message(), "GPG key not found for selector: nobody@example.invalid");
}

#[test]
fn decrypt_arguments_batch_only_without_a_terminal() {
    assert_eq!(
        aish::encryption::gpg_decrypt_args("secret.json.gpg", false),
        ["--yes", "--decrypt", "--", "secret.json.gpg"]
    );
    assert_eq!(
        aish::encryption::gpg_decrypt_args("secret.json.gpg", true),
        ["--batch", "--yes", "--pinentry-mode", "error", "--decrypt", "--", "secret.json.gpg"]
    );
}

#[test]
fn the_encrypted_writer_stops_after_its_first_failure() {
    let mut failure = None;
    assert!(aish::encrypted_writer::refusal_after_failure(&failure).is_none());
    let ok = aish::encrypted_writer::record_write(
        &mut failure,
        aish::encrypted_writer::EncryptedWriteOperation::AppendJsonl,
        "history/regular.jsonl".to_string(),
        None,
    );
    assert_eq!(ok.error, None);
    assert_eq!(failure, None);
    assert_eq!(aish::encrypted_writer::flush_result(&failure), Ok(()));

    let failed = aish::encrypted_writer::record_write(
        &mut failure,
        aish::encrypted_writer::EncryptedWriteOperation::RewriteJsonl,
        "history/ai.jsonl".to_string(),
        Some("gpg failed".to_string()),
    );
    assert_eq!(failed.operation.as_str(), "rewrite-jsonl");
    assert_eq!(failure, Some("gpg failed".to_string()));
    assert_eq!(
        aish::encrypted_writer::refusal_after_failure(&failure),
        Some("encrypted writer is stopped after a previous failure: gpg failed".to_string())
    );
    aish::encrypted_writer::record_write(
        &mut failure,
        aish::encrypted_writer::EncryptedWriteOperation::AppendJsonl,
        "x".to_string(),
        Some("later".to_string()),
    );
    assert_eq!(aish::encrypted_writer::flush_result(&failure), Err("gpg failed".to_string()));
    assert_eq!(aish::encrypted_writer::EncryptedWriteOperation::AppendJsonl.as_str(), "append-jsonl");
    assert_eq!(aish::encrypted_writer::appended_jsonl_bytes(b"{\"a\":1}\n", b"{\"b\":2}"), b"{\"a\":1}\n{\"b\":2}\n");
}
