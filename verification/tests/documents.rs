//! The dictionary, what is learned for it, settings, and imports.

use vocalcode::dictionary::{
    format_rule, merge_rules, normalize_rule_lines, parse_rule_line, parse_rules,
    rewrite_rules_source_normalized, rules_document_from_bytes, save_rules_document_if_current,
    validate_rule_sides, DictionaryError, DocumentError, Limits, RulesDocument, RulesRevision,
    RulesSaveError,
};
use vocalcode::engine::{correction_learned, correction_refused};
use vocalcode::json::JsonField;
use vocalcode::learning::{
    after_conflict, check_pairs, learn_correction_pairs, plan_learning, proposed_changes, LearnError, LearnPlan,
};
use vocalcode::locks::Platform;
use vocalcode::migration::{
    check_merged, check_snippet_document, check_snippet_save, collections, delete_snippet,
    export_destination, import_text, migration_request, save_dictionary,
    snippets_revision, Entry, ImportError, Kind, Operation, PreviewError, Session,
};
use vocalcode::rules_file::{
    rules_after_concurrent_read, rules_after_publish, rules_after_read, FileRead, RulesStep,
};
use vocalcode::settings::{
    accept_supported_config, persist_config_if_current, reject_future_config_version,
    settings_after_concurrent_read, settings_after_publish, settings_after_read, DiskConfig,
    LoadDecision, MissingDecision, Published,
};

const LIMITS: Limits = Limits {
    max_rules: 50,
    max_side_bytes: 64,
    max_document_bytes: 4_096,
};

fn rule(from: &str, to: &str) -> (String, String) {
    (from.to_string(), to.to_string())
}

fn load(source: &str) -> RulesDocument {
    rules_document_from_bytes(source.as_bytes().to_vec(), &LIMITS).unwrap()
}

fn save(
    source: &str,
    revision: &RulesRevision,
    lines: &[&str],
) -> Result<String, RulesSaveError> {
    let lines: Vec<String> = lines.iter().map(|line| line.to_string()).collect();
    save_rules_document_if_current(source.as_bytes(), revision, &lines, &LIMITS)
        .map(|saved| saved.text)
}

#[test]
fn own_rules_override_the_built_in_ones() {
    let defaults = [rule("versal", "Vercel"), rule("git lab", "GitLab")];
    let merged = merge_rules(&[rule("Versal", "versal the tool")], &defaults, &LIMITS);
    let own: Vec<_> = merged
        .iter()
        .filter(|(from, _)| from.eq_ignore_ascii_case("versal"))
        .collect();
    assert_eq!(own.len(), 1, "override must not duplicate the key");
    assert_eq!(own[0].1, "versal the tool");
    assert!(merged.iter().any(|(f, t)| f == "git lab" && t == "GitLab"));
    let off = merge_rules(&[rule("versal", "versal")], &defaults, &LIMITS);
    assert!(off.iter().any(|(f, t)| f == "versal" && t == "versal"));
    assert!(!off.iter().any(|(f, t)| f == "versal" && t == "Vercel"));
}

#[test]
fn merge_never_exceeds_the_engine_rule_cap() {
    let cap = LIMITS.max_rules;
    let user: Vec<(String, String)> = (0..cap)
        .map(|i| (format!("phrase {i}"), format!("Repl{i}")))
        .collect();
    let merged = merge_rules(&user, &[rule("git lab", "GitLab")], &LIMITS);
    assert!(merged.len() <= cap);
    assert!(merged.iter().any(|(f, _)| f == "phrase 0"));
}

#[test]
fn dictionary_load_and_save_reject_count_and_phrase_bounds() {
    let wide = Limits {
        max_document_bytes: 100_000,
        ..LIMITS
    };
    let too_many = (0..=LIMITS.max_rules)
        .map(|index| format!("heard-{index} => written-{index}\n"))
        .collect::<String>();
    let error = rules_document_from_bytes(too_many.as_bytes().to_vec(), &wide)
        .unwrap_err()
        .message("replacements.txt");
    assert!(error.contains("more than"), "{error}");

    let oversized_side = format!("{} => written\n", "x".repeat(LIMITS.max_side_bytes + 1));
    let error = rules_document_from_bytes(oversized_side.as_bytes().to_vec(), &wide)
        .unwrap_err()
        .message("replacements.txt");
    assert!(error.contains("heard phrase"), "{error}");

    let lines = (0..=LIMITS.max_rules)
        .map(|index| format!("heard-{index} => written-{index}"))
        .collect::<Vec<_>>();
    assert!(normalize_rule_lines(&lines, &LIMITS)
        .unwrap_err()
        .message()
        .contains("at most"));
}

#[test]
fn documents_that_cannot_be_read_say_why() {
    assert!(matches!(
        rules_document_from_bytes(vec![b'#'; 4_097], &LIMITS),
        Err(DocumentError::TooLarge { max: 4_096 })
    ));
    assert!(matches!(
        rules_document_from_bytes(vec![0xff], &LIMITS),
        Err(DocumentError::NotUtf8(_))
    ));
    assert_eq!(
        normalize_rule_lines(&["a => b\nc => d".to_string()], &LIMITS),
        Err(DictionaryError::NotOneLine)
    );
    assert_eq!(
        normalize_rule_lines(&["nothing".to_string()], &LIMITS),
        Err(DictionaryError::NoRule)
    );
    assert!(validate_rule_sides("ok", &"y".repeat(65), &LIMITS)
        .unwrap_err()
        .message()
        .contains("replacement phrase"));
}

#[test]
fn rules_are_read_line_by_line() {
    assert_eq!(parse_rule_line("  a  =>  b  "), Some(("a", "b")));
    assert_eq!(parse_rule_line("# a => b"), None);
    assert_eq!(parse_rule_line("a =>"), None);
    assert_eq!(format_rule("a", "b"), "a => b");
    assert_eq!(
        parse_rules("# note\nold => value\r\nnot a rule\n", &LIMITS).unwrap(),
        vec![rule("old", "value")]
    );
}

#[test]
fn dictionary_revision_hashes_the_exact_bom_eol_and_trailing_bytes() {
    let plain = RulesRevision::from_bytes(b"old => value\n");
    let crlf = RulesRevision::from_bytes(b"old => value\r\n");
    let no_final_eol = RulesRevision::from_bytes(b"old => value");
    let bom = RulesRevision::from_bytes(b"\xef\xbb\xbfold => value\n");

    assert_ne!(plain, crlf);
    assert_ne!(plain, no_final_eol);
    assert_ne!(plain, bom);
    assert_eq!(
        RulesRevision::parse(plain.as_str()).unwrap(),
        plain,
        "the WebView revision token must round-trip without normalization"
    );
    assert!(RulesRevision::parse(&"A".repeat(64)).is_err());
    assert_eq!(
        RulesRevision::from_bytes(b"abc").as_str(),
        "ba7816bf8f01cfea414140de5dae2223b00361a396177a9cb410ff61f20015ad"
    );
}

#[test]
fn dictionary_save_preserves_every_non_rule_byte_and_line_ending() {
    let source = "\u{feff}old => value\r\n# hand-written header\r\n\r\nnot a rule\r\nempty => \r\n# tail has no newline";
    let loaded = load(source);
    assert_eq!(loaded.rules, vec![rule("old", "value")]);

    let saved = save(source, &loaded.revision, &["new => replacement"]).unwrap();
    let expected = "\u{feff}new => replacement\r\n# hand-written header\r\n\r\nnot a rule\r\nempty => \r\n# tail has no newline";

    assert_eq!(saved, expected);
    let again = load(&saved);
    assert_eq!(again.rules, vec![rule("new", "replacement")]);
    assert_ne!(again.revision, loaded.revision);
}

#[test]
fn a_rewrite_adds_and_drops_rules() {
    let lines = vec!["a => 1".to_string(), "b => 2".to_string()];
    assert_eq!(
        rewrite_rules_source_normalized("# top\nold => value\n", &lines, &LIMITS).unwrap(),
        "# top\na => 1\nb => 2\n"
    );
    assert_eq!(
        rewrite_rules_source_normalized("x => 1\n# keep\ny => 2\n", &[], &LIMITS).unwrap(),
        "\n# keep\n\n"
    );
}

#[test]
fn automatic_corrections_merge_atomically_without_losing_document_metadata() {
    let source = "# user note\r\nvoput code => old\r\n";
    let loaded = load(source);
    let pairs = [rule("VOPUT CODE", "VocalCode"), rule("seaquel", "SQL")];
    let LearnPlan::Save(lines, changes) =
        learn_correction_pairs(&loaded, &pairs, None, &LIMITS).unwrap()
    else {
        panic!("the corrections were not learned");
    };
    let lines: Vec<&str> = lines.iter().map(|line| line.as_str()).collect();
    let saved = save(source, &loaded.revision, &lines).unwrap();
    let replaced = load(&saved);
    assert_eq!(
        replaced.rules,
        vec![rule("VOPUT CODE", "VocalCode"), rule("seaquel", "SQL")]
    );
    assert_eq!(changes.len(), 2);
    assert_eq!(changes[0].previous, Some(rule("voput code", "old")));
    assert_eq!(changes[1].previous, None);
    assert_eq!(
        saved,
        "# user note\r\nVOPUT CODE => VocalCode\r\nseaquel => SQL\r\n"
    );

    assert!(matches!(
        learn_correction_pairs(&replaced, &replaced.rules, None, &LIMITS).unwrap(),
        LearnPlan::Unchanged
    ));

    assert!(learn_correction_pairs(
        &replaced,
        &[rule("another", "valid"), rule("", "invalid")],
        None,
        &LIMITS
    )
    .is_err());
}

#[test]
fn risky_learning_is_only_a_proposal_and_inverse_rule_is_not_written() {
    let original = "# existing notes\n考虑 => Collie\n";
    let loaded = load(original);
    let proposal = [rule("考虑", "考虑")];
    let LearnPlan::Review(changes) = learn_correction_pairs(
        &loaded,
        &[rule("Collie", "考虑")],
        Some(&proposal),
        &LIMITS,
    )
    .unwrap() else {
        panic!("a risky correction was not put up for review");
    };
    assert_eq!(changes[0].from, "考虑");
    assert_eq!(changes[0].to, "考虑");
    assert_eq!(changes[0].previous, Some(rule("考虑", "Collie")));
    let risky = proposed_changes(
        &loaded.rules,
        &[rule("in", "linkedin"), rule("seaquel", "SQL")],
    );
    assert_eq!(risky.len(), 2);
    assert!(save("manual => edit\n", &loaded.revision, &["考虑 => 考虑"])
        .unwrap_err()
        .is_conflict());
}

#[test]
fn corrections_that_cannot_be_learned_say_why() {
    assert_eq!(check_pairs(&[], &LIMITS), Err(LearnError::Nothing));
    assert_eq!(
        check_pairs(&[rule("a", "b"), rule("A", "c")], &LIMITS),
        Err(LearnError::Conflicting("A".to_string()))
    );
    assert!(matches!(
        check_pairs(&[rule("a\n", "b")], &LIMITS),
        Err(LearnError::Invalid)
    ));
    assert_eq!(after_conflict(1), Ok(2));
    assert_eq!(after_conflict(4), Err(LearnError::KeptChanging));
    let full: Vec<(String, String)> = (0..LIMITS.max_rules)
        .map(|i| rule(&format!("h{i}"), &format!("w{i}")))
        .collect();
    assert!(matches!(
        plan_learning(&full, &[rule("one", "more")], None, &LIMITS),
        Err(LearnError::TooMany { max: 50 })
    ));
}

#[test]
fn corrections_are_reported_as_they_were_learned() {
    let refused = correction_refused("disk full");
    assert!(!refused.ok && refused.message.contains("disk full"));
    let learned = correction_learned(load("a => b\n"), Vec::new(), None, 1);
    assert!(learned.ok && !learned.review_only);
    assert!(correction_learned(load("a => b\n"), Vec::new(), Some("check"), 1).review_only);
}

#[test]
fn dictionary_cas_refuses_valid_comment_and_invalid_external_edits() {
    for external in [
        "external => valid\n",
        "old => value\n# comment added by hand\n",
        "old => value\nthis line is intentionally invalid\n",
    ] {
        let loaded = load("old => value\n");
        let error = save(external, &loaded.revision, &["ui => edit"]).unwrap_err();
        assert!(error.is_conflict());
        let words = error.message("replacements.txt");
        assert!(words.contains("changed outside this window"), "{words}");
    }
}

#[test]
fn dictionary_cross_process_lock_allows_only_one_stale_writer() {
    let source = "old => value\n";
    let revision = load(source).revision;
    let first = save(source, &revision, &["first => winner"]).unwrap();
    assert_eq!(first, "first => winner\n");
    let second = save(&first, &revision, &["second => winner"]).unwrap_err();
    assert!(second.is_conflict());
}

#[test]
fn dictionary_revision_rotates_after_each_successful_edit() {
    let source = "# keep\nold => value\ninvalid evidence\n";
    let first = load(source);
    let second_source = save(source, &first.revision, &["new => value"]).unwrap();
    let second = load(&second_source);
    assert_ne!(first.revision, second.revision);

    assert!(save(&second_source, &first.revision, &["stale => writer"])
        .unwrap_err()
        .is_conflict());

    let third_source = save(&second_source, &second.revision, &["newest => value"]).unwrap();
    let third = load(&third_source);
    assert_ne!(second.revision, third.revision);
    assert_eq!(third_source, "# keep\nnewest => value\ninvalid evidence\n");
}

#[test]
fn missing_rules_adopt_a_concurrently_created_dictionary() {
    let path = "replacements.txt";
    assert!(matches!(
        rules_after_read(path, FileRead::Missing, &LIMITS),
        RulesStep::Publish
    ));
    assert!(matches!(
        rules_after_publish(path, &Published::AlreadyExists, "# new\n", &LIMITS),
        RulesStep::ReadConcurrent
    ));
    let concurrent = "wire less => wireless\n";
    let loaded =
        rules_after_concurrent_read(path, Ok(concurrent.as_bytes().to_vec()), &LIMITS).unwrap();
    assert_eq!(loaded.rules, vec![rule("wire less", "wireless")]);
    let error =
        rules_after_concurrent_read(path, Err("denied".to_string()), &LIMITS).unwrap_err();
    assert_eq!(
        error,
        "replacement rules appeared concurrently at replacements.txt, but could not be read: denied; they were left untouched"
    );
}

#[test]
fn dictionary_read_failure_is_isolated_to_its_exact_path() {
    let RulesStep::Done(Err(error)) = rules_after_read(
        "here/replacements.txt",
        FileRead::Failed("denied".to_string()),
        &LIMITS,
    ) else {
        panic!("a file that cannot be read was used");
    };
    assert_eq!(
        error,
        "could not read replacement rules from here/replacements.txt; the existing path was left untouched: denied"
    );
    let RulesStep::Done(Ok(document)) = rules_after_publish(
        "here/replacements.txt",
        &Published::Created,
        "# no rules yet\n",
        &LIMITS,
    ) else {
        panic!("the template was not used");
    };
    assert!(document.rules.is_empty());
    let RulesStep::Done(Err(error)) = rules_after_publish(
        "here/replacements.txt",
        &Published::Failed("full".to_string()),
        "# no rules yet\n",
        &LIMITS,
    ) else {
        panic!("a failed publish was ignored");
    };
    assert!(error.contains("without overwriting another writer: full"));
    let RulesStep::Done(Ok(document)) = rules_after_read(
        "here/replacements.txt",
        FileRead::Bytes(b"a => b\n".to_vec()),
        &LIMITS,
    ) else {
        panic!("a good file was refused");
    };
    assert_eq!(document.rules, vec![rule("a", "b")]);
}

fn disk(version: u32, snapshot: &str) -> Result<DiskConfig, String> {
    Ok(DiskConfig {
        config_version: version,
        bounds_error: None,
        snapshot: snapshot.to_string(),
    })
}

#[test]
fn future_config_version_with_unknown_fields_fails_closed_without_touching_bytes() {
    let supported = 7;
    let future = supported + 1;
    let source = format!(
        "# written by a future release\nconfig_version = {future}\ntalk = \"new-schema\"\nfuture_voice_router = {{ mode = \"semantic\" }}\n"
    );
    let LoadDecision::Refuse(error) = settings_after_read(
        "vocalcode.toml",
        &source,
        &Err("unknown field".to_string()),
        supported,
    ) else {
        panic!("a valid future config must not be moved into invalid recovery");
    };
    assert!(error.contains("newer VocalCode config version"), "{error}");
    assert!(error.contains(&future.to_string()), "{error}");
    assert!(error.contains("left byte-for-byte unchanged"), "{error}");
    assert!(reject_future_config_version("vocalcode.toml", "config_version = 7\n", 7).is_ok());
}

#[test]
fn invalid_settings_are_set_aside_and_valid_ones_used() {
    assert_eq!(
        settings_after_read("c", "talk = [", &Err("bad".to_string()), 7),
        LoadDecision::Recover
    );
    assert_eq!(
        settings_after_read("c", "config_version = 7\n", &disk(7, "s"), 7),
        LoadDecision::Accept
    );
    let out_of_bounds = DiskConfig {
        config_version: 7,
        bounds_error: Some("too long".to_string()),
        snapshot: "s".to_string(),
    };
    assert!(accept_supported_config("c", &out_of_bounds, 7)
        .unwrap_err()
        .contains("outside supported safety bounds (too long)"));
}

#[test]
fn settings_save_refuses_a_future_file_that_appeared_after_load() {
    let supported = 7;
    let future = supported + 1;
    let source = format!("config_version = {future}\ntalk = \"new-schema\"\n");
    let error = persist_config_if_current(
        "vocalcode.toml",
        &source,
        &disk(future, "other"),
        supported,
        "expected",
        "replacement",
        1_000,
    )
    .unwrap_err();
    assert!(error.contains("newer VocalCode config version"), "{error}");
}

#[test]
fn settings_save_refuses_a_compatible_external_edit() {
    let error = persist_config_if_current(
        "vocalcode.toml",
        "config_version = 7\ncue_sounds = false\n",
        &disk(7, "external"),
        7,
        "expected",
        "replacement",
        1_000,
    )
    .unwrap_err();
    assert!(error.contains("changed outside this window"), "{error}");
    persist_config_if_current(
        "vocalcode.toml",
        "config_version = 7\n",
        &disk(7, "expected"),
        7,
        "expected",
        "replacement",
        1_000,
    )
    .unwrap();
}

#[test]
fn missing_config_adopts_a_concurrently_created_file() {
    assert_eq!(
        settings_after_publish("c", &Published::AlreadyExists),
        MissingDecision::ReadConcurrent
    );
    assert!(settings_after_concurrent_read("c", "config_version = 7\n", &disk(7, "s"), 7).is_ok());
    assert!(
        settings_after_concurrent_read("c", "config_version = 7\n", &Err("bad".to_string()), 7)
            .unwrap_err()
            .contains("they were left untouched")
    );
    assert_eq!(
        settings_after_publish("c", &Published::Created),
        MissingDecision::UseDefaults
    );
}

fn entry(name: &str, text: &str) -> Entry {
    Entry {
        name: name.to_string(),
        text: text.to_string(),
    }
}

fn entries(document: &RulesDocument) -> Vec<Entry> {
    document
        .rules
        .iter()
        .map(|(name, text)| entry(name, text))
        .collect()
}

#[test]
fn preview_commit_undo_and_conflicts_use_disk_revision() {
    let source = "# mine\n";
    let before = load(source);
    let mut session = Session::new();
    assert_eq!(
        session
            .plan_dictionary_commit(Some(1), source.as_bytes(), &LIMITS)
            .unwrap_err(),
        ImportError::Refused("Preview the import first")
    );
    let preview = |session: &mut Session| {
        session.show_preview(
            Kind::Dictionary,
            before.revision.as_str().to_string(),
            entries(&before),
            vec![entry("myword", "MyWord")],
            1,
        )
    };
    let token = preview(&mut session);
    let saved = session
        .plan_dictionary_commit(Some(token), source.as_bytes(), &LIMITS)
        .unwrap();
    assert_eq!(saved.text, "# mine\nmyword => MyWord\n");
    let after = saved.document.unwrap();
    assert_eq!(after, load(&saved.text));
    assert_eq!(after.rules, vec![rule("myword", "MyWord")]);
    assert_eq!(
        session.commit(after.revision.as_str().to_string()),
        Some(token)
    );
    assert_eq!(session.undo_token(), Some(token));
    assert!(session.check_commit(Some(token), Kind::Dictionary).is_err());

    let restored = session
        .plan_dictionary_undo(Some(token), saved.text.as_bytes(), &LIMITS)
        .unwrap();
    assert_eq!(restored.document.unwrap().rules, before.rules);
    session.finish_undo();
    assert_eq!(
        session
            .plan_dictionary_undo(Some(token), saved.text.as_bytes(), &LIMITS)
            .unwrap_err()
            .message("replacements.txt"),
        "There is no import to undo in this app session"
    );

    let token = preview(&mut session);
    session.commit(after.revision.as_str().to_string());
    let later = save(
        &saved.text,
        &after.revision,
        &["myword => MyWord", "later => Later"],
    )
    .unwrap();
    assert_eq!(
        session
            .plan_dictionary_undo(Some(token), later.as_bytes(), &LIMITS)
            .unwrap_err(),
        ImportError::Rules(RulesSaveError::Conflict)
    );
    assert_eq!(
        session.check_undo(Some(token - 1)).unwrap_err(),
        "This Undo action is no longer current."
    );
}

#[test]
fn stale_preview_is_rejected_without_overwriting_new_dictionary() {
    let source = "# mine\n";
    let before = load(source);
    let mut session = Session::new();
    let token = session.show_preview(
        Kind::Dictionary,
        before.revision.as_str().to_string(),
        entries(&before),
        vec![entry("new", "New")],
        1,
    );
    let external = save(source, &before.revision, &["external => External"]).unwrap();
    let refused = session
        .plan_dictionary_commit(Some(token), external.as_bytes(), &LIMITS)
        .unwrap_err();
    assert_eq!(refused, ImportError::Rules(RulesSaveError::Conflict));
    assert!(refused
        .message("replacements.txt")
        .starts_with("dictionary at replacements.txt changed outside this window"));
    assert_eq!(load(&external).rules, vec![rule("external", "External")]);
    assert_eq!(
        save_dictionary(source.as_bytes(), "absent", &[], &LIMITS).unwrap_err(),
        ImportError::Refused("dictionary revision is invalid; reload Dictionary and try again")
    );
}

#[test]
fn a_newer_preview_takes_the_place_of_an_older_one() {
    let mut session = Session::new();
    let show = |session: &mut Session, added: usize| {
        session.show_preview(
            Kind::Dictionary,
            "r".to_string(),
            Vec::new(),
            vec![entry("new", "New")],
            added,
        )
    };
    let first = show(&mut session, 1);
    session.drop_preview();
    let second = show(&mut session, 0);
    assert_ne!(first, second);
    for (token, kind) in [
        (Some(first), Kind::Dictionary),
        (Some(second), Kind::Snippets),
        (None, Kind::Dictionary),
    ] {
        assert_eq!(
            session.check_commit(token, kind).unwrap_err(),
            "This preview is no longer current. Preview again."
        );
    }
    assert_eq!(
        session
            .check_commit(Some(second), Kind::Dictionary)
            .unwrap_err(),
        "There are no new entries to import."
    );
}

#[test]
fn edits_are_normalized_before_anything_is_read() {
    let source = "a => b\n";
    let revision = load(source).revision;
    assert_eq!(
        save(source, &revision, &["  spaced   =>  Out  "]).unwrap(),
        "spaced => Out\n"
    );
    assert_eq!(
        save("not this file", &revision, &["no arrow"]).unwrap_err(),
        RulesSaveError::Rules(DictionaryError::NoRule)
    );
    assert_eq!(
        save("not this file", &revision, &["a => b"]).unwrap_err(),
        RulesSaveError::Conflict
    );
}

#[test]
fn snippets_survive_reload_and_stale_writes_fail() {
    assert_eq!(snippets_revision(None), "absent");
    let revision = snippets_revision(Some(b"abc"));
    assert_eq!(
        revision,
        "ba7816bf8f01cfea414140de5dae2223b00361a396177a9cb410ff61f20015ad"
    );
    assert!(check_snippet_save(&revision, "absent", 10, 100).is_err());
    assert!(check_snippet_save(&revision, &revision, 100, 100).is_ok());
    assert_eq!(
        check_snippet_save(&revision, &revision, 101, 100).unwrap_err(),
        "The merged snippet file exceeds 3 MiB. Nothing was saved."
    );
    assert!(check_snippet_document("vocalcode-interchange", 1, Kind::Snippets, 0, 10).is_ok());
    assert!(check_snippet_document("vocalcode-interchange", 2, Kind::Snippets, 0, 10).is_err());
    assert!(check_snippet_document("vocalcode-interchange", 1, Kind::Snippets, 11, 10).is_err());
}

#[test]
fn snippets_are_deleted_by_name_and_revision() {
    let all = || vec![entry("greet", "Hi!"), entry("bye", "Bye!")];
    let left = delete_snippet(
        all(),
        "rev",
        Some("rev".to_string()),
        Some("greet".to_string()),
    )
    .unwrap();
    assert_eq!(left, vec![entry("bye", "Bye!")]);
    assert_eq!(
        delete_snippet(all(), "rev", None, Some("greet".to_string())).unwrap_err(),
        "Snippets changed. Reload before deleting."
    );
    assert_eq!(
        delete_snippet(all(), "rev", Some("rev".to_string()), None).unwrap_err(),
        "Choose a snippet"
    );
    assert_eq!(
        delete_snippet(
            all(),
            "rev",
            Some("rev".to_string()),
            Some("other".to_string())
        )
        .unwrap_err(),
        "Snippet no longer exists"
    );
}

#[test]
fn corrupt_other_collection_cannot_hide_a_successful_commit() {
    let known = collections(
        Ok(("rev".to_string(), vec![entry("new", "New")])),
        Err("Invalid snippet file. It was left untouched.".to_string()),
    );
    assert_eq!(known.dictionary.unwrap().1, vec![entry("new", "New")]);
    assert_eq!(known.warnings.len(), 1);
    assert!(known.snippets.is_none());
}

#[test]
fn exports_cannot_overwrite_application_data_via_parent_aliases() {
    let path = |parts: &[&str]| -> Vec<String> { parts.iter().map(|p| p.to_string()).collect() };
    let base = path(&["/", "data", "app"]);
    let nested = path(&["/", "data", "app", "nested"]);
    let out = path(&["/", "data", "app", "out.json"]);
    assert!(export_destination(Platform::Linux, &out, &base).is_err());
    assert!(export_destination(Platform::Linux, &out, &nested).is_ok());
    let upper = path(&["/", "DATA", "APP", "out.json"]);
    assert!(export_destination(Platform::Windows, &upper, &base).is_err());
    assert!(export_destination(Platform::Linux, &upper, &base).is_ok());
}

fn text(value: &str) -> Option<JsonField> {
    Some(JsonField::Text(value.to_string()))
}

#[test]
fn requests_are_told_apart_by_their_members() {
    assert_eq!(
        migration_request(&text("pick"), &text("snippets")),
        Ok((Operation::Preview, Kind::Snippets))
    );
    assert_eq!(
        migration_request(&None, &text("snippets")).unwrap_err(),
        "Missing migration operation"
    );
    assert_eq!(
        migration_request(&text("load"), &text("other")).unwrap_err(),
        "Choose Dictionary or Snippets"
    );
    assert_eq!(
        migration_request(&text("other"), &text("dictionary")).unwrap_err(),
        "Unknown migration operation"
    );
}

#[test]
fn imports_are_texts_within_bounds() {
    assert_eq!(
        import_text(Some(b"a,b".to_vec()), None),
        Ok("a,b".to_string())
    );
    assert_eq!(
        import_text(Some(vec![0xff]), None).unwrap_err(),
        "The import must be UTF-8 CSV or JSON. No data was changed."
    );
    assert_eq!(
        import_text(None, None).unwrap_err(),
        "Paste CSV or JSON first"
    );
    assert!(check_merged(Kind::Snippets, &[], 100, 100, &LIMITS).is_ok());
    let error = check_merged(Kind::Snippets, &[], 101, 100, &LIMITS).unwrap_err();
    assert!(matches!(error, PreviewError::TooLarge));
    assert_eq!(
        error.message(),
        "The merged snippet document would exceed 3 MiB."
    );
    assert!(check_merged(Kind::Dictionary, &[entry("a", "b")], 0, 0, &LIMITS).is_ok());
    assert!(matches!(
        check_merged(Kind::Dictionary, &[entry("", "b")], 0, 0, &LIMITS),
        Err(PreviewError::Rules(DictionaryError::NoRule))
    ));
}

#[test]
fn lines_that_are_no_rules_keep_their_places() {
    let source = "\u{feff}# note\na => b\n\nnot a rule\nx => y\nlast";
    let rewrite = |lines: &[&str]| {
        let lines: Vec<String> = lines.iter().map(|line| line.to_string()).collect();
        rewrite_rules_source_normalized(source, &lines, &LIMITS).unwrap()
    };
    assert_eq!(
        rewrite(&["a => c", "x => z", "d => e"]),
        "\u{feff}# note\na => c\n\nnot a rule\nx => z\nlast\nd => e\n"
    );
    assert_eq!(
        rewrite(&["a => c"]),
        "\u{feff}# note\na => c\n\nnot a rule\n\nlast"
    );
}

#[test]
fn an_import_over_a_rule_that_begins_with_the_mark_is_undone() {
    for found in [
        "\u{feff}\u{feff}a => b\n",
        "# note\n\u{feff}a => b\n",
        " \u{feff}a => b\n",
    ] {
        let before = load(found);
        assert_eq!(before.rules, vec![rule("\u{feff}a", "b")]);
        let mut merged = entries(&before);
        merged.push(entry("new", "New"));
        let mut session = Session::new();
        let token = session.show_preview(
            Kind::Dictionary,
            before.revision.as_str().to_string(),
            entries(&before),
            merged,
            1,
        );
        let saved = session
            .plan_dictionary_commit(Some(token), found.as_bytes(), &LIMITS)
            .unwrap();
        session.commit(saved.document.unwrap().revision.as_str().to_string());
        let undone = session
            .plan_dictionary_undo(Some(token), saved.text.as_bytes(), &LIMITS)
            .unwrap();
        assert_eq!(undone.document.unwrap().rules, before.rules);
    }
}

#[test]
fn an_import_that_fills_the_dictionary_can_be_undone() {
    let found = "a=>b\n";
    let full = Limits {
        max_document_bytes: "a => b\nc => d\n".len(),
        ..LIMITS
    };
    let before = load(found);
    let mut session = Session::new();
    let token = session.show_preview(
        Kind::Dictionary,
        before.revision.as_str().to_string(),
        entries(&before),
        vec![entry("a", "b"), entry("c", "d")],
        1,
    );
    let saved = session
        .plan_dictionary_commit(Some(token), found.as_bytes(), &full)
        .unwrap();
    assert_eq!(saved.text.len(), full.max_document_bytes);
    session.commit(saved.document.unwrap().revision.as_str().to_string());
    let undone = session
        .plan_dictionary_undo(Some(token), saved.text.as_bytes(), &full)
        .unwrap();
    assert_eq!(undone.text, "a => b\n\n");
    assert_eq!(undone.document.unwrap().rules, before.rules);
}
