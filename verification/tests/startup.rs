//! The command line, the single instance, locks and control files.

use vocalcode::cli::{
    activation_input, complete_shutdown_action_with, diagnostic_command, internal_request,
    parent_step, run_early_detached_purge_helper_with, run_early_uninstall_cleanup_with,
    run_uninstall_cleanup_transaction_with, shutdown_plan, update_failure_message, ActivationInput,
    InternalRequest, ParentRead, ParentStep, PurgePlan, ShutdownAction, DETACHED_PURGE_HELPER_ARG,
    UNINSTALL_CLEANUP_ARG, WINDOWS_ACTIVATION_PROMPT_ERROR,
};
use vocalcode::engine::{engine_shutdown, EngineShutdown, EngineWait};
use vocalcode::files::{read_allowance, read_bounded_bytes, read_bounded_string};
use vocalcode::instance::{
    after_answer, after_answer_failure, after_client_message, after_client_silence, after_connect,
    after_mode, after_open_failure, after_socket_failure, asks_to_show, confirms_delivery,
    endpoint_names, installer_mutex, instance_role, instance_token, may_read_answer, names,
    private_sddl, request_complete, sid_string, stale_endpoint, trusted_directory, ClientStep,
    ConnectStep, DeliveryStep, Endpoint, EndpointStep, InstanceRole, ModeStep, OpenStep, ShowSlot,
    SocketFailure,
};
use vocalcode::licensing::Edition;
use vocalcode::locks::{
    after_attempt, file_lock_deadline, file_lock_is_contended, file_lock_timeout, may_attempt,
    plan_append, AppendPlan, LockAttempt, LockStep, LockedDocument, LogFileSink, Platform,
    ProcessLogQueue, WriteLockError,
};
use vocalcode::recovery::{
    changed_message, grown_message, judge_moved, probe_limit, recovery_name, unpublished_message,
    MovedFile, Restored,
};

fn args(list: &[&str]) -> Vec<String> {
    list.iter().map(|a| a.to_string()).collect()
}

#[test]
fn production_classifies_every_developer_harness_before_gui_startup() {
    for command in ["punct", "keyprobe", "transcribe"] {
        let args = vec!["VocalCode".to_string(), command.to_string()];
        assert_eq!(diagnostic_command(&args), Some(command));
    }
    let activate = vec!["VocalCode".to_string(), "activate".to_string()];
    assert_eq!(diagnostic_command(&activate), None);
}

#[test]
fn uninstall_cleanup_accepts_only_the_exact_internal_argument() {
    let calls = std::cell::Cell::new(0);
    let exact = vec!["VocalCode".to_string(), UNINSTALL_CLEANUP_ARG.to_string()];
    assert!(run_early_uninstall_cleanup_with(&exact, || {
        calls.set(calls.get() + 1);
        Ok(())
    })
    .unwrap());
    assert_eq!(calls.get(), 1);

    for rejected in [
        vec![
            "VocalCode".to_string(),
            UNINSTALL_CLEANUP_ARG.to_string(),
            "extra".to_string(),
        ],
        vec![
            "VocalCode".to_string(),
            "activate".to_string(),
            UNINSTALL_CLEANUP_ARG.to_string(),
        ],
    ] {
        assert!(run_early_uninstall_cleanup_with(&rejected, || {
            calls.set(calls.get() + 1);
            Ok(())
        })
        .is_err());
    }
    assert_eq!(calls.get(), 1, "rejected shapes must never clean data");

    let ordinary = vec!["VocalCode".to_string(), "activate".to_string()];
    assert!(!run_early_uninstall_cleanup_with(&ordinary, || {
        calls.set(calls.get() + 1);
        Ok(())
    })
    .unwrap());
    assert_eq!(calls.get(), 1);
}

#[test]
fn uninstall_cleanup_failure_propagates_for_a_nonzero_process_exit() {
    let args = vec!["VocalCode".to_string(), UNINSTALL_CLEANUP_ARG.to_string()];
    let error =
        run_early_uninstall_cleanup_with(&args, || Err("exclusive cleanup failed".to_string()))
            .unwrap_err();
    assert_eq!(error, "exclusive cleanup failed");
}

#[test]
fn uninstall_cleanup_dispatch_precedes_every_normal_startup_side_effect() {
    // Whichever internal request the arguments hold, it is told from an ordinary
    // start by them alone, and an ordinary start does neither.
    let purge = args(&["VocalCode", DETACHED_PURGE_HELPER_ARG]);
    let cleanup = args(&["VocalCode", UNINSTALL_CLEANUP_ARG]);
    let ordinary = args(&["VocalCode"]);
    assert_eq!(
        internal_request(&purge, DETACHED_PURGE_HELPER_ARG),
        InternalRequest::Exact
    );
    assert_eq!(
        internal_request(&cleanup, UNINSTALL_CLEANUP_ARG),
        InternalRequest::Exact
    );
    for flag in [DETACHED_PURGE_HELPER_ARG, UNINSTALL_CLEANUP_ARG] {
        assert_eq!(internal_request(&ordinary, flag), InternalRequest::Absent);
    }
    let order = std::cell::RefCell::new(Vec::new());
    run_uninstall_cleanup_transaction_with(
        7,
        |_| {
            order.borrow_mut().push("migrate");
            Ok(())
        },
        |_| {
            order.borrow_mut().push("purge");
            Ok(())
        },
    )
    .unwrap();
    assert_eq!(*order.borrow(), ["migrate", "purge"]);
}

#[test]
fn detached_purge_helper_waits_for_parent_eof_before_deleting() {
    let order = std::cell::RefCell::new(Vec::new());
    let exact = args(&["VocalCode", DETACHED_PURGE_HELPER_ARG]);
    assert!(run_early_detached_purge_helper_with(
        &exact,
        || {
            order.borrow_mut().push("parent exited");
            Ok(())
        },
        || {
            order.borrow_mut().push("deleted");
            Ok(())
        },
    )
    .unwrap());
    assert_eq!(*order.borrow(), ["parent exited", "deleted"]);
    assert_eq!(parent_step(ParentRead::Closed), ParentStep::ParentGone);
    assert_eq!(parent_step(ParentRead::Interrupted), ParentStep::ReadAgain);
}

#[test]
fn detached_purge_helper_fails_closed_on_control_data_or_extra_arguments() {
    let cleanup_calls = std::cell::Cell::new(0);
    let exact = vec![
        "VocalCode".to_string(),
        DETACHED_PURGE_HELPER_ARG.to_string(),
    ];
    let error = run_early_detached_purge_helper_with(
        &exact,
        || match parent_step(ParentRead::Data) {
            ParentStep::Refuse(error) => Err(error),
            step => panic!("{step:?}"),
        },
        || {
            cleanup_calls.set(cleanup_calls.get() + 1);
            Ok(())
        },
    )
    .unwrap_err();
    assert!(error.contains("unexpected parent control data"));

    let extra = vec![
        "VocalCode".to_string(),
        DETACHED_PURGE_HELPER_ARG.to_string(),
        "extra".to_string(),
    ];
    assert!(run_early_detached_purge_helper_with(
        &extra,
        || Ok(()),
        || {
            cleanup_calls.set(cleanup_calls.get() + 1);
            Ok(())
        },
    )
    .is_err());
    assert_eq!(cleanup_calls.get(), 0);
    assert!(matches!(
        parent_step(ParentRead::Failed("broken pipe".to_string())),
        ParentStep::Refuse(error) if error.contains("broken pipe")
    ));
}

struct LifecycleProbe<'a>(&'a std::cell::Cell<u32>);

impl Drop for LifecycleProbe<'_> {
    fn drop(&mut self) {
        self.0.set(self.0.get() + 1);
    }
}

#[test]
fn detached_engine_never_purges_inside_the_old_process() {
    let in_process = std::cell::Cell::new(0);
    let deferred = std::cell::Cell::new(0);
    let detached_lifecycle_drops = std::cell::Cell::new(0);
    let (result, kept) = complete_shutdown_action_with(
        ShutdownAction::PurgeData,
        EngineShutdown::Detached,
        LifecycleProbe(&detached_lifecycle_drops),
        || {
            in_process.set(in_process.get() + 1);
            Ok(())
        },
        || {
            assert_eq!(
                detached_lifecycle_drops.get(),
                0,
                "old process released its lifecycle lock before helper launch"
            );
            deferred.set(deferred.get() + 1);
            Ok(())
        },
    );
    result.unwrap();
    assert_eq!(in_process.get(), 0);
    assert_eq!(deferred.get(), 1);
    assert!(kept.is_some());
    assert_eq!(
        detached_lifecycle_drops.get(),
        0,
        "detached lifecycle guard must survive until OS process teardown"
    );

    let stopped_in_process = std::cell::Cell::new(0);
    let stopped_deferred = std::cell::Cell::new(0);
    let stopped_lifecycle_drops = std::cell::Cell::new(0);
    let (result, kept) = complete_shutdown_action_with(
        ShutdownAction::PurgeData,
        EngineShutdown::Stopped,
        LifecycleProbe(&stopped_lifecycle_drops),
        || {
            assert_eq!(
                stopped_lifecycle_drops.get(),
                1,
                "stopped engine must release its lifecycle lock before inline purge"
            );
            stopped_in_process.set(stopped_in_process.get() + 1);
            Ok(())
        },
        || {
            stopped_deferred.set(stopped_deferred.get() + 1);
            Ok(())
        },
    );
    result.unwrap();
    assert!(kept.is_none());
    assert_eq!(stopped_in_process.get(), 1);
    assert_eq!(stopped_deferred.get(), 0);
    assert_eq!(stopped_lifecycle_drops.get(), 1);

    let failed_spawn_lifecycle_drops = std::cell::Cell::new(0);
    let failed_spawn_inline_purges = std::cell::Cell::new(0);
    let (result, kept) = complete_shutdown_action_with(
        ShutdownAction::PurgeData,
        EngineShutdown::Detached,
        LifecycleProbe(&failed_spawn_lifecycle_drops),
        || {
            failed_spawn_inline_purges.set(failed_spawn_inline_purges.get() + 1);
            Ok(())
        },
        || Err("helper spawn failed".to_string()),
    );
    assert_eq!(result.unwrap_err(), "helper spawn failed");
    assert!(kept.is_some());
    assert_eq!(failed_spawn_inline_purges.get(), 0);
    assert_eq!(
        failed_spawn_lifecycle_drops.get(),
        0,
        "spawn failure must retain both data and the old process lock until exit"
    );
}

#[test]
fn a_plain_quit_deletes_nothing() {
    for engine in [EngineShutdown::Stopped, EngineShutdown::Detached] {
        assert_eq!(
            shutdown_plan(ShutdownAction::Quit, engine).purge,
            PurgePlan::Keep
        );
    }
}

#[test]
fn background_shutdown_reports_stopped_and_detached_explicitly() {
    assert_eq!(engine_shutdown(EngineWait::Finished), EngineShutdown::Stopped);
    assert_eq!(engine_shutdown(EngineWait::Gone), EngineShutdown::Stopped);
    assert_eq!(engine_shutdown(EngineWait::TimedOut), EngineShutdown::Detached);
}

struct MigrationGuard<'a>(&'a std::cell::RefCell<Vec<&'static str>>);

impl Drop for MigrationGuard<'_> {
    fn drop(&mut self) {
        self.0.borrow_mut().push("release migration");
    }
}

#[test]
fn uninstall_cleanup_releases_migration_guard_before_exclusive_purge() {
    let calls = std::cell::RefCell::new(Vec::new());
    let deadline = 1_000;
    run_uninstall_cleanup_transaction_with(
        deadline,
        |observed_deadline| {
            assert_eq!(observed_deadline, deadline);
            calls.borrow_mut().push("migrate");
            Ok(MigrationGuard(&calls))
        },
        |observed_deadline| {
            assert_eq!(observed_deadline, deadline);
            calls.borrow_mut().push("exclusive purge");
            Ok(())
        },
    )
    .unwrap();
    assert_eq!(
        *calls.borrow(),
        ["migrate", "release migration", "exclusive purge"]
    );
}

#[test]
fn update_installer_failure_argument_becomes_a_visible_message() {
    let args = vec![
        "vocalcode-app".to_string(),
        "--update-failed".to_string(),
        "17".to_string(),
    ];
    let message = update_failure_message(&args).expect("failure must be surfaced");
    assert!(message.contains("17"));
    let helper = vec![
        "vocalcode-app".to_string(),
        "--update-failed".to_string(),
        "helper-launch-error".to_string(),
    ];
    let message = update_failure_message(&helper).expect("helper failure must be surfaced");
    assert!(message.contains("could not start"));
    let timeout = vec![
        "vocalcode-app".to_string(),
        "--update-failed".to_string(),
        "installer-timeout".to_string(),
    ];
    let message = update_failure_message(&timeout).expect("timeout must be surfaced");
    assert!(message.contains("did not finish within 15 minutes"));
    assert!(!message.contains("exited with code"));
    assert!(update_failure_message(&["vocalcode-app".to_string()]).is_none());
}

#[test]
fn activation_cli_never_accepts_a_key_in_argv() {
    let interactive = vec!["vocalcode-app".to_string(), "activate".to_string()];
    assert_eq!(
        activation_input(&interactive).unwrap(),
        Some(ActivationInput::Prompt)
    );
    let stdin = vec![
        "vocalcode-app".to_string(),
        "activate".to_string(),
        "--stdin".to_string(),
    ];
    assert_eq!(
        activation_input(&stdin).unwrap(),
        Some(ActivationInput::Stdin)
    );
    let secret = "vc-secret-that-must-not-echo";
    let argv_key = vec![
        "vocalcode-app".to_string(),
        "activate".to_string(),
        secret.to_string(),
    ];
    let error = activation_input(&argv_key).unwrap_err();
    assert!(!error.contains(secret));
    assert!(error.contains("never accepted"));
    assert_eq!(activation_input(&["vocalcode-app".to_string()]).unwrap(), None);
}

#[test]
fn windows_gui_activation_points_to_safe_input_paths() {
    assert!(WINDOWS_ACTIVATION_PROMPT_ERROR.contains("License panel"));
    assert!(WINDOWS_ACTIVATION_PROMPT_ERROR.contains("activate --stdin"));
}

#[test]
fn windows_lock_violation_is_classified_as_contention() {
    assert!(file_lock_is_contended(false, Some(33), Platform::Windows));
    assert!(!file_lock_is_contended(false, Some(33), Platform::Linux));
    assert!(file_lock_is_contended(true, None, Platform::Other));
}

#[test]
fn an_expired_deadline_never_acquires_or_leaks_a_file_lock() {
    assert!(!may_attempt(100, 100));
    assert_eq!(
        after_attempt(LockAttempt::Acquired, 100, 100),
        LockStep::ReleaseAndTimeOut
    );
    assert!(file_lock_timeout("test lock").contains("test lock"));
}

#[test]
fn a_held_lock_times_out_and_a_free_one_is_taken() {
    let deadline = file_lock_deadline(1_000, 120, "test lock").unwrap();
    assert_eq!(deadline, 1_120);
    assert_eq!(
        after_attempt(LockAttempt::Contended, 1_000, deadline),
        LockStep::RetryAfter(10)
    );
    assert_eq!(
        after_attempt(LockAttempt::Contended, 1_115, deadline),
        LockStep::RetryAfter(5)
    );
    assert_eq!(
        after_attempt(LockAttempt::Contended, deadline, deadline),
        LockStep::TimeOut
    );
    assert_eq!(
        after_attempt(LockAttempt::Acquired, 1_050, deadline),
        LockStep::Proceed
    );
    assert_eq!(
        after_attempt(LockAttempt::Failed, 1_050, deadline),
        LockStep::Fail
    );
    assert_eq!(
        file_lock_deadline(u64::MAX, 1, "test lock").unwrap_err(),
        "test lock timeout is too large"
    );
}

/// Waits for the lock of a document that is held until `held_until`. Says when the
/// wait ended.
fn wait_for_lock(
    document: LockedDocument,
    mut now: u64,
    deadline: u64,
    held_until: u64,
) -> (u64, Result<(), String>) {
    loop {
        let attempt = if now < held_until {
            LockAttempt::Contended
        } else {
            LockAttempt::Acquired
        };
        match after_attempt(attempt, now, deadline) {
            LockStep::Proceed => return (now, Ok(())),
            LockStep::RetryAfter(wait) => now += wait,
            LockStep::TimeOut | LockStep::ReleaseAndTimeOut => {
                let error = file_lock_timeout(&document.lock_description());
                return (now, Err(WriteLockError::TimedOut(error).message(document)));
            }
            LockStep::Fail => unreachable!(),
        }
    }
}

#[test]
fn dictionary_write_lock_has_a_hard_deadline_and_recovers() {
    let document = LockedDocument::Dictionary;
    let deadline = file_lock_deadline(0, 120, &document.lock_description()).unwrap();
    let (ended, error) = wait_for_lock(document, 0, deadline, u64::MAX);
    assert_eq!(ended, 120);
    let error = error.unwrap_err();
    assert!(error.contains("dictionary write is busy"), "{error}");
    assert!(error.contains("timed out"), "{error}");
    assert_eq!(
        error,
        "dictionary write is busy: timed out waiting for dictionary write lock; try again"
    );
    assert_eq!(
        wait_for_lock(document, 200, 1_200, 200),
        (200, Ok(())),
        "a free lock is taken at once"
    );
}

#[test]
fn settings_write_lock_has_a_hard_deadline_and_recovers() {
    let document = LockedDocument::Settings;
    let deadline = file_lock_deadline(0, 120, &document.lock_description()).unwrap();
    let (ended, error) = wait_for_lock(document, 0, deadline, u64::MAX);
    assert_eq!(ended, 120);
    let error = error.unwrap_err();
    assert!(error.contains("settings write is busy"), "{error}");
    assert!(error.contains("timed out"), "{error}");
    assert_eq!(wait_for_lock(document, 200, 1_200, 255), (260, Ok(())));
}

#[test]
fn contended_log_lock_disables_only_file_logging_and_recovers() {
    let mut sink = LogFileSink::new(128);
    let deadline = file_lock_deadline(0, 120, "log write lock").unwrap();
    assert_eq!(
        after_attempt(LockAttempt::Contended, deadline, deadline),
        LockStep::TimeOut
    );
    assert!(file_lock_timeout("log write lock").contains("log write lock"));
    sink.failed();
    assert!(!sink.enabled);
    assert_eq!(sink.append(0, 41), None);
    assert_eq!(
        after_attempt(LockAttempt::Acquired, 200, 1_200),
        LockStep::Proceed
    );
    assert!(!sink.enabled, "a failed file sink stays safely disabled");
}

#[test]
fn lock_troubles_have_their_own_words() {
    let cases = [
        (
            WriteLockError::Endless("settings write lock timeout is too large".to_string()),
            "could not start the settings write lock wait: settings write lock timeout is too large",
        ),
        (
            WriteLockError::Late,
            "settings write is busy: timed out waiting for settings write lock",
        ),
        (
            WriteLockError::NoParent("/".to_string()),
            "settings path / has no parent",
        ),
        (
            WriteLockError::NoDirectory("/d".to_string(), "denied".to_string()),
            "could not create settings directory /d: denied",
        ),
        (
            WriteLockError::NotOpened("denied".to_string()),
            "could not open the settings write lock: denied",
        ),
        (
            WriteLockError::Failed("denied".to_string()),
            "could not lock settings for writing: denied",
        ),
    ];
    for (error, words) in cases {
        assert_eq!(error.message(LockedDocument::Settings), words);
    }
    assert_eq!(
        WriteLockError::Failed("denied".to_string()).message(LockedDocument::Dictionary),
        "could not lock the dictionary for writing: denied"
    );
    assert_eq!(
        LockedDocument::Dictionary.lock_file(),
        ".vocalcode-rules-write.lock"
    );
    assert_eq!(
        LockedDocument::Settings.lock_file(),
        ".vocalcode-config-write.lock"
    );
}

#[test]
fn log_writers_are_served_in_turn() {
    let mut queue = ProcessLogQueue::new();
    let first = queue.draw().unwrap();
    let second = queue.draw().unwrap();
    let third = queue.draw().unwrap();
    assert!(queue.is_served(first) && !queue.is_served(second));
    queue.give_up(second);
    assert!(queue.is_served(first));
    queue.release();
    assert!(queue.is_served(third), "whoever gave up is passed over");
    assert!(!queue.is_served(second));
}

#[test]
fn long_running_log_sink_stays_bounded_and_keeps_one_generation() {
    let sink = LogFileSink::new(128);
    assert_eq!(
        sink.append(100, 28).unwrap(),
        AppendPlan {
            rotate: false,
            take: 28
        }
    );
    assert_eq!(
        sink.append(100, 29).unwrap(),
        AppendPlan {
            rotate: true,
            take: 29
        }
    );
    assert_eq!(plan_append(0, 500, 128).take, 128);
}

#[test]
fn failed_rotation_disables_file_sink_without_truncating_active_log() {
    let mut sink = LogFileSink::new(128);
    sink.failed();
    assert!(sink.append(0, 1).is_none());
}

#[test]
fn bounded_reader_accepts_the_exact_limit_and_rejects_one_byte_more() {
    assert_eq!(read_allowance(64, 64), Ok(65));
    assert_eq!(read_bounded_bytes(vec![b'x'; 64], 64).unwrap().len(), 64);

    let error = read_bounded_bytes(vec![b'x'; 65], 64).unwrap_err();
    assert_eq!(error, "file exceeds the 64-byte safety limit");
    assert_eq!(read_allowance(65, 64).unwrap_err(), error);
}

#[test]
fn bounded_texts_are_utf8() {
    assert_eq!(
        read_bounded_string("héllo".as_bytes().to_vec(), 64).unwrap(),
        "héllo"
    );
    let error = read_bounded_string(vec![0xff], 64).unwrap_err();
    assert!(error.starts_with("file is not valid UTF-8: "), "{error}");
    assert!(read_bounded_string(vec![b'x'; 65], 64)
        .unwrap_err()
        .contains("safety limit"));
}

#[test]
fn recovery_growth_is_detected_with_one_extra_byte_and_kept_complete() {
    let original = "bad";
    let grown = b"badX";
    assert_eq!(probe_limit(original.len()), Some(4));
    assert_eq!(judge_moved(original.as_bytes(), grown), MovedFile::Longer);
    let error = grown_message("vocalcode.toml", "vocalcode.toml.invalid", 4, &Restored::Done);
    assert!(
        error.contains("verification stopped after 4 bytes"),
        "{error}"
    );
}

#[test]
fn config_recovery_restores_moved_bytes_that_changed_after_initial_read() {
    assert_eq!(judge_moved(b"old", b"new"), MovedFile::Different);
    assert_eq!(judge_moved(b"old", b"old"), MovedFile::Same);
    assert_eq!(judge_moved(b"old", b"ol"), MovedFile::Different);
    let restored = changed_message("a.toml", "a.toml.invalid", &Restored::Done);
    let occupied = changed_message(
        "a.toml",
        "a.toml.invalid",
        &Restored::Occupied("exists".to_string()),
    );
    assert_ne!(restored, occupied);
    assert!(restored.contains("a.toml") && occupied.contains("a.toml.invalid"));
    let unpublished = unpublished_message(
        "a.toml",
        "a.toml.invalid",
        "disk full",
        &Restored::Failed("denied".to_string()),
    );
    assert!(unpublished.contains("disk full") && unpublished.contains("denied"));
}

#[test]
fn invalid_config_gets_a_unique_exact_recovery_without_replacing_old_backup() {
    let first = recovery_name("vocalcode.toml", 12, 34, 0);
    let second = recovery_name("vocalcode.toml", 12, 34, 1);
    assert!(first.starts_with("vocalcode.toml.invalid-"));
    assert_ne!(first, second);
}

#[test]
fn authenticated_identity_isolates_instance_names() {
    let first = instance_token("scope", b"identity-one");
    assert_eq!(first, instance_token("scope", b"identity-one"));
    assert_ne!(first, instance_token("scope", b"identity-two"));
    assert_ne!(first, instance_token("other-scope", b"identity-one"));
    assert_eq!(first.len(), 32);
    let windows = names("scope", b"identity-one");
    assert!(windows.mutex.contains(&first) && windows.pipe.contains(&first));
    let (lock, socket) = endpoint_names("scope", b"identity-one");
    assert_eq!(lock, format!(".instance-{first}.lock"));
    assert_eq!(socket, format!(".i-{}.s", &first[..16]));
}

#[test]
fn windows_instance_acl_contains_only_system_and_current_user() {
    assert_eq!(
        private_sddl("S-1-5-21-123"),
        "D:P(A;;GA;;;SY)(A;;GA;;;S-1-5-21-123)"
    );
    assert_eq!(
        installer_mutex(Edition::Community),
        r"Local\VocalCode.Community.Desktop"
    );
    assert_eq!(
        installer_mutex(Edition::Commercial),
        r"Local\VocalCode.Desktop"
    );
}

#[test]
fn sids_are_written_in_their_text_form() {
    let local_system = [1, 1, 0, 0, 0, 0, 0, 5, 18, 0, 0, 0];
    assert_eq!(sid_string(&local_system).unwrap(), "S-1-5-18");
    assert_eq!(
        sid_string(&local_system[..11]).unwrap_err(),
        "SID has an invalid length"
    );
    assert_eq!(sid_string(&local_system[..7]).unwrap_err(), "SID is truncated");
}

#[test]
fn single_instance_path_has_no_udp_or_environment_identity_authority() {
    // The lock alone decides who is first; no answer of a peer does.
    assert_eq!(instance_role(false), InstanceRole::Primary);
    assert_eq!(instance_role(true), InstanceRole::Existing);
    // Its name is made of the scope and the identity that the caller was given by
    // the operating system, and of nothing else.
    let token = instance_token("scope", b"one");
    assert_eq!(token.len(), 32);
    assert_ne!(token, instance_token("scope", b"two"));
    assert_ne!(token, instance_token("other scope", b"one"));
    assert!(names("scope", b"one").mutex.ends_with(&token));
}

#[test]
fn duplicate_single_instance_show_requests_share_one_pending_slot() {
    let mut slot = ShowSlot::new();
    assert!(slot.enqueue_show());
    assert!(slot.enqueue_show(), "a duplicate is already represented");
    assert!(slot.take());
    assert!(!slot.take());
    slot.close();
    assert!(!slot.enqueue_show());
}

#[test]
fn only_the_exact_request_shows_the_window() {
    let mut slot = ShowSlot::new();
    assert!(asks_to_show(b"VOCALCODE_SHOW_V1"));
    assert!(confirms_delivery(b"VOCALCODE_DELIVERED_V1"));
    assert!(request_complete(17));
    assert_eq!(
        after_answer(b"VOCALCODE_DELIVERED_V1"),
        DeliveryStep::Delivered
    );
    assert_eq!(
        after_client_message(b"VOCALCODE_SHOW_V1", &mut slot),
        ClientStep::Confirm
    );
    assert!(slot.take());
    assert!(!asks_to_show(b"hello"));
    assert!(!confirms_delivery(b"hello"));
    assert_eq!(after_client_message(b"hello", &mut slot), ClientStep::Disconnect);
    assert!(!slot.take());
    assert_eq!(after_client_silence(true, 0, 0, 500), ClientStep::Stop);
    assert!(!request_complete(0));
    assert_eq!(after_answer(b"hello"), DeliveryStep::Invalid);
}

#[test]
fn a_missing_or_busy_endpoint_is_tried_again_but_not_forever() {
    assert_eq!(after_open_failure(Some(231), 0), OpenStep::TryAgain);
    assert_eq!(after_open_failure(Some(2), 0), OpenStep::TryAgain);
    assert_eq!(after_open_failure(Some(5), 0), OpenStep::GiveUp);
    assert_eq!(
        after_socket_failure(SocketFailure::Other, 0),
        OpenStep::GiveUp
    );
    assert_eq!(
        after_socket_failure(SocketFailure::Refused, 0),
        OpenStep::TryAgain
    );
    assert_eq!(after_mode(true, None, 0, 750), ModeStep::Read);
    assert_eq!(may_read_answer(750, 750), DeliveryStep::TimedOut);
    assert_eq!(after_answer_failure(232), DeliveryStep::TryAgain);
    assert_eq!(after_connect(true, false, 0), ConnectStep::Stop);
    assert_eq!(after_connect(false, false, 535), ConnectStep::Connected);
    assert_eq!(after_connect(false, false, 536), ConnectStep::Wait);
}

#[test]
fn crashed_unix_primary_stale_socket_is_recovered_only_by_lock_owner() {
    assert_eq!(stale_endpoint(Endpoint::Socket), EndpointStep::RemoveAndBind);
    assert_eq!(stale_endpoint(Endpoint::Nothing), EndpointStep::Bind);
    assert_eq!(stale_endpoint(Endpoint::Other), EndpointStep::Refuse);
    assert!(trusted_directory(false, true, 501, 501));
    assert!(!trusted_directory(true, true, 501, 501));
    assert!(!trusted_directory(false, true, 0, 501));
}
