//! Updates, licences, retries and the engine's decisions.

use vocalcode::clocks::{
    audio_retry_due, input_wait, meeting_asr_may_run, model_retry_due, pause_slice, poll_due,
    HotkeySupervisor, MaintenanceClock, ModelRetryBackoff, SupervisorStep,
    MEETING_ASR_INPUT_GRACE_MS, PAUSE_SLICE_MS, RUNTIME_MAINTENANCE_INTERVAL_MS, WAIT_SLICE_MS,
};
use vocalcode::config_apply::ConfigApplyCoordinator;
use vocalcode::engine::{
    accept_model_config_after_prepare_failure, action_failure_message, begin_teach,
    correction_effects, cue_after_failure, cue_before, drain_busy_events, engine_ready,
    invalidate_audio_on_error, may_take_segment, mute_others, publish_engine_outcome,
    recoverable_text, segment_step, startup_model, startup_step, watchdog_notice, CorrectionKind,
    Cue, EngineError, Outcome, Phase, Prepared, SegmentStep, StartupModel, StartupStep,
    TriggerEvent, TriggerId,
};
use vocalcode::history::{
    count_words, load_totals, DictationTrace, History, HistoryEntry, Totals, TotalsFile, TotalsLoad,
};
use vocalcode::licensing::{
    injection_allowed, license_state, license_status, license_string, pro_allowed, product_tier,
    required_generation, run_license_refresh_sequence, AfterRenewals, Edition,
    LicenseMaintenance, LicenseRefreshBackoff, LicenseStatus, ProductTier, Renewal,
    TrialReceiptStatus, LOCAL_LICENSE_GATE_INTERVAL_MS, NETWORK_LICENSE_REFRESH_INTERVAL_MS,
};
use vocalcode::model_setup::{result_route, shows_progress, ModelSetup, ResultRoute};
use vocalcode::transaction::{
    accepted_without_model_message, engine_busy, rejection_message, reload_begins,
    reload_prepared, reload_started, rolls_back, EngineFlags, ModelFollowUp, ReloadAction,
    wish_after_settings, RollbackTrouble, StageAction, Staging,
};
use vocalcode::update::{
    approved_update_url, check_manifest, is_newer, release_version, update_entitled,
    update_offer_from_manifest, valid_update_sha256, valid_update_size, UpdateOffer, UpdateOutcome,
    UpdateState, Version, MAX_UPDATE_BYTES, UPDATE_CHECK_INTERVAL_MS,
};

const MODEL_RETRY_DELAYS: [u64; 5] = [30_000, 60_000, 120_000, 300_000, 600_000];

#[test]
fn meeting_decode_never_takes_priority_over_dictation() {
    assert!(!meeting_asr_may_run(true, false, MEETING_ASR_INPUT_GRACE_MS));
    assert!(!meeting_asr_may_run(false, true, MEETING_ASR_INPUT_GRACE_MS));
    assert!(!meeting_asr_may_run(
        false,
        false,
        MEETING_ASR_INPUT_GRACE_MS - 1
    ));
    assert!(meeting_asr_may_run(false, false, MEETING_ASR_INPUT_GRACE_MS));
}

#[test]
fn periodic_update_checks_are_regular_but_not_noisy() {
    assert!(UPDATE_CHECK_INTERVAL_MS >= 60 * 60 * 1_000);
    assert!(UPDATE_CHECK_INTERVAL_MS <= 24 * 60 * 60 * 1_000);
}

#[test]
fn background_runtime_owns_and_joins_input_supervisor() {
    let mut supervisor = HotkeySupervisor::new();
    // Told to shut down, it ends; otherwise it tries again, more and more seldom.
    assert_eq!(supervisor.after_stop(true, true, 0), SupervisorStep::Exit);
    let SupervisorStep::RetryAfter(first) = supervisor.after_stop(false, true, 0) else {
        panic!("the supervisor gave up");
    };
    assert_eq!(first, 250);
    assert!(supervisor.after_pause(false));
    let SupervisorStep::RetryAfter(second) = supervisor.after_stop(false, true, 0) else {
        panic!("the supervisor gave up");
    };
    assert_eq!(second, 500);
    assert!(!supervisor.after_pause(true));
    // The pause between two attempts is slept in slices.
    assert_eq!(pause_slice(0, 250, WAIT_SLICE_MS), Some(100));
    assert_eq!(pause_slice(200, 250, WAIT_SLICE_MS), Some(50));
    assert_eq!(pause_slice(250, 250, WAIT_SLICE_MS), None);
}

#[test]
fn shutdown_aware_pause_observes_shutdown_without_waiting_for_the_phase() {
    // Between two looks at the shutdown flag at most one slice is slept.
    assert_eq!(pause_slice(0, 4_000, PAUSE_SLICE_MS), Some(50));
}

#[test]
fn maintenance_deadline_fires_even_when_events_keep_arriving() {
    let start = 1_000;
    let mut clock = MaintenanceClock::new(start);
    assert!(!clock.take_due(start + RUNTIME_MAINTENANCE_INTERVAL_MS / 2));
    assert!(clock.take_due(start + RUNTIME_MAINTENANCE_INTERVAL_MS));
    assert!(!clock.take_due(start + RUNTIME_MAINTENANCE_INTERVAL_MS));
}

#[test]
fn the_engine_wakes_for_whatever_is_due_first() {
    assert!(poll_due(true, 80) && !poll_due(true, 79) && !poll_due(false, 80));
    assert!(audio_retry_due(false, false, 3_000) && !audio_retry_due(true, false, 3_000));
    assert!(model_retry_due(Some(10), 10) && !model_retry_due(Some(10), 9));
    assert!(!model_retry_due(None, 10));
    assert_eq!(input_wait(450, false, 0, false, None), 450);
    assert_eq!(input_wait(450, true, 20, false, None), 60);
}

#[test]
fn model_failure_policy_distinguishes_hot_switch_from_first_run() {
    assert!(!accept_model_config_after_prepare_failure(true));
    assert!(accept_model_config_after_prepare_failure(false));
}

#[test]
fn newer_versions_are_offered() {
    assert!(is_newer("0.4.1", "0.4.0"));
    assert!(is_newer("0.5.0", "0.4.9"));
    assert!(is_newer("1.0.0", "0.9.9"));
}

#[test]
fn same_or_older_is_not_offered() {
    assert!(!is_newer("0.4.0", "0.4.0"));
    assert!(!is_newer("0.3.9", "0.4.0"));
    assert!(!is_newer("0.9.9", "1.0.0"));
}

#[test]
fn double_digit_components_compare_numerically() {
    assert!(is_newer("0.10.0", "0.9.0"));
    assert!(!is_newer("0.9.0", "0.10.0"));
    assert!(is_newer("0.4.10", "0.4.9"));
}

#[test]
fn odd_shapes_do_not_panic_or_mislead() {
    assert!(!is_newer("0.4", "0.4.0"));
    assert!(!is_newer("0.4.1", "0.4"));
    assert!(!is_newer("", "0.4.0"));
    assert!(!is_newer("0.5.0-beta", "0.4.0"));
    assert!(!is_newer("0.garbage.999", "0.4.0"));
    assert!(!is_newer("0..999", "0.4.0"));
    assert!(!is_newer("+1.0.0", "0.4.0"));
    assert!(!is_newer("1.-1.0", "0.4.0"));
    assert!(!is_newer("1.0.0.1", "0.4.0"));
    assert!(!is_newer(&format!("{}.0.0", "9".repeat(65)), "0.4.0"));
    assert_eq!(
        release_version("1.20.3"),
        Some(Version {
            major: 1,
            minor: 20,
            patch: 3
        })
    );
}

#[test]
fn update_artifacts_are_pinned_to_the_official_origin_and_shape() {
    assert!(approved_update_url(
        Edition::Community,
        "windows",
        "1.2.3",
        "https://github.com/wudaming00/vocalcode-community/releases/download/v1.2.3/VocalCodeCommunitySetup.exe"
    ));
    assert!(approved_update_url(
        Edition::Commercial,
        "windows",
        "1.2.3",
        "https://vocalcode.app/VocalCodeSetup.exe"
    ));
    assert!(approved_update_url(
        Edition::Community,
        "macos",
        "1.2.3",
        "https://github.com/wudaming00/vocalcode-community/releases/download/v1.2.3/VocalCodeCommunity-1.2.3.dmg"
    ));
    assert!(approved_update_url(
        Edition::Commercial,
        "macos",
        "1.2.3",
        "https://vocalcode.app/VocalCode-1.2.3.dmg"
    ));
    for edition in [Edition::Community, Edition::Commercial] {
        for url in [
            "https://evil.example/VocalCodeSetup.exe",
            "https://vocalcode.app/VocalCodeSetup.exe?other=1",
            "http://vocalcode.app/VocalCodeSetup.exe",
            "https://vocalcode.app/VocalCodeSetup.exe\" --silent",
            "https://vocalcode.app/VocalCodeSetup.exe' && open /tmp",
            "https://vocalcode.app/%56ocalCodeSetup.exe",
            "https://vocalcode.app//VocalCodeSetup.exe",
        ] {
            assert!(!approved_update_url(edition, "windows", "1.2.3", url), "{url}");
        }
        assert!(!approved_update_url(
            edition,
            "macos",
            "1.2.3",
            "https://vocalcode.app/VocalCode-1.2.4.dmg"
        ));
        assert!(!approved_update_url(
            edition,
            "macos",
            "1.2.3",
            "https://vocalcode.app/VocalCode-1.2.3.dmg' --args"
        ));
    }
}

#[test]
fn paid_major_upgrades_are_not_offered_outside_entitlement() {
    let edition = Edition::Commercial;
    let v1 = LicenseStatus::Licensed { max_version: 1 };
    assert!(update_entitled(edition, &v1, "1.9.9"));
    assert!(!update_entitled(edition, &v1, "2.0.0"));
    let v2 = LicenseStatus::Licensed { max_version: 2 };
    assert!(update_entitled(edition, &v2, "2.0.0"));
    assert!(update_entitled(
        edition,
        &LicenseStatus::Trial { days_left: 1 },
        "2.0.0"
    ));
    assert!(!update_entitled(edition, &LicenseStatus::Expired, "1.0.1"));
    assert!(!update_entitled(
        edition,
        &LicenseStatus::Invalid("bad receipt".to_string()),
        "1.0.1"
    ));
}

#[test]
fn basic_dictation_survives_trial_expiry_and_invalid_pro_receipts() {
    let edition = Edition::Commercial;
    assert!(LOCAL_LICENSE_GATE_INTERVAL_MS <= 60 * 1_000);
    assert!(NETWORK_LICENSE_REFRESH_INTERVAL_MS >= 60 * 60 * 1_000);
    assert!(injection_allowed(&LicenseStatus::TrialSetupRequired));
    assert!(injection_allowed(&LicenseStatus::Expired));
    assert!(injection_allowed(&LicenseStatus::Invalid(
        "expired".to_string()
    )));
    assert_eq!(
        product_tier(edition, &LicenseStatus::Expired),
        ProductTier::Basic
    );
    assert!(!pro_allowed(edition, &LicenseStatus::Expired));
    assert!(!pro_allowed(edition, &LicenseStatus::Invalid("bad".to_string())));
}

#[test]
fn paid_and_trial_receipts_unlock_pro_without_changing_basic_dictation() {
    let edition = Edition::Commercial;
    for status in [
        LicenseStatus::Licensed { max_version: 1 },
        LicenseStatus::Trial { days_left: 1 },
    ] {
        assert!(injection_allowed(&status));
        assert_eq!(product_tier(edition, &status), ProductTier::Pro);
        assert!(pro_allowed(edition, &status));
    }
    assert_eq!(license_state(edition, &LicenseStatus::Expired).0, "basic");
    assert_eq!(
        license_string(edition, &LicenseStatus::Expired, ""),
        "Basic — free forever"
    );
}

#[test]
fn community_access_never_depends_on_receipts_or_paid_updates() {
    let edition = Edition::Community;
    let label = "Community edition";
    assert_eq!(
        license_status(
            edition,
            "1.3.1",
            Some(7),
            TrialReceiptStatus::Active { days_left: 3 }
        ),
        LicenseStatus::TrialSetupRequired
    );
    for status in [
        LicenseStatus::TrialSetupRequired,
        LicenseStatus::Expired,
        LicenseStatus::Invalid("bad receipt".into()),
        LicenseStatus::Trial { days_left: 0 },
        LicenseStatus::Licensed { max_version: 1 },
    ] {
        assert!(injection_allowed(&status));
        assert!(pro_allowed(edition, &status));
        assert_eq!(product_tier(edition, &status), ProductTier::Community);
        assert_eq!(
            license_state(edition, &status),
            ("community".to_string(), 0)
        );
        assert_eq!(license_string(edition, &status, label), label);
        assert!(update_entitled(edition, &status, "1.3.1"));
        assert!(update_entitled(edition, &status, "2.0.0"));
        assert!(!approved_update_url(
            edition,
            "windows",
            "1.3.1",
            "https://vocalcode.app/VocalCodeSetup.exe"
        ));
    }
}

#[test]
fn licences_cover_the_generations_up_to_theirs() {
    let edition = Edition::Commercial;
    assert_eq!(required_generation("2.4.0"), 2);
    assert_eq!(
        license_status(edition, "2.4.0", Some(2), TrialReceiptStatus::SetupRequired),
        LicenseStatus::Licensed { max_version: 2 }
    );
    assert_eq!(
        license_status(edition, "2.4.0", None, TrialReceiptStatus::Expired),
        LicenseStatus::Expired
    );
    assert_eq!(
        license_status(
            edition,
            "2.4.0",
            None,
            TrialReceiptStatus::Active { days_left: 5 }
        ),
        LicenseStatus::Trial { days_left: 5 }
    );
}

#[test]
fn licence_refresh_sequence_stops_between_blocking_network_requests() {
    let calls = std::cell::RefCell::new(Vec::new());
    let checks = std::cell::Cell::new(0);
    let result = run_license_refresh_sequence(
        || calls.borrow_mut().push("legacy"),
        || calls.borrow_mut().push("cached"),
        || calls.borrow_mut().push("trial"),
        |made| {
            let next = checks.get() + 1;
            checks.set(next);
            assert_eq!(made, next);
            next == 2
        },
    );

    assert!(result.is_none());
    assert_eq!(*calls.borrow(), ["legacy", "cached"]);
    assert_eq!(checks.get(), 2);
}

#[test]
fn licence_renewals_go_on_until_a_stop() {
    let run = |stop_after: u8| {
        let calls = std::cell::RefCell::new(Vec::new());
        let result = run_license_refresh_sequence(
            || calls.borrow_mut().push("legacy"),
            || calls.borrow_mut().push("cached"),
            || calls.borrow_mut().push("trial"),
            |made| made == stop_after,
        );
        (result.is_some(), calls.into_inner())
    };
    assert_eq!(run(1), (false, vec!["legacy"]));
    assert_eq!(run(3), (false, vec!["legacy", "cached", "trial"]));
    assert_eq!(run(0), (true, vec!["legacy", "cached", "trial"]));
}

#[test]
fn licence_refresh_errors_back_off_and_a_healthy_attempt_resets_the_clock() {
    let delays = [60_000, 300_000, 1_800_000, 3_600_000];
    let mut backoff = LicenseRefreshBackoff::default();
    let mut now = 5_000;
    for expected in delays {
        let next = backoff.next_deadline(now, false);
        assert_eq!(next - now, expected);
        now = next;
    }
    let capped = backoff.next_deadline(now, false);
    assert_eq!(capped - now, 60 * 60 * 1_000);

    let healthy = backoff.next_deadline(capped, true);
    assert_eq!(healthy - capped, NETWORK_LICENSE_REFRESH_INTERVAL_MS);
    let first_retry_again = backoff.next_deadline(healthy, false);
    assert_eq!(first_retry_again - healthy, delays[0]);
}

#[test]
fn licence_maintenance_asks_the_network_seldom_and_the_gate_often() {
    let mut maintenance = LicenseMaintenance::new(1_000);
    assert!(maintenance.network_due(1_000));
    let after = maintenance.after_renewals(Renewal::Done, Renewal::Done, Renewal::Done, 2_000);
    assert_eq!(
        after,
        AfterRenewals::Continue {
            trial_setup_error: false,
            next_network_ms: 2_000 + NETWORK_LICENSE_REFRESH_INTERVAL_MS
        }
    );
    assert!(!maintenance.network_due(3_000));
    assert_eq!(
        maintenance.gate_deadline(3_000),
        3_000 + LOCAL_LICENSE_GATE_INTERVAL_MS
    );
    assert_eq!(
        maintenance.after_renewals(Renewal::Cancelled, Renewal::Done, Renewal::Done, 2_000),
        AfterRenewals::Stop
    );
}

#[test]
fn unavailable_model_retries_back_off_cap_and_reset_after_recovery() {
    let mut backoff = ModelRetryBackoff::default();
    let mut now = 7_000;
    for expected in MODEL_RETRY_DELAYS {
        let next = backoff.next_deadline(now);
        assert_eq!(next - now, expected);
        now = next;
    }
    let capped = backoff.next_deadline(now);
    assert_eq!(capped - now, 10 * 60 * 1_000);

    backoff.reset();
    let first_retry_again = backoff.next_deadline(capped);
    assert_eq!(first_retry_again - capped, MODEL_RETRY_DELAYS[0]);
}

#[test]
fn a_failed_model_attempt_that_moved_the_download_forward_retries_soon() {
    let mut now = 9_000;
    let mut backoff = ModelRetryBackoff::default();
    let mut delay_after = |downloaded: u64, now: &mut u64| {
        let next = backoff.next_deadline_after(*now, Some(downloaded));
        let delay = next - *now;
        *now = next;
        delay
    };
    assert_eq!(delay_after(100, &mut now), MODEL_RETRY_DELAYS[0]);
    assert_eq!(
        delay_after(100, &mut now),
        MODEL_RETRY_DELAYS[1],
        "no new bytes on disk: back off further"
    );
    assert_eq!(delay_after(100, &mut now), MODEL_RETRY_DELAYS[2]);
    assert_eq!(
        delay_after(250, &mut now),
        MODEL_RETRY_DELAYS[0],
        "a resumed attempt that fetched more is not an outage"
    );
    assert_eq!(delay_after(250, &mut now), MODEL_RETRY_DELAYS[1]);
}

#[test]
fn a_new_model_attempt_takes_the_failure_banner_down() {
    let mut setup = ModelSetup::new();
    let mut backoff = ModelRetryBackoff::default();
    let before = 1_800_000_000_000;
    let retry_at = setup.schedule_model_retry(
        &mut backoff,
        5_000,
        Some(before),
        Some((2_000_000, 650_000_000)),
        Some("sensevoice".to_string()),
        "download encoder.onnx: offline",
    );
    assert_eq!(retry_at, 5_000 + MODEL_RETRY_DELAYS[0]);
    let failure = setup.failure.as_ref().unwrap();
    assert_eq!(failure.message, "download encoder.onnx: offline");
    assert_eq!(
        failure.downloaded.map(|(done, _)| done),
        Some(2_000_000),
        "the kept partial counts toward what is already downloaded"
    );
    assert_eq!(failure.retry_at_ms.unwrap() - before, MODEL_RETRY_DELAYS[0]);
    assert_eq!(
        failure.smaller_model.as_deref(),
        Some("sensevoice"),
        "English on Parakeet can switch to the smaller SenseVoice"
    );

    let mut apply: ConfigApplyCoordinator<()> = ConfigApplyCoordinator::new();
    let generation = apply.generation();
    assert!(setup
        .begin_model_prepare(&mut apply, generation, "parakeet", "en", true)
        .is_none());
    assert!(setup.failure.is_some(), "a closing program begins nothing");
    assert!(setup
        .begin_model_prepare(&mut apply, generation, "parakeet", "en", false)
        .is_some());
    assert_eq!(setup.failure, None);
    assert!(shows_progress(&apply, generation, false));
    assert!(!shows_progress(&apply, generation, true));
    apply.finish_prepare(generation);
    assert!(apply.active_route().is_none());
}

#[test]
fn answers_without_a_request_go_to_the_page() {
    assert_eq!(result_route(0), ResultRoute::Page);
    assert_eq!(result_route(3), ResultRoute::Request(3));
}

fn offer() -> UpdateOffer {
    UpdateOffer {
        version: "1.2.3".to_string(),
        url: "https://vocalcode.app/VocalCodeSetup.exe".to_string(),
        notes: "notes".to_string(),
        sha256: "a".repeat(64),
        size: 7_476_736,
    }
}

#[test]
fn stale_update_checks_cannot_clear_or_overwrite_a_newer_offer() {
    let mut status = UpdateState::new();
    let first = status.begin_update_check();
    let second = status.begin_update_check();
    status.finish_update_check(false, second, "newer", Some(offer()));
    status.finish_update_check(false, first, "failed", None);
    assert_eq!(status.offer(), Some(&offer()));
    assert_eq!(status.last_check(), Some("newer"));
}

#[test]
fn completed_update_request_cannot_publish_after_shutdown() {
    let mut status = UpdateState::new();
    let generation = status.begin_update_check();
    status.finish_update_check(false, generation, "previous", None);

    status.finish_update_check(true, generation, "failed", None);

    assert_eq!(status.last_check(), Some("previous"));
}

#[test]
fn update_artifact_size_is_strictly_positive_and_bounded() {
    assert!(!valid_update_size(0));
    assert!(valid_update_size(1));
    assert!(valid_update_size(MAX_UPDATE_BYTES));
    assert!(!valid_update_size(MAX_UPDATE_BYTES + 1));
}

fn manifest_with_size(size: &str) -> String {
    format!(
        "{{\"version\":\"9.8.7\",\"notes\":\"top-level notes\",\"windows\":{{\"version\":\"9.8.7\",\"url\":\"https://vocalcode.app/VocalCodeSetup.exe\",\"sha256\":\"{}\",\"size\":{size}}}}}",
        "a".repeat(64)
    )
}

#[test]
fn update_manifest_requires_an_exact_integer_platform_size() {
    let offer = update_offer_from_manifest(&manifest_with_size("7476736"), "windows")
        .expect("release pipeline shape must parse");
    assert_eq!(offer.size, 7_476_736);
    assert_eq!(offer.notes, "top-level notes");

    for value in [
        "null".to_string(),
        "0".to_string(),
        "-1".to_string(),
        "true".to_string(),
        "\"7476736\"".to_string(),
        format!("{}", MAX_UPDATE_BYTES + 1),
    ] {
        assert!(
            update_offer_from_manifest(&manifest_with_size(&value), "windows").is_none(),
            "invalid artifact size was accepted"
        );
    }
    let missing = manifest_with_size("1").replace(",\"size\":1", "");
    assert!(update_offer_from_manifest(&missing, "windows").is_none());
    let malformed_platform = "{\"version\":\"9.8.7\",\"url\":\"https://vocalcode.app/VocalCodeSetup.exe\",\"size\":1,\"windows\":\"not an object\"}";
    assert!(update_offer_from_manifest(malformed_platform, "windows").is_none());
    assert!(update_offer_from_manifest("no document", "windows").is_none());
}

#[test]
fn platform_update_identity_never_falls_back_to_legacy_root_fields() {
    let members = [
        ("version", "\"9.8.7\"".to_string()),
        (
            "url",
            "\"https://vocalcode.app/VocalCodeSetup.exe\"".to_string(),
        ),
        ("sha256", format!("\"{}\"", "a".repeat(64))),
        ("size", "7476736".to_string()),
    ];
    let manifest = |left_out: &str| {
        let inner: Vec<String> = members
            .iter()
            .filter(|(name, _)| *name != left_out)
            .map(|(name, value)| format!("\"{name}\":{value}"))
            .collect();
        format!(
            "{{\"version\":\"1.2.3\",\"url\":\"https://legacy.invalid/root.exe\",\"sha256\":\"{}\",\"size\":99,\"notes\":\"shared notes\",\"windows\":{{{}}}}}",
            "b".repeat(64),
            inner.join(",")
        )
    };
    for required in ["version", "url", "sha256", "size"] {
        assert!(
            update_offer_from_manifest(&manifest(required), "windows").is_none(),
            "platform offer borrowed root {required}"
        );
    }

    let offer = update_offer_from_manifest(&manifest(""), "windows").unwrap();
    assert_eq!(offer.notes, "shared notes");
    assert_eq!(offer.version, "9.8.7");
}

#[test]
fn update_manifest_requires_canonical_lowercase_sha256() {
    let manifest = |sha256: String| {
        format!(
            "{{\"version\":\"9.8.7\",\"url\":\"https://vocalcode.app/VocalCodeSetup.exe\",\"sha256\":\"{sha256}\",\"size\":1}}"
        )
    };
    assert!(update_offer_from_manifest(&manifest("a".repeat(64)), "windows").is_some());
    for invalid in [
        "".to_string(),
        "a".repeat(63),
        "a".repeat(65),
        "A".repeat(64),
        format!("{}g", "a".repeat(63)),
    ] {
        assert!(!valid_update_sha256(&invalid));
        assert!(update_offer_from_manifest(&manifest(invalid), "windows").is_none());
    }
}

#[test]
fn a_manifest_is_offered_newer_current_or_as_an_upgrade() {
    let manifest = manifest_with_size("7476736");
    let check = |current: &str, status: &LicenseStatus, text: &str| {
        check_manifest(Edition::Commercial, "windows", current, text, status)
    };
    let trial = LicenseStatus::Trial { days_left: 1 };
    assert_eq!(check("1.0.0", &trial, &manifest).0, UpdateOutcome::Newer);
    assert_eq!(check("9.8.7", &trial, &manifest).0, UpdateOutcome::Current);
    let paid = LicenseStatus::Licensed { max_version: 1 };
    assert_eq!(check("1.0.0", &paid, &manifest).0, UpdateOutcome::Upgrade);
    assert_eq!(check("1.0.0", &trial, "{}").0, UpdateOutcome::Failed);
}

#[test]
fn newer_config_generation_cancels_and_cannot_be_overwritten_by_deferred_work() {
    let mut apply: ConfigApplyCoordinator<&str> = ConfigApplyCoordinator::new();
    let (generation_a, _) = apply.publish(8, "es", false);
    let deferred_a = apply.take_pending().unwrap();
    let (cancellation_a, _) = apply.begin_prepare(generation_a, "model", "es").unwrap();

    // A different model route must cancel the running prepare.
    let (generation_b, cancelled) = apply.publish(9, "zh", false);
    assert!(generation_b > generation_a);
    assert_eq!(cancelled, Some(cancellation_a));
    assert!(!apply.is_current(generation_a));
    assert!(!apply.requeue_if_no_newer(deferred_a));

    let current = apply.take_pending().unwrap();
    assert_eq!(current.generation, generation_b);
    assert_eq!(current.request_id, 9);
    assert!(apply.requeue_if_no_newer(current));
    assert_eq!(
        apply.take_pending().map(|pending| pending.generation),
        Some(generation_b)
    );
}

#[test]
fn same_route_save_does_not_cancel_a_running_prepare() {
    let mut apply: ConfigApplyCoordinator<&str> = ConfigApplyCoordinator::new();
    let (generation_a, _) = apply.publish(8, "es", false);
    let (cancellation_a, _) = apply.begin_prepare(generation_a, "model", "es").unwrap();
    assert_eq!(apply.active_route(), Some(("model", "es")));

    let (generation_b, cancelled) = apply.publish(9, "es", true);
    assert!(generation_b > generation_a);
    assert_eq!(cancelled, None);
    assert!(!apply.is_current(generation_a));

    // The next route change still cancels it.
    let (_, cancelled) = apply.publish(10, "zh", false);
    assert_eq!(cancelled, Some(cancellation_a));
}

#[test]
fn busy_decode_drops_late_actions_but_keeps_cleanup_and_quit() {
    let talk = TriggerId::synthetic(41);
    let other = TriggerId::synthetic(42);
    let events = [
        TriggerEvent::TalkPressed(talk),
        TriggerEvent::TalkReleased(talk),
        TriggerEvent::SendTapped(other),
        TriggerEvent::TeachTapped(other),
        TriggerEvent::DeviceDisconnected(other.device),
        TriggerEvent::ForceStop,
        TriggerEvent::Cancel,
        TriggerEvent::Quit,
    ];
    let (cleanup, quit) = drain_busy_events(&events);
    assert!(quit);
    assert_eq!(
        cleanup,
        vec![
            TriggerEvent::TalkReleased(talk),
            TriggerEvent::DeviceDisconnected(other.device),
            TriggerEvent::ForceStop,
            TriggerEvent::Cancel,
        ]
    );
}

#[test]
fn busy_decode_without_quit_resumes_normally() {
    let (cleanup, quit) = drain_busy_events(&[TriggerEvent::TalkPressed(TriggerId::synthetic(7))]);
    assert!(!quit);
    assert!(cleanup.is_empty());
}

#[test]
fn audio_errors_close_readiness_but_other_errors_do_not() {
    let mut ready = true;
    assert!(invalidate_audio_on_error(
        &EngineError::Audio("device gone".to_string()),
        &mut ready,
    ));
    assert!(!ready);

    ready = true;
    assert!(!invalidate_audio_on_error(
        &EngineError::Inject("focus changed".to_string()),
        &mut ready,
    ));
    assert!(ready);
}

#[test]
fn meeting_does_not_disable_the_dictation_hotkey_ready_gate() {
    assert!(engine_ready(true, true, true, false));
    assert!(!engine_ready(false, true, true, false));
    assert!(!engine_ready(true, false, true, false));
    assert!(!engine_ready(true, true, true, true));
}

#[test]
fn a_first_start_waits_for_the_language() {
    assert_eq!(startup_step(false, false, true), StartupStep::AwaitLanguage);
    assert_eq!(startup_step(true, false, true), StartupStep::Exit);
    assert_eq!(startup_step(false, true, false), StartupStep::Prepare);
}

#[test]
fn transcribed_text_reaches_history_once() {
    let effects = publish_engine_outcome(&Outcome::Transcribed("hello".to_string()), false, true);
    assert_eq!(effects.history.as_deref(), Some("hello"));
    assert_eq!(effects.last_text.as_deref(), Some("hello"));
    assert!(!effects.quit);
    assert!(publish_engine_outcome(&Outcome::Quit, false, true).quit);
    assert_eq!(recoverable_text(Some(String::new())), None);
    assert_eq!(
        recoverable_text(Some("kept".to_string())),
        Some("kept".to_string())
    );
}

#[test]
fn filler_review_is_session_only_bounded_and_never_attaches_to_other_text() {
    let mut trace = DictationTrace {
        raw_text: "uh retry".into(),
        raw_text_truncated: false,
        final_text: "Retry".into(),
        filler_removed: 1,
        writing_edits: 0,
        result: "delivery_completed".into(),
    };
    let mut history = History::new();
    history.push(HistoryEntry::new(1, "unrelated".into()));
    history.publish_filler_review(&trace, 2);
    assert!(history.get(0).unwrap().recognition.is_none());

    let mut history = History::new();
    history.push(HistoryEntry::new(1, "Retry".into()));
    history.publish_filler_review(&trace, 2);
    assert_eq!(
        history.get(0).unwrap().recognition.as_deref(),
        Some("uh retry")
    );
    trace.final_text.clear();
    for _ in 0..55 {
        history.publish_filler_review(&trace, 3);
    }
    assert_eq!(history.len(), 50);
    assert!(history.get(0).unwrap().text.is_empty());
    trace.raw_text_truncated = true;
    assert!(HistoryEntry::new(1, "Retry".into())
        .with_trace(&trace)
        .recognition
        .is_none());
}

#[test]
fn totals_count_words_and_characters() {
    let mut totals = Totals {
        dictations: 0,
        words: 0,
        chars: 0,
    };
    totals.add("two  wörds");
    assert_eq!(
        totals,
        Totals {
            dictations: 1,
            words: 2,
            chars: 10
        }
    );
    assert_eq!(count_words(" \t"), 0);
    let mut full = Totals {
        dictations: u64::MAX,
        words: u64::MAX,
        chars: u64::MAX,
    };
    full.add("more");
    assert_eq!(full.dictations, u64::MAX);
    assert_eq!(load_totals(&TotalsFile::Invalid), TotalsLoad::Recover);
    assert_eq!(load_totals(&TotalsFile::Unreadable), TotalsLoad::SessionOnly);
    assert_eq!(
        load_totals(&TotalsFile::Valid(totals)),
        TotalsLoad::Use(totals)
    );
}

#[test]
fn keys_are_answered_with_sounds() {
    assert_eq!(cue_before(true, true, false), Some(Cue::Start));
    assert_eq!(cue_before(true, false, true), Some(Cue::Stop));
    assert_eq!(cue_before(false, true, true), None);
    assert_eq!(cue_after_failure(true, true), Some(Cue::Stop));
    assert_eq!(cue_after_failure(true, false), None);
    assert!(mute_others(true, true, false) && !mute_others(true, true, true));
    let mut teaching = false;
    assert!(begin_teach(&mut teaching));
    assert!(!begin_teach(&mut teaching));
}

#[test]
fn failed_actions_are_described() {
    assert_eq!(
        action_failure_message(&EngineError::Asr("x".to_string()), "no model"),
        "VocalCode could not complete that action: no model"
    );
    assert_eq!(
        action_failure_message(&EngineError::Diverted("Saved to History.".to_string()), "x"),
        "Saved to History."
    );
    assert!(watchdog_notice(true).unwrap().contains("safety limit"));
    assert_eq!(watchdog_notice(false), None);
}

#[test]
fn corrections_of_an_earlier_session_lead_to_nothing() {
    let stale = correction_effects(CorrectionKind::Learned, 1, 2, false);
    assert!(!stale.learn && stale.phase.is_none());
    let learned = correction_effects(CorrectionKind::Learned, 2, 2, false);
    assert!(learned.learn);
    assert_eq!(learned.phase, Some(Phase::Idle));
    let started = correction_effects(CorrectionKind::Started, 2, 2, false);
    assert_eq!(started.phase, Some(Phase::Learning));
}

#[test]
fn the_engine_starts_with_the_latest_model_or_without_one() {
    assert_eq!(
        startup_model(false, true, false, Prepared::Ready),
        StartupModel::Start
    );
    assert_eq!(
        startup_model(false, false, false, Prepared::Ready),
        StartupModel::Again
    );
    assert_eq!(
        startup_model(false, true, false, Prepared::Failed("offline".to_string())),
        StartupModel::StartWithout("offline".to_string())
    );
    assert_eq!(
        startup_model(true, true, false, Prepared::Ready),
        StartupModel::Exit
    );
}

#[test]
fn meeting_segments_wait_for_dictation_and_need_a_model() {
    assert!(may_take_segment(false, false, false) && !may_take_segment(true, false, false));
    assert!(matches!(
        segment_step(true, false, 1_000, true),
        SegmentStep::Wait
    ));
    assert!(matches!(
        segment_step(false, false, 30, true),
        SegmentStep::Send
    ));
    assert!(matches!(
        segment_step(false, false, 30, false),
        SegmentStep::Refuse("The local speech model is not ready.")
    ));
}

#[test]
fn failed_multi_field_model_request_rolls_back_the_whole_snapshot() {
    let (mut staging, action) = Staging::begin(false, true, false, true);
    assert_eq!(action, StageAction::PrepareModel);
    assert_eq!(
        staging.preparation_admitted(false, true),
        StageAction::PrepareModel
    );
    assert_eq!(
        staging.model_prepared(Prepared::Failed("corrupt".to_string()), true, false),
        StageAction::Reject("Could not load that model: corrupt".to_string())
    );
    assert!(rolls_back(true, true) && !rolls_back(false, true) && !rolls_back(true, false));
    assert_eq!(
        rejection_message(
            "Could not load that model: corrupt.",
            &RollbackTrouble::Applied {
                disk_error: Some("read-only".to_string()),
                autostart_error: Some(("denied".to_string(), true)),
            }
        ),
        "Could not load that model: corrupt. VocalCode could not restore the accepted settings on disk: read-only VocalCode also could not restore the accepted startup setting: denied. The control was reconciled to the operating-system state (enabled)."
    );
}

#[test]
fn settings_are_committed_only_when_everything_is_prepared() {
    let (mut staging, action) = Staging::begin(false, true, false, true);
    assert_eq!(action, StageAction::PrepareModel);
    assert_eq!(
        staging.model_prepared(Prepared::Ready, true, false),
        StageAction::StartWorker
    );
    assert_eq!(staging.worker_started(Ok(())), StageAction::OpenAudio);
    assert_eq!(staging.audio_opened(Ok(())), StageAction::Check);
    assert_eq!(
        staging.check(false, false, false, true),
        StageAction::Commit
    );
    let before = EngineFlags {
        audio_ready: false,
        model_ready: false,
        retry_scheduled: true,
    };
    let (after, follow_up) = staging.commit(before, true, true);
    assert_eq!(
        after,
        EngineFlags {
            audio_ready: true,
            model_ready: true,
            retry_scheduled: false
        }
    );
    assert_eq!(follow_up, ModelFollowUp::Recovered);
    assert!(engine_busy(false, true, false) && !engine_busy(false, false, false));
    assert_eq!(
        Staging::begin(true, true, false, false).1,
        StageAction::Requeue
    );
    assert_eq!(
        Staging::begin(false, true, true, false).1,
        StageAction::Reject("Choose a supported language before saving.".to_string())
    );
    assert_eq!(
        Staging::begin(false, false, false, false).1,
        StageAction::Check
    );
    let (mut busy, _) = Staging::begin(false, false, false, false);
    assert_eq!(busy.check(false, true, false, true), StageAction::Requeue);
    let (mut stale, _) = Staging::begin(false, false, false, false);
    assert_eq!(stale.check(false, false, false, false), StageAction::Abandon);
}

#[test]
fn a_first_choice_without_a_model_stands_and_is_tried_again() {
    let (mut staging, _) = Staging::begin(false, true, false, false);
    assert_eq!(
        staging.model_prepared(Prepared::Failed("offline".to_string()), false, false),
        StageAction::Check
    );
    let before = EngineFlags {
        audio_ready: true,
        model_ready: false,
        retry_scheduled: false,
    };
    let (after, follow_up) = staging.commit(before, false, false);
    assert!(after.retry_scheduled && !after.model_ready);
    assert_eq!(
        follow_up,
        ModelFollowUp::ScheduleRetry("offline".to_string())
    );
    assert!(accepted_without_model_message("offline").ends_with("not ready yet: offline"));
}

#[test]
fn an_accepted_model_is_prepared_again_only_when_it_is_missed() {
    assert!(wish_after_settings(true, false));
    assert!(!wish_after_settings(true, true), "the settings stand in its place");
    assert!(!wish_after_settings(false, false));
    assert_eq!(reload_begins(false, false, false), ReloadAction::Nothing);
    assert_eq!(reload_begins(true, true, false), ReloadAction::KeepWish);
    assert_eq!(reload_begins(true, false, true), ReloadAction::Nothing);
    assert_eq!(reload_begins(true, false, false), ReloadAction::Prepare);
    assert_eq!(
        reload_prepared(Prepared::Ready, false, false, false, true, false),
        ReloadAction::StartWorker
    );
    assert_eq!(
        reload_prepared(Prepared::Ready, false, true, false, true, false),
        ReloadAction::KeepWish
    );
    assert_eq!(
        reload_prepared(Prepared::Ready, false, false, false, false, false),
        ReloadAction::Abandon
    );
    assert_eq!(
        reload_prepared(
            Prepared::Failed("bad".to_string()),
            false,
            false,
            false,
            true,
            false
        ),
        ReloadAction::ScheduleRetry("bad".to_string())
    );
    assert_eq!(reload_started(Ok(true)), ReloadAction::Recovered);
    assert_eq!(
        reload_started(Err("no threads".to_string())),
        ReloadAction::ScheduleRetry("Could not recover inference: no threads".to_string())
    );
}
