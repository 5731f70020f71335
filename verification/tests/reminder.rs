//! Reminders of meetings: what a window shows, when a card comes up, and what a
//! click on it does.

use vocalcode::presence::{
    classify_foreground, classify_observation, classify_window, conference_key, safe_label,
    CallState, Conference, ForegroundApplication, MeetingWindow, Probe,
};
use vocalcode::prompt::{
    allowed_navigation, card_kind, document_url, parse_event, place_card, review_title, CardPlace,
    CardStep, EndAction, EndStep, Event, MeetingPrompt, WorkArea,
};
use vocalcode::reminder::{Action, ActionResult, MeetingCandidate, ReminderGate, Strength};

fn observed(app_id: &str, name: &str, title: &str) -> ForegroundApplication {
    ForegroundApplication {
        process_id: 42,
        app_id: app_id.to_string(),
        display_name: name.to_string(),
        window_title: title.to_string(),
    }
}

fn google_meet(code: &str) -> Option<Conference> {
    Some(Conference {
        service_key: "google-meet".to_string(),
        service_name: "Google Meet".to_string(),
        code: Some(code.to_string()),
    })
}

fn call_window(code: &str) -> MeetingWindow {
    MeetingWindow {
        application: observed("chrome.exe", "Chrome", &format!("Meet - {code} - Chrome")),
        browser: true,
        window_id: 10,
        foreground: true,
        microphone_active: true,
        conference: google_meet(code),
        call_state: CallState::InCall,
    }
}

fn confirmed(code: &str) -> MeetingCandidate {
    classify_window(&call_window(code)).unwrap()
}

#[test]
fn verified_call_prompts_on_first_observation_and_survives_foreground_switch() {
    let mut gate = ReminderGate::default();
    let mut candidate = confirmed("abc-defg-hij");
    gate.update(0, std::slice::from_ref(&candidate), true, false, &[]);
    let first_id = gate.current().unwrap().id;
    gate.update(1000, std::slice::from_ref(&candidate), true, false, &[]);
    assert_eq!(gate.current().unwrap().id, first_id);
    candidate.foreground = false;
    candidate.app_name = "changed display title".into();
    gate.update(2000, std::slice::from_ref(&candidate), true, false, &[]);
    let id = gate.current().unwrap().id;
    gate.update(3000, &[candidate], true, false, &[]);
    assert_eq!(gate.current().unwrap().id, id);
}

#[test]
fn conference_and_mic_prompt_immediately_but_are_not_call_confirmation() {
    let mut window = MeetingWindow {
        application: observed("chrome.exe", "Chrome", "Meet - abc-defg-hij - Chrome"),
        browser: true,
        window_id: 1,
        foreground: true,
        microphone_active: true,
        conference: google_meet("abc-defg-hij"),
        call_state: CallState::Lobby,
    };
    assert!(classify_window(&window).is_none());
    window.call_state = CallState::Ended;
    assert!(classify_window(&window).is_none());
    window.call_state = CallState::Unknown;
    let candidate = classify_window(&window).unwrap();
    assert_eq!(candidate.strength, Strength::Audio);
    let mut gate = ReminderGate::default();
    gate.update(0, std::slice::from_ref(&candidate), true, false, &[]);
    assert_eq!(gate.current().unwrap().candidate.strength, Strength::Audio);
    gate.update(2000, &[candidate], true, false, &[]);
    assert!(gate.current().is_some());
    window.microphone_active = false;
    window.foreground = false;
    assert!(classify_window(&window).is_none());
    window.application = observed("chrome.exe", "Chrome", "Voice recorder");
    window.conference = None;
    window.microphone_active = true;
    assert!(classify_window(&window).is_none());
}

#[test]
fn snooze_requires_fresh_presence_and_old_actions_cannot_affect_new_card() {
    let mut gate = ReminderGate::default();
    let a = confirmed("abc-defg-hij");
    gate.update(0, std::slice::from_ref(&a), true, false, &[]);
    gate.update(2000, std::slice::from_ref(&a), true, false, &[]);
    let old = gate.current().unwrap().id;
    gate.action(old, Action::Snooze, 2000);
    for now in (3000..122000).step_by(1000) {
        gate.update(now, std::slice::from_ref(&a), true, false, &[]);
        assert!(gate.current().is_none());
    }
    gate.update(122000, std::slice::from_ref(&a), true, false, &[]);
    let new = gate.current().unwrap().id;
    assert_ne!(old, new);
    assert!(gate.action(old, Action::Review, 122000).is_none());
    assert_eq!(gate.current().unwrap().id, new);
    gate.action(new, Action::Dismiss, 122000);
    gate.update(123000, &[a], true, false, &[]);
    assert!(gate.current().is_none());
}

#[test]
fn vanished_snoozed_meeting_never_prompts_and_stale_review_is_refused() {
    let mut gate = ReminderGate::default();
    let a = confirmed("abc-defg-hij");
    gate.update(0, std::slice::from_ref(&a), true, false, &[]);
    gate.update(2000, std::slice::from_ref(&a), true, false, &[]);
    let id = gate.current().unwrap().id;
    assert!(gate.action(id, Action::Review, 11000).is_none());
    gate.update(120000, &[], true, false, &[]);
    assert!(gate.current().is_none());
    let mut gate = ReminderGate::default();
    gate.update(0, std::slice::from_ref(&a), true, false, &[]);
    gate.update(2000, &[a], true, false, &[]);
    gate.action(gate.current().unwrap().id, Action::Snooze, 2000);
    gate.update(122000, &[], true, false, &[]);
    assert!(gate.current().is_none());
}

#[test]
fn calendar_and_window_share_identity_but_different_codes_do_not() {
    let mut gate = ReminderGate::default();
    let a = confirmed("abc-defg-hij");
    let mut calendar = a.clone();
    calendar.app_key = "calendar:google".into();
    calendar.instance_key = "calendar:event-one".into();
    calendar.strength = Strength::Calendar;
    gate.update(0, &[calendar.clone(), a.clone()], true, false, &[]);
    gate.update(2000, &[calendar.clone(), a.clone()], true, false, &[]);
    assert_eq!(gate.remembered_count(), 1);
    assert_eq!(
        gate.current().unwrap().candidate.strength,
        Strength::Confirmed
    );
    gate.action(gate.current().unwrap().id, Action::Dismiss, 2000);
    let b = confirmed("klm-nopq-rst");
    gate.update(
        3000,
        &[calendar.clone(), a.clone(), b.clone()],
        true,
        false,
        &[],
    );
    gate.update(5000, &[calendar, a, b.clone()], true, false, &[]);
    assert_eq!(gate.current().unwrap().candidate.key(), b.key());
}

#[test]
fn real_call_replaces_an_unrelated_calendar_guess() {
    let mut gate = ReminderGate::default();
    let a = confirmed("abc-defg-hij");
    let mut calendar = confirmed("klm-nopq-rst");
    calendar.strength = Strength::Calendar;
    gate.update(0, std::slice::from_ref(&calendar), true, false, &[]);
    gate.update(1000, std::slice::from_ref(&calendar), true, false, &[]);
    assert_eq!(
        gate.current().unwrap().candidate.strength,
        Strength::Calendar
    );
    gate.update(2000, &[calendar.clone(), a.clone()], true, false, &[]);
    gate.update(4000, &[calendar, a], true, false, &[]);
    assert_eq!(
        gate.current().unwrap().candidate.strength,
        Strength::Confirmed
    );
}

#[test]
fn no_duplicate_when_uia_temporarily_loses_a_conference_code() {
    let mut gate = ReminderGate::default();
    let a = confirmed("abc-defg-hij");
    gate.update(0, std::slice::from_ref(&a), true, false, &[]);
    gate.update(2000, std::slice::from_ref(&a), true, false, &[]);
    gate.action(gate.current().unwrap().id, Action::Dismiss, 2000);
    let mut degraded = a.clone();
    degraded.conference_key = None;
    degraded.strength = Strength::Audio;
    gate.update(3000, std::slice::from_ref(&degraded), true, false, &[]);
    gate.update(11000, &[degraded], true, false, &[]);
    assert!(gate.current().is_none());
    assert_eq!(gate.remembered_count(), 1);
}

#[test]
fn paused_card_resumes_but_recording_or_disabled_never_prompts() {
    let mut gate = ReminderGate::default();
    let a = confirmed("abc-defg-hij");
    gate.update(0, std::slice::from_ref(&a), true, false, &[]);
    gate.update(2000, std::slice::from_ref(&a), true, false, &[]);
    gate.pause();
    assert!(gate.current().is_none());
    gate.update(3000, std::slice::from_ref(&a), true, false, &[]);
    assert!(gate.current().is_some());
    gate.update(4000, std::slice::from_ref(&a), true, true, &[]);
    assert!(gate.current().is_none());
    gate.update(5000, std::slice::from_ref(&a), true, false, &[]);
    assert!(gate.current().is_none());
    gate.update(6000, std::slice::from_ref(&a), false, false, &[]);
    assert!(gate.remembered_count() == 0);
    gate.update(
        7000,
        std::slice::from_ref(&a),
        true,
        false,
        std::slice::from_ref(&a.app_key),
    );
    assert!(gate.current().is_none());
}

#[test]
fn fresh_confirmed_observation_recovers_immediately_after_a_gap() {
    let mut gate = ReminderGate::default();
    let a = confirmed("abc-defg-hij");
    gate.update(0, std::slice::from_ref(&a), true, false, &[]);
    gate.update(9000, &[], true, false, &[]);
    assert!(gate.current().is_none());
    gate.update(20000, std::slice::from_ref(&a), true, false, &[]);
    assert!(gate.current().is_some());
    gate.update(22000, &[a], true, false, &[]);
    assert!(gate.current().is_some());
}

#[test]
fn classifies_supported_desktop_and_browser_meetings_conservatively() {
    let meet = classify_foreground(&observed(
        "chrome.exe",
        "Chrome",
        "Meet - abc-defg-hij - Google Chrome",
    ))
    .unwrap();
    assert_eq!(meet.app_key, "browser:chrome.exe:google-meet");
    assert_eq!(meet.app_name, "Google Meet (Chrome)");

    let teams = classify_foreground(&observed(
        "ms-teams.exe",
        "Microsoft Teams",
        "Weekly planning | Meeting | Microsoft Teams",
    ))
    .unwrap();
    assert_eq!(teams.app_key, "app:ms-teams.exe:teams");

    assert!(classify_foreground(&observed(
        "ms-teams.exe",
        "Microsoft Teams",
        "Chat | Microsoft Teams",
    ))
    .is_none());
    assert!(classify_foreground(&observed(
        "chrome.exe",
        "Chrome",
        "Meet the team - Google Chrome",
    ))
    .is_none());
}

#[test]
fn title_hint_requires_continuous_dwell_and_respects_dismissal() {
    let mut candidate = confirmed("abc-defg-hij");
    candidate.strength = Strength::Title;
    let mut gate = ReminderGate::default();
    for now in [0, 500, 999] {
        gate.update(now, std::slice::from_ref(&candidate), true, false, &[]);
        assert!(gate.current().is_none());
    }
    gate.update(1000, std::slice::from_ref(&candidate), true, false, &[]);
    gate.action(gate.current().unwrap().id, Action::Dismiss, 1000);
    for now in (2000..60_000).step_by(4000) {
        gate.update(now, std::slice::from_ref(&candidate), true, false, &[]);
        assert!(gate.current().is_none());
    }
}

#[test]
fn vanished_prompt_can_recover_but_old_button_stays_invalid() {
    let a = confirmed("abc-defg-hij");
    let mut gate = ReminderGate::default();
    gate.update(0, std::slice::from_ref(&a), true, false, &[]);
    gate.update(2000, std::slice::from_ref(&a), true, false, &[]);
    let old_id = gate.current().unwrap().id;
    gate.update(11_000, &[], true, false, &[]);
    assert!(gate.current().is_none());
    gate.update(12_000, std::slice::from_ref(&a), true, false, &[]);
    assert!(gate.current().is_some());
    gate.update(14_000, std::slice::from_ref(&a), true, false, &[]);
    assert_ne!(gate.current().unwrap().id, old_id);
    assert!(gate.action(old_id, Action::Review, 14_000).is_none());
    assert!(gate.current().is_some());

    let second_id = gate.current().unwrap().id;
    assert!(gate.action(second_id, Action::Review, 23_000).is_none());
    gate.update(24_000, std::slice::from_ref(&a), true, false, &[]);
    assert!(gate.current().is_none());
    gate.update(26_000, std::slice::from_ref(&a), true, false, &[]);
    // Explicit Review consumes the reminder even when its title is stale.
    assert!(gate.current().is_none());
}

#[test]
fn interrupted_title_hint_cannot_accumulate_stale_dwell() {
    let mut a = confirmed("abc-defg-hij");
    a.strength = Strength::Title;
    let mut gate = ReminderGate::default();
    gate.update(0, std::slice::from_ref(&a), true, false, &[]);
    gate.update(20_000, std::slice::from_ref(&a), true, false, &[]);
    assert!(gate.current().is_none());
    for now in [20_500, 20_999] {
        gate.update(now, std::slice::from_ref(&a), true, false, &[]);
        assert!(gate.current().is_none());
    }
    gate.update(21_000, &[a], true, false, &[]);
    assert!(gate.current().is_some());
}

#[test]
fn visible_review_opens_controls_even_if_presence_expires_but_drops_stale_title() {
    for now in [0, 9000] {
        let mut gate = ReminderGate::default();
        let a = confirmed("abc-defg-hij");
        gate.update(0, std::slice::from_ref(&a), true, false, &[]);
        let id = gate.current().unwrap().id;
        let result = gate.visible_action(Some(id), id, Action::Review, now);
        assert_eq!(
            result,
            ActionResult::Review((now == 0).then_some(a.clone()))
        );
        assert!(gate.current().is_none());
        gate.update(now + 1, &[a], true, false, &[]);
        assert!(gate.current().is_none());
    }
}

#[test]
fn stale_signal_cannot_swallow_dismiss_or_snooze() {
    for action in [Action::Dismiss, Action::Snooze] {
        let mut gate = ReminderGate::default();
        let a = confirmed("abc-defg-hij");
        gate.update(0, std::slice::from_ref(&a), true, false, &[]);
        let id = gate.current().unwrap().id;
        assert_eq!(
            gate.visible_action(Some(id), id, action, 9000),
            ActionResult::Closed
        );
        for now in (10_000..129_000).step_by(1000) {
            gate.update(now, std::slice::from_ref(&a), true, false, &[]);
            assert!(gate.current().is_none());
        }
        gate.update(129_000, &[a], true, false, &[]);
        assert_eq!(gate.current().is_some(), action == Action::Snooze);
    }
}

#[test]
fn late_or_hidden_clicks_never_close_a_newer_card() {
    let mut gate = ReminderGate::default();
    gate.update(0, &[confirmed("abc-defg-hij")], true, false, &[]);
    let old = gate.current().unwrap().id;
    gate.action(old, Action::Dismiss, 0);
    gate.update(1, &[confirmed("klm-nopq-rst")], true, false, &[]);
    let new = gate.current().unwrap().id;
    for visible in [None, Some(old), Some(new)] {
        for action in [Action::Review, Action::Snooze, Action::Dismiss] {
            assert_eq!(
                gate.visible_action(visible, old, action, 1),
                ActionResult::Ignored
            );
            assert_eq!(gate.current().unwrap().id, new);
        }
    }
}

#[test]
fn expired_visible_card_can_still_open_manual_controls() {
    let mut gate = ReminderGate::default();
    gate.update(0, &[confirmed("abc-defg-hij")], true, false, &[]);
    let id = gate.current().unwrap().id;
    gate.update(9000, &[], true, false, &[]);
    assert_eq!(
        gate.visible_action(Some(id), id, Action::Review, 9000),
        ActionResult::Review(None)
    );
}

#[test]
fn separate_meetings_in_one_browser_do_not_share_dismissal() {
    let first = confirmed("abc-defg-hij");
    let second = confirmed("klm-nopq-rst");
    assert_eq!(first.app_key, second.app_key);
    assert_ne!(first.key(), second.key());
    let mut gate = ReminderGate::default();
    gate.update(0, std::slice::from_ref(&first), true, false, &[]);
    gate.update(2000, std::slice::from_ref(&first), true, false, &[]);
    gate.action(gate.current().unwrap().id, Action::Dismiss, 2000);
    gate.update(3000, std::slice::from_ref(&second), true, false, &[]);
    gate.update(5000, std::slice::from_ref(&second), true, false, &[]);
    assert_eq!(gate.current().unwrap().candidate.key(), second.key());
    gate.action(gate.current().unwrap().id, Action::Dismiss, 5000);
    gate.update(6000, std::slice::from_ref(&first), true, false, &[]);
    gate.update(8000, std::slice::from_ref(&first), true, false, &[]);
    assert!(gate.current().is_none());
}

#[test]
fn conferences_without_a_code_have_no_identity() {
    let mut conference = google_meet("abc-defg-hij").unwrap();
    let key = conference_key(&conference).unwrap();
    assert!(key.starts_with("conference:") && key.len() == 75);
    conference.code = None;
    assert_eq!(conference_key(&conference), None);
    assert_eq!(safe_label("a\u{7}b", "none"), "ab");
    assert_eq!(safe_label(" \n", "none"), "none");
    assert_eq!(safe_label(&"x".repeat(60), "none").len(), 48);
}

#[test]
fn an_observation_that_took_too_long_shows_nothing() {
    let windows = [call_window("abc-defg-hij")];
    assert_eq!(classify_observation(&windows, 3_000).len(), 1);
    assert!(classify_observation(&windows, 3_001).is_empty());
}

#[test]
fn one_observation_runs_at_a_time() {
    let mut probe = Probe::new();
    probe.request();
    assert!(probe.take_request());
    probe.request();
    assert!(!probe.take_request(), "the observer is still busy");
    assert!(probe.answer(7, 100, &[call_window("abc-defg-hij")]));
    assert!(!probe.answer(8, 100, &[]), "the answer has not been taken");
    let (started, candidates) = probe.result().unwrap();
    assert_eq!(started, 7);
    assert_eq!(candidates, vec![confirmed("abc-defg-hij")]);
    assert!(probe.result().is_none());
    probe.close();
    probe.request();
    assert!(!probe.take_request());
}

#[test]
fn embedded_document_navigation_matches_webview2_without_allowing_arbitrary_data() {
    let document = document_url("<p>card</p>");
    assert!(document.starts_with("data:text/html;charset=utf-8;base64,"));
    assert!(document.ends_with("PHA+Y2FyZDwvcD4="));
    assert!(allowed_navigation(&document, &document));
    assert!(allowed_navigation("about:blank", &document));
    for url in [
        "https://example.com",
        "javascript:alert(1)",
        "data:text/html,other",
    ] {
        assert!(!allowed_navigation(url, &document));
    }
    assert!(!allowed_navigation(
        &(document.clone() + "#other"),
        &document
    ));
}

#[test]
fn ipc_is_an_allowlist_with_bound_tokens_and_no_recording_authority() {
    assert!(matches!(
        parse_event(r#"{"type":"reminder_action","id":1,"action":"review"}"#),
        Some(Event::Action(1, Action::Review))
    ));
    for input in [
        r#"{"type":"meeting_start"}"#,
        r#"{"type":"save"}"#,
        r#"{"type":"reminder_action","id":0,"action":"review"}"#,
        r#"{"type":"reminder_action","id":1,"action":"start"}"#,
    ] {
        assert!(parse_event(input).is_none());
    }
    assert!(parse_event(&" ".repeat(257)).is_none());
}

#[test]
fn auto_end_ipc_cannot_start_capture_or_use_invalid_tokens() {
    assert!(matches!(
        parse_event(r#"{"type":"auto_end_action","id":9,"action":"continue"}"#),
        Some(Event::AutoEnd(9, EndAction::Continue))
    ));
    assert!(matches!(
        parse_event(r#"{"type":"auto_end_action","id":9,"action":"visible"}"#),
        Some(Event::AutoEnd(9, EndAction::Visible))
    ));
    for body in [
        r#"{"type":"auto_end_action","id":9,"action":"start"}"#,
        r#"{"type":"auto_end_action","id":0,"action":"stop"}"#,
        r#"{"type":"auto_end_action","id":9007199254740992,"action":"stop"}"#,
        r#"{"type":"reminder_action","id":9,"action":"stop"}"#,
    ] {
        assert!(parse_event(body).is_none());
    }
}

#[test]
fn the_card_is_shown_once_and_answers_once() {
    let mut gate = ReminderGate::default();
    gate.update(0, &[confirmed("abc-defg-hij")], true, false, &[]);
    let card = gate.current().unwrap().clone();
    let mut prompt = MeetingPrompt::new();
    assert!(matches!(prompt.sync(Some(&card)), CardStep::Hide(_)));
    prompt.ready();
    assert_eq!(prompt.sync(Some(&card)), CardStep::Show);
    prompt.card_shown(card.id);
    assert_eq!(prompt.sync(Some(&card)), CardStep::Keep);
    assert!(matches!(
        prompt.apply_action(&mut gate, card.id, Action::Review, 1),
        ActionResult::Review(Some(_))
    ));
    assert_eq!(
        prompt.apply_action(&mut gate, card.id, Action::Review, 1),
        ActionResult::Ignored
    );
    assert_eq!(card_kind(Strength::Confirmed), "confirmed");
    assert_eq!(
        review_title(&Some(confirmed("abc-defg-hij"))),
        "Google Meet meeting"
    );
    assert_eq!(review_title(&None), "");
}

#[test]
fn an_announced_end_replaces_the_card() {
    let mut prompt = MeetingPrompt::new();
    assert_eq!(prompt.sync_auto_end(5), EndStep::Skip);
    prompt.ready();
    assert!(matches!(prompt.sync_auto_end(5), EndStep::Show(_)));
    prompt.end_shown(5);
    assert!(prompt.accepts_auto_end(5) && !prompt.accepts_auto_end(6));
    assert_eq!(prompt.sync_auto_end(5), EndStep::Update);
    assert_eq!(prompt.auto_end_id(), Some(5));
}

#[test]
fn the_card_stands_in_the_lower_right_corner() {
    let area = WorkArea {
        left: 0,
        top: 0,
        right: 1_920,
        bottom: 1_040,
    };
    assert_eq!(
        place_card(area, 16, 392, 300),
        CardPlace {
            x: 1_512,
            y: 724,
            width: 392,
            height: 300
        }
    );
    let narrow = WorkArea {
        left: -300,
        top: 100,
        right: 0,
        bottom: 290,
    };
    assert_eq!(
        place_card(narrow, 16, 392, 300),
        CardPlace {
            x: -284,
            y: 94,
            width: 268,
            height: 180
        },
        "a card keeps its least height, even beyond the edge"
    );
}

fn seen(
    instance_key: &str,
    conference_key: Option<&str>,
    strength: Strength,
) -> [MeetingCandidate; 1] {
    [MeetingCandidate {
        app_key: "x".to_string(),
        instance_key: instance_key.to_string(),
        app_name: "X".to_string(),
        suggested_title: "T".to_string(),
        strength,
        foreground: true,
        conference_key: conference_key.map(str::to_string),
    }]
}

#[test]
fn one_conference_from_several_sources_is_one_meeting() {
    let conference = Some("conference:c");
    let mut gate = ReminderGate::default();
    gate.update(0, &seen("cal", conference, Strength::Calendar), true, false, &[]);
    gate.update(100, &seen("w", None, Strength::Title), true, false, &[]);
    assert_eq!(gate.remembered_count(), 2);
    gate.update(200, &seen("w", conference, Strength::Confirmed), true, false, &[]);
    assert_eq!(gate.remembered_count(), 1);
    let id = gate.current().unwrap().id;
    assert!(gate.action(id, Action::Dismiss, 300).is_none());
    gate.update(1_200, &seen("w", conference, Strength::Confirmed), true, false, &[]);
    gate.update(2_400, &seen("cal", conference, Strength::Calendar), true, false, &[]);
    assert!(gate.current().is_none(), "a dismissed meeting stays quiet");
    assert_eq!(gate.remembered_count(), 1);
}

#[test]
fn an_answer_to_the_window_is_one_to_its_conference() {
    let conference = Some("conference:c");
    let mut gate = ReminderGate::default();
    gate.update(0, &seen("w", None, Strength::Audio), true, false, &[]);
    let id = gate.current().unwrap().id;
    assert!(gate.action(id, Action::Snooze, 10).is_none());
    gate.update(100, &seen("cal", conference, Strength::Calendar), true, false, &[]);
    assert!(gate.current().is_some());
    gate.update(200, &seen("w", conference, Strength::Confirmed), true, false, &[]);
    assert_eq!(gate.remembered_count(), 1);
    assert!(gate.current().is_none(), "the card of the conference goes");
    for now in [8_000, 60_000, 120_009] {
        gate.update(now, &seen("w", conference, Strength::Confirmed), true, false, &[]);
        assert!(gate.current().is_none());
    }
    gate.update(120_010, &seen("w", conference, Strength::Confirmed), true, false, &[]);
    assert!(gate.current().is_some());
    assert!(gate.action(u64::MAX, Action::Snooze, u64::MAX).is_none());
}

#[test]
fn a_card_goes_when_its_application_is_ignored_or_no_longer_seen() {
    let conference = Some("conference:c");
    let ignored = ["x".to_string()];
    let mut gate = ReminderGate::default();
    gate.update(0, &seen("w", conference, Strength::Confirmed), true, false, &[]);
    gate.update(8_000, &[], true, false, &[]);
    assert!(gate.current().is_some());
    gate.update(8_001, &[], true, false, &[]);
    assert!(gate.current().is_none());
    gate.update(8_100, &seen("w", conference, Strength::Confirmed), true, false, &[]);
    assert!(gate.current().is_some());
    gate.update(8_200, &seen("w", conference, Strength::Confirmed), true, false, &ignored);
    assert!(gate.current().is_none());
}
