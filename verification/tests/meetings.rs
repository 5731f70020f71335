//! Recorded meetings: the shared state, recognition, the record and its transcript.

use vocalcode::bridge::{
    AutoEndNotice, Bridge, Command, ExportKind, Service, StopToken, COMMAND_QUEUE_CAPACITY,
};
use vocalcode::controller::{
    breakdown, edit_done, edit_failed, edit_refused, export_failed, export_target, exported,
    meeting_ended, meeting_not_started, reserves_meeting, sees_off, shown_phase, Edit, ExportStage,
    Selection, Stage, Work, Worker,
};
use vocalcode::live::{
    cancels_echo, check_track, draft_speaker, echo_warning, filtered_drafts, meeting_asr_samples,
    missing_detector_warning, monitor_healthy, pending_speech, retention, sort_drafts, take_windows,
    track_route, unfinished_second, Draft, TrackRoute, MAX_PENDING_SEGMENTS, WINDOW_SAMPLES,
};
use vocalcode::prompt::EndAction;
use vocalcode::recognition::{
    after_attempt, after_wait, auto_ending, before_attempt, AfterReply, Attempt, AttemptStep,
    AutoEnding, DrainStep, LiveRun, LiveStep, LiveTranscription, Offer, Received, Reply, RoundStart,
    WaitStep, Waited,
};
use vocalcode::record::{AudioRetention, Meeting, MeetingStatus};
use vocalcode::text::truncate_utf8;
use vocalcode::transcript::{
    cross_track_duplicate, deduplicate_live_tracks, similar_transcript, AudioSource,
    TranscriptSegment,
};

fn segment(
    id: u64,
    start_ms: u64,
    end_ms: u64,
    source: AudioSource,
    text: &str,
) -> TranscriptSegment {
    TranscriptSegment {
        id,
        start_ms,
        end_ms,
        speaker_id: if source == AudioSource::Microphone {
            "you".to_string()
        } else {
            "speaker-1".to_string()
        },
        source,
        text: text.to_string(),
    }
}

fn meeting() -> Meeting {
    Meeting {
        id: "m-1".to_string(),
        title: "Weekly".to_string(),
        updated_at_ms: 0,
        started_at_ms: 1_000,
        ended_at_ms: None,
        duration_ms: 0,
        status: MeetingStatus::Recording,
        audio_retention: AudioRetention::DeleteAfterTranscription,
        speakers: Vec::new(),
        bookmarks: Vec::new(),
        segments: Vec::new(),
        segment_count: 0,
        error: None,
        warnings: Vec::new(),
        end_reason: None,
        filtered_noise_segments: 0,
    }
}

fn draft(start_ms: u64) -> Draft<u8> {
    Draft {
        source: AudioSource::Microphone,
        start_ms,
        end_ms: start_ms + 500,
        samples: vec![1, 2, 3],
        speaker_id: "you".to_string(),
    }
}

fn start(bridge: &mut Bridge<String>) -> Result<(), &'static str> {
    bridge.start_live(
        "First".to_string(),
        true,
        false,
        None,
        false,
        "en".to_string(),
        5,
    )
}

fn open_bridge() -> Bridge<String> {
    let mut bridge = Bridge::new();
    bridge.set_service(Service::Open);
    bridge
}

#[test]
fn utf8_truncation_never_splits_a_character() {
    assert_eq!(truncate_utf8("会议记录", 7), "会议");
    assert_eq!(truncate_utf8("hello", 99), "hello");
    assert_eq!(truncate_utf8("aé€😀", 2), "a");
    assert_eq!(truncate_utf8("aé€😀", 6), "aé€");
    assert_eq!(truncate_utf8("aé€😀", 10), "aé€😀");
}

#[test]
fn live_aec_is_enabled_only_when_both_audio_sources_are_selected() {
    assert!(!cancels_echo(true, false));
    assert!(!cancels_echo(false, true));
    assert!(cancels_echo(true, true));
}

#[test]
fn live_echo_is_deduplicated_and_prefers_system_audio() {
    let input = vec![
        segment(
            1,
            1_000,
            4_000,
            AudioSource::Microphone,
            "我们今天先测试这个会议记录功能。",
        ),
        segment(
            2,
            1_180,
            3_900,
            AudioSource::System,
            "我们今天先测试这个会议记录功能",
        ),
    ];
    let cleaned = deduplicate_live_tracks(&input);
    assert_eq!(cleaned.len(), 1);
    assert_eq!(cleaned[0].source, AudioSource::System);
    assert_eq!(cleaned[0].id, 2);
}

#[test]
fn simultaneous_different_speech_is_not_deduplicated() {
    let input = vec![
        segment(
            1,
            1_000,
            3_000,
            AudioSource::Microphone,
            "我来负责测试 Windows 版本。",
        ),
        segment(
            2,
            1_100,
            2_900,
            AudioSource::System,
            "Mac 版本明天再安排其他人验证。",
        ),
    ];
    assert_eq!(deduplicate_live_tracks(&input).len(), 2);
}

#[test]
fn same_track_repetition_is_preserved() {
    let input = vec![
        segment(1, 1_000, 2_000, AudioSource::Microphone, "请再说一遍。"),
        segment(2, 2_100, 3_100, AudioSource::Microphone, "请再说一遍。"),
    ];
    assert_eq!(deduplicate_live_tracks(&input).len(), 2);
}

#[test]
fn opposite_decisions_and_changed_numbers_are_not_echo() {
    for (left, right) in [
        (
            "We approve this release.",
            "We do not approve this release.",
        ),
        ("We approved 1200 USD.", "We approved 12000 USD."),
        ("The balance is -1200 USD.", "The balance is 1200 USD."),
        ("The balance is 12.00 USD.", "The balance is 1200 USD."),
        ("我们同意今天发布这个版本", "我们不同意今天发布这个版本"),
    ] {
        let input = [
            segment(1, 0, 3_000, AudioSource::Microphone, left),
            segment(2, 100, 3_000, AudioSource::System, right),
        ];
        assert_eq!(deduplicate_live_tracks(&input).len(), 2, "{left} / {right}");
    }
    let input = [
        segment(1, 0, 1_000, AudioSource::Microphone, "Please try again"),
        segment(2, 1_100, 2_000, AudioSource::System, "Please try again"),
    ];
    assert_eq!(deduplicate_live_tracks(&input).len(), 2);
}

#[test]
fn transcripts_are_compared_without_case_and_idle_marks() {
    assert!(similar_transcript("Hello, World!", "hello world"));
    assert!(similar_transcript("STRASSE ÄÖ", "strasse äö"));
    assert!(!similar_transcript("abc", "abc"), "too short to tell");
    assert!(!similar_transcript("1.5 million", "15 million"));
    let long = "x".repeat(512);
    assert!(similar_transcript(&long, &long));
    let longer = "x".repeat(513);
    assert!(!similar_transcript(&longer, &longer));
    let a = segment(1, 0, 1_000, AudioSource::Microphone, "same words");
    let half = segment(2, 500, 1_500, AudioSource::System, "same words");
    let less = segment(3, 501, 1_501, AudioSource::System, "same words");
    assert!(cross_track_duplicate(&a, &half) && cross_track_duplicate(&half, &a));
    assert!(!cross_track_duplicate(&a, &less));
}

#[test]
fn only_the_latest_utterances_are_compared() {
    let mut input = vec![segment(1, 0, 100_000, AudioSource::Microphone, "the same words")];
    for i in 0..32 {
        input.push(segment(
            2 + i,
            1 + i,
            100_000,
            AudioSource::Microphone,
            &format!("filler number {i}"),
        ));
    }
    input.push(segment(99, 50, 100_000, AudioSource::System, "the same words"));
    assert_eq!(deduplicate_live_tracks(&input).len(), 34);
    input.remove(1);
    let cleaned = deduplicate_live_tracks(&input);
    assert_eq!(cleaned.len(), 32);
    assert!(cleaned.iter().any(|s| s.id == 99) && cleaned.iter().all(|s| s.id != 1));
    assert!(cleaned
        .windows(2)
        .all(|w| (w[0].start_ms, w[0].id) <= (w[1].start_ms, w[1].id)));
}

#[test]
fn a_meeting_command_reserves_the_single_active_slot_before_queueing() {
    let mut bridge = open_bridge();
    start(&mut bridge).unwrap();
    assert!(bridge.is_active());
    bridge.stop().unwrap();
    assert_eq!(
        bridge
            .import(
                "second.wav".to_string(),
                "Second".to_string(),
                "en".to_string()
            )
            .unwrap_err(),
        "Finish the current meeting first."
    );
    match bridge.take_command().unwrap() {
        Command::StartLive { stop, .. } => assert!(bridge.is_stopped(stop)),
        command => panic!("unexpected command: {command:?}"),
    }
    assert!(bridge.take_command().is_none());
}

#[test]
fn a_command_that_cannot_wait_reserves_nothing() {
    let mut bridge: Bridge<String> = Bridge::new();
    assert_eq!(
        start(&mut bridge).unwrap_err(),
        "The local meeting service is not ready."
    );
    assert!(!bridge.is_active());
    assert_eq!(
        bridge.stop().unwrap_err(),
        "No meeting is recording or importing."
    );
    bridge.set_service(Service::Open);
    for _ in 0..COMMAND_QUEUE_CAPACITY {
        bridge.search("q".to_string()).unwrap();
    }
    assert_eq!(
        start(&mut bridge).unwrap_err(),
        "The local meeting service is busy; wait a moment and try again."
    );
    assert!(!bridge.is_active());
    assert!(bridge.request_shutdown().is_err());
    bridge.take_command().unwrap();
    bridge.request_shutdown().unwrap();
}

#[test]
fn finishing_worker_cannot_clear_the_next_meetings_stop_token() {
    let mut bridge: Bridge<String> = Bridge::new();
    let (old, next) = (1, 2);
    bridge.set_stop(Some(StopToken {
        id: next,
        raised: false,
    }));

    bridge.clear_stop_if(old);
    bridge.stop().unwrap();
    assert!(bridge.is_stopped(next));
    assert!(!bridge.is_stopped(old));

    bridge.clear_stop_if(next);
    assert!(bridge.stop().is_err());
}

#[test]
fn active_bookmarks_are_applied_by_the_recording_owner() {
    let mut meeting = meeting();
    meeting.duration_ms = 2_000;
    let mut bridge = open_bridge();
    start(&mut bridge).unwrap();
    assert_eq!(
        bridge
            .bookmark("m-1".to_string(), 1_250, "Decision".to_string())
            .unwrap_err(),
        "The active meeting is still starting or has changed."
    );
    bridge.set_active_meeting(Some("m-1".to_string()));
    bridge
        .bookmark("m-1".to_string(), 1_250, "Decision".to_string())
        .unwrap();
    assert!(meeting.apply_bookmarks(bridge.take_bookmarks(), 9_000));
    assert_eq!(meeting.bookmarks.len(), 1);
    assert_eq!(meeting.bookmarks[0].at_ms, 1_250);
    assert_eq!(meeting.bookmarks[0].label, "Decision");
    assert!(!meeting.apply_bookmarks(bridge.take_bookmarks(), 9_000));
}

#[test]
fn bookmarks_are_labelled_bounded_and_within_the_meeting() {
    let mut bridge = open_bridge();
    start(&mut bridge).unwrap();
    bridge.set_active_meeting(Some("m-1".to_string()));
    for label in ["  ", "a\0b"] {
        assert_eq!(
            bridge
                .bookmark("m-1".to_string(), 1, label.to_string())
                .unwrap_err(),
            "Enter a bookmark label."
        );
    }
    for i in 0..256 {
        bridge
            .bookmark("m-1".to_string(), i, "x".repeat(300))
            .unwrap();
    }
    assert_eq!(
        bridge
            .bookmark("m-1".to_string(), 1, "one more".to_string())
            .unwrap_err(),
        "Too many meeting bookmarks are waiting to save."
    );
    let mut meeting = meeting();
    meeting.duration_ms = 100;
    meeting.apply_bookmarks(bridge.take_bookmarks(), 9_000);
    assert_eq!(meeting.bookmarks[255].at_ms, 100);
    assert_eq!(meeting.bookmarks[0].label.len(), 256);
}

#[test]
fn a_bookmark_of_a_saved_meeting_is_a_command() {
    let mut bridge = open_bridge();
    bridge
        .bookmark("m-9".to_string(), 5, "later".to_string())
        .unwrap();
    assert!(matches!(
        bridge.take_command(),
        Some(Command::Bookmark(id, 5, label)) if id == "m-9" && label == "later"
    ));
    bridge.select("m-9".to_string()).unwrap();
    bridge.delete("m-9".to_string()).unwrap();
    bridge.rename("m-9".to_string(), "t".to_string()).unwrap();
    bridge
        .rename_speaker("m-9".to_string(), "you".to_string(), "Me".to_string())
        .unwrap();
    bridge.refresh("imported".to_string()).unwrap();
    bridge
        .export("m-9".to_string(), ExportKind::Srt, "out.srt".to_string())
        .unwrap();
    assert!(matches!(bridge.take_command(), Some(Command::Select(_))));
    assert!(matches!(bridge.take_command(), Some(Command::Delete(_))));
    assert!(matches!(bridge.take_command(), Some(Command::Rename(..))));
    assert!(matches!(
        bridge.take_command(),
        Some(Command::RenameSpeaker(..))
    ));
    assert!(matches!(bridge.take_command(), Some(Command::Refresh(_))));
    assert!(matches!(
        bridge.take_command(),
        Some(Command::Export(_, ExportKind::Srt, _))
    ));
}

#[test]
fn countdown_controls_are_bound_to_the_current_recording_and_bounded() {
    let mut bridge = open_bridge();
    start(&mut bridge).unwrap();
    bridge.set_auto_end_notice(Some(AutoEndNotice {
        id: 7,
        idle_minutes: 5,
        remaining_seconds: 30,
    }));
    bridge.auto_end_action(6, EndAction::Stop);
    assert!(bridge.take_answers().is_empty());
    for _ in 0..100 {
        bridge.auto_end_action(7, EndAction::Continue);
    }
    assert_eq!(bridge.take_answers().len(), 1);
    bridge.auto_end_action(7, EndAction::Continue);
    bridge.set_active_meeting(None);
    assert!(bridge.auto_end_notice().is_none());
    assert!(bridge.take_answers().is_empty());
    bridge.auto_end_action(7, EndAction::Stop);
    assert!(bridge.take_answers().is_empty());
}

#[test]
fn library_selection_does_not_replace_live_identity_and_completion_keeps_detail() {
    let mut bridge = open_bridge();
    start(&mut bridge).unwrap();
    bridge.set_active_meeting(Some("m-1".to_string()));
    let mut live = meeting();
    live.title = "live-identity".to_string();
    let before = bridge.update_after(u64::MAX).unwrap();
    bridge.publish(Some(&live));
    assert!(bridge.update_after(before).is_some());
    let mut saved = meeting();
    saved.id = "1787796747000-1-999".to_string();
    saved.title = "Old meeting".to_string();
    bridge.publish(Some(&saved));
    assert_eq!(bridge.recording().unwrap().title, "live-identity");
    assert!(!bridge.recording().unwrap().stopping);
    live.end_capture(5_000);
    bridge.publish(Some(&live));
    assert!(bridge.recording().unwrap().stopping);

    let Some(Command::StartLive { stop, .. }) = bridge.take_command() else {
        panic!("no command");
    };
    bridge.worker_ended(stop);
    bridge.publish(Some(&live));
    assert!(bridge.recording().is_none());
    assert!(!bridge.is_active());
    let selection = Selection::new();
    assert_eq!(
        selection.detail(Some("m-1".to_string())).as_deref(),
        Some("m-1")
    );
}

#[test]
fn a_reservation_survives_the_end_of_the_worker_before() {
    let mut bridge = open_bridge();
    start(&mut bridge).unwrap();
    bridge.set_transcribing(true);
    bridge.worker_reaped(true);
    assert!(bridge.is_active() && !bridge.is_transcribing());
    bridge.worker_reaped(false);
    assert!(!bridge.is_active());
    assert!(bridge.stop().is_err());
    start(&mut bridge).unwrap();
    bridge.begin_shutdown();
    assert!(bridge.is_shutting_down());
    let mut last = None;
    while let Some(command) = bridge.take_command() {
        last = Some(command);
    }
    let Some(Command::StartLive { stop, .. }) = last else {
        panic!("no command");
    };
    assert!(bridge.is_stopped(stop));
    bridge.worker_not_started(stop);
    assert!(!bridge.is_active());
}

#[test]
fn short_meeting_asr_padding_preserves_content_and_only_adds_silence() {
    let original: Vec<f32> = vec![0.125; 6_400];
    let padded = meeting_asr_samples(original.clone(), 0.0);
    assert_eq!(padded.len(), 24_000);
    assert_eq!(&padded[..original.len()], original.as_slice());
    assert!(padded[original.len()..].iter().all(|s| *s == 0.0));
    for count in [0, 1, 3_199, 16_000, 45 * 16_000] {
        assert_eq!(
            meeting_asr_samples(vec![0.125f32; count], 0.0),
            vec![0.125f32; count]
        );
    }
}

#[test]
fn saturated_asr_channel_and_backlog_are_bounded_without_dropping_a_draft() {
    let mut pipeline: LiveTranscription<u8> = LiveTranscription::new();
    pipeline.enqueue(vec![draft(0)]).unwrap();
    let taken = pipeline.take_next().unwrap();
    assert_eq!(pipeline.after_offer(Offer::Full(taken)), Ok(false));
    assert!(!pipeline.is_pending());
    pipeline
        .enqueue(
            (1..MAX_PENDING_SEGMENTS)
                .map(|i| draft(i as u64 * 1_000))
                .collect(),
        )
        .unwrap();
    assert!(pipeline
        .enqueue(vec![draft(99)])
        .unwrap_err()
        .contains("could not keep up"));
    let taken = pipeline.take_next().unwrap();
    assert_eq!(taken.start_ms, 0, "the refused draft is the next one");
    assert_eq!(taken.samples, vec![1, 2, 3]);
    assert_eq!(
        pipeline.after_offer(Offer::Stopped).unwrap_err(),
        "The speech engine stopped."
    );
}

#[test]
fn one_piece_of_speech_is_recognised_at_a_time() {
    let mut pipeline: LiveTranscription<u8> = LiveTranscription::new();
    pipeline.enqueue(vec![draft(0), draft(1_000)]).unwrap();
    let first = pipeline.take_next().unwrap();
    assert_eq!(pipeline.after_offer(Offer::Sent(first)), Ok(true));
    assert!(pipeline.is_pending());
    assert!(matches!(
        pipeline.after_reply(Reply::Waiting),
        AfterReply::Wait
    ));
    let AfterReply::Save { draft, text } = pipeline.after_reply(Reply::Text("hi".to_string()))
    else {
        panic!("the text was not saved");
    };
    assert_eq!((draft.start_ms, text.as_str()), (0, "hi"));
    let second = pipeline.take_next().unwrap();
    pipeline.after_offer(Offer::Sent(second)).unwrap();
    assert!(matches!(
        pipeline.after_reply(Reply::Gone),
        AfterReply::Fail(error) if error.contains("dropped the meeting segment")
    ));
    assert!(matches!(
        pipeline.after_reply(Reply::Failed("bad audio".to_string())),
        AfterReply::Fail(error) if error == "bad audio"
    ));
    assert!(pipeline.is_empty());
}

#[test]
fn cancelled_import_does_not_block_on_full_request_channel() {
    assert!(before_attempt(true).unwrap_err().contains("cancelled"));
    assert!(before_attempt(false).is_ok());
    assert!(matches!(
        after_attempt(Attempt::Full),
        AttemptStep::RetryAfterMs(10)
    ));
    assert!(matches!(
        after_attempt(Attempt::Disconnected),
        AttemptStep::Fail("The speech engine stopped.")
    ));
    assert!(matches!(
        after_attempt(Attempt::Accepted),
        AttemptStep::AwaitReply
    ));
}

#[test]
fn runtime_shutdown_cancels_an_import_waiting_on_a_stalled_native_model() {
    assert!(matches!(
        after_wait(Waited::Timeout, false),
        WaitStep::KeepWaiting
    ));
    assert!(matches!(
        after_wait(Waited::Timeout, true),
        WaitStep::Done(Err(error)) if error == "Meeting import cancelled."
    ));
    assert!(matches!(
        after_wait(Waited::Answer(Ok("text".to_string())), true),
        WaitStep::Done(Ok(text)) if text == "text"
    ));
    assert!(matches!(
        after_wait(Waited::Disconnected, false),
        WaitStep::Done(Err(error)) if error == "The speech engine dropped the meeting segment."
    ));
    let mut imported = meeting();
    imported.import_ended(true, "import cancelled", 9);
    assert_eq!(imported.status, MeetingStatus::Interrupted);
    imported.import_ended(false, "no decoder", 9);
    assert_eq!(imported.status, MeetingStatus::Failed);
    assert_eq!(imported.error.as_deref(), Some("no decoder"));
}

#[test]
fn stalled_model_does_not_block_audio_checkpointing_or_stop_signal() {
    let mut run = LiveRun::new(1_000);
    assert_eq!(
        run.received(Received::Block(Ok(())), 5_999),
        LiveStep::Applied { checkpoint: false }
    );
    assert_eq!(
        run.received(Received::Block(Ok(())), 6_000),
        LiveStep::Applied { checkpoint: true }
    );
    assert_eq!(
        run.received(Received::Block(Ok(())), 6_001),
        LiveStep::Applied { checkpoint: false }
    );
    assert_eq!(run.received(Received::Timeout, 7_000), LiveStep::Continue);
    assert_eq!(run.drain(false, false), DrainStep::Recognise);
    assert_eq!(run.drain(false, true), DrainStep::Done);
    assert_eq!(
        run.into_failure().as_deref(),
        Some("VocalCode is closing before the remaining speech finished transcribing")
    );
}

#[test]
fn the_first_failure_is_the_one_that_is_reported() {
    let mut run = LiveRun::new(0);
    assert!(run.may_recognise());
    assert_eq!(
        run.received(Received::Block(Err("overflow".to_string())), 1),
        LiveStep::End
    );
    run.note(Some("device gone".to_string()));
    assert!(!run.may_recognise());
    assert_eq!(run.drain(false, true), DrainStep::Done);
    assert_eq!(run.received(Received::Disconnected, 2), LiveStep::End);
    assert_eq!(run.into_failure().as_deref(), Some("overflow"));
}

#[test]
fn recordings_end_when_confirmed_or_silent() {
    assert_eq!(auto_ending(true, false, false), Some(AutoEnding::Confirmed));
    assert_eq!(auto_ending(false, true, true), Some(AutoEnding::Silence));
    assert_eq!(auto_ending(false, true, false), None);
    assert_eq!(AutoEnding::Confirmed.reason(), "auto_end_confirmed");
    assert_eq!(AutoEnding::Silence.reason(), "silence_auto_end");
}

#[test]
fn capture_failure_keeps_partial_notes_and_audio_explicitly_recoverable() {
    let mut meeting = meeting();
    meeting.duration_ms = 1_000;
    let message = meeting.preserve_failed_capture("audio queue overflow", 5_000);
    assert_eq!(meeting.status, MeetingStatus::Failed);
    assert_eq!(meeting.audio_retention, AudioRetention::KeepUntilDeleted);
    assert_eq!(meeting.error.as_deref(), Some(message.as_str()));
    assert_eq!(meeting.ended_at_ms, Some(2_000));
    assert!(message.contains("retained locally"));
    assert!(message.contains("audio queue overflow"));
}

#[test]
fn punctuation_does_not_create_rows_but_multilingual_short_answers_do() {
    let mut meeting = meeting();
    for _ in 0..4 {
        meeting.skip_noise();
    }
    assert!(meeting.segments.is_empty());
    assert!(meeting.speakers.is_empty());
    for (i, text) in ["不。", "是", "OK", "No", "はい", "아니요", "नहीं", "7"]
        .iter()
        .enumerate()
    {
        assert_eq!(meeting.introduce("you", AudioSource::Microphone, 1), i == 0);
        let segment = meeting.next_segment(
            i as u64 * 1_000,
            (i as u64 + 1) * 1_000,
            "you".to_string(),
            AudioSource::Microphone,
            text.to_string(),
        );
        assert_eq!(segment.id, i as u64 + 1);
        meeting.append(segment, 2);
    }
    assert_eq!(meeting.filtered_noise_segments, 4);
    assert_eq!(meeting.segments.len(), 8);
    assert_eq!(meeting.segment_count, 8);
    assert_eq!(meeting.duration_ms, 8_000);
}

#[test]
fn speakers_are_numbered_as_they_are_heard() {
    let mut meeting = meeting();
    meeting.begin_live(true);
    assert!(meeting.introduce("speaker-4", AudioSource::System, 1));
    assert!(meeting.introduce("speaker-2", AudioSource::System, 1));
    assert!(!meeting.introduce("speaker-2", AudioSource::System, 1));
    let labels: Vec<&str> = meeting.speakers.iter().map(|s| s.label.as_str()).collect();
    assert_eq!(labels, ["You", "Speaker 1", "Speaker 2"]);
    assert_eq!(draft_speaker(AudioSource::Microphone, Some(3)), "you");
    assert_eq!(draft_speaker(AudioSource::System, Some(3)), "speaker-4");
    assert_eq!(draft_speaker(AudioSource::Imported, None), "speaker-1");

    assert_eq!(
        meeting.rename_speaker("speaker-9", "Ann", 2).unwrap_err(),
        "That speaker is no longer in this meeting."
    );
    for label in ["  ", &"x".repeat(129)] {
        assert_eq!(
            meeting.rename_speaker("speaker-2", label, 2).unwrap_err(),
            "Enter a speaker name up to 128 bytes."
        );
    }
    meeting.rename_speaker("speaker-2", " Ann ", 2).unwrap();
    assert_eq!(meeting.speakers[2].label, "Ann");
    meeting.rename("  Planning ", 3);
    assert_eq!(meeting.title, "Planning");
    meeting.add_bookmark(7, "会议", 4);
    assert_eq!(meeting.bookmarks[0].label, "会议");
}

#[test]
fn completed_meetings_hold_no_echo() {
    let mut meeting = meeting();
    meeting.end_capture(4_000);
    assert_eq!(meeting.duration_ms, 3_000);
    assert_eq!(meeting.ended_at_ms, Some(4_000));
    assert_eq!(meeting.status, MeetingStatus::Processing);
    meeting.append(
        segment(1, 0, 2_000, AudioSource::Microphone, "we ship today"),
        5,
    );
    meeting.append(
        segment(2, 100, 2_000, AudioSource::System, "We ship today."),
        5,
    );
    meeting.error = Some("old".to_string());
    assert!(meeting.complete(6));
    assert_eq!(meeting.status, MeetingStatus::Completed);
    assert_eq!(meeting.segments.len(), 1);
    assert_eq!(meeting.segment_count, 1);
    assert_eq!(meeting.error, None);
    assert!(!meeting.complete(7));
    let left = meeting.audio_left_behind("denied", 8);
    assert!(left.ends_with("temporary meeting audio: denied"));
    assert_eq!(meeting.status, MeetingStatus::Failed);
    meeting.capture_not_started("no device", 9);
    assert_eq!(meeting.error.as_deref(), Some("no device"));
}

#[test]
fn recording_time_follows_the_clock_and_import_time_the_blocks() {
    let mut meeting = meeting();
    meeting.progress(3_500);
    assert_eq!(meeting.duration_ms, 2_500);
    meeting.progress(500);
    assert_eq!(meeting.duration_ms, 0);
    meeting.import_progress(1_000, 32_000, 2, 16_000);
    assert_eq!(meeting.duration_ms, 2_000);
    meeting.import_progress(0, 100, 0, 1_000);
    assert_eq!(meeting.duration_ms, 2_000);
    meeting.import_progress(0, u64::MAX, 1, 1);
    assert_eq!(meeting.duration_ms, u64::MAX);
}

#[test]
fn warnings_are_kept_once() {
    let mut meeting = meeting();
    let warning = echo_warning("aec stalled", false);
    assert_eq!(
        warning,
        "Echo cancellation fell back to raw microphone audio: aec stalled. Use headphones to reduce duplicate voices."
    );
    meeting.collect_warnings(2, vec![warning.clone(), warning.clone()]);
    meeting.collect_warnings(1, vec![warning, echo_warning("end", true)]);
    assert_eq!(meeting.warnings.len(), 2);
    assert_eq!(meeting.filtered_noise_segments, 3);
    assert!(missing_detector_warning(false).contains("silence auto-end is disabled"));
    assert!(missing_detector_warning(true).contains("without acoustic filtering"));
}

#[test]
fn whole_seconds_are_heard_and_the_rest_waits() {
    let mut heard: Vec<u16> = (0..40_000u32).map(|n| (n % 1_000) as u16).collect();
    let all = heard.clone();
    let windows = take_windows(&mut heard);
    assert_eq!(windows.len(), 2);
    assert_eq!(windows[1][..], all[16_000..32_000]);
    assert_eq!(heard[..], all[32_000..]);
    let second = unfinished_second(&heard, 0).unwrap();
    assert_eq!(second.len(), WINDOW_SAMPLES);
    assert_eq!(second[..8_000], all[32_000..]);
    assert!(second[8_000..].iter().all(|s| *s == 0));
    assert!(unfinished_second(&[] as &[u16], 0).is_none());
}

#[test]
fn tracks_are_monitored_and_ordered() {
    assert!(monitor_healthy(true, &[Some(0), Some(2_999)]));
    assert!(!monitor_healthy(true, &[Some(0), Some(3_000)]));
    assert!(!monitor_healthy(true, &[None]));
    assert!(!monitor_healthy(false, &[Some(0)]));
    let sorted = sort_drafts(vec![draft(500), draft(100), draft(300)]);
    let starts: Vec<u64> = sorted.iter().map(|d| d.start_ms).collect();
    assert_eq!(starts, [100, 300, 500]);
    let (kept, noise) = filtered_drafts(vec!['a', 'b', 'c'], &[true, false, true]);
    assert_eq!((kept, noise), (vec!['a', 'c'], 1));
    assert!(check_track(AudioSource::System, false, true, false).is_ok());
    assert_eq!(
        check_track(AudioSource::Microphone, false, true, false).unwrap_err(),
        "audio arrived for a disabled meeting track"
    );
    assert_eq!(
        check_track(AudioSource::Imported, true, true, true).unwrap_err(),
        "processed audio targeted a disabled meeting track"
    );
    assert_eq!(retention(true), AudioRetention::KeepUntilDeleted);
    assert_eq!(retention(false), AudioRetention::DeleteAfterTranscription);
}

#[test]
fn export_refuses_to_overwrite_an_existing_file() {
    assert_eq!(
        export_target(true).unwrap_err(),
        "The export target already exists; choose a new file name."
    );
    assert!(export_target(false).is_ok());
    assert_eq!(
        export_failed(ExportStage::Write, "disk full"),
        "Could not write export: disk full"
    );
    assert_eq!(
        exported(Ok(()), "out.md").notice.as_deref(),
        Some("Exported to out.md")
    );
    assert_eq!(
        exported(Err("no".to_string()), "out.md").error.as_deref(),
        Some("no")
    );
}

#[test]
fn saved_meetings_are_not_changed_while_one_runs() {
    for (edit, refusal, done) in [
        (
            Edit::Delete,
            "Stop recording before deleting a meeting.",
            "Meeting deleted from this device.",
        ),
        (
            Edit::Rename,
            "Stop the current meeting before renaming it.",
            "Meeting renamed.",
        ),
        (
            Edit::RenameSpeaker,
            "Stop the current meeting before renaming a speaker.",
            "Speaker renamed.",
        ),
        (
            Edit::Bookmark,
            "Stop the current meeting before adding a bookmark.",
            "Bookmark added.",
        ),
    ] {
        assert_eq!(edit_refused(edit, true), Some(refusal));
        assert_eq!(edit_refused(edit, false), None);
        assert_eq!(edit_done(edit, None).notice.as_deref(), Some(done));
    }
    assert_eq!(
        edit_done(Edit::Delete, Some("link left".to_string()))
            .notice
            .as_deref(),
        Some("link left")
    );
    let words = |edit, stage| edit_failed(edit, stage, "denied").error.unwrap();
    assert_eq!(
        words(Edit::Delete, Stage::Change),
        "Could not delete meeting: denied"
    );
    assert_eq!(
        words(Edit::Rename, Stage::Load),
        "Could not load meeting: denied"
    );
    assert_eq!(
        words(Edit::Rename, Stage::Change),
        "Could not rename meeting: denied"
    );
    assert_eq!(words(Edit::RenameSpeaker, Stage::Change), "denied");
    assert_eq!(
        words(Edit::Bookmark, Stage::Change),
        "Could not add bookmark: denied"
    );
}

#[test]
fn workers_are_seen_off_and_reported() {
    assert!(sees_off(true, Worker::Absent));
    assert!(sees_off(false, Worker::Finished));
    assert!(!sees_off(false, Worker::Running));
    assert_eq!(
        meeting_ended(Ok(()), false).notice.as_deref(),
        Some("Meeting saved locally.")
    );
    assert_eq!(
        meeting_ended(Ok(()), true).notice.as_deref(),
        Some("Imported meeting saved locally.")
    );
    assert_eq!(
        meeting_ended(Err(breakdown(false).to_string()), false)
            .error
            .as_deref(),
        Some("The local meeting worker stopped unexpectedly.")
    );
    assert_eq!(
        meeting_not_started("no threads", true).error.as_deref(),
        Some("Could not start the import worker: no threads")
    );
    assert_eq!(shown_phase(MeetingStatus::Processing, "recording"), "processing");
    assert_eq!(shown_phase(MeetingStatus::Recording, "recording"), "recording");
    let mut selection = Selection::new();
    selection.select("a".to_string());
    selection.deleted("b");
    assert_eq!(selection.detail(None).as_deref(), Some("a"));
    selection.deleted("a");
    assert_eq!(selection.detail(None), None);
}

#[test]
fn commands_are_dispatched_by_what_runs() {
    let mut bridge = open_bridge();
    let mut selection = Selection::new();
    let idle = selection.dispatch(Command::Delete("m-1".to_string()), &mut bridge);
    assert!(matches!(idle, Work::Delete(id) if id == "m-1"));
    start(&mut bridge).unwrap();
    let first = bridge.take_command().unwrap();
    assert!(reserves_meeting(&first));
    let Work::Record { stop, title, .. } = selection.dispatch(first, &mut bridge) else {
        panic!("the recording was not started");
    };
    assert_eq!(title, "First");
    for command in [
        Command::Delete("m-1".to_string()),
        Command::Rename("m-1".to_string(), "t".to_string()),
        Command::RenameSpeaker("m-1".to_string(), "you".to_string(), "Me".to_string()),
        Command::Bookmark("m-1".to_string(), 1, "x".to_string()),
    ] {
        assert!(!reserves_meeting(&command));
        assert!(matches!(
            selection.dispatch(command, &mut bridge),
            Work::Show(note) if note.error.is_some()
        ));
    }
    assert!(matches!(
        selection.dispatch(Command::Select("m-2".to_string()), &mut bridge),
        Work::Show(note) if note.error.is_none() && note.notice.is_none()
    ));
    assert_eq!(selection.detail(None).as_deref(), Some("m-2"));
    assert!(matches!(
        selection.dispatch(Command::Refresh("imported".to_string()), &mut bridge),
        Work::Show(note) if note.notice.as_deref() == Some("imported")
    ));
    assert!(!bridge.is_stopped(stop));
    assert!(matches!(
        selection.dispatch(Command::Shutdown, &mut bridge),
        Work::Exit
    ));
    assert!(bridge.is_stopped(stop));
}

#[test]
fn a_round_of_a_recording_ends_by_itself_or_by_a_device() {
    let mut run = LiveRun::new(0);
    assert_eq!(run.begin_round(None, None), RoundStart::Recognise);
    assert_eq!(run.recognised(Ok(())), LiveStep::Continue);
    assert_eq!(
        run.begin_round(Some(AutoEnding::Silence), Some("device gone".to_string())),
        RoundStart::EndsBy(AutoEnding::Silence)
    );
    assert!(!run.may_recognise(), "the failure of the device is kept");
    assert_eq!(
        run.begin_round(None, Some("another device gone".to_string())),
        RoundStart::EndsFailed
    );
    assert_eq!(
        run.recognised(Err("engine gone".to_string())),
        LiveStep::End
    );
    assert_eq!(run.into_failure().as_deref(), Some("device gone"));
}

#[test]
fn echo_cancellation_replaces_only_the_microphone() {
    assert_eq!(
        track_route(AudioSource::Microphone, true, 160),
        TrackRoute {
            raw: false,
            processed: true
        }
    );
    assert_eq!(
        track_route(AudioSource::System, true, 0),
        TrackRoute {
            raw: true,
            processed: false
        }
    );
    assert_eq!(
        track_route(AudioSource::Microphone, false, 160),
        TrackRoute {
            raw: true,
            processed: false
        }
    );
    assert!(pending_speech(false, &[]) && pending_speech(true, &[false, true]));
    assert!(!pending_speech(true, &[false]));
}
