//! The decisions of the dictation engine's loop: what is done with input that
//! arrives while the engine is busy, what an utterance's end publishes, which
//! sound is played, when other playback is muted and when the engine is ready.

use crate::clocks::{meeting_asr_may_run, MEETING_ASR_INPUT_GRACE_MS};
use crate::dictionary::RulesDocument;
use crate::learning::LearnedRuleChange;
use vstd::prelude::*;

verus! {

/// A control of the person's: a key, a button or a pedal.
#[derive(Debug, Clone, Copy, PartialEq, Eq, Structural)]
pub struct TriggerId {
    pub device: u64,
    pub code: u64,
}

impl TriggerId {
    /// A control that stands for no device.
    pub fn synthetic(code: u64) -> (r: Self)
        ensures
            r == (TriggerId { device: 0, code }),
    {
        TriggerId { device: 0, code }
    }
}

/// What the input controls report.
#[derive(Debug, Clone, Copy, PartialEq, Eq, Structural)]
pub enum TriggerEvent {
    TalkPressed(TriggerId),
    TalkReleased(TriggerId),
    HandsFreeStart(TriggerId),
    SendTapped(TriggerId),
    TeachTapped(TriggerId),
    DeviceDisconnected(u64),
    Wake,
    ForceStop,
    Cancel,
    Quit,
}

/// The event asks for something to be done now. Done later it would surprise.
pub open spec fn is_action(e: TriggerEvent) -> bool {
    e is TalkPressed || e is HandsFreeStart || e is Wake || e is SendTapped || e is TeachTapped
}

/// The events that are still handled after the engine was busy: those that end
/// or clean up something.
pub open spec fn cleanup_of(events: Seq<TriggerEvent>) -> Seq<TriggerEvent> {
    events.filter(|e: TriggerEvent| !is_action(e) && e != TriggerEvent::Quit)
}

/// What is left of the events that arrived while the engine was busy: what to
/// clean up, and whether to quit. Actions are dropped.
pub fn drain_busy_events(events: &[TriggerEvent]) -> (r: (Vec<TriggerEvent>, bool))
    ensures
        r.0@ == cleanup_of(events@),
        r.1 == events@.contains(TriggerEvent::Quit),
{
    let ghost p = |e: TriggerEvent| !is_action(e) && e != TriggerEvent::Quit;
    let mut kept: Vec<TriggerEvent> = Vec::new();
    let mut quit = false;
    let mut i: usize = 0;
    proof {
        crate::seqs::filter_ends(events@, p);
    }
    while i < events.len()
        invariant
            i <= events@.len(),
            p == (|e: TriggerEvent| !is_action(e) && e != TriggerEvent::Quit),
            kept@ == events@.take(i as int).filter(p),
            quit == events@.take(i as int).contains(TriggerEvent::Quit),
        decreases events@.len() - i,
    {
        proof {
            crate::seqs::filter_step(events@, p, i as int);
            assert(events@.take(i + 1) =~= events@.take(i as int).push(events@[i as int]));
            assert(events@.take(i + 1).contains(TriggerEvent::Quit) == (events@.take(
                i as int,
            ).contains(TriggerEvent::Quit) || events@[i as int] == TriggerEvent::Quit)) by {
                if events@.take(i as int).contains(TriggerEvent::Quit) {
                    let k = choose|k: int|
                        0 <= k < i && events@.take(i as int)[k] == TriggerEvent::Quit;
                    assert(events@.take(i + 1)[k] == TriggerEvent::Quit);
                }
                if events@[i as int] == TriggerEvent::Quit {
                    assert(events@.take(i + 1)[i as int] == TriggerEvent::Quit);
                }
            }
        }
        let e = events[i];
        match e {
            TriggerEvent::TalkPressed(_) => {},
            TriggerEvent::HandsFreeStart(_) => {},
            TriggerEvent::Wake => {},
            TriggerEvent::SendTapped(_) => {},
            TriggerEvent::TeachTapped(_) => {},
            TriggerEvent::Quit => {
                quit = true;
            },
            _ => {
                kept.push(e);
            },
        }
        i += 1;
    }
    proof {
        crate::seqs::filter_ends(events@, p);
        assert(events@.take(events@.len() as int) =~= events@);
    }
    (kept, quit)
}

/// Nothing that arrives while the engine is busy starts anything afterwards: what
/// is still handled came in then, and is no action.
pub proof fn busy_input_starts_nothing(events: Seq<TriggerEvent>, i: int)
    requires
        0 <= i < cleanup_of(events).len(),
    ensures
        !is_action(cleanup_of(events)[i]),
        events.contains(cleanup_of(events)[i]),
{
    let p = |e: TriggerEvent| !is_action(e) && e != TriggerEvent::Quit;
    events.lemma_filter_pred(p, i);
    events.lemma_filter_contains_rev(p, cleanup_of(events)[i]);
}

/// Is the engine ready for dictation?
pub fn engine_ready(audio_ready: bool, model_ready: bool, input_ready: bool, shutdown: bool) -> (r:
    bool)
    ensures
        r == (audio_ready && model_ready && input_ready && !shutdown),
{
    audio_ready && model_ready && input_ready && !shutdown
}

/// A failure of the engine.
#[derive(Debug, PartialEq, Eq)]
pub enum EngineError {
    Audio(String),
    Asr(String),
    Inject(String),
    /// The transcript went elsewhere; the words say where.
    Diverted(String),
    Other(String),
}

/// A failure of the microphone closes it, so that it is opened again. No other
/// failure does.
pub fn invalidate_audio_on_error(error: &EngineError, audio_ready: &mut bool) -> (r: bool)
    ensures
        r == (*error is Audio),
        *final(audio_ready) == (if *error is Audio {
            false
        } else {
            *old(audio_ready)
        }),
{
    match error {
        EngineError::Audio(_) => {
            *audio_ready = false;
            true
        },
        _ => false,
    }
}

/// What is said of an action that failed. The words of a transcript that went
/// elsewhere stand for themselves.
pub open spec fn action_failure_words(error: EngineError, description: Seq<char>) -> Seq<char> {
    match error {
        EngineError::Diverted(notice) => notice@,
        _ => "VocalCode could not complete that action: "@ + description,
    }
}

/// What is said of an action that failed. `description` describes the failure.
pub fn action_failure_message(error: &EngineError, description: &str) -> (r: String)
    ensures
        r@ == action_failure_words(*error, description@),
{
    match error {
        EngineError::Diverted(notice) => notice.clone(),
        _ => "VocalCode could not complete that action: ".to_owned().concat(description),
    }
}

/// May a settings request whose model could not be prepared be accepted? With a
/// model that works the request is rolled back; without one the choice stands
/// and is tried again.
pub fn accept_model_config_after_prepare_failure(had_working_model: bool) -> (r: bool)
    ensures
        r == !had_working_model,
{
    !had_working_model
}

/// What the recording indicator shows.
#[derive(Debug, Clone, Copy, PartialEq, Eq, Structural)]
pub enum Phase {
    Idle,
    Recording,
    Transcribing,
    Learning,
}

/// What the recording indicator shows between events.
pub fn resting_phase(recording: bool) -> (r: Phase)
    ensures
        r == (if recording {
            Phase::Recording
        } else {
            Phase::Idle
        }),
{
    if recording {
        Phase::Recording
    } else {
        Phase::Idle
    }
}

/// A sound that answers a key.
#[derive(Debug, Clone, Copy, PartialEq, Eq, Structural)]
pub enum Cue {
    Start,
    Stop,
}

/// The sound that answers an event before it is handled.
pub fn cue_before(cue_on: bool, starting: bool, finishing: bool) -> (r: Option<Cue>)
    ensures
        r == (if cue_on && starting {
            Some(Cue::Start)
        } else if cue_on && finishing {
            Some(Cue::Stop)
        } else {
            None
        }),
{
    if cue_on && (starting || finishing) {
        Some(
            if starting {
                Cue::Start
            } else {
                Cue::Stop
            },
        )
    } else {
        None
    }
}

/// The sound after an event failed: a start that was announced is taken back.
pub fn cue_after_failure(cue_on: bool, starting: bool) -> (r: Option<Cue>)
    ensures
        r == (if cue_on && starting {
            Some(Cue::Stop)
        } else {
            None
        }),
{
    if cue_on && starting {
        Some(Cue::Stop)
    } else {
        None
    }
}

/// Is other playback muted? Only while a dictation is recorded, and never
/// during a meeting, which records that playback.
pub fn mute_others(mute_while_dictating: bool, recording: bool, meeting_active: bool) -> (r: bool)
    ensures
        r == (mute_while_dictating && recording && !meeting_active),
{
    mute_while_dictating && recording && !meeting_active
}

/// Does a request to teach start? Only one selection is copied at a time.
pub fn begin_teach(in_progress: &mut bool) -> (r: bool)
    ensures
        r == !*old(in_progress),
        *final(in_progress),
{
    let starts = !*in_progress;
    *in_progress = true;
    starts
}

/// How one utterance ended.
#[derive(Debug, PartialEq, Eq)]
pub enum Outcome {
    Transcribed(String),
    LicenseRequired,
    Quit,
    Nothing,
}

/// What is done with the watch for corrections.
#[derive(Debug, Clone, Copy, PartialEq, Eq, Structural)]
pub enum CorrectionWatch {
    Leave,
    Arm,
    Cancel,
}

/// What the end of an utterance publishes.
#[derive(Debug, PartialEq, Eq)]
pub struct OutcomeEffects {
    /// The text for the history and the totals.
    pub history: Option<String>,
    /// The text that the window shows as the last one.
    pub last_text: Option<String>,
    pub corrections: CorrectionWatch,
    pub listening: bool,
    pub phase: Phase,
    pub quit: bool,
}

/// What is shown where text may not be delivered.
pub open spec fn delivery_unavailable() -> Seq<char> {
    "Text delivery is temporarily unavailable."@
}

/// What the end of an utterance publishes.
pub fn publish_engine_outcome(outcome: &Outcome, recording: bool, pro: bool) -> (r: OutcomeEffects)
    ensures
        match *outcome {
            Outcome::Transcribed(text) => if text@.len() > 0 {
                &&& r.history is Some && r.history->0@ == text@
                &&& r.last_text is Some && r.last_text->0@ == text@
                &&& r.corrections == (if pro {
                    CorrectionWatch::Arm
                } else {
                    CorrectionWatch::Cancel
                })
            } else {
                r.history is None && r.last_text is None && r.corrections == CorrectionWatch::Leave
            },
            Outcome::LicenseRequired => r.history is None && r.last_text is Some
                && r.last_text->0@ == delivery_unavailable() && r.corrections
                == CorrectionWatch::Leave,
            _ => r.history is None && r.last_text is None && r.corrections
                == CorrectionWatch::Leave,
        },
        r.listening == recording,
        r.phase == (if recording {
            Phase::Recording
        } else {
            Phase::Idle
        }),
        r.quit == (*outcome is Quit),
{
    let mut history = None;
    let mut last_text = None;
    let mut corrections = CorrectionWatch::Leave;
    let mut quit = false;
    match outcome {
        Outcome::Transcribed(text) => {
            if !text.as_str().is_empty() {
                history = Some(text.clone());
                last_text = Some(text.clone());
                corrections =
                if pro {
                    CorrectionWatch::Arm
                } else {
                    CorrectionWatch::Cancel
                };
            }
        },
        Outcome::LicenseRequired => {
            last_text = Some("Text delivery is temporarily unavailable.".to_owned());
        },
        Outcome::Quit => {
            quit = true;
        },
        Outcome::Nothing => {},
    }
    OutcomeEffects {
        history,
        last_text,
        corrections,
        listening: recording,
        phase: resting_phase(recording),
        quit,
    }
}

/// Speech that was recognized but not delivered: is it kept for the person?
/// Nothing that is empty is.
pub fn recoverable_text(text: Option<String>) -> (r: Option<String>)
    ensures
        r is Some <==> text is Some && text->0@.len() > 0,
        r is Some ==> r->0@ == text->0@,
{
    match text {
        Some(t) => {
            if t.as_str().is_empty() {
                None
            } else {
                Some(t)
            }
        },
        None => None,
    }
}

/// What the watch for corrections reports.
#[derive(Debug, Clone, Copy, PartialEq, Eq, Structural)]
pub enum CorrectionKind {
    Started,
    Learned,
    Stopped,
}

/// What a report of the watch for corrections leads to.
#[derive(Debug, Clone, Copy, PartialEq, Eq, Structural)]
pub struct CorrectionEffects {
    /// Are the corrections learned?
    pub learn: bool,
    /// What the recording indicator shows from now on.
    pub phase: Option<Phase>,
}

/// What a report of the watch for corrections leads to. A report of an earlier
/// session leads to nothing, and a running recording keeps its indicator.
pub fn correction_effects(kind: CorrectionKind, session: u64, current: u64, recording: bool) -> (r:
    CorrectionEffects)
    ensures
        session != current ==> r == (CorrectionEffects { learn: false, phase: None }),
        session == current ==> {
            &&& r.learn == (kind == CorrectionKind::Learned)
            &&& r.phase == (if recording {
                None
            } else if kind == CorrectionKind::Started {
                Some(Phase::Learning)
            } else {
                Some(Phase::Idle)
            })
        },
{
    if session != current {
        return CorrectionEffects { learn: false, phase: None };
    }
    let phase = if recording {
        None
    } else if kind == CorrectionKind::Started {
        Some(Phase::Learning)
    } else {
        Some(Phase::Idle)
    };
    CorrectionEffects { learn: kind == CorrectionKind::Learned, phase }
}

/// What the window is told of corrections that were learned.
#[derive(Debug, PartialEq, Eq)]
pub struct CorrectionResult {
    pub ok: bool,
    pub review_only: bool,
    pub message: String,
    pub document: Option<RulesDocument>,
    pub changes: Vec<LearnedRuleChange>,
}

/// The words for corrections that were learned.
pub open spec fn learned_words(review: Option<Seq<char>>, count: nat) -> Seq<char> {
    match review {
        Some(message) => message,
        None => if count > 1 {
            "Corrections added to Dictionary."@
        } else {
            "Correction added to Dictionary."@
        },
    }
}

/// What the window is told of corrections that were learned, or that the person
/// has to confirm.
pub fn correction_learned(
    document: RulesDocument,
    changes: Vec<LearnedRuleChange>,
    review_message: Option<&str>,
    pairs: usize,
) -> (r: CorrectionResult)
    ensures
        r.ok,
        r.review_only == review_message is Some,
        r.message@ == learned_words(
            match review_message {
                Some(m) => Some(m@),
                None => None,
            },
            pairs as nat,
        ),
        r.document == Some(document),
        r.changes == changes,
{
    let message = match review_message {
        Some(m) => m.to_owned(),
        None => {
            if pairs > 1 {
                "Corrections added to Dictionary.".to_owned()
            } else {
                "Correction added to Dictionary.".to_owned()
            }
        },
    };
    CorrectionResult {
        ok: true,
        review_only: review_message.is_some(),
        message,
        document: Some(document),
        changes,
    }
}

/// What the window is told of corrections that could not be learned.
pub fn correction_refused(error: &str) -> (r: CorrectionResult)
    ensures
        !r.ok,
        !r.review_only,
        r.message@ == "Could not add that correction: "@ + error@,
        r.document is None,
        r.changes@.len() == 0,
{
    CorrectionResult {
        ok: false,
        review_only: false,
        message: "Could not add that correction: ".to_owned().concat(error),
        document: None,
        changes: Vec::new(),
    }
}

/// What the start-up of the engine does next.
#[derive(Debug, Clone, Copy, PartialEq, Eq, Structural)]
pub enum StartupStep {
    Exit,
    /// Nothing is downloaded before a language was chosen.
    AwaitLanguage,
    Prepare,
}

/// What the start-up of the engine does next.
pub fn startup_step(shutdown: bool, onboarded: bool, needs_language_pick: bool) -> (r: StartupStep)
    ensures
        r == (if shutdown {
            StartupStep::Exit
        } else if !onboarded || needs_language_pick {
            StartupStep::AwaitLanguage
        } else {
            StartupStep::Prepare
        }),
{
    if shutdown {
        StartupStep::Exit
    } else if !onboarded || needs_language_pick {
        StartupStep::AwaitLanguage
    } else {
        StartupStep::Prepare
    }
}

/// What a model preparation came to.
#[derive(Debug, PartialEq, Eq)]
pub enum Prepared {
    Ready,
    Cancelled,
    Failed(String),
}

/// What the start-up does with a prepared model.
#[derive(Debug, PartialEq, Eq)]
pub enum StartupModel {
    Exit,
    /// Newer settings are there: prepare again.
    Again,
    Start,
    /// Start without a model, and try again later; with the words of the failure.
    StartWithout(String),
}

/// What the start-up does with a prepared model. `current` says whether the
/// settings it was prepared for are still the latest, `called_off` whether the
/// preparation was called off meanwhile.
pub fn startup_model(shutdown: bool, current: bool, called_off: bool, prepared: Prepared) -> (r:
    StartupModel)
    ensures
        r == (if shutdown {
            StartupModel::Exit
        } else if !current || called_off {
            StartupModel::Again
        } else {
            match prepared {
                Prepared::Ready => StartupModel::Start,
                Prepared::Cancelled => StartupModel::Again,
                Prepared::Failed(error) => StartupModel::StartWithout(error),
            }
        }),
{
    if shutdown {
        return StartupModel::Exit;
    }
    if !current || called_off {
        return StartupModel::Again;
    }
    match prepared {
        Prepared::Ready => StartupModel::Start,
        Prepared::Cancelled => StartupModel::Again,
        Prepared::Failed(error) => StartupModel::StartWithout(error),
    }
}

/// May a meeting segment be taken from its queue?
pub fn may_take_segment(pending: bool, in_flight: bool, recording: bool) -> (r: bool)
    ensures
        r == (!pending && !in_flight && !recording),
{
    !pending && !in_flight && !recording
}

/// What is done with a meeting segment that was taken from its queue.
#[derive(Debug, Clone, Copy)]
pub enum SegmentStep {
    /// Dictation goes first.
    Wait,
    /// Hand it to the model.
    Send,
    /// Answer it with this error.
    Refuse(&'static str),
}

/// What is done with a meeting segment that waits for the model. Dictation and its
/// input always go first.
pub fn segment_step(
    recording: bool,
    input_pending: bool,
    queued_for_ms: u64,
    model_ready: bool,
) -> (r: SegmentStep)
    ensures
        if recording || input_pending || queued_for_ms < MEETING_ASR_INPUT_GRACE_MS {
            r is Wait
        } else if model_ready {
            r is Send
        } else {
            r matches SegmentStep::Refuse(words) && words@
                == "The local speech model is not ready."@
        },
{
    if !meeting_asr_may_run(recording, input_pending, queued_for_ms) {
        SegmentStep::Wait
    } else if model_ready {
        SegmentStep::Send
    } else {
        SegmentStep::Refuse("The local speech model is not ready.")
    }
}

/// What is said after a recording ran into its safety limit, where anything was
/// saved of it.
pub fn watchdog_notice(salvaged: bool) -> (r: Option<&'static str>)
    ensures
        match r {
            Some(words) => salvaged && words@
                == "Recording hit the safety limit (the release was never seen). The transcript was saved to History and was not typed anywhere."@,
            None => !salvaged,
        },
{
    if salvaged {
        Some(
            "Recording hit the safety limit (the release was never seen). The transcript was saved to History and was not typed anywhere.",
        )
    } else {
        None
    }
}

/// How the engine was left behind at the end.
#[derive(Debug, Clone, Copy, PartialEq, Eq, Structural)]
pub enum EngineShutdown {
    Stopped,
    /// A native call did not return in time; the engine still runs.
    Detached,
}

/// What the wait for the engine came to.
#[derive(Debug, Clone, Copy, PartialEq, Eq, Structural)]
pub enum EngineWait {
    Finished,
    Gone,
    TimedOut,
}

/// How the engine was left behind at the end.
pub fn engine_shutdown(wait: EngineWait) -> (r: EngineShutdown)
    ensures
        r == (if wait == EngineWait::TimedOut {
            EngineShutdown::Detached
        } else {
            EngineShutdown::Stopped
        }),
{
    match wait {
        EngineWait::Finished => EngineShutdown::Stopped,
        EngineWait::Gone => EngineShutdown::Stopped,
        EngineWait::TimedOut => EngineShutdown::Detached,
    }
}

/// What is kept of input that came while the engine was busy, event by event: a
/// release, a lost device, a stop and a cancellation are, in their order; what would
/// begin something is not, and a wish to quit is answered apart.
pub proof fn busy_input_is_cleaned_up(
    before: Seq<TriggerEvent>,
    e: TriggerEvent,
    after: Seq<TriggerEvent>,
)
    ensures
        cleanup_of(before + seq![e] + after) == cleanup_of(before) + (match e {
            TriggerEvent::TalkReleased(_) => seq![e],
            TriggerEvent::DeviceDisconnected(_) => seq![e],
            TriggerEvent::ForceStop => seq![e],
            TriggerEvent::Cancel => seq![e],
            TriggerEvent::TalkPressed(_) => Seq::empty(),
            TriggerEvent::HandsFreeStart(_) => Seq::empty(),
            TriggerEvent::SendTapped(_) => Seq::empty(),
            TriggerEvent::TeachTapped(_) => Seq::empty(),
            TriggerEvent::Wake => Seq::empty(),
            TriggerEvent::Quit => Seq::empty(),
        }) + cleanup_of(after),
{
    let kept = |e: TriggerEvent| !is_action(e) && e != TriggerEvent::Quit;
    let one = seq![e];
    Seq::filter_distributes_over_add(before + one, after, kept);
    Seq::filter_distributes_over_add(before, one, kept);
    assert(one.filter(kept) == if kept(e) {
        one
    } else {
        Seq::empty()
    }) by {
        reveal(Seq::filter);
        assert(one.drop_last() =~= Seq::<TriggerEvent>::empty());
        assert(one.drop_last().filter(kept) =~= Seq::<TriggerEvent>::empty());
        assert(Seq::<TriggerEvent>::empty().push(e) =~= one);
    }
}

} // verus!
