//! Applying saved settings to the running engine as one transaction: every
//! resource that may fail is prepared first, the running engine is changed only
//! at the commit, and a request that cannot be met is rolled back as a whole.

use crate::engine::Prepared;
use vstd::prelude::*;

verus! {

/// How far the preparation of a settings request has come.
#[derive(Debug, Clone, Copy, PartialEq, Eq, Structural)]
pub enum StagePhase {
    PreparingModel,
    StartingWorker,
    OpeningAudio,
    Checking,
    Ended,
}

/// What is done next for a settings request.
#[derive(Debug, PartialEq, Eq)]
pub enum StageAction {
    /// Put the request back; the engine is busy.
    Requeue,
    /// Clear out the input, then prepare the model.
    PrepareModel,
    StartWorker,
    OpenAudio,
    /// Clear out the input, then check whether the request may be committed.
    Check,
    /// Change the running engine.
    Commit,
    /// Restore what was accepted before, and say why.
    Reject(String),
    /// Discard what was prepared; newer settings or the end own what follows.
    Abandon,
    /// The engine ends.
    Stop,
}

/// A settings request on its way to the running engine.
#[derive(Debug)]
pub struct Staging {
    phase: StagePhase,
    needs_audio: bool,
    model_staged: bool,
    audio_staged: bool,
    failed_model: Option<String>,
}

/// The state of a settings request.
pub struct StagingView {
    pub phase: StagePhase,
    pub needs_audio: bool,
    /// A new model waits for the commit.
    pub model_staged: bool,
    /// A new microphone waits for the commit.
    pub audio_staged: bool,
    /// Why the model of the request is not there yet, where that is accepted.
    pub failed_model: Option<Seq<char>>,
}

impl View for Staging {
    type V = StagingView;

    closed spec fn view(&self) -> StagingView {
        StagingView {
            phase: self.phase,
            needs_audio: self.needs_audio,
            model_staged: self.model_staged,
            audio_staged: self.audio_staged,
            failed_model: crate::reminder::optional_text(self.failed_model),
        }
    }
}

/// The step after the model: the microphone, where it changes, else the check.
pub open spec fn after_model(v: StagingView) -> StagingView {
    StagingView {
        phase: if v.needs_audio {
            StagePhase::OpeningAudio
        } else {
            StagePhase::Checking
        },
        ..v
    }
}

/// A request that may be checked has all that it asks for: the microphone that it
/// changes to is open, and a model is either there or known to have failed.
pub open spec fn prepared_whole(v: StagingView) -> bool {
    &&& v.phase == StagePhase::Checking && v.needs_audio ==> v.audio_staged
    &&& v.model_staged ==> v.failed_model is None
}

/// A request that is over.
pub open spec fn ended(v: StagingView) -> StagingView {
    StagingView { phase: StagePhase::Ended, ..v }
}

/// The request is rejected with these words.
pub open spec fn rejects(a: StageAction, words: Seq<char>) -> bool {
    a matches StageAction::Reject(message) && message@ == words
}

/// The action that begins the phase of a request.
pub open spec fn continues(a: StageAction, v: StagingView) -> bool {
    a == (if v.phase == StagePhase::OpeningAudio {
        StageAction::OpenAudio
    } else {
        StageAction::Check
    })
}

impl Staging {
    /// Takes up a settings request, unless the engine is busy. `needs_model` and
    /// `needs_audio` say what the request changes, `needs_language` that it names
    /// no language that a model could be prepared for.
    pub fn begin(
        busy: bool,
        needs_model: bool,
        needs_language: bool,
        needs_audio: bool,
    ) -> (r: (Staging, StageAction))
        ensures
            !r.0@.model_staged,
            !r.0@.audio_staged,
            r.0@.failed_model is None,
            r.0@.needs_audio == needs_audio,
            busy ==> r.1 is Requeue && r.0@.phase == StagePhase::Ended,
            !busy && needs_model && needs_language ==> rejects(
                r.1,
                "Choose a supported language before saving."@,
            ) && r.0@.phase == StagePhase::Ended,
            !busy && needs_model && !needs_language ==> r.1 is PrepareModel && r.0@.phase
                == StagePhase::PreparingModel,
            !busy && !needs_model ==> r.0@ == after_model(r.0@) && continues(r.1, r.0@),
            prepared_whole(r.0@),
    {
        let mut s = Staging {
            phase: StagePhase::Ended,
            needs_audio,
            model_staged: false,
            audio_staged: false,
            failed_model: None,
        };
        if busy {
            return (s, StageAction::Requeue);
        }
        if needs_model {
            if needs_language {
                return (
                    s,
                    StageAction::Reject("Choose a supported language before saving.".to_owned()),
                );
            }
            s.phase = StagePhase::PreparingModel;
            return (s, StageAction::PrepareModel);
        }
        let action = s.continue_after_model();
        (s, action)
    }

    fn continue_after_model(&mut self) -> (r: StageAction)
        ensures
            final(self)@ == after_model(old(self)@),
            continues(r, final(self)@),
    {
        if self.needs_audio {
            self.phase = StagePhase::OpeningAudio;
            StageAction::OpenAudio
        } else {
            self.phase = StagePhase::Checking;
            StageAction::Check
        }
    }

    /// The input was cleared out before the model is prepared. `begun` says
    /// whether the preparation was admitted for this generation.
    pub fn preparation_admitted(&mut self, quit: bool, begun: bool) -> (r: StageAction)
        ensures
            quit ==> r is Stop && final(self)@ == ended(old(self)@),
            !quit && !begun ==> r is Abandon && final(self)@ == ended(old(self)@),
            !quit && begun ==> r is PrepareModel && final(self)@ == old(self)@,
            prepared_whole(old(self)@) ==> prepared_whole(final(self)@),
    {
        if quit {
            self.phase = StagePhase::Ended;
            return StageAction::Stop;
        }
        if !begun {
            self.phase = StagePhase::Ended;
            return StageAction::Abandon;
        }
        StageAction::PrepareModel
    }

    /// The model was prepared, or not. With a model that works a failure rejects
    /// the request; without one the choice stands, and the model is tried again.
    pub fn model_prepared(&mut self, prepared: Prepared, had_working_model: bool, shutdown: bool) -> (r:
        StageAction)
        ensures
            match prepared {
                Prepared::Ready => r is StartWorker && final(self)@ == (StagingView {
                    phase: StagePhase::StartingWorker,
                    ..old(self)@
                }),
                Prepared::Cancelled => final(self)@ == ended(old(self)@) && (if shutdown {
                    r is Stop
                } else {
                    r is Abandon
                }),
                Prepared::Failed(error) => if had_working_model {
                    final(self)@ == ended(old(self)@) && rejects(
                        r,
                        "Could not load that model: "@ + error@,
                    )
                } else {
                    final(self)@ == after_model(
                        StagingView { failed_model: Some(error@), ..old(self)@ },
                    ) && continues(r, final(self)@)
                },
            },
            prepared_whole(old(self)@) && !old(self)@.model_staged ==> prepared_whole(final(self)@),
    {
        match prepared {
            Prepared::Ready => {
                self.phase = StagePhase::StartingWorker;
                StageAction::StartWorker
            },
            Prepared::Cancelled => {
                self.phase = StagePhase::Ended;
                if shutdown {
                    StageAction::Stop
                } else {
                    StageAction::Abandon
                }
            },
            Prepared::Failed(error) => {
                if had_working_model {
                    self.phase = StagePhase::Ended;
                    StageAction::Reject("Could not load that model: ".to_owned().concat(&error))
                } else {
                    self.failed_model = Some(error);
                    self.continue_after_model()
                }
            },
        }
    }

    /// The worker for the new model was started, or not.
    pub fn worker_started(&mut self, result: Result<(), String>) -> (r: StageAction)
        ensures
            match result {
                Ok(_) => final(self)@ == after_model(
                    StagingView { model_staged: true, ..old(self)@ },
                ) && continues(r, final(self)@),
                Err(error) => final(self)@ == ended(old(self)@) && rejects(
                    r,
                    "Could not prepare inference worker: "@ + error@,
                ),
            },
            prepared_whole(old(self)@) && old(self)@.failed_model is None ==> prepared_whole(
                final(self)@,
            ),
    {
        match result {
            Ok(_) => {
                self.model_staged = true;
                self.continue_after_model()
            },
            Err(error) => {
                self.phase = StagePhase::Ended;
                StageAction::Reject(
                    "Could not prepare inference worker: ".to_owned().concat(&error),
                )
            },
        }
    }

    /// The new microphone was opened, or not.
    pub fn audio_opened(&mut self, result: Result<(), String>) -> (r: StageAction)
        ensures
            match result {
                Ok(_) => r is Check && final(self)@ == (StagingView {
                    audio_staged: true,
                    phase: StagePhase::Checking,
                    ..old(self)@
                }),
                Err(error) => final(self)@ == ended(old(self)@) && rejects(
                    r,
                    "Could not open that microphone: "@ + error@,
                ),
            },
            prepared_whole(old(self)@) ==> prepared_whole(final(self)@),
    {
        match result {
            Ok(_) => {
                self.audio_staged = true;
                self.phase = StagePhase::Checking;
                StageAction::Check
            },
            Err(error) => {
                self.phase = StagePhase::Ended;
                StageAction::Reject("Could not open that microphone: ".to_owned().concat(&error))
            },
        }
    }

    /// May the request be committed? The engine has to be idle, the application
    /// must go on, and the request has to be the latest.
    pub fn check(&mut self, quit: bool, recording: bool, shutdown: bool, current: bool) -> (r:
        StageAction)
        ensures
            final(self)@ == ended(old(self)@),
            r == (if quit {
                StageAction::Stop
            } else if recording {
                StageAction::Requeue
            } else if shutdown {
                StageAction::Stop
            } else if !current {
                StageAction::Abandon
            } else {
                StageAction::Commit
            }),
            r is Commit <==> !quit && !recording && !shutdown && current,
    {
        self.phase = StagePhase::Ended;
        if quit {
            StageAction::Stop
        } else if recording {
            StageAction::Requeue
        } else if shutdown {
            StageAction::Stop
        } else if !current {
            StageAction::Abandon
        } else {
            StageAction::Commit
        }
    }

    /// What the commit leaves. `audio_swapped` and `model_swapped` say whether
    /// the engine took what was staged.
    pub fn commit(&self, before: EngineFlags, audio_swapped: bool, model_swapped: bool) -> (r: (
        EngineFlags,
        ModelFollowUp,
    ))
        ensures
            r.0.audio_ready == (if self@.audio_staged {
                audio_swapped
            } else {
                before.audio_ready
            }),
            r.0.model_ready == (self@.failed_model is None && (before.model_ready || (
            self@.model_staged && model_swapped))),
            self@.failed_model is Some ==> (r.1 matches ModelFollowUp::ScheduleRetry(words)
                && words@ == self@.failed_model->0),
            self@.failed_model is None ==> r.1 == (if self@.model_staged && model_swapped {
                ModelFollowUp::Recovered
            } else if !r.0.model_ready && !before.retry_scheduled {
                ModelFollowUp::RetryNow
            } else {
                ModelFollowUp::Leave
            }),
            r.0.retry_scheduled == (if self@.failed_model is Some {
                true
            } else if self@.model_staged && model_swapped {
                false
            } else {
                before.retry_scheduled
            }),
    {
        let mut after = before;
        if self.audio_staged {
            after.audio_ready = audio_swapped;
        }
        let recovered = self.model_staged && model_swapped;
        if recovered {
            after.model_ready = true;
            after.retry_scheduled = false;
        }
        match &self.failed_model {
            Some(error) => {
                after.model_ready = false;
                after.retry_scheduled = true;
                (after, ModelFollowUp::ScheduleRetry(error.clone()))
            },
            None => {
                if recovered {
                    (after, ModelFollowUp::Recovered)
                } else if !after.model_ready && !after.retry_scheduled {
                    (after, ModelFollowUp::RetryNow)
                } else {
                    (after, ModelFollowUp::Leave)
                }
            },
        }
    }
}

/// What the engine has to work with.
#[derive(Debug, Clone, Copy, PartialEq, Eq, Structural)]
pub struct EngineFlags {
    pub audio_ready: bool,
    pub model_ready: bool,
    /// An automatic attempt to prepare the model is scheduled.
    pub retry_scheduled: bool,
}

/// What follows for the model after a commit.
#[derive(Debug, PartialEq, Eq)]
pub enum ModelFollowUp {
    Leave,
    /// A model works; the delays between attempts start over.
    Recovered,
    /// Start the delays over and schedule an attempt; with the words of the
    /// failure.
    ScheduleRetry(String),
    /// Try the accepted model at once.
    RetryNow,
}

/// What is said of a failed model whose settings were accepted.
pub fn accepted_without_model_message(error: &str) -> (r: String)
    ensures
        r@ == "The setting was saved, but the speech model is not ready yet: "@ + error@,
{
    "The setting was saved, but the speech model is not ready yet: ".to_owned().concat(error)
}

/// Is the engine busy, so that settings wait?
pub fn engine_busy(recording: bool, meeting_active: bool, meeting_in_flight: bool) -> (r: bool)
    ensures
        r == (recording || meeting_active || meeting_in_flight),
{
    recording || meeting_active || meeting_in_flight
}

/// What is done with a wish to prepare the accepted model again.
#[derive(Debug, PartialEq, Eq)]
pub enum ReloadAction {
    /// Nothing is to be done.
    Nothing,
    /// Keep the wish for later.
    KeepWish,
    /// Clear out the input and prepare the model.
    Prepare,
    StartWorker,
    /// The model works again.
    Recovered,
    /// Schedule the next attempt; with the words for the failure.
    ScheduleRetry(String),
    Abandon,
    Stop,
}

/// What is left of a wish to prepare the accepted model again once settings are
/// looked for. Settings that are taken up stand in its place: they bring a model,
/// schedule their own attempt, or wish for one again.
pub fn wish_after_settings(wished: bool, taken_up: bool) -> (r: bool)
    ensures
        r == (wished && !taken_up),
{
    wished && !taken_up
}

/// What is done with a wish to prepare the accepted model again.
pub fn reload_begins(wished: bool, busy: bool, model_ready: bool) -> (r: ReloadAction)
    ensures
        r == (if !wished {
            ReloadAction::Nothing
        } else if busy {
            ReloadAction::KeepWish
        } else if model_ready {
            ReloadAction::Nothing
        } else {
            ReloadAction::Prepare
        }),
{
    if !wished {
        ReloadAction::Nothing
    } else if busy {
        ReloadAction::KeepWish
    } else if model_ready {
        ReloadAction::Nothing
    } else {
        ReloadAction::Prepare
    }
}

/// What is done after the accepted model was prepared again, or not.
pub fn reload_prepared(
    prepared: Prepared,
    quit: bool,
    recording: bool,
    shutdown: bool,
    current: bool,
    called_off: bool,
) -> (r: ReloadAction)
    ensures
        if prepared is Cancelled {
            r == (if shutdown {
                ReloadAction::Stop
            } else {
                ReloadAction::Abandon
            })
        } else if quit {
            r is Stop
        } else if recording {
            r is KeepWish
        } else if shutdown {
            r is Stop
        } else if !current || called_off {
            r is Abandon
        } else {
            match prepared {
                Prepared::Failed(error) => r == ReloadAction::ScheduleRetry(error),
                _ => r is StartWorker,
            }
        },
{
    match prepared {
        Prepared::Cancelled => {
            if shutdown {
                return ReloadAction::Stop;
            }
            return ReloadAction::Abandon;
        },
        _ => {},
    }
    if quit {
        return ReloadAction::Stop;
    }
    if recording {
        return ReloadAction::KeepWish;
    }
    if shutdown {
        return ReloadAction::Stop;
    }
    if !current || called_off {
        return ReloadAction::Abandon;
    }
    match prepared {
        Prepared::Failed(error) => ReloadAction::ScheduleRetry(error),
        _ => ReloadAction::StartWorker,
    }
}

/// What is done after the worker for the accepted model was started, or not.
/// `Ok` says whether the engine took the model.
pub fn reload_started(result: Result<bool, String>) -> (r: ReloadAction)
    ensures
        match result {
            Ok(swapped) => r == (if swapped {
                ReloadAction::Recovered
            } else {
                ReloadAction::KeepWish
            }),
            Err(error) => r matches ReloadAction::ScheduleRetry(words) && words@
                == "Could not recover inference: "@ + error@,
        },
{
    match result {
        Ok(swapped) => {
            if swapped {
                ReloadAction::Recovered
            } else {
                ReloadAction::KeepWish
            }
        },
        Err(error) => ReloadAction::ScheduleRetry(
            "Could not recover inference: ".to_owned().concat(&error),
        ),
    }
}

/// Are the settings of a rejected request rolled back? Only while that request
/// is the latest and the shared settings are still its own.
pub fn rolls_back(current: bool, shared_is_rejected: bool) -> (r: bool)
    ensures
        r == (current && shared_is_rejected),
{
    current && shared_is_rejected
}

/// What went wrong with a rollback.
#[derive(Debug, PartialEq, Eq)]
pub enum RollbackTrouble {
    /// The rollback was done.
    Applied {
        /// Why the file could not be restored.
        disk_error: Option<String>,
        /// Why the start-up setting could not be restored, and what the operating
        /// system says it is.
        autostart_error: Option<(String, bool)>,
    },
    /// The rollback could not be done at all.
    Failed(String),
}

/// The words for a rejected request.
pub open spec fn rejection_words(message: Seq<char>, trouble: RollbackTrouble) -> Seq<char> {
    match trouble {
        RollbackTrouble::Applied { disk_error, autostart_error } => message + (match disk_error {
            Some(error) => " VocalCode could not restore the accepted settings on disk: "@ + error@,
            None => Seq::empty(),
        }) + (match autostart_error {
            Some(failure) =>
                " VocalCode also could not restore the accepted startup setting: "@ + failure.0@
                + ". The control was reconciled to the operating-system state ("@ + (
            if failure.1 {
                "enabled"@
            } else {
                "disabled"@
            }) + ")."@,
            None => Seq::empty(),
        }),
        RollbackTrouble::Failed(error) => message
            + " VocalCode also could not restore the accepted settings on disk: "@ + error@,
    }
}

/// The words for a rejected request, with what went wrong in its rollback.
pub fn rejection_message(message: &str, trouble: &RollbackTrouble) -> (r: String)
    ensures
        r@ == rejection_words(message@, *trouble),
{
    let mut out = message.to_owned();
    match trouble {
        RollbackTrouble::Applied { disk_error, autostart_error } => {
            if let Some(error) = disk_error {
                let part =
                    " VocalCode could not restore the accepted settings on disk: ".to_owned(
                ).concat(error);
                out.append(&part);
            } else {
                assert(message@ + Seq::<char>::empty() =~= message@);
            }
            let ghost so_far = out@;
            if let Some(failure) = autostart_error {
                let state = if failure.1 {
                    "enabled"
                } else {
                    "disabled"
                };
                let part =
                    " VocalCode also could not restore the accepted startup setting: ".to_owned(
                ).concat(&failure.0).concat(
                    ". The control was reconciled to the operating-system state (",
                ).concat(state).concat(").");
                out.append(&part);
            } else {
                assert(so_far + Seq::<char>::empty() =~= so_far);
            }
            out
        },
        RollbackTrouble::Failed(error) => out.concat(
            " VocalCode also could not restore the accepted settings on disk: ",
        ).concat(error),
    }
}

} // verus!
