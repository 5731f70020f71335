//! Recognition of what a meeting records. Recording never waits for the speech
//! engine: one piece of speech is with it at a time, a bounded number waits, and
//! the first failure decides how the recording ends.

use crate::live::{Draft, CHECKPOINT_MS, MAX_PENDING_SEGMENTS};
use crate::reminder::optional_text;
use vstd::prelude::*;

verus! {

/// What the engine said about the piece that it has.
#[derive(Debug)]
pub enum Reply {
    Waiting,
    Text(String),
    Failed(String),
    Gone,
}

/// What follows from it.
#[derive(Debug)]
pub enum AfterReply<S> {
    /// The engine is still at work: nothing else is sent.
    Wait,
    /// The text is saved; the next piece may follow.
    Save { draft: Draft<S>, text: String },
    /// The recording ends with this failure.
    Fail(String),
}

/// What became of a piece that was offered to the engine.
#[derive(Debug)]
pub enum Offer<S> {
    Sent(Draft<S>),
    Full(Draft<S>),
    Stopped,
}

/// The speech that waits for recognition, and the piece that the engine has.
#[derive(Debug)]
pub struct LiveTranscription<S> {
    queued: Vec<Draft<S>>,
    pending: Option<Draft<S>>,
}

/// What is said where recognition falls behind.
pub open spec fn overflow_text() -> Seq<char> {
    "The speech model could not keep up with meeting audio; recording stopped and audio was retained locally."@
}

impl<S> LiveTranscription<S> {
    /// What waits.
    pub closed spec fn waiting(&self) -> Seq<Draft<S>> {
        self.queued@
    }

    /// What the engine has.
    pub closed spec fn sent(&self) -> Option<Draft<S>> {
        self.pending
    }

    /// All that is not recognised yet, in the order in which it will be.
    pub open spec fn work(&self) -> Seq<Draft<S>> {
        match self.sent() {
            Some(draft) => seq![draft] + self.waiting(),
            None => self.waiting(),
        }
    }

    /// No more waits than may.
    pub open spec fn bounded(&self) -> bool {
        self.work().len() <= MAX_PENDING_SEGMENTS
    }

    /// Nothing waits yet.
    pub fn new() -> (r: Self)
        ensures
            r.waiting() == Seq::<Draft<S>>::empty(),
            r.sent() is None,
            r.bounded(),
    {
        LiveTranscription { queued: Vec::new(), pending: None }
    }

    /// Is everything recognised?
    pub fn is_empty(&self) -> (r: bool)
        ensures
            r == (self.work().len() == 0),
    {
        self.queued.len() == 0 && self.pending.is_none()
    }

    /// Has the engine a piece?
    pub fn is_pending(&self) -> (r: bool)
        ensures
            r == self.sent() is Some,
    {
        self.pending.is_some()
    }

    /// Lets further speech wait. Where that would be too much, none of it does.
    pub fn enqueue(&mut self, drafts: Vec<Draft<S>>) -> (r: Result<(), &'static str>)
        requires
            old(self).bounded(),
        ensures
            final(self).bounded(),
            final(self).sent() == old(self).sent(),
            match r {
                Ok(_) => {
                    &&& old(self).work().len() + drafts@.len() <= MAX_PENDING_SEGMENTS
                    &&& final(self).waiting() == old(self).waiting() + drafts@
                },
                Err(e) => {
                    &&& old(self).work().len() + drafts@.len() > MAX_PENDING_SEGMENTS
                    &&& final(self).waiting() == old(self).waiting()
                    &&& e@ == overflow_text()
                },
            },
    {
        let mut used: usize = self.queued.len();
        if self.pending.is_some() {
            used += 1;
        }
        if drafts.len() > MAX_PENDING_SEGMENTS - used {
            return Err(
                "The speech model could not keep up with meeting audio; recording stopped and audio was retained locally.",
            );
        }
        let mut further = drafts;
        self.queued.append(&mut further);
        Ok(())
    }

    /// The engine was asked about the piece that it has.
    pub fn after_reply(&mut self, reply: Reply) -> (r: AfterReply<S>)
        requires
            old(self).bounded(),
            old(self).sent() is Some,
        ensures
            final(self).bounded(),
            final(self).waiting() == old(self).waiting(),
            match reply {
                Reply::Waiting => r is Wait && final(self).sent() == old(self).sent(),
                Reply::Text(said) => {
                    &&& final(self).sent() is None
                    &&& r matches AfterReply::Save { draft, text }
                    &&& Some(draft) == old(self).sent()
                    &&& text == said
                },
                Reply::Failed(error) => {
                    &&& final(self).sent() is None
                    &&& r matches AfterReply::Fail(e)
                    &&& e == error
                },
                Reply::Gone => {
                    &&& final(self).sent() == old(self).sent()
                    &&& r matches AfterReply::Fail(e)
                    &&& e@ == "The speech engine dropped the meeting segment."@
                },
            },
    {
        match reply {
            Reply::Waiting => AfterReply::Wait,
            Reply::Gone => AfterReply::Fail(
                "The speech engine dropped the meeting segment.".to_owned(),
            ),
            Reply::Failed(error) => {
                self.pending = None;
                AfterReply::Fail(error)
            },
            Reply::Text(text) => {
                match self.pending.take() {
                    Some(draft) => AfterReply::Save { draft, text },
                    None => AfterReply::Wait,
                }
            },
        }
    }

    /// The next piece for the engine, where there is one.
    pub fn take_next(&mut self) -> (r: Option<Draft<S>>)
        requires
            old(self).bounded(),
            old(self).sent() is None,
        ensures
            final(self).bounded(),
            final(self).sent() is None,
            match r {
                Some(draft) => old(self).waiting() == seq![draft] + final(self).waiting(),
                None => {
                    &&& old(self).waiting().len() == 0
                    &&& final(self).waiting() == old(self).waiting()
                },
            },
    {
        if self.queued.len() == 0 {
            None
        } else {
            let draft = self.queued.remove(0);
            assert(old(self).queued@ =~= seq![draft] + self.queued@);
            Some(draft)
        }
    }

    /// The piece was offered to the engine. Says whether the engine has it now; one
    /// that it had no room for is the next one again.
    pub fn after_offer(&mut self, offer: Offer<S>) -> (r: Result<bool, &'static str>)
        requires
            old(self).waiting().len() < MAX_PENDING_SEGMENTS,
            old(self).sent() is None,
        ensures
            final(self).bounded(),
            match offer {
                Offer::Sent(draft) => {
                    &&& r == Ok::<bool, &'static str>(true)
                    &&& final(self).sent() == Some(draft)
                    &&& final(self).waiting() == old(self).waiting()
                },
                Offer::Full(draft) => {
                    &&& r == Ok::<bool, &'static str>(false)
                    &&& final(self).sent() is None
                    &&& final(self).waiting() == seq![draft] + old(self).waiting()
                },
                Offer::Stopped => {
                    &&& r is Err
                    &&& r->Err_0@ == "The speech engine stopped."@
                    &&& final(self).sent() is None
                    &&& final(self).waiting() == old(self).waiting()
                },
            },
    {
        match offer {
            Offer::Sent(draft) => {
                self.pending = Some(draft);
                Ok(true)
            },
            Offer::Full(draft) => {
                self.queued.insert(0, draft);
                assert(self.queued@ =~= seq![draft] + old(self).queued@);
                Ok(false)
            },
            Offer::Stopped => Err("The speech engine stopped."),
        }
    }
}

/// What became of an attempt to hand speech over.
#[derive(Debug, Clone, Copy, PartialEq, Eq, Structural)]
pub enum Attempt {
    Accepted,
    Full,
    Disconnected,
}

/// How an import goes on after such an attempt.
#[derive(Debug, Clone, Copy)]
pub enum AttemptStep {
    AwaitReply,
    RetryAfterMs(u64),
    Fail(&'static str),
}

/// What came back while an import waited.
#[derive(Debug)]
pub enum Waited {
    Answer(Result<String, String>),
    Timeout,
    Disconnected,
}

/// How an import goes on after that.
#[derive(Debug)]
pub enum WaitStep {
    Done(Result<String, String>),
    KeepWaiting,
}

/// Is the import cancelled before speech is handed over?
pub fn before_attempt(stopped: bool) -> (r: Result<(), &'static str>)
    ensures
        match r {
            Ok(_) => !stopped,
            Err(e) => stopped && e@ == "Meeting import cancelled."@,
        },
{
    if stopped {
        Err("Meeting import cancelled.")
    } else {
        Ok(())
    }
}

/// The speech was handed over, or not.
pub fn after_attempt(attempt: Attempt) -> (r: AttemptStep)
    ensures
        match attempt {
            Attempt::Accepted => r is AwaitReply,
            Attempt::Full => r == AttemptStep::RetryAfterMs(10),
            Attempt::Disconnected => r matches AttemptStep::Fail(e) && e@
                == "The speech engine stopped."@,
        },
{
    match attempt {
        Attempt::Accepted => AttemptStep::AwaitReply,
        Attempt::Full => AttemptStep::RetryAfterMs(10),
        Attempt::Disconnected => AttemptStep::Fail("The speech engine stopped."),
    }
}

/// The import waited for the text. An answer counts even where it was stopped
/// meanwhile; while there is none, it can be cancelled.
pub fn after_wait(waited: Waited, stopped: bool) -> (r: WaitStep)
    ensures
        match waited {
            Waited::Answer(answer) => r == WaitStep::Done(answer),
            Waited::Timeout => if stopped {
                r matches WaitStep::Done(Err(e)) && e@ == "Meeting import cancelled."@
            } else {
                r is KeepWaiting
            },
            Waited::Disconnected => r matches WaitStep::Done(Err(e)) && e@
                == "The speech engine dropped the meeting segment."@,
        },
{
    match waited {
        Waited::Answer(answer) => WaitStep::Done(answer),
        Waited::Timeout => {
            if stopped {
                WaitStep::Done(Err("Meeting import cancelled.".to_owned()))
            } else {
                WaitStep::KeepWaiting
            }
        },
        Waited::Disconnected => WaitStep::Done(
            Err("The speech engine dropped the meeting segment.".to_owned()),
        ),
    }
}

/// Why a recording ended by itself.
#[derive(Debug, Clone, Copy, PartialEq, Eq, Structural)]
pub enum AutoEnding {
    Confirmed,
    Silence,
}

impl AutoEnding {
    /// As the record says it.
    pub fn reason(&self) -> (r: &'static str)
        ensures
            r@ == (match *self {
                AutoEnding::Confirmed => "auto_end_confirmed"@,
                AutoEnding::Silence => "silence_auto_end"@,
            }),
    {
        match self {
            AutoEnding::Confirmed => "auto_end_confirmed",
            AutoEnding::Silence => "silence_auto_end",
        }
    }
}

/// Does the recording end by itself? A click that confirms it decides; silence
/// does only where it was due, still is after the other clicks, and no word has
/// begun in the unfinished second.
pub fn auto_ending(confirmed: bool, due: bool, still_due: bool) -> (r: Option<AutoEnding>)
    ensures
        r == (if confirmed {
            Some(AutoEnding::Confirmed)
        } else if due && still_due {
            Some(AutoEnding::Silence)
        } else {
            None
        }),
{
    if confirmed {
        Some(AutoEnding::Confirmed)
    } else if due && still_due {
        Some(AutoEnding::Silence)
    } else {
        None
    }
}

/// How one round of a recording begins.
#[derive(Debug, Clone, Copy, PartialEq, Eq, Structural)]
pub enum RoundStart {
    /// The recording ends by itself, for that reason.
    EndsBy(AutoEnding),
    /// The recording ends because a device failed.
    EndsFailed,
    /// Speech is recognised next.
    Recognise,
}

/// What the recording received.
#[derive(Debug)]
pub enum Received {
    /// A block, and whether its speech could wait.
    Block(Result<(), String>),
    Timeout,
    Disconnected,
}

/// How the recording goes on.
#[derive(Debug, Clone, Copy, PartialEq, Eq, Structural)]
pub enum LiveStep {
    /// The block is in; save the recording too where `checkpoint` says so.
    Applied { checkpoint: bool },
    Continue,
    End,
}

/// How the rest of the speech is recognised once the devices are off.
#[derive(Debug, Clone, Copy, PartialEq, Eq, Structural)]
pub enum DrainStep {
    Done,
    Recognise,
}

/// A recording: its first failure, and when it was last saved.
#[derive(Debug)]
pub struct LiveRun {
    failure: Option<String>,
    checkpoint_ms: u64,
}

/// What is said where the program closes first.
pub open spec fn closing_text() -> Seq<char> {
    "VocalCode is closing before the remaining speech finished transcribing"@
}

/// The first failure stays.
pub open spec fn first_failure(known: Option<Seq<char>>, further: Option<Seq<char>>) -> Option<
    Seq<char>,
> {
    if known is Some {
        known
    } else {
        further
    }
}

impl LiveRun {
    /// The failure, where there is one.
    pub closed spec fn failed(&self) -> Option<Seq<char>> {
        optional_text(self.failure)
    }

    /// When the recording was last saved.
    pub closed spec fn saved_at(&self) -> u64 {
        self.checkpoint_ms
    }

    /// A recording that has just begun.
    pub fn new(now_ms: u64) -> (r: Self)
        ensures
            r.failed() is None,
            r.saved_at() == now_ms,
    {
        LiveRun { failure: None, checkpoint_ms: now_ms }
    }

    /// Takes a failure down, unless there was one before.
    pub fn note(&mut self, error: Option<String>)
        ensures
            final(self).failed() == first_failure(old(self).failed(), optional_text(error)),
            final(self).saved_at() == old(self).saved_at(),
    {
        if self.failure.is_none() {
            self.failure = error;
        }
    }

    /// A round begins. A recording that ends by itself does so whatever the devices
    /// say, but their failure is taken down all the same; after either ending nothing
    /// more is recognised in the round.
    pub fn begin_round(&mut self, ending: Option<AutoEnding>, device_error: Option<String>) -> (r:
        RoundStart)
        ensures
            final(self).saved_at() == old(self).saved_at(),
            final(self).failed() == first_failure(old(self).failed(), optional_text(device_error)),
            r == (match ending {
                Some(reason) => RoundStart::EndsBy(reason),
                None => if device_error is Some {
                    RoundStart::EndsFailed
                } else {
                    RoundStart::Recognise
                },
            }),
    {
        let broken = device_error.is_some();
        self.note(device_error);
        match ending {
            Some(reason) => RoundStart::EndsBy(reason),
            None => {
                if broken {
                    RoundStart::EndsFailed
                } else {
                    RoundStart::Recognise
                }
            },
        }
    }

    /// Speech was recognised, or that failed: then the recording ends.
    pub fn recognised(&mut self, result: Result<(), String>) -> (r: LiveStep)
        ensures
            final(self).saved_at() == old(self).saved_at(),
            match result {
                Ok(_) => r == LiveStep::Continue && final(self).failed() == old(self).failed(),
                Err(error) => r == LiveStep::End && final(self).failed() == first_failure(
                    old(self).failed(),
                    Some(error@),
                ),
            },
    {
        match result {
            Ok(_) => LiveStep::Continue,
            Err(error) => {
                self.note(Some(error));
                LiveStep::End
            },
        }
    }

    /// May speech still wait for recognition? After a failure the audio is only
    /// kept.
    pub fn may_recognise(&self) -> (r: bool)
        ensures
            r == self.failed() is None,
    {
        self.failure.is_none()
    }

    /// The recording received something, or waited in vain.
    pub fn received(&mut self, received: Received, now_ms: u64) -> (r: LiveStep)
        ensures
            match received {
                Received::Block(Ok(_)) => {
                    let due = now_ms - old(self).saved_at() >= CHECKPOINT_MS;
                    &&& r == LiveStep::Applied { checkpoint: due }
                    &&& final(self).failed() == old(self).failed()
                    &&& final(self).saved_at() == (if due {
                        now_ms
                    } else {
                        old(self).saved_at()
                    })
                },
                Received::Block(Err(error)) => {
                    &&& r == LiveStep::End
                    &&& final(self).failed() == first_failure(old(self).failed(), Some(error@))
                    &&& final(self).saved_at() == old(self).saved_at()
                },
                Received::Timeout => r == LiveStep::Continue && *final(self) == *old(self),
                Received::Disconnected => r == LiveStep::End && *final(self) == *old(self),
            },
    {
        match received {
            Received::Block(Ok(_)) => {
                let checkpoint = now_ms.saturating_sub(self.checkpoint_ms) >= CHECKPOINT_MS;
                if checkpoint {
                    self.checkpoint_ms = now_ms;
                }
                LiveStep::Applied { checkpoint }
            },
            Received::Block(Err(error)) => {
                self.note(Some(error));
                LiveStep::End
            },
            Received::Timeout => LiveStep::Continue,
            Received::Disconnected => LiveStep::End,
        }
    }

    /// The devices are off: is there more to recognise? A program that closes does
    /// not wait for it, and says so.
    pub fn drain(&mut self, all_recognised: bool, shutting_down: bool) -> (r: DrainStep)
        ensures
            final(self).saved_at() == old(self).saved_at(),
            if old(self).failed() is Some || all_recognised {
                r == DrainStep::Done && final(self).failed() == old(self).failed()
            } else if shutting_down {
                r == DrainStep::Done && final(self).failed() == Some(closing_text())
            } else {
                r == DrainStep::Recognise && final(self).failed() == old(self).failed()
            },
    {
        if self.failure.is_some() || all_recognised {
            return DrainStep::Done;
        }
        if shutting_down {
            self.failure =
            Some(
                "VocalCode is closing before the remaining speech finished transcribing".to_owned(),
            );
            return DrainStep::Done;
        }
        DrainStep::Recognise
    }

    /// The failure that the recording ends with.
    pub fn into_failure(self) -> (r: Option<String>)
        ensures
            optional_text(r) == self.failed(),
    {
        self.failure
    }
}

/// Speech is never lost on its way: a piece that was taken and then offered is
/// still the first of all that is not recognised, whether the engine has it or had
/// no room for it.
pub proof fn offered_speech_stays_first<S>(
    before: LiveTranscription<S>,
    taken: LiveTranscription<S>,
    after: LiveTranscription<S>,
    draft: Draft<S>,
)
    requires
        before.sent() is None,
        before.waiting() == seq![draft] + taken.waiting(),
        (after.sent() == Some(draft) && after.waiting() == taken.waiting()) || (after.sent() is None
            && after.waiting() == seq![draft] + taken.waiting()),
    ensures
        after.work() == before.work(),
{
}

/// The first failure decides: whatever else goes wrong later, it is the one that
/// the recording ends with.
pub proof fn the_first_failure_decides(
    first: Seq<char>,
    second: Option<Seq<char>>,
    third: Option<Seq<char>>,
)
    ensures
        first_failure(first_failure(first_failure(None, Some(first)), second), third) == Some(
            first,
        ),
{
}

} // verus!
