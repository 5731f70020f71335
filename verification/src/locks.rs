//! Waiting for locks without ever passing a deadline, the queue of log
//! writers, and the size of the log. Times are milliseconds of one clock.

use std::collections::BTreeSet;
use vstd::prelude::*;

verus! {

/// How long a document's writer waits for its lock.
pub const DOCUMENT_WRITE_LOCK_TIMEOUT_MS: u64 = 5_000;

/// How long a log writer waits for its lock.
pub const LOG_WRITE_LOCK_TIMEOUT_MS: u64 = 250;

/// How often a lock that somebody else holds is tried again.
pub const FILE_LOCK_POLL_INTERVAL_MS: u64 = 10;

/// The size that the log does not exceed.
pub const LOG_MAX_BYTES: u64 = 2_097_152;

/// The operating system, as far as lock errors differ by it.
#[derive(Debug, Clone, Copy, PartialEq, Eq, Structural)]
pub enum Platform {
    Windows,
    Linux,
    MacOs,
    Other,
}

/// The error code with which the system says that somebody else holds a lock.
pub open spec fn contention_code(platform: Platform) -> Option<i32> {
    match platform {
        Platform::Windows => Some(33),
        Platform::Linux => Some(11),
        Platform::MacOs => Some(35),
        Platform::Other => None,
    }
}

/// Does the error say that somebody else holds the lock?
pub fn file_lock_is_contended(would_block: bool, raw_os_error: Option<i32>, platform: Platform) -> (r:
    bool)
    ensures
        r == (would_block || (raw_os_error is Some && raw_os_error == contention_code(platform))),
{
    if would_block {
        return true;
    }
    match raw_os_error {
        Some(code) => match platform {
            Platform::Windows => code == 33,
            Platform::Linux => code == 11,
            Platform::MacOs => code == 35,
            Platform::Other => false,
        },
        None => false,
    }
}

/// When a wait that begins now ends at the latest, or the words for a wait that has
/// no end.
pub fn file_lock_deadline(now_ms: u64, timeout_ms: u64, description: &str) -> (r: Result<
    u64,
    String,
>)
    ensures
        match r {
            Ok(deadline) => deadline == now_ms + timeout_ms,
            Err(words) => now_ms + timeout_ms > u64::MAX && words@ == description@
                + " timeout is too large"@,
        },
{
    match now_ms.checked_add(timeout_ms) {
        Some(deadline) => Ok(deadline),
        None => Err(description.to_owned().concat(" timeout is too large")),
    }
}

/// What an attempt to lock came to.
#[derive(Debug, Clone, Copy, PartialEq, Eq, Structural)]
pub enum LockAttempt {
    Acquired,
    Contended,
    Failed,
}

/// What to do after an attempt to lock.
#[derive(Debug, Clone, Copy, PartialEq, Eq, Structural)]
pub enum LockStep {
    /// The lock is held in time.
    Proceed,
    /// The lock came too late: release it and give up.
    ReleaseAndTimeOut,
    TimeOut,
    /// Try again after that long.
    RetryAfter(u64),
    /// Hand on the error.
    Fail,
}

/// May another attempt be made?
pub fn may_attempt(now_ms: u64, deadline_ms: u64) -> (r: bool)
    ensures
        r == (now_ms < deadline_ms),
{
    now_ms < deadline_ms
}

/// What to do after an attempt to lock that ended at `now_ms`. A lock that
/// arrives after the deadline is not used, and no wait goes beyond it.
pub fn after_attempt(attempt: LockAttempt, now_ms: u64, deadline_ms: u64) -> (r: LockStep)
    ensures
        match attempt {
            LockAttempt::Acquired => r == (if now_ms < deadline_ms {
                LockStep::Proceed
            } else {
                LockStep::ReleaseAndTimeOut
            }),
            LockAttempt::Failed => r == LockStep::Fail,
            LockAttempt::Contended => if now_ms >= deadline_ms {
                r == LockStep::TimeOut
            } else {
                r == LockStep::RetryAfter(
                    if deadline_ms - now_ms < FILE_LOCK_POLL_INTERVAL_MS {
                        (deadline_ms - now_ms) as u64
                    } else {
                        FILE_LOCK_POLL_INTERVAL_MS
                    },
                )
            },
        },
        r matches LockStep::RetryAfter(wait) ==> 0 < wait && now_ms + wait <= deadline_ms,
{
    match attempt {
        LockAttempt::Acquired => {
            if now_ms >= deadline_ms {
                LockStep::ReleaseAndTimeOut
            } else {
                LockStep::Proceed
            }
        },
        LockAttempt::Failed => LockStep::Fail,
        LockAttempt::Contended => {
            let remaining: u64 = deadline_ms.saturating_sub(now_ms);
            if remaining == 0 {
                LockStep::TimeOut
            } else if remaining < FILE_LOCK_POLL_INTERVAL_MS {
                LockStep::RetryAfter(remaining)
            } else {
                LockStep::RetryAfter(FILE_LOCK_POLL_INTERVAL_MS)
            }
        },
    }
}

/// The words for a wait that ran out.
pub open spec fn timeout_words(description: Seq<char>) -> Seq<char> {
    "timed out waiting for "@ + description
}

/// The words for a wait that ran out.
pub fn file_lock_timeout(description: &str) -> (r: String)
    ensures
        r@ == timeout_words(description@),
{
    "timed out waiting for ".to_owned().concat(description)
}

/// The documents whose writers hold a lock.
#[derive(Debug, Clone, Copy, PartialEq, Eq, Structural)]
pub enum LockedDocument {
    Dictionary,
    Settings,
}

impl LockedDocument {
    /// What the document is called.
    pub open spec fn name(self) -> Seq<char> {
        match self {
            LockedDocument::Dictionary => "dictionary"@,
            LockedDocument::Settings => "settings"@,
        }
    }

    /// What its lock is called.
    pub open spec fn lock_words(self) -> Seq<char> {
        self.name() + " write lock"@
    }

    fn word(self) -> (r: &'static str)
        ensures
            r@ == self.name(),
    {
        match self {
            LockedDocument::Dictionary => "dictionary",
            LockedDocument::Settings => "settings",
        }
    }

    /// The file beside the document that its writers lock.
    pub fn lock_file(self) -> (r: &'static str)
        ensures
            r@ == (match self {
                LockedDocument::Dictionary => ".vocalcode-rules-write.lock"@,
                LockedDocument::Settings => ".vocalcode-config-write.lock"@,
            }),
    {
        match self {
            LockedDocument::Dictionary => ".vocalcode-rules-write.lock",
            LockedDocument::Settings => ".vocalcode-config-write.lock",
        }
    }

    /// What its lock is called.
    pub fn lock_description(self) -> (r: String)
        ensures
            r@ == self.lock_words(),
    {
        self.word().to_owned().concat(" write lock")
    }
}

/// Why the lock of a document is not held.
#[derive(Debug, PartialEq, Eq)]
pub enum WriteLockError {
    /// The wait has no end; with the words for that.
    Endless(String),
    /// The time was over before the first attempt.
    Late,
    /// The path of the document has no directory.
    NoParent(String),
    /// The directory could not be created; with the error.
    NoDirectory(String, String),
    /// The lock file could not be opened.
    NotOpened(String),
    /// Somebody else held the lock to the end of the wait; with the words for that.
    TimedOut(String),
    /// The lock could not be taken at all.
    Failed(String),
}

impl WriteLockError {
    /// The words for the error.
    pub open spec fn words(self, document: LockedDocument) -> Seq<char> {
        let name = document.name();
        match self {
            WriteLockError::Endless(e) => "could not start the "@ + name + " write lock wait: "@
                + e@,
            WriteLockError::Late => name + " write is busy: "@ + timeout_words(
                document.lock_words(),
            ),
            WriteLockError::NoParent(path) => name + " path "@ + path@ + " has no parent"@,
            WriteLockError::NoDirectory(directory, e) => "could not create "@ + name
                + " directory "@ + directory@ + ": "@ + e@,
            WriteLockError::NotOpened(e) => "could not open the "@ + name + " write lock: "@ + e@,
            WriteLockError::TimedOut(e) => name + " write is busy: "@ + e@ + "; try again"@,
            WriteLockError::Failed(e) => match document {
                LockedDocument::Dictionary => "could not lock the dictionary for writing: "@ + e@,
                LockedDocument::Settings => "could not lock settings for writing: "@ + e@,
            },
        }
    }

    /// The words for the error.
    pub fn message(&self, document: LockedDocument) -> (r: String)
        ensures
            r@ == self.words(document),
    {
        let name = document.word();
        match self {
            WriteLockError::Endless(e) => "could not start the ".to_owned().concat(name).concat(
                " write lock wait: ",
            ).concat(e),
            WriteLockError::Late => name.to_owned().concat(" write is busy: ").concat(
                &file_lock_timeout(&document.lock_description()),
            ),
            WriteLockError::NoParent(path) => name.to_owned().concat(" path ").concat(path).concat(
                " has no parent",
            ),
            WriteLockError::NoDirectory(directory, e) => "could not create ".to_owned().concat(
                name,
            ).concat(" directory ").concat(directory).concat(": ").concat(e),
            WriteLockError::NotOpened(e) => "could not open the ".to_owned().concat(name).concat(
                " write lock: ",
            ).concat(e),
            WriteLockError::TimedOut(e) => name.to_owned().concat(" write is busy: ").concat(
                e,
            ).concat("; try again"),
            WriteLockError::Failed(e) => match document {
                LockedDocument::Dictionary =>
                    "could not lock the dictionary for writing: ".to_owned().concat(e),
                LockedDocument::Settings => "could not lock settings for writing: ".to_owned(
                ).concat(e),
            },
        }
    }
}

/// The queue of the log writers of one process: each draws a ticket and writes
/// when its ticket is served, unless it gave up before.
#[derive(Debug)]
pub struct ProcessLogQueue {
    next: u64,
    serving: u64,
    cancelled: BTreeSet<u64>,
}

/// The state of the queue.
pub struct QueueView {
    /// The ticket that is drawn next.
    pub next: u64,
    /// The ticket that is served.
    pub serving: u64,
    /// The tickets of writers that gave up.
    pub cancelled: Set<u64>,
}

impl View for ProcessLogQueue {
    type V = QueueView;

    closed spec fn view(&self) -> QueueView {
        QueueView { next: self.next, serving: self.serving, cancelled: self.cancelled@ }
    }
}

/// What every queue satisfies: only tickets that were drawn and are still
/// waiting can have been given up.
pub open spec fn orderly(q: QueueView) -> bool {
    &&& q.serving <= q.next
    &&& forall|t: u64| q.cancelled.contains(t) ==> q.serving < t < q.next
}

/// The first ticket from `t` on whose writer did not give up.
pub open spec fn next_waiting(q: QueueView, t: u64) -> u64
    decreases u64::MAX - t,
{
    if q.cancelled.contains(t) && t < u64::MAX {
        next_waiting(q, (t + 1) as u64)
    } else {
        t
    }
}

impl ProcessLogQueue {
    /// A queue without writers.
    pub fn new() -> (r: Self)
        ensures
            r@.next == 0,
            r@.serving == 0,
            r@.cancelled == Set::<u64>::empty(),
            orderly(r@),
    {
        ProcessLogQueue { next: 0, serving: 0, cancelled: BTreeSet::new() }
    }

    /// Draws a ticket; none are left after the last number.
    pub fn draw(&mut self) -> (r: Option<u64>)
        ensures
            old(self)@.next < u64::MAX ==> r == Some(old(self)@.next) && final(self)@ == (QueueView {
                next: (old(self)@.next + 1) as u64,
                ..old(self)@
            }),
            old(self)@.next == u64::MAX ==> r is None && final(self)@ == old(self)@,
            orderly(old(self)@) ==> orderly(final(self)@),
    {
        let ticket: u64 = self.next;
        match ticket.checked_add(1) {
            Some(next) => {
                self.next = next;
                Some(ticket)
            },
            None => None,
        }
    }

    /// Is the ticket served?
    pub fn is_served(&self, ticket: u64) -> (r: bool)
        ensures
            r == (self@.serving == ticket),
    {
        self.serving == ticket
    }

    /// The writer with that ticket, which is waiting, gives up.
    pub fn give_up(&mut self, ticket: u64)
        requires
            old(self)@.serving < ticket < old(self)@.next,
        ensures
            final(self)@ == (QueueView {
                cancelled: old(self)@.cancelled.insert(ticket),
                ..old(self)@
            }),
            orderly(old(self)@) ==> orderly(final(self)@),
    {
        self.cancelled.insert(ticket);
    }

    /// The writer that is served has finished: the next one that still waits is
    /// served.
    pub fn release(&mut self)
        requires
            orderly(old(self)@),
            old(self)@.serving < old(self)@.next,
        ensures
            final(self)@.serving == next_waiting(
                old(self)@,
                (old(self)@.serving + 1) as u64,
            ),
            final(self)@.serving > old(self)@.serving,
            !old(self)@.cancelled.contains(final(self)@.serving),
            forall|t: u64|
                old(self)@.serving < t < final(self)@.serving ==> old(self)@.cancelled.contains(t),
            final(self)@.next == old(self)@.next,
            forall|t: u64|
                #![trigger final(self)@.cancelled.contains(t)]
                final(self)@.cancelled.contains(t) <==> old(self)@.cancelled.contains(t) && t
                    > final(self)@.serving,
            orderly(final(self)@),
    {
        let ghost start = self@;
        let next: u64 = self.serving + 1;
        self.serving = next;
        let mut more = self.cancelled.remove(&next);
        while more
            invariant
                start.serving < self.serving,
                orderly(start),
                self.next == start.next,
                self.serving <= self.next,
                start.serving < start.next,
                next_waiting(start, (start.serving + 1) as u64) == next_waiting(
                    start,
                    self.serving,
                ),
                forall|t: u64| start.serving < t < self.serving ==> start.cancelled.contains(t),
                more == start.cancelled.contains(self.serving),
                forall|t: u64|
                    #![trigger self.cancelled@.contains(t)]
                    #![trigger start.cancelled.contains(t)]
                    self.cancelled@.contains(t) <==> start.cancelled.contains(t) && t
                        > self.serving,
            decreases u64::MAX - self.serving,
        {
            let ghost before = self.cancelled@;
            let next: u64 = self.serving + 1;
            self.serving = next;
            more = self.cancelled.remove(&next);
            assert(self.cancelled@ == before.remove(next));
        }
    }
}

/// A ticket that was not given up is served in its turn: a release never passes
/// over one that still waits.
pub proof fn no_waiting_writer_is_passed_over(q: QueueView, ticket: u64)
    requires
        orderly(q),
        q.serving < ticket < q.next,
        !q.cancelled.contains(ticket),
    ensures
        next_waiting(q, (q.serving + 1) as u64) <= ticket,
{
    next_waiting_stops(q, (q.serving + 1) as u64, ticket);
}

proof fn next_waiting_stops(q: QueueView, t: u64, ticket: u64)
    requires
        t <= ticket,
        !q.cancelled.contains(ticket),
    ensures
        t <= next_waiting(q, t) <= ticket,
    decreases ticket - t,
{
    if t < ticket && q.cancelled.contains(t) {
        next_waiting_stops(q, (t + 1) as u64, ticket);
    }
}

/// How a log record is written.
#[derive(Debug, Clone, Copy, PartialEq, Eq, Structural)]
pub struct AppendPlan {
    /// Keep the log as the previous one and begin a new one.
    pub rotate: bool,
    /// How many bytes of the record are written.
    pub take: usize,
}

/// The size of the log after a record was written by the plan.
pub open spec fn size_after(plan: AppendPlan, current: u64) -> int {
    if plan.rotate {
        plan.take as int
    } else {
        current + plan.take
    }
}

/// How a record is written to a log of the size `current`: no more of it than
/// fits into a log, and into a new log where it does not fit into this one.
pub fn plan_append(current: u64, record_len: usize, max_bytes: u64) -> (r: AppendPlan)
    ensures
        r.take == (if record_len <= max_bytes {
            record_len as int
        } else {
            max_bytes as int
        }),
        r.rotate <==> max_bytes < u64::MAX && current + r.take > max_bytes,
        max_bytes < u64::MAX ==> size_after(r, current) <= max_bytes,
{
    let take: usize = if record_len as u64 <= max_bytes {
        record_len
    } else {
        max_bytes as usize
    };
    let rotate = current > max_bytes || current.saturating_add(take as u64) > max_bytes;
    AppendPlan { rotate, take }
}

/// A log file that stops writing at its first failure.
#[derive(Debug)]
pub struct LogFileSink {
    pub max_bytes: u64,
    pub enabled: bool,
}

impl LogFileSink {
    /// A log of that size that is written to.
    pub fn new(max_bytes: u64) -> (r: Self)
        ensures
            r.max_bytes == max_bytes,
            r.enabled,
    {
        LogFileSink { max_bytes, enabled: true }
    }

    /// How to write a record, where the log is written to at all.
    pub fn append(&self, current: u64, record_len: usize) -> (r: Option<AppendPlan>)
        ensures
            r is Some == self.enabled,
            r is Some && self.max_bytes < u64::MAX ==> size_after(r->0, current) <= self.max_bytes,
            r is Some ==> r->0.take == (if record_len <= self.max_bytes {
                record_len as int
            } else {
                self.max_bytes as int
            }),
            r is Some ==> (r->0.rotate <==> self.max_bytes < u64::MAX && current + r->0.take
                > self.max_bytes),
    {
        if self.enabled {
            Some(plan_append(current, record_len, self.max_bytes))
        } else {
            None
        }
    }

    /// A record could not be written: nothing is written any more.
    pub fn failed(&mut self)
        ensures
            !final(self).enabled,
            final(self).max_bytes == old(self).max_bytes,
    {
        self.enabled = false;
    }
}

} // verus!
