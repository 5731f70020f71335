//! When the engine's periodic work is due. Times are milliseconds of one clock
//! that never runs backwards.

use vstd::prelude::*;

verus! {

/// How long a meeting segment waits for dictation input before it is decoded.
pub const MEETING_ASR_INPUT_GRACE_MS: u64 = 30;

/// How often the engine looks after its devices.
pub const RUNTIME_MAINTENANCE_INTERVAL_MS: u64 = 450;

/// How often a running dictation is polled for partial results.
pub const DICTATION_POLL_INTERVAL_MS: u64 = 80;

/// How often a microphone that failed is opened again.
pub const AUDIO_RETRY_INTERVAL_MS: u64 = 3_000;

/// How long the input listener waits after its first failure.
pub const HOTKEY_RETRY_MIN_MS: u64 = 250;

/// How long the input listener waits at most.
pub const HOTKEY_RETRY_MAX_MS: u64 = 30_000;

/// After how long without a failure the input listener counts as healthy.
pub const HOTKEY_HEALTHY_MS: u64 = 30_000;

/// How long a wait that can be called off sleeps at a time.
pub const WAIT_SLICE_MS: u64 = 100;

/// The slice of a longer pause that the end of the program calls off.
pub const PAUSE_SLICE_MS: u64 = 50;

/// May a meeting segment be decoded? Dictation always comes first.
pub fn meeting_asr_may_run(recording: bool, input_pending: bool, queued_for_ms: u64) -> (r: bool)
    ensures
        r == (!recording && !input_pending && queued_for_ms >= MEETING_ASR_INPUT_GRACE_MS),
{
    !recording && !input_pending && queued_for_ms >= MEETING_ASR_INPUT_GRACE_MS
}

/// The clock of the engine's maintenance.
#[derive(Debug)]
pub struct MaintenanceClock {
    next_ms: u64,
}

impl View for MaintenanceClock {
    type V = u64;

    closed spec fn view(&self) -> u64 {
        self.next_ms
    }
}

impl MaintenanceClock {
    /// The first maintenance is due one interval from now.
    pub fn new(now_ms: u64) -> (r: Self)
        requires
            now_ms + RUNTIME_MAINTENANCE_INTERVAL_MS <= u64::MAX,
        ensures
            r@ == now_ms + RUNTIME_MAINTENANCE_INTERVAL_MS,
    {
        MaintenanceClock { next_ms: now_ms + RUNTIME_MAINTENANCE_INTERVAL_MS }
    }

    /// How long until the next maintenance.
    pub fn wait(&self, now_ms: u64) -> (r: u64)
        ensures
            r == (if now_ms < self@ {
                self@ - now_ms
            } else {
                0
            }),
    {
        self.next_ms.saturating_sub(now_ms)
    }

    /// Is maintenance due? If so, the next one is due one interval from now,
    /// however late this one is.
    pub fn take_due(&mut self, now_ms: u64) -> (r: bool)
        requires
            now_ms + RUNTIME_MAINTENANCE_INTERVAL_MS <= u64::MAX,
        ensures
            r == (now_ms >= old(self)@),
            final(self)@ == (if r {
                now_ms + RUNTIME_MAINTENANCE_INTERVAL_MS
            } else {
                old(self)@ as int
            }),
    {
        if now_ms < self.next_ms {
            return false;
        }
        self.next_ms = now_ms + RUNTIME_MAINTENANCE_INTERVAL_MS;
        true
    }
}

/// How long to wait after so many failed model preparations in a row.
pub open spec fn model_delay(failures: int) -> u64 {
    if failures <= 0 {
        30_000
    } else if failures == 1 {
        60_000
    } else if failures == 2 {
        120_000
    } else if failures == 3 {
        300_000
    } else {
        600_000
    }
}

/// A count that stays at the largest number once it is reached.
pub open spec fn next_count(n: usize) -> usize {
    if n == usize::MAX {
        usize::MAX
    } else {
        (n + 1) as usize
    }
}

/// The model preparations that failed in a row.
#[derive(Debug, Clone, Copy, PartialEq, Eq, Structural)]
pub struct ModelRetryBackoff {
    pub failures: usize,
    /// Bytes on disk when the previous failure was scheduled.
    pub downloaded: Option<u64>,
}

impl Default for ModelRetryBackoff {
    fn default() -> (r: Self)
        ensures
            r == (ModelRetryBackoff { failures: 0, downloaded: None }),
    {
        ModelRetryBackoff { failures: 0, downloaded: None }
    }
}

/// The attempt moved the download forward.
pub open spec fn moved_forward(before: Option<u64>, after: Option<u64>) -> bool {
    before is Some && after is Some && after->0 > before->0
}

impl ModelRetryBackoff {
    /// When the next attempt is due: soon at first, then more and more seldom,
    /// but at least every ten minutes.
    pub fn next_deadline(&mut self, now_ms: u64) -> (r: u64)
        requires
            now_ms + 600_000 <= u64::MAX,
        ensures
            r == now_ms + model_delay(old(self).failures as int),
            *final(self) == (ModelRetryBackoff {
                failures: next_count(old(self).failures),
                ..*old(self)
            }),
    {
        let delay: u64 = match self.failures {
            0 => 30_000,
            1 => 60_000,
            2 => 120_000,
            3 => 300_000,
            _ => 600_000,
        };
        self.failures = self.failures.saturating_add(1);
        now_ms + delay
    }

    /// When the next attempt is due, given how much is on disk by now. An
    /// attempt that moved the download forward starts the delays over.
    pub fn next_deadline_after(&mut self, now_ms: u64, downloaded: Option<u64>) -> (r: u64)
        requires
            now_ms + 600_000 <= u64::MAX,
        ensures
            ({
                let failures = if moved_forward(old(self).downloaded, downloaded) {
                    0
                } else {
                    old(self).failures
                };
                &&& r == now_ms + model_delay(failures as int)
                &&& *final(self) == (ModelRetryBackoff {
                    failures: next_count(failures),
                    downloaded,
                })
            }),
    {
        if let Some(before) = self.downloaded {
            if let Some(after) = downloaded {
                if after > before {
                    self.failures = 0;
                }
            }
        }
        self.downloaded = downloaded;
        self.next_deadline(now_ms)
    }

    /// Starts the delays over.
    pub fn reset(&mut self)
        ensures
            *final(self) == (ModelRetryBackoff { failures: 0, downloaded: None }),
    {
        self.failures = 0;
        self.downloaded = None;
    }
}

/// The delays never shrink while failures go on, and never exceed ten minutes.
pub proof fn model_delays_grow_to_a_cap(a: int, b: int)
    requires
        0 <= a <= b,
    ensures
        30_000 <= model_delay(a) <= model_delay(b) <= 600_000,
{
}

/// The pauses of the input listener between its attempts.
#[derive(Debug)]
pub struct HotkeySupervisor {
    delay_ms: u64,
}

impl View for HotkeySupervisor {
    type V = u64;

    closed spec fn view(&self) -> u64 {
        self.delay_ms
    }
}

/// What the supervisor of the input listener does next.
#[derive(Debug, Clone, Copy, PartialEq, Eq, Structural)]
pub enum SupervisorStep {
    Exit,
    /// Start the listener again after that long.
    RetryAfter(u64),
}

impl HotkeySupervisor {
    pub fn new() -> (r: Self)
        ensures
            r@ == HOTKEY_RETRY_MIN_MS,
    {
        HotkeySupervisor { delay_ms: HOTKEY_RETRY_MIN_MS }
    }

    /// The listener has stopped after `ran_for_ms`. Where the application does
    /// not end and the engine still listens, the listener is started again,
    /// after a pause that grows with failures in quick succession.
    pub fn after_stop(&mut self, shutdown: bool, engine_listens: bool, ran_for_ms: u64) -> (r:
        SupervisorStep)
        ensures
            shutdown || !engine_listens ==> r == SupervisorStep::Exit && final(self)@ == old(
                self,
            )@,
            !shutdown && engine_listens ==> {
                &&& final(self)@ == (if ran_for_ms >= HOTKEY_HEALTHY_MS {
                    HOTKEY_RETRY_MIN_MS
                } else {
                    old(self)@
                })
                &&& r == SupervisorStep::RetryAfter(final(self)@)
            },
    {
        if shutdown || !engine_listens {
            return SupervisorStep::Exit;
        }
        if ran_for_ms >= HOTKEY_HEALTHY_MS {
            self.delay_ms = HOTKEY_RETRY_MIN_MS;
        }
        SupervisorStep::RetryAfter(self.delay_ms)
    }

    /// The pause is over: is the listener started again? The next pause is twice
    /// as long, up to the longest.
    pub fn after_pause(&mut self, shutdown: bool) -> (r: bool)
        requires
            old(self)@ <= HOTKEY_RETRY_MAX_MS,
        ensures
            r == !shutdown,
            final(self)@ == (if shutdown {
                old(self)@ as int
            } else if 2 * old(self)@ < HOTKEY_RETRY_MAX_MS {
                2 * old(self)@
            } else {
                HOTKEY_RETRY_MAX_MS as int
            }),
            final(self)@ <= HOTKEY_RETRY_MAX_MS,
    {
        if shutdown {
            return false;
        }
        let doubled: u64 = self.delay_ms * 2;
        self.delay_ms = if doubled < HOTKEY_RETRY_MAX_MS {
            doubled
        } else {
            HOTKEY_RETRY_MAX_MS
        };
        true
    }
}

/// How long to sleep on the way to a deadline that can be called off, or
/// nothing where it has passed. Between two looks at whether it was called off at
/// most one slice is slept.
pub fn pause_slice(now_ms: u64, deadline_ms: u64, slice_ms: u64) -> (r: Option<u64>)
    ensures
        r is None <==> now_ms >= deadline_ms,
        r is Some ==> r->0 == (if deadline_ms - now_ms < slice_ms {
            deadline_ms - now_ms
        } else {
            slice_ms as int
        }),
{
    if now_ms >= deadline_ms {
        return None;
    }
    let remaining: u64 = deadline_ms - now_ms;
    if remaining < slice_ms {
        Some(remaining)
    } else {
        Some(slice_ms)
    }
}

/// The smaller of two times.
fn shorter(a: u64, b: u64) -> (r: u64)
    ensures
        r == (if a < b {
            a
        } else {
            b
        }),
{
    if a < b {
        a
    } else {
        b
    }
}

/// The smaller of two times.
pub open spec fn lesser(a: int, b: int) -> int {
    if a < b {
        a
    } else {
        b
    }
}

/// What is left of an interval.
pub open spec fn left_of(interval: u64, elapsed: u64) -> int {
    if elapsed < interval {
        interval - elapsed
    } else {
        0
    }
}

/// How long the engine waits for input: until its maintenance, the next poll of
/// a running dictation or the end of the grace of a waiting meeting segment,
/// whichever comes first.
pub fn input_wait(
    maintenance_wait_ms: u64,
    recording: bool,
    since_poll_ms: u64,
    meeting_in_flight: bool,
    segment_queued_for_ms: Option<u64>,
) -> (r: u64)
    ensures
        r == ({
            let polled = if recording {
                lesser(
                    maintenance_wait_ms as int,
                    left_of(DICTATION_POLL_INTERVAL_MS, since_poll_ms),
                )
            } else {
                maintenance_wait_ms as int
            };
            if !recording && !meeting_in_flight && segment_queued_for_ms is Some {
                lesser(polled, left_of(MEETING_ASR_INPUT_GRACE_MS, segment_queued_for_ms->0))
            } else {
                polled
            }
        }),
{
    let mut wait: u64 = maintenance_wait_ms;
    if recording {
        wait = shorter(wait, DICTATION_POLL_INTERVAL_MS.saturating_sub(since_poll_ms));
    }
    if !recording && !meeting_in_flight {
        if let Some(queued) = segment_queued_for_ms {
            wait = shorter(wait, MEETING_ASR_INPUT_GRACE_MS.saturating_sub(queued));
        }
    }
    wait
}

/// Is the next poll of a running dictation due?
pub fn poll_due(recording: bool, since_poll_ms: u64) -> (r: bool)
    ensures
        r == (recording && since_poll_ms >= DICTATION_POLL_INTERVAL_MS),
{
    recording && since_poll_ms >= DICTATION_POLL_INTERVAL_MS
}

/// Is a microphone that failed to be opened again? Never during a recording.
pub fn audio_retry_due(audio_ready: bool, recording: bool, since_retry_ms: u64) -> (r: bool)
    ensures
        r == (!audio_ready && !recording && since_retry_ms >= AUDIO_RETRY_INTERVAL_MS),
{
    !audio_ready && !recording && since_retry_ms >= AUDIO_RETRY_INTERVAL_MS
}

/// Is the automatic attempt to prepare the model due?
pub fn model_retry_due(retry_at_ms: Option<u64>, now_ms: u64) -> (r: bool)
    ensures
        r == (retry_at_ms is Some && now_ms >= retry_at_ms->0),
{
    match retry_at_ms {
        Some(at) => now_ms >= at,
        None => false,
    }
}

/// Each further failure makes the wait longer, until it is ten minutes.
pub proof fn model_delays_grow_with_each_failure(a: int, b: int)
    requires
        0 <= a < b,
    ensures
        b <= 4 ==> model_delay(a) < model_delay(b),
        b >= 4 ==> model_delay(b) == 600_000,
        b <= 2 ==> model_delay(b) == 2 * model_delay(b - 1),
{
}

} // verus!
