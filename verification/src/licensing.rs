//! What a licence or a trial unlocks, and when receipts are renewed. Basic
//! dictation never depends on a receipt.

use crate::text::{chars_of, decimal, decimal_text, number, parse_number, text_of};
use vstd::prelude::*;

verus! {

/// How often the local gate is evaluated.
pub const LOCAL_LICENSE_GATE_INTERVAL_MS: u64 = 60_000;

/// How often receipts are renewed over the network.
pub const NETWORK_LICENSE_REFRESH_INTERVAL_MS: u64 = 43_200_000;

/// The edition of the application.
#[derive(Debug, Clone, Copy, PartialEq, Eq, Structural)]
pub enum Edition {
    Community,
    Commercial,
}

/// The licence of this device.
#[derive(Debug, PartialEq, Eq)]
pub enum LicenseStatus {
    Licensed { max_version: u32 },
    Trial { days_left: u32 },
    TrialSetupRequired,
    Expired,
    Invalid(String),
}

/// What the cached trial receipt says.
#[derive(Debug, PartialEq, Eq)]
pub enum TrialReceiptStatus {
    Active { days_left: u32 },
    Expired,
    SetupRequired,
    Invalid(String),
}

/// What the person has access to.
#[derive(Debug, Clone, Copy, PartialEq, Eq, Structural)]
pub enum ProductTier {
    Basic,
    Pro,
    Community,
}

/// The part of a text before its first full stop.
pub open spec fn before_stop(s: Seq<char>) -> Seq<char> {
    s.take(crate::seqs::first_where(s, |c: char| c == '.', 0))
}

/// The licence generation that a version of the application needs: its major
/// number, at least one. A version without a number needs one that no licence
/// has.
pub open spec fn generation_of(version: Seq<char>) -> u32 {
    match number(before_stop(version)) {
        Some(n) => if n > u32::MAX {
            u32::MAX
        } else if n == 0 {
            1
        } else {
            n as u32
        },
        None => u32::MAX,
    }
}

/// The part of a text before its first full stop.
pub fn first_component(s: &str) -> (r: String)
    ensures
        r@ == before_stop(s@),
{
    let chars = chars_of(s);
    let ghost stop = |c: char| c == '.';
    let mut i: usize = 0;
    while i < chars.len() && chars[i] != '.'
        invariant
            i <= chars@.len(),
            stop == (|c: char| c == '.'),
            crate::seqs::first_where(chars@, stop, 0) == crate::seqs::first_where(
                chars@,
                stop,
                i as int,
            ),
        decreases chars@.len() - i,
    {
        i += 1;
    }
    let part = vstd::slice::slice_subrange(chars.as_slice(), 0, i);
    assert(part@ =~= chars@.take(i as int));
    text_of(part)
}

/// The licence generation that a version of the application needs.
pub fn required_generation(version: &str) -> (r: u32)
    ensures
        r == generation_of(version@),
{
    match parse_number(&first_component(version), u32::MAX as u64) {
        Some(n) => {
            if n == 0 {
                1
            } else {
                n as u32
            }
        },
        None => u32::MAX,
    }
}

/// The licence of this device, from the receipts in its cache: a licence comes
/// before a trial, and covers versions up to its generation only. The community
/// edition reads no receipt.
pub fn license_status(
    edition: Edition,
    version: &str,
    entitlement: Option<u32>,
    trial: TrialReceiptStatus,
) -> (r: LicenseStatus)
    ensures
        edition == Edition::Community ==> r is TrialSetupRequired,
        edition == Edition::Commercial ==> match entitlement {
            Some(max) => if max >= generation_of(version@) {
                r == (LicenseStatus::Licensed { max_version: max })
            } else {
                r matches LicenseStatus::Invalid(words) && words@
                    == "This licence covers VocalCode through generation "@ + decimal(max as nat)
                    + ", but this build requires generation "@ + decimal(
                    generation_of(version@) as nat,
                ) + "."@
            },
            None => match trial {
                TrialReceiptStatus::Active { days_left } => r == (LicenseStatus::Trial {
                    days_left,
                }),
                TrialReceiptStatus::Expired => r is Expired,
                TrialReceiptStatus::SetupRequired => r is TrialSetupRequired,
                TrialReceiptStatus::Invalid(error) => r == LicenseStatus::Invalid(error),
            },
        },
{
    if edition == Edition::Community {
        return LicenseStatus::TrialSetupRequired;
    }
    let required: u32 = required_generation(version);
    if let Some(max) = entitlement {
        if max >= required {
            return LicenseStatus::Licensed { max_version: max };
        }
        return LicenseStatus::Invalid(
            "This licence covers VocalCode through generation ".to_owned().concat(
                &decimal_text(max as u128),
            ).concat(", but this build requires generation ").concat(
                &decimal_text(required as u128),
            ).concat("."),
        );
    }
    match trial {
        TrialReceiptStatus::Active { days_left } => LicenseStatus::Trial { days_left },
        TrialReceiptStatus::Expired => LicenseStatus::Expired,
        TrialReceiptStatus::SetupRequired => LicenseStatus::TrialSetupRequired,
        TrialReceiptStatus::Invalid(error) => LicenseStatus::Invalid(error),
    }
}

/// What a licence gives access to.
pub open spec fn tier_of(edition: Edition, status: LicenseStatus) -> ProductTier {
    if edition == Edition::Community {
        ProductTier::Community
    } else if status is Licensed || status is Trial {
        ProductTier::Pro
    } else {
        ProductTier::Basic
    }
}

/// What a licence gives access to.
pub fn product_tier(edition: Edition, status: &LicenseStatus) -> (r: ProductTier)
    ensures
        r == tier_of(edition, *status),
{
    if edition == Edition::Community {
        return ProductTier::Community;
    }
    match status {
        LicenseStatus::Licensed { .. } => ProductTier::Pro,
        LicenseStatus::Trial { .. } => ProductTier::Pro,
        _ => ProductTier::Basic,
    }
}

/// The key by which the window translates the state of the licence.
pub open spec fn state_key(edition: Edition, status: LicenseStatus) -> Seq<char> {
    if edition == Edition::Community {
        "community"@
    } else {
        match status {
            LicenseStatus::Licensed { max_version } => "licensed"@,
            LicenseStatus::Trial { days_left } => "trial"@,
            LicenseStatus::TrialSetupRequired => "basic"@,
            LicenseStatus::Expired => "basic"@,
            LicenseStatus::Invalid(error) => "basic_error"@,
        }
    }
}

/// The state of the licence in parts that the window can translate: a key, and
/// the days that are left of a trial.
pub fn license_state(edition: Edition, status: &LicenseStatus) -> (r: (String, u32))
    ensures
        r.0@ == state_key(edition, *status),
        r.1 == (if edition == Edition::Commercial && *status is Trial {
            status->days_left
        } else {
            0
        }),
{
    if edition == Edition::Community {
        return ("community".to_owned(), 0);
    }
    match status {
        LicenseStatus::Licensed { .. } => ("licensed".to_owned(), 0),
        LicenseStatus::Trial { days_left } => ("trial".to_owned(), *days_left),
        LicenseStatus::TrialSetupRequired => ("basic".to_owned(), 0),
        LicenseStatus::Expired => ("basic".to_owned(), 0),
        LicenseStatus::Invalid(_) => ("basic_error".to_owned(), 0),
    }
}

/// The words for the state of the licence.
pub open spec fn license_words(edition: Edition, status: LicenseStatus, label: Seq<char>) -> Seq<
    char,
> {
    if edition == Edition::Community {
        label
    } else {
        match status {
            LicenseStatus::Licensed { max_version } => "Activated (v"@ + decimal(
                max_version as nat,
            ) + ")"@,
            LicenseStatus::Trial { days_left } => "Pro trial — "@ + decimal(days_left as nat)
                + " days left"@,
            LicenseStatus::TrialSetupRequired => "Basic — free forever"@,
            LicenseStatus::Expired => "Basic — free forever"@,
            LicenseStatus::Invalid(error) => "Basic — Pro licence needs attention ("@ + error@
                + ")"@,
        }
    }
}

/// The words for the state of the licence. `label` names the community edition.
pub fn license_string(edition: Edition, status: &LicenseStatus, label: &str) -> (r: String)
    ensures
        r@ == license_words(edition, *status, label@),
{
    if edition == Edition::Community {
        return label.to_owned();
    }
    match status {
        LicenseStatus::Licensed { max_version } => "Activated (v".to_owned().concat(
            &decimal_text(*max_version as u128),
        ).concat(")"),
        LicenseStatus::Trial { days_left } => "Pro trial — ".to_owned().concat(
            &decimal_text(*days_left as u128),
        ).concat(" days left"),
        LicenseStatus::TrialSetupRequired => "Basic — free forever".to_owned(),
        LicenseStatus::Expired => "Basic — free forever".to_owned(),
        LicenseStatus::Invalid(error) => "Basic — Pro licence needs attention (".to_owned(
        ).concat(error).concat(")"),
    }
}

/// May dictated text be delivered? Always: basic dictation needs no receipt.
pub fn injection_allowed(status: &LicenseStatus) -> (r: bool)
    ensures
        r,
{
    let _ = status;
    true
}

/// May the functions of the paid product be used?
pub fn pro_allowed(edition: Edition, status: &LicenseStatus) -> (r: bool)
    ensures
        r == (tier_of(edition, *status) != ProductTier::Basic),
{
    match product_tier(edition, status) {
        ProductTier::Basic => false,
        _ => true,
    }
}

/// Access in the community edition depends on no receipt.
pub proof fn community_access_needs_no_receipt(a: LicenseStatus, b: LicenseStatus, label: Seq<char>)
    ensures
        tier_of(Edition::Community, a) == tier_of(Edition::Community, b),
        tier_of(Edition::Community, a) != ProductTier::Basic,
        state_key(Edition::Community, a) == state_key(Edition::Community, b),
        license_words(Edition::Community, a, label) == license_words(Edition::Community, b, label),
{
}

/// How long to wait after so many failed renewals in a row.
pub open spec fn license_delay(failures: int) -> u64 {
    if failures <= 0 {
        60_000
    } else if failures == 1 {
        300_000
    } else if failures == 2 {
        1_800_000
    } else {
        3_600_000
    }
}

/// The renewals that failed in a row.
#[derive(Debug)]
pub struct LicenseRefreshBackoff {
    pub failures: usize,
}

impl Default for LicenseRefreshBackoff {
    fn default() -> (r: Self)
        ensures
            r.failures == 0,
    {
        LicenseRefreshBackoff { failures: 0 }
    }
}

impl LicenseRefreshBackoff {
    /// When the next renewal is due. A failure is retried soon, then more and
    /// more seldom, but at least hourly; a success starts over.
    pub fn next_deadline(&mut self, now_ms: u64, attempt_succeeded: bool) -> (r: u64)
        requires
            now_ms + NETWORK_LICENSE_REFRESH_INTERVAL_MS <= u64::MAX,
        ensures
            attempt_succeeded ==> r == now_ms + NETWORK_LICENSE_REFRESH_INTERVAL_MS
                && final(self).failures == 0,
            !attempt_succeeded ==> {
                &&& r == now_ms + license_delay(old(self).failures as int)
                &&& final(self).failures == (if old(self).failures == usize::MAX {
                    usize::MAX as int
                } else {
                    old(self).failures + 1
                })
            },
    {
        if attempt_succeeded {
            self.failures = 0;
            return now_ms + NETWORK_LICENSE_REFRESH_INTERVAL_MS;
        }
        let delay: u64 = match self.failures {
            0 => 60_000,
            1 => 300_000,
            2 => 1_800_000,
            _ => 3_600_000,
        };
        self.failures = self.failures.saturating_add(1);
        now_ms + delay
    }
}

/// Runs the three renewals one after the other, and stops after any of them
/// when it is time to stop. `should_stop` is asked after each renewal, with the
/// number of renewals made by then; a later renewal begins only where every question
/// before it was answered with no.
pub fn run_license_refresh_sequence<L, C, T, S, LR, CR, TR>(
    legacy: L,
    cached: C,
    trial: T,
    should_stop: S,
) -> (r: Option<(LR, CR, TR)>) where
    L: FnOnce() -> LR,
    C: FnOnce() -> CR,
    T: FnOnce() -> TR,
    S: Fn(u8) -> bool,

    requires
        legacy.requires(()),
        forall|made: u8| 1 <= made <= 3 ==> #[trigger] should_stop.requires((made,)),
        should_stop.ensures((1u8,), false) ==> cached.requires(()),
        should_stop.ensures((1u8,), false) && should_stop.ensures((2u8,), false)
            ==> trial.requires(()),
    ensures
        exists|l: LR| legacy.ensures((), l),
        match r {
            Some(done) => {
                &&& legacy.ensures((), done.0)
                &&& cached.ensures((), done.1)
                &&& trial.ensures((), done.2)
                &&& should_stop.ensures((1u8,), false)
                &&& should_stop.ensures((2u8,), false)
                &&& should_stop.ensures((3u8,), false)
            },
            None => {
                ||| should_stop.ensures((1u8,), true)
                ||| {
                    &&& should_stop.ensures((1u8,), false)
                    &&& exists|c: CR| cached.ensures((), c)
                    &&& should_stop.ensures((2u8,), true)
                }
                ||| {
                    &&& should_stop.ensures((1u8,), false)
                    &&& exists|c: CR| cached.ensures((), c)
                    &&& should_stop.ensures((2u8,), false)
                    &&& exists|t: TR| trial.ensures((), t)
                    &&& should_stop.ensures((3u8,), true)
                }
            },
        },
{
    let first = legacy();
    assert(legacy.ensures((), first));
    if should_stop(1) {
        return None;
    }
    let second = cached();
    assert(cached.ensures((), second));
    if should_stop(2) {
        return None;
    }
    let third = trial();
    assert(trial.ensures((), third));
    if should_stop(3) {
        return None;
    }
    Some((first, second, third))
}

/// What one renewal came to.
#[derive(Debug, Clone, Copy, PartialEq, Eq, Structural)]
pub enum Renewal {
    Done,
    /// It was called off because the application ends.
    Cancelled,
    Failed,
}

/// What follows from the three renewals.
#[derive(Debug, Clone, Copy, PartialEq, Eq, Structural)]
pub enum AfterRenewals {
    /// The application ends; nothing is published.
    Stop,
    Continue {
        /// Could the trial not be set up?
        trial_setup_error: bool,
        next_network_ms: u64,
    },
}

/// The renewal of receipts in the background.
#[derive(Debug)]
pub struct LicenseMaintenance {
    pub next_network_ms: u64,
    pub backoff: LicenseRefreshBackoff,
}

impl LicenseMaintenance {
    /// The first renewal is due at once.
    pub fn new(now_ms: u64) -> (r: Self)
        ensures
            r.next_network_ms == now_ms,
            r.backoff.failures == 0,
    {
        LicenseMaintenance { next_network_ms: now_ms, backoff: LicenseRefreshBackoff::default() }
    }

    /// Is a renewal due?
    pub fn network_due(&self, now_ms: u64) -> (r: bool)
        ensures
            r == (now_ms >= self.next_network_ms),
    {
        now_ms >= self.next_network_ms
    }

    /// Takes the outcome of the three renewals.
    pub fn after_renewals(
        &mut self,
        legacy: Renewal,
        cached: Renewal,
        trial: Renewal,
        now_ms: u64,
    ) -> (r: AfterRenewals)
        requires
            now_ms + NETWORK_LICENSE_REFRESH_INTERVAL_MS <= u64::MAX,
        ensures
            ({
                let stop = legacy == Renewal::Cancelled || cached == Renewal::Cancelled || trial
                    == Renewal::Cancelled;
                let healthy = legacy == Renewal::Done && cached == Renewal::Done && trial
                    == Renewal::Done;
                if stop {
                    r == AfterRenewals::Stop && *final(self) == *old(self)
                } else {
                    &&& r == (AfterRenewals::Continue {
                        trial_setup_error: trial == Renewal::Failed,
                        next_network_ms: final(self).next_network_ms,
                    })
                    &&& final(self).next_network_ms == (if healthy {
                        now_ms + NETWORK_LICENSE_REFRESH_INTERVAL_MS
                    } else {
                        now_ms + license_delay(old(self).backoff.failures as int)
                    })
                    &&& healthy ==> final(self).backoff.failures == 0
                    &&& !healthy ==> final(self).backoff.failures == (if old(
                        self,
                    ).backoff.failures == usize::MAX {
                        usize::MAX as int
                    } else {
                        old(self).backoff.failures + 1
                    })
                }
            }),
    {
        if legacy == Renewal::Cancelled || cached == Renewal::Cancelled || trial
            == Renewal::Cancelled {
            return AfterRenewals::Stop;
        }
        let healthy = legacy == Renewal::Done && cached == Renewal::Done && trial == Renewal::Done;
        self.next_network_ms = self.backoff.next_deadline(now_ms, healthy);
        AfterRenewals::Continue {
            trial_setup_error: trial == Renewal::Failed,
            next_network_ms: self.next_network_ms,
        }
    }

    /// When the local gate is evaluated again: within a minute, and earlier where
    /// a renewal is due earlier.
    pub fn gate_deadline(&self, now_ms: u64) -> (r: u64)
        requires
            now_ms + LOCAL_LICENSE_GATE_INTERVAL_MS <= u64::MAX,
        ensures
            now_ms <= r <= now_ms + LOCAL_LICENSE_GATE_INTERVAL_MS,
            self.next_network_ms <= now_ms ==> r == now_ms,
            now_ms < self.next_network_ms <= now_ms + LOCAL_LICENSE_GATE_INTERVAL_MS ==> r
                == self.next_network_ms,
            self.next_network_ms > now_ms + LOCAL_LICENSE_GATE_INTERVAL_MS ==> r == now_ms
                + LOCAL_LICENSE_GATE_INTERVAL_MS,
    {
        let until: u64 = self.next_network_ms.saturating_sub(now_ms);
        if until < LOCAL_LICENSE_GATE_INTERVAL_MS {
            now_ms + until
        } else {
            now_ms + LOCAL_LICENSE_GATE_INTERVAL_MS
        }
    }
}

/// The generation of a version is its first number, at least one and at most the
/// largest word, whatever follows the first stop.
pub proof fn the_first_number_is_the_generation(n: nat, rest: Seq<char>)
    ensures
        generation_of(decimal(n) + "."@ + rest) == (if n == 0 {
            1
        } else if n > u32::MAX {
            u32::MAX as int
        } else {
            n as int
        }),
        generation_of(decimal(n)) == generation_of(decimal(n) + "."@ + rest),
{
    let digits = decimal(n);
    let stop = |c: char| c == '.';
    let s = digits + "."@ + rest;
    reveal_strlit(".");
    crate::text::numbers_read_back(n);
    crate::seqs::first_where_is_first(s, stop, 0);
    crate::seqs::first_where_is_first(digits, stop, 0);
    let k = crate::seqs::first_where(s, stop, 0);
    let j = crate::seqs::first_where(digits, stop, 0);
    assert(s[digits.len() as int] == '.');
    assert(k <= digits.len()) by {
        if k > digits.len() {
            assert(!stop(s[digits.len() as int]));
        }
    }
    if k < digits.len() {
        assert(stop(s[k]));
        assert(s[k] == digits[k]);
        assert('0' <= digits[k] <= '9');
    }
    if j < digits.len() {
        assert('0' <= digits[j] <= '9');
    }
    assert(before_stop(s) =~= digits);
    assert(before_stop(digits) =~= digits);
}

/// Only a licence or a trial makes the commercial edition more than the basic one, and
/// the key that is shown tells which it is.
pub proof fn tiers_follow_the_status(status: LicenseStatus)
    ensures
        tier_of(Edition::Commercial, status) != ProductTier::Community,
        tier_of(Edition::Commercial, status) == ProductTier::Pro <==> (state_key(
            Edition::Commercial,
            status,
        ) == "licensed"@ || state_key(Edition::Commercial, status) == "trial"@),
        status is Licensed || status is Trial <==> tier_of(Edition::Commercial, status)
            == ProductTier::Pro,
        tier_of(Edition::Community, status) == ProductTier::Community,
{
    reveal_strlit("licensed");
    reveal_strlit("trial");
    reveal_strlit("basic");
    reveal_strlit("basic_error");
    assert("basic"@[0] != "licensed"@[0]);
    assert("basic_error"@[0] != "licensed"@[0]);
    assert("basic"@[0] != "trial"@[0]);
    assert("basic_error"@[0] != "trial"@[0]);
}

/// The delays between attempts grow, up to an hour.
pub proof fn license_delays_grow_to_an_hour(a: int, b: int)
    requires
        0 <= a <= b,
    ensures
        60_000 <= license_delay(a) <= license_delay(b) <= 3_600_000,
        b >= 3 ==> license_delay(b) == 3_600_000,
        a < b <= 3 ==> license_delay(a) < license_delay(b),
{
}

} // verus!
