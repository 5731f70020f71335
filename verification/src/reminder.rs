//! Meeting reminders: which observed meeting is offered to the person, when,
//! and what a click on the offer does. A reminder is a hint; it never starts a
//! recording.

use crate::seqs::{filter_ends, filter_step, first_where};
use crate::text::{listed, same, texts};
use vstd::prelude::*;

verus! {

/// How long a window title alone has to be seen before it is offered.
pub const DETECTION_DWELL_MS: u64 = 1_000;

/// How many meetings are remembered at a time.
pub const MAX_RECENT_REMINDERS: usize = 32;

/// How long a confirmed call has to be seen before it is offered.
pub const CONFIRMED_DWELL_MS: u64 = 0;

/// How long one observation counts as current.
pub const SIGNAL_FRESH_MS: u64 = 8_000;

/// After how long without an observation a meeting is forgotten.
pub const ENCOUNTER_GONE_MS: u64 = 90_000;

/// How long a snoozed meeting stays quiet.
pub const SNOOZE_MS: u64 = 120_000;

/// How sure an observation is, weakest first.
#[derive(Debug, Clone, Copy, PartialEq, Eq, PartialOrd, Ord, Structural)]
pub enum Strength {
    Title,
    Calendar,
    Audio,
    Confirmed,
}

impl Default for Strength {
    fn default() -> (r: Self)
        ensures
            r == Strength::Title,
    {
        Strength::Title
    }
}

impl Strength {
    /// The place of the strength in the order, from 0.
    pub open spec fn place(self) -> int {
        match self {
            Strength::Title => 0,
            Strength::Calendar => 1,
            Strength::Audio => 2,
            Strength::Confirmed => 3,
        }
    }

    /// How long a meeting of this strength has to be seen before it is offered.
    pub open spec fn dwell_ms(self) -> u64 {
        if self == Strength::Title {
            DETECTION_DWELL_MS
        } else {
            0
        }
    }

    /// The place of the strength in the order, from 0.
    pub fn level(self) -> (r: u8)
        ensures
            r == self.place(),
            r < 4,
    {
        match self {
            Strength::Title => 0,
            Strength::Calendar => 1,
            Strength::Audio => 2,
            Strength::Confirmed => 3,
        }
    }

    /// How long a meeting of this strength has to be seen before it is offered.
    pub fn dwell(self) -> (r: u64)
        ensures
            r == self.dwell_ms(),
    {
        match self {
            Strength::Confirmed => CONFIRMED_DWELL_MS,
            Strength::Audio => 0,
            Strength::Calendar => 0,
            Strength::Title => DETECTION_DWELL_MS,
        }
    }
}

/// One meeting as one observation shows it.
#[derive(Debug, PartialEq, Eq)]
pub struct MeetingCandidate {
    /// What the person's app-wide ignore preference names.
    pub app_key: String,
    /// The identity of the window, kept in memory only.
    pub instance_key: String,
    pub app_name: String,
    pub suggested_title: String,
    pub strength: Strength,
    pub foreground: bool,
    /// The identity of the conference, where the observation gives one.
    pub conference_key: Option<String>,
}

/// What a candidate says.
pub struct CandidateView {
    pub app_key: Seq<char>,
    pub instance_key: Seq<char>,
    pub app_name: Seq<char>,
    pub suggested_title: Seq<char>,
    pub strength: Strength,
    pub foreground: bool,
    pub conference_key: Option<Seq<char>>,
}

/// The text of an optional string.
pub open spec fn optional_text(s: Option<String>) -> Option<Seq<char>> {
    match s {
        Some(t) => Some(t@),
        None => None,
    }
}

impl View for MeetingCandidate {
    type V = CandidateView;

    open spec fn view(&self) -> CandidateView {
        CandidateView {
            app_key: self.app_key@,
            instance_key: self.instance_key@,
            app_name: self.app_name@,
            suggested_title: self.suggested_title@,
            strength: self.strength,
            foreground: self.foreground,
            conference_key: optional_text(self.conference_key),
        }
    }
}

impl CandidateView {
    /// The identity of the meeting: the conference, else the window.
    pub open spec fn key(self) -> Seq<char> {
        match self.conference_key {
            Some(k) => k,
            None => self.instance_key,
        }
    }

    /// The order in which meetings of one observation are preferred.
    pub open spec fn priority(self) -> int {
        2 * self.strength.place() + (if self.foreground {
            1int
        } else {
            0
        })
    }

    /// The candidate with another conference identity.
    pub open spec fn with_conference(self, key: Option<Seq<char>>) -> CandidateView {
        CandidateView { conference_key: key, ..self }
    }
}

/// The same optional string.
fn copy_optional(s: &Option<String>) -> (r: Option<String>)
    ensures
        optional_text(r) == optional_text(*s),
        r is Some == s is Some,
{
    match s {
        Some(t) => Some(t.clone()),
        None => None,
    }
}

impl Clone for MeetingCandidate {
    fn clone(&self) -> (r: Self)
        ensures
            r@ == self@,
    {
        MeetingCandidate {
            app_key: self.app_key.clone(),
            instance_key: self.instance_key.clone(),
            app_name: self.app_name.clone(),
            suggested_title: self.suggested_title.clone(),
            strength: self.strength,
            foreground: self.foreground,
            conference_key: copy_optional(&self.conference_key),
        }
    }
}

impl MeetingCandidate {
    /// The identity of the meeting: the conference, else the window.
    pub fn key(&self) -> (r: &str)
        ensures
            r@ == self@.key(),
    {
        match &self.conference_key {
            Some(k) => k.as_str(),
            None => self.instance_key.as_str(),
        }
    }

    /// The order in which meetings of one observation are preferred.
    fn priority(&self) -> (r: u8)
        ensures
            r == self@.priority(),
            r < 8,
    {
        2 * self.strength.level() + (if self.foreground {
            1
        } else {
            0
        })
    }
}

/// A visible reminder card.
#[derive(Debug)]
pub struct Prompt {
    pub id: u64,
    pub candidate: MeetingCandidate,
}

/// What a reminder card shows.
pub struct PromptView {
    pub id: u64,
    pub candidate: CandidateView,
}

impl View for Prompt {
    type V = PromptView;

    open spec fn view(&self) -> PromptView {
        PromptView { id: self.id, candidate: self.candidate@ }
    }
}

impl Clone for Prompt {
    fn clone(&self) -> (r: Self)
        ensures
            r@ == self@,
    {
        Prompt { id: self.id, candidate: self.candidate.clone() }
    }
}

/// A button of the reminder card.
#[derive(Debug, Clone, Copy, PartialEq, Eq, Structural)]
pub enum Action {
    Review,
    Dismiss,
    Snooze,
}

/// What a click did. A click only navigates to controls; it never authorizes
/// capture.
#[derive(Debug, PartialEq, Eq)]
pub enum ActionResult {
    Ignored,
    Closed,
    Review(Option<MeetingCandidate>),
}

/// What has become of the offer of one meeting.
#[derive(Debug, Clone, Copy, PartialEq, Eq, Structural)]
pub enum Disposition {
    Pending,
    Shown,
    Done,
    Snoozed(u64),
}

impl Disposition {
    /// The person has answered the offer.
    pub open spec fn is_answer(self) -> bool {
        self is Done || self is Snoozed
    }

    /// What becomes of two offers that turn out to be of one meeting: an answer
    /// stands over an offer without one, the longer snooze over the shorter, and a
    /// card on screen over none.
    pub open spec fn with(self, other: Disposition) -> Disposition {
        match (self, other) {
            (Disposition::Done, _) => Disposition::Done,
            (_, Disposition::Done) => Disposition::Done,
            (Disposition::Snoozed(a), Disposition::Snoozed(b)) => Disposition::Snoozed(
                if a < b {
                    b
                } else {
                    a
                },
            ),
            (Disposition::Snoozed(a), _) => Disposition::Snoozed(a),
            (_, Disposition::Snoozed(b)) => Disposition::Snoozed(b),
            (Disposition::Shown, _) => Disposition::Shown,
            (_, Disposition::Shown) => Disposition::Shown,
            (Disposition::Pending, Disposition::Pending) => Disposition::Pending,
        }
    }

    fn answers(self) -> (r: bool)
        ensures
            r == self.is_answer(),
    {
        match self {
            Disposition::Done => true,
            Disposition::Snoozed(_) => true,
            _ => false,
        }
    }

    fn join(self, other: Disposition) -> (r: Disposition)
        ensures
            r == self.with(other),
    {
        match (self, other) {
            (Disposition::Done, _) => Disposition::Done,
            (_, Disposition::Done) => Disposition::Done,
            (Disposition::Snoozed(a), Disposition::Snoozed(b)) => Disposition::Snoozed(
                if a < b {
                    b
                } else {
                    a
                },
            ),
            (Disposition::Snoozed(a), _) => Disposition::Snoozed(a),
            (_, Disposition::Snoozed(b)) => Disposition::Snoozed(b),
            (Disposition::Shown, _) => Disposition::Shown,
            (_, Disposition::Shown) => Disposition::Shown,
            (Disposition::Pending, Disposition::Pending) => Disposition::Pending,
        }
    }
}

/// One remembered meeting.
#[derive(Debug)]
struct Encounter {
    candidate: MeetingCandidate,
    first_seen_ms: u64,
    last_seen_ms: u64,
    confirmed_since_ms: Option<u64>,
    disposition: Disposition,
}

/// What is remembered of one meeting.
pub struct EncounterView {
    pub candidate: CandidateView,
    pub first_seen_ms: u64,
    pub last_seen_ms: u64,
    pub confirmed_since_ms: Option<u64>,
    pub disposition: Disposition,
}

impl Encounter {
    closed spec fn seen(self) -> EncounterView {
        EncounterView {
            candidate: self.candidate@,
            first_seen_ms: self.first_seen_ms,
            last_seen_ms: self.last_seen_ms,
            confirmed_since_ms: self.confirmed_since_ms,
            disposition: self.disposition,
        }
    }

    fn copy(&self) -> (r: Self)
        ensures
            r.seen() == self.seen(),
    {
        Encounter {
            candidate: self.candidate.clone(),
            first_seen_ms: self.first_seen_ms,
            last_seen_ms: self.last_seen_ms,
            confirmed_since_ms: self.confirmed_since_ms,
            disposition: self.disposition,
        }
    }
}

/// The memory of the reminder: the meetings seen lately, the card on screen
/// and the number of the last card.
#[derive(Debug)]
pub struct ReminderGate {
    encounters: Vec<Encounter>,
    current: Option<Prompt>,
    next_id: u64,
}

/// What the reminder remembers.
pub struct GateView {
    pub encounters: Seq<EncounterView>,
    pub current: Option<PromptView>,
    pub next_id: u64,
}

/// What a list of remembered meetings says.
closed spec fn seen_all(s: Seq<Encounter>) -> Seq<EncounterView> {
    s.map_values(|e: Encounter| e.seen())
}

/// What an optional card shows.
pub open spec fn optional_prompt(p: Option<Prompt>) -> Option<PromptView> {
    match p {
        Some(p) => Some(p@),
        None => None,
    }
}

impl View for ReminderGate {
    type V = GateView;

    closed spec fn view(&self) -> GateView {
        GateView {
            encounters: seen_all(self.encounters@),
            current: optional_prompt(self.current),
            next_id: self.next_id,
        }
    }
}


/// An observation at `last` still counts at `now`.
pub open spec fn fresh(now: u64, last: u64) -> bool {
    now - last <= SIGNAL_FRESH_MS
}

/// A meeting that is still remembered at `now`.
pub open spec fn remembered(e: EncounterView, now: u64) -> bool {
    e.last_seen_ms <= now && now - e.last_seen_ms < ENCOUNTER_GONE_MS
}

/// The candidates of priority below `rank`, highest priority first, each in
/// the order of the list among its equals.
pub open spec fn ranked(cs: Seq<CandidateView>, rank: nat) -> Seq<CandidateView>
    decreases rank,
{
    if rank == 0 {
        Seq::empty()
    } else {
        cs.filter(|c: CandidateView| c.priority() == rank - 1) + ranked(cs, (rank - 1) as nat)
    }
}

/// The candidates that are considered, in the order in which they are.
pub open spec fn considered(cs: Seq<CandidateView>, ignored: Seq<Seq<char>>) -> Seq<CandidateView> {
    ranked(cs.filter(|c: CandidateView| !ignored.contains(c.app_key)), 8)
}

/// A remembered meeting and a candidate show the same window, and at most one
/// of them names a conference.
pub open spec fn alias(e: EncounterView, c: CandidateView) -> bool {
    e.candidate.instance_key == c.instance_key && (e.candidate.conference_key is None
        || c.conference_key is None)
}

/// The conference that a candidate and its only alias agree on.
pub open spec fn agreed_conference(e: EncounterView, c: CandidateView) -> Option<Seq<char>> {
    if c.conference_key is None {
        e.candidate.conference_key
    } else {
        c.conference_key
    }
}

/// One meeting in place of two that turn out to be the same: as it was seen last,
/// with what became of the offers of both.
pub open spec fn merged(a: EncounterView, b: EncounterView) -> EncounterView {
    EncounterView {
        disposition: a.disposition.with(b.disposition),
        ..if b.last_seen_ms < a.last_seen_ms {
            a
        } else {
            b
        }
    }
}

/// The remembered meetings with `e` in place of the one at `i`. A meeting that has
/// the identity of `e` already takes it in.
pub open spec fn replaced_at(es: Seq<EncounterView>, i: int, e: EncounterView) -> Seq<
    EncounterView,
> {
    let others = es.remove(i);
    let j = with_key(others, e.candidate.key());
    if j < others.len() {
        others.update(j, merged(e, others[j]))
    } else {
        es.update(i, e)
    }
}

/// The card, unless the meeting that it shows was answered.
pub open spec fn unanswered(es: Seq<EncounterView>, p: PromptView) -> Option<PromptView> {
    let i = with_key(es, p.candidate.key());
    if i < es.len() && es[i].disposition.is_answer() {
        None
    } else {
        Some(p)
    }
}

/// The reminder and the candidate, once the conference that one of them lacks
/// has been filled in from the other. That is done only where exactly one
/// remembered meeting is an alias. Where the conference is remembered already, from
/// another source, the two become one.
pub open spec fn unified(g: GateView, c: CandidateView) -> (GateView, CandidateView) {
    let same_window = |e: EncounterView| alias(e, c);
    if g.encounters.filter(same_window).len() == 1 {
        let i = first_where(g.encounters, same_window, 0);
        let entry = g.encounters[i];
        let conference = agreed_conference(entry, c);
        let encounters = replaced_at(
            g.encounters,
            i,
            EncounterView { candidate: entry.candidate.with_conference(conference), ..entry },
        );
        (
            GateView {
                encounters,
                current: match g.current {
                    Some(p) => unanswered(
                        encounters,
                        if p.candidate.key() == entry.candidate.key() {
                            PromptView {
                                candidate: p.candidate.with_conference(conference),
                                ..p
                            }
                        } else {
                            p
                        },
                    ),
                    None => None,
                },
                next_id: g.next_id,
            },
            c.with_conference(conference),
        )
    } else {
        (g, c)
    }
}

/// The position of the meeting seen least recently, the first of several.
pub open spec fn oldest(es: Seq<EncounterView>) -> int
    decreases es.len(),
{
    if es.len() <= 1 {
        0
    } else {
        let best = oldest(es.drop_last());
        if es.last().last_seen_ms < es[best].last_seen_ms {
            es.len() - 1
        } else {
            best
        }
    }
}

/// A remembered meeting after one more observation of it.
pub open spec fn seen_again(e: EncounterView, c: CandidateView, now: u64) -> EncounterView {
    EncounterView {
        candidate: c,
        first_seen_ms: if fresh(now, e.last_seen_ms) {
            e.first_seen_ms
        } else {
            now
        },
        last_seen_ms: now,
        confirmed_since_ms: if c.strength != Strength::Confirmed {
            None
        } else if e.confirmed_since_ms is None || !fresh(now, e.last_seen_ms) {
            Some(now)
        } else {
            e.confirmed_since_ms
        },
        disposition: e.disposition,
    }
}

/// A meeting at its first observation.
pub open spec fn first_seen(c: CandidateView, now: u64) -> EncounterView {
    EncounterView {
        candidate: c,
        first_seen_ms: now,
        last_seen_ms: now,
        confirmed_since_ms: if c.strength == Strength::Confirmed {
            Some(now)
        } else {
            None
        },
        disposition: Disposition::Pending,
    }
}

/// The remembered meeting of that identity, the first of several.
pub open spec fn with_key(es: Seq<EncounterView>, key: Seq<char>) -> int {
    first_where(es, |e: EncounterView| e.candidate.key() == key, 0)
}

/// The remembered meetings after an observation of one candidate.
pub open spec fn recorded(es: Seq<EncounterView>, c: CandidateView, now: u64) -> Seq<EncounterView> {
    let i = with_key(es, c.key());
    if i < es.len() {
        es.update(i, seen_again(es[i], c, now))
    } else if es.len() >= MAX_RECENT_REMINDERS {
        es.remove(oldest(es)).push(first_seen(c, now))
    } else {
        es.push(first_seen(c, now))
    }
}

/// The reminder after the candidates `cs` of one observation, with the
/// identities in `keys` seen in that observation already. Each identity counts
/// once.
pub open spec fn observed(
    g: GateView,
    keys: Seq<Seq<char>>,
    cs: Seq<CandidateView>,
    now: u64,
) -> (GateView, Seq<Seq<char>>)
    decreases cs.len(),
{
    if cs.len() == 0 {
        (g, keys)
    } else {
        let (g1, c) = unified(g, cs[0]);
        if keys.contains(c.key()) {
            observed(g1, keys, cs.drop_first(), now)
        } else {
            observed(
                GateView { encounters: recorded(g1.encounters, c, now), ..g1 },
                keys.push(c.key()),
                cs.drop_first(),
                now,
            )
        }
    }
}

/// The remembered meetings once a recording has begun: those of this
/// observation are not offered any more.
pub open spec fn all_done(es: Seq<EncounterView>, keys: Seq<Seq<char>>) -> Seq<EncounterView> {
    es.map_values(
        |e: EncounterView|
            if keys.contains(e.candidate.key()) {
                EncounterView { disposition: Disposition::Done, ..e }
            } else {
                e
            },
    )
}

/// The meeting still stands for the card of identity `key`.
pub open spec fn upholds(
    e: EncounterView,
    key: Seq<char>,
    now: u64,
    ignored: Seq<Seq<char>>,
) -> bool {
    e.candidate.key() == key && fresh(now, e.last_seen_ms) && !ignored.contains(e.candidate.app_key)
}

/// The meeting is a confirmed call of this observation that was not offered.
pub open spec fn outranks(e: EncounterView, keys: Seq<Seq<char>>) -> bool {
    keys.contains(e.candidate.key()) && e.candidate.strength == Strength::Confirmed
        && e.confirmed_since_ms is Some && e.disposition == Disposition::Pending
}

/// Does some remembered meeting still stand for the card?
pub open spec fn still_valid(
    g: GateView,
    p: PromptView,
    now: u64,
    ignored: Seq<Seq<char>>,
) -> bool {
    exists|i: int|
        0 <= i < g.encounters.len() && upholds(
            #[trigger] g.encounters[i],
            p.candidate.key(),
            now,
            ignored,
        )
}

/// Does a confirmed call replace a card that shows less than that?
pub open spec fn replaced(g: GateView, p: PromptView, keys: Seq<Seq<char>>) -> bool {
    p.candidate.strength != Strength::Confirmed && exists|i: int|
        0 <= i < g.encounters.len() && outranks(#[trigger] g.encounters[i], keys)
}

/// The remembered meetings with another disposition for the one of identity
/// `key`.
pub open spec fn disposed(
    es: Seq<EncounterView>,
    key: Seq<char>,
    disposition: Disposition,
) -> Seq<EncounterView> {
    let i = with_key(es, key);
    if i < es.len() {
        es.update(i, EncounterView { disposition, ..es[i] })
    } else {
        es
    }
}

/// The meeting may be offered at `now`.
pub open spec fn eligible(e: EncounterView, keys: Seq<Seq<char>>, now: u64) -> bool {
    let since = if e.candidate.strength == Strength::Confirmed {
        match e.confirmed_since_ms {
            Some(at) => at,
            None => now,
        }
    } else {
        e.first_seen_ms
    };
    &&& keys.contains(e.candidate.key())
    &&& now - since >= e.candidate.strength.dwell_ms() || e.candidate.strength.dwell_ms() == 0
    &&& match e.disposition {
        Disposition::Pending => true,
        Disposition::Snoozed(until) => now >= until,
        _ => false,
    }
}

/// The position of the meeting that is offered: the last one of the highest
/// priority among those that may be.
pub open spec fn choice(es: Seq<EncounterView>, keys: Seq<Seq<char>>, now: u64) -> Option<int>
    decreases es.len(),
{
    if es.len() == 0 {
        None
    } else {
        let before = choice(es.drop_last(), keys, now);
        if eligible(es.last(), keys, now) && (before is None || es.last().candidate.priority()
            >= es[before->0].candidate.priority()) {
            Some(es.len() - 1)
        } else {
            before
        }
    }
}

/// The reminder with the next card, where a meeting may be offered.
pub open spec fn offered(g: GateView, keys: Seq<Seq<char>>, now: u64) -> GateView {
    match choice(g.encounters, keys, now) {
        None => g,
        Some(i) => {
            let id: u64 = if g.next_id == u64::MAX {
                u64::MAX
            } else {
                (g.next_id + 1) as u64
            };
            GateView {
                encounters: g.encounters.update(
                    i,
                    EncounterView { disposition: Disposition::Shown, ..g.encounters[i] },
                ),
                current: Some(PromptView { id, candidate: g.encounters[i].candidate }),
                next_id: id,
            }
        },
    }
}

/// The reminder after its card has been held against the meetings of the
/// observation: the card stays, or it goes and the next one is offered.
pub open spec fn settled(
    g: GateView,
    keys: Seq<Seq<char>>,
    now: u64,
    ignored: Seq<Seq<char>>,
) -> GateView {
    match g.current {
        None => offered(g, keys, now),
        Some(p) => {
            let stronger = replaced(g, p, keys);
            if still_valid(g, p, now, ignored) && !stronger {
                g
            } else {
                offered(
                    GateView {
                        encounters: disposed(
                            g.encounters,
                            p.candidate.key(),
                            if stronger {
                                Disposition::Done
                            } else {
                                Disposition::Pending
                            },
                        ),
                        current: None,
                        next_id: g.next_id,
                    },
                    keys,
                    now,
                )
            }
        },
    }
}

/// The reminder after one complete observation.
pub open spec fn updated(
    g: GateView,
    now: u64,
    candidates: Seq<CandidateView>,
    enabled: bool,
    meeting_active: bool,
    ignored: Seq<Seq<char>>,
) -> GateView {
    if !enabled {
        GateView { encounters: Seq::empty(), current: None, next_id: g.next_id }
    } else {
        let kept = GateView {
            encounters: g.encounters.filter(|e: EncounterView| remembered(e, now)),
            ..g
        };
        let (after, keys) = observed(kept, Seq::empty(), considered(candidates, ignored), now);
        if meeting_active {
            GateView {
                encounters: all_done(after.encounters, keys),
                current: None,
                next_id: after.next_id,
            }
        } else {
            settled(after, keys, now, ignored)
        }
    }
}

/// The reminder after its card has been put away without an answer.
pub open spec fn paused(g: GateView) -> GateView {
    match g.current {
        None => g,
        Some(p) => {
            let i = with_key(g.encounters, p.candidate.key());
            GateView {
                encounters: if i < g.encounters.len() && g.encounters[i].disposition
                    == Disposition::Shown {
                    g.encounters.update(
                        i,
                        EncounterView { disposition: Disposition::Pending, ..g.encounters[i] },
                    )
                } else {
                    g.encounters
                },
                current: None,
                next_id: g.next_id,
            }
        },
    }
}

/// The remembered meeting that a click on card `id` answers, if any.
pub open spec fn answered(g: GateView, id: u64) -> Option<int> {
    match g.current {
        Some(p) => {
            let i = with_key(g.encounters, p.candidate.key());
            if p.id == id && i < g.encounters.len() {
                Some(i)
            } else {
                None
            }
        },
        None => None,
    }
}

/// The reminder after a click on card `id`.
pub open spec fn acted(g: GateView, id: u64, action: Action, now: u64) -> GateView {
    match answered(g, id) {
        None => g,
        Some(i) => GateView {
            encounters: g.encounters.update(
                i,
                EncounterView {
                    disposition: if action == Action::Snooze {
                        Disposition::Snoozed((now + SNOOZE_MS) as u64)
                    } else {
                        Disposition::Done
                    },
                    ..g.encounters[i]
                },
            ),
            current: None,
            next_id: g.next_id,
        },
    }
}

/// The candidate that a click on card `id` hands on: only a review does, and
/// only while the observation of its meeting is current.
pub open spec fn handed_on(g: GateView, id: u64, action: Action, now: u64) -> Option<CandidateView> {
    match answered(g, id) {
        Some(i) => if action == Action::Review && fresh(now, g.encounters[i].last_seen_ms) {
            Some(g.current->0.candidate)
        } else {
            None
        },
        None => None,
    }
}

/// What an optional candidate says.
pub open spec fn optional_candidate(c: Option<MeetingCandidate>) -> Option<CandidateView> {
    match c {
        Some(c) => Some(c@),
        None => None,
    }
}

/// What a list of candidates says.
pub open spec fn candidates_view(cs: Seq<MeetingCandidate>) -> Seq<CandidateView> {
    cs.map_values(|c: MeetingCandidate| c@)
}

/// A click on card `id` is heard: that card is on screen, and no other card is
/// the current one.
pub open spec fn heard(g: GateView, visible_id: Option<u64>, id: u64) -> bool {
    visible_id == Some(id) && (g.current is Some ==> g.current->0.id == id)
}

impl Default for ReminderGate {
    fn default() -> (r: Self)
        ensures
            r@ == (GateView { encounters: Seq::empty(), current: None, next_id: 0 }),
            orderly(r@),
    {
        let r = ReminderGate { encounters: Vec::new(), current: None, next_id: 0 };
        assert(r@.encounters =~= Seq::<EncounterView>::empty());
        r
    }
}

impl ReminderGate {
    /// How many meetings are remembered.
    pub fn remembered_count(&self) -> (r: usize)
        ensures
            r == self@.encounters.len(),
    {
        self.encounters.len()
    }

    /// The card that is current.
    pub fn current(&self) -> (r: Option<&Prompt>)
        ensures
            r is Some == self@.current is Some,
            r is Some ==> r->0@ == self@.current->0,
    {
        self.current.as_ref()
    }

    /// The position of the remembered meeting of that identity.
    fn position(&self, key: &str) -> (r: usize)
        ensures
            r == with_key(self@.encounters, key@),
            r <= self@.encounters.len(),
    {
        let ghost is_it = |e: EncounterView| e.candidate.key() == key@;
        let mut i: usize = 0;
        while i < self.encounters.len()
            invariant
                i <= self.encounters@.len(),
                is_it == (|e: EncounterView| e.candidate.key() == key@),
                first_where(self@.encounters, is_it, 0) == first_where(
                    self@.encounters,
                    is_it,
                    i as int,
                ),
            decreases self.encounters@.len() - i,
        {
            assert(self@.encounters[i as int] == self.encounters@[i as int].seen());
            if same(self.encounters[i].candidate.key(), key) {
                return i;
            }
            i += 1;
        }
        i
    }

    /// Gives one remembered meeting another disposition.
    fn dispose(&mut self, i: usize, disposition: Disposition)
        requires
            i < old(self)@.encounters.len(),
        ensures
            final(self)@ == (GateView {
                encounters: old(self)@.encounters.update(
                    i as int,
                    EncounterView { disposition, ..old(self)@.encounters[i as int] },
                ),
                ..old(self)@
            }),
    {
        let mut e = self.encounters[i].copy();
        e.disposition = disposition;
        self.encounters.set(i, e);
        assert(self@.encounters =~= old(self)@.encounters.update(
            i as int,
            EncounterView { disposition, ..old(self)@.encounters[i as int] },
        ));
    }

    /// Puts the card away without an answer. That is no dismissal.
    pub fn pause(&mut self)
        ensures
            final(self)@ == paused(old(self)@),
            orderly(old(self)@) ==> orderly(final(self)@),
    {
        proof {
            if orderly(self@) {
                pausing_stays_orderly(self@);
            }
        }
        if let Some(prompt) = self.current.take() {
            let i: usize = self.position(prompt.candidate.key());
            if i < self.encounters.len() && self.encounters[i].disposition == Disposition::Shown {
                self.dispose(i, Disposition::Pending);
            }
        }
    }

    /// A click on card `id`. A click on any other card than the current one
    /// changes nothing.
    pub fn action(&mut self, id: u64, action: Action, now_ms: u64) -> (r: Option<MeetingCandidate>)
        requires
            action == Action::Snooze && answered(old(self)@, id) is Some ==> now_ms + SNOOZE_MS
                <= u64::MAX,
        ensures
            final(self)@ == acted(old(self)@, id, action, now_ms),
            optional_candidate(r) == handed_on(old(self)@, id, action, now_ms),
            orderly(old(self)@) ==> orderly(final(self)@),
    {
        proof {
            if orderly(self@) {
                acting_stays_orderly(self@, id, action, now_ms);
            }
        }
        let current = match &self.current {
            Some(prompt) => prompt.clone(),
            None => {
                return None;
            },
        };
        if current.id != id {
            return None;
        }
        let i: usize = self.position(current.candidate.key());
        if i >= self.encounters.len() {
            return None;
        }
        let is_fresh = now_ms.saturating_sub(self.encounters[i].last_seen_ms) <= SIGNAL_FRESH_MS;
        let disposition = if action == Action::Snooze {
            Disposition::Snoozed(now_ms + SNOOZE_MS)
        } else {
            Disposition::Done
        };
        self.dispose(i, disposition);
        self.current = None;
        if action == Action::Review && is_fresh {
            Some(current.candidate)
        } else {
            None
        }
    }

    /// A click on the card that is actually displayed. A late click, or one on
    /// a card that is hidden, is ignored. A review opens the controls even where
    /// the meeting has gone by then, but carries no stale candidate.
    pub fn visible_action(
        &mut self,
        visible_id: Option<u64>,
        id: u64,
        action: Action,
        now_ms: u64,
    ) -> (r: ActionResult)
        requires
            action == Action::Snooze && answered(old(self)@, id) is Some ==> now_ms + SNOOZE_MS
                <= u64::MAX,
        ensures
            r is Ignored == !heard(old(self)@, visible_id, id),
            r is Ignored ==> final(self)@ == old(self)@,
            orderly(old(self)@) ==> orderly(final(self)@),
            heard(old(self)@, visible_id, id) ==> {
                &&& final(self)@ == acted(old(self)@, id, action, now_ms)
                &&& r is Review == (action == Action::Review)
                &&& r is Review ==> optional_candidate(r->Review_0) == handed_on(
                    old(self)@,
                    id,
                    action,
                    now_ms,
                )
            },
    {
        match visible_id {
            Some(v) => {
                if v != id {
                    return ActionResult::Ignored;
                }
            },
            None => {
                return ActionResult::Ignored;
            },
        }
        if let Some(p) = &self.current {
            if p.id != id {
                return ActionResult::Ignored;
            }
        }
        let candidate = self.action(id, action, now_ms);
        if action == Action::Review {
            ActionResult::Review(candidate)
        } else {
            ActionResult::Closed
        }
    }
}


/// The candidates of one priority, in the order of the list.
fn of_priority(cs: &[MeetingCandidate], priority: u8, into: &mut Vec<MeetingCandidate>)
    ensures
        candidates_view(final(into)@) == candidates_view(old(into)@) + candidates_view(cs@).filter(
            |c: CandidateView| c.priority() == priority as int,
        ),
{
    let ghost p = |c: CandidateView| c.priority() == priority as int;
    let ghost all = candidates_view(cs@);
    let ghost before = candidates_view(into@);
    proof {
        filter_ends(all, p);
        assert(before =~= before + Seq::<CandidateView>::empty());
    }
    let mut i: usize = 0;
    while i < cs.len()
        invariant
            i <= cs@.len(),
            p == (|c: CandidateView| c.priority() == priority as int),
            all == candidates_view(cs@),
            candidates_view(into@) == before + all.take(i as int).filter(p),
        decreases cs@.len() - i,
    {
        proof {
            filter_step(all, p, i as int);
            assert(all[i as int] == cs@[i as int]@);
        }
        let ghost so_far = into@;
        if cs[i].priority() == priority {
            let c = cs[i].clone();
            into.push(c);
            assert(candidates_view(into@) =~= candidates_view(so_far).push(c@));
        }
        assert(candidates_view(into@) =~= before + all.take(i + 1).filter(p));
        i += 1;
    }
    proof {
        filter_ends(all, p);
    }
}

/// The candidates that are considered, in the order in which they are.
fn consider(cs: &[MeetingCandidate], ignored: &[String]) -> (r: Vec<MeetingCandidate>)
    ensures
        candidates_view(r@) == considered(candidates_view(cs@), texts(ignored@)),
{
    let ghost p = |c: CandidateView| !texts(ignored@).contains(c.app_key);
    let ghost all = candidates_view(cs@);
    let mut kept: Vec<MeetingCandidate> = Vec::new();
    proof {
        filter_ends(all, p);
        assert(candidates_view(kept@) =~= Seq::<CandidateView>::empty());
    }
    let mut i: usize = 0;
    while i < cs.len()
        invariant
            i <= cs@.len(),
            p == (|c: CandidateView| !texts(ignored@).contains(c.app_key)),
            all == candidates_view(cs@),
            candidates_view(kept@) == all.take(i as int).filter(p),
        decreases cs@.len() - i,
    {
        proof {
            filter_step(all, p, i as int);
            assert(all[i as int] == cs@[i as int]@);
        }
        let ghost so_far = kept@;
        if !listed(ignored, &cs[i].app_key) {
            let c = cs[i].clone();
            kept.push(c);
            assert(candidates_view(kept@) =~= candidates_view(so_far).push(c@));
        }
        i += 1;
    }
    proof {
        filter_ends(all, p);
    }
    let ghost pool = candidates_view(kept@);
    let mut r: Vec<MeetingCandidate> = Vec::new();
    let mut rank: u8 = 8;
    assert(candidates_view(r@) + ranked(pool, 8) =~= ranked(pool, 8));
    while rank > 0
        invariant
            rank <= 8,
            pool == candidates_view(kept@),
            candidates_view(r@) + ranked(pool, rank as nat) == ranked(pool, 8),
        decreases rank,
    {
        let ghost so_far = candidates_view(r@);
        rank -= 1;
        of_priority(&kept, rank, &mut r);
        proof {
            let ghost p1 = |c: CandidateView| c.priority() == rank as int;
            let ghost p2 = |c: CandidateView| c.priority() == (rank + 1) as nat - 1;
            assert(p1 =~= p2);
            assert(candidates_view(r@) + ranked(pool, rank as nat) =~= so_far + ranked(
                pool,
                (rank + 1) as nat,
            ));
        }
    }
    assert(candidates_view(r@) =~= ranked(pool, 8));
    r
}

impl ReminderGate {
    /// Forgets the meetings that were not seen for too long, and those that the
    /// clock has left in the future.
    fn forget(&mut self, now_ms: u64)
        ensures
            final(self)@ == (GateView {
                encounters: old(self)@.encounters.filter(|e: EncounterView| remembered(e, now_ms)),
                ..old(self)@
            }),
    {
        let ghost p = |e: EncounterView| remembered(e, now_ms);
        let ghost all = self@.encounters;
        let mut kept: Vec<Encounter> = Vec::new();
        proof {
            filter_ends(all, p);
            assert(seen_all(kept@) =~= Seq::<EncounterView>::empty());
        }
        let mut i: usize = 0;
        while i < self.encounters.len()
            invariant
                i <= self.encounters@.len(),
                p == (|e: EncounterView| remembered(e, now_ms)),
                all == seen_all(self.encounters@),
                seen_all(kept@) == all.take(i as int).filter(p),
            decreases self.encounters@.len() - i,
        {
            proof {
                filter_step(all, p, i as int);
                assert(all[i as int] == self.encounters@[i as int].seen());
            }
            let ghost so_far = kept@;
            let last: u64 = self.encounters[i].last_seen_ms;
            if now_ms >= last && now_ms - last < ENCOUNTER_GONE_MS {
                let e = self.encounters[i].copy();
                kept.push(e);
                assert(seen_all(kept@) =~= seen_all(so_far).push(e.seen()));
            }
            i += 1;
        }
        proof {
            filter_ends(all, p);
        }
        self.encounters = kept;
    }

    /// Puts a meeting in the place of another. One that has its identity already
    /// takes it in.
    fn replace(&mut self, i: usize, e: Encounter)
        requires
            i < old(self)@.encounters.len(),
        ensures
            final(self)@ == (GateView {
                encounters: replaced_at(old(self)@.encounters, i as int, e.seen()),
                ..old(self)@
            }),
    {
        let ghost all = self@.encounters;
        self.encounters.remove(i);
        assert(self@.encounters =~= all.remove(i as int));
        let j: usize = self.position(e.candidate.key());
        if j < self.encounters.len() {
            let other = self.encounters[j].copy();
            let disposition = e.disposition.join(other.disposition);
            let mut one = if other.last_seen_ms < e.last_seen_ms {
                e
            } else {
                other
            };
            one.disposition = disposition;
            self.encounters.set(j, one);
            assert(self@.encounters =~= all.remove(i as int).update(j as int, one.seen()));
        } else {
            self.encounters.insert(i, e);
            assert(self@.encounters =~= all.update(i as int, e.seen()));
        }
    }

    /// Fills in the conference that a candidate or its only alias lacks.
    fn unify(&mut self, c: MeetingCandidate) -> (r: MeetingCandidate)
        ensures
            (final(self)@, r@) == unified(old(self)@, c@),
    {
        let ghost p = |e: EncounterView| alias(e, c@);
        let ghost all = self@.encounters;
        let mut count: usize = 0;
        let mut found: usize = self.encounters.len();
        proof {
            filter_ends(all, p);
        }
        let mut i: usize = 0;
        while i < self.encounters.len()
            invariant
                i <= self.encounters@.len(),
                found <= self.encounters@.len(),
                p == (|e: EncounterView| alias(e, c@)),
                all == seen_all(self.encounters@),
                count == all.take(i as int).filter(p).len(),
                count <= i,
                count == 0 ==> found == all.len() && first_where(all, p, 0) == first_where(
                    all,
                    p,
                    i as int,
                ),
                count > 0 ==> found == first_where(all, p, 0) && found < all.len(),
            decreases self.encounters@.len() - i,
        {
            proof {
                filter_step(all, p, i as int);
                assert(all[i as int] == self.encounters@[i as int].seen());
            }
            let e = &self.encounters[i];
            if same(&e.candidate.instance_key, &c.instance_key) && (
            e.candidate.conference_key.is_none() || c.conference_key.is_none()) {
                if count == 0 {
                    found = i;
                }
                count += 1;
            }
            i += 1;
        }
        proof {
            filter_ends(all, p);
        }
        if count != 1 {
            return c;
        }
        let mut entry = self.encounters[found].copy();
        let mut candidate = c;
        let previous = entry.candidate.clone();
        if candidate.conference_key.is_none() {
            candidate.conference_key = copy_optional(&entry.candidate.conference_key);
        }
        entry.candidate.conference_key = copy_optional(&candidate.conference_key);
        self.replace(found, entry);
        let shown = match self.current.take() {
            Some(prompt) => prompt,
            None => {
                return candidate;
            },
        };
        let mut card = shown;
        if same(card.candidate.key(), previous.key()) {
            card.candidate.conference_key = copy_optional(&candidate.conference_key);
        }
        let at: usize = self.position(card.candidate.key());
        if at < self.encounters.len() && self.encounters[at].disposition.answers() {
            return candidate;
        }
        self.current = Some(card);
        candidate
    }

    /// Remembers an observation of one candidate.
    fn record(&mut self, c: MeetingCandidate, now_ms: u64)
        ensures
            final(self)@ == (GateView {
                encounters: recorded(old(self)@.encounters, c@, now_ms),
                ..old(self)@
            }),
    {
        let ghost all = self@.encounters;
        let i: usize = self.position(c.key());
        if i < self.encounters.len() {
            let mut e = self.encounters[i].copy();
            let stale = now_ms.saturating_sub(e.last_seen_ms) > SIGNAL_FRESH_MS;
            if stale {
                e.first_seen_ms = now_ms;
            }
            if c.strength == Strength::Confirmed {
                if e.confirmed_since_ms.is_none() || stale {
                    e.confirmed_since_ms = Some(now_ms);
                }
            } else {
                e.confirmed_since_ms = None;
            }
            e.candidate = c;
            e.last_seen_ms = now_ms;
            self.encounters.set(i, e);
            assert(self@.encounters =~= all.update(i as int, e.seen()));
            return;
        }
        if self.encounters.len() >= MAX_RECENT_REMINDERS {
            let mut best: usize = 0;
            let mut k: usize = 1;
            assert(all.take(1).len() == 1);
            while k < self.encounters.len()
                invariant
                    1 <= k <= self.encounters@.len(),
                    best < k,
                    all == seen_all(self.encounters@),
                    best == oldest(all.take(k as int)),
                decreases self.encounters@.len() - k,
            {
                assert(all[k as int] == self.encounters@[k as int].seen());
                assert(all[best as int] == self.encounters@[best as int].seen());
                assert(all.take(k + 1).drop_last() =~= all.take(k as int));
                if self.encounters[k].last_seen_ms < self.encounters[best].last_seen_ms {
                    best = k;
                }
                k += 1;
            }
            assert(all.take(all.len() as int) =~= all);
            self.encounters.remove(best);
            assert(self@.encounters =~= all.remove(oldest(all)));
        }
        let confirmed_since_ms = if c.strength == Strength::Confirmed {
            Some(now_ms)
        } else {
            None
        };
        let e = Encounter {
            candidate: c,
            first_seen_ms: now_ms,
            last_seen_ms: now_ms,
            confirmed_since_ms,
            disposition: Disposition::Pending,
        };
        let ghost so_far = self@.encounters;
        self.encounters.push(e);
        assert(self@.encounters =~= so_far.push(e.seen()));
    }

    /// The position of the meeting that is offered, or the length.
    fn choose_next(&self, keys: &[String], now_ms: u64) -> (r: usize)
        ensures
            r <= self@.encounters.len(),
            r < self@.encounters.len() <==> choice(
                self@.encounters,
                texts(keys@),
                now_ms,
            ) is Some,
            r < self@.encounters.len() ==> choice(self@.encounters, texts(keys@), now_ms) == Some(
                r as int,
            ),
    {
        let ghost all = self@.encounters;
        let ghost known = texts(keys@);
        let mut best: Option<usize> = None;
        let mut i: usize = 0;
        assert(all.take(0) =~= Seq::<EncounterView>::empty());
        while i < self.encounters.len()
            invariant
                i <= self.encounters@.len(),
                all == seen_all(self.encounters@),
                known == texts(keys@),
                best is Some <==> choice(all.take(i as int), known, now_ms) is Some,
                best is Some ==> best->0 < i && choice(all.take(i as int), known, now_ms) == Some(
                    best->0 as int,
                ),
            decreases self.encounters@.len() - i,
        {
            assert(all[i as int] == self.encounters@[i as int].seen());
            assert(all.take(i + 1).drop_last() =~= all.take(i as int));
            let e = &self.encounters[i];
            let since: u64 = if e.candidate.strength == Strength::Confirmed {
                match e.confirmed_since_ms {
                    Some(at) => at,
                    None => now_ms,
                }
            } else {
                e.first_seen_ms
            };
            let open = match e.disposition {
                Disposition::Pending => true,
                Disposition::Snoozed(until) => now_ms >= until,
                _ => false,
            };
            let may = listed(keys, e.candidate.key()) && now_ms.saturating_sub(since)
                >= e.candidate.strength.dwell() && open;
            if may {
                match best {
                    None => {
                        best = Some(i);
                    },
                    Some(b) => {
                        assert(all[b as int] == self.encounters@[b as int].seen());
                        if e.candidate.priority() >= self.encounters[b].candidate.priority() {
                            best = Some(i);
                        }
                    },
                }
            }
            i += 1;
        }
        assert(all.take(all.len() as int) =~= all);
        match best {
            Some(b) => b,
            None => self.encounters.len(),
        }
    }

    /// Offers the next meeting, where there is one.
    fn offer(&mut self, keys: &[String], now_ms: u64)
        ensures
            final(self)@ == offered(old(self)@, texts(keys@), now_ms),
    {
        let i: usize = self.choose_next(keys, now_ms);
        if i < self.encounters.len() {
            assert(self@.encounters[i as int] == self.encounters@[i as int].seen());
            let candidate = self.encounters[i].candidate.clone();
            self.dispose(i, Disposition::Shown);
            self.next_id = self.next_id.saturating_add(1);
            self.current = Some(Prompt { id: self.next_id, candidate });
        }
    }

    /// Takes every meeting of the observation out of the offers.
    fn finish_all(&mut self, keys: &[String])
        ensures
            final(self)@ == (GateView {
                encounters: all_done(old(self)@.encounters, texts(keys@)),
                ..old(self)@
            }),
    {
        let ghost all = self@.encounters;
        let ghost rest = self@;
        let mut i: usize = 0;
        while i < self.encounters.len()
            invariant
                i <= self.encounters@.len(),
                self@.encounters.len() == all.len(),
                self@ == (GateView { encounters: self@.encounters, ..rest }),
                forall|k: int|
                    0 <= k < i ==> #[trigger] self@.encounters[k] == all_done(all, texts(keys@))[k],
                forall|k: int| i <= k < all.len() ==> #[trigger] self@.encounters[k] == all[k],
            decreases self.encounters@.len() - i,
        {
            assert(self@.encounters[i as int] == self.encounters@[i as int].seen());
            if listed(keys, self.encounters[i].candidate.key()) {
                self.dispose(i, Disposition::Done);
                assert(self@.encounters.len() == self.encounters@.len());
            }
            i += 1;
        }
        assert(self@.encounters =~= all_done(all, texts(keys@)));
    }

    /// Does some remembered meeting still stand for the card?
    fn card_valid(&self, prompt: &Prompt, now_ms: u64, ignored: &[String]) -> (r: bool)
        ensures
            r == still_valid(self@, prompt@, now_ms, texts(ignored@)),
    {
        let mut i: usize = 0;
        while i < self.encounters.len()
            invariant
                i <= self.encounters@.len(),
                forall|k: int|
                    0 <= k < i ==> !upholds(
                        #[trigger] self@.encounters[k],
                        prompt@.candidate.key(),
                        now_ms,
                        texts(ignored@),
                    ),
            decreases self.encounters@.len() - i,
        {
            let e = &self.encounters[i];
            assert(self@.encounters[i as int] == e.seen());
            if same(e.candidate.key(), prompt.candidate.key()) && now_ms.saturating_sub(
                e.last_seen_ms,
            ) <= SIGNAL_FRESH_MS && !listed(ignored, &e.candidate.app_key) {
                return true;
            }
            i += 1;
        }
        false
    }

    /// Does a confirmed call replace the card?
    fn card_replaced(&self, prompt: &Prompt, keys: &[String]) -> (r: bool)
        ensures
            r == replaced(self@, prompt@, texts(keys@)),
    {
        if prompt.candidate.strength == Strength::Confirmed {
            return false;
        }
        let mut i: usize = 0;
        while i < self.encounters.len()
            invariant
                i <= self.encounters@.len(),
                prompt@.candidate.strength != Strength::Confirmed,
                forall|k: int|
                    0 <= k < i ==> !outranks(#[trigger] self@.encounters[k], texts(keys@)),
            decreases self.encounters@.len() - i,
        {
            let e = &self.encounters[i];
            assert(self@.encounters[i as int] == e.seen());
            if listed(keys, e.candidate.key()) && e.candidate.strength == Strength::Confirmed
                && e.confirmed_since_ms.is_some() && e.disposition == Disposition::Pending {
                return true;
            }
            i += 1;
        }
        false
    }

    /// All candidates of one completed observation. Confirmed calls come before
    /// calendar guesses; one conference seen from several sources counts once.
    pub fn update(
        &mut self,
        now_ms: u64,
        candidates: &[MeetingCandidate],
        enabled: bool,
        meeting_active: bool,
        ignored_apps: &[String],
    )
        ensures
            final(self)@ == updated(
                old(self)@,
                now_ms,
                candidates_view(candidates@),
                enabled,
                meeting_active,
                texts(ignored_apps@),
            ),
            orderly(old(self)@) ==> orderly(final(self)@),
    {
        proof {
            if orderly(self@) {
                reminder_stays_orderly(
                    self@,
                    now_ms,
                    candidates_view(candidates@),
                    enabled,
                    meeting_active,
                    texts(ignored_apps@),
                    0,
                    Action::Dismiss,
                );
            }
        }
        if !enabled {
            self.encounters.clear();
            self.current = None;
            assert(self@.encounters =~= Seq::<EncounterView>::empty());
            return;
        }
        self.forget(now_ms);
        let pending = consider(candidates, ignored_apps);
        let ghost goal = observed(self@, Seq::empty(), candidates_view(pending@), now_ms);
        let mut keys: Vec<String> = Vec::new();
        let mut i: usize = 0;
        proof {
            assert(texts(keys@) =~= Seq::<Seq<char>>::empty());
            assert(candidates_view(pending@).skip(0) =~= candidates_view(pending@));
        }
        while i < pending.len()
            invariant
                i <= pending@.len(),
                goal == observed(
                    self@,
                    texts(keys@),
                    candidates_view(pending@).skip(i as int),
                    now_ms,
                ),
            decreases pending@.len() - i,
        {
            let ghost rest = candidates_view(pending@).skip(i as int);
            assert(rest[0] == pending@[i as int]@);
            assert(rest.drop_first() =~= candidates_view(pending@).skip(i + 1));
            let c = self.unify(pending[i].clone());
            if !listed(&keys, c.key()) {
                let key = c.key().to_owned();
                let ghost known = texts(keys@);
                keys.push(key);
                assert(texts(keys@) =~= known.push(key@));
                self.record(c, now_ms);
            }
            i += 1;
        }
        assert(candidates_view(pending@).skip(i as int) =~= Seq::<CandidateView>::empty());
        if meeting_active {
            self.finish_all(&keys);
            self.current = None;
            return;
        }
        let current = match &self.current {
            None => None,
            Some(p) => Some(p.clone()),
        };
        if let Some(prompt) = current {
            let valid = self.card_valid(&prompt, now_ms, ignored_apps);
            let stronger = self.card_replaced(&prompt, &keys);
            if valid && !stronger {
                return;
            }
            let at: usize = self.position(prompt.candidate.key());
            if at < self.encounters.len() {
                self.dispose(
                    at,
                    if stronger {
                        Disposition::Done
                    } else {
                        Disposition::Pending
                    },
                );
            }
            self.current = None;
        }
        self.offer(&keys, now_ms);
    }
}


/// No two of the remembered meetings are the same one.
pub open spec fn each_once(es: Seq<EncounterView>) -> bool {
    forall|i: int, j: int|
        0 <= i < j < es.len() ==> (#[trigger] es[i]).candidate.key() != (
        #[trigger] es[j]).candidate.key()
}

/// What every reminder that started empty satisfies: it remembers at most
/// `MAX_RECENT_REMINDERS` meetings, each of them once; no card has a number beyond
/// the last; and no card shows a meeting that was answered.
pub open spec fn orderly(g: GateView) -> bool {
    &&& g.encounters.len() <= MAX_RECENT_REMINDERS
    &&& each_once(g.encounters)
    &&& g.current is Some ==> g.current->0.id <= g.next_id
    &&& g.current is Some ==> forall|i: int|
        0 <= i < g.encounters.len() && (#[trigger] g.encounters[i]).candidate.key()
            == g.current->0.candidate.key() ==> !g.encounters[i].disposition.is_answer()
}

proof fn with_key_finds(es: Seq<EncounterView>, key: Seq<char>)
    ensures
        0 <= with_key(es, key) <= es.len(),
        with_key(es, key) < es.len() ==> es[with_key(es, key)].candidate.key() == key,
        forall|k: int|
            0 <= k < with_key(es, key) ==> (#[trigger] es[k]).candidate.key() != key,
{
    crate::seqs::first_where_is_first(es, |e: EncounterView| e.candidate.key() == key, 0);
}

/// The row was there before, in another place than `i` and under another identity
/// than `key`.
spec fn stayed(es: Seq<EncounterView>, i: int, key: Seq<char>, row: EncounterView) -> bool {
    row.candidate.key() != key && exists|m: int|
        0 <= m < es.len() && m != i && #[trigger] es[m] == row
}

/// The row is `e`, where no other meeting has its identity, or `e` and that other
/// meeting in one.
spec fn replacement(es: Seq<EncounterView>, i: int, e: EncounterView, row: EncounterView) -> bool {
    ||| row == e && forall|m: int|
        0 <= m < es.len() && m != i ==> (#[trigger] es[m]).candidate.key() != e.candidate.key()
    ||| exists|m: int|
        0 <= m < es.len() && m != i && (#[trigger] es[m]).candidate.key() == e.candidate.key()
            && row == merged(e, es[m])
}

/// What the replacement of a meeting leaves: every other meeting of another
/// identity, and one meeting of the new identity.
spec fn rows_after_replacement(
    es: Seq<EncounterView>,
    i: int,
    e: EncounterView,
    out: Seq<EncounterView>,
) -> bool {
    let key = e.candidate.key();
    &&& each_once(out)
    &&& out.len() <= es.len()
    &&& forall|k: int|
        0 <= k < out.len() ==> stayed(es, i, key, #[trigger] out[k]) || (out[k].candidate.key()
            == key && replacement(es, i, e, out[k]))
    &&& exists|k: int| 0 <= k < out.len() && (#[trigger] out[k]).candidate.key() == key
    &&& forall|m: int|
        0 <= m < es.len() && m != i && (#[trigger] es[m]).candidate.key() != key ==> out.contains(
            es[m],
        )
}

proof fn replacement_rows(es: Seq<EncounterView>, i: int, e: EncounterView)
    requires
        0 <= i < es.len(),
        each_once(es),
    ensures
        rows_after_replacement(es, i, e, replaced_at(es, i, e)),
        e == es[i] ==> replaced_at(es, i, e) == es,
{
    let others = es.remove(i);
    let key = e.candidate.key();
    let j = with_key(others, key);
    with_key_finds(others, key);
    if j < others.len() {
        replacement_merges(es, i, e, j);
        if e == es[i] {
            let m = if j < i {
                j
            } else {
                j + 1
            };
            assert(es[m] == others[j]);
            assert(es[m].candidate.key() != es[i].candidate.key());
        }
    } else {
        assert forall|m: int| 0 <= m < es.len() && m != i implies (
        #[trigger] es[m]).candidate.key() != key by {
            let k = if m < i {
                m
            } else {
                m - 1
            };
            assert(others[k] == es[m]);
        }
        replacement_stands(es, i, e);
        if e == es[i] {
            assert(es.update(i, e) =~= es);
        }
    }
}

proof fn replacement_merges(es: Seq<EncounterView>, i: int, e: EncounterView, j: int)
    requires
        0 <= i < es.len(),
        each_once(es),
        0 <= j < es.len() - 1,
        es.remove(i)[j].candidate.key() == e.candidate.key(),
    ensures
        rows_after_replacement(
            es,
            i,
            e,
            es.remove(i).update(j, merged(e, es.remove(i)[j])),
        ),
{
    let others = es.remove(i);
    let key = e.candidate.key();
    let one = merged(e, others[j]);
    let out = others.update(j, one);
    let from = |k: int|
        if k < i {
            k
        } else {
            k + 1
        };
    assert forall|k: int| 0 <= k < out.len() && k != j implies #[trigger] out[k] == es[from(k)]
        && out[k].candidate.key() != key by {
        assert(others[k] == es[from(k)] && others[j] == es[from(j)]);
        if k < j {
            assert(es[from(k)].candidate.key() != es[from(j)].candidate.key());
        } else {
            assert(es[from(j)].candidate.key() != es[from(k)].candidate.key());
        }
    }
    assert(others[j] == es[from(j)]);
    assert(replacement(es, i, e, one));
    assert(out[j] == one && one.candidate.key() == key);
    assert forall|k: int| 0 <= k < out.len() implies stayed(es, i, key, #[trigger] out[k]) || (
    out[k].candidate.key() == key && replacement(es, i, e, out[k])) by {
        if k != j {
            assert(es[from(k)] == out[k]);
        }
    }
    assert forall|x: int, y: int| 0 <= x < y < out.len() implies (
    #[trigger] out[x]).candidate.key() != (#[trigger] out[y]).candidate.key() by {
        if x != j && y != j {
            assert(out[x] == es[from(x)] && out[y] == es[from(y)]);
        }
    }
    assert forall|m: int|
        0 <= m < es.len() && m != i && (#[trigger] es[m]).candidate.key()
            != key implies out.contains(es[m]) by {
        let k = if m < i {
            m
        } else {
            m - 1
        };
        assert(from(k) == m);
        assert(k != j);
        assert(out[k] == es[m]);
    }
}

proof fn replacement_stands(es: Seq<EncounterView>, i: int, e: EncounterView)
    requires
        0 <= i < es.len(),
        each_once(es),
        forall|m: int|
            0 <= m < es.len() && m != i ==> (#[trigger] es[m]).candidate.key()
                != e.candidate.key(),
    ensures
        rows_after_replacement(es, i, e, es.update(i, e)),
{
    let out = es.update(i, e);
    let key = e.candidate.key();
    assert(out[i] == e);
    assert(replacement(es, i, e, e));
    assert forall|k: int| 0 <= k < out.len() implies stayed(es, i, key, #[trigger] out[k]) || (
    out[k].candidate.key() == key && replacement(es, i, e, out[k])) by {
        if k != i {
            assert(es[k] == out[k]);
        }
    }
    assert forall|x: int, y: int| 0 <= x < y < out.len() implies (
    #[trigger] out[x]).candidate.key() != (#[trigger] out[y]).candidate.key() by {
        if x != i {
            assert(out[x] == es[x]);
        }
        if y != i {
            assert(out[y] == es[y]);
        }
    }
    assert forall|m: int| 0 <= m < es.len() && m != i implies out.contains(#[trigger] es[m]) by {
        assert(out[m] == es[m]);
    }
}

/// What the unification of a candidate changes: nothing of the meetings, or one of
/// them, which had no conference, gets the one that the candidate names.
#[verifier::spinoff_prover]
proof fn unified_rows(g: GateView, c: CandidateView) -> (i: int)
    requires
        orderly(g),
    ensures
        orderly(unified(g, c).0),
        unified(g, c).0.next_id == g.next_id,
        unified(g, c).0.current is Some ==> g.current is Some && unified(g, c).0.current->0.id
            == g.current->0.id,
        unified(g, c).1.instance_key == c.instance_key,
        unified(g, c).1.app_key == c.app_key,
        unified(g, c).1.conference_key == c.conference_key || (c.conference_key is None
            && exists|m: int|
            0 <= m < g.encounters.len() && (#[trigger] g.encounters[m]).candidate.conference_key
                == unified(g, c).1.conference_key),
        unified(g, c).0.encounters == g.encounters || {
            &&& 0 <= i < g.encounters.len()
            &&& g.encounters[i].candidate.conference_key is None
            &&& g.encounters[i].candidate.instance_key == c.instance_key
            &&& c.conference_key is Some
            &&& unified(g, c).0.encounters == replaced_at(
                g.encounters,
                i,
                renamed(g.encounters[i], c),
            )
            &&& rows_after_replacement(
                g.encounters,
                i,
                renamed(g.encounters[i], c),
                unified(g, c).0.encounters,
            )
        },
{
    let same_window = |e: EncounterView| alias(e, c);
    let i = first_where(g.encounters, same_window, 0);
    if g.encounters.filter(same_window).len() == 1 {
        crate::seqs::first_where_of_filter(g.encounters, same_window);
        crate::seqs::first_where_is_first(g.encounters, same_window, 0);
        let entry = g.encounters[i];
        assert(alias(entry, c));
        let e = EncounterView {
            candidate: entry.candidate.with_conference(agreed_conference(entry, c)),
            ..entry
        };
        replacement_rows(g.encounters, i, e);
        let (g1, c1) = unified(g, c);
        if g1.current is Some {
            let key = g1.current->0.candidate.key();
            with_key_finds(g1.encounters, key);
            let at = with_key(g1.encounters, key);
            assert forall|k: int|
                0 <= k < g1.encounters.len() && (
                #[trigger] g1.encounters[k]).candidate.key() == key implies !g1.encounters[k].disposition.is_answer() by {
                assert(k >= at);
                if k > at {
                    assert(g1.encounters[at].candidate.key() != g1.encounters[k].candidate.key());
                }
            }
        }
    }
    i
}

/// The meeting with the conference that the candidate names.
spec fn renamed(e: EncounterView, c: CandidateView) -> EncounterView {
    EncounterView { candidate: e.candidate.with_conference(c.conference_key), ..e }
}

/// What the record of a candidate changes: the meeting of its identity, and, where
/// that is new and there is no room, the one seen least recently.
proof fn recorded_rows(es: Seq<EncounterView>, c: CandidateView, now: u64)
    requires
        each_once(es),
        es.len() <= MAX_RECENT_REMINDERS,
    ensures
        each_once(recorded(es, c, now)),
        recorded(es, c, now).len() <= MAX_RECENT_REMINDERS,
        recorded(es, c, now).len() <= es.len() + 1,
        forall|k: int|
            0 <= k < recorded(es, c, now).len() ==> {
                let row = #[trigger] recorded(es, c, now)[k];
                ||| row.candidate.key() != c.key() && es.contains(row)
                ||| row.candidate == c && row.last_seen_ms == now && (row.disposition
                    == Disposition::Pending || exists|m: int|
                    0 <= m < es.len() && (#[trigger] es[m]).candidate.key() == c.key()
                        && es[m].disposition == row.disposition)
            },
        exists|k: int|
            0 <= k < recorded(es, c, now).len() && (#[trigger] recorded(es, c, now)[k]).candidate
                == c,
        forall|m: int|
            0 <= m < es.len() && (#[trigger] es[m]).candidate.key() != c.key() && (m != oldest(es)
                || es.len() < MAX_RECENT_REMINDERS || with_key(es, c.key()) < es.len())
                ==> recorded(es, c, now).contains(es[m]),
        forall|m: int|
            0 <= m < es.len() && (#[trigger] es[m]).candidate.key() == c.key() ==> recorded(
                es,
                c,
                now,
            ).contains(seen_again(es[m], c, now)),
{
    let key = c.key();
    let i = with_key(es, key);
    with_key_finds(es, key);
    oldest_in_range(es);
    let out = recorded(es, c, now);
    if i < es.len() {
        let row = seen_again(es[i], c, now);
        assert(out[i] == row);
        assert forall|m: int| 0 <= m < es.len() && m != i implies (
        #[trigger] es[m]).candidate.key() != key && out.contains(es[m]) by {
            assert(out[m] == es[m]);
            if m < i {
                assert(es[m].candidate.key() != es[i].candidate.key());
            } else {
                assert(es[i].candidate.key() != es[m].candidate.key());
            }
        }
        assert forall|x: int, y: int| 0 <= x < y < out.len() implies (
        #[trigger] out[x]).candidate.key() != (#[trigger] out[y]).candidate.key() by {
            assert(out[x].candidate.key() == es[x].candidate.key());
            assert(out[y].candidate.key() == es[y].candidate.key());
        }
    } else {
        let at = oldest(es);
        let rest = if es.len() >= MAX_RECENT_REMINDERS {
            es.remove(at)
        } else {
            es
        };
        let back = |k: int|
            if es.len() >= MAX_RECENT_REMINDERS && k >= at {
                k + 1
            } else {
                k
            };
        assert(out =~= rest.push(first_seen(c, now)));
        assert(out[rest.len() as int] == first_seen(c, now));
        assert forall|k: int| 0 <= k < rest.len() implies #[trigger] out[k] == es[back(k)]
            && 0 <= back(k) < es.len() by {}
        assert forall|x: int, y: int| 0 <= x < y < out.len() implies (
        #[trigger] out[x]).candidate.key() != (#[trigger] out[y]).candidate.key() by {
            assert(out[x] == es[back(x)]);
            if y < rest.len() {
                assert(out[y] == es[back(y)]);
            }
        }
        assert forall|m: int|
            0 <= m < es.len() && (m != at || es.len() < MAX_RECENT_REMINDERS) implies out.contains(
            #[trigger] es[m],
        ) by {
            let k = if es.len() >= MAX_RECENT_REMINDERS && m > at {
                m - 1
            } else {
                m
            };
            assert(out[k] == es[m]);
        }
    }
}

proof fn recorded_orderly(g: GateView, c: CandidateView, now: u64)
    requires
        orderly(g),
    ensures
        orderly(GateView { encounters: recorded(g.encounters, c, now), ..g }),
{
    let es = g.encounters;
    let out = recorded(es, c, now);
    recorded_rows(es, c, now);
    if g.current is Some {
        let key = g.current->0.candidate.key();
        assert forall|k: int|
            0 <= k < out.len() && (#[trigger] out[k]).candidate.key()
                == key implies !out[k].disposition.is_answer() by {
            if out[k].candidate.key() != c.key() {
                let m = choose|m: int| 0 <= m < es.len() && es[m] == out[k];
                assert(es[m].candidate.key() == key);
            }
        }
    }
}

proof fn observed_keeps(g: GateView, keys: Seq<Seq<char>>, cs: Seq<CandidateView>, now: u64)
    requires
        orderly(g),
    ensures
        orderly(observed(g, keys, cs, now).0),
        observed(g, keys, cs, now).0.next_id == g.next_id,
        observed(g, keys, cs, now).0.current is Some ==> g.current is Some && observed(
            g,
            keys,
            cs,
            now,
        ).0.current->0.id == g.current->0.id,
    decreases cs.len(),
{
    if cs.len() > 0 {
        unified_rows(g, cs[0]);
        let (g1, c) = unified(g, cs[0]);
        if keys.contains(c.key()) {
            observed_keeps(g1, keys, cs.drop_first(), now);
        } else {
            recorded_orderly(g1, c, now);
            observed_keeps(
                GateView { encounters: recorded(g1.encounters, c, now), ..g1 },
                keys.push(c.key()),
                cs.drop_first(),
                now,
            );
        }
    }
}

proof fn filter_keeps_each_once(es: Seq<EncounterView>, p: spec_fn(EncounterView) -> bool)
    requires
        each_once(es),
    ensures
        each_once(es.filter(p)),
        forall|k: int| 0 <= k < es.filter(p).len() ==> es.contains(#[trigger] es.filter(p)[k]),
    decreases es.len(),
{
    reveal(Seq::filter);
    if es.len() > 0 {
        let front = es.drop_last();
        assert(each_once(front)) by {
            assert forall|x: int, y: int| 0 <= x < y < front.len() implies (
            #[trigger] front[x]).candidate.key() != (#[trigger] front[y]).candidate.key() by {
                assert(front[x] == es[x] && front[y] == es[y]);
            }
        }
        filter_keeps_each_once(front, p);
        let out = es.filter(p);
        let head = front.filter(p);
        assert forall|k: int| 0 <= k < head.len() implies es.contains(#[trigger] head[k])
            && head[k].candidate.key() != es.last().candidate.key() by {
            let m = choose|m: int| 0 <= m < front.len() && front[m] == head[k];
            assert(es[m] == head[k]);
            assert(es[m].candidate.key() != es[es.len() - 1].candidate.key());
        }
        assert forall|x: int, y: int| 0 <= x < y < out.len() implies (
        #[trigger] out[x]).candidate.key() != (#[trigger] out[y]).candidate.key() by {
            assert(out[x] == head[x]);
            if y < head.len() {
                assert(out[y] == head[y]);
            }
        }
    }
}

/// To give one meeting another disposition changes no identity.
proof fn disposing_keeps_each_once(es: Seq<EncounterView>, i: int, disposition: Disposition)
    requires
        each_once(es),
        0 <= i < es.len(),
    ensures
        each_once(es.update(i, EncounterView { disposition, ..es[i] })),
{
    let out = es.update(i, EncounterView { disposition, ..es[i] });
    assert forall|x: int, y: int| 0 <= x < y < out.len() implies (
    #[trigger] out[x]).candidate.key() != (#[trigger] out[y]).candidate.key() by {
        assert(out[x].candidate.key() == es[x].candidate.key());
        assert(out[y].candidate.key() == es[y].candidate.key());
    }
}

proof fn offered_orderly(g: GateView, keys: Seq<Seq<char>>, now: u64)
    requires
        orderly(g),
        g.current is None,
    ensures
        orderly(offered(g, keys, now)),
{
    choice_is_the_best(g.encounters, keys, now);
    if let Some(i) = choice(g.encounters, keys, now) {
        disposing_keeps_each_once(g.encounters, i, Disposition::Shown);
        let out = offered(g, keys, now).encounters;
        assert forall|k: int|
            0 <= k < out.len() && (#[trigger] out[k]).candidate.key()
                == g.encounters[i].candidate.key() implies !out[k].disposition.is_answer() by {
            assert(out[i].candidate.key() == out[k].candidate.key());
            if k < i {
                assert(out[k].candidate.key() != out[i].candidate.key());
            } else if i < k {
                assert(out[i].candidate.key() != out[k].candidate.key());
            }
        }
    }
}

proof fn settled_orderly(
    g: GateView,
    keys: Seq<Seq<char>>,
    now: u64,
    ignored: Seq<Seq<char>>,
)
    requires
        orderly(g),
    ensures
        orderly(settled(g, keys, now, ignored)),
{
    match g.current {
        None => offered_orderly(g, keys, now),
        Some(p) => {
            let stronger = replaced(g, p, keys);
            let disposition = if stronger {
                Disposition::Done
            } else {
                Disposition::Pending
            };
            let i = with_key(g.encounters, p.candidate.key());
            with_key_finds(g.encounters, p.candidate.key());
            if i < g.encounters.len() {
                disposing_keeps_each_once(g.encounters, i, disposition);
            }
            offered_orderly(
                GateView {
                    encounters: disposed(g.encounters, p.candidate.key(), disposition),
                    current: None,
                    next_id: g.next_id,
                },
                keys,
                now,
            );
        },
    }
}

proof fn oldest_in_range(es: Seq<EncounterView>)
    ensures
        0 <= oldest(es),
        es.len() > 0 ==> oldest(es) < es.len(),
    decreases es.len(),
{
    if es.len() > 1 {
        oldest_in_range(es.drop_last());
    }
}

/// The meeting that makes room is the one seen least recently.
pub proof fn oldest_was_seen_least_recently(es: Seq<EncounterView>)
    requires
        es.len() > 0,
    ensures
        0 <= oldest(es) < es.len(),
        forall|i: int|
            0 <= i < es.len() ==> es[oldest(es)].last_seen_ms <= (#[trigger] es[i]).last_seen_ms,
    decreases es.len(),
{
    if es.len() > 1 {
        oldest_was_seen_least_recently(es.drop_last());
        assert forall|i: int| 0 <= i < es.len() implies es[oldest(es)].last_seen_ms <= (
        #[trigger] es[i]).last_seen_ms by {
            if i < es.len() - 1 {
                assert(es.drop_last()[i] == es[i]);
            }
        }
    }
}

/// The meeting that is offered may be offered, and no other that may be has a
/// higher priority, nor the same one and a later place; nothing is offered only where
/// nothing may be.
pub proof fn choice_is_the_best(es: Seq<EncounterView>, keys: Seq<Seq<char>>, now: u64)
    ensures
        choice(es, keys, now) is None <==> forall|i: int|
            0 <= i < es.len() ==> !eligible(#[trigger] es[i], keys, now),
        choice(es, keys, now) matches Some(b) ==> {
            &&& 0 <= b < es.len()
            &&& eligible(es[b], keys, now)
            &&& forall|i: int|
                0 <= i < es.len() && eligible(#[trigger] es[i], keys, now)
                    ==> es[i].candidate.priority() <= es[b].candidate.priority()
            &&& forall|i: int|
                b < i < es.len() && eligible(#[trigger] es[i], keys, now)
                    ==> es[i].candidate.priority() < es[b].candidate.priority()
        },
    decreases es.len(),
{
    if es.len() > 0 {
        let front = es.drop_last();
        choice_is_the_best(front, keys, now);
        assert forall|i: int| 0 <= i < front.len() implies front[i] == #[trigger] es[i] by {}
    }
}

/// The meeting was answered for good, or is snoozed until later than `now`.
pub open spec fn quiet(e: EncounterView, now: u64) -> bool {
    e.disposition == Disposition::Done || (e.disposition matches Disposition::Snoozed(until) && now
        < until)
}

/// A meeting that was answered is not offered: neither one that the person
/// dismissed or reviewed, nor one snoozed until later.
pub proof fn answered_meetings_stay_quiet(e: EncounterView, keys: Seq<Seq<char>>, now: u64)
    requires
        quiet(e, now),
    ensures
        !eligible(e, keys, now),
{
}

/// Some remembered meeting of that identity was answered.
pub open spec fn answered_key(es: Seq<EncounterView>, key: Seq<char>, now: u64) -> bool {
    exists|i: int|
        0 <= i < es.len() && (#[trigger] es[i]).candidate.key() == key && quiet(es[i], now)
}

/// The candidate leaves the identity of a meeting alone: it is not the observation
/// by which the window `key` turns out to be another conference.
pub open spec fn keeps_identity(c: CandidateView, key: Seq<char>) -> bool {
    c.instance_key == key ==> c.conference_key is None || c.conference_key == Some(key)
}

proof fn unifying_keeps_answers(g: GateView, c: CandidateView, key: Seq<char>, now: u64)
    requires
        orderly(g),
        answered_key(g.encounters, key, now),
        keeps_identity(c, key),
    ensures
        answered_key(unified(g, c).0.encounters, key, now),
        unified(g, c).0.encounters.len() <= g.encounters.len(),
{
    let i = unified_rows(g, c);
    let es = g.encounters;
    let out = unified(g, c).0.encounters;
    if out != es {
        let e = renamed(es[i], c);
        let r = choose|r: int|
            0 <= r < es.len() && (#[trigger] es[r]).candidate.key() == key && quiet(es[r], now);
        if e.candidate.key() == key {
            let k = choose|k: int| 0 <= k < out.len() && (#[trigger] out[k]).candidate.key() == key;
            assert(stayed(es, i, key, out[k]) || replacement(es, i, e, out[k]));
            assert(replacement(es, i, e, out[k]));
            if out[k] == e && forall|m: int|
                0 <= m < es.len() && m != i ==> (#[trigger] es[m]).candidate.key()
                    != e.candidate.key() {
                assert(r == i);
            } else {
                let m = choose|m: int|
                    0 <= m < es.len() && m != i && (#[trigger] es[m]).candidate.key()
                        == e.candidate.key() && out[k] == merged(e, es[m]);
                if r != i && r != m {
                    if r < m {
                        assert(es[r].candidate.key() != es[m].candidate.key());
                    } else {
                        assert(es[m].candidate.key() != es[r].candidate.key());
                    }
                }
            }
            assert(quiet(out[k], now));
        } else {
            assert(r != i);
            assert(out.contains(es[r]));
            let k = choose|k: int| 0 <= k < out.len() && out[k] == es[r];
            assert(out[k].candidate.key() == key);
        }
    }
}

/// A window that turns out to be a conference brings its answer along: whether the
/// person answered the offer of the window or that of the conference, the conference
/// is answered, and no card shows it.
pub proof fn an_answer_holds_for_every_source(g: GateView, c: CandidateView, i: int, now: u64)
    requires
        orderly(g),
        c.conference_key is Some,
        g.encounters.filter(|e: EncounterView| alias(e, c)).len() == 1,
        0 <= i < g.encounters.len(),
        alias(g.encounters[i], c),
        quiet(g.encounters[i], now) || answered_key(g.encounters, c.conference_key->0, now),
    ensures
        ({
            let after = unified(g, c).0;
            let key = c.conference_key->0;
            &&& answered_key(after.encounters, key, now)
            &&& after.current is Some ==> after.current->0.candidate.key() != key
        }),
{
    let key = c.conference_key->0;
    let es = g.encounters;
    let out = unified(g, c).0.encounters;
    let same_window = |e: EncounterView| alias(e, c);
    unified_rows(g, c);
    crate::seqs::first_where_of_filter(es, same_window);
    crate::seqs::first_where_is_first(es, same_window, 0);
    let at = first_where(es, same_window, 0);
    only_one_passes(es, same_window, at, i);
    if answered_key(es, key, now) {
        unifying_keeps_answers(g, c, key, now);
    } else {
        let e = renamed(es[i], c);
        replacement_rows(es, i, e);
        assert(out == replaced_at(es, i, e));
        let k = choose|k: int| 0 <= k < out.len() && (#[trigger] out[k]).candidate.key() == key;
        assert(stayed(es, i, key, out[k]) || replacement(es, i, e, out[k]));
        assert(quiet(out[k], now));
    }
}

/// Two positions that pass a filter that keeps one element are the same.
proof fn only_one_passes(
    es: Seq<EncounterView>,
    p: spec_fn(EncounterView) -> bool,
    i: int,
    j: int,
)
    requires
        es.filter(p).len() == 1,
        0 <= i < es.len(),
        0 <= j < es.len(),
        p(es[i]),
        p(es[j]),
    ensures
        i == j,
    decreases es.len(),
{
    reveal(Seq::filter);
    let front = es.drop_last();
    if i < es.len() - 1 {
        assert(front[i] == es[i]);
        front.lemma_filter_contains(p, i);
    }
    if j < es.len() - 1 {
        assert(front[j] == es[j]);
        front.lemma_filter_contains(p, j);
    }
    if i < es.len() - 1 && j < es.len() - 1 {
        only_one_passes(front, p, i, j);
    }
}

proof fn observing_keeps_answers(
    g: GateView,
    keys: Seq<Seq<char>>,
    cs: Seq<CandidateView>,
    key: Seq<char>,
    now: u64,
)
    requires
        orderly(g),
        answered_key(g.encounters, key, now),
        g.encounters.len() + cs.len() <= MAX_RECENT_REMINDERS,
        forall|i: int| 0 <= i < cs.len() ==> keeps_identity(#[trigger] cs[i], key),
    ensures
        answered_key(observed(g, keys, cs, now).0.encounters, key, now),
    decreases cs.len(),
{
    if cs.len() > 0 {
        unified_rows(g, cs[0]);
        unifying_keeps_answers(g, cs[0], key, now);
        let (g1, c) = unified(g, cs[0]);
        let rest = cs.drop_first();
        assert forall|i: int| 0 <= i < rest.len() implies keeps_identity(
            #[trigger] rest[i],
            key,
        ) by {
            assert(rest[i] == cs[i + 1]);
        }
        if keys.contains(c.key()) {
            observing_keeps_answers(g1, keys, rest, key, now);
        } else {
            let es = g1.encounters;
            let out = recorded(es, c, now);
            recorded_rows(es, c, now);
            recorded_orderly(g1, c, now);
            let r = choose|r: int|
                0 <= r < es.len() && (#[trigger] es[r]).candidate.key() == key && quiet(
                    es[r],
                    now,
                );
            let row = if key == c.key() {
                seen_again(es[r], c, now)
            } else {
                es[r]
            };
            assert(out.contains(row));
            let k = choose|k: int| 0 <= k < out.len() && out[k] == row;
            assert(out[k].candidate.key() == key && quiet(out[k], now));
            observing_keeps_answers(
                GateView { encounters: out, ..g1 },
                keys.push(c.key()),
                rest,
                key,
                now,
            );
        }
    }
}

/// A meeting that was answered is not offered again while it is remembered: after
/// any observation it is still answered, and no card shows it, whichever source it
/// is seen from. (A full memory may have to forget it, and a window that turns out
/// to be another conference goes on under that identity.)
pub proof fn answered_meetings_are_not_offered_again(
    g: GateView,
    i: int,
    now: u64,
    candidates: Seq<CandidateView>,
    meeting_active: bool,
    ignored: Seq<Seq<char>>,
)
    requires
        orderly(g),
        0 <= i < g.encounters.len(),
        quiet(g.encounters[i], now),
        remembered(g.encounters[i], now),
        g.encounters.len() + candidates.len() <= MAX_RECENT_REMINDERS,
        forall|k: int|
            0 <= k < candidates.len() ==> keeps_identity(
                #[trigger] candidates[k],
                g.encounters[i].candidate.key(),
            ),
    ensures
        ({
            let after = updated(g, now, candidates, true, meeting_active, ignored);
            let key = g.encounters[i].candidate.key();
            &&& answered_key(after.encounters, key, now)
            &&& after.current is Some ==> after.current->0.candidate.key() != key
        }),
{
    let key = g.encounters[i].candidate.key();
    let p = |e: EncounterView| remembered(e, now);
    let kept = GateView { encounters: g.encounters.filter(p), ..g };
    g.encounters.lemma_filter_len(p);
    kept_orderly(g, now);
    assert(answered_key(kept.encounters, key, now)) by {
        g.encounters.lemma_filter_contains(p, i);
        let k = choose|k: int| 0 <= k < kept.encounters.len() && kept.encounters[k] == g.encounters[i];
        assert(kept.encounters[k].candidate.key() == key);
    }
    let cs = considered(candidates, ignored);
    considered_comes_from(candidates, ignored);
    assert forall|k: int| 0 <= k < cs.len() implies keeps_identity(#[trigger] cs[k], key) by {
        assert(candidates.contains(cs[k]));
    }
    observing_keeps_answers(kept, Seq::empty(), cs, key, now);
    observed_keeps(kept, Seq::empty(), cs, now);
    let (g1, keys) = observed(kept, Seq::empty(), cs, now);
    let es = g1.encounters;
    let r = choose|r: int|
        0 <= r < es.len() && (#[trigger] es[r]).candidate.key() == key && quiet(es[r], now);
    let after = updated(g, now, candidates, true, meeting_active, ignored);
    if meeting_active {
        assert(after.encounters[r].candidate.key() == key);
    } else {
        settled_orderly(g1, keys, now, ignored);
        match g1.current {
            None => {
                choice_is_the_best(es, keys, now);
            },
            Some(card) => {
                let disposition = if replaced(g1, card, keys) {
                    Disposition::Done
                } else {
                    Disposition::Pending
                };
                with_key_finds(es, card.candidate.key());
                assert(card.candidate.key() != key);
                let ds = disposed(es, card.candidate.key(), disposition);
                assert(ds[r] == es[r]);
                choice_is_the_best(ds, keys, now);
            },
        }
        assert(after.encounters[r].candidate.key() == key && quiet(after.encounters[r], now));
    }
}

/// How many of the meetings were last seen at `now`.
spec fn seen_now(es: Seq<EncounterView>, now: u64) -> nat
    decreases es.len(),
{
    if es.len() == 0 {
        0
    } else {
        seen_now(es.drop_last(), now) + one_if(es.last().last_seen_ms == now)
    }
}

spec fn one_if(b: bool) -> nat {
    if b {
        1
    } else {
        0
    }
}

proof fn seen_now_updated(es: Seq<EncounterView>, now: u64, i: int, e: EncounterView)
    requires
        0 <= i < es.len(),
    ensures
        seen_now(es.update(i, e), now) + one_if(es[i].last_seen_ms == now) == seen_now(es, now)
            + one_if(e.last_seen_ms == now),
    decreases es.len(),
{
    if i < es.len() - 1 {
        seen_now_updated(es.drop_last(), now, i, e);
        assert(es.update(i, e).drop_last() =~= es.drop_last().update(i, e));
    } else {
        assert(es.update(i, e).drop_last() =~= es.drop_last());
    }
}

proof fn seen_now_removed(es: Seq<EncounterView>, now: u64, i: int)
    requires
        0 <= i < es.len(),
    ensures
        seen_now(es.remove(i), now) + one_if(es[i].last_seen_ms == now) == seen_now(es, now),
    decreases es.len(),
{
    if i < es.len() - 1 {
        seen_now_removed(es.drop_last(), now, i);
        assert(es.remove(i).drop_last() =~= es.drop_last().remove(i));
    } else {
        assert(es.remove(i) =~= es.drop_last());
    }
}

/// Where not all meetings were seen at `now`, the one that makes room was not.
proof fn oldest_was_not_seen_now(es: Seq<EncounterView>, now: u64)
    requires
        seen_now(es, now) < es.len(),
        forall|i: int| 0 <= i < es.len() ==> (#[trigger] es[i]).last_seen_ms <= now,
    ensures
        0 <= oldest(es) < es.len(),
        es[oldest(es)].last_seen_ms < now,
{
    oldest_was_seen_least_recently(es);
    if es[oldest(es)].last_seen_ms == now {
        all_seen_now(es, now);
    }
}

proof fn all_seen_now(es: Seq<EncounterView>, now: u64)
    requires
        forall|i: int| 0 <= i < es.len() ==> (#[trigger] es[i]).last_seen_ms == now,
    ensures
        seen_now(es, now) == es.len(),
    decreases es.len(),
{
    if es.len() > 0 {
        let front = es.drop_last();
        assert forall|i: int| 0 <= i < front.len() implies (
        #[trigger] front[i]).last_seen_ms == now by {
            assert(front[i] == es[i]);
        }
        all_seen_now(front, now);
    }
}

proof fn none_seen_now(es: Seq<EncounterView>, now: u64)
    requires
        forall|i: int| 0 <= i < es.len() ==> (#[trigger] es[i]).last_seen_ms < now,
    ensures
        seen_now(es, now) == 0,
    decreases es.len(),
{
    if es.len() > 0 {
        let front = es.drop_last();
        assert forall|i: int| 0 <= i < front.len() implies (
        #[trigger] front[i]).last_seen_ms < now by {
            assert(front[i] == es[i]);
        }
        none_seen_now(front, now);
    }
}

/// `is_conference` tells the identities that the candidate gives apart: that of its
/// conference, where it names one, and that of its window.
pub open spec fn told_apart(c: CandidateView, is_conference: spec_fn(Seq<char>) -> bool) -> bool {
    &&& c.conference_key is Some ==> is_conference(c.conference_key->0)
    &&& !is_conference(c.instance_key)
}

/// What holds of a remembered meeting in the middle of an observation: where its
/// identity was seen, it is up to date.
spec fn current_row(
    e: EncounterView,
    keys: Seq<Seq<char>>,
    now: u64,
    ignored: Seq<Seq<char>>,
    is_conference: spec_fn(Seq<char>) -> bool,
) -> bool {
    &&& e.last_seen_ms <= now
    &&& told_apart(e.candidate, is_conference)
    &&& keys.contains(e.candidate.key()) ==> e.last_seen_ms == now && !ignored.contains(
        e.candidate.app_key,
    )
}

/// What holds of all of them: each is up to date, each conference that was seen is
/// among them, and no more were seen than identities.
spec fn up_to_date(
    es: Seq<EncounterView>,
    keys: Seq<Seq<char>>,
    now: u64,
    ignored: Seq<Seq<char>>,
    is_conference: spec_fn(Seq<char>) -> bool,
) -> bool {
    &&& forall|i: int|
        0 <= i < es.len() ==> current_row(#[trigger] es[i], keys, now, ignored, is_conference)
    &&& forall|k: int|
        0 <= k < keys.len() && is_conference(#[trigger] keys[k]) ==> has_key(es, keys[k])
    &&& seen_now(es, now) <= keys.len()
}

spec fn has_key(es: Seq<EncounterView>, key: Seq<char>) -> bool {
    exists|i: int| 0 <= i < es.len() && (#[trigger] es[i]).candidate.key() == key
}

proof fn unifying_stays_up_to_date(
    g: GateView,
    keys: Seq<Seq<char>>,
    c: CandidateView,
    now: u64,
    ignored: Seq<Seq<char>>,
    is_conference: spec_fn(Seq<char>) -> bool,
)
    requires
        orderly(g),
        up_to_date(g.encounters, keys, now, ignored, is_conference),
        told_apart(c, is_conference),
    ensures
        up_to_date(unified(g, c).0.encounters, keys, now, ignored, is_conference),
        told_apart(unified(g, c).1, is_conference),
{
    let i = unified_rows(g, c);
    let es = g.encounters;
    let out = unified(g, c).0.encounters;
    if unified(g, c).1.conference_key != c.conference_key {
        let m = choose|m: int|
            0 <= m < es.len() && (#[trigger] es[m]).candidate.conference_key
                == unified(g, c).1.conference_key;
        assert(current_row(es[m], keys, now, ignored, is_conference));
    }
    if out != es {
        let e = renamed(es[i], c);
        let key = e.candidate.key();
        assert(current_row(es[i], keys, now, ignored, is_conference));
        assert(key == c.conference_key->0);
        assert forall|k: int| 0 <= k < out.len() implies current_row(
            #[trigger] out[k],
            keys,
            now,
            ignored,
            is_conference,
        ) by {
            assert(stayed(es, i, key, out[k]) || replacement(es, i, e, out[k]));
            if stayed(es, i, key, out[k]) {
                let m = choose|m: int| 0 <= m < es.len() && m != i && #[trigger] es[m] == out[k];
                assert(current_row(es[m], keys, now, ignored, is_conference));
            } else if out[k] == e && forall|m: int|
                0 <= m < es.len() && m != i ==> (#[trigger] es[m]).candidate.key() != key {
                if keys.contains(key) {
                    let n = choose|n: int| 0 <= n < keys.len() && keys[n] == key;
                    assert(is_conference(keys[n]));
                    assert(has_key(es, key));
                    let m = choose|m: int|
                        0 <= m < es.len() && (#[trigger] es[m]).candidate.key() == key;
                    assert(m == i);
                    assert(es[i].candidate.key() == es[i].candidate.instance_key);
                }
            } else {
                let m = choose|m: int|
                    0 <= m < es.len() && m != i && (#[trigger] es[m]).candidate.key() == key
                        && out[k] == merged(e, es[m]);
                assert(current_row(es[m], keys, now, ignored, is_conference));
            }
        }
        assert forall|k: int| 0 <= k < keys.len() && is_conference(#[trigger] keys[k]) implies has_key(
            out,
            keys[k],
        ) by {
            assert(has_key(es, keys[k]));
            let m = choose|m: int|
                0 <= m < es.len() && (#[trigger] es[m]).candidate.key() == keys[k];
            assert(m != i);
            if keys[k] != key {
                assert(out.contains(es[m]));
                let n = choose|n: int| 0 <= n < out.len() && out[n] == es[m];
                assert(out[n].candidate.key() == keys[k]);
            }
        }
        let others = es.remove(i);
        let j = with_key(others, key);
        with_key_finds(others, key);
        if j < others.len() {
            let m = if j < i {
                j
            } else {
                j + 1
            };
            assert(es[m] == others[j]);
            assert(current_row(es[m], keys, now, ignored, is_conference));
            seen_now_removed(es, now, i);
            seen_now_updated(others, now, j, merged(e, others[j]));
        } else {
            seen_now_updated(es, now, i, e);
        }
    }
}

proof fn recording_stays_up_to_date(
    es: Seq<EncounterView>,
    keys: Seq<Seq<char>>,
    c: CandidateView,
    now: u64,
    ignored: Seq<Seq<char>>,
    is_conference: spec_fn(Seq<char>) -> bool,
)
    requires
        each_once(es),
        es.len() <= MAX_RECENT_REMINDERS,
        up_to_date(es, keys, now, ignored, is_conference),
        told_apart(c, is_conference),
        !ignored.contains(c.app_key),
        keys.len() < MAX_RECENT_REMINDERS,
    ensures
        up_to_date(recorded(es, c, now), keys.push(c.key()), now, ignored, is_conference),
{
    let out = recorded(es, c, now);
    let known = keys.push(c.key());
    recorded_rows(es, c, now);
    with_key_finds(es, c.key());
    assert forall|k: int| 0 <= k < out.len() implies current_row(
        #[trigger] out[k],
        known,
        now,
        ignored,
        is_conference,
    ) by {
        if out[k].candidate.key() != c.key() {
            let m = choose|m: int| 0 <= m < es.len() && es[m] == out[k];
            assert(current_row(es[m], keys, now, ignored, is_conference));
            if known.contains(out[k].candidate.key()) {
                let n = choose|n: int| 0 <= n < known.len() && known[n] == out[k].candidate.key();
                assert(keys[n] == known[n]);
            }
        }
    }
    assert forall|i: int| 0 <= i < es.len() implies (#[trigger] es[i]).last_seen_ms <= now by {
        assert(current_row(es[i], keys, now, ignored, is_conference));
    }
    if es.len() >= MAX_RECENT_REMINDERS {
        oldest_was_not_seen_now(es, now);
    }
    assert forall|k: int| 0 <= k < known.len() && is_conference(#[trigger] known[k]) implies has_key(
        out,
        known[k],
    ) by {
        if known[k] != c.key() {
            assert(known[k] == keys[k]);
            assert(has_key(es, keys[k]));
            let m = choose|m: int|
                0 <= m < es.len() && (#[trigger] es[m]).candidate.key() == keys[k];
            assert(current_row(es[m], keys, now, ignored, is_conference));
            assert(keys.contains(keys[k]));
            assert(out.contains(es[m]));
            let n = choose|n: int| 0 <= n < out.len() && out[n] == es[m];
            assert(out[n].candidate.key() == known[k]);
        }
    }
    let i = with_key(es, c.key());
    if i < es.len() {
        seen_now_updated(es, now, i, seen_again(es[i], c, now));
    } else if es.len() >= MAX_RECENT_REMINDERS {
        seen_now_removed(es, now, oldest(es));
        let rest = es.remove(oldest(es));
        assert(rest.push(first_seen(c, now)).drop_last() =~= rest);
    } else {
        assert(es.push(first_seen(c, now)).drop_last() =~= es);
    }
}

proof fn observing_stays_up_to_date(
    g: GateView,
    keys: Seq<Seq<char>>,
    cs: Seq<CandidateView>,
    now: u64,
    ignored: Seq<Seq<char>>,
    is_conference: spec_fn(Seq<char>) -> bool,
)
    requires
        orderly(g),
        up_to_date(g.encounters, keys, now, ignored, is_conference),
        forall|i: int|
            0 <= i < cs.len() ==> told_apart(#[trigger] cs[i], is_conference) && !ignored.contains(
                cs[i].app_key,
            ),
        keys.len() + cs.len() <= MAX_RECENT_REMINDERS,
    ensures
        up_to_date(
            observed(g, keys, cs, now).0.encounters,
            observed(g, keys, cs, now).1,
            now,
            ignored,
            is_conference,
        ),
    decreases cs.len(),
{
    if cs.len() > 0 {
        assert(told_apart(cs[0], is_conference));
        unified_rows(g, cs[0]);
        unifying_stays_up_to_date(g, keys, cs[0], now, ignored, is_conference);
        let (g1, c) = unified(g, cs[0]);
        let rest = cs.drop_first();
        assert forall|i: int| 0 <= i < rest.len() implies told_apart(
            #[trigger] rest[i],
            is_conference,
        ) && !ignored.contains(rest[i].app_key) by {
            assert(rest[i] == cs[i + 1]);
        }
        if keys.contains(c.key()) {
            observing_stays_up_to_date(g1, keys, rest, now, ignored, is_conference);
        } else {
            recorded_orderly(g1, c, now);
            recording_stays_up_to_date(g1.encounters, keys, c, now, ignored, is_conference);
            observing_stays_up_to_date(
                GateView { encounters: recorded(g1.encounters, c, now), ..g1 },
                keys.push(c.key()),
                rest,
                now,
                ignored,
                is_conference,
            );
        }
    }
}

/// After an observation that is later than all before it, a card stands only while
/// reminders are on, no meeting is recorded, and a meeting of its identity was seen
/// lately from an application that is not ignored. (The identities of conferences
/// are none of windows, and an observation shows no more than the memory holds.)
pub proof fn cards_stand_on_what_was_seen_lately(
    g: GateView,
    now: u64,
    candidates: Seq<CandidateView>,
    enabled: bool,
    meeting_active: bool,
    ignored: Seq<Seq<char>>,
    is_conference: spec_fn(Seq<char>) -> bool,
)
    requires
        orderly(g),
        forall|i: int|
            0 <= i < g.encounters.len() ==> (#[trigger] g.encounters[i]).last_seen_ms < now
                && told_apart(g.encounters[i].candidate, is_conference),
        forall|i: int|
            0 <= i < candidates.len() ==> told_apart(#[trigger] candidates[i], is_conference),
        candidates.len() <= MAX_RECENT_REMINDERS,
    ensures
        ({
            let after = updated(g, now, candidates, enabled, meeting_active, ignored);
            after.current is Some ==> enabled && !meeting_active && still_valid(
                after,
                after.current->0,
                now,
                ignored,
            )
        }),
{
    if enabled && !meeting_active {
        let p = |e: EncounterView| remembered(e, now);
        let kept = GateView { encounters: g.encounters.filter(p), ..g };
        kept_orderly(g, now);
        filter_keeps_each_once(g.encounters, p);
        assert forall|i: int| 0 <= i < kept.encounters.len() implies current_row(
            #[trigger] kept.encounters[i],
            Seq::empty(),
            now,
            ignored,
            is_conference,
        ) && kept.encounters[i].last_seen_ms < now by {
            assert(g.encounters.contains(kept.encounters[i]));
        }
        none_seen_now(kept.encounters, now);
        let cs = considered(candidates, ignored);
        considered_comes_from(candidates, ignored);
        considered_by_priority(candidates, ignored);
        assert forall|k: int| 0 <= k < cs.len() implies told_apart(#[trigger] cs[k], is_conference)
            && !ignored.contains(cs[k].app_key) by {
            assert(candidates.contains(cs[k]));
        }
        observing_stays_up_to_date(kept, Seq::empty(), cs, now, ignored, is_conference);
        observed_keeps(kept, Seq::empty(), cs, now);
        let (g1, keys) = observed(kept, Seq::empty(), cs, now);
        let before = match g1.current {
            None => g1,
            Some(card) => GateView {
                encounters: disposed(
                    g1.encounters,
                    card.candidate.key(),
                    if replaced(g1, card, keys) {
                        Disposition::Done
                    } else {
                        Disposition::Pending
                    },
                ),
                current: None,
                next_id: g1.next_id,
            },
        };
        let after = settled(g1, keys, now, ignored);
        if let Some(card) = g1.current {
            with_key_finds(g1.encounters, card.candidate.key());
        }
        let stands = match g1.current {
            Some(card) => still_valid(g1, card, now, ignored) && !replaced(g1, card, keys),
            None => false,
        };
        if !stands {
            let es = before.encounters;
            choice_is_the_best(es, keys, now);
            if let Some(i) = choice(es, keys, now) {
                assert(es[i].candidate == g1.encounters[i].candidate);
                assert(es[i].last_seen_ms == g1.encounters[i].last_seen_ms);
                assert(current_row(g1.encounters[i], keys, now, ignored, is_conference));
                assert(upholds(
                    after.encounters[i],
                    after.current->0.candidate.key(),
                    now,
                    ignored,
                ));
            }
        }
    }
}

/// Every candidate that is considered was observed, and each of them once.
proof fn considered_comes_from(cs: Seq<CandidateView>, ignored: Seq<Seq<char>>)
    ensures
        considered(cs, ignored).len() <= cs.len(),
        forall|i: int|
            0 <= i < considered(cs, ignored).len() ==> cs.contains(
                #[trigger] considered(cs, ignored)[i],
            ),
{
    let p = |c: CandidateView| !ignored.contains(c.app_key);
    let kept = cs.filter(p);
    cs.lemma_filter_len(p);
    ranked_comes_from(kept, 8);
    let below = |c: CandidateView| c.priority() < 8;
    kept.lemma_filter_len(below);
    assert forall|i: int| 0 <= i < considered(cs, ignored).len() implies cs.contains(
        #[trigger] considered(cs, ignored)[i],
    ) by {
        let x = considered(cs, ignored)[i];
        assert(kept.contains(x));
        cs.lemma_filter_contains_rev(p, x);
    }
}

proof fn ranked_comes_from(cs: Seq<CandidateView>, rank: nat)
    ensures
        ranked(cs, rank).len() == cs.filter(|c: CandidateView| c.priority() < rank as int).len(),
        forall|i: int| 0 <= i < ranked(cs, rank).len() ==> cs.contains(#[trigger] ranked(cs, rank)[i]),
    decreases rank,
{
    let below = |c: CandidateView| c.priority() < rank as int;
    if rank == 0 {
        nothing_below_zero(cs);
    } else {
        ranked_comes_from(cs, (rank - 1) as nat);
        let p = |c: CandidateView| c.priority() == rank - 1;
        let q = |c: CandidateView| c.priority() < (rank - 1) as nat as int;
        parts_of_filter(cs, p, q, below);
        assert forall|i: int| 0 <= i < ranked(cs, rank).len() implies cs.contains(
            #[trigger] ranked(cs, rank)[i],
        ) by {
            let top = cs.filter(p);
            if i < top.len() {
                assert(top.contains(top[i]));
                cs.lemma_filter_contains_rev(p, top[i]);
            } else {
                assert(ranked(cs, rank)[i] == ranked(cs, (rank - 1) as nat)[i - top.len()]);
            }
        }
    }
}

proof fn nothing_below_zero(cs: Seq<CandidateView>)
    ensures
        cs.filter(|c: CandidateView| c.priority() < 0nat as int).len() == 0,
{
    let below = |c: CandidateView| c.priority() < 0nat as int;
    let out = cs.filter(below);
    if out.len() > 0 {
        cs.lemma_filter_pred(below, 0);
    }
}

/// A filter for either of two properties that exclude each other keeps what the
/// filters for both keep together.
proof fn parts_of_filter(
    cs: Seq<CandidateView>,
    p: spec_fn(CandidateView) -> bool,
    q: spec_fn(CandidateView) -> bool,
    either: spec_fn(CandidateView) -> bool,
)
    requires
        forall|c: CandidateView| #[trigger] either(c) <==> p(c) || q(c),
        forall|c: CandidateView| !(#[trigger] p(c) && q(c)),
    ensures
        cs.filter(either).len() == cs.filter(p).len() + cs.filter(q).len(),
    decreases cs.len(),
{
    reveal(Seq::filter);
    if cs.len() > 0 {
        parts_of_filter(cs.drop_last(), p, q, either);
        assert(either(cs.last()) <==> p(cs.last()) || q(cs.last()));
    }
}

/// The candidates are considered by falling priority.
pub proof fn considered_by_priority(cs: Seq<CandidateView>, ignored: Seq<Seq<char>>)
    ensures
        forall|i: int, j: int|
            0 <= i <= j < considered(cs, ignored).len() ==> (#[trigger] considered(
                cs,
                ignored,
            )[i]).priority() >= (#[trigger] considered(cs, ignored)[j]).priority(),
        forall|i: int|
            0 <= i < considered(cs, ignored).len() ==> !ignored.contains(
                (#[trigger] considered(cs, ignored)[i]).app_key,
            ),
{
    let p = |c: CandidateView| !ignored.contains(c.app_key);
    let kept = cs.filter(p);
    assert forall|i: int| 0 <= i < kept.len() implies !ignored.contains(
        (#[trigger] kept[i]).app_key,
    ) by {
        cs.lemma_filter_pred(p, i);
    }
    ranked_by_priority(kept, ignored, 8);
}

proof fn ranked_by_priority(cs: Seq<CandidateView>, ignored: Seq<Seq<char>>, rank: nat)
    requires
        forall|i: int| 0 <= i < cs.len() ==> !ignored.contains((#[trigger] cs[i]).app_key),
    ensures
        forall|i: int|
            0 <= i < ranked(cs, rank).len() ==> (#[trigger] ranked(cs, rank)[i]).priority() < rank,
        forall|i: int|
            0 <= i < ranked(cs, rank).len() ==> !ignored.contains(
                (#[trigger] ranked(cs, rank)[i]).app_key,
            ),
        forall|i: int, j: int|
            0 <= i <= j < ranked(cs, rank).len() ==> (#[trigger] ranked(cs, rank)[i]).priority() >= (
            #[trigger] ranked(cs, rank)[j]).priority(),
    decreases rank,
{
    if rank > 0 {
        ranked_by_priority(cs, ignored, (rank - 1) as nat);
        let p = |c: CandidateView| c.priority() == rank - 1;
        let top = cs.filter(p);
        assert forall|i: int| 0 <= i < top.len() implies (#[trigger] top[i]).priority() == rank - 1
            && !ignored.contains(top[i].app_key) by {
            cs.lemma_filter_pred(p, i);
            cs.lemma_filter_contains_rev(p, top[i]);
        }
    }
}

/// What every reminder satisfies is kept by each operation, and no number of a
/// card is used twice: the card after an observation is the one before it, or
/// it has a number beyond all earlier ones (until the numbers run out).
pub proof fn reminder_stays_orderly(
    g: GateView,
    now: u64,
    candidates: Seq<CandidateView>,
    enabled: bool,
    meeting_active: bool,
    ignored: Seq<Seq<char>>,
    id: u64,
    action: Action,
)
    requires
        orderly(g),
    ensures
        orderly(GateView { encounters: Seq::empty(), current: None, next_id: 0 }),
        orderly(paused(g)),
        orderly(acted(g, id, action, now)),
        orderly(updated(g, now, candidates, enabled, meeting_active, ignored)),
        updated(g, now, candidates, enabled, meeting_active, ignored).next_id >= g.next_id,
        updated(g, now, candidates, enabled, meeting_active, ignored).current matches Some(p) ==> {
            ||| g.current is Some && g.current->0.id == p.id
            ||| p.id > g.next_id
            ||| g.next_id == u64::MAX
        },
{
    let p = |e: EncounterView| remembered(e, now);
    let kept = GateView { encounters: g.encounters.filter(p), ..g };
    g.encounters.lemma_filter_len(p);
    kept_orderly(g, now);
    let cs = considered(candidates, ignored);
    observed_keeps(kept, Seq::empty(), cs, now);
    let (after, keys) = observed(kept, Seq::empty(), cs, now);
    settled_orderly(after, keys, now, ignored);
    assert(each_once(all_done(after.encounters, keys))) by {
        let out = all_done(after.encounters, keys);
        assert forall|x: int, y: int| 0 <= x < y < out.len() implies (
        #[trigger] out[x]).candidate.key() != (#[trigger] out[y]).candidate.key() by {
            assert(out[x].candidate == after.encounters[x].candidate);
            assert(out[y].candidate == after.encounters[y].candidate);
        }
    }
    pausing_stays_orderly(g);
    acting_stays_orderly(g, id, action, now);
}

proof fn pausing_stays_orderly(g: GateView)
    requires
        orderly(g),
    ensures
        orderly(paused(g)),
{
    if let Some(card) = g.current {
        let i = with_key(g.encounters, card.candidate.key());
        with_key_finds(g.encounters, card.candidate.key());
        if i < g.encounters.len() {
            disposing_keeps_each_once(g.encounters, i, Disposition::Pending);
        }
    }
}

proof fn acting_stays_orderly(g: GateView, id: u64, action: Action, now: u64)
    requires
        orderly(g),
    ensures
        orderly(acted(g, id, action, now)),
{
    if let Some(card) = g.current {
        let i = with_key(g.encounters, card.candidate.key());
        with_key_finds(g.encounters, card.candidate.key());
        if i < g.encounters.len() {
            disposing_keeps_each_once(g.encounters, i, Disposition::Done);
            disposing_keeps_each_once(
                g.encounters,
                i,
                Disposition::Snoozed((now + SNOOZE_MS) as u64),
            );
        }
    }
}

proof fn kept_orderly(g: GateView, now: u64)
    requires
        orderly(g),
    ensures
        orderly(
            GateView {
                encounters: g.encounters.filter(|e: EncounterView| remembered(e, now)),
                ..g
            },
        ),
{
    let p = |e: EncounterView| remembered(e, now);
    let es = g.encounters;
    let out = es.filter(p);
    es.lemma_filter_len(p);
    filter_keeps_each_once(es, p);
    if g.current is Some {
        let key = g.current->0.candidate.key();
        assert forall|k: int|
            0 <= k < out.len() && (#[trigger] out[k]).candidate.key()
                == key implies !out[k].disposition.is_answer() by {
            assert(es.contains(out[k]));
            let m = choose|m: int| 0 <= m < es.len() && es[m] == out[k];
            assert(es[m].candidate.key() == key);
        }
    }
}

/// A reminder that is switched off, and one during a recording, shows no card.
pub proof fn no_card_while_off_or_recording(
    g: GateView,
    now: u64,
    candidates: Seq<CandidateView>,
    enabled: bool,
    meeting_active: bool,
    ignored: Seq<Seq<char>>,
)
    requires
        !enabled || meeting_active,
    ensures
        updated(g, now, candidates, enabled, meeting_active, ignored).current is None,
        !enabled ==> updated(
            g,
            now,
            candidates,
            enabled,
            meeting_active,
            ignored,
        ).encounters.len() == 0,
{
}

/// A click that belongs to another card than the current one changes nothing
/// and hands nothing on.
pub proof fn late_clicks_change_nothing(g: GateView, id: u64, action: Action, now: u64)
    requires
        g.current is None || g.current->0.id != id,
    ensures
        acted(g, id, action, now) == g,
        handed_on(g, id, action, now) is None,
        g.current is Some ==> forall|visible: Option<u64>| !heard(g, visible, id),
{
}

/// To put a card away is no answer: no meeting becomes dismissed or snoozed by
/// it, and none that was stops being so.
pub proof fn pausing_answers_nothing(g: GateView, i: int)
    requires
        0 <= i < g.encounters.len(),
    ensures
        paused(g).current is None,
        paused(g).encounters.len() == g.encounters.len(),
        paused(g).encounters[i].candidate == g.encounters[i].candidate,
        paused(g).encounters[i].disposition == g.encounters[i].disposition || (
        g.encounters[i].disposition == Disposition::Shown && paused(g).encounters[i].disposition
            == Disposition::Pending),
{
    match g.current {
        Some(p) => crate::seqs::first_where_is_first(
            g.encounters,
            |e: EncounterView| e.candidate.key() == p.candidate.key(),
            0,
        ),
        None => {},
    }
}

/// The candidate comes from an application that is not ignored.
pub open spec fn wanted(cs: Seq<CandidateView>, ignored: Seq<Seq<char>>, c: CandidateView) -> bool {
    cs.contains(c) && !ignored.contains(c.app_key)
}

/// Every candidate from an application that is not ignored is considered.
proof fn considered_holds_all(cs: Seq<CandidateView>, ignored: Seq<Seq<char>>)
    ensures
        forall|c: CandidateView| #[trigger]
            wanted(cs, ignored, c) <==> considered(cs, ignored).contains(c),
{
    let p = |c: CandidateView| !ignored.contains(c.app_key);
    let kept = cs.filter(p);
    let all = considered(cs, ignored);
    considered_comes_from(cs, ignored);
    considered_by_priority(cs, ignored);
    assert forall|c: CandidateView| #[trigger] wanted(cs, ignored, c) <==> all.contains(c) by {
        if wanted(cs, ignored, c) {
            let i = choose|i: int| 0 <= i < cs.len() && cs[i] == c;
            cs.lemma_filter_contains(p, i);
            ranked_holds_all(kept, 8, c);
        }
        if all.contains(c) {
            let i = choose|i: int| 0 <= i < all.len() && all[i] == c;
            assert(cs.contains(all[i]));
        }
    }
}

proof fn ranked_holds_all(cs: Seq<CandidateView>, rank: nat, c: CandidateView)
    requires
        cs.contains(c),
        c.priority() < rank,
    ensures
        ranked(cs, rank).contains(c),
    decreases rank,
{
    let p = |x: CandidateView| x.priority() == rank - 1;
    let top = cs.filter(p);
    let below = ranked(cs, (rank - 1) as nat);
    let all = ranked(cs, rank);
    if c.priority() == rank - 1 {
        let i = choose|i: int| 0 <= i < cs.len() && cs[i] == c;
        cs.lemma_filter_contains(p, i);
        let k = choose|k: int| 0 <= k < top.len() && top[k] == c;
        assert(all[k] == c);
    } else {
        ranked_holds_all(cs, (rank - 1) as nat, c);
        let k = choose|k: int| 0 <= k < below.len() && below[k] == c;
        assert(all[top.len() + k] == c);
    }
}

/// What is seen of one window is named in one way: by its conference each time, or
/// by the window each time.
pub open spec fn named_alike(cs: Seq<CandidateView>) -> bool {
    forall|i: int, j: int|
        0 <= i < cs.len() && 0 <= j < cs.len() && (#[trigger] cs[i]).instance_key == (
        #[trigger] cs[j]).instance_key ==> (cs[i].conference_key is None
            <==> cs[j].conference_key is None)
}

/// The memory in the middle of the first observation: each meeting as it was seen
/// first, under an identity of its own.
spec fn first_rows(
    es: Seq<EncounterView>,
    keys: Seq<Seq<char>>,
    all: Seq<CandidateView>,
    now: u64,
) -> bool {
    &&& es.len() == keys.len()
    &&& each_once(es)
    &&& forall|i: int|
        0 <= i < es.len() ==> (#[trigger] es[i]).candidate.key() == keys[i] && es[i] == first_seen(
            es[i].candidate,
            now,
        ) && all.contains(es[i].candidate)
}

proof fn first_unified(
    g: GateView,
    keys: Seq<Seq<char>>,
    all: Seq<CandidateView>,
    c: CandidateView,
    now: u64,
)
    requires
        first_rows(g.encounters, keys, all, now),
        g.current is None,
        named_alike(all),
        all.contains(c),
    ensures
        unified(g, c) == (g, c),
{
    let same_window = |e: EncounterView| alias(e, c);
    if g.encounters.filter(same_window).len() == 1 {
        let i = first_where(g.encounters, same_window, 0);
        crate::seqs::first_where_of_filter(g.encounters, same_window);
        crate::seqs::first_where_is_first(g.encounters, same_window, 0);
        let e = g.encounters[i];
        assert(alias(e, c));
        assert(all.contains(e.candidate));
        let x = choose|x: int| 0 <= x < all.len() && all[x] == e.candidate;
        let y = choose|y: int| 0 <= y < all.len() && all[y] == c;
        assert(all[x].instance_key == all[y].instance_key);
        assert(agreed_conference(e, c) == None::<Seq<char>>);
        assert(e.candidate.with_conference(None) == e.candidate);
        replacement_rows(g.encounters, i, e);
    }
}

proof fn first_observation(
    g: GateView,
    keys: Seq<Seq<char>>,
    cs: Seq<CandidateView>,
    all: Seq<CandidateView>,
    now: u64,
)
    requires
        first_rows(g.encounters, keys, all, now),
        g.current is None,
        named_alike(all),
        forall|i: int| 0 <= i < cs.len() ==> all.contains(#[trigger] cs[i]),
        keys.len() + cs.len() <= MAX_RECENT_REMINDERS,
        forall|i: int, j: int|
            0 <= i <= j < cs.len() ==> (#[trigger] cs[i]).priority() >= (
            #[trigger] cs[j]).priority(),
        forall|k: int, i: int|
            0 <= k < g.encounters.len() && 0 <= i < cs.len() ==> (
            #[trigger] g.encounters[k]).candidate.priority() >= (#[trigger] cs[i]).priority(),
    ensures
        ({
            let (after, known) = observed(g, keys, cs, now);
            &&& first_rows(after.encounters, known, all, now)
            &&& after.current is None
            &&& after.next_id == g.next_id
            &&& after.encounters.len() >= g.encounters.len()
            &&& forall|k: int|
                0 <= k < g.encounters.len() ==> #[trigger] after.encounters[k] == g.encounters[k]
            &&& forall|k: int, i: int|
                0 <= k < after.encounters.len() && 0 <= i < cs.len() && (
                #[trigger] after.encounters[k]).candidate.key() == (#[trigger] cs[i]).key()
                    ==> after.encounters[k].candidate.priority() >= cs[i].priority()
            &&& g.encounters.len() == 0 && cs.len() > 0 ==> after.encounters.len() > 0
                && after.encounters[0].candidate == cs[0]
            &&& forall|k: int| 0 <= k < keys.len() ==> known.contains(#[trigger] keys[k])
            &&& forall|i: int| 0 <= i < cs.len() ==> known.contains((#[trigger] cs[i]).key())
        }),
    decreases cs.len(),
{
    if cs.len() > 0 {
        let c = cs[0];
        let rest = cs.drop_first();
        assert(all.contains(c));
        assert forall|i: int| 0 <= i < rest.len() implies all.contains(#[trigger] rest[i]) by {
            assert(rest[i] == cs[i + 1]);
        }
        first_unified(g, keys, all, c, now);
        let (after, known) = observed(g, keys, cs, now);
        assert forall|i: int, j: int| 0 <= i <= j < rest.len() implies (
        #[trigger] rest[i]).priority() >= (#[trigger] rest[j]).priority() by {
            assert(cs[i + 1].priority() >= cs[j + 1].priority());
        }
        if keys.contains(c.key()) {
            assert forall|k: int, i: int|
                0 <= k < g.encounters.len() && 0 <= i < rest.len() implies (
            #[trigger] g.encounters[k]).candidate.priority() >= (
            #[trigger] rest[i]).priority() by {
                assert(g.encounters[k].candidate.priority() >= cs[i + 1].priority());
            }
            first_observation(g, keys, rest, all, now);
            let k = choose|k: int| 0 <= k < keys.len() && keys[k] == c.key();
            assert(known.contains(keys[k]));
            assert(after.encounters[k] == g.encounters[k]);
            assert(after.encounters[k].candidate.key() == c.key());
            the_row_of_its_key(after.encounters, k, c);
        } else {
            let es = g.encounters;
            with_key_finds(es, c.key());
            if with_key(es, c.key()) < es.len() {
                assert(keys.contains(keys[with_key(es, c.key())]));
            }
            let out = es.push(first_seen(c, now));
            let more = keys.push(c.key());
            assert(recorded(es, c, now) == out);
            assert forall|i: int| 0 <= i < out.len() implies (#[trigger] out[i]).candidate.key()
                == more[i] && out[i] == first_seen(out[i].candidate, now) && all.contains(
                out[i].candidate,
            ) by {
                if i < es.len() {
                    assert(out[i] == es[i]);
                }
            }
            assert forall|x: int, y: int| 0 <= x < y < out.len() implies (
            #[trigger] out[x]).candidate.key() != (#[trigger] out[y]).candidate.key() by {
                assert(out[x] == es[x]);
                if y < es.len() {
                    assert(out[y] == es[y]);
                } else {
                    assert(keys.contains(keys[x]));
                }
            }
            let next = GateView { encounters: out, ..g };
            assert forall|k: int, i: int| 0 <= k < out.len() && 0 <= i < rest.len() implies (
            #[trigger] out[k]).candidate.priority() >= (#[trigger] rest[i]).priority() by {
                assert(rest[i] == cs[i + 1]);
                if k < es.len() {
                    assert(g.encounters[k].candidate.priority() >= cs[i + 1].priority());
                } else {
                    assert(cs[0].priority() >= cs[i + 1].priority());
                }
            }
            first_observation(next, more, rest, all, now);
            let k = es.len() as int;
            assert(after.encounters[k] == out[k]);
            the_row_of_its_key(after.encounters, k, c);
            assert forall|j: int| 0 <= j < es.len() implies #[trigger] after.encounters[j]
                == g.encounters[j] by {
                assert(after.encounters[j] == out[j]);
            }
            assert(observed(next, more, rest, now) == observed(g, keys, cs, now));
            assert(more[keys.len() as int] == c.key());
            assert forall|k: int| 0 <= k < keys.len() implies known.contains(#[trigger] keys[k]) by {
                assert(more[k] == keys[k]);
            }
        }
        assert forall|i: int| 0 <= i < cs.len() implies known.contains((#[trigger] cs[i]).key()) by {
            if i > 0 {
                assert(rest[i - 1] == cs[i]);
            }
        }
        assert forall|k: int, i: int|
            0 <= k < after.encounters.len() && 0 <= i < cs.len() && (
            #[trigger] after.encounters[k]).candidate.key() == (
            #[trigger] cs[i]).key() implies after.encounters[k].candidate.priority()
            >= cs[i].priority() by {
            if i > 0 {
                assert(rest[i - 1] == cs[i]);
            }
        }
    }
}

/// Where the row of an identity shows at least so much, every row of it does.
proof fn the_row_of_its_key(es: Seq<EncounterView>, k: int, c: CandidateView)
    requires
        each_once(es),
        0 <= k < es.len(),
        es[k].candidate.key() == c.key(),
        es[k].candidate.priority() >= c.priority(),
    ensures
        forall|j: int|
            0 <= j < es.len() && (#[trigger] es[j]).candidate.key() == c.key()
                ==> es[j].candidate.priority() >= c.priority(),
{
    assert forall|j: int|
        0 <= j < es.len() && (#[trigger] es[j]).candidate.key()
            == c.key() implies es[j].candidate.priority() >= c.priority() by {
        if j < k {
            assert(es[j].candidate.key() != es[k].candidate.key());
        } else if k < j {
            assert(es[k].candidate.key() != es[j].candidate.key());
        }
    }
}

/// What the first observation leads to. A card is shown exactly where something more
/// than a window title was seen of some application that is not ignored, in the
/// foreground or not; it shows the meeting of the highest priority. Each meeting of
/// these applications is remembered, as the strongest sign showed it, and no other.
/// (Not more are seen than the memory holds, and of one window not once the conference
/// and once only the window.)
pub proof fn the_first_observation_is_offered(
    next_id: u64,
    now: u64,
    candidates: Seq<CandidateView>,
    ignored: Seq<Seq<char>>,
)
    requires
        candidates.len() <= 32,
        named_alike(candidates),
        next_id < u64::MAX,
    ensures
        ({
            let fresh_gate = GateView { encounters: Seq::empty(), current: None, next_id };
            let after = updated(fresh_gate, now, candidates, true, false, ignored);
            &&& after.current is Some <==> exists|c: CandidateView| #[trigger]
                wanted(candidates, ignored, c) && c.strength != Strength::Title
            &&& after.current matches Some(p) ==> {
                &&& p.id == next_id + 1
                &&& wanted(candidates, ignored, p.candidate)
                &&& p.candidate.strength != Strength::Title
                &&& forall|c: CandidateView| #[trigger]
                    wanted(candidates, ignored, c) ==> c.strength.place()
                        <= p.candidate.strength.place() && (c.strength == p.candidate.strength
                        && c.foreground ==> p.candidate.foreground)
            }
            &&& forall|c: CandidateView| #[trigger]
                wanted(candidates, ignored, c) ==> remembers(after.encounters, c.key())
            &&& forall|k: int|
                0 <= k < after.encounters.len() ==> wanted(
                    candidates,
                    ignored,
                    (#[trigger] after.encounters[k]).candidate,
                )
            &&& forall|k: int, c: CandidateView|
                0 <= k < after.encounters.len() && #[trigger] wanted(candidates, ignored, c) && (
                #[trigger] after.encounters[k]).candidate.key() == c.key() ==> c.strength.place()
                    <= after.encounters[k].candidate.strength.place()
            &&& each_once(after.encounters)
        }),
{
    let g = GateView { encounters: Seq::empty(), current: None, next_id };
    let p = |e: EncounterView| remembered(e, now);
    let cs = considered(candidates, ignored);
    assert(g.encounters.filter(p) =~= Seq::<EncounterView>::empty()) by {
        g.encounters.lemma_filter_len(p);
    }
    considered_comes_from(candidates, ignored);
    considered_by_priority(candidates, ignored);
    considered_holds_all(candidates, ignored);
    assert(named_alike(cs)) by {
        assert forall|i: int, j: int|
            0 <= i < cs.len() && 0 <= j < cs.len() && (#[trigger] cs[i]).instance_key == (
            #[trigger] cs[j]).instance_key implies (cs[i].conference_key is None
            <==> cs[j].conference_key is None) by {
            assert(candidates.contains(cs[i]) && candidates.contains(cs[j]));
            let x = choose|x: int| 0 <= x < candidates.len() && candidates[x] == cs[i];
            let y = choose|y: int| 0 <= y < candidates.len() && candidates[y] == cs[j];
            assert(candidates[x].instance_key == candidates[y].instance_key);
        }
    }
    assert forall|i: int| 0 <= i < cs.len() implies cs.contains(#[trigger] cs[i]) by {}
    first_observation(g, Seq::empty(), cs, cs, now);
    let (g1, keys) = observed(g, Seq::empty(), cs, now);
    let es = g1.encounters;
    let after = updated(g, now, candidates, true, false, ignored);
    assert(after == offered(g1, keys, now));
    choice_is_the_best(es, keys, now);
    assert forall|i: int| 0 <= i < es.len() implies (eligible(#[trigger] es[i], keys, now)
        <==> es[i].candidate.strength != Strength::Title) by {
        assert(es[i] == first_seen(es[i].candidate, now));
        assert(keys.contains(keys[i]));
    }
    assert forall|k: int| 0 <= k < after.encounters.len() implies wanted(
        candidates,
        ignored,
        (#[trigger] after.encounters[k]).candidate,
    ) by {
        assert(after.encounters[k].candidate == es[k].candidate);
        assert(cs.contains(es[k].candidate));
    }
    assert forall|c: CandidateView| #[trigger] wanted(candidates, ignored, c) implies remembers(
        after.encounters,
        c.key(),
    ) by {
        let i = choose|i: int| 0 <= i < cs.len() && cs[i] == c;
        assert(keys.contains(cs[i].key()));
        let k = choose|k: int| 0 <= k < keys.len() && keys[k] == c.key();
        assert(es[k].candidate.key() == keys[k]);
        assert(after.encounters[k].candidate == es[k].candidate);
    }
    assert forall|k: int, c: CandidateView|
        0 <= k < after.encounters.len() && #[trigger] wanted(candidates, ignored, c) && (
        #[trigger] after.encounters[k]).candidate.key() == c.key() implies c.strength.place()
        <= after.encounters[k].candidate.strength.place() by {
        let i = choose|i: int| 0 <= i < cs.len() && cs[i] == c;
        assert(after.encounters[k].candidate == es[k].candidate);
        assert(es[k].candidate.key() == cs[i].key());
        assert(es[k].candidate.priority() >= cs[i].priority());
    }
    // What is considered first has the highest priority, and is remembered.
    assert forall|c: CandidateView| #[trigger] wanted(candidates, ignored, c) implies es.len() > 0
        && c.priority() <= es[0].candidate.priority() by {
        let i = choose|i: int| 0 <= i < cs.len() && cs[i] == c;
        assert(cs[0].priority() >= cs[i].priority());
        assert(es[0].candidate == cs[0]);
    }
    if exists|c: CandidateView| #[trigger]
        wanted(candidates, ignored, c) && c.strength != Strength::Title {
        let c = choose|c: CandidateView| #[trigger]
            wanted(candidates, ignored, c) && c.strength != Strength::Title;
        assert(c.priority() <= es[0].candidate.priority());
        assert(eligible(es[0], keys, now));
    }
    if let Some(b) = choice(es, keys, now) {
        assert(cs.contains(es[b].candidate));
        assert(wanted(candidates, ignored, es[b].candidate));
        assert(es[b].candidate.priority() <= es[0].candidate.priority());
        assert(eligible(es[0], keys, now));
        disposing_keeps_each_once(es, b, Disposition::Shown);
    }
}

/// A meeting of that identity is remembered.
pub open spec fn remembers(es: Seq<EncounterView>, key: Seq<char>) -> bool {
    exists|i: int| 0 <= i < es.len() && (#[trigger] es[i]).candidate.key() == key
}

/// The meeting was seen at `now` and is due: it is open, or its snooze is over, and a
/// mere title has been seen for a second.
pub open spec fn due(e: EncounterView, now: u64) -> bool {
    &&& e.last_seen_ms == now
    &&& e.disposition == Disposition::Pending || (e.disposition matches Disposition::Snoozed(until)
        && until <= now)
    &&& e.candidate.strength == Strength::Title ==> now - e.first_seen_ms >= 1_000
}

/// Each meeting that was seen at `now` is one of this observation.
spec fn accounted(es: Seq<EncounterView>, keys: Seq<Seq<char>>, now: u64) -> bool {
    forall|i: int|
        0 <= i < es.len() && (#[trigger] es[i]).last_seen_ms == now ==> keys.contains(
            es[i].candidate.key(),
        )
}

proof fn unifying_accounts(g: GateView, keys: Seq<Seq<char>>, c: CandidateView, now: u64)
    requires
        orderly(g),
        accounted(g.encounters, keys, now),
    ensures
        accounted(unified(g, c).0.encounters, keys.push(unified(g, c).1.key()), now),
        keys.contains(unified(g, c).1.key()) ==> accounted(
            unified(g, c).0.encounters,
            keys,
            now,
        ),
{
    let i = unified_rows(g, c);
    let (g1, c1) = unified(g, c);
    let es = g.encounters;
    let out = g1.encounters;
    let more = keys.push(c1.key());
    assert(more[keys.len() as int] == c1.key());
    assert forall|x: Seq<char>| keys.contains(x) implies more.contains(x) by {
        let n = choose|n: int| 0 <= n < keys.len() && keys[n] == x;
        assert(more[n] == x);
    }
    assert forall|k: int| 0 <= k < out.len() && (#[trigger] out[k]).last_seen_ms == now implies (
    keys.contains(out[k].candidate.key()) || out[k].candidate.key() == c1.key()) by {
        if out != es {
            let e = renamed(es[i], c);
            let key = e.candidate.key();
            assert(key == c1.key());
            assert(stayed(es, i, key, out[k]) || (out[k].candidate.key() == key && replacement(
                es,
                i,
                e,
                out[k],
            )));
            if stayed(es, i, key, out[k]) {
                let m = choose|m: int| 0 <= m < es.len() && m != i && #[trigger] es[m] == out[k];
                assert(keys.contains(es[m].candidate.key()));
            }
        } else {
            assert(keys.contains(es[k].candidate.key()));
        }
    }
}

proof fn observing_accounts(g: GateView, keys: Seq<Seq<char>>, cs: Seq<CandidateView>, now: u64)
    requires
        orderly(g),
        accounted(g.encounters, keys, now),
    ensures
        accounted(observed(g, keys, cs, now).0.encounters, observed(g, keys, cs, now).1, now),
    decreases cs.len(),
{
    if cs.len() > 0 {
        unified_rows(g, cs[0]);
        unifying_accounts(g, keys, cs[0], now);
        let (g1, c) = unified(g, cs[0]);
        if keys.contains(c.key()) {
            observing_accounts(g1, keys, cs.drop_first(), now);
        } else {
            let es = g1.encounters;
            let out = recorded(es, c, now);
            let more = keys.push(c.key());
            recorded_rows(es, c, now);
            recorded_orderly(g1, c, now);
            assert(more[keys.len() as int] == c.key());
            assert forall|k: int|
                0 <= k < out.len() && (#[trigger] out[k]).last_seen_ms
                    == now implies more.contains(out[k].candidate.key()) by {
                if out[k].candidate.key() != c.key() {
                    let m = choose|m: int| 0 <= m < es.len() && es[m] == out[k];
                    assert(more.contains(es[m].candidate.key()));
                }
            }
            observing_accounts(GateView { encounters: out, ..g1 }, more, cs.drop_first(), now);
        }
    }
}

/// Nothing that is due is passed over. After an observation that is later than all
/// before it there is no card only where no meeting that was seen is due; a new card
/// shows a meeting that has no due one above it; and no card that shows less than a
/// confirmed call stands beside a confirmed call that was not offered. A title that
/// was seen for less than a second makes no new card.
pub proof fn nothing_due_is_passed_over(
    g: GateView,
    now: u64,
    candidates: Seq<CandidateView>,
    ignored: Seq<Seq<char>>,
)
    requires
        orderly(g),
        forall|i: int|
            0 <= i < g.encounters.len() ==> (#[trigger] g.encounters[i]).last_seen_ms < now,
    ensures
        ({
            let after = updated(g, now, candidates, true, false, ignored);
            let card_before = g.current matches Some(old_card) && after.current is Some
                && after.current->0.id == old_card.id;
            &&& after.current is None ==> forall|i: int|
                0 <= i < after.encounters.len() ==> !due(#[trigger] after.encounters[i], now)
            &&& after.current is Some && !card_before ==> {
                let p = after.current->0;
                &&& forall|i: int|
                    0 <= i < after.encounters.len() && due(#[trigger] after.encounters[i], now)
                        ==> after.encounters[i].candidate.strength.place()
                        <= p.candidate.strength.place()
                &&& shown(after.encounters, p.candidate, now)
            }
            &&& after.current matches Some(p) ==> p.candidate.strength != Strength::Confirmed
                ==> forall|i: int|
                0 <= i < after.encounters.len() ==> !(due(#[trigger] after.encounters[i], now)
                    && after.encounters[i].candidate.strength == Strength::Confirmed
                    && after.encounters[i].confirmed_since_ms is Some
                    && after.encounters[i].disposition == Disposition::Pending)
        }),
{
    let p = |e: EncounterView| remembered(e, now);
    let kept = GateView { encounters: g.encounters.filter(p), ..g };
    kept_orderly(g, now);
    filter_keeps_each_once(g.encounters, p);
    let cs = considered(candidates, ignored);
    assert forall|i: int| 0 <= i < kept.encounters.len() implies (
    #[trigger] kept.encounters[i]).last_seen_ms < now by {
        assert(g.encounters.contains(kept.encounters[i]));
    }
    observing_accounts(kept, Seq::empty(), cs, now);
    observed_keeps(kept, Seq::empty(), cs, now);
    let (g1, keys) = observed(kept, Seq::empty(), cs, now);
    let after = settled(g1, keys, now, ignored);
    assert(after == updated(g, now, candidates, true, false, ignored));
    match g1.current {
        None => {
            offering_passes_nothing_over(g1, keys, now);
        },
        Some(card) => {
            let stronger = replaced(g1, card, keys);
            if still_valid(g1, card, now, ignored) && !stronger {
                assert forall|i: int|
                    0 <= i < g1.encounters.len() && card.candidate.strength
                        != Strength::Confirmed implies !(due(#[trigger] g1.encounters[i], now)
                    && g1.encounters[i].candidate.strength == Strength::Confirmed
                    && g1.encounters[i].confirmed_since_ms is Some && g1.encounters[i].disposition
                    == Disposition::Pending) by {
                    assert(!outranks(g1.encounters[i], keys));
                }
            } else {
                let disposition = if stronger {
                    Disposition::Done
                } else {
                    Disposition::Pending
                };
                let es = disposed(g1.encounters, card.candidate.key(), disposition);
                with_key_finds(g1.encounters, card.candidate.key());
                assert forall|i: int|
                    0 <= i < es.len() && (#[trigger] es[i]).last_seen_ms
                        == now implies keys.contains(es[i].candidate.key()) by {
                    assert(g1.encounters[i].last_seen_ms == now);
                }
                offering_passes_nothing_over(
                    GateView { encounters: es, current: None, next_id: g1.next_id },
                    keys,
                    now,
                );
            }
        },
    }
}

/// The meeting that the card shows is remembered as shown; where it is a mere title,
/// it has been seen for a second.
pub open spec fn shown(es: Seq<EncounterView>, c: CandidateView, now: u64) -> bool {
    exists|i: int|
        0 <= i < es.len() && (#[trigger] es[i]).candidate == c && es[i].disposition
            == Disposition::Shown && (c.strength == Strength::Title ==> now - es[i].first_seen_ms
            >= 1_000)
}

proof fn offering_passes_nothing_over(g: GateView, keys: Seq<Seq<char>>, now: u64)
    requires
        g.current is None,
        accounted(g.encounters, keys, now),
    ensures
        ({
            let after = offered(g, keys, now);
            &&& after.current is None ==> forall|i: int|
                0 <= i < after.encounters.len() ==> !due(#[trigger] after.encounters[i], now)
            &&& after.current matches Some(p) ==> {
                &&& forall|i: int|
                    0 <= i < after.encounters.len() && due(#[trigger] after.encounters[i], now)
                        ==> after.encounters[i].candidate.strength.place()
                        <= p.candidate.strength.place()
                &&& shown(after.encounters, p.candidate, now)
                &&& p.candidate.strength != Strength::Confirmed ==> forall|i: int|
                    0 <= i < after.encounters.len() ==> !(due(#[trigger] after.encounters[i], now)
                        && after.encounters[i].candidate.strength == Strength::Confirmed)
            }
        }),
{
    let es = g.encounters;
    let after = offered(g, keys, now);
    choice_is_the_best(es, keys, now);
    assert forall|i: int| 0 <= i < es.len() && due(#[trigger] es[i], now) implies eligible(
        es[i],
        keys,
        now,
    ) by {
        assert(keys.contains(es[i].candidate.key()));
    }
    if let Some(b) = choice(es, keys, now) {
        assert(after.encounters[b].disposition == Disposition::Shown);
        assert forall|i: int|
            0 <= i < after.encounters.len() && due(
                #[trigger] after.encounters[i],
                now,
            ) implies after.encounters[i].candidate.strength.place()
            <= es[b].candidate.strength.place() by {
            assert(i != b);
            assert(after.encounters[i] == es[i]);
            assert(due(es[i], now));
            assert(es[i].candidate.priority() <= es[b].candidate.priority());
        }
        assert(after.encounters[b].candidate == after.current->0.candidate);
        assert(shown(after.encounters, after.current->0.candidate, now));
    } else {
        assert forall|i: int| 0 <= i < after.encounters.len() implies !due(
            #[trigger] after.encounters[i],
            now,
        ) by {
            assert(after.encounters[i] == es[i]);
        }
    }
}

/// A window title alone is offered when it is seen again, a second after it was seen
/// first and at most eight: with one observation at `first` and one at `second`,
/// there is a card exactly then.
pub proof fn a_title_is_offered_after_a_second(
    next_id: u64,
    first: u64,
    second: u64,
    c: CandidateView,
    again: CandidateView,
    ignored: Seq<Seq<char>>,
)
    requires
        first < second,
        c.strength == Strength::Title,
        again.strength == Strength::Title,
        again.instance_key == c.instance_key,
        again.conference_key == c.conference_key,
        !ignored.contains(c.app_key),
        !ignored.contains(again.app_key),
        next_id < u64::MAX,
    ensures
        ({
            let fresh_gate = GateView { encounters: Seq::empty(), current: None, next_id };
            let once = updated(fresh_gate, first, seq![c], true, false, ignored);
            let twice = updated(once, second, seq![again], true, false, ignored);
            &&& once.current is None
            &&& twice.current is Some <==> 1_000 <= second - first <= 8_000
            &&& twice.current matches Some(p) ==> p.candidate == again
            &&& twice.encounters.len() == 1
        }),
{
    let g = GateView { encounters: Seq::empty(), current: None, next_id };
    let p1 = |e: EncounterView| remembered(e, first);
    let p2 = |e: EncounterView| remembered(e, second);
    assert(g.encounters.filter(p1) =~= Seq::<EncounterView>::empty()) by {
        g.encounters.lemma_filter_len(p1);
    }
    one_is_considered(c, ignored);
    one_is_considered(again, ignored);
    let row = first_seen(c, first);
    one_is_observed(g, c, first);
    assert(seq![row] =~= Seq::<EncounterView>::empty().push(row));
    let (g1, keys1) = observed(g, Seq::empty(), seq![c], first);
    let once = updated(g, first, seq![c], true, false, ignored);
    choice_is_the_best(g1.encounters, keys1, first);
    assert(!eligible(g1.encounters[0], keys1, first));
    assert(once == g1);
    let kept = once.encounters.filter(p2);
    assert(kept == if remembered(row, second) {
        seq![row]
    } else {
        Seq::<EncounterView>::empty()
    }) by {
        reveal(Seq::filter);
        assert(once.encounters.drop_last() =~= Seq::<EncounterView>::empty());
        assert(once.encounters.drop_last().filter(p2) =~= Seq::<EncounterView>::empty());
        assert(once.encounters.last() == row);
        assert(Seq::<EncounterView>::empty().push(row) =~= seq![row]);
    }
    let g2 = GateView { encounters: kept, ..once };
    one_is_observed(g2, again, second);
    let (g3, keys3) = observed(g2, Seq::empty(), seq![again], second);
    let es = g3.encounters;
    choice_is_the_best(es, keys3, second);
    assert(keys3[0] == again.key());
    assert(keys3.contains(again.key()));
    assert(es.len() == 1);
    assert(es[0].candidate == again);
    assert(eligible(es[0], keys3, second) <==> 1_000 <= second - first <= 8_000);
}

proof fn one_is_considered(c: CandidateView, ignored: Seq<Seq<char>>)
    requires
        !ignored.contains(c.app_key),
    ensures
        considered(seq![c], ignored) == seq![c],
{
    let cs = seq![c];
    let all = considered(cs, ignored);
    considered_comes_from(cs, ignored);
    considered_holds_all(cs, ignored);
    assert(cs[0] == c);
    assert(wanted(cs, ignored, c));
    let k = choose|k: int| 0 <= k < all.len() && all[k] == c;
    assert(all =~= cs);
}

/// One candidate, seen where nothing is remembered or only a meeting of its own
/// window and conference.
proof fn one_is_observed(g: GateView, c: CandidateView, now: u64)
    requires
        g.current is None,
        g.encounters.len() == 0 || (g.encounters.len() == 1
            && g.encounters[0].candidate.instance_key == c.instance_key
            && g.encounters[0].candidate.conference_key == c.conference_key),
    ensures
        ({
            let row = if g.encounters.len() == 0 {
                first_seen(c, now)
            } else {
                seen_again(g.encounters[0], c, now)
            };
            observed(g, Seq::empty(), seq![c], now) == (
                GateView { encounters: seq![row], ..g },
                seq![c.key()],
            )
        }),
{
    let cs = seq![c];
    let es = g.encounters;
    let same_window = |e: EncounterView| alias(e, c);
    assert(unified(g, c) == (g, c)) by {
        if es.filter(same_window).len() == 1 {
            es.lemma_filter_len(same_window);
            let i = first_where(es, same_window, 0);
            crate::seqs::first_where_of_filter(es, same_window);
            crate::seqs::first_where_is_first(es, same_window, 0);
            assert(i == 0);
            assert(es[0].candidate.with_conference(agreed_conference(es[0], c)) == es[0].candidate);
            assert(each_once(es));
            replacement_rows(es, 0, es[0]);
        }
    }
    with_key_finds(es, c.key());
    assert(cs.drop_first() =~= Seq::<CandidateView>::empty());
    assert(cs[0] == c);
    let none = Seq::<Seq<char>>::empty();
    assert(!none.contains(c.key()));
    assert(none.push(c.key()) =~= seq![c.key()]);
    let out = recorded(es, c, now);
    if es.len() == 0 {
        assert(out =~= seq![first_seen(c, now)]);
    } else {
        assert(out =~= seq![seen_again(es[0], c, now)]);
    }
    let next = GateView { encounters: out, ..g };
    assert(observed(next, none.push(c.key()), cs.drop_first(), now) == (next, none.push(c.key())));
    assert(observed(g, none, cs, now) == observed(
        next,
        none.push(c.key()),
        cs.drop_first(),
        now,
    ));
}

/// A click on the card that is current answers its meeting and no other: for good, or,
/// for a snooze, for two minutes. The card goes with it.
pub proof fn a_click_answers_its_meeting(g: GateView, id: u64, action: Action, now: u64)
    requires
        orderly(g),
        g.current is Some,
        g.current->0.id == id,
        remembers(g.encounters, g.current->0.candidate.key()),
        now + 120_000 <= u64::MAX,
    ensures
        ({
            let after = acted(g, id, action, now);
            let key = g.current->0.candidate.key();
            &&& after.current is None
            &&& after.next_id == g.next_id
            &&& after.encounters.len() == g.encounters.len()
            &&& forall|i: int|
                0 <= i < g.encounters.len() ==> {
                    let row = #[trigger] after.encounters[i];
                    &&& row.candidate == g.encounters[i].candidate
                    &&& row.last_seen_ms == g.encounters[i].last_seen_ms
                    &&& row.first_seen_ms == g.encounters[i].first_seen_ms
                    &&& row.candidate.key() != key ==> row == g.encounters[i]
                    &&& row.candidate.key() == key && action != Action::Snooze ==> row.disposition
                        == Disposition::Done
                    &&& row.candidate.key() == key && action == Action::Snooze ==> row.disposition
                        == Disposition::Snoozed((now + 120_000) as u64)
                }
        }),
{
    let key = g.current->0.candidate.key();
    let es = g.encounters;
    with_key_finds(es, key);
    let i = with_key(es, key);
    let m = choose|m: int| 0 <= m < es.len() && (#[trigger] es[m]).candidate.key() == key;
    assert(i <= m);
    assert forall|k: int| 0 <= k < es.len() && k != i implies (#[trigger] es[k]).candidate.key()
        != key by {
        if k < i {
            assert(es[k].candidate.key() != es[i].candidate.key());
        } else {
            assert(es[i].candidate.key() != es[k].candidate.key());
        }
    }
}

/// A review hands on the meeting of the card while that was seen in the last eight
/// seconds; no other click hands anything on.
pub proof fn a_review_hands_on_what_was_seen_lately(g: GateView, id: u64, action: Action, now: u64)
    ensures
        handed_on(g, id, action, now) matches Some(c) ==> {
            &&& action == Action::Review
            &&& g.current is Some && g.current->0.id == id && g.current->0.candidate == c
            &&& exists|i: int|
                0 <= i < g.encounters.len() && (#[trigger] g.encounters[i]).candidate.key()
                    == c.key() && now - g.encounters[i].last_seen_ms <= 8_000
        },
        action == Action::Review && g.current is Some && g.current->0.id == id && remembers(
            g.encounters,
            g.current->0.candidate.key(),
        ) && (forall|i: int|
            0 <= i < g.encounters.len() && (#[trigger] g.encounters[i]).candidate.key()
                == g.current->0.candidate.key() ==> now - g.encounters[i].last_seen_ms <= 8_000)
            ==> handed_on(g, id, action, now) == Some(g.current->0.candidate),
{
    if let Some(p) = g.current {
        let key = p.candidate.key();
        with_key_finds(g.encounters, key);
        if remembers(g.encounters, key) {
            let m = choose|m: int|
                0 <= m < g.encounters.len() && (#[trigger] g.encounters[m]).candidate.key() == key;
            assert(with_key(g.encounters, key) <= m);
        }
    }
}

proof fn none_is_considered(ignored: Seq<Seq<char>>)
    ensures
        considered(Seq::empty(), ignored) == Seq::<CandidateView>::empty(),
{
    considered_comes_from(Seq::empty(), ignored);
    assert(considered(Seq::empty(), ignored) =~= Seq::<CandidateView>::empty());
}

/// A candidate of a window and an identity that nothing is remembered of.
proof fn a_new_one_is_observed(g: GateView, c: CandidateView, now: u64)
    requires
        g.encounters.len() < MAX_RECENT_REMINDERS,
        forall|i: int|
            0 <= i < g.encounters.len() ==> (#[trigger] g.encounters[i]).candidate.key() != c.key()
                && g.encounters[i].candidate.instance_key != c.instance_key,
    ensures
        observed(g, Seq::empty(), seq![c], now) == (
            GateView { encounters: g.encounters.push(first_seen(c, now)), ..g },
            seq![c.key()],
        ),
{
    let cs = seq![c];
    let es = g.encounters;
    let same_window = |e: EncounterView| alias(e, c);
    assert(es.filter(same_window).len() == 0) by {
        let hits = es.filter(same_window);
        if hits.len() > 0 {
            es.lemma_filter_pred(same_window, 0);
            assert(hits.contains(hits[0]));
            es.lemma_filter_contains_rev(same_window, hits[0]);
            let i = choose|i: int| 0 <= i < es.len() && es[i] == hits[0];
            assert(es[i].candidate.instance_key != c.instance_key);
        }
    }
    assert(unified(g, c) == (g, c));
    with_key_finds(es, c.key());
    let none = Seq::<Seq<char>>::empty();
    assert(!none.contains(c.key()));
    assert(none.push(c.key()) =~= seq![c.key()]);
    assert(cs.drop_first() =~= Seq::<CandidateView>::empty());
    assert(cs[0] == c);
    let next = GateView { encounters: recorded(es, c, now), ..g };
    assert(observed(next, none.push(c.key()), cs.drop_first(), now) == (next, none.push(c.key())));
    assert(observed(g, none, cs, now) == observed(
        next,
        none.push(c.key()),
        cs.drop_first(),
        now,
    ));
}

/// A meeting stands for the card: one of its identity was seen in the last eight
/// seconds, from an application that is not ignored.
pub open spec fn seen_lately(
    g: GateView,
    key: Seq<char>,
    now: u64,
    ignored: Seq<Seq<char>>,
) -> bool {
    exists|i: int|
        0 <= i < g.encounters.len() && (#[trigger] g.encounters[i]).candidate.key() == key
            && g.encounters[i].last_seen_ms <= now && now - g.encounters[i].last_seen_ms <= 8_000
            && !ignored.contains(g.encounters[i].candidate.app_key)
}

proof fn kept_card_is_valid(g: GateView, p: PromptView, now: u64, ignored: Seq<Seq<char>>)
    ensures
        ({
            let kept = GateView {
                encounters: g.encounters.filter(|e: EncounterView| remembered(e, now)),
                ..g
            };
            still_valid(kept, p, now, ignored) <==> seen_lately(
                g,
                p.candidate.key(),
                now,
                ignored,
            )
        }),
{
    let r = |e: EncounterView| remembered(e, now);
    let es = g.encounters;
    let key = p.candidate.key();
    let out = es.filter(r);
    let kept = GateView { encounters: out, ..g };
    if still_valid(kept, p, now, ignored) {
        let i = choose|i: int| 0 <= i < out.len() && upholds(#[trigger] out[i], key, now, ignored);
        es.lemma_filter_pred(r, i);
        assert(out.contains(out[i]));
        es.lemma_filter_contains_rev(r, out[i]);
        let m = choose|m: int| 0 <= m < es.len() && es[m] == out[i];
        assert(g.encounters[m].candidate.key() == key);
    }
    if seen_lately(g, key, now, ignored) {
        let m = choose|m: int|
            0 <= m < g.encounters.len() && (#[trigger] g.encounters[m]).candidate.key() == key
                && g.encounters[m].last_seen_ms <= now && now - g.encounters[m].last_seen_ms
                <= 8_000 && !ignored.contains(g.encounters[m].candidate.app_key);
        es.lemma_filter_contains(r, m);
        let i = choose|i: int| 0 <= i < out.len() && out[i] == es[m];
        assert(upholds(kept.encounters[i], key, now, ignored));
    }
}

/// An observation that shows nothing leaves the card exactly as long as its meeting was
/// seen in the last eight seconds, and offers nothing. What was not seen for a minute
/// and a half is forgotten, all else is remembered.
pub proof fn a_card_stands_while_its_meeting_is_seen(
    g: GateView,
    now: u64,
    ignored: Seq<Seq<char>>,
)
    ensures
        ({
            let after = updated(g, now, Seq::empty(), true, false, ignored);
            &&& after.current == (if g.current is Some && seen_lately(
                g,
                g.current->0.candidate.key(),
                now,
                ignored,
            ) {
                g.current
            } else {
                None
            })
            &&& forall|i: int|
                0 <= i < g.encounters.len() && (#[trigger] g.encounters[i]).last_seen_ms <= now
                    && now - g.encounters[i].last_seen_ms < 90_000 ==> remembers(
                    after.encounters,
                    g.encounters[i].candidate.key(),
                )
            &&& forall|k: int|
                0 <= k < after.encounters.len() ==> (#[trigger] after.encounters[k]).last_seen_ms
                    <= now && now - after.encounters[k].last_seen_ms < 90_000
            &&& after.next_id == g.next_id
        }),
{
    none_is_considered(ignored);
    let r = |e: EncounterView| remembered(e, now);
    let es = g.encounters;
    let kept = GateView { encounters: es.filter(r), ..g };
    let none = Seq::<Seq<char>>::empty();
    let after = updated(g, now, Seq::empty(), true, false, ignored);
    assert(observed(kept, none, Seq::empty(), now) == (kept, none));
    let before = match g.current {
        Some(p) => disposed(kept.encounters, p.candidate.key(), Disposition::Pending),
        None => kept.encounters,
    };
    if let Some(p) = g.current {
        kept_card_is_valid(g, p, now, ignored);
        with_key_finds(kept.encounters, p.candidate.key());
        assert(!replaced(kept, p, none)) by {
            assert forall|i: int| 0 <= i < kept.encounters.len() implies !outranks(
                #[trigger] kept.encounters[i],
                none,
            ) by {
                assert(!none.contains(kept.encounters[i].candidate.key()));
            }
        }
    }
    choice_is_the_best(before, none, now);
    assert forall|i: int| 0 <= i < before.len() implies !eligible(#[trigger] before[i], none, now) by {
        assert(!none.contains(before[i].candidate.key()));
    }
    assert(after.encounters.len() == kept.encounters.len());
    assert forall|k: int| 0 <= k < after.encounters.len() implies (
    #[trigger] after.encounters[k]).last_seen_ms <= now && now - after.encounters[k].last_seen_ms
        < 90_000 && after.encounters[k].candidate == kept.encounters[k].candidate by {
        es.lemma_filter_pred(r, k);
        assert(after.encounters[k].last_seen_ms == kept.encounters[k].last_seen_ms);
    }
    assert forall|i: int|
        0 <= i < es.len() && (#[trigger] g.encounters[i]).last_seen_ms <= now && now
            - g.encounters[i].last_seen_ms < 90_000 implies remembers(
        after.encounters,
        g.encounters[i].candidate.key(),
    ) by {
        es.lemma_filter_contains(r, i);
        let k = choose|k: int| 0 <= k < kept.encounters.len() && kept.encounters[k] == es[i];
        assert(after.encounters[k].candidate == es[i].candidate);
    }
}

/// Nothing is remembered of the window or the identity of the candidate, and there is
/// room for it.
pub open spec fn new_to(g: GateView, c: CandidateView) -> bool {
    &&& g.encounters.len() < 32
    &&& forall|i: int|
        0 <= i < g.encounters.len() ==> (#[trigger] g.encounters[i]).candidate.key() != c.key()
            && g.encounters[i].candidate.instance_key != c.instance_key
    &&& g.current is Some ==> g.current->0.candidate.key() != c.key()
}

/// One new meeting beside a card. A confirmed call takes the place of a card that shows
/// less, at once; every other meeting leaves a card that stands as it is. Without a
/// card that stands, a meeting that is more than a title is offered.
pub proof fn one_new_meeting_beside_a_card(
    g: GateView,
    now: u64,
    c: CandidateView,
    ignored: Seq<Seq<char>>,
)
    requires
        new_to(g, c),
        !ignored.contains(c.app_key),
    ensures
        ({
            let after = updated(g, now, seq![c], true, false, ignored);
            let stands = g.current is Some && seen_lately(
                g,
                g.current->0.candidate.key(),
                now,
                ignored,
            );
            let takes_over = c.strength == Strength::Confirmed && g.current is Some
                && g.current->0.candidate.strength != Strength::Confirmed;
            &&& remembers(after.encounters, c.key())
            &&& stands && !takes_over ==> after.current == g.current
            &&& !stands || takes_over ==> if c.strength == Strength::Title {
                after.current is None
            } else {
                after.current is Some && after.current->0.candidate == c
            }
        }),
{
    one_is_considered(c, ignored);
    let r = |e: EncounterView| remembered(e, now);
    let es = g.encounters;
    let kept = GateView { encounters: es.filter(r), ..g };
    es.lemma_filter_len(r);
    assert forall|i: int| 0 <= i < kept.encounters.len() implies (
    #[trigger] kept.encounters[i]).candidate.key() != c.key()
        && kept.encounters[i].candidate.instance_key != c.instance_key by {
        assert(kept.encounters.contains(kept.encounters[i]));
        es.lemma_filter_contains_rev(r, kept.encounters[i]);
        let m = choose|m: int| 0 <= m < es.len() && es[m] == kept.encounters[i];
        assert(g.encounters[m].candidate.key() != c.key());
    }
    a_new_one_is_observed(kept, c, now);
    let (g1, keys) = observed(kept, Seq::empty(), seq![c], now);
    let n = kept.encounters.len() as int;
    let row = first_seen(c, now);
    assert(keys[0] == c.key());
    assert(g1.encounters[n] == row);
    assert forall|k: Seq<char>| keys.contains(k) <==> k == c.key() by {}
    let after = updated(g, now, seq![c], true, false, ignored);
    match g1.current {
        None => {
            only_the_new_one_may_be_offered(g1, keys, c, n, now);
        },
        Some(p) => {
            kept_card_is_valid(g, p, now, ignored);
            let key = p.candidate.key();
            let stronger = replaced(g1, p, keys);
            assert(still_valid(g1, p, now, ignored) <==> still_valid(kept, p, now, ignored)) by {
                if still_valid(kept, p, now, ignored) {
                    let i = choose|i: int|
                        0 <= i < n && upholds(#[trigger] kept.encounters[i], key, now, ignored);
                    assert(g1.encounters[i] == kept.encounters[i]);
                    assert(upholds(g1.encounters[i], key, now, ignored));
                }
                if still_valid(g1, p, now, ignored) {
                    let i = choose|i: int|
                        0 <= i < n + 1 && upholds(#[trigger] g1.encounters[i], key, now, ignored);
                    assert(i < n);
                    assert(upholds(kept.encounters[i], key, now, ignored));
                }
            }
            assert(stronger <==> c.strength == Strength::Confirmed && p.candidate.strength
                != Strength::Confirmed) by {
                if c.strength == Strength::Confirmed {
                    assert(outranks(g1.encounters[n], keys));
                }
                if stronger {
                    let i = choose|i: int|
                        0 <= i < n + 1 && outranks(#[trigger] g1.encounters[i], keys);
                    if i < n {
                        assert(g1.encounters[i] == kept.encounters[i]);
                    }
                }
            }
            if still_valid(g1, p, now, ignored) && !stronger {
                assert(after == g1);
                assert(after.encounters[n].candidate.key() == c.key());
            } else {
                let disposition = if stronger {
                    Disposition::Done
                } else {
                    Disposition::Pending
                };
                let ds = disposed(g1.encounters, key, disposition);
                with_key_finds(g1.encounters, key);
                assert(ds[n] == row);
                assert forall|i: int| 0 <= i < n implies (#[trigger] ds[i]).candidate.key()
                    != c.key() by {
                    assert(ds[i].candidate == g1.encounters[i].candidate);
                    assert(g1.encounters[i] == kept.encounters[i]);
                }
                let g2 = GateView { encounters: ds, current: None, next_id: g1.next_id };
                only_the_new_one_may_be_offered(g2, keys, c, n, now);
            }
        },
    }
}

proof fn only_the_new_one_may_be_offered(
    g: GateView,
    keys: Seq<Seq<char>>,
    c: CandidateView,
    n: int,
    now: u64,
)
    requires
        g.current is None,
        g.encounters.len() == n + 1,
        n >= 0,
        g.encounters[n] == first_seen(c, now),
        forall|i: int| 0 <= i < n ==> (#[trigger] g.encounters[i]).candidate.key() != c.key(),
        forall|k: Seq<char>| keys.contains(k) <==> k == c.key(),
    ensures
        remembers(offered(g, keys, now).encounters, c.key()),
        if c.strength == Strength::Title {
            offered(g, keys, now).current is None
        } else {
            offered(g, keys, now).current is Some && offered(g, keys, now).current->0.candidate == c
        },
{
    let es = g.encounters;
    let after = offered(g, keys, now);
    choice_is_the_best(es, keys, now);
    assert forall|i: int| 0 <= i < n implies !eligible(#[trigger] es[i], keys, now) by {
        assert(es[i].candidate.key() != c.key());
    }
    assert(eligible(es[n], keys, now) <==> c.strength != Strength::Title) by {
        assert(keys.contains(c.key()));
    }
    assert(after.encounters[n].candidate.key() == c.key());
}

/// During a recording every meeting that is seen is settled: it is remembered as done,
/// and no card is shown.
pub proof fn meetings_of_a_recording_are_settled(
    next_id: u64,
    now: u64,
    candidates: Seq<CandidateView>,
    ignored: Seq<Seq<char>>,
)
    requires
        candidates.len() <= 32,
        named_alike(candidates),
    ensures
        ({
            let fresh_gate = GateView { encounters: Seq::empty(), current: None, next_id };
            let after = updated(fresh_gate, now, candidates, true, true, ignored);
            &&& after.current is None
            &&& forall|c: CandidateView| #[trigger]
                wanted(candidates, ignored, c) ==> remembers(after.encounters, c.key())
            &&& forall|k: int|
                0 <= k < after.encounters.len() ==> (#[trigger] after.encounters[k]).disposition
                    == Disposition::Done && after.encounters[k].last_seen_ms == now
        }),
{
    let g = GateView { encounters: Seq::empty(), current: None, next_id };
    let p = |e: EncounterView| remembered(e, now);
    let cs = considered(candidates, ignored);
    assert(g.encounters.filter(p) =~= Seq::<EncounterView>::empty()) by {
        g.encounters.lemma_filter_len(p);
    }
    considered_comes_from(candidates, ignored);
    considered_by_priority(candidates, ignored);
    considered_holds_all(candidates, ignored);
    assert(named_alike(cs)) by {
        assert forall|i: int, j: int|
            0 <= i < cs.len() && 0 <= j < cs.len() && (#[trigger] cs[i]).instance_key == (
            #[trigger] cs[j]).instance_key implies (cs[i].conference_key is None
            <==> cs[j].conference_key is None) by {
            assert(candidates.contains(cs[i]) && candidates.contains(cs[j]));
            let x = choose|x: int| 0 <= x < candidates.len() && candidates[x] == cs[i];
            let y = choose|y: int| 0 <= y < candidates.len() && candidates[y] == cs[j];
            assert(candidates[x].instance_key == candidates[y].instance_key);
        }
    }
    assert forall|i: int| 0 <= i < cs.len() implies cs.contains(#[trigger] cs[i]) by {}
    first_observation(g, Seq::empty(), cs, cs, now);
    let (g1, keys) = observed(g, Seq::empty(), cs, now);
    let es = g1.encounters;
    let after = updated(g, now, candidates, true, true, ignored);
    assert forall|k: int| 0 <= k < after.encounters.len() implies (
    #[trigger] after.encounters[k]).disposition == Disposition::Done
        && after.encounters[k].last_seen_ms == now by {
        assert(keys.contains(keys[k]));
        assert(es[k].candidate.key() == keys[k]);
        assert(es[k] == first_seen(es[k].candidate, now));
    }
    assert forall|c: CandidateView| #[trigger] wanted(candidates, ignored, c) implies remembers(
        after.encounters,
        c.key(),
    ) by {
        let i = choose|i: int| 0 <= i < cs.len() && cs[i] == c;
        assert(keys.contains(cs[i].key()));
        let k = choose|k: int| 0 <= k < keys.len() && keys[k] == c.key();
        assert(es[k].candidate.key() == keys[k]);
        assert(after.encounters[k].candidate == es[k].candidate);
    }
}

/// A full memory makes room for a new meeting by forgetting one, and none that was seen
/// later than another is forgotten; a meeting that is known takes no room.
pub proof fn a_full_memory_forgets_the_least_recent(
    es: Seq<EncounterView>,
    c: CandidateView,
    now: u64,
)
    requires
        each_once(es),
        es.len() <= 32,
    ensures
        ({
            let out = recorded(es, c, now);
            &&& remembers(out, c.key())
            &&& remembers(es, c.key()) ==> out.len() == es.len()
            &&& !remembers(es, c.key()) && es.len() < 32 ==> out.len() == es.len() + 1
            &&& !remembers(es, c.key()) && es.len() == 32 ==> out.len() == 32
            &&& forall|m: int|
                0 <= m < es.len() && (#[trigger] es[m]).candidate.key() != c.key() && !out.contains(
                    es[m],
                ) ==> es.len() == 32 && !remembers(es, c.key()) && forall|k: int|
                    0 <= k < es.len() ==> es[m].last_seen_ms <= (#[trigger] es[k]).last_seen_ms
        }),
{
    let out = recorded(es, c, now);
    recorded_rows(es, c, now);
    with_key_finds(es, c.key());
    if es.len() > 0 {
        oldest_was_seen_least_recently(es);
    }
    let k = choose|k: int| 0 <= k < out.len() && (#[trigger] out[k]).candidate == c;
    assert(out[k].candidate.key() == c.key());
    if remembers(es, c.key()) {
        let m = choose|m: int| 0 <= m < es.len() && (#[trigger] es[m]).candidate.key() == c.key();
        assert(with_key(es, c.key()) <= m);
    }
    assert forall|m: int|
        0 <= m < es.len() && (#[trigger] es[m]).candidate.key() != c.key() && !out.contains(
            es[m],
        ) implies es.len() == 32 && !remembers(es, c.key()) && forall|k: int|
        0 <= k < es.len() ==> es[m].last_seen_ms <= (#[trigger] es[k]).last_seen_ms by {
        assert(m == oldest(es));
        if with_key(es, c.key()) < es.len() {
            assert(out.contains(es[m]));
        }
    }
}

/// A window whose conference is known goes on under it where an observation shows the
/// window alone: the candidate gets the conference, and what is remembered stays.
pub proof fn a_window_is_known_by_its_conference(g: GateView, c: CandidateView, i: int)
    requires
        orderly(g),
        c.conference_key is None,
        g.encounters.filter(|e: EncounterView| alias(e, c)).len() == 1,
        0 <= i < g.encounters.len(),
        g.encounters[i].candidate.instance_key == c.instance_key,
        g.encounters[i].candidate.conference_key is Some,
    ensures
        unified(g, c).1.key() == g.encounters[i].candidate.key(),
        unified(g, c).0.encounters == g.encounters,
{
    let es = g.encounters;
    let same_window = |e: EncounterView| alias(e, c);
    unified_rows(g, c);
    crate::seqs::first_where_of_filter(es, same_window);
    crate::seqs::first_where_is_first(es, same_window, 0);
    let at = first_where(es, same_window, 0);
    only_one_passes(es, same_window, at, i);
}

/// Each confirmed call, and no other meeting, has a time since which it is confirmed.
pub open spec fn dated(es: Seq<EncounterView>) -> bool {
    forall|i: int|
        0 <= i < es.len() ==> ((#[trigger] es[i]).candidate.strength == Strength::Confirmed
            <==> es[i].confirmed_since_ms is Some)
}

proof fn observing_stays_dated(
    g: GateView,
    keys: Seq<Seq<char>>,
    cs: Seq<CandidateView>,
    now: u64,
)
    requires
        orderly(g),
        dated(g.encounters),
    ensures
        dated(observed(g, keys, cs, now).0.encounters),
    decreases cs.len(),
{
    if cs.len() > 0 {
        let i = unified_rows(g, cs[0]);
        let (g1, c) = unified(g, cs[0]);
        let es = g.encounters;
        let mid = g1.encounters;
        assert(dated(mid)) by {
            if mid != es {
                let e = renamed(es[i], cs[0]);
                let key = e.candidate.key();
                assert forall|k: int| 0 <= k < mid.len() implies ((
                #[trigger] mid[k]).candidate.strength == Strength::Confirmed
                    <==> mid[k].confirmed_since_ms is Some) by {
                    assert(stayed(es, i, key, mid[k]) || replacement(es, i, e, mid[k]));
                    if stayed(es, i, key, mid[k]) {
                        let m = choose|m: int|
                            0 <= m < es.len() && m != i && #[trigger] es[m] == mid[k];
                        assert(es[m] == mid[k]);
                    } else {
                        assert(es[i].candidate.strength == e.candidate.strength);
                        if mid[k] != e {
                            let m = choose|m: int|
                                0 <= m < es.len() && m != i && (#[trigger] es[m]).candidate.key()
                                    == key && mid[k] == merged(e, es[m]);
                            assert(mid[k] == merged(e, es[m]));
                        }
                    }
                }
            }
        }
        if keys.contains(c.key()) {
            observing_stays_dated(g1, keys, cs.drop_first(), now);
        } else {
            let out = recorded(mid, c, now);
            recorded_orderly(g1, c, now);
            with_key_finds(mid, c.key());
            oldest_in_range(mid);
            assert forall|k: int| 0 <= k < out.len() implies ((
            #[trigger] out[k]).candidate.strength == Strength::Confirmed
                <==> out[k].confirmed_since_ms is Some) by {
                let at = with_key(mid, c.key());
                if at < mid.len() {
                    if k != at {
                        assert(out[k] == mid[k]);
                    }
                } else if k < out.len() - 1 {
                    if mid.len() >= MAX_RECENT_REMINDERS {
                        if k < oldest(mid) {
                            assert(out[k] == mid[k]);
                        } else {
                            assert(out[k] == mid[k + 1]);
                        }
                    } else {
                        assert(out[k] == mid[k]);
                    }
                }
            }
            observing_stays_dated(
                GateView { encounters: out, ..g1 },
                keys.push(c.key()),
                cs.drop_first(),
                now,
            );
        }
    }
}

/// Confirmed calls stay dated with every observation, and none of those that were just
/// seen waits beside a card that shows less.
pub proof fn confirmed_calls_come_first(
    g: GateView,
    now: u64,
    candidates: Seq<CandidateView>,
    ignored: Seq<Seq<char>>,
)
    requires
        orderly(g),
        dated(g.encounters),
        forall|i: int|
            0 <= i < g.encounters.len() ==> (#[trigger] g.encounters[i]).last_seen_ms < now,
    ensures
        ({
            let after = updated(g, now, candidates, true, false, ignored);
            &&& dated(after.encounters)
            &&& after.current is None || after.current->0.candidate.strength != Strength::Confirmed
                ==> forall|i: int|
                0 <= i < after.encounters.len() ==> !((
                #[trigger] after.encounters[i]).last_seen_ms == now
                    && after.encounters[i].disposition == Disposition::Pending
                    && after.encounters[i].candidate.strength == Strength::Confirmed)
        }),
{
    let r = |e: EncounterView| remembered(e, now);
    let kept = GateView { encounters: g.encounters.filter(r), ..g };
    kept_orderly(g, now);
    filter_keeps_each_once(g.encounters, r);
    assert(dated(kept.encounters)) by {
        assert forall|i: int| 0 <= i < kept.encounters.len() implies ((
        #[trigger] kept.encounters[i]).candidate.strength == Strength::Confirmed
            <==> kept.encounters[i].confirmed_since_ms is Some) by {
            assert(g.encounters.contains(kept.encounters[i]));
            let m = choose|m: int|
                0 <= m < g.encounters.len() && g.encounters[m] == kept.encounters[i];
            assert(g.encounters[m] == kept.encounters[i]);
        }
    }
    let cs = considered(candidates, ignored);
    observing_stays_dated(kept, Seq::empty(), cs, now);
    let (g1, keys) = observed(kept, Seq::empty(), cs, now);
    let after = updated(g, now, candidates, true, false, ignored);
    assert(after == settled(g1, keys, now, ignored));
    if let Some(card) = g1.current {
        with_key_finds(g1.encounters, card.candidate.key());
        choice_is_the_best(
            disposed(g1.encounters, card.candidate.key(), Disposition::Done),
            keys,
            now,
        );
        choice_is_the_best(
            disposed(g1.encounters, card.candidate.key(), Disposition::Pending),
            keys,
            now,
        );
    }
    choice_is_the_best(g1.encounters, keys, now);
    assert(after.encounters.len() == g1.encounters.len());
    assert forall|i: int| 0 <= i < after.encounters.len() implies ((
    #[trigger] after.encounters[i]).candidate.strength == Strength::Confirmed
        <==> after.encounters[i].confirmed_since_ms is Some) by {
        assert(after.encounters[i].candidate == g1.encounters[i].candidate);
        assert(after.encounters[i].confirmed_since_ms == g1.encounters[i].confirmed_since_ms);
    }
    nothing_due_is_passed_over(g, now, candidates, ignored);
    assert forall|i: int|
        0 <= i < after.encounters.len() && (after.current is None
            || after.current->0.candidate.strength != Strength::Confirmed) implies !((
    #[trigger] after.encounters[i]).last_seen_ms == now && after.encounters[i].disposition
        == Disposition::Pending && after.encounters[i].candidate.strength
        == Strength::Confirmed) by {
        if after.encounters[i].last_seen_ms == now && after.encounters[i].disposition
            == Disposition::Pending && after.encounters[i].candidate.strength
            == Strength::Confirmed {
            assert(due(after.encounters[i], now));
        }
    }
}

/// What becomes of two offers of one meeting does not depend on which comes first. An
/// answer to either stays one, the meeting is quiet as long as either was, and it is
/// open only where both were.
pub proof fn answers_are_joined(
    a: Disposition,
    b: Disposition,
    c: Disposition,
    e: EncounterView,
    now: u64,
)
    ensures
        a.with(b) == b.with(a),
        a.with(a) == a,
        a.with(b).with(c) == a.with(b.with(c)),
        a.with(b) == a || a.with(b) == b,
        a.with(b).is_answer() <==> a.is_answer() || b.is_answer(),
        quiet(EncounterView { disposition: a.with(b), ..e }, now) <==> quiet(
            EncounterView { disposition: a, ..e },
            now,
        ) || quiet(EncounterView { disposition: b, ..e }, now),
        a.with(b) == Disposition::Pending <==> a == Disposition::Pending && b
            == Disposition::Pending,
        a.with(b) == Disposition::Done <==> a == Disposition::Done || b == Disposition::Done,
{
}

proof fn filter_of_one_priority(cs: Seq<CandidateView>, a: int, b: int)
    ensures
        cs.filter(|c: CandidateView| c.priority() == a).filter(|c: CandidateView| c.priority() == b)
            == (if a == b {
            cs.filter(|c: CandidateView| c.priority() == a)
        } else {
            Seq::empty()
        }),
    decreases cs.len(),
{
    reveal(Seq::filter);
    let p = |c: CandidateView| c.priority() == a;
    let q = |c: CandidateView| c.priority() == b;
    if cs.len() > 0 {
        let front = cs.drop_last();
        filter_of_one_priority(front, a, b);
        if p(cs.last()) {
            let out = cs.filter(p);
            assert(out == front.filter(p).push(cs.last()));
            assert(out.drop_last() =~= front.filter(p));
            assert(out.last() == cs.last());
        }
    } else {
        assert(cs.filter(p) =~= Seq::<CandidateView>::empty());
    }
}

proof fn ranked_of_one_priority(cs: Seq<CandidateView>, rank: nat, b: int)
    ensures
        ranked(cs, rank).filter(|c: CandidateView| c.priority() == b) == (if 0 <= b < rank {
            cs.filter(|c: CandidateView| c.priority() == b)
        } else {
            Seq::empty()
        }),
    decreases rank,
{
    let q = |c: CandidateView| c.priority() == b;
    if rank == 0 {
        reveal(Seq::filter);
        assert(ranked(cs, 0).filter(q) =~= Seq::<CandidateView>::empty());
    } else {
        ranked_of_one_priority(cs, (rank - 1) as nat, b);
        filter_of_one_priority(cs, rank - 1, b);
        let top = cs.filter(|c: CandidateView| c.priority() == rank - 1);
        Seq::filter_distributes_over_add(top, ranked(cs, (rank - 1) as nat), q);
        assert(ranked(cs, rank).filter(q) =~= if 0 <= b < rank {
            cs.filter(q)
        } else {
            Seq::empty()
        });
    }
}

/// Candidates of one priority are considered in the order in which they were seen.
pub proof fn equal_candidates_keep_their_order(
    cs: Seq<CandidateView>,
    ignored: Seq<Seq<char>>,
    priority: int,
)
    requires
        0 <= priority < 8,
    ensures
        considered(cs, ignored).filter(|c: CandidateView| c.priority() == priority) == cs.filter(
            |c: CandidateView| !ignored.contains(c.app_key),
        ).filter(|c: CandidateView| c.priority() == priority),
{
    ranked_of_one_priority(
        cs.filter(|c: CandidateView| !ignored.contains(c.app_key)),
        8,
        priority,
    );
}

/// The reminder after a first observation that shows one meeting, which is more than a
/// title.
spec fn with_first_card(next_id: u64, now: u64, c: CandidateView) -> GateView {
    GateView {
        encounters: seq![EncounterView { disposition: Disposition::Shown, ..first_seen(c, now) }],
        current: Some(PromptView { id: (next_id + 1) as u64, candidate: c }),
        next_id: (next_id + 1) as u64,
    }
}

proof fn the_first_card(next_id: u64, now: u64, c: CandidateView, ignored: Seq<Seq<char>>)
    requires
        c.strength != Strength::Title,
        !ignored.contains(c.app_key),
        next_id < u64::MAX,
    ensures
        updated(
            GateView { encounters: Seq::empty(), current: None, next_id },
            now,
            seq![c],
            true,
            false,
            ignored,
        ) == with_first_card(next_id, now, c),
{
    let g = GateView { encounters: Seq::empty(), current: None, next_id };
    let r = |e: EncounterView| remembered(e, now);
    assert(g.encounters.filter(r) =~= Seq::<EncounterView>::empty()) by {
        g.encounters.lemma_filter_len(r);
    }
    one_is_considered(c, ignored);
    one_is_observed(g, c, now);
    let (g1, keys) = observed(g, Seq::empty(), seq![c], now);
    assert(keys[0] == c.key());
    assert(keys.contains(c.key()));
    assert(g1.encounters.len() == 1);
    assert(eligible(g1.encounters[0], keys, now));
    choice_is_the_best(g1.encounters, keys, now);
    assert(choice(g1.encounters, keys, now) == Some(0int));
    assert(offered(g1, keys, now).encounters =~= with_first_card(next_id, now, c).encounters);
}

/// What becomes of a reminder without a card that remembers one meeting, when that is
/// seen again.
proof fn seen_once_more(g: GateView, now: u64, c: CandidateView, ignored: Seq<Seq<char>>)
    requires
        g.current is None,
        g.encounters.len() == 1,
        g.encounters[0].candidate == c,
        c.strength != Strength::Title,
        !ignored.contains(c.app_key),
    ensures
        ({
            let after = updated(g, now, seq![c], true, false, ignored);
            let e = g.encounters[0];
            let open = !remembered(e, now) || e.disposition == Disposition::Pending || (
            e.disposition matches Disposition::Snoozed(until) && until <= now);
            &&& after.current is Some <==> open
            &&& after.current matches Some(p) ==> p.candidate == c
        }),
{
    let r = |e: EncounterView| remembered(e, now);
    let e = g.encounters[0];
    let kept = g.encounters.filter(r);
    assert(g.encounters =~= seq![e]);
    assert(kept == if remembered(e, now) {
        seq![e]
    } else {
        Seq::<EncounterView>::empty()
    }) by {
        reveal(Seq::filter);
        assert(g.encounters.drop_last() =~= Seq::<EncounterView>::empty());
        assert(g.encounters.drop_last().filter(r) =~= Seq::<EncounterView>::empty());
        assert(Seq::<EncounterView>::empty().push(e) =~= seq![e]);
    }
    let g1 = GateView { encounters: kept, ..g };
    one_is_considered(c, ignored);
    one_is_observed(g1, c, now);
    let (g2, keys) = observed(g1, Seq::empty(), seq![c], now);
    assert(keys[0] == c.key());
    assert(keys.contains(c.key()));
    assert(g2.encounters.len() == 1);
    choice_is_the_best(g2.encounters, keys, now);
    assert(g2.encounters[0].candidate == c);
}

/// What follows on the first card when its meeting is seen again. Put away without an
/// answer, it comes back. Dismissed or reviewed, it stays away, until the meeting was
/// not seen for a minute and a half and is a new one. Snoozed, it comes back after two
/// minutes, or as a new one.
pub proof fn what_follows_on_a_card(
    next_id: u64,
    first: u64,
    clicked: u64,
    second: u64,
    c: CandidateView,
    action: Action,
    ignored: Seq<Seq<char>>,
)
    requires
        c.strength != Strength::Title,
        !ignored.contains(c.app_key),
        next_id < u64::MAX,
        first <= clicked <= second,
        clicked + 120_000 <= u64::MAX,
    ensures
        ({
            let fresh_gate = GateView { encounters: Seq::empty(), current: None, next_id };
            let once = updated(fresh_gate, first, seq![c], true, false, ignored);
            let away = updated(paused(once), second, seq![c], true, false, ignored);
            let after = updated(
                acted(once, (next_id + 1) as u64, action, clicked),
                second,
                seq![c],
                true,
                false,
                ignored,
            );
            &&& once.current is Some
            &&& once.current->0.candidate == c
            &&& away.current is Some
            &&& away.current->0.candidate == c
            &&& action != Action::Snooze ==> (after.current is Some <==> second - first >= 90_000)
            &&& action == Action::Snooze ==> (after.current is Some <==> second - clicked >= 120_000
                || second - first >= 90_000)
        }),
{
    the_first_card(next_id, first, c, ignored);
    let once = with_first_card(next_id, first, c);
    let key = c.key();
    with_key_finds(once.encounters, key);
    assert(once.encounters[0].candidate.key() == key);
    assert(with_key(once.encounters, key) == 0);
    seen_once_more(paused(once), second, c, ignored);
    seen_once_more(acted(once, (next_id + 1) as u64, action, clicked), second, c, ignored);
}

} // verus!
