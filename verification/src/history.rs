//! The session's history of dictations and the lifetime totals. Totals count;
//! they hold no text.

use crate::text::{chars_of, is_whitespace, same, white};
use vstd::prelude::*;

verus! {

/// How many dictations the history keeps.
pub const HISTORY_LIMIT: usize = 50;

/// Lifetime totals, kept across restarts.
#[derive(Debug, Clone, Copy, PartialEq, Eq, Structural)]
pub struct Totals {
    pub dictations: u64,
    pub words: u64,
    pub chars: u64,
}

impl Default for Totals {
    fn default() -> (r: Self)
        ensures
            r == (Totals { dictations: 0, words: 0, chars: 0 }),
    {
        Totals { dictations: 0, words: 0, chars: 0 }
    }
}

/// A sum that stays at the largest number once it is reached.
pub open spec fn capped_sum(a: u64, b: int) -> u64 {
    if a + b > u64::MAX {
        u64::MAX
    } else {
        (a + b) as u64
    }
}

/// How many words begin in the first `n` characters. A word is a run of
/// characters without white space.
pub open spec fn words_in(s: Seq<char>, n: int) -> nat
    decreases n,
{
    if n <= 0 {
        0
    } else {
        words_in(s, n - 1) + (if !white(s[n - 1]) && (n == 1 || white(s[n - 2])) {
            1nat
        } else {
            0
        })
    }
}

/// How many words a text has.
pub fn count_words(text: &str) -> (r: usize)
    ensures
        r == words_in(text@, text@.len() as int),
{
    let chars = chars_of(text);
    let mut count: usize = 0;
    let mut outside = true;
    let mut i: usize = 0;
    while i < chars.len()
        invariant
            i <= chars@.len(),
            count <= i,
            count == words_in(chars@, i as int),
            outside == (i == 0 || white(chars@[i - 1])),
        decreases chars@.len() - i,
    {
        let space = is_whitespace(chars[i]);
        if outside && !space {
            count += 1;
        }
        outside = space;
        i += 1;
    }
    count
}

/// The totals after one more dictation.
pub open spec fn counted(t: Totals, text: Seq<char>) -> Totals {
    Totals {
        dictations: capped_sum(t.dictations, 1),
        words: capped_sum(t.words, words_in(text, text.len() as int) as int),
        chars: capped_sum(t.chars, text.len() as int),
    }
}

impl Totals {
    /// Counts one more dictation.
    pub fn add(&mut self, text: &str)
        ensures
            *final(self) == counted(*old(self), text@),
    {
        let words: u64 = count_words(text) as u64;
        let chars: u64 = text.unicode_len() as u64;
        self.dictations = self.dictations.saturating_add(1);
        self.words = self.words.saturating_add(words);
        self.chars = self.chars.saturating_add(chars);
    }
}

/// What to do with the totals at start.
#[derive(Debug, PartialEq, Eq)]
pub enum TotalsLoad {
    /// Start from these, and write them back after each dictation.
    Use(Totals),
    /// Set the invalid file aside, install zeros, and start from these.
    Recover,
    /// Count this session only; the file is left alone.
    SessionOnly,
}

/// What the totals file gave.
#[derive(Debug, PartialEq, Eq)]
pub enum TotalsFile {
    Missing,
    Unreadable,
    Invalid,
    Valid(Totals),
}

/// What to do with the totals at start. Where the file cannot be read, zero is
/// not known to be the true count, so nothing is written over it.
pub fn load_totals(file: &TotalsFile) -> (r: TotalsLoad)
    ensures
        match *file {
            TotalsFile::Missing => r == TotalsLoad::Use(
                Totals { dictations: 0, words: 0, chars: 0 },
            ),
            TotalsFile::Unreadable => r is SessionOnly,
            TotalsFile::Invalid => r is Recover,
            TotalsFile::Valid(t) => r == TotalsLoad::Use(t),
        },
{
    match file {
        TotalsFile::Missing => TotalsLoad::Use(Totals::default()),
        TotalsFile::Unreadable => TotalsLoad::SessionOnly,
        TotalsFile::Invalid => TotalsLoad::Recover,
        TotalsFile::Valid(t) => TotalsLoad::Use(*t),
    }
}

/// How one dictation went.
#[derive(Debug, PartialEq, Eq)]
pub struct DictationTrace {
    pub raw_text: String,
    pub raw_text_truncated: bool,
    pub final_text: String,
    pub filler_removed: u32,
    pub writing_edits: u32,
    pub result: String,
}

/// One dictation of the session.
#[derive(Debug, PartialEq, Eq)]
pub struct HistoryEntry {
    pub secs: u64,
    pub text: String,
    /// What was recognized before it was cleaned, where that is kept.
    pub recognition: Option<String>,
}

/// What an entry says.
pub struct EntryView {
    pub secs: u64,
    pub text: Seq<char>,
    pub recognition: Option<Seq<char>>,
}

impl View for HistoryEntry {
    type V = EntryView;

    open spec fn view(&self) -> EntryView {
        EntryView {
            secs: self.secs,
            text: self.text@,
            recognition: crate::reminder::optional_text(self.recognition),
        }
    }
}

/// The recognition that an entry keeps of a dictation: none that was cut short.
pub open spec fn kept_recognition(trace: DictationTrace) -> Option<Seq<char>> {
    if trace.raw_text_truncated {
        None
    } else {
        Some(trace.raw_text@)
    }
}

impl HistoryEntry {
    /// A dictation at that time.
    pub fn new(secs: u64, text: String) -> (r: Self)
        ensures
            r@ == (EntryView { secs, text: text@, recognition: None }),
    {
        HistoryEntry { secs, text, recognition: None }
    }

    /// The entry with what was recognized before it was cleaned.
    pub fn with_trace(self, trace: &DictationTrace) -> (r: Self)
        ensures
            r@ == (EntryView { recognition: kept_recognition(*trace), ..self@ }),
    {
        let recognition = if trace.raw_text_truncated {
            None
        } else {
            Some(trace.raw_text.clone())
        };
        HistoryEntry { secs: self.secs, text: self.text, recognition }
    }
}

/// The session's dictations, the latest first.
#[derive(Debug)]
pub struct History {
    entries: Vec<HistoryEntry>,
}

impl View for History {
    type V = Seq<EntryView>;

    closed spec fn view(&self) -> Seq<EntryView> {
        self.entries@.map_values(|e: HistoryEntry| e@)
    }
}

/// The history with one more dictation in front; the oldest makes room.
pub open spec fn with_latest(h: Seq<EntryView>, e: EntryView) -> Seq<EntryView> {
    let all = seq![e] + h;
    if all.len() > HISTORY_LIMIT {
        all.take(HISTORY_LIMIT as int)
    } else {
        all
    }
}

/// The history after the original words of a cleaned dictation have been kept
/// for review: with the entry of that dictation, and never with that of another.
/// A dictation of which nothing was left gets an empty entry of its own.
pub open spec fn reviewed(h: Seq<EntryView>, trace: DictationTrace, secs: u64) -> Seq<EntryView> {
    if (trace.filler_removed == 0 && trace.writing_edits == 0) || trace.raw_text_truncated {
        h
    } else if trace.final_text@.len() == 0 && trace.result@ == "delivery_completed"@ {
        with_latest(
            h,
            EntryView { secs, text: Seq::empty(), recognition: kept_recognition(trace) },
        )
    } else if h.len() > 0 && trace.final_text@.len() > 0 && h[0].text == trace.final_text@ {
        h.update(0, EntryView { recognition: kept_recognition(trace), ..h[0] })
    } else {
        h
    }
}

impl History {
    /// A session without dictations.
    pub fn new() -> (r: Self)
        ensures
            r@ == Seq::<EntryView>::empty(),
    {
        let r = History { entries: Vec::new() };
        assert(r@ =~= Seq::<EntryView>::empty());
        r
    }

    /// How many dictations the history holds.
    pub fn len(&self) -> (r: usize)
        ensures
            r == self@.len(),
    {
        self.entries.len()
    }

    /// One dictation, counted from the latest.
    pub fn get(&self, i: usize) -> (r: Option<&HistoryEntry>)
        ensures
            r is Some <==> i < self@.len(),
            r is Some ==> r->0@ == self@[i as int],
    {
        if i < self.entries.len() {
            Some(&self.entries[i])
        } else {
            None
        }
    }

    /// Puts a dictation in front; the history keeps the latest fifty.
    pub fn push(&mut self, entry: HistoryEntry)
        ensures
            final(self)@ == with_latest(old(self)@, entry@),
            old(self)@.len() <= HISTORY_LIMIT ==> final(self)@.len() <= HISTORY_LIMIT,
    {
        let ghost before = self@;
        self.entries.insert(0, entry);
        assert(self@ =~= seq![entry@] + before);
        if self.entries.len() > HISTORY_LIMIT {
            self.entries.truncate(HISTORY_LIMIT);
            assert(self@ =~= (seq![entry@] + before).take(HISTORY_LIMIT as int));
        }
    }

    /// Keeps the original words of a cleaned dictation for review.
    pub fn publish_filler_review(&mut self, trace: &DictationTrace, secs: u64)
        ensures
            final(self)@ == reviewed(old(self)@, *trace, secs),
    {
        if (trace.filler_removed == 0 && trace.writing_edits == 0) || trace.raw_text_truncated {
            return;
        }
        if trace.final_text.as_str().is_empty() && same(&trace.result, "delivery_completed") {
            let e = HistoryEntry::new(secs, String::new()).with_trace(trace);
            self.push(e);
            return;
        }
        if self.entries.len() > 0 && !trace.final_text.as_str().is_empty() && same(
            &self.entries[0].text,
            &trace.final_text,
        ) {
            let first = HistoryEntry::new(self.entries[0].secs, self.entries[0].text.clone());
            let e = first.with_trace(trace);
            let ghost before = self@;
            assert(before[0] == self.entries@[0]@);
            self.entries.set(0, e);
            assert(self@ =~= before.update(0, e@));
        }
    }
}

/// However many dictations there are, the history keeps the latest fifty.
pub proof fn history_is_bounded(h: Seq<EntryView>, e: EntryView)
    ensures
        with_latest(h, e).len() <= HISTORY_LIMIT,
        with_latest(h, e)[0] == e,
        forall|i: int|
            0 < i < with_latest(h, e).len() ==> #[trigger] with_latest(h, e)[i] == h[i - 1],
{
}

proof fn words_of_prefix(s: Seq<char>, t: Seq<char>, n: int)
    requires
        n <= s.len(),
        n <= t.len(),
        forall|i: int| 0 <= i < n ==> s[i] == t[i],
    ensures
        words_in(s, n) == words_in(t, n),
    decreases n,
{
    if n > 0 {
        words_of_prefix(s, t, n - 1);
    }
}

proof fn words_behind(a: Seq<char>, w: char, b: Seq<char>, n: int)
    requires
        white(w),
        0 <= n <= b.len(),
    ensures
        words_in(a + seq![w] + b, a.len() + 1 + n) == words_in(a, a.len() as int) + words_in(b, n),
    decreases n,
{
    let s = a + seq![w] + b;
    let k = a.len() as int;
    if n > 0 {
        words_behind(a, w, b, n - 1);
        assert(s[k + n] == b[n - 1]);
        if n > 1 {
            assert(s[k + n - 1] == b[n - 2]);
        } else {
            assert(s[k] == w);
        }
    } else {
        assert(s[k] == w);
        assert(words_in(s, k + 1) == words_in(s, k));
        words_of_prefix(s, a, k);
    }
}

proof fn words_of_blank(s: Seq<char>, n: int)
    requires
        n <= s.len(),
        forall|i: int| 0 <= i < s.len() ==> white(#[trigger] s[i]),
    ensures
        words_in(s, n) == 0,
    decreases n,
{
    if n > 0 {
        words_of_blank(s, n - 1);
        assert(white(s[n - 1]));
    }
}

proof fn words_of_one(s: Seq<char>, n: int)
    requires
        0 < n <= s.len(),
        forall|i: int| 0 <= i < s.len() ==> !white(#[trigger] s[i]),
    ensures
        words_in(s, n) == 1,
    decreases n,
{
    assert(!white(s[n - 1]));
    if n > 1 {
        words_of_one(s, n - 1);
        assert(!white(s[n - 2]));
    } else {
        assert(words_in(s, 0) == 0);
    }
}

/// Words are what white space sets apart: a text without any is one word, white space
/// alone is none, and two texts with white space between them have the words of both.
pub proof fn words_are_set_apart_by_white_space(a: Seq<char>, w: char, b: Seq<char>)
    requires
        white(w),
    ensures
        words_in(a + seq![w] + b, (a.len() + 1 + b.len()) as int) == words_in(a, a.len() as int)
            + words_in(b, b.len() as int),
        a.len() > 0 && (forall|i: int| 0 <= i < a.len() ==> !white(#[trigger] a[i])) ==> words_in(
            a,
            a.len() as int,
        ) == 1,
        (forall|i: int| 0 <= i < a.len() ==> white(#[trigger] a[i])) ==> words_in(
            a,
            a.len() as int,
        ) == 0,
{
    words_behind(a, w, b, b.len() as int);
    if a.len() > 0 && (forall|i: int| 0 <= i < a.len() ==> !white(#[trigger] a[i])) {
        words_of_one(a, a.len() as int);
    }
    if forall|i: int| 0 <= i < a.len() ==> white(#[trigger] a[i]) {
        words_of_blank(a, a.len() as int);
    }
}

/// The totals add up: each dictation adds one, its words and its characters, in
/// whatever order they come, and no total ever falls.
pub proof fn totals_add_up(t: Totals, a: Seq<char>, b: Seq<char>)
    ensures
        counted(counted(t, a), b) == counted(counted(t, b), a),
        t.dictations <= counted(t, a).dictations,
        t.words <= counted(t, a).words,
        t.chars <= counted(t, a).chars,
        t.dictations < u64::MAX ==> counted(t, a).dictations == t.dictations + 1,
        t.chars + a.len() <= u64::MAX ==> counted(t, a).chars == t.chars + a.len(),
        t.words + words_in(a, a.len() as int) <= u64::MAX ==> counted(t, a).words == t.words
            + words_in(a, a.len() as int),
{
}

/// A review touches the newest entry alone: it keeps what was recognised beside the
/// text that was cleaned, or, where nothing was left of it, sets an entry without
/// text before all others. It never changes a text, and a trace without edits, or
/// one that was cut, changes nothing.
pub proof fn a_review_keeps_every_text(h: Seq<EntryView>, trace: DictationTrace, secs: u64)
    requires
        h.len() <= HISTORY_LIMIT,
    ensures
        ({
            let after = reviewed(h, trace, secs);
            let edited = trace.filler_removed > 0 || trace.writing_edits > 0;
            &&& !edited || trace.raw_text_truncated ==> after == h
            &&& after.len() <= HISTORY_LIMIT
            &&& trace.final_text@.len() > 0 ==> after.len() == h.len() && forall|i: int|
                0 <= i < h.len() ==> (#[trigger] after[i]).text == h[i].text && after[i].secs
                    == h[i].secs && (i > 0 ==> after[i] == h[i])
            &&& trace.final_text@.len() > 0 && edited && !trace.raw_text_truncated && h.len() > 0
                && h[0].text == trace.final_text@ ==> after[0].recognition == Some(
                trace.raw_text@,
            )
            &&& trace.final_text@.len() > 0 && h.len() > 0 && h[0].text != trace.final_text@
                ==> after == h
            &&& trace.final_text@.len() == 0 && trace.result@ != "delivery_completed"@ ==> after
                == h
            &&& trace.final_text@.len() == 0 && edited && !trace.raw_text_truncated
                && trace.result@ == "delivery_completed"@ ==> {
                &&& after.len() > 0
                &&& after[0] == (EntryView {
                    secs,
                    text: Seq::empty(),
                    recognition: Some(trace.raw_text@),
                })
                &&& forall|i: int| 0 < i < after.len() ==> #[trigger] after[i] == h[i - 1]
                &&& after.len() == HISTORY_LIMIT || after.len() == h.len() + 1
            }
        }),
{
}

/// The history grows by one with each entry until it holds fifty, and then loses the
/// oldest.
pub proof fn the_oldest_entry_makes_room(h: Seq<EntryView>, e: EntryView)
    ensures
        h.len() < 50 ==> with_latest(h, e).len() == h.len() + 1,
        h.len() >= 50 ==> with_latest(h, e).len() == 50,
        forall|i: int|
            0 <= i < h.len() && i < 49 ==> with_latest(h, e)[i + 1] == #[trigger] h[i],
{
}

} // verus!
