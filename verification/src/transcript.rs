//! Transcripts of meetings: the segments, the removal of an echo that both live
//! tracks recorded, and the texts and samples around them.

use crate::sorting::{
    in_order, ordered, ordered_stays, place_in, place_in_range, sorting_keeps_everything,
};
use crate::text::{chars_of, is_alphanumeric, same_chars, unicode_alphanumeric};
use vstd::prelude::*;

verus! {

/// With how many of the latest segments a segment is compared.
pub const MAX_RECENT_COMPARISONS: usize = 32;

/// Texts that are longer than this are not compared.
pub const MAX_COMPARE_CHARACTERS: usize = 512;

/// Where audio comes from.
#[derive(Debug, Clone, Copy, PartialEq, Eq, Structural)]
pub enum AudioSource {
    Microphone,
    System,
    Imported,
}

/// One utterance of a meeting.
#[derive(Debug, PartialEq, Eq)]
pub struct TranscriptSegment {
    pub id: u64,
    pub start_ms: u64,
    pub end_ms: u64,
    pub speaker_id: String,
    pub source: AudioSource,
    pub text: String,
}

/// What an utterance says.
pub struct SegmentView {
    pub id: u64,
    pub start_ms: u64,
    pub end_ms: u64,
    pub speaker_id: Seq<char>,
    pub source: AudioSource,
    pub text: Seq<char>,
}

impl View for TranscriptSegment {
    type V = SegmentView;

    open spec fn view(&self) -> SegmentView {
        SegmentView {
            id: self.id,
            start_ms: self.start_ms,
            end_ms: self.end_ms,
            speaker_id: self.speaker_id@,
            source: self.source,
            text: self.text@,
        }
    }
}

impl Clone for TranscriptSegment {
    fn clone(&self) -> (r: Self)
        ensures
            r@ == self@,
    {
        TranscriptSegment {
            id: self.id,
            start_ms: self.start_ms,
            end_ms: self.end_ms,
            speaker_id: self.speaker_id.clone(),
            source: self.source,
            text: self.text.clone(),
        }
    }
}

/// What a list of utterances says.
pub open spec fn segments_view(s: Seq<TranscriptSegment>) -> Seq<SegmentView> {
    s.map_values(|x: TranscriptSegment| x@)
}

/// The result of `char::to_lowercase`, the lower-case form of one character.
pub uninterp spec fn unicode_lower_chars(c: char) -> Seq<char>;

/// `char::to_lowercase`: the characters are a function of the character alone.
#[verifier::external_body]
fn lower_chars(c: char) -> (r: Vec<char>)
    ensures
        r@ == unicode_lower_chars(c),
{
    c.to_lowercase().collect()
}

/// A mark that carries meaning beside a number.
pub open spec fn number_sign(c: char) -> bool {
    c == '+' || c == '-' || c == '−' || c == '%' || c == '$' || c == '€' || c == '¥'
}

/// A mark that carries meaning between two digits.
pub open spec fn number_mark(c: char) -> bool {
    c == '.' || c == ',' || c == ':' || c == '/'
}

/// An ASCII digit.
pub open spec fn digit(c: char) -> bool {
    '0' <= c <= '9'
}

/// The character at `i` counts when texts are compared.
pub open spec fn significant(s: Seq<char>, i: int) -> bool {
    ||| unicode_alphanumeric(s[i])
    ||| number_sign(s[i])
    ||| number_mark(s[i]) && 0 < i < s.len() - 1 && digit(s[i - 1]) && digit(s[i + 1])
}

/// What the first `n` characters come to when texts are compared.
pub open spec fn compared(s: Seq<char>, n: int) -> Seq<char>
    decreases n,
{
    if n <= 0 {
        Seq::empty()
    } else if significant(s, n - 1) {
        compared(s, n - 1) + unicode_lower_chars(s[n - 1])
    } else {
        compared(s, n - 1)
    }
}

/// The two texts say the same: exactly, but for case and marks without meaning.
/// Texts that are very short or very long say nothing.
pub open spec fn alike_texts(a: Seq<char>, b: Seq<char>) -> bool {
    let left = compared(a, a.len() as int);
    let right = compared(b, b.len() as int);
    4 <= left.len() <= MAX_COMPARE_CHARACTERS && left == right
}

/// How long the two utterances are at the same time.
pub open spec fn overlap(a: SegmentView, b: SegmentView) -> int {
    let end = if a.end_ms < b.end_ms {
        a.end_ms
    } else {
        b.end_ms
    };
    let start = if a.start_ms > b.start_ms {
        a.start_ms
    } else {
        b.start_ms
    };
    if end > start {
        end - start
    } else {
        0
    }
}

/// How long an utterance is.
pub open spec fn length(a: SegmentView) -> int {
    if a.end_ms > a.start_ms {
        a.end_ms - a.start_ms
    } else {
        0
    }
}

/// The length of the shorter utterance.
pub open spec fn shorter(a: SegmentView, b: SegmentView) -> int {
    if length(a) < length(b) {
        length(a)
    } else {
        length(b)
    }
}

/// The two utterances are one that both live tracks recorded: at the same time
/// for at least half of the shorter one, and with the same words.
pub open spec fn echo(a: SegmentView, b: SegmentView) -> bool {
    &&& (a.source == AudioSource::Microphone && b.source == AudioSource::System) || (a.source
        == AudioSource::System && b.source == AudioSource::Microphone)
    &&& shorter(a, b) > 0
    &&& 2 * overlap(a, b) >= shorter(a, b)
    &&& alike_texts(a.text, b.text)
}

/// What a text comes to when texts are compared.
fn compare_form(text: &str) -> (r: Vec<char>)
    ensures
        r@ == compared(text@, text@.len() as int),
{
    let s = chars_of(text);
    let n: usize = s.len();
    let mut r: Vec<char> = Vec::new();
    let mut i: usize = 0;
    while i < n
        invariant
            i <= n,
            n == s@.len(),
            s@ == text@,
            r@ == compared(s@, i as int),
        decreases n - i,
    {
        let c = s[i];
        let counts = is_alphanumeric(c) || c == '+' || c == '-' || c == '−' || c == '%' || c == '$'
            || c == '€' || c == '¥' || ((c == '.' || c == ',' || c == ':' || c == '/') && 0 < i
            && n - i > 1 && '0' <= s[i - 1] && s[i - 1] <= '9' && '0' <= s[i + 1] && s[i + 1]
            <= '9');
        assert(counts == significant(s@, i as int));
        if counts {
            let mut lower = lower_chars(c);
            r.append(&mut lower);
        }
        i += 1;
    }
    r
}

/// Do the two texts say the same? Only exact repetitions do: a correction or
/// another number is never taken for one.
pub fn similar_transcript(left: &str, right: &str) -> (r: bool)
    ensures
        r == alike_texts(left@, right@),
{
    let a = compare_form(left);
    let b = compare_form(right);
    if a.len() < 4 || a.len() > MAX_COMPARE_CHARACTERS {
        return false;
    }
    same_chars(&a, &b)
}

/// Are the two utterances one that both live tracks recorded?
pub fn cross_track_duplicate(left: &TranscriptSegment, right: &TranscriptSegment) -> (r: bool)
    ensures
        r == echo(left@, right@),
{
    let live_pair = (left.source == AudioSource::Microphone && right.source == AudioSource::System)
        || (left.source == AudioSource::System && right.source == AudioSource::Microphone);
    if !live_pair {
        return false;
    }
    let end: u64 = if left.end_ms < right.end_ms {
        left.end_ms
    } else {
        right.end_ms
    };
    let start: u64 = if left.start_ms > right.start_ms {
        left.start_ms
    } else {
        right.start_ms
    };
    let together: u64 = end.saturating_sub(start);
    let a: u64 = left.end_ms.saturating_sub(left.start_ms);
    let b: u64 = right.end_ms.saturating_sub(right.start_ms);
    let short: u64 = if a < b {
        a
    } else {
        b
    };
    short > 0 && 2 * (together as u128) >= short as u128 && similar_transcript(
        &left.text,
        &right.text,
    )
}

/// The order of utterances: by their beginning, then by their number.
pub open spec fn not_after(a: SegmentView, b: SegmentView) -> bool {
    a.start_ms < b.start_ms || (a.start_ms == b.start_ms && a.id <= b.id)
}

/// The order of utterances, as `sorting` takes it.
pub open spec fn chronological() -> spec_fn(SegmentView, SegmentView) -> bool {
    |a: SegmentView, b: SegmentView| not_after(a, b)
}

/// The utterances in their order; equals keep theirs.
pub open spec fn sorted(s: Seq<SegmentView>) -> Seq<SegmentView> {
    in_order(s, chronological(), s.len() as int)
}

/// The latest of the utterances from `low` to below `j` that `x` is an echo of,
/// or a negative number.
pub open spec fn latest_echo(kept: Seq<SegmentView>, x: SegmentView, j: int, low: int) -> int
    decreases j,
{
    if j <= low || j <= 0 {
        -1
    } else if echo(kept[j - 1], x) {
        j - 1
    } else {
        latest_echo(kept, x, j - 1, low)
    }
}

/// The first of the utterances that a further one is compared with.
pub open spec fn window_start(n: nat) -> int {
    if n > MAX_RECENT_COMPARISONS {
        n - MAX_RECENT_COMPARISONS
    } else {
        0
    }
}

/// The kept utterances after one more: an echo is left out, and where both tracks
/// hold an utterance the system track's stays.
pub open spec fn taken_in(kept: Seq<SegmentView>, x: SegmentView) -> Seq<SegmentView> {
    let k = latest_echo(kept, x, kept.len() as int, window_start(kept.len()));
    if k < 0 {
        kept.push(x)
    } else if x.source == AudioSource::System && kept[k].source == AudioSource::Microphone {
        kept.update(k, x)
    } else {
        kept
    }
}

/// What is kept of the first `n` utterances.
pub open spec fn kept_of(s: Seq<SegmentView>, n: int) -> Seq<SegmentView>
    decreases n,
{
    if n <= 0 {
        Seq::empty()
    } else {
        taken_in(kept_of(s, n - 1), s[n - 1])
    }
}

/// The utterances without those that the other live track holds too.
pub open spec fn deduplicated(s: Seq<SegmentView>) -> Seq<SegmentView> {
    sorted(kept_of(sorted(s), s.len() as int))
}

proof fn latest_echo_found(kept: Seq<SegmentView>, x: SegmentView, j: int, low: int)
    requires
        0 <= j <= kept.len(),
        0 <= low,
    ensures
        latest_echo(kept, x, j, low) < j || latest_echo(kept, x, j, low) == -1,
        latest_echo(kept, x, j, low) >= -1,
        latest_echo(kept, x, j, low) >= 0 ==> echo(kept[latest_echo(kept, x, j, low)], x),
    decreases j,
{
    if j > low && j > 0 && !echo(kept[j - 1], x) {
        latest_echo_found(kept, x, j - 1, low);
    }
}

/// `x` is held by `y`: it is `y`, or the microphone's echo of what `y` has from
/// the system track.
pub open spec fn held_by(x: SegmentView, y: SegmentView) -> bool {
    x == y || (x.source == AudioSource::Microphone && y.source == AudioSource::System && echo(x, y))
}

/// `x` is held by one of the utterances.
pub open spec fn held(x: SegmentView, s: Seq<SegmentView>) -> bool {
    exists|j: int| 0 <= j < s.len() && held_by(x, #[trigger] s[j])
}

proof fn kept_holds(s: Seq<SegmentView>, n: int)
    requires
        0 <= n <= s.len(),
    ensures
        kept_of(s, n).len() <= n,
        forall|i: int| 0 <= i < n ==> held(#[trigger] s[i], kept_of(s, n)),
        forall|j: int|
            0 <= j < kept_of(s, n).len() ==> s.take(n).contains(#[trigger] kept_of(s, n)[j]),
    decreases n,
{
    if n > 0 {
        kept_holds(s, n - 1);
        let kept = kept_of(s, n - 1);
        let x = s[n - 1];
        let after = kept_of(s, n);
        let k = latest_echo(kept, x, kept.len() as int, window_start(kept.len()));
        latest_echo_found(kept, x, kept.len() as int, window_start(kept.len()));
        assert forall|i: int| 0 <= i < n implies held(#[trigger] s[i], after) by {
            if i < n - 1 {
                assert(held(s[i], kept));
                let j = choose|j: int| 0 <= j < kept.len() && held_by(s[i], #[trigger] kept[j]);
                if k == j && after != kept {
                    assert(held_by(s[i], after[k]));
                } else {
                    assert(held_by(s[i], after[j]));
                }
            } else if k < 0 {
                assert(held_by(x, after[kept.len() as int]));
            } else {
                assert(held_by(x, after[k]));
            }
        }
        assert forall|j: int| 0 <= j < after.len() implies s.take(n).contains(
            #[trigger] after[j],
        ) by {
            if after[j] == x {
                assert(s.take(n)[n - 1] == x);
            } else {
                assert(after[j] == kept[j]);
                assert(s.take(n - 1).contains(kept[j]));
                let part = s.take(n - 1);
                let i = choose|i: int| 0 <= i < part.len() && part[i] == kept[j];
                assert(s.take(n)[i] == kept[j]);
            }
        }
    }
}

/// Removing echoes loses nothing else: what comes out is in order and was put in;
/// every utterance that was put in comes out, but for one of the microphone that
/// an utterance of the system track repeats, which comes out in its place.
pub proof fn only_echoes_are_lost(s: Seq<SegmentView>)
    ensures
        ordered(deduplicated(s), chronological()),
        deduplicated(s).len() <= s.len(),
        forall|i: int| 0 <= i < s.len() ==> held(#[trigger] s[i], deduplicated(s)),
        forall|j: int|
            0 <= j < deduplicated(s).len() ==> s.contains(#[trigger] deduplicated(s)[j]),
{
    broadcast use vstd::seq_lib::group_to_multiset_ensures;

    let line = sorted(s);
    sorting_keeps_everything(s, chronological(), s.len() as int);
    let kept = kept_of(line, line.len() as int);
    let out = sorted(kept);
    kept_holds(line, line.len() as int);
    sorting_keeps_everything(kept, chronological(), kept.len() as int);
    assert(s.take(s.len() as int) =~= s);
    assert(kept.take(kept.len() as int) =~= kept);
    assert(line.take(line.len() as int) =~= line);
    assert forall|i: int| 0 <= i < s.len() implies held(#[trigger] s[i], out) by {
        assert(s.contains(s[i]));
        assert(line.to_multiset().count(s[i]) > 0);
        assert(line.contains(s[i]));
        let a = choose|a: int| 0 <= a < line.len() && line[a] == s[i];
        assert(held(line[a], kept));
        let j = choose|j: int| 0 <= j < kept.len() && held_by(s[i], #[trigger] kept[j]);
        assert(kept.contains(kept[j]));
        assert(out.to_multiset().count(kept[j]) > 0);
        assert(out.contains(kept[j]));
        let b = choose|b: int| 0 <= b < out.len() && out[b] == kept[j];
        assert(held_by(s[i], out[b]));
    }
    assert forall|j: int| 0 <= j < out.len() implies s.contains(#[trigger] out[j]) by {
        assert(out.contains(out[j]));
        assert(kept.to_multiset().count(out[j]) > 0);
        assert(kept.contains(out[j]));
        let a = choose|a: int| 0 <= a < kept.len() && kept[a] == out[j];
        assert(line.contains(kept[a]));
        assert(s.to_multiset().count(out[j]) > 0);
    }
}

proof fn kept_whole(s: Seq<SegmentView>, n: int)
    requires
        0 <= n <= s.len(),
        forall|i: int, j: int|
            0 <= i < s.len() && 0 <= j < s.len() ==> !echo(#[trigger] s[i], #[trigger] s[j]),
    ensures
        kept_of(s, n) == s.take(n),
    decreases n,
{
    if n > 0 {
        kept_whole(s, n - 1);
        let kept = s.take(n - 1);
        latest_echo_found(kept, s[n - 1], n - 1, window_start(kept.len()));
        let k = latest_echo(kept, s[n - 1], n - 1, window_start(kept.len()));
        if k >= 0 {
            assert(!echo(s[k], s[n - 1]));
        }
        assert(kept.push(s[n - 1]) =~= s.take(n));
    } else {
        assert(s.take(0) =~= Seq::<SegmentView>::empty());
    }
}

/// Where no utterance is an echo of another, as within one track, all of them
/// stay, in their order: repetition is no echo.
pub proof fn repetition_is_preserved(s: Seq<SegmentView>)
    requires
        forall|i: int, j: int|
            0 <= i < s.len() && 0 <= j < s.len() ==> !echo(#[trigger] s[i], #[trigger] s[j]),
    ensures
        deduplicated(s) == sorted(s),
{
    broadcast use vstd::seq_lib::group_to_multiset_ensures;

    let line = sorted(s);
    sorting_keeps_everything(s, chronological(), s.len() as int);
    assert(s.take(s.len() as int) =~= s);
    assert forall|i: int, j: int| 0 <= i < line.len() && 0 <= j < line.len() implies !echo(
        #[trigger] line[i],
        #[trigger] line[j],
    ) by {
        assert(line.contains(line[i]) && line.contains(line[j]));
        assert(s.to_multiset().count(line[i]) > 0 && s.to_multiset().count(line[j]) > 0);
        assert(s.contains(line[i]) && s.contains(line[j]));
        let a = choose|a: int| 0 <= a < s.len() && s[a] == line[i];
        let b = choose|b: int| 0 <= b < s.len() && s[b] == line[j];
        assert(!echo(s[a], s[b]));
    }
    kept_whole(line, line.len() as int);
    assert(line.take(line.len() as int) =~= line);
    ordered_stays(line, chronological(), line.len() as int);
}

/// Sorting moves the utterances, and no more.
proof fn sorting_moves(s: Seq<SegmentView>)
    ensures
        sorted(s).len() == s.len(),
        ordered(sorted(s), chronological()),
        forall|x: SegmentView| sorted(s).contains(x) <==> #[trigger] s.contains(x),
        s.no_duplicates() ==> sorted(s).no_duplicates(),
{
    broadcast use vstd::seq_lib::group_to_multiset_ensures;

    let line = sorted(s);
    sorting_keeps_everything(s, chronological(), s.len() as int);
    assert(s.take(s.len() as int) =~= s);
    assert forall|x: SegmentView| line.contains(x) <==> #[trigger] s.contains(x) by {
        assert(line.contains(x) <==> line.to_multiset().count(x) > 0);
        assert(s.contains(x) <==> s.to_multiset().count(x) > 0);
    }
    if s.no_duplicates() {
        s.lemma_multiset_has_no_duplicates();
        line.lemma_multiset_has_no_duplicates_conv();
    }
}

proof fn echo_is_mutual(a: SegmentView, b: SegmentView)
    ensures
        echo(a, b) == echo(b, a),
{
}

/// Some utterance from the other live track is an echo of `x`.
pub open spec fn repeated(x: SegmentView, s: Seq<SegmentView>) -> bool {
    exists|j: int| 0 <= j < s.len() && echo(x, #[trigger] s[j])
}

/// No utterance is an echo of two.
pub open spec fn in_pairs(s: Seq<SegmentView>) -> bool {
    forall|i: int, j: int, k: int|
        0 <= i < s.len() && 0 <= j < s.len() && 0 <= k < s.len() && #[trigger] echo(s[i], s[k])
            && #[trigger] echo(s[j], s[k]) ==> s[i] == s[j]
}

/// In a list in order, echoes stand at most so far apart as utterances are compared.
pub open spec fn near(line: Seq<SegmentView>) -> bool {
    forall|i: int, j: int|
        0 <= i < j < line.len() && #[trigger] echo(line[i], line[j]) ==> j - i <= 32
}

/// `x` is kept, and not too far back to be found when the utterance at `n` comes.
spec fn within_reach(kept: Seq<SegmentView>, x: SegmentView, far: int) -> bool {
    exists|p: int| 0 <= p < kept.len() && #[trigger] kept[p] == x && kept.len() - p <= far
}

proof fn latest_echo_is_found(kept: Seq<SegmentView>, x: SegmentView, j: int, low: int, p: int)
    requires
        0 <= low <= p < j <= kept.len(),
        echo(kept[p], x),
    ensures
        p <= latest_echo(kept, x, j, low) < j,
        echo(kept[latest_echo(kept, x, j, low)], x),
    decreases j,
{
    if !echo(kept[j - 1], x) {
        latest_echo_is_found(kept, x, j - 1, low, p);
    }
}

/// The microphone's half of a pair.
spec fn mere_echo(x: SegmentView, s: Seq<SegmentView>) -> bool {
    x.source == AudioSource::Microphone && repeated(x, s)
}

proof fn pairs_are_kept_once(line: Seq<SegmentView>, n: int)
    requires
        0 <= n <= line.len(),
        line.no_duplicates(),
        in_pairs(line),
        near(line),
    ensures
        kept_of(line, n).no_duplicates(),
        forall|a: int|
            0 <= a < n ==> (kept_of(line, n).contains(#[trigger] line[a]) <==> !mere_echo(
                line[a],
                line.take(n),
            )),
        forall|a: int|
            0 <= a < n && !repeated(#[trigger] line[a], line.take(n)) ==> within_reach(
                kept_of(line, n),
                line[a],
                n - a,
            ),
    decreases n,
{
    if n > 0 {
        pairs_are_kept_once(line, n - 1);
        kept_holds(line, n - 1);
        let kept = kept_of(line, n - 1);
        let after = kept_of(line, n);
        let x = line[n - 1];
        let few = line.take(n - 1);
        let more = line.take(n);
        let low = window_start(kept.len());
        let k = latest_echo(kept, x, kept.len() as int, low);
        latest_echo_found(kept, x, kept.len() as int, low);
        assert forall|y: SegmentView| #[trigger] repeated(y, more) <==> repeated(y, few) || echo(
            y,
            x,
        ) by {
            if repeated(y, few) {
                let j = choose|j: int| 0 <= j < few.len() && echo(y, #[trigger] few[j]);
                assert(echo(y, more[j]));
            }
            if echo(y, x) {
                assert(echo(y, more[n - 1]));
            }
            if repeated(y, more) {
                let j = choose|j: int| 0 <= j < more.len() && echo(y, #[trigger] more[j]);
                if j < n - 1 {
                    assert(echo(y, few[j]));
                }
            }
        }
        assert(!kept.contains(x)) by {
            if kept.contains(x) {
                let p = choose|p: int| 0 <= p < kept.len() && kept[p] == x;
                assert(few.contains(kept[p]));
                let i = choose|i: int| 0 <= i < few.len() && few[i] == x;
                assert(line[i] == line[n - 1]);
            }
        }
        assert(!echo(x, x));
        if repeated(x, few) {
            let a = choose|a: int| 0 <= a < few.len() && echo(x, #[trigger] few[a]);
            let y = line[a];
            assert(few[a] == y);
            echo_is_mutual(x, y);
            assert(n - 1 - a <= 32);
            // Nothing before `x` is an echo of its partner.
            assert(!repeated(y, few)) by {
                if repeated(y, few) {
                    let b = choose|b: int| 0 <= b < few.len() && echo(y, #[trigger] few[b]);
                    echo_is_mutual(y, line[b]);
                    assert(echo(line[b], line[a]) && echo(line[n - 1], line[a]));
                    assert(line[b] == line[n - 1]);
                }
            }
            assert(within_reach(kept, y, n - 1 - a));
            let p = choose|p: int|
                0 <= p < kept.len() && #[trigger] kept[p] == y && kept.len() - p <= n - 1 - a;
            latest_echo_is_found(kept, x, kept.len() as int, low, p);
            assert(kept[k] == y) by {
                assert(few.contains(kept[k]));
                let i = choose|i: int| 0 <= i < few.len() && few[i] == kept[k];
                assert(echo(line[i], line[n - 1]) && echo(line[a], line[n - 1]));
            }
            assert forall|b: int| 0 <= b < n - 1 && b != a implies !echo(#[trigger] line[b], x) by {
                if echo(line[b], x) {
                    assert(echo(line[b], line[n - 1]) && echo(line[a], line[n - 1]));
                    assert(line[b] == line[a]);
                }
            }
            assert forall|b: int| 0 <= b < n implies (after.contains(#[trigger] line[b])
                <==> !mere_echo(line[b], more)) by {
                if b < n - 1 {
                    assert(kept.contains(line[b]) <==> !mere_echo(line[b], few));
                    assert(line[b] != x);
                    if x.source == AudioSource::System {
                        assert(after == kept.update(k, x));
                        if kept.contains(line[b]) && b != a {
                            let q = choose|q: int| 0 <= q < kept.len() && kept[q] == line[b];
                            assert(line[b] != line[a]);
                            assert(after[q] == line[b]);
                        }
                        if after.contains(line[b]) {
                            let q = choose|q: int| 0 <= q < after.len() && after[q] == line[b];
                            assert(q != k);
                            assert(kept[q] == line[b]);
                            assert(kept.contains(line[b]));
                        }
                    } else {
                        assert(after == kept);
                    }
                } else {
                    if x.source == AudioSource::System {
                        assert(after[k] == x);
                    }
                }
            }
            assert forall|b: int|
                0 <= b < n && !repeated(#[trigger] line[b], more) implies within_reach(
                after,
                line[b],
                n - b,
            ) by {
                assert(b < n - 1 && b != a);
                assert(within_reach(kept, line[b], n - 1 - b));
                let q = choose|q: int|
                    0 <= q < kept.len() && #[trigger] kept[q] == line[b] && kept.len() - q <= n - 1
                        - b;
                assert(line[b] != line[a]);
                assert(after[q] == line[b]);
            }
        } else {
            if k >= 0 {
                assert(few.contains(kept[k]));
                let i = choose|i: int| 0 <= i < few.len() && few[i] == kept[k];
                echo_is_mutual(few[i], x);
                assert(false);
            }
            assert(after == kept.push(x));
            assert(after[kept.len() as int] == x);
            assert forall|b: int| 0 <= b < n - 1 implies !echo(#[trigger] line[b], x) by {
                echo_is_mutual(line[b], x);
                assert(few[b] == line[b]);
            }
            assert forall|b: int| 0 <= b < n implies (after.contains(#[trigger] line[b])
                <==> !mere_echo(line[b], more)) by {
                if b < n - 1 {
                    assert(kept.contains(line[b]) <==> !mere_echo(line[b], few));
                    assert(line[b] != x);
                    if kept.contains(line[b]) {
                        let q = choose|q: int| 0 <= q < kept.len() && kept[q] == line[b];
                        assert(after[q] == line[b]);
                    }
                    if after.contains(line[b]) {
                        let q = choose|q: int| 0 <= q < after.len() && after[q] == line[b];
                        assert(kept[q] == line[b]);
                    }
                }
            }
            assert forall|b: int|
                0 <= b < n && !repeated(#[trigger] line[b], more) implies within_reach(
                after,
                line[b],
                n - b,
            ) by {
                if b < n - 1 {
                    assert(within_reach(kept, line[b], n - 1 - b));
                    let q = choose|q: int|
                        0 <= q < kept.len() && #[trigger] kept[q] == line[b] && kept.len() - q <= n
                            - 1 - b;
                    assert(after[q] == line[b]);
                }
            }
        }
    }
}

/// Of an utterance that both live tracks recorded, the system track's stays and the
/// microphone's goes, whichever began first; every other utterance stays. So what
/// comes out is fixed, and no two utterances in it are echoes. (Utterances that are
/// echoes of two, and echoes with more than thirty-two utterances from the one to
/// the other, are left aside here.)
pub proof fn each_echo_is_removed(s: Seq<SegmentView>)
    requires
        s.no_duplicates(),
        in_pairs(s),
        near(sorted(s)),
    ensures
        forall|x: SegmentView| #[trigger]
            deduplicated(s).contains(x) <==> s.contains(x) && !(x.source == AudioSource::Microphone
                && repeated(x, s)),
        deduplicated(s).no_duplicates(),
        forall|i: int, j: int|
            0 <= i < deduplicated(s).len() && 0 <= j < deduplicated(s).len() ==> !echo(
                #[trigger] deduplicated(s)[i],
                #[trigger] deduplicated(s)[j],
            ),
        forall|i: int, j: int|
            0 <= i < j < deduplicated(s).len() ==> {
                let a = #[trigger] deduplicated(s)[i];
                let b = #[trigger] deduplicated(s)[j];
                a.start_ms < b.start_ms || (a.start_ms == b.start_ms && a.id <= b.id)
            },
{
    let line = sorted(s);
    let n = line.len() as int;
    sorting_moves(s);
    let kept = kept_of(line, n);
    let out = sorted(kept);
    sorting_moves(kept);
    assert(line.take(n) =~= line);
    assert forall|i: int, j: int, k: int|
        0 <= i < line.len() && 0 <= j < line.len() && 0 <= k < line.len() && #[trigger] echo(
            line[i],
            line[k],
        ) && #[trigger] echo(line[j], line[k]) implies line[i] == line[j] by {
        assert(line.contains(line[i]) && line.contains(line[j]) && line.contains(line[k]));
        assert(s.contains(line[i]) && s.contains(line[j]) && s.contains(line[k]));
        let a = choose|a: int| 0 <= a < s.len() && s[a] == line[i];
        let b = choose|b: int| 0 <= b < s.len() && s[b] == line[j];
        let c = choose|c: int| 0 <= c < s.len() && s[c] == line[k];
        assert(echo(s[a], s[c]) && echo(s[b], s[c]));
    }
    pairs_are_kept_once(line, n);
    kept_holds(line, n);
    assert forall|x: SegmentView| #[trigger] repeated(x, s) <==> repeated(x, line) by {
        if repeated(x, s) {
            let j = choose|j: int| 0 <= j < s.len() && echo(x, #[trigger] s[j]);
            assert(s.contains(s[j]));
            let i = choose|i: int| 0 <= i < line.len() && line[i] == s[j];
            assert(echo(x, line[i]));
        }
        if repeated(x, line) {
            let j = choose|j: int| 0 <= j < line.len() && echo(x, #[trigger] line[j]);
            assert(line.contains(line[j]));
            assert(s.contains(line[j]));
            let i = choose|i: int| 0 <= i < s.len() && s[i] == line[j];
            assert(echo(x, s[i]));
        }
    }
    assert forall|x: SegmentView| #[trigger]
        deduplicated(s).contains(x) <==> s.contains(x) && !(x.source == AudioSource::Microphone
            && repeated(x, s)) by {
        assert(out.contains(x) <==> kept.contains(x));
        if kept.contains(x) {
            let p = choose|p: int| 0 <= p < kept.len() && kept[p] == x;
            assert(line.take(n).contains(kept[p]));
            assert(line.contains(x));
        }
        if s.contains(x) {
            assert(line.contains(x));
            let a = choose|a: int| 0 <= a < line.len() && line[a] == x;
            assert(kept.contains(line[a]) <==> !mere_echo(line[a], line.take(n)));
        }
    }
    assert forall|i: int, j: int| 0 <= i < out.len() && 0 <= j < out.len() implies !echo(
        #[trigger] deduplicated(s)[i],
        #[trigger] deduplicated(s)[j],
    ) by {
        let a = out[i];
        let b = out[j];
        if echo(a, b) {
            echo_is_mutual(a, b);
            assert(deduplicated(s).contains(a) && deduplicated(s).contains(b));
            let p = choose|p: int| 0 <= p < s.len() && s[p] == a;
            let q = choose|q: int| 0 <= q < s.len() && s[q] == b;
            assert(echo(a, s[q]) && echo(b, s[p]));
            assert(repeated(a, s) && repeated(b, s));
        }
    }
}

/// Of two utterances that are echoes of each other only the system track's comes out,
/// in whatever order they are given and whichever began first.
pub proof fn one_of_two_echoes_is_removed(mic: SegmentView, system: SegmentView)
    requires
        mic.source == AudioSource::Microphone,
        system.source == AudioSource::System,
        echo(mic, system),
    ensures
        deduplicated(seq![mic, system]) == seq![system],
        deduplicated(seq![system, mic]) == seq![system],
{
    assert(deduplicated(seq![mic, system]) == seq![system]) by {
        only_the_system_track_is_left(seq![mic, system], mic, system);
    }
    assert(deduplicated(seq![system, mic]) == seq![system]) by {
        only_the_system_track_is_left(seq![system, mic], mic, system);
    }
}

proof fn only_the_system_track_is_left(
    s: Seq<SegmentView>,
    mic: SegmentView,
    system: SegmentView,
)
    requires
        mic.source == AudioSource::Microphone,
        system.source == AudioSource::System,
        echo(mic, system),
        s == seq![mic, system] || s == seq![system, mic],
    ensures
        deduplicated(s) == seq![system],
{
    let out = deduplicated(s);
    sorting_moves(s);
    assert(s.contains(s[0]) && s.contains(s[1]));
    each_echo_is_removed(s);
    echo_is_mutual(mic, system);
    assert(repeated(mic, s)) by {
        assert(echo(mic, s[0]) || echo(mic, s[1]));
    }
    assert(!out.contains(mic));
    assert(out.contains(system));
    assert forall|i: int| 0 <= i < out.len() implies out[i] == system by {
        assert(out.contains(out[i]));
    }
    assert(out.len() == 1) by {
        if out.len() > 1 {
            assert(out[0] == out[1]);
        }
    }
    assert(out =~= seq![system]);
}

/// The utterance begins earlier, or has the smaller number of two that begin at once.
pub open spec fn earlier(a: SegmentView, b: SegmentView) -> bool {
    a.start_ms < b.start_ms || (a.start_ms == b.start_ms && a.id < b.id)
}

proof fn all_in_view(line: Seq<SegmentView>, n: int)
    requires
        0 <= n <= line.len() <= 33,
        line.no_duplicates(),
        ordered(line, chronological()),
    ensures
        kept_of(line, n).no_duplicates(),
        forall|a: int|
            0 <= a < n && (#[trigger] line[a]).source != AudioSource::Microphone ==> kept_of(
                line,
                n,
            ).contains(line[a]),
        forall|p: int, q: int|
            0 <= p < q < kept_of(line, n).len() && (#[trigger] kept_of(line, n)[p]).source
                == AudioSource::Microphone && (#[trigger] kept_of(line, n)[q]).source
                == AudioSource::Microphone ==> not_after(kept_of(line, n)[p], kept_of(line, n)[q]),
    decreases n,
{
    if n > 0 {
        all_in_view(line, n - 1);
        kept_holds(line, n - 1);
        let kept = kept_of(line, n - 1);
        let after = kept_of(line, n);
        let x = line[n - 1];
        let few = line.take(n - 1);
        let k = latest_echo(kept, x, kept.len() as int, window_start(kept.len()));
        latest_echo_found(kept, x, kept.len() as int, window_start(kept.len()));
        assert forall|p: int| 0 <= p < kept.len() implies #[trigger] kept[p] != x && not_after(
            kept[p],
            x,
        ) by {
            assert(few.contains(kept[p]));
            let i = choose|i: int| 0 <= i < few.len() && few[i] == kept[p];
            assert(line[i] != line[n - 1]);
            assert(chronological()(line[i], line[n - 1]));
        }
        assert forall|a: int|
            0 <= a < n && (#[trigger] line[a]).source
                != AudioSource::Microphone implies after.contains(line[a]) by {
            if a < n - 1 {
                assert(kept.contains(line[a]));
                let q = choose|q: int| 0 <= q < kept.len() && kept[q] == line[a];
                assert(after[q] == line[a]);
            } else if k < 0 {
                assert(after[kept.len() as int] == x);
            } else {
                assert(after[k] == x);
            }
        }
        assert forall|p: int, q: int|
            0 <= p < q < after.len() && (#[trigger] after[p]).source == AudioSource::Microphone && (
            #[trigger] after[q]).source == AudioSource::Microphone implies not_after(
            after[p],
            after[q],
        ) by {
            if k < 0 && q == kept.len() {
                assert(after[p] == kept[p]);
            } else {
                assert(after[p] == kept[p] && after[q] == kept[q]);
            }
        }
    }
}

/// What was left out or replaced does not come back.
proof fn gone_for_good(line: Seq<SegmentView>, n: int, m: int, a: int)
    requires
        0 <= a < n <= m <= line.len(),
        line.no_duplicates(),
        !kept_of(line, n).contains(line[a]),
    ensures
        !kept_of(line, m).contains(line[a]),
    decreases m - n,
{
    if n < m {
        let kept = kept_of(line, n);
        let after = kept_of(line, n + 1);
        assert(line[n] != line[a]);
        latest_echo_found(kept, line[n], kept.len() as int, window_start(kept.len()));
        if after.contains(line[a]) {
            let q = choose|q: int| 0 <= q < after.len() && after[q] == line[a];
            assert(q < kept.len() && kept[q] == line[a]);
        }
        gone_for_good(line, n + 1, m, a);
    }
}

/// A list of at most thirty-three utterances is compared as a whole. An utterance of
/// the microphone is then gone where one of the system track that it is an echo of
/// began before it, and also where one began after it, unless a later echo of the
/// microphone came between the two and went in its place.
pub proof fn the_nearest_echo_is_removed(
    s: Seq<SegmentView>,
    mic: SegmentView,
    system: SegmentView,
)
    requires
        s.no_duplicates(),
        s.len() <= 33,
        s.contains(mic) && s.contains(system),
        mic.source == AudioSource::Microphone,
        system.source == AudioSource::System,
        echo(mic, system),
        earlier(system, mic) || (earlier(mic, system) && forall|i: int|
            0 <= i < s.len() && (#[trigger] s[i]).source == AudioSource::Microphone && echo(
                s[i],
                system,
            ) && not_after(s[i], system) && s[i] != mic ==> earlier(s[i], mic)),
    ensures
        !deduplicated(s).contains(mic),
        deduplicated(s).contains(system),
{
    let line = sorted(s);
    let n = line.len() as int;
    sorting_moves(s);
    let kept = kept_of(line, n);
    sorting_moves(kept);
    all_in_view(line, n);
    echo_is_mutual(mic, system);
    assert(line.contains(mic) && line.contains(system));
    let a = choose|a: int| 0 <= a < line.len() && line[a] == mic;
    let b = choose|b: int| 0 <= b < line.len() && line[b] == system;
    assert(kept.contains(line[b]));
    if earlier(system, mic) {
        assert(b < a) by {
            if a < b {
                assert(chronological()(line[a], line[b]));
            }
        }
        let then_kept = kept_of(line, a);
        all_in_view(line, a);
        kept_holds(line, a);
        assert(then_kept.contains(line[b]));
        let p = choose|p: int| 0 <= p < then_kept.len() && then_kept[p] == line[b];
        latest_echo_is_found(then_kept, mic, then_kept.len() as int, window_start(then_kept.len()), p);
        not_yet(line, a);
        assert(kept_of(line, a + 1) == then_kept);
        gone_for_good(line, a + 1, n, a);
    } else {
        assert(a < b) by {
            if b < a {
                assert(chronological()(line[b], line[a]));
            }
        }
        let then_kept = kept_of(line, b);
        all_in_view(line, b);
        kept_holds(line, b);
        if then_kept.contains(mic) {
            let p = choose|p: int| 0 <= p < then_kept.len() && then_kept[p] == mic;
            let low = window_start(then_kept.len());
            latest_echo_is_found(then_kept, system, then_kept.len() as int, low, p);
            let k = latest_echo(then_kept, system, then_kept.len() as int, low);
            if k != p {
                let z = then_kept[k];
                assert(line.take(b).contains(z));
                let i = choose|i: int| 0 <= i < line.take(b).len() && line.take(b)[i] == z;
                assert(line.contains(line[i]));
                assert(s.contains(z));
                let j = choose|j: int| 0 <= j < s.len() && s[j] == z;
                assert(chronological()(line[i], line[b]));
                assert(z != mic);
                assert(earlier(s[j], mic));
                assert(not_after(then_kept[p], then_kept[k]));
                assert(false);
            }
            let after = kept_of(line, b + 1);
            assert(after == then_kept.update(k, system));
            if after.contains(mic) {
                let q = choose|q: int| 0 <= q < after.len() && after[q] == mic;
                assert(q != k);
                assert(then_kept[q] == then_kept[p]);
            }
            gone_for_good(line, b + 1, n, a);
        } else {
            gone_for_good(line, b, n, a);
        }
    }
}

/// An utterance is not kept before it comes.
proof fn not_yet(line: Seq<SegmentView>, n: int)
    requires
        0 <= n < line.len(),
        line.no_duplicates(),
    ensures
        !kept_of(line, n).contains(line[n]),
{
    kept_holds(line, n);
    let kept = kept_of(line, n);
    if kept.contains(line[n]) {
        let p = choose|p: int| 0 <= p < kept.len() && kept[p] == line[n];
        assert(line.take(n).contains(kept[p]));
        let i = choose|i: int| 0 <= i < line.take(n).len() && line.take(n)[i] == kept[p];
        assert(line[i] == line[n]);
    }
}

/// The same words on both live tracks, equally long and the one so much later than
/// the other, are an echo exactly where they share half of their time.
pub proof fn half_of_the_time_makes_an_echo(a: SegmentView, b: SegmentView)
    requires
        a.source == AudioSource::Microphone,
        b.source == AudioSource::System,
        alike_texts(a.text, b.text),
        a.start_ms < a.end_ms,
        a.start_ms <= b.start_ms,
        b.end_ms - b.start_ms == a.end_ms - a.start_ms,
    ensures
        echo(a, b) <==> 2 * (b.start_ms - a.start_ms) <= a.end_ms - a.start_ms,
        echo(b, a) == echo(a, b),
{
}

/// The same words on both live tracks are an echo where the one lies within the
/// other, however short it is, and none where the two share no time, where they come
/// from one track, or where one of them is imported.
pub proof fn time_and_tracks_of_an_echo(a: SegmentView, b: SegmentView)
    requires
        alike_texts(a.text, b.text),
        a.start_ms < a.end_ms,
        b.start_ms < b.end_ms,
    ensures
        a.start_ms <= b.start_ms && b.end_ms <= a.end_ms && a.source != b.source && a.source
            != AudioSource::Imported && b.source != AudioSource::Imported ==> echo(a, b),
        a.end_ms <= b.start_ms || b.end_ms <= a.start_ms ==> !echo(a, b),
        a.source == b.source || a.source == AudioSource::Imported || b.source
            == AudioSource::Imported ==> !echo(a, b),
        echo(b, a) == echo(a, b),
{
}

proof fn compared_part(a: Seq<char>, b: Seq<char>, n: int)
    requires
        0 <= n <= a.len(),
        n <= b.len(),
        forall|i: int| 0 <= i < n ==> #[trigger] a[i] == b[i],
        forall|i: int| 0 <= i < n ==> #[trigger] significant(a, i) == significant(b, i),
    ensures
        compared(a, n) == compared(b, n),
    decreases n,
{
    if n > 0 {
        compared_part(a, b, n - 1);
        assert(significant(a, n - 1) == significant(b, n - 1));
    }
}

/// A mark at the end of a text, such as a full stop, does not count when texts are
/// compared; one between two digits does.
pub proof fn marks_count_only_within_numbers(a: Seq<char>, mark: char, last: char)
    requires
        !unicode_alphanumeric(mark),
        !digit(mark),
        !number_sign(mark),
    ensures
        compared(a.push(mark), a.len() as int + 1) == compared(a, a.len() as int),
        number_mark(mark) && a.len() > 0 && digit(a.last()) && digit(last)
            && unicode_alphanumeric(last) ==> compared(a.push(mark).push(last), a.len() as int + 2)
            == compared(a, a.len() as int) + unicode_lower_chars(mark) + unicode_lower_chars(last),
{
    let n = a.len() as int;
    let b = a.push(mark);
    let c = b.push(last);
    assert forall|i: int| 0 <= i < n implies #[trigger] significant(a, i)
        == significant(b, i) by {}
    compared_part(a, b, n);
    assert(!significant(b, n));
    if number_mark(mark) && n > 0 && digit(a.last()) && digit(last) && unicode_alphanumeric(last) {
        assert forall|i: int| 0 <= i < n implies #[trigger] significant(a, i)
            == significant(c, i) by {}
        compared_part(a, c, n);
        assert(significant(c, n));
        assert(significant(c, n + 1));
        assert(compared(c, n + 1) == compared(a, n) + unicode_lower_chars(mark));
    }
}

/// Texts of which every character has the same lower-case form, and counts or does not
/// count in both, say the same; whatever says the same as one of two such texts
/// says the same as the other.
pub proof fn case_does_not_count(a: Seq<char>, b: Seq<char>)
    requires
        a.len() == b.len(),
        forall|i: int|
            0 <= i < a.len() ==> unicode_lower_chars(#[trigger] a[i]) == unicode_lower_chars(b[i])
                && significant(a, i) == significant(b, i),
    ensures
        compared(a, a.len() as int) == compared(b, b.len() as int),
        forall|c: Seq<char>| #[trigger] alike_texts(a, c) == alike_texts(b, c),
{
    same_case_form(a, b, a.len() as int);
}

proof fn same_case_form(a: Seq<char>, b: Seq<char>, n: int)
    requires
        a.len() == b.len(),
        0 <= n <= a.len(),
        forall|i: int|
            0 <= i < a.len() ==> unicode_lower_chars(#[trigger] a[i]) == unicode_lower_chars(b[i])
                && significant(a, i) == significant(b, i),
    ensures
        compared(a, n) == compared(b, n),
    decreases n,
{
    if n > 0 {
        same_case_form(a, b, n - 1);
        assert(unicode_lower_chars(a[n - 1]) == unicode_lower_chars(b[n - 1]));
    }
}

/// The utterances in their order.
fn sort_segments(segments: &[TranscriptSegment]) -> (r: Vec<TranscriptSegment>)
    ensures
        segments_view(r@) == sorted(segments_view(segments@)),
{
    let n: usize = segments.len();
    let ghost leq = chronological();
    let mut r: Vec<TranscriptSegment> = Vec::new();
    let mut i: usize = 0;
    while i < n
        invariant
            i <= n,
            n == segments@.len(),
            segments_view(r@) == in_order(segments_view(segments@), leq, i as int),
            leq == chronological(),
        decreases n - i,
    {
        let x = &segments[i];
        let ghost all = segments_view(segments@);
        let ghost before = segments_view(r@);
        let mut k: usize = r.len();
        proof {
            place_in_range(before, leq, x@, k as int);
        }
        while k > 0 && !(r[k - 1].start_ms < x.start_ms || (r[k - 1].start_ms == x.start_ms && r[k
            - 1].id <= x.id))
            invariant
                k <= r@.len(),
                before == segments_view(r@),
                leq == chronological(),
                place_in(before, leq, x@, k as int) == place_in(
                    before,
                    leq,
                    x@,
                    r@.len() as int,
                ),
            decreases k,
        {
            k -= 1;
        }
        assert(k == place_in(before, leq, x@, r@.len() as int));
        r.insert(k, x.clone());
        assert(segments_view(r@) =~= before.insert(k as int, all[i as int]));
        i += 1;
    }
    r
}

/// Removes only likely acoustic echo that both live tracks recorded.
pub fn deduplicate_live_tracks(segments: &[TranscriptSegment]) -> (r: Vec<TranscriptSegment>)
    ensures
        segments_view(r@) == deduplicated(segments_view(segments@)),
{
    let line = sort_segments(segments);
    let ghost all = segments_view(line@);
    let n: usize = line.len();
    proof {
        sorting_keeps_everything(
            segments_view(segments@),
            chronological(),
            segments@.len() as int,
        );
        assert(all.len() == line@.len());
    }
    let mut kept: Vec<TranscriptSegment> = Vec::new();
    let mut i: usize = 0;
    while i < n
        invariant
            i <= n,
            n == line@.len(),
            all == segments_view(line@),
            segments_view(kept@) == kept_of(all, i as int),
        decreases n - i,
    {
        let x = &line[i];
        let m: usize = kept.len();
        let low: usize = if m > MAX_RECENT_COMPARISONS {
            m - MAX_RECENT_COMPARISONS
        } else {
            0
        };
        let ghost view = segments_view(kept@);
        let mut k: usize = m;
        while k > low && !cross_track_duplicate(&kept[k - 1], x)
            invariant
                k <= m,
                m == kept@.len(),
                view == segments_view(kept@),
                latest_echo(view, x@, k as int, low as int) == latest_echo(
                    view,
                    x@,
                    m as int,
                    low as int,
                ),
            decreases k,
        {
            k -= 1;
        }
        if k > low {
            if x.source == AudioSource::System && kept[k - 1].source == AudioSource::Microphone {
                kept.set(k - 1, x.clone());
                assert(segments_view(kept@) =~= view.update(k - 1, x@));
            }
        } else {
            kept.push(x.clone());
            assert(segments_view(kept@) =~= view.push(x@));
        }
        i += 1;
    }
    sort_segments(&kept)
}

/// What comes out is in order: by the beginning, then by the number; and each utterance
/// of the system track and each imported one comes out.
pub proof fn transcripts_come_out_in_order(s: Seq<SegmentView>)
    ensures
        forall|i: int, j: int|
            0 <= i < j < deduplicated(s).len() ==> {
                let a = #[trigger] deduplicated(s)[i];
                let b = #[trigger] deduplicated(s)[j];
                a.start_ms < b.start_ms || (a.start_ms == b.start_ms && a.id <= b.id)
            },
        forall|i: int|
            0 <= i < s.len() && (#[trigger] s[i]).source != AudioSource::Microphone
                ==> deduplicated(s).contains(s[i]),
{
    only_echoes_are_lost(s);
    let out = deduplicated(s);
    assert forall|i: int, j: int| 0 <= i < j < out.len() implies {
        let a = #[trigger] deduplicated(s)[i];
        let b = #[trigger] deduplicated(s)[j];
        a.start_ms < b.start_ms || (a.start_ms == b.start_ms && a.id <= b.id)
    } by {
        assert(chronological()(out[i], out[j]));
    }
    assert forall|i: int|
        0 <= i < s.len() && (#[trigger] s[i]).source
            != AudioSource::Microphone implies deduplicated(s).contains(s[i]) by {
        assert(held(s[i], out));
        let j = choose|j: int| 0 <= j < out.len() && held_by(s[i], #[trigger] out[j]);
        assert(out[j] == s[i]);
    }
}

/// Letters and digits count wherever they stand when texts are compared, and so do the
/// signs of numbers and money.
pub proof fn letters_and_signs_always_count(a: Seq<char>, c: char, b: Seq<char>)
    requires
        unicode_alphanumeric(c) || c == '+' || c == '-' || c == '−' || c == '%' || c == '$' || c
            == '€' || c == '¥',
    ensures
        significant(a + seq![c] + b, a.len() as int),
{
    assert((a + seq![c] + b)[a.len() as int] == c);
}

/// Texts that come to less than four characters, or to more than five hundred and
/// twelve, say nothing; of the others, a text says the same as itself, and what says
/// the same as one of two that say the same says the same as the other.
pub proof fn what_texts_say(a: Seq<char>, b: Seq<char>, c: Seq<char>)
    ensures
        compared(a, a.len() as int).len() < 4 || compared(a, a.len() as int).len() > 512
            ==> !alike_texts(a, b) && !alike_texts(b, a),
        4 <= compared(a, a.len() as int).len() <= 512 ==> alike_texts(a, a),
        alike_texts(a, b) == alike_texts(b, a),
        alike_texts(a, b) && alike_texts(b, c) ==> alike_texts(a, c),
        alike_texts(a, b) ==> compared(a, a.len() as int) == compared(b, b.len() as int),
{
}

proof fn kept_far_apart(line: Seq<SegmentView>, n: int)
    requires
        0 <= n <= line.len(),
        forall|i: int, j: int|
            0 <= i < j < line.len() && #[trigger] echo(line[i], line[j]) ==> j - i > 32,
    ensures
        kept_of(line, n) == line.take(n),
    decreases n,
{
    if n > 0 {
        kept_far_apart(line, n - 1);
        let kept = line.take(n - 1);
        let x = line[n - 1];
        let low = window_start(kept.len());
        nothing_in_the_window(kept, x, kept.len() as int, low, line);
        assert(kept.push(x) =~= line.take(n));
    } else {
        assert(line.take(0) =~= Seq::<SegmentView>::empty());
    }
}

proof fn nothing_in_the_window(
    kept: Seq<SegmentView>,
    x: SegmentView,
    j: int,
    low: int,
    line: Seq<SegmentView>,
)
    requires
        0 <= j <= kept.len(),
        low == window_start(kept.len()),
        kept.len() < line.len(),
        kept == line.take(kept.len() as int),
        x == line[kept.len() as int],
        forall|a: int, b: int|
            0 <= a < b < line.len() && #[trigger] echo(line[a], line[b]) ==> b - a > 32,
    ensures
        latest_echo(kept, x, j, low) < 0,
    decreases j,
{
    if j > low && j > 0 {
        assert(kept[j - 1] == line[j - 1]);
        assert(!echo(line[j - 1], line[kept.len() as int]));
        nothing_in_the_window(kept, x, j - 1, low, line);
    }
}

/// Echoes with more than thirty-two utterances from the one to the other are not taken
/// for echoes: where there are no others, every utterance stays.
pub proof fn distant_echoes_stay(s: Seq<SegmentView>)
    requires
        forall|i: int, j: int|
            0 <= i < j < s.len() && #[trigger] echo(sorted(s)[i], sorted(s)[j]) ==> j - i > 32,
    ensures
        deduplicated(s) == sorted(s),
{
    let line = sorted(s);
    sorting_moves(s);
    assert forall|i: int, j: int|
        0 <= i < j < line.len() && #[trigger] echo(line[i], line[j]) implies j - i > 32 by {
        assert(echo(sorted(s)[i], sorted(s)[j]));
    }
    kept_far_apart(line, line.len() as int);
    assert(line.take(line.len() as int) =~= line);
    ordered_stays(line, chronological(), line.len() as int);
}

proof fn compared_behind(a: Seq<char>, c: char, b: Seq<char>, n: int)
    requires
        !unicode_alphanumeric(c),
        !digit(c),
        !number_sign(c),
        !number_mark(c),
        0 <= n <= b.len(),
    ensures
        compared(a + seq![c] + b, a.len() + 1 + n) == compared(a, a.len() as int) + compared(b, n),
    decreases n,
{
    let s = a + seq![c] + b;
    let k = a.len() as int;
    assert(s[k] == c);
    if n > 0 {
        compared_behind(a, c, b, n - 1);
        assert(s[k + n] == b[n - 1]);
        assert(significant(s, k + n) == significant(b, n - 1)) by {
            if n > 1 {
                assert(s[k + n - 1] == b[n - 2]);
            }
            if n < b.len() {
                assert(s[k + n + 1] == b[n]);
            }
        }
        assert(compared(s, k + 1 + n) =~= compared(a, k) + compared(b, n));
    } else {
        assert(!significant(s, k));
        assert(compared(s, k + 1) == compared(s, k));
        assert forall|i: int| 0 <= i < k implies #[trigger] significant(a, i)
            == significant(s, i) by {
            assert(a[i] == s[i]);
            if i + 1 < k {
                assert(a[i + 1] == s[i + 1]);
            }
            if i > 0 {
                assert(a[i - 1] == s[i - 1]);
            }
        }
        compared_part(a, s, k);
        assert(compared(a, k) + compared(b, 0) =~= compared(a, k));
    }
}

/// Texts are compared word by word: what lies on the two sides of a space, or of any
/// other character without meaning, counts as if it stood alone, and the character
/// itself does not count.
pub proof fn texts_are_compared_word_by_word(a: Seq<char>, c: char, b: Seq<char>)
    requires
        !unicode_alphanumeric(c),
        !digit(c),
        !number_sign(c),
        !number_mark(c),
    ensures
        compared(a + seq![c] + b, a.len() as int + 1 + b.len() as int) == compared(
            a,
            a.len() as int,
        ) + compared(b, b.len() as int),
{
    compared_behind(a, c, b, b.len() as int);
}

} // verus!
