//! A live recording: which speech waits for recognition, when the recording ends,
//! and which failure it ends with. The devices, the detector and the speech engine
//! are run by the caller, who reports what they did.

use crate::record::AudioRetention;
use crate::sorting::{in_order, place_in, sorting_keeps_everything, total_order};
use crate::text::{decimal, decimal_text};
use crate::transcript::AudioSource;
use vstd::prelude::*;

verus! {

/// How much speech may wait for recognition.
pub const MAX_PENDING_SEGMENTS: usize = 32;

/// The samples of one second, after resampling.
pub const WINDOW_SAMPLES: usize = 16_000;

/// Speech that is shorter than this is not padded.
pub const MIN_PADDED_SAMPLES: usize = 3_200;

/// The samples to which short speech is padded.
pub const PADDED_SAMPLES: usize = 24_000;

/// How often a recording is saved while it runs.
pub const CHECKPOINT_MS: u64 = 5_000;

/// After how long without audio a track no longer counts as heard.
pub const TRACK_SILENCE_MS: u64 = 3_000;

/// Speech that waits for recognition.
#[derive(Debug)]
pub struct Draft<S> {
    pub source: AudioSource,
    pub start_ms: u64,
    pub end_ms: u64,
    pub samples: Vec<S>,
    pub speaker_id: String,
}

/// The order of drafts: by their beginning.
pub open spec fn by_start<S>() -> spec_fn(Draft<S>, Draft<S>) -> bool {
    |a: Draft<S>, b: Draft<S>| a.start_ms <= b.start_ms
}

/// The drafts by their beginning; those that begin together keep their order.
pub fn sort_drafts<S>(drafts: Vec<Draft<S>>) -> (r: Vec<Draft<S>>)
    ensures
        r@ == in_order(drafts@, by_start::<S>(), drafts@.len() as int),
        crate::sorting::ordered(r@, by_start::<S>()),
        r@.to_multiset() == drafts@.to_multiset(),
{
    let mut left = drafts;
    let ghost all = left@;
    let ghost leq = by_start::<S>();
    let n: usize = left.len();
    let mut r: Vec<Draft<S>> = Vec::new();
    let mut i: usize = 0;
    assert(left@ =~= all.skip(0));
    while i < n
        invariant
            i <= n,
            n == all.len(),
            leq == by_start::<S>(),
            left@ == all.skip(i as int),
            r@ == in_order(all, leq, i as int),
        decreases n - i,
    {
        let x = left.remove(0);
        assert(x == all[i as int]);
        assert(left@ =~= all.skip(i + 1));
        let mut k: usize = r.len();
        let ghost before = r@;
        while k > 0 && !(r[k - 1].start_ms <= x.start_ms)
            invariant
                k <= r@.len(),
                before == r@,
                leq == by_start::<S>(),
                place_in(before, leq, x, k as int) == place_in(before, leq, x, r@.len() as int),
            decreases k,
        {
            k -= 1;
        }
        r.insert(k, x);
        i += 1;
    }
    proof {
        assert(total_order(leq));
        sorting_keeps_everything(all, leq, n as int);
        assert(all.take(n as int) =~= all);
    }
    r
}

/// Who speaks: the microphone is the user, and elsewhere a voice has the number
/// that it was heard as.
pub open spec fn speaker_name(source: AudioSource, voice: Option<usize>) -> Seq<char> {
    if source == AudioSource::Microphone {
        "you"@
    } else {
        match voice {
            Some(index) => "speaker-"@ + decimal((index + 1) as nat),
            None => "speaker-1"@,
        }
    }
}

/// Names the speaker of a piece of speech. `voice` is the cluster that it was
/// assigned to, where it could be told.
pub fn draft_speaker(source: AudioSource, voice: Option<usize>) -> (r: String)
    ensures
        r@ == speaker_name(source, voice),
{
    if source == AudioSource::Microphone {
        return "you".to_owned();
    }
    match voice {
        Some(index) => {
            let mut r = "speaker-".to_owned();
            let number = decimal_text(index as u128 + 1);
            r.append(&number);
            r
        },
        None => "speaker-1".to_owned(),
    }
}

/// What is kept of the pieces, and how many were noise. A piece that is noise is
/// dropped before anyone is named as its speaker.
pub open spec fn permitted<T>(pieces: Seq<T>, permits: Seq<bool>, n: int) -> Seq<T>
    decreases n,
{
    if n <= 0 {
        Seq::empty()
    } else if permits[n - 1] {
        permitted(pieces, permits, n - 1).push(pieces[n - 1])
    } else {
        permitted(pieces, permits, n - 1)
    }
}

/// Keeps the pieces that the detector permits, and counts the others.
pub fn filtered_drafts<T>(pieces: Vec<T>, permits: &[bool]) -> (r: (Vec<T>, u64))
    requires
        permits@.len() == pieces@.len(),
        pieces@.len() <= u64::MAX,
    ensures
        r.0@ == permitted(pieces@, permits@, pieces@.len() as int),
        r.0@.len() + r.1 == pieces@.len(),
{
    let mut left = pieces;
    let ghost all = left@;
    let mut kept: Vec<T> = Vec::new();
    let mut dropped: u64 = 0;
    let mut i: usize = 0;
    assert(left@ =~= all.skip(0));
    while i < permits.len()
        invariant
            i <= permits@.len(),
            permits@.len() == all.len(),
            all.len() <= u64::MAX,
            left@ == all.skip(i as int),
            kept@ == permitted(all, permits@, i as int),
            kept@.len() + dropped == i,
        decreases permits@.len() - i,
    {
        let piece = left.remove(0);
        assert(piece == all[i as int]);
        assert(left@ =~= all.skip(i + 1));
        if permits[i] {
            kept.push(piece);
        } else {
            dropped += 1;
        }
        i += 1;
    }
    (kept, dropped)
}

/// Short speech gets trailing silence before it is recognised; nothing else does.
pub open spec fn padded<S>(samples: Seq<S>, silence: S) -> Seq<S> {
    if MIN_PADDED_SAMPLES <= samples.len() < WINDOW_SAMPLES {
        samples + Seq::new((PADDED_SAMPLES - samples.len()) as nat, |i: int| silence)
    } else {
        samples
    }
}

/// The samples that are handed to recognition.
pub fn meeting_asr_samples<S: Copy>(samples: Vec<S>, silence: S) -> (r: Vec<S>)
    ensures
        r@ == padded(samples@, silence),
{
    let mut r = samples;
    let n: usize = r.len();
    if MIN_PADDED_SAMPLES <= n && n < WINDOW_SAMPLES {
        while r.len() < PADDED_SAMPLES
            invariant
                n == samples@.len(),
                n <= r@.len() <= PADDED_SAMPLES,
                r@ =~= samples@ + Seq::new((r@.len() - n) as nat, |i: int| silence),
            decreases PADDED_SAMPLES - r@.len(),
        {
            r.push(silence);
        }
    }
    r
}

/// All of the windows, one after the other.
pub open spec fn joined<S>(windows: Seq<Vec<S>>) -> Seq<S>
    decreases windows.len(),
{
    if windows.len() == 0 {
        Seq::empty()
    } else {
        joined(windows.drop_last()) + windows.last()@
    }
}

/// Takes the whole seconds out of what was heard, and leaves the rest.
pub fn take_windows<S: Copy>(heard: &mut Vec<S>) -> (r: Vec<Vec<S>>)
    ensures
        joined(r@) + final(heard)@ == old(heard)@,
        final(heard)@.len() < WINDOW_SAMPLES,
        forall|i: int| 0 <= i < r@.len() ==> (#[trigger] r@[i])@.len() == WINDOW_SAMPLES,
{
    let ghost all = heard@;
    let n: usize = heard.len();
    let mut windows: Vec<Vec<S>> = Vec::new();
    let mut from: usize = 0;
    assert(joined(windows@) =~= all.take(0));
    while n - from >= WINDOW_SAMPLES
        invariant
            from <= n,
            n == heard@.len(),
            heard@ == all,
            joined(windows@) == all.take(from as int),
            forall|i: int|
                0 <= i < windows@.len() ==> (#[trigger] windows@[i])@.len() == WINDOW_SAMPLES,
        decreases n - from,
    {
        let mut window: Vec<S> = Vec::new();
        let mut k: usize = 0;
        while k < WINDOW_SAMPLES
            invariant
                k <= WINDOW_SAMPLES,
                n == heard@.len(),
                heard@ == all,
                from + WINDOW_SAMPLES <= n,
                window@ == all.subrange(from as int, from + k),
            decreases WINDOW_SAMPLES - k,
        {
            window.push(heard[from + k]);
            assert(window@ =~= all.subrange(from as int, from + k + 1));
            k += 1;
        }
        let ghost before = windows@;
        windows.push(window);
        from += WINDOW_SAMPLES;
        proof {
            assert(windows@.drop_last() =~= before);
            assert(joined(windows@) =~= all.take(from as int));
        }
    }
    let mut rest: Vec<S> = Vec::new();
    let mut i: usize = from;
    while i < n
        invariant
            from <= i <= n,
            n == heard@.len(),
            heard@ == all,
            rest@ == all.subrange(from as int, i as int),
        decreases n - i,
    {
        rest.push(heard[i]);
        assert(rest@ =~= all.subrange(from as int, i + 1));
        i += 1;
    }
    *heard = rest;
    assert(joined(windows@) + heard@ =~= all);
    windows
}

/// One second that begins with what was heard and is silent after it.
pub open spec fn second_of<S>(heard: Seq<S>, silence: S) -> Seq<S> {
    Seq::new(
        WINDOW_SAMPLES as nat,
        |i: int|
            if i < heard.len() {
                heard[i]
            } else {
                silence
            },
    )
}

/// The unfinished second, for the detector alone. There is none where nothing was
/// heard since the last whole one.
pub fn unfinished_second<S: Copy>(heard: &[S], silence: S) -> (r: Option<Vec<S>>)
    ensures
        match r {
            Some(window) => heard@.len() > 0 && window@ == second_of(heard@, silence),
            None => heard@.len() == 0,
        },
{
    if heard.len() == 0 {
        return None;
    }
    let mut window: Vec<S> = Vec::new();
    while window.len() < WINDOW_SAMPLES
        invariant
            window@.len() <= WINDOW_SAMPLES,
            window@ =~= second_of(heard@, silence).take(window@.len() as int),
        decreases WINDOW_SAMPLES - window@.len(),
    {
        let i: usize = window.len();
        if i < heard.len() {
            window.push(heard[i]);
        } else {
            window.push(silence);
        }
    }
    assert(window@ =~= second_of(heard@, silence));
    Some(window)
}

/// A track was heard lately.
pub open spec fn heard_lately(age: Option<u64>) -> bool {
    match age {
        Some(ms) => ms < TRACK_SILENCE_MS,
        None => false,
    }
}

/// Can silence be told from a track that stopped? Only with a detector, and where
/// every track was heard lately.
pub fn monitor_healthy(detector: bool, ages: &[Option<u64>]) -> (r: bool)
    ensures
        r == (detector && forall|i: int| 0 <= i < ages@.len() ==> heard_lately(#[trigger] ages@[i])),
{
    if !detector {
        return false;
    }
    let mut i: usize = 0;
    while i < ages.len()
        invariant
            i <= ages@.len(),
            forall|k: int| 0 <= k < i ==> heard_lately(#[trigger] ages@[k]),
        decreases ages@.len() - i,
    {
        let lately = match ages[i] {
            Some(ms) => ms < TRACK_SILENCE_MS,
            None => false,
        };
        if !lately {
            assert(!heard_lately(ages@[i as int]));
            return false;
        }
        i += 1;
    }
    true
}

/// Is echo to be cancelled? Only where both tracks are recorded.
pub fn cancels_echo(microphone: bool, system_audio: bool) -> (r: bool)
    ensures
        r == (microphone && system_audio),
{
    microphone && system_audio
}

/// Is a track of that source recorded?
pub open spec fn recorded(source: AudioSource, microphone: bool, system_audio: bool) -> bool {
    match source {
        AudioSource::Microphone => microphone,
        AudioSource::System => system_audio,
        AudioSource::Imported => false,
    }
}

/// Refuses audio of a source that is not recorded.
pub fn check_track(
    source: AudioSource,
    microphone: bool,
    system_audio: bool,
    processed: bool,
) -> (r: Result<(), &'static str>)
    ensures
        match r {
            Ok(_) => recorded(source, microphone, system_audio),
            Err(e) => !recorded(source, microphone, system_audio) && e@ == (if processed {
                "processed audio targeted a disabled meeting track"@
            } else {
                "audio arrived for a disabled meeting track"@
            }),
        },
{
    let known = match source {
        AudioSource::Microphone => microphone,
        AudioSource::System => system_audio,
        AudioSource::Imported => false,
    };
    if known {
        Ok(())
    } else if processed {
        Err("processed audio targeted a disabled meeting track")
    } else {
        Err("audio arrived for a disabled meeting track")
    }
}

/// What is said where echo can no longer be cancelled.
pub fn echo_warning(problem: &str, finishing: bool) -> (r: String)
    ensures
        r@ == (if finishing {
            "Echo cancellation fell back to raw microphone audio while finishing: "@ + problem@
                + "."@
        } else {
            "Echo cancellation fell back to raw microphone audio: "@ + problem@
                + ". Use headphones to reduce duplicate voices."@
        }),
{
    if finishing {
        let mut r =
            "Echo cancellation fell back to raw microphone audio while finishing: ".to_owned();
        r.append(problem);
        r.append(".");
        r
    } else {
        let mut r = "Echo cancellation fell back to raw microphone audio: ".to_owned();
        r.append(problem);
        r.append(". Use headphones to reduce duplicate voices.");
        r
    }
}

/// What is said where there is no detector.
pub fn missing_detector_warning(imported: bool) -> (r: &'static str)
    ensures
        r@ == (if imported {
            "Local speech detection is unavailable; imported audio was passed to recognition without acoustic filtering."@
        } else {
            "Local speech detection is unavailable. Recognition is preserved; silence auto-end is disabled for safety."@
        }),
{
    if imported {
        "Local speech detection is unavailable; imported audio was passed to recognition without acoustic filtering."
    } else {
        "Local speech detection is unavailable. Recognition is preserved; silence auto-end is disabled for safety."
    }
}

/// What becomes of the audio.
pub fn retention(keep_audio: bool) -> (r: AudioRetention)
    ensures
        r == (if keep_audio {
            AudioRetention::KeepUntilDeleted
        } else {
            AudioRetention::DeleteAfterTranscription
        }),
{
    if keep_audio {
        AudioRetention::KeepUntilDeleted
    } else {
        AudioRetention::DeleteAfterTranscription
    }
}

/// Which samples of a block go into the tracks.
#[derive(Debug, Clone, Copy, PartialEq, Eq, Structural)]
pub struct TrackRoute {
    /// The block itself goes into the track of its source.
    pub raw: bool,
    /// What echo cancellation made of the microphone goes into its track.
    pub processed: bool,
}

/// Which samples of a block go into the tracks. Where echo is cancelled, the
/// microphone's own samples never do; the system's always do, unchanged.
pub fn track_route(source: AudioSource, cancels_echo: bool, processed_samples: usize) -> (r:
    TrackRoute)
    ensures
        r == (TrackRoute {
            raw: !cancels_echo || source == AudioSource::System,
            processed: cancels_echo && processed_samples > 0,
        }),
{
    TrackRoute {
        raw: !cancels_echo || source == AudioSource::System,
        processed: cancels_echo && processed_samples > 0,
    }
}

/// Has a word begun in an unfinished second? Without a detector it may have. Each
/// entry says what the detector made of one track's unfinished second.
pub fn pending_speech(detector: bool, speech: &[bool]) -> (r: bool)
    ensures
        r == (!detector || speech@.contains(true)),
{
    if !detector {
        return true;
    }
    let mut i: usize = 0;
    while i < speech.len()
        invariant
            i <= speech@.len(),
            forall|k: int| 0 <= k < i ==> !#[trigger] speech@[k],
        decreases speech@.len() - i,
    {
        if speech[i] {
            assert(speech@[i as int] == true);
            return true;
        }
        i += 1;
    }
    false
}

/// What is permitted of two lists in one is what is permitted of each: a piece is kept
/// exactly where it is permitted, and the order stays.
pub proof fn pieces_are_kept_where_permitted<T>(
    a: Seq<T>,
    permits_a: Seq<bool>,
    x: T,
    permit: bool,
    b: Seq<T>,
    permits_b: Seq<bool>,
)
    requires
        a.len() == permits_a.len(),
        b.len() == permits_b.len(),
    ensures
        permitted(
            a + seq![x] + b,
            permits_a + seq![permit] + permits_b,
            (a.len() + 1 + b.len()) as int,
        ) == permitted(a, permits_a, a.len() as int) + (if permit {
            seq![x]
        } else {
            Seq::empty()
        }) + permitted(b, permits_b, b.len() as int),
{
    permitted_behind(a, permits_a, x, permit, b, permits_b, b.len() as int);
}

proof fn permitted_prefix<T>(
    a: Seq<T>,
    permits_a: Seq<bool>,
    b: Seq<T>,
    permits_b: Seq<bool>,
    n: int,
)
    requires
        n <= a.len() == permits_a.len(),
        n <= b.len() == permits_b.len(),
        forall|i: int| 0 <= i < n ==> #[trigger] a[i] == b[i] && permits_a[i] == permits_b[i],
    ensures
        permitted(a, permits_a, n) == permitted(b, permits_b, n),
    decreases n,
{
    if n > 0 {
        permitted_prefix(a, permits_a, b, permits_b, n - 1);
        assert(a[n - 1] == b[n - 1]);
    }
}

proof fn permitted_behind<T>(
    a: Seq<T>,
    permits_a: Seq<bool>,
    x: T,
    permit: bool,
    b: Seq<T>,
    permits_b: Seq<bool>,
    n: int,
)
    requires
        a.len() == permits_a.len(),
        b.len() == permits_b.len(),
        0 <= n <= b.len(),
    ensures
        permitted(
            a + seq![x] + b,
            permits_a + seq![permit] + permits_b,
            (a.len() + 1 + n) as int,
        ) == permitted(a, permits_a, a.len() as int) + (if permit {
            seq![x]
        } else {
            Seq::empty()
        }) + permitted(b, permits_b, n),
    decreases n,
{
    let all = a + seq![x] + b;
    let permits = permits_a + seq![permit] + permits_b;
    let k = a.len() as int;
    let head = permitted(a, permits_a, k) + (if permit {
        seq![x]
    } else {
        Seq::empty()
    });
    if n > 0 {
        permitted_behind(a, permits_a, x, permit, b, permits_b, n - 1);
        assert(all[k + n] == b[n - 1]);
        assert(permits[k + n] == permits_b[n - 1]);
        assert(permitted(all, permits, k + 1 + n) =~= head + permitted(b, permits_b, n));
    } else {
        assert(all[k] == x);
        assert(permits[k] == permit);
        permitted_prefix(all, permits, a, permits_a, k);
        assert(permitted(all, permits, k + 1) =~= head + permitted(b, permits_b, 0));
    }
}

/// What goes to recognition begins with what was heard. A piece from a fifth of a
/// second to below one second is filled up with silence to a second and a half; every
/// other one is left as it is.
pub proof fn short_speech_is_filled_up<S>(samples: Seq<S>, silence: S)
    ensures
        padded(samples, silence).len() >= samples.len(),
        padded(samples, silence).take(samples.len() as int) == samples,
        3_200 <= samples.len() < 16_000 ==> padded(samples, silence).len() == 24_000,
        samples.len() < 3_200 || samples.len() >= 16_000 ==> padded(samples, silence) == samples,
        forall|i: int|
            samples.len() <= i < padded(samples, silence).len() ==> #[trigger] padded(
                samples,
                silence,
            )[i] == silence,
{
    assert(padded(samples, silence).take(samples.len() as int) =~= samples);
}

/// Two voices have two names, and the microphone has its own.
pub proof fn voices_are_told_apart(a: usize, b: usize, source: AudioSource)
    requires
        source != AudioSource::Microphone,
    ensures
        speaker_name(source, Some(a)) == speaker_name(source, Some(b)) ==> a == b,
        speaker_name(source, Some(a)) != speaker_name(AudioSource::Microphone, Some(b)),
        speaker_name(source, None) == speaker_name(source, Some(0)),
        crate::text::begins(speaker_name(source, Some(a)), "speaker-"@),
{
    reveal_strlit("speaker-");
    reveal_strlit("speaker-1");
    reveal_strlit("you");
    let x = decimal((a + 1) as nat);
    let y = decimal((b + 1) as nat);
    crate::text::numbers_read_back((a + 1) as nat);
    crate::text::numbers_read_back((b + 1) as nat);
    let p = "speaker-"@;
    assert((p + x).skip(p.len() as int) =~= x);
    assert((p + y).skip(p.len() as int) =~= y);
    assert((p + x)[0] == p[0]);
    assert("you"@[0] != p[0]);
    assert((p + x).subrange(0, p.len() as int) =~= p);
    assert(decimal(1) =~= seq!['1']);
    assert(p + decimal(1) =~= "speaker-1"@);
}

/// Speech is taken up by its beginning: no piece comes before one that began earlier,
/// and each comes as often as it was there.
pub proof fn speech_is_taken_up_by_its_beginning<S>(drafts: Seq<Draft<S>>)
    ensures
        ({
            let line = in_order(drafts, by_start::<S>(), drafts.len() as int);
            &&& line.len() == drafts.len()
            &&& forall|i: int, j: int|
                0 <= i <= j < line.len() ==> (#[trigger] line[i]).start_ms <= (
                #[trigger] line[j]).start_ms
            &&& forall|x: Draft<S>|
                line.to_multiset().count(x) == #[trigger] drafts.to_multiset().count(x)
        }),
{
    assert(total_order(by_start::<S>()));
    sorting_keeps_everything(drafts, by_start::<S>(), drafts.len() as int);
    assert(drafts.take(drafts.len() as int) =~= drafts);
    let line = in_order(drafts, by_start::<S>(), drafts.len() as int);
    assert forall|i: int, j: int| 0 <= i <= j < line.len() implies (#[trigger] line[i]).start_ms
        <= (#[trigger] line[j]).start_ms by {
        assert(by_start::<S>()(line[i], line[j]));
    }
}

/// What was heard of an unfinished second is its beginning, and silence fills it up.
pub proof fn an_unfinished_second_is_filled_up<S>(heard: Seq<S>, silence: S, i: int)
    requires
        heard.len() <= 16_000,
    ensures
        second_of(heard, silence).len() == 16_000,
        second_of(heard, silence).take(heard.len() as int) == heard,
        heard.len() <= i < 16_000 ==> second_of(heard, silence)[i] == silence,
{
    assert(second_of(heard, silence).take(heard.len() as int) =~= heard);
}

} // verus!
