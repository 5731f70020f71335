//! The record of a meeting: who speaks, what was said, which moments were marked,
//! and how the meeting ended. Every change is a step of its own, so that a caller
//! can save the record between two of them.

use crate::reminder::optional_text;
use crate::seqs::{filter_ends, filter_step, first_where};
use crate::text::{
    begins, byte_len, decimal, decimal_text, listed, same, starts_with, texts,
    trim, trimmed, truncate_utf8, truncated,
};
use crate::transcript::{
    deduplicate_live_tracks, deduplicated, only_echoes_are_lost, segments_view, AudioSource,
    SegmentView, TranscriptSegment,
};
use vstd::prelude::*;
use vstd::utf8::encode_utf8;

verus! {

/// The most bytes that a bookmark's label takes.
pub const MAX_BOOKMARK_BYTES: usize = 256;

/// The most bytes that a speaker's name takes.
pub const MAX_SPEAKER_BYTES: usize = 128;

/// Where a meeting stands.
#[derive(Debug, Clone, Copy, PartialEq, Eq, Structural)]
pub enum MeetingStatus {
    Recording,
    Processing,
    Completed,
    Interrupted,
    Failed,
}

/// What becomes of a meeting's audio.
#[derive(Debug, Clone, Copy, PartialEq, Eq, Structural)]
pub enum AudioRetention {
    KeepUntilDeleted,
    DeleteAfterTranscription,
}

/// One participant.
#[derive(Debug, PartialEq, Eq)]
pub struct Speaker {
    pub id: String,
    pub label: String,
    pub source: AudioSource,
}

/// What a participant is called.
#[verifier::ext_equal]
pub struct SpeakerView {
    pub id: Seq<char>,
    pub label: Seq<char>,
    pub source: AudioSource,
}

impl View for Speaker {
    type V = SpeakerView;

    open spec fn view(&self) -> SpeakerView {
        SpeakerView { id: self.id@, label: self.label@, source: self.source }
    }
}

/// One marked moment.
#[derive(Debug, PartialEq, Eq)]
pub struct Bookmark {
    pub at_ms: u64,
    pub label: String,
}

/// What a marked moment says.
#[verifier::ext_equal]
pub struct BookmarkView {
    pub at_ms: u64,
    pub label: Seq<char>,
}

impl View for Bookmark {
    type V = BookmarkView;

    open spec fn view(&self) -> BookmarkView {
        BookmarkView { at_ms: self.at_ms, label: self.label@ }
    }
}

/// The record of a meeting.
#[derive(Debug, PartialEq, Eq)]
pub struct Meeting {
    pub id: String,
    pub title: String,
    pub updated_at_ms: u64,
    pub started_at_ms: u64,
    pub ended_at_ms: Option<u64>,
    pub duration_ms: u64,
    pub status: MeetingStatus,
    pub audio_retention: AudioRetention,
    pub speakers: Vec<Speaker>,
    pub bookmarks: Vec<Bookmark>,
    pub segments: Vec<TranscriptSegment>,
    pub segment_count: usize,
    pub error: Option<String>,
    pub warnings: Vec<String>,
    pub end_reason: Option<String>,
    pub filtered_noise_segments: u64,
}

/// What the record says.
#[verifier::ext_equal]
pub struct MeetingView {
    pub id: Seq<char>,
    pub title: Seq<char>,
    pub updated_at_ms: u64,
    pub started_at_ms: u64,
    pub ended_at_ms: Option<u64>,
    pub duration_ms: u64,
    pub status: MeetingStatus,
    pub audio_retention: AudioRetention,
    pub speakers: Seq<SpeakerView>,
    pub bookmarks: Seq<BookmarkView>,
    pub segments: Seq<SegmentView>,
    pub segment_count: usize,
    pub error: Option<Seq<char>>,
    pub warnings: Seq<Seq<char>>,
    pub end_reason: Option<Seq<char>>,
    pub filtered_noise_segments: u64,
}

/// What the participants are called.
pub open spec fn speakers_view(s: Seq<Speaker>) -> Seq<SpeakerView> {
    s.map_values(|x: Speaker| x@)
}

/// What the marked moments say.
pub open spec fn bookmarks_view(s: Seq<Bookmark>) -> Seq<BookmarkView> {
    s.map_values(|x: Bookmark| x@)
}

impl View for Meeting {
    type V = MeetingView;

    open spec fn view(&self) -> MeetingView {
        MeetingView {
            id: self.id@,
            title: self.title@,
            updated_at_ms: self.updated_at_ms,
            started_at_ms: self.started_at_ms,
            ended_at_ms: self.ended_at_ms,
            duration_ms: self.duration_ms,
            status: self.status,
            audio_retention: self.audio_retention,
            speakers: speakers_view(self.speakers@),
            bookmarks: bookmarks_view(self.bookmarks@),
            segments: segments_view(self.segments@),
            segment_count: self.segment_count,
            error: optional_text(self.error),
            warnings: texts(self.warnings@),
            end_reason: optional_text(self.end_reason),
            filtered_noise_segments: self.filtered_noise_segments,
        }
    }
}

/// One participant has that identifier.
pub open spec fn speaker_known(speakers: Seq<SpeakerView>, id: Seq<char>) -> bool {
    speaker_at(speakers, id) < speakers.len()
}

/// The first participant with that identifier, or how many there are.
pub open spec fn speaker_at(speakers: Seq<SpeakerView>, id: Seq<char>) -> int {
    first_where(speakers, |s: SpeakerView| s.id == id, 0)
}

/// The participants whom the transcript numbers.
pub open spec fn numbered(speakers: Seq<SpeakerView>) -> Seq<SpeakerView> {
    speakers.filter(|s: SpeakerView| begins(s.id, "speaker-"@))
}

/// What a new participant is called.
pub open spec fn first_label(speakers: Seq<SpeakerView>, id: Seq<char>) -> Seq<char> {
    if id == "you"@ {
        "You"@
    } else {
        "Speaker "@ + decimal(numbered(speakers).len() + 1)
    }
}

/// The record once the participant is in it.
pub open spec fn introduced(
    m: MeetingView,
    id: Seq<char>,
    source: AudioSource,
    now: u64,
) -> MeetingView {
    if speaker_known(m.speakers, id) {
        m
    } else {
        MeetingView {
            speakers: m.speakers.push(
                SpeakerView { id, label: first_label(m.speakers, id), source },
            ),
            updated_at_ms: now,
            ..m
        }
    }
}

/// The number of the next utterance.
pub open spec fn next_id(m: MeetingView) -> int {
    if m.segments.len() == 0 {
        1
    } else {
        m.segments.last().id + 1
    }
}

/// The record once the utterance is in it.
pub open spec fn appended(m: MeetingView, segment: SegmentView, now: u64) -> MeetingView {
    MeetingView {
        segments: m.segments.push(segment),
        segment_count: (m.segments.len() + 1) as usize,
        duration_ms: if m.duration_ms < segment.end_ms {
            segment.end_ms
        } else {
            m.duration_ms
        },
        updated_at_ms: now,
        ..m
    }
}

/// Every utterance names a participant who is in the record.
pub open spec fn speakers_named(m: MeetingView) -> bool {
    forall|i: int|
        0 <= i < m.segments.len() ==> speaker_known(
            m.speakers,
            (#[trigger] m.segments[i]).speaker_id,
        )
}

/// The end of a meeting, from its beginning and its length.
pub open spec fn end_of(m: MeetingView) -> u64 {
    if m.started_at_ms + m.duration_ms > u64::MAX {
        u64::MAX
    } else {
        (m.started_at_ms + m.duration_ms) as u64
    }
}

/// The time since the meeting's beginning.
pub open spec fn running_for(m: MeetingView, now: u64) -> u64 {
    if now > m.started_at_ms {
        (now - m.started_at_ms) as u64
    } else {
        0
    }
}

/// The record once the recording has stopped: its clock no longer runs.
pub open spec fn stopped(m: MeetingView, now: u64) -> MeetingView {
    let timed = MeetingView { duration_ms: running_for(m, now), ..m };
    MeetingView { ended_at_ms: Some(end_of(timed)), status: MeetingStatus::Processing, ..timed }
}

/// The transcript of a completed meeting: without echoes, where there were any.
pub open spec fn final_transcript(m: MeetingView) -> Seq<SegmentView> {
    if deduplicated(m.segments).len() != m.segments.len() {
        deduplicated(m.segments)
    } else {
        m.segments
    }
}

/// The record of a completed meeting.
pub open spec fn completed(m: MeetingView, now: u64) -> MeetingView {
    MeetingView {
        segments: final_transcript(m),
        segment_count: if deduplicated(m.segments).len() != m.segments.len() {
            deduplicated(m.segments).len() as usize
        } else {
            m.segment_count
        },
        status: MeetingStatus::Completed,
        updated_at_ms: now,
        ended_at_ms: Some(end_of(m)),
        error: None,
        ..m
    }
}

/// What is said of a capture that failed.
pub open spec fn capture_failure_text(source_error: Seq<char>) -> Seq<char> {
    "Meeting did not finish successfully: "@ + source_error
        + ". The partial transcript and temporary audio were retained locally; delete this meeting to remove them."@
}

/// The record of a meeting whose capture failed: nothing of it is lost.
pub open spec fn preserved(m: MeetingView, source_error: Seq<char>, now: u64) -> MeetingView {
    MeetingView {
        status: MeetingStatus::Failed,
        audio_retention: AudioRetention::KeepUntilDeleted,
        updated_at_ms: now,
        ended_at_ms: Some(end_of(m)),
        error: Some(capture_failure_text(source_error)),
        ..m
    }
}

/// The record of a meeting that ended early.
pub open spec fn ended_early(
    m: MeetingView,
    status: MeetingStatus,
    error: Seq<char>,
    now: u64,
) -> MeetingView {
    MeetingView { status, error: Some(error), updated_at_ms: now, ..m }
}

/// What is said where the audio could not be removed.
pub open spec fn audio_left_text(error: Seq<char>) -> Seq<char> {
    "The transcript and notes were saved, but VocalCode could not delete the temporary meeting audio: "@
        + error
}

/// A marked moment lies within the meeting.
pub open spec fn within(at_ms: u64, duration_ms: u64) -> u64 {
    if at_ms < duration_ms {
        at_ms
    } else {
        duration_ms
    }
}

/// The marks that wait, as they come into the record.
pub open spec fn marks(pending: Seq<(u64, String)>, duration_ms: u64) -> Seq<BookmarkView> {
    pending.map_values(
        |p: (u64, String)| BookmarkView { at_ms: within(p.0, duration_ms), label: p.1@ },
    )
}

/// The warnings once further ones are in, each once.
pub open spec fn warned(warnings: Seq<Seq<char>>, further: Seq<Seq<char>>, n: int) -> Seq<Seq<char>>
    decreases n,
{
    if n <= 0 {
        warnings
    } else {
        let before = warned(warnings, further, n - 1);
        if before.contains(further[n - 1]) {
            before
        } else {
            before.push(further[n - 1])
        }
    }
}

/// The record names every participant before an utterance does, so it can be read
/// wherever saving stops; the completed record does too.
pub proof fn transcripts_name_known_speakers(
    m: MeetingView,
    segment: SegmentView,
    now: u64,
    later: u64,
)
    requires
        speakers_named(m),
    ensures
        speakers_named(introduced(m, segment.speaker_id, segment.source, now)),
        speakers_named(
            appended(introduced(m, segment.speaker_id, segment.source, now), segment, later),
        ),
        speakers_named(completed(m, now)),
{
    let id = segment.speaker_id;
    let m1 = introduced(m, id, segment.source, now);
    assert forall|x: Seq<char>| #[trigger] speaker_known(m.speakers, x) implies speaker_known(
        m1.speakers,
        x,
    ) by {
        speakers_stay(m.speakers, m1.speakers, x);
    }
    if !speaker_known(m.speakers, id) {
        let p = |s: SpeakerView| s.id == id;
        crate::seqs::first_where_is_first(m1.speakers, p, 0);
        assert(p(m1.speakers[m.speakers.len() as int]));
    }
    assert(speaker_known(m1.speakers, id));
    only_echoes_are_lost(m.segments);
    let c = completed(m, now);
    assert forall|j: int| 0 <= j < c.segments.len() implies speaker_known(
        c.speakers,
        (#[trigger] c.segments[j]).speaker_id,
    ) by {
        if deduplicated(m.segments).len() != m.segments.len() {
            assert(m.segments.contains(deduplicated(m.segments)[j]));
            let i = choose|i: int|
                0 <= i < m.segments.len() && m.segments[i] == deduplicated(m.segments)[j];
            assert(speaker_known(m.speakers, m.segments[i].speaker_id));
        } else {
            assert(speaker_known(m.speakers, m.segments[j].speaker_id));
        }
    }
}

/// Whoever is in the list is in a longer one.
proof fn speakers_stay(a: Seq<SpeakerView>, b: Seq<SpeakerView>, id: Seq<char>)
    requires
        a.len() <= b.len(),
        forall|i: int| 0 <= i < a.len() ==> a[i] == #[trigger] b[i],
        speaker_known(a, id),
    ensures
        speaker_known(b, id),
{
    let p = |s: SpeakerView| s.id == id;
    crate::seqs::first_where_is_first(a, p, 0);
    crate::seqs::first_where_is_first(b, p, 0);
    let k = speaker_at(a, id);
    assert(p(b[k]));
}

/// Where the participant stands in the list, or how many there are.
fn find_speaker(speakers: &[Speaker], id: &str) -> (r: usize)
    ensures
        r == speaker_at(speakers_view(speakers@), id@),
        r <= speakers@.len(),
{
    let ghost p = |s: SpeakerView| s.id == id@;
    let ghost all = speakers_view(speakers@);
    let mut i: usize = 0;
    while i < speakers.len()
        invariant
            i <= speakers@.len(),
            all == speakers_view(speakers@),
            p == (|s: SpeakerView| s.id == id@),
            first_where(all, p, i as int) == first_where(all, p, 0),
        decreases speakers@.len() - i,
    {
        if same(&speakers[i].id, id) {
            assert(p(all[i as int]));
            return i;
        }
        assert(!p(all[i as int]));
        i += 1;
    }
    i
}

impl Meeting {
    /// The record of a live meeting at its beginning: whoever uses the microphone
    /// is known at once.
    pub fn begin_live(&mut self, microphone: bool)
        ensures
            final(self)@ == (if microphone {
                MeetingView {
                    speakers: old(self)@.speakers.push(
                        SpeakerView {
                            id: "you"@,
                            label: "You"@,
                            source: AudioSource::Microphone,
                        },
                    ),
                    ..old(self)@
                }
            } else {
                old(self)@
            }),
    {
        if microphone {
            self.speakers.push(
                Speaker {
                    id: "you".to_owned(),
                    label: "You".to_owned(),
                    source: AudioSource::Microphone,
                },
            );
        }
        assert(self@ =~~= if microphone {
            MeetingView {
                speakers: old(self)@.speakers.push(
                    SpeakerView { id: "you"@, label: "You"@, source: AudioSource::Microphone },
                ),
                ..old(self)@
            }
        } else {
            old(self)@
        });
    }

    /// Puts the participant into the record, unless they are there already. The
    /// record is to be saved before an utterance names someone new.
    pub fn introduce(&mut self, speaker_id: &str, source: AudioSource, now_ms: u64) -> (r: bool)
        ensures
            final(self)@ == introduced(old(self)@, speaker_id@, source, now_ms),
            r == !speaker_known(old(self)@.speakers, speaker_id@),
    {
        if find_speaker(&self.speakers, speaker_id) < self.speakers.len() {
            return false;
        }
        let label = if same(speaker_id, "you") {
            "You".to_owned()
        } else {
            let n: usize = self.numbered_speakers();
            let mut label = "Speaker ".to_owned();
            let number = decimal_text(n as u128 + 1);
            label.append(&number);
            label
        };
        self.speakers.push(Speaker { id: speaker_id.to_owned(), label, source });
        self.updated_at_ms = now_ms;
        assert(self@ =~~= introduced(old(self)@, speaker_id@, source, now_ms));
        true
    }

    /// How many participants the transcript numbers.
    fn numbered_speakers(&self) -> (r: usize)
        ensures
            r == numbered(self@.speakers).len(),
    {
        let ghost p = |s: SpeakerView| begins(s.id, "speaker-"@);
        let ghost all = self@.speakers;
        let mut n: usize = 0;
        let mut i: usize = 0;
        proof {
            filter_ends(all, p);
        }
        while i < self.speakers.len()
            invariant
                i <= self.speakers@.len(),
                n <= i,
                all == speakers_view(self.speakers@),
                p == (|s: SpeakerView| begins(s.id, "speaker-"@)),
                n == all.take(i as int).filter(p).len(),
            decreases self.speakers@.len() - i,
        {
            proof {
                filter_step(all, p, i as int);
            }
            if starts_with(&self.speakers[i].id, "speaker-") {
                assert(p(all[i as int]));
                n += 1;
            } else {
                assert(!p(all[i as int]));
            }
            i += 1;
        }
        n
    }

    /// The next utterance of the transcript.
    pub fn next_segment(
        &self,
        start_ms: u64,
        end_ms: u64,
        speaker_id: String,
        source: AudioSource,
        text: String,
    ) -> (r: TranscriptSegment)
        requires
            next_id(self@) <= u64::MAX,
        ensures
            r@ == (SegmentView {
                id: next_id(self@) as u64,
                start_ms,
                end_ms,
                speaker_id: speaker_id@,
                source,
                text: text@,
            }),
    {
        let n: usize = self.segments.len();
        let id: u64 = if n == 0 {
            1
        } else {
            assert(self@.segments[n - 1] == self.segments@[n - 1]@);
            self.segments[n - 1].id + 1
        };
        TranscriptSegment { id, start_ms, end_ms, speaker_id, source, text }
    }

    /// Puts the utterance into the record.
    pub fn append(&mut self, segment: TranscriptSegment, now_ms: u64)
        requires
            old(self)@.segments.len() < usize::MAX,
        ensures
            final(self)@ == appended(old(self)@, segment@, now_ms),
    {
        if self.duration_ms < segment.end_ms {
            self.duration_ms = segment.end_ms;
        }
        let ghost view = segment@;
        self.segments.push(segment);
        self.segment_count = self.segments.len();
        self.updated_at_ms = now_ms;
        assert(self@ =~~= appended(old(self)@, view, now_ms));
    }

    /// Counts an utterance that was only noise.
    pub fn skip_noise(&mut self)
        requires
            old(self)@.filtered_noise_segments < u64::MAX,
        ensures
            final(self)@ == (MeetingView {
                filtered_noise_segments: (old(self)@.filtered_noise_segments + 1) as u64,
                ..old(self)@
            }),
    {
        self.filtered_noise_segments = self.filtered_noise_segments + 1;
    }

    /// Takes over what the tracks reported: how much noise they dropped, and their
    /// warnings, each once.
    pub fn collect_warnings(&mut self, filtered: u64, warnings: Vec<String>)
        requires
            old(self)@.filtered_noise_segments + filtered <= u64::MAX,
        ensures
            final(self)@ == (MeetingView {
                filtered_noise_segments: (old(self)@.filtered_noise_segments + filtered) as u64,
                warnings: warned(
                    old(self)@.warnings,
                    texts(warnings@),
                    warnings@.len() as int,
                ),
                ..old(self)@
            }),
    {
        self.filtered_noise_segments = self.filtered_noise_segments + filtered;
        let ghost first = self@;
        let ghost further = texts(warnings@);
        let mut i: usize = 0;
        while i < warnings.len()
            invariant
                i <= warnings@.len(),
                further == texts(warnings@),
                self@ == (MeetingView {
                    warnings: warned(first.warnings, further, i as int),
                    ..first
                }),
            decreases warnings@.len() - i,
        {
            let ghost before = self@;
            if !listed(&self.warnings, &warnings[i]) {
                self.warnings.push(warnings[i].clone());
                assert(self@ =~~= MeetingView {
                    warnings: before.warnings.push(further[i as int]),
                    ..before
                });
            }
            i += 1;
        }
    }

    /// A recording that runs: the meeting is as long as it has lasted.
    pub fn progress(&mut self, now_ms: u64)
        ensures
            final(self)@ == (MeetingView {
                duration_ms: running_for(old(self)@, now_ms),
                ..old(self)@
            }),
    {
        self.duration_ms = now_ms.saturating_sub(self.started_at_ms);
    }

    /// The recording has stopped. What is transcribed from now on is no further
    /// meeting time.
    pub fn end_capture(&mut self, now_ms: u64)
        ensures
            final(self)@ == stopped(old(self)@, now_ms),
    {
        self.duration_ms = now_ms.saturating_sub(self.started_at_ms);
        self.ended_at_ms = Some(self.started_at_ms.saturating_add(self.duration_ms));
        self.status = MeetingStatus::Processing;
    }

    /// The meeting is complete. Says whether the transcript on disk is to be
    /// replaced by the one without echoes.
    pub fn complete(&mut self, now_ms: u64) -> (r: bool)
        ensures
            final(self)@ == completed(old(self)@, now_ms),
            r == (deduplicated(old(self)@.segments).len() != old(self)@.segments.len()),
    {
        let cleaned = deduplicate_live_tracks(&self.segments);
        proof {
            only_echoes_are_lost(self@.segments);
            assert(segments_view(cleaned@).len() == cleaned@.len());
        }
        let replaced = cleaned.len() != self.segments.len();
        if replaced {
            self.segments = cleaned;
            self.segment_count = self.segments.len();
        }
        self.status = MeetingStatus::Completed;
        self.updated_at_ms = now_ms;
        self.ended_at_ms = Some(self.started_at_ms.saturating_add(self.duration_ms));
        self.error = None;
        assert(self@ =~~= completed(old(self)@, now_ms));
        replaced
    }

    /// The capture failed: the partial transcript stays, and so does the audio.
    pub fn preserve_failed_capture(&mut self, source_error: &str, now_ms: u64) -> (r: String)
        ensures
            final(self)@ == preserved(old(self)@, source_error@, now_ms),
            r@ == capture_failure_text(source_error@),
    {
        let mut message = "Meeting did not finish successfully: ".to_owned();
        message.append(source_error);
        message.append(
            ". The partial transcript and temporary audio were retained locally; delete this meeting to remove them.",
        );
        self.status = MeetingStatus::Failed;
        self.audio_retention = AudioRetention::KeepUntilDeleted;
        self.updated_at_ms = now_ms;
        self.ended_at_ms = Some(self.started_at_ms.saturating_add(self.duration_ms));
        self.error = Some(message.clone());
        message
    }

    /// The devices could not be opened.
    pub fn capture_not_started(&mut self, error: &str, now_ms: u64)
        ensures
            final(self)@ == ended_early(old(self)@, MeetingStatus::Failed, error@, now_ms),
    {
        self.status = MeetingStatus::Failed;
        self.error = Some(error.to_owned());
        self.updated_at_ms = now_ms;
    }

    /// An import ended early, because it was stopped or because it failed.
    pub fn import_ended(&mut self, was_stopped: bool, error: &str, now_ms: u64)
        ensures
            final(self)@ == ended_early(
                old(self)@,
                if was_stopped {
                    MeetingStatus::Interrupted
                } else {
                    MeetingStatus::Failed
                },
                error@,
                now_ms,
            ),
    {
        self.status = if was_stopped {
            MeetingStatus::Interrupted
        } else {
            MeetingStatus::Failed
        };
        self.error = Some(error.to_owned());
        self.updated_at_ms = now_ms;
    }

    /// The audio could not be removed after the transcript was saved.
    pub fn audio_left_behind(&mut self, error: &str, now_ms: u64) -> (r: String)
        ensures
            final(self)@ == ended_early(
                old(self)@,
                MeetingStatus::Failed,
                audio_left_text(error@),
                now_ms,
            ),
            r@ == audio_left_text(error@),
    {
        let mut message =
            "The transcript and notes were saved, but VocalCode could not delete the temporary meeting audio: ".to_owned();
        message.append(error);
        self.status = MeetingStatus::Failed;
        self.updated_at_ms = now_ms;
        self.error = Some(message.clone());
        message
    }

    /// Takes over the moments that were marked while the meeting ran. Says whether
    /// there were any.
    pub fn apply_bookmarks(&mut self, pending: Vec<(u64, String)>, now_ms: u64) -> (r: bool)
        ensures
            r == (pending@.len() > 0),
            final(self)@ == (if r {
                MeetingView {
                    bookmarks: old(self)@.bookmarks + marks(pending@, old(self)@.duration_ms),
                    updated_at_ms: now_ms,
                    ..old(self)@
                }
            } else {
                old(self)@
            }),
    {
        if pending.len() == 0 {
            return false;
        }
        let ghost first = self@;
        let ghost all = marks(pending@, first.duration_ms);
        assert(first.bookmarks + all.take(0) =~= first.bookmarks);
        let mut i: usize = 0;
        while i < pending.len()
            invariant
                i <= pending@.len(),
                all == marks(pending@, first.duration_ms),
                self@ == (MeetingView {
                    bookmarks: first.bookmarks + all.take(i as int),
                    ..first
                }),
            decreases pending@.len() - i,
        {
            let at_ms: u64 = if pending[i].0 < self.duration_ms {
                pending[i].0
            } else {
                self.duration_ms
            };
            let ghost before = self@;
            assert(before.duration_ms == first.duration_ms);
            self.bookmarks.push(Bookmark { at_ms, label: pending[i].1.clone() });
            assert(self@.bookmarks =~= before.bookmarks.push(all[i as int]));
            assert(all.take(i + 1) =~= all.take(i as int).push(all[i as int]));
            assert(self@ =~= MeetingView {
                bookmarks: first.bookmarks + all.take(i + 1),
                ..first
            });
            i += 1;
        }
        self.updated_at_ms = now_ms;
        assert(all.take(all.len() as int) =~= all);
        true
    }

    /// Gives the meeting another title.
    pub fn rename(&mut self, title: &str, now_ms: u64)
        ensures
            final(self)@ == (MeetingView {
                title: trimmed(title@),
                updated_at_ms: now_ms,
                ..old(self)@
            }),
    {
        self.title = trim(title).to_owned();
        self.updated_at_ms = now_ms;
    }

    /// Gives a participant another name.
    pub fn rename_speaker(&mut self, speaker_id: &str, label: &str, now_ms: u64) -> (r: Result<
        (),
        &'static str,
    >)
        ensures
            match r {
                Ok(_) => {
                    let k = speaker_at(old(self)@.speakers, speaker_id@);
                    &&& k < old(self)@.speakers.len()
                    &&& 0 < trimmed(label@).len()
                    &&& encode_utf8(trimmed(label@)).len() <= MAX_SPEAKER_BYTES
                    &&& final(self)@ == MeetingView {
                        speakers: old(self)@.speakers.update(
                            k,
                            SpeakerView { label: trimmed(label@), ..old(self)@.speakers[k] },
                        ),
                        updated_at_ms: now_ms,
                        ..old(self)@
                    }
                },
                Err(e) => {
                    &&& final(self)@ == old(self)@
                    &&& if !speaker_known(old(self)@.speakers, speaker_id@) {
                        e@ == "That speaker is no longer in this meeting."@
                    } else {
                        &&& trimmed(label@).len() == 0 || encode_utf8(trimmed(label@)).len()
                            > MAX_SPEAKER_BYTES
                        &&& e@ == "Enter a speaker name up to 128 bytes."@
                    }
                },
            },
    {
        let k: usize = find_speaker(&self.speakers, speaker_id);
        if k >= self.speakers.len() {
            return Err("That speaker is no longer in this meeting.");
        }
        let name = trim(label);
        if name.unicode_len() == 0 || byte_len(name) > MAX_SPEAKER_BYTES {
            return Err("Enter a speaker name up to 128 bytes.");
        }
        let named = Speaker {
            id: self.speakers[k].id.clone(),
            label: name.to_owned(),
            source: self.speakers[k].source,
        };
        assert(self@.speakers[k as int] == self.speakers@[k as int]@);
        self.speakers.set(k, named);
        self.updated_at_ms = now_ms;
        assert(self@ =~~= MeetingView {
            speakers: old(self)@.speakers.update(
                k as int,
                SpeakerView { label: name@, ..old(self)@.speakers[k as int] },
            ),
            updated_at_ms: now_ms,
            ..old(self)@
        });
        Ok(())
    }

    /// Marks a moment of a saved meeting.
    pub fn add_bookmark(&mut self, at_ms: u64, label: &str, now_ms: u64)
        ensures
            final(self)@ == (MeetingView {
                bookmarks: old(self)@.bookmarks.push(
                    BookmarkView { at_ms, label: truncated(label@, MAX_BOOKMARK_BYTES as int) },
                ),
                updated_at_ms: now_ms,
                ..old(self)@
            }),
    {
        let short = truncate_utf8(label, MAX_BOOKMARK_BYTES);
        self.bookmarks.push(Bookmark { at_ms, label: short.to_owned() });
        self.updated_at_ms = now_ms;
        assert(self@ =~~= MeetingView {
            bookmarks: old(self)@.bookmarks.push(BookmarkView { at_ms, label: short@ }),
            updated_at_ms: now_ms,
            ..old(self)@
        });
    }

    /// An imported block was decoded: the meeting is at least as long as up to its
    /// end.
    pub fn import_progress(&mut self, start_ms: u64, samples: u64, channels: u16, sample_rate: u32)
        requires
            sample_rate > 0,
        ensures
            final(self)@ == (MeetingView {
                duration_ms: later(
                    old(self)@.duration_ms,
                    block_end(start_ms, samples, channels, sample_rate),
                ),
                ..old(self)@
            }),
    {
        let width: u64 = if channels == 0 {
            1
        } else {
            channels as u64
        };
        let frames: u64 = samples / width;
        let scaled: u64 = match frames.checked_mul(1_000) {
            Some(n) => n,
            None => u64::MAX,
        };
        let end: u64 = start_ms.saturating_add(scaled / (sample_rate as u64));
        if self.duration_ms < end {
            self.duration_ms = end;
        }
    }
}

/// The later of two times.
pub open spec fn later(a: u64, b: u64) -> u64 {
    if a < b {
        b
    } else {
        a
    }
}

/// A number as a machine holds it: no larger than it can.
pub open spec fn capped(n: int) -> int {
    if n > u64::MAX {
        u64::MAX as int
    } else {
        n
    }
}

/// Where a block of interleaved samples ends, in milliseconds.
pub open spec fn block_end(start_ms: u64, samples: u64, channels: u16, sample_rate: u32) -> u64 {
    let width = if channels == 0 {
        1
    } else {
        channels as int
    };
    let frames = samples as int / width;
    capped(start_ms + capped(frames * 1_000) / sample_rate as int) as u64
}

/// Warnings are collected once each: those that were there stay where they are, every
/// further one is there afterwards, and nothing else is.
pub proof fn warnings_are_collected_once(warnings: Seq<Seq<char>>, further: Seq<Seq<char>>)
    ensures
        ({
            let all = warned(warnings, further, further.len() as int);
            &&& warnings.len() <= all.len() <= warnings.len() + further.len()
            &&& all.take(warnings.len() as int) == warnings
            &&& forall|i: int| 0 <= i < further.len() ==> all.contains(#[trigger] further[i])
            &&& forall|k: int|
                warnings.len() <= k < all.len() ==> further.contains(#[trigger] all[k])
                    && !all.take(k).contains(all[k])
            &&& warnings.no_duplicates() ==> all.no_duplicates()
        }),
{
    warned_part(warnings, further, further.len() as int);
    let all = warned(warnings, further, further.len() as int);
    if warnings.no_duplicates() {
        assert forall|i: int, j: int| 0 <= i < all.len() && 0 <= j < all.len() && i != j implies all[i]
            != all[j] by {
            if i < j && j >= warnings.len() {
                assert(!all.take(j).contains(all[j]));
                assert(all.take(j)[i] == all[i]);
            } else if j < i && i >= warnings.len() {
                assert(!all.take(i).contains(all[i]));
                assert(all.take(i)[j] == all[j]);
            } else {
                assert(all[i] == all.take(warnings.len() as int)[i]);
                assert(all[j] == all.take(warnings.len() as int)[j]);
            }
        }
    }
}

proof fn warned_part(warnings: Seq<Seq<char>>, further: Seq<Seq<char>>, n: int)
    requires
        0 <= n <= further.len(),
    ensures
        ({
            let all = warned(warnings, further, n);
            &&& warnings.len() <= all.len() <= warnings.len() + n
            &&& all.take(warnings.len() as int) == warnings
            &&& forall|i: int| 0 <= i < n ==> all.contains(#[trigger] further[i])
            &&& forall|k: int|
                warnings.len() <= k < all.len() ==> further.contains(#[trigger] all[k])
                    && !all.take(k).contains(all[k])
        }),
    decreases n,
{
    if n > 0 {
        warned_part(warnings, further, n - 1);
        let before = warned(warnings, further, n - 1);
        let all = warned(warnings, further, n);
        let w = warnings.len() as int;
        if !before.contains(further[n - 1]) {
            let m = before.len() as int;
            assert(all.take(w) =~= before.take(w));
            assert(all[m] == further[n - 1]);
            assert forall|i: int| 0 <= i < n implies all.contains(#[trigger] further[i]) by {
                if i < n - 1 {
                    let j = choose|j: int| 0 <= j < before.len() && before[j] == further[i];
                    assert(all[j] == further[i]);
                }
            }
            assert forall|k: int| w <= k < all.len() implies further.contains(#[trigger] all[k])
                && !all.take(k).contains(all[k]) by {
                if k < m {
                    assert(all[k] == before[k]);
                    assert(all.take(k) =~= before.take(k));
                } else {
                    assert(all.take(m) =~= before);
                }
            }
        }
    } else {
        assert(warnings.take(warnings.len() as int) =~= warnings);
    }
}

/// A speaker is introduced once, behind those that are known, and these keep their
/// names. Voices get the next number each.
pub proof fn speakers_are_introduced_once(
    m: MeetingView,
    id: Seq<char>,
    source: AudioSource,
    now: u64,
    other: Seq<char>,
)
    ensures
        ({
            let after = introduced(m, id, source, now);
            &&& speaker_known(after.speakers, id)
            &&& introduced(after, id, source, now) == after
            &&& speaker_known(m.speakers, id) ==> after == m
            &&& !speaker_known(m.speakers, id) ==> {
                &&& after.speakers.len() == m.speakers.len() + 1
                &&& after.speakers.last().id == id
                &&& after.speakers.last().source == source
                &&& id == "you"@ ==> after.speakers.last().label == "You"@
                &&& id != "you"@ && other != "you"@ && begins(id, "speaker-"@) ==> exists|k: nat|
                    after.speakers.last().label == "Speaker "@ + #[trigger] decimal(k)
                        && first_label(after.speakers, other) == "Speaker "@ + decimal(k + 1)
            }
            &&& after.speakers.take(m.speakers.len() as int) == m.speakers
            &&& after.segments == m.segments
        }),
{
    let after = introduced(m, id, source, now);
    let is_it = |s: SpeakerView| s.id == id;
    crate::seqs::first_where_is_first(m.speakers, is_it, 0);
    crate::seqs::first_where_is_first(after.speakers, is_it, 0);
    assert(after.speakers.take(m.speakers.len() as int) =~= m.speakers);
    if !speaker_known(m.speakers, id) {
        let n = m.speakers.len() as int;
        assert(after.speakers[n].id == id);
        if !speaker_known(after.speakers, id) {
            assert(!is_it(after.speakers[n]));
        }
        let voice = |s: SpeakerView| begins(s.id, "speaker-"@);
        if id != "you"@ && other != "you"@ && begins(id, "speaker-"@) {
            let k = (numbered(m.speakers).len() + 1) as nat;
            crate::seqs::filter_ends(after.speakers, voice);
            crate::seqs::filter_step(after.speakers, voice, n);
            assert(after.speakers.take(n) =~= m.speakers);
            assert(numbered(after.speakers).len() == k);
            assert(after.speakers.last().label == "Speaker "@ + decimal(k));
        }
    }
}

/// The numbers of the segments rise.
pub open spec fn numbered_upwards(s: Seq<SegmentView>) -> bool {
    forall|i: int, j: int| 0 <= i < j < s.len() ==> (#[trigger] s[i]).id < (#[trigger] s[j]).id
}

/// Each segment gets a number beyond all before it, from one on, and is put behind
/// them; none of them changes, the count is that of the segments, and the meeting is
/// at least as long as its segments.
pub proof fn segments_are_numbered_upwards(m: MeetingView, segment: SegmentView, now: u64)
    requires
        numbered_upwards(m.segments),
        m.segments.len() < usize::MAX,
        segment.id == next_id(m),
    ensures
        ({
            let after = appended(m, segment, now);
            &&& numbered_upwards(after.segments)
            &&& m.segments.len() == 0 ==> segment.id == 1
            &&& after.segments.len() == m.segments.len() + 1
            &&& after.segments.last() == segment
            &&& after.segments.drop_last() == m.segments
            &&& after.segment_count == after.segments.len()
            &&& after.duration_ms >= m.duration_ms
            &&& after.duration_ms >= segment.end_ms
            &&& after.duration_ms == m.duration_ms || after.duration_ms == segment.end_ms
            &&& after.speakers == m.speakers
        }),
{
    let after = appended(m, segment, now);
    assert(after.segments.drop_last() =~= m.segments);
    assert forall|i: int, j: int| 0 <= i < j < after.segments.len() implies (
    #[trigger] after.segments[i]).id < (#[trigger] after.segments[j]).id by {
        let n = m.segments.len() as int;
        if j < n {
            assert(after.segments[i] == m.segments[i] && after.segments[j] == m.segments[j]);
        } else {
            assert(after.segments[i] == m.segments[i]);
            if i < n - 1 {
                assert(m.segments[i].id < m.segments[n - 1].id);
            }
        }
    }
}

/// A completed meeting counts the segments that are left, without a change to any
/// other part of it than its end and its state; where nothing was an echo, the
/// transcript stays as it is.
pub proof fn a_completed_meeting_is_whole(m: MeetingView, now: u64)
    requires
        m.segment_count == m.segments.len(),
    ensures
        ({
            let after = completed(m, now);
            &&& after.segment_count == after.segments.len()
            &&& after.segments == m.segments || (after.segments == deduplicated(m.segments)
                && after.segments.len() < m.segments.len())
            &&& after.status == MeetingStatus::Completed
            &&& after.error is None
            &&& after.speakers == m.speakers
            &&& after.bookmarks == m.bookmarks
            &&& after.title == m.title
            &&& after.duration_ms == m.duration_ms
            &&& m.started_at_ms + m.duration_ms <= u64::MAX ==> after.ended_at_ms == Some(
                (m.started_at_ms + m.duration_ms) as u64,
            )
        }),
{
    only_echoes_are_lost(m.segments);
}

/// A recording that ends after so long is as long as that, and ends when it ended.
pub proof fn a_recording_ends_when_it_ended(m: MeetingView, now: u64)
    requires
        m.started_at_ms <= now,
    ensures
        stopped(m, now).ended_at_ms == Some(now),
        stopped(m, now).duration_ms == now - m.started_at_ms,
        stopped(m, now).status == MeetingStatus::Processing,
        stopped(m, now).segments == m.segments,
{
}

/// A failed recording is kept: its transcript and notes as they are, its audio until
/// the meeting is deleted.
pub proof fn a_failed_recording_is_kept(m: MeetingView, error: Seq<char>, now: u64)
    ensures
        preserved(m, error, now).segments == m.segments,
        preserved(m, error, now).speakers == m.speakers,
        preserved(m, error, now).bookmarks == m.bookmarks,
        preserved(m, error, now).audio_retention == AudioRetention::KeepUntilDeleted,
        preserved(m, error, now).status == MeetingStatus::Failed,
        preserved(m, error, now).error is Some,
{
}

/// Bookmarks that waited are put into the meeting one by one, each with its label, at
/// its time or, where that is behind the end, at the end.
pub proof fn bookmarks_lie_within_the_meeting(pending: Seq<(u64, String)>, duration_ms: u64, i: int)
    requires
        0 <= i < pending.len(),
    ensures
        marks(pending, duration_ms).len() == pending.len(),
        marks(pending, duration_ms)[i].label == pending[i].1@,
        marks(pending, duration_ms)[i].at_ms <= duration_ms,
        pending[i].0 <= duration_ms ==> marks(pending, duration_ms)[i].at_ms == pending[i].0,
{
}

/// A block of so many seconds of sound, with that many values for each channel and
/// second, ends so many seconds after its start.
pub proof fn whole_seconds_last_seconds(
    start_ms: u64,
    seconds: u64,
    channels: u16,
    sample_rate: u32,
)
    requires
        channels > 0,
        sample_rate > 0,
        seconds * sample_rate * channels <= u64::MAX,
        seconds * sample_rate * 1_000 <= u64::MAX,
        start_ms + seconds * 1_000 <= u64::MAX,
    ensures
        block_end(start_ms, (seconds * sample_rate * channels) as u64, channels, sample_rate)
            == start_ms + seconds * 1_000,
{
    let frames = seconds * sample_rate;
    let samples = frames * channels;
    assert(samples as int / channels as int == frames) by (nonlinear_arith)
        requires
            samples == frames * channels,
            channels > 0,
    ;
    assert((frames * 1_000) / sample_rate as int == seconds * 1_000) by (nonlinear_arith)
        requires
            frames == seconds * sample_rate,
            sample_rate > 0,
    ;
}

} // verus!
