//! What the user interface and the meeting worker share: the one meeting that may
//! run, the commands that wait for the worker, the moments that were marked, and
//! the answers to the question whether to end.

use crate::prompt::EndAction;
use crate::record::{Meeting, MeetingStatus, MeetingView, MAX_BOOKMARK_BYTES};
use crate::reminder::optional_text;
use crate::text::{same, trim, trimmed, truncate_utf8, truncated};
use vstd::prelude::*;

verus! {

/// How many commands may wait.
pub const COMMAND_QUEUE_CAPACITY: usize = 32;

/// How many marked moments may wait to be saved.
pub const MAX_PENDING_BOOKMARKS: usize = 256;

/// How many answers may wait.
pub const MAX_PENDING_ANSWERS: usize = 16;

/// What a meeting is exported as.
#[derive(Debug, Clone, Copy, PartialEq, Eq, Structural)]
pub enum ExportKind {
    Markdown,
    Text,
    Json,
    Srt,
}

/// What the worker is asked to do. `P` is a path of the file system.
#[derive(Debug)]
pub enum Command<P> {
    StartLive {
        stop: u64,
        title: String,
        microphone: bool,
        system_audio: bool,
        microphone_selector: Option<String>,
        keep_audio: bool,
        language: String,
        auto_end_minutes: u64,
    },
    Import { stop: u64, path: P, title: String, language: String },
    Select(String),
    Delete(String),
    Rename(String, String),
    RenameSpeaker(String, String, String),
    Bookmark(String, u64, String),
    Search(String),
    Export(String, ExportKind, P),
    Refresh(String),
    Shutdown,
}

/// The worker that takes the commands.
#[derive(Debug, Clone, Copy, PartialEq, Eq, Structural)]
pub enum Service {
    NotReady,
    Open,
    Closed,
}

/// The question whether to end a silent meeting.
#[derive(Debug, Clone, Copy, PartialEq, Eq, Structural)]
pub struct AutoEndNotice {
    pub id: u64,
    pub idle_minutes: u64,
    pub remaining_seconds: u64,
}

/// By which one running meeting is told to stop.
#[derive(Debug, Clone, Copy, PartialEq, Eq, Structural)]
pub struct StopToken {
    pub id: u64,
    pub raised: bool,
}

/// The meeting that runs, as the user interface names it.
#[derive(Debug, PartialEq, Eq)]
pub struct Recording {
    pub id: String,
    pub title: String,
    pub started_at_ms: u64,
    pub duration_ms: u64,
    pub status: MeetingStatus,
    pub stopping: bool,
}

/// What is said of the meeting that runs.
pub struct RecordingView {
    pub id: Seq<char>,
    pub title: Seq<char>,
    pub started_at_ms: u64,
    pub duration_ms: u64,
    pub status: MeetingStatus,
    pub stopping: bool,
}

impl View for Recording {
    type V = RecordingView;

    open spec fn view(&self) -> RecordingView {
        RecordingView {
            id: self.id@,
            title: self.title@,
            started_at_ms: self.started_at_ms,
            duration_ms: self.duration_ms,
            status: self.status,
            stopping: self.stopping,
        }
    }
}

/// What is said of the meeting that runs, where one does.
pub open spec fn optional_recording(r: Option<Recording>) -> Option<RecordingView> {
    match r {
        Some(x) => Some(x@),
        None => None,
    }
}

/// The marks that wait.
pub open spec fn bookmark_texts(s: Seq<(u64, String)>) -> Seq<(u64, Seq<char>)> {
    s.map_values(|x: (u64, String)| (x.0, x.1@))
}

/// What the user interface and the worker share.
#[derive(Debug)]
pub struct Bridge<P> {
    service: Service,
    commands: Vec<Command<P>>,
    active: bool,
    transcribing: bool,
    shutting_down: bool,
    revision: u64,
    stop: Option<StopToken>,
    next_token: u64,
    active_id: Option<String>,
    pending_bookmarks: Vec<(u64, String)>,
    auto_end_notice: Option<AutoEndNotice>,
    auto_end_actions: Vec<(u64, EndAction)>,
    recording: Option<Recording>,
}

/// What is shared, said plainly.
#[verifier::ext_equal]
pub struct BridgeView<P> {
    pub service: Service,
    pub commands: Seq<Command<P>>,
    pub active: bool,
    pub transcribing: bool,
    pub shutting_down: bool,
    pub revision: u64,
    pub stop: Option<StopToken>,
    pub next_token: u64,
    pub active_id: Option<Seq<char>>,
    pub bookmarks: Seq<(u64, Seq<char>)>,
    pub notice: Option<AutoEndNotice>,
    pub answers: Seq<(u64, EndAction)>,
    pub recording: Option<RecordingView>,
}

impl<P> View for Bridge<P> {
    type V = BridgeView<P>;

    closed spec fn view(&self) -> BridgeView<P> {
        BridgeView {
            service: self.service,
            commands: self.commands@,
            active: self.active,
            transcribing: self.transcribing,
            shutting_down: self.shutting_down,
            revision: self.revision,
            stop: self.stop,
            next_token: self.next_token,
            active_id: optional_text(self.active_id),
            bookmarks: bookmark_texts(self.pending_bookmarks@),
            notice: self.auto_end_notice,
            answers: self.auto_end_actions@,
            recording: optional_recording(self.recording),
        }
    }
}

/// The next number; after the largest one, the first.
pub open spec fn next(n: u64) -> u64 {
    if n == u64::MAX {
        0
    } else {
        (n + 1) as u64
    }
}

/// Why the worker takes no command, where it takes none.
pub open spec fn send_error<P>(b: BridgeView<P>) -> Option<Seq<char>> {
    match b.service {
        Service::NotReady => Some("The local meeting service is not ready."@),
        Service::Open => if b.commands.len() < COMMAND_QUEUE_CAPACITY {
            None
        } else {
            Some("The local meeting service is busy; wait a moment and try again."@)
        },
        Service::Closed => Some(
            "The local meeting service is busy; wait a moment and try again."@,
        ),
    }
}

/// The command waits, or the answer says why it does not.
pub open spec fn sent<P>(
    before: BridgeView<P>,
    after: BridgeView<P>,
    command: Command<P>,
    r: Result<(), &'static str>,
) -> bool {
    match send_error(before) {
        None => r is Ok && after == BridgeView { commands: before.commands.push(command), ..before },
        Some(e) => r is Err && r->Err_0@ == e && after == before,
    }
}

/// A meeting is reserved and its command waits; or nothing runs, and the answer
/// says why.
pub open spec fn reserved<P>(
    before: BridgeView<P>,
    after: BridgeView<P>,
    command: Command<P>,
    r: Result<(), &'static str>,
) -> bool {
    if before.active {
        r is Err && r->Err_0@ == "Finish the current meeting first."@ && after == before
    } else {
        match send_error(before) {
            None => r is Ok && after == BridgeView {
                active: true,
                stop: Some(StopToken { id: before.next_token, raised: false }),
                next_token: next(before.next_token),
                commands: before.commands.push(command),
                ..before
            },
            Some(e) => r is Err && r->Err_0@ == e && after == BridgeView {
                stop: None,
                next_token: next(before.next_token),
                ..before
            },
        }
    }
}

/// The shared state once the question has changed.
pub open spec fn asked<P>(b: BridgeView<P>, notice: Option<AutoEndNotice>) -> BridgeView<P> {
    if b.notice == notice {
        b
    } else {
        BridgeView { notice, revision: next(b.revision), ..b }
    }
}

/// The shared state once another meeting runs, or none does.
pub open spec fn attended<P>(b: BridgeView<P>, id: Option<Seq<char>>) -> BridgeView<P> {
    let named = BridgeView { active_id: id, ..b };
    if id is None {
        BridgeView { answers: Seq::empty(), bookmarks: Seq::empty(), ..asked(named, None) }
    } else {
        named
    }
}

/// The shared state without that meeting's token.
pub open spec fn released<P>(b: BridgeView<P>, token: u64) -> BridgeView<P> {
    if b.stop is Some && b.stop->0.id == token {
        BridgeView { stop: None, ..b }
    } else {
        b
    }
}

/// The shared state once that meeting's worker has ended.
pub open spec fn ended<P>(b: BridgeView<P>, token: u64) -> BridgeView<P> {
    released(BridgeView { active: false, transcribing: false, ..attended(b, None) }, token)
}

/// What an answer waits as: only for the question that is asked of a meeting that
/// runs, once, and not without bound.
pub open spec fn answered<P>(b: BridgeView<P>, id: u64, action: EndAction) -> BridgeView<P> {
    if b.active && b.notice is Some && b.notice->0.id == id && b.answers.len()
        < MAX_PENDING_ANSWERS && !b.answers.contains((id, action)) {
        BridgeView { answers: b.answers.push((id, action)), ..b }
    } else {
        b
    }
}

/// The meeting that runs, as it is shown beside `detail`: looking at another
/// meeting changes nothing about it.
pub open spec fn shown_recording<P>(
    b: BridgeView<P>,
    detail: Option<MeetingView>,
) -> Option<RecordingView> {
    if !b.active || b.active_id is None {
        None
    } else if detail is Some && detail->0.id == b.active_id->0 {
        let m = detail->0;
        Some(
            RecordingView {
                id: m.id,
                title: m.title,
                started_at_ms: m.started_at_ms,
                duration_ms: m.duration_ms,
                status: m.status,
                stopping: m.status == MeetingStatus::Processing && m.ended_at_ms is Some,
            },
        )
    } else {
        b.recording
    }
}

/// A mark's label: without space round it, and not too long.
pub open spec fn mark_label(label: Seq<char>) -> Seq<char> {
    truncated(trimmed(label), MAX_BOOKMARK_BYTES as int)
}

/// Why a moment of the running meeting is not marked, where it is not.
pub open spec fn mark_error<P>(b: BridgeView<P>, id: Seq<char>, label: Seq<char>) -> Option<
    Seq<char>,
> {
    if b.active_id != Some(id) {
        Some("The active meeting is still starting or has changed."@)
    } else if mark_label(label).len() == 0 || mark_label(label).contains('\0') {
        Some("Enter a bookmark label."@)
    } else if b.bookmarks.len() >= MAX_PENDING_BOOKMARKS {
        Some("Too many meeting bookmarks are waiting to save."@)
    } else {
        None
    }
}

/// Nothing waits without bound, and no answer waits twice.
pub open spec fn orderly<P>(b: BridgeView<P>) -> bool {
    &&& b.commands.len() <= COMMAND_QUEUE_CAPACITY
    &&& b.bookmarks.len() <= MAX_PENDING_BOOKMARKS
    &&& b.answers.len() <= MAX_PENDING_ANSWERS
    &&& b.answers.no_duplicates()
}

impl<P> Bridge<P> {
    /// Nothing runs, and the worker is not there yet.
    pub fn new() -> (r: Self)
        ensures
            r@ == (BridgeView::<P> {
                service: Service::NotReady,
                commands: Seq::empty(),
                active: false,
                transcribing: false,
                shutting_down: false,
                revision: 0,
                stop: None,
                next_token: 1,
                active_id: None,
                bookmarks: Seq::empty(),
                notice: None,
                answers: Seq::empty(),
                recording: None,
            }),
            orderly(r@),
    {
        let r = Bridge {
            service: Service::NotReady,
            commands: Vec::new(),
            active: false,
            transcribing: false,
            shutting_down: false,
            revision: 0,
            stop: None,
            next_token: 1,
            active_id: None,
            pending_bookmarks: Vec::new(),
            auto_end_notice: None,
            auto_end_actions: Vec::new(),
            recording: None,
        };
        assert(r@.bookmarks =~= Seq::<(u64, Seq<char>)>::empty());
        r
    }

    /// The worker takes commands from now on, or no longer.
    pub fn set_service(&mut self, service: Service)
        ensures
            final(self)@ == (BridgeView { service, ..old(self)@ }),
    {
        self.service = service;
    }

    /// Does a meeting run, or is one about to?
    pub fn is_active(&self) -> (r: bool)
        ensures
            r == self@.active,
    {
        self.active
    }

    /// Is the engine at work for it?
    pub fn is_transcribing(&self) -> (r: bool)
        ensures
            r == self@.transcribing,
    {
        self.transcribing
    }

    /// The engine is at work for the meeting, or no longer.
    pub fn set_transcribing(&mut self, transcribing: bool)
        ensures
            final(self)@ == (BridgeView { transcribing, ..old(self)@ }),
    {
        self.transcribing = transcribing;
    }

    /// Is the program closing?
    pub fn is_shutting_down(&self) -> (r: bool)
        ensures
            r == self@.shutting_down,
    {
        self.shutting_down
    }

    /// The revision, where it is another than the one that the caller has.
    pub fn update_after(&self, revision: u64) -> (r: Option<u64>)
        ensures
            r == (if self@.revision != revision {
                Some(self@.revision)
            } else {
                None
            }),
    {
        if self.revision != revision {
            Some(self.revision)
        } else {
            None
        }
    }

    /// The question that is asked.
    pub fn auto_end_notice(&self) -> (r: Option<AutoEndNotice>)
        ensures
            r == self@.notice,
    {
        self.auto_end_notice
    }

    /// What is said of the meeting that runs.
    pub fn recording(&self) -> (r: Option<&Recording>)
        ensures
            match r {
                Some(x) => self@.recording == Some(x@),
                None => self@.recording is None,
            },
    {
        self.recording.as_ref()
    }

    /// Puts a command where the worker finds it.
    fn send(&mut self, command: Command<P>) -> (r: Result<(), &'static str>)
        ensures
            sent(old(self)@, final(self)@, command, r),
    {
        match self.service {
            Service::NotReady => Err("The local meeting service is not ready."),
            Service::Closed => Err(
                "The local meeting service is busy; wait a moment and try again.",
            ),
            Service::Open => {
                if self.commands.len() < COMMAND_QUEUE_CAPACITY {
                    self.commands.push(command);
                    Ok(())
                } else {
                    Err("The local meeting service is busy; wait a moment and try again.")
                }
            },
        }
    }

    /// The next command of the worker.
    pub fn take_command(&mut self) -> (r: Option<Command<P>>)
        ensures
            match r {
                Some(command) => {
                    &&& old(self)@.commands.len() > 0
                    &&& command == old(self)@.commands[0]
                    &&& final(self)@ == BridgeView {
                        commands: old(self)@.commands.skip(1),
                        ..old(self)@
                    }
                },
                None => old(self)@.commands.len() == 0 && final(self)@ == old(self)@,
            },
    {
        if self.commands.len() == 0 {
            return None;
        }
        let command = self.commands.remove(0);
        assert(self.commands@ =~= old(self).commands@.skip(1));
        Some(command)
    }

    /// A token for the next meeting.
    fn draw_token(&mut self) -> (r: u64)
        ensures
            r == old(self)@.next_token,
            final(self)@ == (BridgeView { next_token: next(r), ..old(self)@ }),
    {
        let token: u64 = self.next_token;
        self.next_token = if token == u64::MAX {
            0
        } else {
            token + 1
        };
        token
    }

    /// Reserves the one meeting that may run, and then sends its command. The token
    /// is there first, so that the meeting can be stopped at once.
    fn reserve_and_send(&mut self, command: Command<P>, token: u64) -> (r: Result<
        (),
        &'static str,
    >)
        requires
            !old(self)@.active,
        ensures
            match send_error(old(self)@) {
                None => r is Ok && final(self)@ == (BridgeView {
                    active: true,
                    stop: Some(StopToken { id: token, raised: false }),
                    commands: old(self)@.commands.push(command),
                    ..old(self)@
                }),
                Some(e) => r is Err && r->Err_0@ == e && final(self)@ == (BridgeView {
                    stop: None,
                    ..old(self)@
                }),
            },
    {
        self.active = true;
        self.set_stop(Some(StopToken { id: token, raised: false }));
        match self.send(command) {
            Ok(_) => Ok(()),
            Err(error) => {
                self.clear_stop_if(token);
                self.active = false;
                Err(error)
            },
        }
    }

    /// Records a meeting.
    pub fn start_live(
        &mut self,
        title: String,
        microphone: bool,
        system_audio: bool,
        microphone_selector: Option<String>,
        keep_audio: bool,
        language: String,
        auto_end_minutes: u64,
    ) -> (r: Result<(), &'static str>)
        ensures
            reserved(
                old(self)@,
                final(self)@,
                Command::StartLive {
                    stop: old(self)@.next_token,
                    title,
                    microphone,
                    system_audio,
                    microphone_selector,
                    keep_audio,
                    language,
                    auto_end_minutes,
                },
                r,
            ),
    {
        if self.active {
            return Err("Finish the current meeting first.");
        }
        let stop: u64 = self.draw_token();
        self.reserve_and_send(
            Command::StartLive {
                stop,
                title,
                microphone,
                system_audio,
                microphone_selector,
                keep_audio,
                language,
                auto_end_minutes,
            },
            stop,
        )
    }

    /// Imports a recording.
    pub fn import(&mut self, path: P, title: String, language: String) -> (r: Result<
        (),
        &'static str,
    >)
        ensures
            reserved(
                old(self)@,
                final(self)@,
                Command::Import { stop: old(self)@.next_token, path, title, language },
                r,
            ),
    {
        if self.active {
            return Err("Finish the current meeting first.");
        }
        let stop: u64 = self.draw_token();
        self.reserve_and_send(Command::Import { stop, path, title, language }, stop)
    }

    /// Tells the meeting that runs to stop.
    pub fn stop(&mut self) -> (r: Result<(), &'static str>)
        ensures
            match old(self)@.stop {
                Some(token) => r is Ok && final(self)@ == (BridgeView {
                    stop: Some(StopToken { raised: true, ..token }),
                    ..old(self)@
                }),
                None => r is Err && r->Err_0@ == "No meeting is recording or importing."@ && final(
                    self)@ == old(self)@,
            },
    {
        match self.stop {
            Some(token) => {
                self.stop = Some(StopToken { id: token.id, raised: true });
                Ok(())
            },
            None => Err("No meeting is recording or importing."),
        }
    }

    /// Was that meeting told to stop?
    pub fn is_stopped(&self, token: u64) -> (r: bool)
        ensures
            r == (self@.stop is Some && self@.stop->0.id == token && self@.stop->0.raised),
    {
        match self.stop {
            Some(current) => current.id == token && current.raised,
            None => false,
        }
    }

    /// An answer to the question whether to end.
    pub fn auto_end_action(&mut self, id: u64, action: EndAction)
        ensures
            final(self)@ == answered(old(self)@, id, action),
    {
        let asked_now = match self.auto_end_notice {
            Some(notice) => notice.id == id,
            None => false,
        };
        if !self.active || !asked_now {
            return ;
        }
        if self.auto_end_actions.len() >= MAX_PENDING_ANSWERS {
            return ;
        }
        let mut i: usize = 0;
        while i < self.auto_end_actions.len()
            invariant
                i <= self.auto_end_actions@.len(),
                *self == *old(self),
                self@.active,
                self@.notice is Some && self@.notice->0.id == id,
                self.auto_end_actions@.len() < MAX_PENDING_ANSWERS,
                forall|k: int|
                    0 <= k < i ==> #[trigger] self.auto_end_actions@[k] != (id, action),
            decreases self.auto_end_actions@.len() - i,
        {
            let waiting = self.auto_end_actions[i];
            if waiting.0 == id && waiting.1 == action {
                assert(self.auto_end_actions@[i as int] == (id, action));
                return ;
            }
            i += 1;
        }
        assert(!self@.answers.contains((id, action)));
        self.auto_end_actions.push((id, action));
    }

    /// All answers that wait, for the meeting's worker.
    pub fn take_answers(&mut self) -> (r: Vec<(u64, EndAction)>)
        ensures
            r@ == old(self)@.answers,
            final(self)@ == (BridgeView { answers: Seq::empty(), ..old(self)@ }),
    {
        let mut r: Vec<(u64, EndAction)> = Vec::new();
        r.append(&mut self.auto_end_actions);
        r
    }

    /// Asks the question, or withdraws it.
    pub fn set_auto_end_notice(&mut self, notice: Option<AutoEndNotice>)
        ensures
            final(self)@ == asked(old(self)@, notice),
    {
        let changed = match (self.auto_end_notice, notice) {
            (Some(a), Some(b)) => a != b,
            (None, None) => false,
            _ => true,
        };
        if changed {
            self.auto_end_notice = notice;
            self.bump();
        }
    }

    /// The next revision.
    fn bump(&mut self)
        ensures
            final(self)@ == (BridgeView { revision: next(old(self)@.revision), ..old(self)@ }),
    {
        self.revision = if self.revision == u64::MAX {
            0
        } else {
            self.revision + 1
        };
    }

    /// Shows a saved meeting.
    pub fn select(&mut self, id: String) -> (r: Result<(), &'static str>)
        ensures
            sent(old(self)@, final(self)@, Command::Select(id), r),
    {
        self.send(Command::Select(id))
    }

    /// Deletes a saved meeting.
    pub fn delete(&mut self, id: String) -> (r: Result<(), &'static str>)
        ensures
            sent(old(self)@, final(self)@, Command::Delete(id), r),
    {
        self.send(Command::Delete(id))
    }

    /// Gives a saved meeting another title.
    pub fn rename(&mut self, id: String, title: String) -> (r: Result<(), &'static str>)
        ensures
            sent(old(self)@, final(self)@, Command::Rename(id, title), r),
    {
        self.send(Command::Rename(id, title))
    }

    /// Gives a participant of a saved meeting another name.
    pub fn rename_speaker(&mut self, id: String, speaker_id: String, label: String) -> (r: Result<
        (),
        &'static str,
    >)
        ensures
            sent(old(self)@, final(self)@, Command::RenameSpeaker(id, speaker_id, label), r),
    {
        self.send(Command::RenameSpeaker(id, speaker_id, label))
    }

    /// Marks a moment. One of the meeting that runs waits for its worker; one of a
    /// saved meeting is a command.
    pub fn bookmark(&mut self, id: String, at_ms: u64, label: String) -> (r: Result<
        (),
        &'static str,
    >)
        ensures
            if old(self)@.active {
                match mark_error(old(self)@, id@, label@) {
                    None => r is Ok && final(self)@ == (BridgeView {
                        bookmarks: old(self)@.bookmarks.push((at_ms, mark_label(label@))),
                        ..old(self)@
                    }),
                    Some(e) => r is Err && r->Err_0@ == e && final(self)@ == old(self)@,
                }
            } else {
                sent(old(self)@, final(self)@, Command::Bookmark(id, at_ms, label), r)
            },
    {
        if !self.active {
            return self.send(Command::Bookmark(id, at_ms, label));
        }
        let current = match &self.active_id {
            Some(running) => same(running, &id),
            None => false,
        };
        if !current {
            return Err("The active meeting is still starting or has changed.");
        }
        let short = truncate_utf8(trim(&label), MAX_BOOKMARK_BYTES);
        if short.unicode_len() == 0 || has_nul(short) {
            return Err("Enter a bookmark label.");
        }
        if self.pending_bookmarks.len() >= MAX_PENDING_BOOKMARKS {
            return Err("Too many meeting bookmarks are waiting to save.");
        }
        self.pending_bookmarks.push((at_ms, short.to_owned()));
        assert(self@.bookmarks =~= old(self)@.bookmarks.push((at_ms, short@)));
        Ok(())
    }

    /// All marks that wait, for the meeting's worker.
    pub fn take_bookmarks(&mut self) -> (r: Vec<(u64, String)>)
        ensures
            bookmark_texts(r@) == old(self)@.bookmarks,
            final(self)@ == (BridgeView { bookmarks: Seq::empty(), ..old(self)@ }),
    {
        let mut r: Vec<(u64, String)> = Vec::new();
        r.append(&mut self.pending_bookmarks);
        assert(r@ =~= old(self).pending_bookmarks@);
        assert(self@.bookmarks =~= Seq::<(u64, Seq<char>)>::empty());
        r
    }

    /// Searches the saved meetings.
    pub fn search(&mut self, query: String) -> (r: Result<(), &'static str>)
        ensures
            sent(old(self)@, final(self)@, Command::Search(query), r),
    {
        self.send(Command::Search(query))
    }

    /// Meetings were saved from elsewhere: shows them, with a notice.
    pub fn refresh(&mut self, notice: String) -> (r: Result<(), &'static str>)
        ensures
            sent(old(self)@, final(self)@, Command::Refresh(notice), r),
    {
        self.send(Command::Refresh(notice))
    }

    /// Exports a saved meeting.
    pub fn export(&mut self, id: String, kind: ExportKind, path: P) -> (r: Result<
        (),
        &'static str,
    >)
        ensures
            sent(old(self)@, final(self)@, Command::Export(id, kind, path), r),
    {
        self.send(Command::Export(id, kind, path))
    }

    /// The program closes: the meeting that runs is told to stop.
    pub fn begin_shutdown(&mut self)
        ensures
            final(self)@ == (BridgeView {
                shutting_down: true,
                stop: match old(self)@.stop {
                    Some(token) => Some(StopToken { raised: true, ..token }),
                    None => None,
                },
                ..old(self)@
            }),
    {
        self.shutting_down = true;
        let _ = self.stop();
    }

    /// Tells the worker to end. Where there is no room for that yet, the caller
    /// waits and asks again.
    pub fn request_shutdown(&mut self) -> (r: Result<(), &'static str>)
        ensures
            sent(old(self)@, final(self)@, Command::Shutdown, r),
    {
        self.send(Command::Shutdown)
    }

    /// What is shown has changed: `detail` is the meeting that is looked at.
    pub fn publish(&mut self, detail: Option<&Meeting>)
        ensures
            final(self)@ == (BridgeView {
                recording: shown_recording(
                    old(self)@,
                    match detail {
                        Some(m) => Some(m@),
                        None => None,
                    },
                ),
                revision: next(old(self)@.revision),
                ..old(self)@
            }),
    {
        let mut attended_now = false;
        let mut keep = false;
        if self.active {
            if let Some(id) = &self.active_id {
                keep = true;
                if let Some(m) = detail {
                    attended_now = same(&m.id, id);
                }
            }
        }
        if !keep {
            self.recording = None;
        } else if attended_now {
            if let Some(m) = detail {
                self.recording = Some(
                    Recording {
                        id: m.id.clone(),
                        title: m.title.clone(),
                        started_at_ms: m.started_at_ms,
                        duration_ms: m.duration_ms,
                        status: m.status,
                        stopping: m.status == MeetingStatus::Processing
                            && m.ended_at_ms.is_some(),
                    },
                );
            }
        }
        self.bump();
    }

    /// The token of the meeting that runs.
    pub fn set_stop(&mut self, stop: Option<StopToken>)
        ensures
            final(self)@ == (BridgeView { stop, ..old(self)@ }),
    {
        self.stop = stop;
    }

    /// Gives the token back, unless it is another meeting's by now.
    pub fn clear_stop_if(&mut self, token: u64)
        ensures
            final(self)@ == released(old(self)@, token),
    {
        let own = match self.stop {
            Some(current) => current.id == token,
            None => false,
        };
        if own {
            self.stop = None;
        }
    }

    /// Another meeting runs now, or none does: then what waited for it is gone.
    pub fn set_active_meeting(&mut self, id: Option<String>)
        ensures
            final(self)@ == attended(old(self)@, optional_text(id)),
    {
        let none = id.is_none();
        self.active_id = id;
        if none {
            self.set_auto_end_notice(None);
            self.auto_end_actions = Vec::new();
            self.pending_bookmarks = Vec::new();
            assert(self@.bookmarks =~= Seq::<(u64, Seq<char>)>::empty());
        }
    }

    /// The worker of that meeting has ended.
    pub fn worker_ended(&mut self, token: u64)
        ensures
            final(self)@ == ended(old(self)@, token),
    {
        self.set_active_meeting(None);
        self.active = false;
        self.transcribing = false;
        self.clear_stop_if(token);
    }

    /// The worker of that meeting could not be started.
    pub fn worker_not_started(&mut self, token: u64)
        ensures
            final(self)@ == (BridgeView { active: false, ..released(old(self)@, token) }),
    {
        self.clear_stop_if(token);
        self.active = false;
    }

    /// A worker that had ended was seen off. A command that reserves the next
    /// meeting keeps its reservation.
    pub fn worker_reaped(&mut self, reserves: bool)
        ensures
            final(self)@ == attended(
                (BridgeView {
                    active: old(self)@.active && reserves,
                    stop: if reserves {
                        old(self)@.stop
                    } else {
                        None
                    },
                    transcribing: false,
                    ..old(self)@
                }),
                None,
            ),
    {
        if !reserves {
            self.stop = None;
            self.active = false;
        }
        self.transcribing = false;
        self.set_active_meeting(None);
    }
}

/// Does the text hold the character with number zero?
fn has_nul(s: &str) -> (r: bool)
    ensures
        r == s@.contains('\0'),
{
    let n: usize = s.unicode_len();
    let mut i: usize = 0;
    while i < n
        invariant
            i <= n,
            n == s@.len(),
            forall|k: int| 0 <= k < i ==> #[trigger] s@[k] != '\0',
        decreases n - i,
    {
        if s.get_char(i) == '\0' {
            assert(s@[i as int] == '\0');
            return true;
        }
        i += 1;
    }
    false
}

/// One meeting runs at a time: while one is reserved, no other can be, and the one
/// that runs keeps its token.
pub proof fn one_meeting_at_a_time<P>(
    before: BridgeView<P>,
    after: BridgeView<P>,
    command: Command<P>,
    r: Result<(), &'static str>,
)
    requires
        before.active,
        reserved(before, after, command, r),
    ensures
        r is Err,
        after == before,
{
}

/// A worker that ends late never takes the next meeting's token, so that meeting
/// can still be stopped.
pub proof fn a_late_worker_leaves_the_next_token<P>(b: BridgeView<P>, token: u64)
    requires
        b.stop is Some,
        b.stop->0.id != token,
    ensures
        ended(b, token).stop == b.stop,
        released(b, token).stop == b.stop,
{
}

/// An answer counts only for the meeting and the question that it was given to:
/// once no meeting is attended, no answer and no mark is left for the next one.
pub proof fn nothing_waits_for_another_meeting<P>(b: BridgeView<P>, id: u64, action: EndAction)
    ensures
        attended(b, None).answers.len() == 0,
        attended(b, None).bookmarks.len() == 0,
        answered(attended(b, None), id, action) == attended(b, None),
{
}

/// Nothing of what is shared grows without bound, whatever is done.
pub proof fn shared_state_stays_orderly<P>(
    b: BridgeView<P>,
    after: BridgeView<P>,
    command: Command<P>,
    r: Result<(), &'static str>,
    id: u64,
    action: EndAction,
    token: u64,
    notice: Option<AutoEndNotice>,
)
    requires
        orderly(b),
    ensures
        sent(b, after, command, r) ==> orderly(after),
        reserved(b, after, command, r) ==> orderly(after),
        orderly(answered(b, id, action)),
        orderly(attended(b, None)),
        orderly(asked(b, notice)),
        orderly(ended(b, token)),
        orderly(released(b, token)),
{
}

/// Looking at a saved meeting changes neither which meeting is shown as running
/// nor its clock.
pub proof fn browsing_keeps_the_recording<P>(b: BridgeView<P>, other: MeetingView)
    requires
        b.active,
        b.active_id is Some,
        other.id != b.active_id->0,
    ensures
        shown_recording(b, Some(other)) == b.recording,
{
}

/// An open service with room takes every command: it waits behind all that came
/// before it, and nothing else changes. Otherwise nothing changes at all.
pub proof fn an_open_service_takes_commands<P>(
    before: BridgeView<P>,
    after: BridgeView<P>,
    command: Command<P>,
    r: Result<(), &'static str>,
)
    requires
        sent(before, after, command, r),
    ensures
        r is Ok <==> before.service == Service::Open && before.commands.len() < 32,
        r is Ok ==> after.commands.len() == before.commands.len() + 1 && after.commands.last()
            == command && after.commands.drop_last() == before.commands && after == (BridgeView {
            commands: after.commands,
            ..before
        }),
        r is Err ==> after == before,
{
    if r is Ok {
        assert(after.commands.drop_last() =~= before.commands);
    }
}

/// A meeting is reserved exactly where none is active and the command can be sent. It
/// is then active at once, with a stop token of its own that nobody has raised; a
/// further one is refused until it has ended.
pub proof fn a_free_service_reserves_a_meeting<P>(
    before: BridgeView<P>,
    after: BridgeView<P>,
    command: Command<P>,
    r: Result<(), &'static str>,
)
    requires
        reserved(before, after, command, r),
    ensures
        r is Ok <==> !before.active && before.service == Service::Open && before.commands.len() < 32,
        r is Ok ==> {
            &&& after.active
            &&& after.commands.drop_last() == before.commands
            &&& after.commands.last() == command
            &&& after.stop == Some(StopToken { id: before.next_token, raised: false })
            &&& after.next_token != before.next_token
            &&& after.revision == before.revision && after.bookmarks == before.bookmarks
                && after.answers == before.answers && after.notice == before.notice
                && after.recording == before.recording && after.active_id == before.active_id
        },
        r is Err ==> after.active == before.active && after.commands == before.commands,
{
    if r is Ok {
        assert(after.commands.drop_last() =~= before.commands);
    }
}

/// An answer to the question on screen is taken down, behind those before it; the same
/// answer once only, and none to another question or without a meeting.
pub proof fn answers_are_taken_down_once<P>(b: BridgeView<P>, id: u64, action: EndAction)
    ensures
        ({
            let after = answered(b, id, action);
            let asked_now = b.active && b.notice is Some && b.notice->0.id == id;
            &&& asked_now && b.answers.len() < 16 ==> after.answers.contains((id, action))
            &&& asked_now && b.answers.len() < 16 && !b.answers.contains((id, action))
                ==> after.answers.drop_last() == b.answers
            &&& answered(after, id, action) == after
            &&& !asked_now ==> after == b
            &&& after == (BridgeView { answers: after.answers, ..b })
            &&& forall|i: int|
                0 <= i < b.answers.len() ==> i < after.answers.len() && #[trigger] after.answers[i]
                    == b.answers[i]
        }),
{
    let after = answered(b, id, action);
    if b.active && b.notice is Some && b.notice->0.id == id && b.answers.len() < 16
        && !b.answers.contains((id, action)) {
        assert(after.answers[b.answers.len() as int] == (id, action));
        assert(after.answers.drop_last() =~= b.answers);
    }
}

/// A change of the question is told to those who watch, and only a change.
pub proof fn changed_questions_are_told<P>(b: BridgeView<P>, notice: Option<AutoEndNotice>)
    ensures
        asked(b, notice).notice == notice,
        asked(b, notice).revision != b.revision <==> b.notice != notice,
        asked(asked(b, notice), notice) == asked(b, notice),
        asked(b, notice).answers == b.answers && asked(b, notice).active == b.active && asked(
            b,
            notice,
        ).commands == b.commands && asked(b, notice).stop == b.stop,
{
}

/// The end of a meeting leaves nothing of it: it is active no more, nothing is asked
/// and nothing waits; its stop token is gone, and the service takes the next one.
pub proof fn an_ended_meeting_leaves_nothing<P>(
    b: BridgeView<P>,
    token: u64,
    after: BridgeView<P>,
    command: Command<P>,
    r: Result<(), &'static str>,
)
    requires
        reserved(ended(b, token), after, command, r),
    ensures
        !ended(b, token).active,
        !ended(b, token).transcribing,
        ended(b, token).active_id is None,
        ended(b, token).notice is None,
        ended(b, token).answers.len() == 0,
        ended(b, token).bookmarks.len() == 0,
        b.stop is Some && b.stop->0.id == token ==> ended(b, token).stop is None,
        ended(b, token).commands == b.commands,
        b.service == Service::Open && b.commands.len() < 32 ==> r is Ok,
{
}

/// A bookmark is taken for the meeting that is active, with a label that says
/// something, while there is room for it; and in no other case.
pub proof fn bookmarks_are_taken_for_the_active_meeting<P>(
    b: BridgeView<P>,
    id: Seq<char>,
    label: Seq<char>,
)
    ensures
        mark_error(b, id, label) is None <==> {
            &&& b.active_id == Some(id)
            &&& mark_label(label).len() > 0
            &&& !mark_label(label).contains('\0')
            &&& b.bookmarks.len() < 256
        },
{
}

/// What is shown of the active meeting is what its own record says; without an active
/// meeting nothing is shown.
pub proof fn the_active_meeting_is_shown<P>(b: BridgeView<P>, m: MeetingView)
    ensures
        !b.active ==> shown_recording(b, Some(m)) is None,
        b.active && b.active_id == Some(m.id) ==> {
            let shown = shown_recording(b, Some(m));
            &&& shown is Some
            &&& shown->0.id == m.id && shown->0.title == m.title && shown->0.duration_ms
                == m.duration_ms && shown->0.status == m.status && shown->0.started_at_ms
                == m.started_at_ms
            &&& m.ended_at_ms is None ==> !shown->0.stopping
            &&& m.ended_at_ms is Some && m.status == MeetingStatus::Processing
                ==> shown->0.stopping
            &&& m.status != MeetingStatus::Processing ==> !shown->0.stopping
        },
{
}

} // verus!
