//! The worker that keeps the saved meetings: what it refuses while a meeting runs,
//! what it shows after each command, and what it says.

use crate::bridge::{Bridge, BridgeView, Command, ExportKind, StopToken};
use crate::record::MeetingStatus;
use crate::reminder::optional_text;
use crate::text::same;
use vstd::prelude::*;

verus! {

/// What is shown after a command.
#[derive(Debug, PartialEq, Eq)]
pub struct Note {
    pub error: Option<String>,
    pub notice: Option<String>,
}

/// The error that is shown.
pub open spec fn shows_error(note: Note, text: Seq<char>) -> bool {
    optional_text(note.error) == Some(text) && note.notice is None
}

/// The notice that is shown.
pub open spec fn shows_notice(note: Note, text: Seq<char>) -> bool {
    optional_text(note.notice) == Some(text) && note.error is None
}

/// A change of a saved meeting.
#[derive(Debug, Clone, Copy, PartialEq, Eq, Structural)]
pub enum Edit {
    Delete,
    Rename,
    RenameSpeaker,
    Bookmark,
}

/// How far a change came before it failed.
#[derive(Debug, Clone, Copy, PartialEq, Eq, Structural)]
pub enum Stage {
    Load,
    Change,
}

/// The thread that records or imports a meeting.
#[derive(Debug, Clone, Copy, PartialEq, Eq, Structural)]
pub enum Worker {
    Absent,
    Running,
    Finished,
}

/// How far an export came before it failed.
#[derive(Debug, Clone, Copy, PartialEq, Eq, Structural)]
pub enum ExportStage {
    Create,
    Write,
    Finish,
}

fn error_note(text: String) -> (r: Note)
    ensures
        shows_error(r, text@),
{
    Note { error: Some(text), notice: None }
}

fn notice_note(text: String) -> (r: Note)
    ensures
        shows_notice(r, text@),
{
    Note { error: None, notice: Some(text) }
}

fn prefixed(prefix: &str, text: &str) -> (r: String)
    ensures
        r@ == prefix@ + text@,
{
    let mut r = prefix.to_owned();
    r.append(text);
    r
}

/// Is the thread of an earlier meeting to be seen off before the command? A
/// command that reserves the next meeting waits for it.
pub fn sees_off(reserves: bool, worker: Worker) -> (r: bool)
    ensures
        r == (reserves || worker == Worker::Finished),
{
    reserves || worker == Worker::Finished
}

/// What is said of a thread that broke down.
pub open spec fn breakdown_text(imported: bool) -> Seq<char> {
    if imported {
        "The local meeting import worker stopped unexpectedly."@
    } else {
        "The local meeting worker stopped unexpectedly."@
    }
}

/// A thread broke down.
pub fn breakdown(imported: bool) -> (r: &'static str)
    ensures
        r@ == breakdown_text(imported),
{
    if imported {
        "The local meeting import worker stopped unexpectedly."
    } else {
        "The local meeting worker stopped unexpectedly."
    }
}

/// A recording or an import has ended.
pub fn meeting_ended(result: Result<(), String>, imported: bool) -> (r: Note)
    ensures
        match result {
            Ok(_) => shows_notice(
                r,
                if imported {
                    "Imported meeting saved locally."@
                } else {
                    "Meeting saved locally."@
                },
            ),
            Err(error) => shows_error(r, error@),
        },
{
    match result {
        Ok(_) => {
            if imported {
                notice_note("Imported meeting saved locally.".to_owned())
            } else {
                notice_note("Meeting saved locally.".to_owned())
            }
        },
        Err(error) => error_note(error),
    }
}

/// The thread could not be started.
pub fn meeting_not_started(error: &str, imported: bool) -> (r: Note)
    ensures
        shows_error(
            r,
            (if imported {
                "Could not start the import worker: "@
            } else {
                "Could not start the meeting worker: "@
            }) + error@,
        ),
{
    if imported {
        error_note(prefixed("Could not start the import worker: ", error))
    } else {
        error_note(prefixed("Could not start the meeting worker: ", error))
    }
}

/// What is said where a saved meeting may not be changed because one runs.
pub open spec fn refusal_text(edit: Edit) -> Seq<char> {
    match edit {
        Edit::Delete => "Stop recording before deleting a meeting."@,
        Edit::Rename => "Stop the current meeting before renaming it."@,
        Edit::RenameSpeaker => "Stop the current meeting before renaming a speaker."@,
        Edit::Bookmark => "Stop the current meeting before adding a bookmark."@,
    }
}

/// Is the change refused? It is while a meeting runs.
pub fn edit_refused(edit: Edit, active: bool) -> (r: Option<&'static str>)
    ensures
        match r {
            Some(text) => active && text@ == refusal_text(edit),
            None => !active,
        },
{
    if !active {
        return None;
    }
    Some(
        match edit {
            Edit::Delete => "Stop recording before deleting a meeting.",
            Edit::Rename => "Stop the current meeting before renaming it.",
            Edit::RenameSpeaker => "Stop the current meeting before renaming a speaker.",
            Edit::Bookmark => "Stop the current meeting before adding a bookmark.",
        },
    )
}

/// What is said where a change failed.
pub open spec fn failure_text(edit: Edit, stage: Stage, error: Seq<char>) -> Seq<char> {
    if edit == Edit::Delete {
        "Could not delete meeting: "@ + error
    } else if stage == Stage::Load {
        "Could not load meeting: "@ + error
    } else {
        match edit {
            Edit::Delete => error,
            Edit::Rename => "Could not rename meeting: "@ + error,
            Edit::RenameSpeaker => error,
            Edit::Bookmark => "Could not add bookmark: "@ + error,
        }
    }
}

/// A change failed.
pub fn edit_failed(edit: Edit, stage: Stage, error: &str) -> (r: Note)
    ensures
        shows_error(r, failure_text(edit, stage, error@)),
{
    if edit == Edit::Delete {
        error_note(prefixed("Could not delete meeting: ", error))
    } else if stage == Stage::Load {
        error_note(prefixed("Could not load meeting: ", error))
    } else {
        match edit {
            Edit::Delete => error_note(error.to_owned()),
            Edit::Rename => error_note(prefixed("Could not rename meeting: ", error)),
            Edit::RenameSpeaker => error_note(error.to_owned()),
            Edit::Bookmark => error_note(prefixed("Could not add bookmark: ", error)),
        }
    }
}

/// A change was saved. Something that could not be cleaned up is said instead.
pub fn edit_done(edit: Edit, warning: Option<String>) -> (r: Note)
    ensures
        shows_notice(
            r,
            match warning {
                Some(text) => text@,
                None => match edit {
                    Edit::Delete => "Meeting deleted from this device."@,
                    Edit::Rename => "Meeting renamed."@,
                    Edit::RenameSpeaker => "Speaker renamed."@,
                    Edit::Bookmark => "Bookmark added."@,
                },
            },
        ),
{
    match warning {
        Some(text) => notice_note(text),
        None => match edit {
            Edit::Delete => notice_note("Meeting deleted from this device.".to_owned()),
            Edit::Rename => notice_note("Meeting renamed.".to_owned()),
            Edit::RenameSpeaker => notice_note("Speaker renamed.".to_owned()),
            Edit::Bookmark => notice_note("Bookmark added.".to_owned()),
        },
    }
}

/// May an export be written there? Never over a file that exists.
pub fn export_target(exists: bool) -> (r: Result<(), &'static str>)
    ensures
        match r {
            Ok(_) => !exists,
            Err(e) => exists && e@
                == "The export target already exists; choose a new file name."@,
        },
{
    if exists {
        Err("The export target already exists; choose a new file name.")
    } else {
        Ok(())
    }
}

/// An export failed.
pub fn export_failed(stage: ExportStage, error: &str) -> (r: String)
    ensures
        r@ == (match stage {
            ExportStage::Create => "Could not create export: "@,
            ExportStage::Write => "Could not write export: "@,
            ExportStage::Finish => "Could not finish export: "@,
        }) + error@,
{
    match stage {
        ExportStage::Create => prefixed("Could not create export: ", error),
        ExportStage::Write => prefixed("Could not write export: ", error),
        ExportStage::Finish => prefixed("Could not finish export: ", error),
    }
}

/// An export has ended.
pub fn exported(result: Result<(), String>, path: &str) -> (r: Note)
    ensures
        match result {
            Ok(_) => shows_notice(r, "Exported to "@ + path@),
            Err(error) => shows_error(r, error@),
        },
{
    match result {
        Ok(_) => notice_note(prefixed("Exported to ", path)),
        Err(error) => error_note(error),
    }
}

/// The phase that is shown: a meeting that is being processed says so, whatever
/// else happens to it.
pub fn shown_phase(status: MeetingStatus, phase: &str) -> (r: String)
    ensures
        r@ == (if status == MeetingStatus::Processing {
            "processing"@
        } else {
            phase@
        }),
{
    if status == MeetingStatus::Processing {
        "processing".to_owned()
    } else {
        phase.to_owned()
    }
}

/// The meeting that is looked at.
#[derive(Debug)]
pub struct Selection {
    id: Option<String>,
}

impl View for Selection {
    type V = Option<Seq<char>>;

    closed spec fn view(&self) -> Option<Seq<char>> {
        optional_text(self.id)
    }
}

impl Selection {
    /// None is.
    pub fn new() -> (r: Self)
        ensures
            r@ is None,
    {
        Selection { id: None }
    }

    /// This one is.
    pub fn select(&mut self, id: String)
        ensures
            final(self)@ == Some(id@),
    {
        self.id = Some(id);
    }

    /// A meeting was deleted: it is no longer looked at.
    pub fn deleted(&mut self, id: &str)
        ensures
            final(self)@ == (if old(self)@ == Some(id@) {
                None
            } else {
                old(self)@
            }),
    {
        let own = match &self.id {
            Some(selected) => same(selected, id),
            None => false,
        };
        if own {
            self.id = None;
        }
    }

    /// The meeting whose details are shown: the one that is looked at, or the one
    /// that was shown before.
    pub fn detail(&self, previous: Option<String>) -> (r: Option<String>)
        ensures
            optional_text(r) == (if self@ is Some {
                self@
            } else {
                optional_text(previous)
            }),
    {
        match &self.id {
            Some(id) => Some(id.clone()),
            None => previous,
        }
    }
}

/// What a command comes to. What the file system or a thread has to do for it is
/// done by the caller, who reports the outcome to `edit_done` and its like.
#[derive(Debug)]
pub enum Work<P> {
    /// Record a meeting on a thread of its own.
    Record {
        stop: u64,
        title: String,
        microphone: bool,
        system_audio: bool,
        microphone_selector: Option<String>,
        keep_audio: bool,
        language: String,
        auto_end_minutes: u64,
    },
    /// Import one on a thread of its own.
    Import { stop: u64, path: P, title: String, language: String },
    /// Only show what has changed.
    Show(Note),
    Delete(String),
    Rename(String, String),
    RenameSpeaker(String, String, String),
    Bookmark(String, u64, String),
    Search(String),
    Export(String, ExportKind, P),
    /// Wait for the thread of the meeting that runs, and end.
    Exit,
}

/// The change of a saved meeting that a command asks for, where it asks for one.
pub open spec fn edit_of<P>(command: Command<P>) -> Option<Edit> {
    match command {
        Command::Delete(_) => Some(Edit::Delete),
        Command::Rename(_, _) => Some(Edit::Rename),
        Command::RenameSpeaker(_, _, _) => Some(Edit::RenameSpeaker),
        Command::Bookmark(_, _, _) => Some(Edit::Bookmark),
        _ => None,
    }
}

/// The command reserves the meeting that may run.
pub open spec fn reserves<P>(command: Command<P>) -> bool {
    command is StartLive || command is Import
}

/// `work` is what the command comes to while a meeting runs or does not.
pub open spec fn comes_to<P>(command: Command<P>, active: bool, work: Work<P>) -> bool {
    match edit_of(command) {
        Some(edit) if active => work is Show && shows_error(work->Show_0, refusal_text(edit)),
        _ => match command {
            Command::StartLive {
                stop,
                title,
                microphone,
                system_audio,
                microphone_selector,
                keep_audio,
                language,
                auto_end_minutes,
            } => work == (Work::<P>::Record {
                stop,
                title,
                microphone,
                system_audio,
                microphone_selector,
                keep_audio,
                language,
                auto_end_minutes,
            }),
            Command::Import { stop, path, title, language } => work == (Work::<P>::Import {
                stop,
                path,
                title,
                language,
            }),
            Command::Select(_) => work is Show && work->Show_0.error is None
                && work->Show_0.notice is None,
            Command::Delete(id) => work == Work::<P>::Delete(id),
            Command::Rename(id, title) => work == Work::<P>::Rename(id, title),
            Command::RenameSpeaker(id, speaker, label) => work == Work::<P>::RenameSpeaker(
                id,
                speaker,
                label,
            ),
            Command::Bookmark(id, at, label) => work == Work::<P>::Bookmark(id, at, label),
            Command::Search(query) => work == Work::<P>::Search(query),
            Command::Export(id, kind, path) => work == Work::<P>::Export(id, kind, path),
            Command::Refresh(notice) => work is Show && shows_notice(work->Show_0, notice@),
            Command::Shutdown => work is Exit,
        },
    }
}

/// Does the command reserve the meeting that may run?
pub fn reserves_meeting<P>(command: &Command<P>) -> (r: bool)
    ensures
        r == reserves(*command),
{
    match command {
        Command::StartLive { .. } => true,
        Command::Import { .. } => true,
        _ => false,
    }
}

fn refused<P>(edit: Edit) -> (r: Work<P>)
    ensures
        r is Show && shows_error(r->Show_0, refusal_text(edit)),
{
    match edit_refused(edit, true) {
        Some(text) => Work::Show(error_note(text.to_owned())),
        None => Work::Show(error_note("".to_owned())),
    }
}

impl Selection {
    /// Takes a command in. Only one that selects a meeting changes which one is
    /// looked at, and only one that ends the worker tells a running meeting to
    /// stop.
    pub fn dispatch<P>(&mut self, command: Command<P>, bridge: &mut Bridge<P>) -> (r: Work<P>)
        ensures
            comes_to(command, old(bridge)@.active, r),
            final(self)@ == (match command {
                Command::Select(id) => Some(id@),
                _ => old(self)@,
            }),
            final(bridge)@ == (if command is Shutdown {
                BridgeView {
                    stop: match old(bridge)@.stop {
                        Some(token) => Some(StopToken { raised: true, ..token }),
                        None => None,
                    },
                    ..old(bridge)@
                }
            } else {
                old(bridge)@
            }),
    {
        let active = bridge.is_active();
        match command {
            Command::StartLive {
                stop,
                title,
                microphone,
                system_audio,
                microphone_selector,
                keep_audio,
                language,
                auto_end_minutes,
            } => Work::Record {
                stop,
                title,
                microphone,
                system_audio,
                microphone_selector,
                keep_audio,
                language,
                auto_end_minutes,
            },
            Command::Import { stop, path, title, language } => Work::Import {
                stop,
                path,
                title,
                language,
            },
            Command::Select(id) => {
                self.select(id);
                Work::Show(Note { error: None, notice: None })
            },
            Command::Refresh(notice) => Work::Show(notice_note(notice)),
            Command::Search(query) => Work::Search(query),
            Command::Export(id, kind, path) => Work::Export(id, kind, path),
            Command::Shutdown => {
                let _ = bridge.stop();
                Work::Exit
            },
            Command::Delete(id) => {
                if active {
                    refused(Edit::Delete)
                } else {
                    Work::Delete(id)
                }
            },
            Command::Rename(id, title) => {
                if active {
                    refused(Edit::Rename)
                } else {
                    Work::Rename(id, title)
                }
            },
            Command::RenameSpeaker(id, speaker, label) => {
                if active {
                    refused(Edit::RenameSpeaker)
                } else {
                    Work::RenameSpeaker(id, speaker, label)
                }
            },
            Command::Bookmark(id, at_ms, label) => {
                if active {
                    refused(Edit::Bookmark)
                } else {
                    Work::Bookmark(id, at_ms, label)
                }
            },
        }
    }
}

/// While a meeting runs no saved meeting is deleted, renamed or marked, whatever
/// command comes.
pub proof fn a_running_meeting_protects_the_saved_ones<P>(command: Command<P>, work: Work<P>)
    requires
        comes_to(command, true, work),
    ensures
        !(work is Delete || work is Rename || work is RenameSpeaker || work is Bookmark),
{
}

/// While no meeting is active, each command is carried out with what it was given; a
/// meeting that is active stands in the way of changes to saved ones alone.
pub proof fn commands_are_carried_out<P>(command: Command<P>, active: bool, work: Work<P>)
    requires
        comes_to(command, active, work),
    ensures
        command matches Command::Search(query) ==> work == Work::<P>::Search(query),
        command matches Command::Export(id, kind, path) ==> work == Work::<P>::Export(
            id,
            kind,
            path,
        ),
        command is Shutdown <==> work is Exit,
        command is StartLive <==> work is Record,
        command is Import <==> work is Import,
        !active ==> {
            &&& command matches Command::Delete(id) ==> work == Work::<P>::Delete(id)
            &&& command matches Command::Rename(id, title) ==> work == Work::<P>::Rename(id, title)
            &&& command matches Command::RenameSpeaker(id, speaker, name) ==> work
                == Work::<P>::RenameSpeaker(id, speaker, name)
            &&& command matches Command::Bookmark(id, at, name) ==> work == Work::<P>::Bookmark(
                id,
                at,
                name,
            )
        },
        work is Show && work->Show_0.error is Some ==> active && (command is Delete || command
            is Rename || command is RenameSpeaker || command is Bookmark),
{
}

} // verus!
