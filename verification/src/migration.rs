//! Imports of dictionaries and snippets: a preview changes nothing, a commit holds
//! only for the preview and the document that it was made of, and an undo refuses
//! where anything was changed since.

use crate::dictionary::{
    an_edit_keeps_marks_told, an_edit_reads_back, document_rules,
    entries_are_written_as_single_lines, format_rule, line_rule, mark, mark_told,
    normalize_rule_lines, normalized, parsed, rewritten, rule_at, rule_line, rule_text, rules_in,
    rules_that_were_added_can_be_taken_out, rules_view, save_rules_document_if_current, saved, stale_edits_change_nothing, text_in, utf8_text,
    written_rule_reads_back, DictionaryError, Limits, RuleView, RulesRevision, RulesSaveError,
    SavedRules,
};
use crate::digest::{digest_form, sha256_hex, sha256_text};
use crate::json::{field_is, field_text, optional_field, text_of_field, JsonField};
use crate::lines::lines;
use crate::locks::Platform;
use crate::reminder::optional_text;
use crate::seqs::first_where;
use crate::text::{lowercase, same, texts, unicode_lowercase};
use vstd::prelude::*;
use vstd::utf8::{encode_utf8, valid_utf8};

verus! {

/// The two collections that can be imported.
#[derive(Debug, Clone, Copy, PartialEq, Eq, Structural)]
pub enum Kind {
    Dictionary,
    Snippets,
}

/// One entry of a collection.
#[derive(Debug, PartialEq, Eq)]
pub struct Entry {
    pub name: String,
    pub text: String,
}

/// What an entry says.
pub struct EntryView {
    pub name: Seq<char>,
    pub text: Seq<char>,
}

impl View for Entry {
    type V = EntryView;

    open spec fn view(&self) -> EntryView {
        EntryView { name: self.name@, text: self.text@ }
    }
}

/// What the entries say.
pub open spec fn entries_view(s: Seq<Entry>) -> Seq<EntryView> {
    s.map_values(|e: Entry| e@)
}

/// What is asked for.
#[derive(Debug, Clone, Copy, PartialEq, Eq, Structural)]
pub enum Operation {
    Load,
    Preview,
    Commit,
    Undo,
    DeleteSnippet,
    Export,
}

/// An import that was shown and not confirmed yet.
#[derive(Debug)]
pub struct Pending {
    pub token: u64,
    pub kind: Kind,
    pub revision: String,
    pub before: Vec<Entry>,
    pub merged: Vec<Entry>,
    pub added: usize,
}

/// What is said of such an import.
pub struct PendingView {
    pub token: u64,
    pub kind: Kind,
    pub revision: Seq<char>,
    pub before: Seq<EntryView>,
    pub merged: Seq<EntryView>,
    pub added: usize,
}

impl View for Pending {
    type V = PendingView;

    open spec fn view(&self) -> PendingView {
        PendingView {
            token: self.token,
            kind: self.kind,
            revision: self.revision@,
            before: entries_view(self.before@),
            merged: entries_view(self.merged@),
            added: self.added,
        }
    }
}

/// What the last import replaced.
#[derive(Debug)]
pub struct Undo {
    pub token: u64,
    pub kind: Kind,
    pub revision: String,
    pub before: Vec<Entry>,
}

/// What is said of what it replaced.
pub struct UndoView {
    pub token: u64,
    pub kind: Kind,
    pub revision: Seq<char>,
    pub before: Seq<EntryView>,
}

impl View for Undo {
    type V = UndoView;

    open spec fn view(&self) -> UndoView {
        UndoView {
            token: self.token,
            kind: self.kind,
            revision: self.revision@,
            before: entries_view(self.before@),
        }
    }
}

/// The imports of one run of the program.
#[derive(Debug)]
pub struct Session {
    serial: u64,
    pending: Option<Pending>,
    undo: Option<Undo>,
}

/// What is said of them.
pub struct SessionView {
    pub serial: u64,
    pub pending: Option<PendingView>,
    pub undo: Option<UndoView>,
}

impl View for Session {
    type V = SessionView;

    closed spec fn view(&self) -> SessionView {
        SessionView {
            serial: self.serial,
            pending: match self.pending {
                Some(p) => Some(p@),
                None => None,
            },
            undo: match self.undo {
                Some(u) => Some(u@),
                None => None,
            },
        }
    }
}

/// No token is newer than the last one that was given out.
pub open spec fn orderly(s: SessionView) -> bool {
    &&& s.pending is Some ==> s.pending->0.token <= s.serial
    &&& s.undo is Some ==> s.undo->0.token <= s.serial
}

/// Why an import cannot be confirmed, where it cannot.
pub open spec fn commit_error(s: SessionView, token: Option<u64>, kind: Kind) -> Option<
    Seq<char>,
> {
    match s.pending {
        None => Some("Preview the import first"@),
        Some(p) => if token != Some(p.token) || kind != p.kind {
            Some("This preview is no longer current. Preview again."@)
        } else if p.added == 0 {
            Some("There are no new entries to import."@)
        } else {
            None
        },
    }
}

/// The session once the import is saved as that revision.
pub open spec fn committed(s: SessionView, revision: Seq<char>) -> SessionView {
    match s.pending {
        Some(p) => SessionView {
            pending: None,
            undo: Some(UndoView { token: p.token, kind: p.kind, revision, before: p.before }),
            ..s
        },
        None => s,
    }
}

/// Why an import cannot be undone, where it cannot.
pub open spec fn undo_error(s: SessionView, token: Option<u64>) -> Option<Seq<char>> {
    match s.undo {
        None => Some("There is no import to undo in this app session"@),
        Some(u) => if token != Some(u.token) {
            Some("This Undo action is no longer current."@)
        } else {
            None
        },
    }
}

/// The session once the import is undone.
pub open spec fn undone(s: SessionView) -> SessionView {
    SessionView { pending: None, undo: None, ..s }
}

/// The session once another import is shown.
pub open spec fn previewed(
    s: SessionView,
    kind: Kind,
    revision: Seq<char>,
    before: Seq<EntryView>,
    merged: Seq<EntryView>,
    added: usize,
) -> SessionView {
    SessionView {
        serial: (s.serial + 1) as u64,
        pending: Some(
            PendingView {
                token: (s.serial + 1) as u64,
                kind,
                revision,
                before,
                merged,
                added,
            },
        ),
        ..s
    }
}

impl Session {
    /// Nothing was imported yet.
    pub fn new() -> (r: Self)
        ensures
            r@ == (SessionView { serial: 0, pending: None, undo: None }),
    {
        Session { serial: 0, pending: None, undo: None }
    }

    /// The token by which the last import can be undone.
    pub fn undo_token(&self) -> (r: Option<u64>)
        ensures
            r == (match self@.undo {
                Some(u) => Some(u.token),
                None => None,
            }),
    {
        match &self.undo {
            Some(u) => Some(u.token),
            None => None,
        }
    }

    /// Can another import be shown under a token of its own?
    pub fn has_tokens_left(&self) -> (r: bool)
        ensures
            r == (self@.serial < u64::MAX),
    {
        self.serial < u64::MAX
    }

    /// Another import is about to be read: the last one that was shown no longer
    /// counts, whatever comes of it.
    pub fn drop_preview(&mut self)
        ensures
            final(self)@ == (SessionView { pending: None, ..old(self)@ }),
    {
        self.pending = None;
    }

    /// Shows an import, under a new token.
    pub fn show_preview(
        &mut self,
        kind: Kind,
        revision: String,
        before: Vec<Entry>,
        merged: Vec<Entry>,
        added: usize,
    ) -> (r: u64)
        requires
            old(self)@.serial < u64::MAX,
        ensures
            r == old(self)@.serial + 1,
            final(self)@ == previewed(
                old(self)@,
                kind,
                revision@,
                entries_view(before@),
                entries_view(merged@),
                added,
            ),
    {
        self.serial = self.serial + 1;
        let token: u64 = self.serial;
        self.pending = Some(Pending { token, kind, revision, before, merged, added });
        token
    }

    /// The import that is to be saved, or why it is not. Nothing changes yet.
    pub fn check_commit(&self, token: Option<u64>, kind: Kind) -> (r: Result<
        &Pending,
        &'static str,
    >)
        ensures
            match commit_error(self@, token, kind) {
                None => r is Ok && self@.pending == Some(r->Ok_0@),
                Some(e) => r is Err && r->Err_0@ == e,
            },
    {
        match &self.pending {
            None => Err("Preview the import first"),
            Some(p) => {
                let current = match token {
                    Some(t) => t == p.token,
                    None => false,
                };
                if !current || kind != p.kind {
                    Err("This preview is no longer current. Preview again.")
                } else if p.added == 0 {
                    Err("There are no new entries to import.")
                } else {
                    Ok(p)
                }
            },
        }
    }

    /// The import was saved as that revision. Says by which token it can be undone.
    pub fn commit(&mut self, revision: String) -> (r: Option<u64>)
        ensures
            final(self)@ == committed(old(self)@, revision@),
            r == (match old(self)@.pending {
                Some(p) => Some(p.token),
                None => None,
            }),
    {
        match self.pending.take() {
            Some(p) => {
                let token: u64 = p.token;
                self.undo = Some(Undo { token, kind: p.kind, revision, before: p.before });
                Some(token)
            },
            None => None,
        }
    }

    /// What an undo puts back, or why it does not. Nothing changes yet.
    pub fn check_undo(&self, token: Option<u64>) -> (r: Result<&Undo, &'static str>)
        ensures
            match undo_error(self@, token) {
                None => r is Ok && self@.undo == Some(r->Ok_0@),
                Some(e) => r is Err && r->Err_0@ == e,
            },
    {
        match &self.undo {
            None => Err("There is no import to undo in this app session"),
            Some(u) => {
                let current = match token {
                    Some(t) => t == u.token,
                    None => false,
                };
                if current {
                    Ok(u)
                } else {
                    Err("This Undo action is no longer current.")
                }
            },
        }
    }

    /// What the import replaced was put back.
    pub fn finish_undo(&mut self)
        ensures
            final(self)@ == undone(old(self)@),
    {
        self.undo = None;
        self.pending = None;
    }
}

/// A commit holds for the preview that was shown last and for no other; it holds
/// once, and what it replaced is what its undo puts back.
pub proof fn a_preview_is_committed_once(
    s: SessionView,
    token: Option<u64>,
    kind: Kind,
    revision: Seq<char>,
)
    requires
        orderly(s),
        commit_error(s, token, kind) is None,
    ensures
        token == Some(s.pending->0.token),
        commit_error(committed(s, revision), token, kind) is Some,
        undo_error(committed(s, revision), token) is None,
        committed(s, revision).undo->0.before == s.pending->0.before,
        committed(s, revision).undo->0.revision == revision,
        orderly(committed(s, revision)),
{
}

/// Every preview has a token of its own: an older token neither commits it nor
/// undoes it.
pub proof fn tokens_never_return(
    s: SessionView,
    kind: Kind,
    revision: Seq<char>,
    before: Seq<EntryView>,
    merged: Seq<EntryView>,
    added: usize,
    older: u64,
    saved_as: Seq<char>,
)
    requires
        orderly(s),
        s.serial < u64::MAX,
        older <= s.serial,
    ensures
        orderly(previewed(s, kind, revision, before, merged, added)),
        commit_error(previewed(s, kind, revision, before, merged, added), Some(older), kind) is Some,
        undo_error(
            committed(previewed(s, kind, revision, before, merged, added), saved_as),
            Some(older),
        ) is Some,
{
}

/// An import is undone once.
pub proof fn an_import_is_undone_once(s: SessionView, token: Option<u64>)
    ensures
        undo_error(undone(s), token) is Some,
        orderly(undone(s)),
{
}

/// The collection that is named.
pub open spec fn named_kind(name: Option<Seq<char>>) -> Option<Kind> {
    if name == Some("dictionary"@) {
        Some(Kind::Dictionary)
    } else if name == Some("snippets"@) {
        Some(Kind::Snippets)
    } else {
        None
    }
}

/// The operation that is named.
pub open spec fn named_operation(name: Seq<char>) -> Option<Operation> {
    if name == "load"@ {
        Some(Operation::Load)
    } else if name == "preview"@ || name == "pick"@ {
        Some(Operation::Preview)
    } else if name == "commit"@ {
        Some(Operation::Commit)
    } else if name == "undo"@ {
        Some(Operation::Undo)
    } else if name == "delete_snippet"@ {
        Some(Operation::DeleteSnippet)
    } else if name == "export"@ {
        Some(Operation::Export)
    } else {
        None
    }
}

/// Why a request is refused, where it is.
pub open spec fn request_error(op: Option<Seq<char>>, kind: Option<Seq<char>>) -> Option<Seq<char>> {
    if op is None {
        Some("Missing migration operation"@)
    } else if named_kind(kind) is None {
        Some("Choose Dictionary or Snippets"@)
    } else if named_operation(op->0) is None {
        Some("Unknown migration operation"@)
    } else {
        None
    }
}

/// What a request asks for, from two of its members.
pub fn migration_request(op: &Option<JsonField>, kind: &Option<JsonField>) -> (r: Result<
    (Operation, Kind),
    &'static str,
>)
    ensures
        ({
            let o = text_of_field(optional_field(*op));
            let k = text_of_field(optional_field(*kind));
            match request_error(o, k) {
                None => r == Ok::<(Operation, Kind), &'static str>(
                    (named_operation(o->0)->0, named_kind(k)->0),
                ),
                Some(e) => r is Err && r->Err_0@ == e,
            }
        }),
{
    let name = match field_text(op) {
        Some(name) => name,
        None => {
            return Err("Missing migration operation");
        },
    };
    let kind = if field_is(kind, "dictionary") {
        Kind::Dictionary
    } else if field_is(kind, "snippets") {
        Kind::Snippets
    } else {
        return Err("Choose Dictionary or Snippets");
    };
    if same(name, "load") {
        Ok((Operation::Load, kind))
    } else if same(name, "preview") || same(name, "pick") {
        Ok((Operation::Preview, kind))
    } else if same(name, "commit") {
        Ok((Operation::Commit, kind))
    } else if same(name, "undo") {
        Ok((Operation::Undo, kind))
    } else if same(name, "delete_snippet") {
        Ok((Operation::DeleteSnippet, kind))
    } else if same(name, "export") {
        Ok((Operation::Export, kind))
    } else {
        Err("Unknown migration operation")
    }
}

/// The text of an import: that of the file that was picked, or the one that was
/// pasted.
pub fn import_text(file: Option<Vec<u8>>, pasted: Option<String>) -> (r: Result<
    String,
    &'static str,
>)
    ensures
        match file {
            Some(bytes) => if valid_utf8(bytes@) {
                r is Ok && r->Ok_0@ == text_in(bytes@)
            } else {
                r is Err && r->Err_0@
                    == "The import must be UTF-8 CSV or JSON. No data was changed."@
            },
            None => match pasted {
                Some(text) => r == Ok::<String, &'static str>(text),
                None => r is Err && r->Err_0@ == "Paste CSV or JSON first"@,
            },
        },
{
    match file {
        Some(bytes) => match utf8_text(bytes) {
            Ok(text) => {
                proof {
                    vstd::utf8::encode_utf8_decode_utf8(text@);
                }
                Ok(text)
            },
            Err(_) => Err("The import must be UTF-8 CSV or JSON. No data was changed."),
        },
        None => match pasted {
            Some(text) => Ok(text),
            None => Err("Paste CSV or JSON first"),
        },
    }
}

/// The rules that the entries are written as.
pub open spec fn entry_lines(entries: Seq<EntryView>) -> Seq<Seq<char>> {
    entries.map_values(|e: EntryView| rule_line((e.name, e.text)))
}

/// The entries of a dictionary, one line each.
pub fn dictionary_lines(entries: &[Entry]) -> (r: Vec<String>)
    ensures
        texts(r@) == entry_lines(entries_view(entries@)),
{
    let ghost all = entry_lines(entries_view(entries@));
    let mut r: Vec<String> = Vec::new();
    let mut i: usize = 0;
    assert(texts(r@) =~= all.take(0));
    while i < entries.len()
        invariant
            i <= entries@.len(),
            all == entry_lines(entries_view(entries@)),
            texts(r@) == all.take(i as int),
        decreases entries@.len() - i,
    {
        let ghost before = texts(r@);
        r.push(format_rule(&entries[i].name, &entries[i].text));
        assert(entries_view(entries@)[i as int] == entries@[i as int]@);
        assert(texts(r@) =~= before.push(all[i as int]));
        assert(all.take(i + 1) =~= all.take(i as int).push(all[i as int]));
        i += 1;
    }
    assert(all.take(all.len() as int) =~= all);
    r
}

/// Why an import is neither saved nor undone.
#[derive(Debug, PartialEq, Eq)]
pub enum ImportError {
    /// It was not asked for as it should be.
    Refused(&'static str),
    /// The dictionary does not take it.
    Rules(RulesSaveError),
}

impl ImportError {
    /// The words for the error of the dictionary at `path`.
    pub fn message(&self, path: &str) -> (r: String)
        ensures
            match *self {
                ImportError::Refused(e) => r@ == e@,
                ImportError::Rules(e) => r@ == e.words(path@),
            },
    {
        match self {
            ImportError::Refused(e) => (*e).to_owned(),
            ImportError::Rules(e) => e.message(path),
        }
    }
}

/// `r` is what comes of saving the entries over the file, which has to be the one
/// of that revision.
pub open spec fn dictionary_saved(
    source: Seq<u8>,
    revision: Seq<char>,
    entries: Seq<EntryView>,
    limits: Limits,
    r: Result<SavedRules, ImportError>,
) -> bool {
    if digest_form(revision) {
        match r {
            Ok(s) => saved(source, revision, entry_lines(entries), limits, Ok(s)),
            Err(ImportError::Rules(e)) => saved(
                source,
                revision,
                entry_lines(entries),
                limits,
                Err(e),
            ),
            Err(ImportError::Refused(_)) => false,
        }
    } else {
        r matches Err(ImportError::Refused(e)) && e@
            == "dictionary revision is invalid; reload Dictionary and try again"@
    }
}

/// The dictionary with these entries, given the file that is on disk while the
/// writers' lock is held.
pub fn save_dictionary(
    source: &[u8],
    revision: &str,
    entries: &[Entry],
    limits: &Limits,
) -> (r: Result<SavedRules, ImportError>)
    ensures
        dictionary_saved(source@, revision@, entries_view(entries@), *limits, r),
{
    let expected = match RulesRevision::parse(revision) {
        Ok(expected) => expected,
        Err(e) => {
            return Err(ImportError::Refused(e));
        },
    };
    let lines = dictionary_lines(entries);
    match save_rules_document_if_current(source, &expected, &lines, limits) {
        Ok(s) => Ok(s),
        Err(e) => Err(ImportError::Rules(e)),
    }
}

impl Session {
    /// What the import that was shown leaves of the dictionary. Nothing counts as
    /// imported before that is written and `commit` is called.
    pub fn plan_dictionary_commit(&self, token: Option<u64>, source: &[u8], limits: &Limits) -> (r:
        Result<SavedRules, ImportError>)
        ensures
            match commit_error(self@, token, Kind::Dictionary) {
                None => dictionary_saved(
                    source@,
                    self@.pending->0.revision,
                    self@.pending->0.merged,
                    *limits,
                    r,
                ),
                Some(e) => r matches Err(ImportError::Refused(x)) && x@ == e,
            },
    {
        match self.check_commit(token, Kind::Dictionary) {
            Ok(p) => save_dictionary(source, &p.revision, &p.merged, limits),
            Err(e) => Err(ImportError::Refused(e)),
        }
    }

    /// What the undo of an import leaves of the dictionary. The import stands until
    /// that is written and `finish_undo` is called.
    pub fn plan_dictionary_undo(&self, token: Option<u64>, source: &[u8], limits: &Limits) -> (r:
        Result<SavedRules, ImportError>)
        ensures
            match undo_error(self@, token) {
                None => dictionary_saved(
                    source@,
                    self@.undo->0.revision,
                    self@.undo->0.before,
                    *limits,
                    r,
                ),
                Some(e) => r matches Err(ImportError::Refused(x)) && x@ == e,
            },
    {
        match self.check_undo(token) {
            Ok(u) => save_dictionary(source, &u.revision, &u.before, limits),
            Err(e) => Err(ImportError::Refused(e)),
        }
    }
}

/// An import and its undo are held to the exact file: over any other one nothing is
/// written, so no edit that was made in between is lost.
pub proof fn imports_overwrite_no_edit(
    source: Seq<u8>,
    revision: Seq<char>,
    entries: Seq<EntryView>,
    limits: Limits,
    r: Result<SavedRules, ImportError>,
)
    requires
        dictionary_saved(source, revision, entries, limits, r),
        sha256_hex(source) != revision,
    ensures
        r is Err,
{
    match r {
        Ok(s) => {
            stale_edits_change_nothing(source, revision, entry_lines(entries), limits, Ok(s));
        },
        Err(_) => {},
    }
}

/// The entries of a dictionary.
pub open spec fn rule_entries(rules: Seq<RuleView>) -> Seq<EntryView> {
    rules.map_values(|r: RuleView| EntryView { name: r.0, text: r.1 })
}

/// What an undo writes reads as the dictionary that the import found, rule by rule.
/// (What reads back otherwise is a first rule that begins with a byte order mark and
/// comes to stand at the very start of the text.)
pub proof fn an_undo_restores_the_dictionary(
    found: Seq<char>,
    source: Seq<u8>,
    revision: Seq<char>,
    limits: Limits,
    r: Result<SavedRules, ImportError>,
)
    requires
        parsed(found, limits) is Ok,
        mark_told(
            lines(text_in(source)),
            entry_lines(rule_entries(document_rules(found))),
        ),
        dictionary_saved(source, revision, rule_entries(document_rules(found)), limits, r),
        r is Ok,
    ensures
        r->Ok_0.document is Ok,
        rules_view(r->Ok_0.document->Ok_0.rules@) == document_rules(found),
{
    let rules = document_rules(found);
    let entries = entry_lines(rule_entries(rules));
    let read = entries.map_values(|e: Seq<char>| line_rule(e)->0);
    assert forall|i: int| 0 <= i < rules.len() implies read[i] == #[trigger] rules[i] && line_rule(
        entries[i],
    ) == Some(rules[i]) by {
        let ls = lines(found);
        document_rules_are_written(ls, ls.len() as int, i);
        assert(entries[i] == rule_line(rules[i]));
    }
    assert(read =~= rules);
    an_edit_reads_back(source, revision, entries, limits, Ok(r->Ok_0));
}

/// The undo of an import takes the file that the import left: only what the
/// dictionary's bounds say of the earlier entries can still stop it.
pub proof fn an_undo_takes_what_the_import_left(
    source: Seq<u8>,
    revision: Seq<char>,
    merged: Seq<EntryView>,
    before: Seq<EntryView>,
    limits: Limits,
    import: SavedRules,
    r: Result<SavedRules, ImportError>,
)
    requires
        dictionary_saved(source, revision, merged, limits, Ok(import)),
        import.document is Ok,
        dictionary_saved(
            encode_utf8(import.text@),
            import.document->Ok_0.revision@,
            before,
            limits,
            r,
        ),
    ensures
        r is Ok || (r->Err_0 is Rules && r->Err_0->Rules_0 is Rules),
{
    let text = import.text@;
    vstd::utf8::encode_utf8_decode_utf8(text);
    vstd::utf8::encode_utf8_valid_utf8(text);
}

/// The dictionary's bounds take these entries in place of the rules of the text.
pub open spec fn entries_fit(text: Seq<char>, entries: Seq<EntryView>, limits: Limits) -> bool {
    match normalized(entry_lines(entries), limits) {
        Ok(lines) => encode_utf8(rewritten(text, lines)).len() <= limits.max_document_bytes,
        Err(_) => false,
    }
}

/// The import only added entries: those that were there come first, unchanged.
pub open spec fn only_added(before: Seq<EntryView>, merged: Seq<EntryView>) -> bool {
    before.len() <= merged.len() && merged.take(before.len() as int) == before
}

/// The entries that were there before an import which only added some fit the
/// dictionary's bounds afterwards, so that its undo is not refused for its size.
pub proof fn added_entries_can_be_taken_back(
    found: Seq<char>,
    revision: Seq<char>,
    merged: Seq<EntryView>,
    limits: Limits,
    import: SavedRules,
)
    requires
        parsed(found, limits) is Ok,
        only_added(rule_entries(document_rules(found)), merged),
        mark_told(lines(found), entry_lines(rule_entries(document_rules(found)))),
        dictionary_saved(encode_utf8(found), revision, merged, limits, Ok(import)),
    ensures
        entries_fit(import.text@, rule_entries(document_rules(found)), limits),
{
    let rules = document_rules(found);
    let before = rule_entries(rules);
    let n = before.len() as int;
    let all = entry_lines(merged);
    let lines_of_all = normalized(all, limits)->Ok_0;
    vstd::utf8::encode_utf8_decode_utf8(found);
    assert(all.take(n) =~= entry_lines(before)) by {
        assert forall|i: int| 0 <= i < n implies #[trigger] all[i] == entry_lines(before)[i] by {
            assert(merged[i] == merged.take(n)[i]);
        }
    }
    if n > 0 {
        let ls = lines(found);
        document_rules_are_written(ls, ls.len() as int, 0);
        assert(all[0] == all.take(n)[0]);
        assert(all[0] == rule_line(rules[0]));
        assert(lines_of_all[0] == all[0]);
    }
    rules_that_were_added_can_be_taken_out(found, all, n, limits);
}

/// The first rule of the dictionary `found` can be put back after an import. Where it
/// begins with a byte order mark it needs something before it in the text. (It has
/// that unless it stood at the very start behind blanks, as in `" \u{feff}a => b"`,
/// and the import put a rule without the mark into its place.)
pub open spec fn first_rule_can_return(
    found: Seq<char>,
    merged: Seq<EntryView>,
    limits: Limits,
) -> bool {
    let written = normalized(entry_lines(merged), limits)->Ok_0;
    ||| mark_told(lines(found), entry_lines(rule_entries(document_rules(found))))
    ||| written.len() > 0 && written[0].len() > 0 && written[0][0] == mark()
}

/// A preview of the dictionary `found`, its commit and the undo of that give back the
/// dictionary. Where nothing else was written in between, and the import only added
/// entries or the earlier ones fit the dictionary's bounds, the undo is not refused
/// and what it writes reads as the rules that were found; over any other file it
/// writes nothing. Neither the commit nor the undo holds a second time.
pub proof fn an_undone_import_leaves_the_dictionary_as_it_was(
    s: SessionView,
    found: Seq<char>,
    token: Option<u64>,
    limits: Limits,
    import: SavedRules,
    source: Seq<u8>,
    r: Result<SavedRules, ImportError>,
)
    requires
        orderly(s),
        commit_error(s, token, Kind::Dictionary) is None,
        parsed(found, limits) is Ok,
        s.pending->0.before == rule_entries(document_rules(found)),
        first_rule_can_return(found, s.pending->0.merged, limits),
        dictionary_saved(
            encode_utf8(found),
            s.pending->0.revision,
            s.pending->0.merged,
            limits,
            Ok(import),
        ),
        import.document is Ok,
        ({
            let after = committed(s, import.document->Ok_0.revision@);
            dictionary_saved(source, after.undo->0.revision, after.undo->0.before, limits, r)
        }),
    ensures
        ({
            let after = committed(s, import.document->Ok_0.revision@);
            let before = s.pending->0.before;
            let fits = entries_fit(import.text@, before, limits) || (only_added(
                before,
                s.pending->0.merged,
            ) && mark_told(lines(found), entry_lines(before)));
            &&& undo_error(after, token) is None
            &&& commit_error(after, token, Kind::Dictionary) is Some
            &&& undo_error(undone(after), token) is Some
            &&& source == encode_utf8(import.text@) && fits ==> {
                &&& r is Ok
                &&& r->Ok_0.document is Ok
                &&& rules_view(r->Ok_0.document->Ok_0.rules@) == document_rules(found)
            }
            &&& sha256_hex(source) != sha256_hex(encode_utf8(import.text@)) ==> r is Err
        }),
{
    let after = committed(s, import.document->Ok_0.revision@);
    let revision = after.undo->0.revision;
    let before = s.pending->0.before;
    let merged = s.pending->0.merged;
    let text = import.text@;
    vstd::utf8::encode_utf8_decode_utf8(text);
    vstd::utf8::encode_utf8_valid_utf8(text);
    vstd::utf8::encode_utf8_decode_utf8(found);
    if sha256_hex(source) != revision {
        imports_overwrite_no_edit(source, revision, before, limits, r);
    }
    if only_added(before, merged) && mark_told(lines(found), entry_lines(before)) {
        added_entries_can_be_taken_back(found, s.pending->0.revision, merged, limits, import);
    }
    if r is Ok && source == encode_utf8(text) {
        entries_are_written_as_single_lines(entry_lines(merged), limits);
        an_edit_keeps_marks_told(
            found,
            normalized(entry_lines(merged), limits)->Ok_0,
            entry_lines(before),
        );
        an_undo_restores_the_dictionary(found, source, revision, limits, r);
    }
}

proof fn document_rules_are_written(ls: Seq<Seq<char>>, n: int, i: int)
    requires
        0 <= i < rules_in(ls, n).len(),
    ensures
        line_rule(rule_line(rules_in(ls, n)[i])) == Some(rules_in(ls, n)[i]),
    decreases n,
{
    if n > 0 {
        match rule_at(ls, n - 1) {
            Some(_) if i == rules_in(ls, n - 1).len() => {
                written_rule_reads_back(rule_text(ls[n - 1], n - 1 == 0));
            },
            _ => {
                document_rules_are_written(ls, n - 1, i);
            },
        }
    }
}

/// Why a preview cannot be shown.
#[derive(Debug)]
pub enum PreviewError {
    Rules(DictionaryError),
    TooLarge,
}

/// Would the merged collection be accepted? A dictionary is held to its own
/// limits, and snippets to the size of the document that holds them.
pub fn check_merged(
    kind: Kind,
    merged: &[Entry],
    document_bytes: usize,
    max_import_bytes: usize,
    limits: &Limits,
) -> (r: Result<(), PreviewError>)
    ensures
        match kind {
            Kind::Dictionary => match normalized(
                entry_lines(entries_view(merged@)),
                *limits,
            ) {
                Ok(_) => r is Ok,
                Err(e) => r matches Err(PreviewError::Rules(x)) && x == e,
            },
            Kind::Snippets => if document_bytes > max_import_bytes {
                r matches Err(PreviewError::TooLarge)
            } else {
                r is Ok
            },
        },
{
    match kind {
        Kind::Dictionary => {
            let lines = dictionary_lines(merged);
            match normalize_rule_lines(&lines, limits) {
                Ok(_) => Ok(()),
                Err(e) => Err(PreviewError::Rules(e)),
            }
        },
        Kind::Snippets => {
            if document_bytes > max_import_bytes {
                Err(PreviewError::TooLarge)
            } else {
                Ok(())
            }
        },
    }
}

impl PreviewError {
    /// As the user reads it.
    pub fn message(&self) -> (r: String)
        ensures
            match *self {
                PreviewError::Rules(e) => r@ == e.words(),
                PreviewError::TooLarge => r@ == "The merged snippet document would exceed 3 MiB."@,
            },
    {
        match self {
            PreviewError::Rules(e) => e.message(),
            PreviewError::TooLarge => {
                "The merged snippet document would exceed 3 MiB.".to_owned()
            },
        }
    }
}

/// The revision of a file of snippets, which may not be there.
pub open spec fn snippets_revision_of(file: Option<Seq<u8>>) -> Seq<char> {
    match file {
        Some(bytes) => sha256_hex(bytes),
        None => "absent"@,
    }
}

/// Names the content of a file of snippets.
pub fn snippets_revision(file: Option<&[u8]>) -> (r: String)
    ensures
        r@ == snippets_revision_of(
            match file {
                Some(bytes) => Some(bytes@),
                None => None,
            },
        ),
{
    match file {
        Some(bytes) => sha256_text(bytes),
        None => "absent".to_owned(),
    }
}

/// May snippets be saved? Only where the file is still the one that was read, and
/// only up to its largest size.
pub fn check_snippet_save(
    current: &str,
    expected: &str,
    document_bytes: usize,
    max_import_bytes: usize,
) -> (r: Result<(), &'static str>)
    ensures
        match r {
            Ok(_) => current@ == expected@ && document_bytes <= max_import_bytes,
            Err(e) => if current@ != expected@ {
                e@
                    == "Snippets changed since the preview. Reload and preview again; nothing was overwritten."@
            } else {
                document_bytes > max_import_bytes && e@
                    == "The merged snippet file exceeds 3 MiB. Nothing was saved."@
            },
        },
{
    if !same(current, expected) {
        Err(
            "Snippets changed since the preview. Reload and preview again; nothing was overwritten.",
        )
    } else if document_bytes > max_import_bytes {
        Err("The merged snippet file exceeds 3 MiB. Nothing was saved.")
    } else {
        Ok(())
    }
}

/// Is this a document of snippets that can be read?
pub fn check_snippet_document(
    format: &str,
    version: u64,
    kind: Kind,
    rows: usize,
    max_rows: usize,
) -> (r: Result<(), &'static str>)
    ensures
        match r {
            Ok(_) => format@ == "vocalcode-interchange"@ && version == 1 && kind == Kind::Snippets
                && rows <= max_rows,
            Err(e) => !(format@ == "vocalcode-interchange"@ && version == 1 && kind
                == Kind::Snippets && rows <= max_rows) && e@
                == "Unsupported snippet document. It was left untouched."@,
        },
{
    if !same(format, "vocalcode-interchange") || version != 1 || kind != Kind::Snippets || rows
        > max_rows {
        Err("Unsupported snippet document. It was left untouched.")
    } else {
        Ok(())
    }
}

/// The first entry of that name, or how many there are.
pub open spec fn entry_at(entries: Seq<EntryView>, name: Seq<char>) -> int {
    first_where(entries, |e: EntryView| e.name == name, 0)
}

/// Why a snippet cannot be deleted, where it cannot.
pub open spec fn delete_error(
    entries: Seq<EntryView>,
    current: Seq<char>,
    revision: Option<Seq<char>>,
    name: Option<Seq<char>>,
) -> Option<Seq<char>> {
    if revision != Some(current) {
        Some("Snippets changed. Reload before deleting."@)
    } else if name is None {
        Some("Choose a snippet"@)
    } else if entry_at(entries, name->0) >= entries.len() {
        Some("Snippet no longer exists"@)
    } else {
        None
    }
}

/// The snippets without the one of that name.
pub fn delete_snippet(
    entries: Vec<Entry>,
    current: &str,
    revision: Option<String>,
    name: Option<String>,
) -> (r: Result<Vec<Entry>, &'static str>)
    ensures
        match delete_error(
            entries_view(entries@),
            current@,
            optional_text(revision),
            optional_text(name),
        ) {
            None => r is Ok && entries_view(r->Ok_0@) == entries_view(entries@).remove(
                entry_at(entries_view(entries@), name->0@),
            ),
            Some(e) => r is Err && r->Err_0@ == e,
        },
{
    let fresh = match &revision {
        Some(seen) => same(seen, current),
        None => false,
    };
    if !fresh {
        return Err("Snippets changed. Reload before deleting.");
    }
    let wanted = match &name {
        Some(wanted) => wanted,
        None => {
            return Err("Choose a snippet");
        },
    };
    let ghost all = entries_view(entries@);
    let ghost p = |e: EntryView| e.name == wanted@;
    let mut left = entries;
    let n: usize = left.len();
    let mut i: usize = 0;
    while i < n
        invariant
            i <= n,
            n == left@.len(),
            left@ == entries@,
            all == entries_view(left@),
            p == (|e: EntryView| e.name == wanted@),
            first_where(all, p, i as int) == first_where(all, p, 0),
            optional_text(revision) == Some(current@),
            optional_text(name) == Some(wanted@),
        decreases n - i,
    {
        if same(&left[i].name, wanted) {
            assert(p(all[i as int]));
            left.remove(i);
            assert(entries_view(left@) =~= all.remove(i as int));
            return Ok(left);
        }
        assert(!p(all[i as int]));
        i += 1;
    }
    Err("Snippet no longer exists")
}

/// The part of a path as it is told apart: Windows does not tell case.
pub open spec fn part_of(platform: Platform, part: Seq<char>) -> Seq<char> {
    if platform == Platform::Windows {
        unicode_lowercase(part)
    } else {
        part
    }
}

/// The path lies under the folder, part by part.
pub open spec fn under(
    platform: Platform,
    path: Seq<Seq<char>>,
    folder: Seq<Seq<char>>,
) -> bool {
    &&& folder.len() <= path.len()
    &&& forall|i: int|
        0 <= i < folder.len() ==> part_of(platform, #[trigger] folder[i]) == part_of(
            platform,
            path[i],
        )
}

fn same_part(platform: Platform, a: &str, b: &str) -> (r: bool)
    ensures
        r == (part_of(platform, a@) == part_of(platform, b@)),
{
    if platform == Platform::Windows {
        let x = lowercase(a);
        let y = lowercase(b);
        same(&x, &y)
    } else {
        same(a, b)
    }
}

/// May an export be written there? Not into the program's own data. Both paths are
/// resolved, and given by their parts.
pub fn export_destination(platform: Platform, resolved: &[String], base: &[String]) -> (r: Result<
    (),
    &'static str,
>)
    ensures
        match r {
            Ok(_) => !under(platform, texts(resolved@), texts(base@)),
            Err(e) => under(platform, texts(resolved@), texts(base@)) && e@
                == "Save exports outside VocalCode's application data folder."@,
        },
{
    if base.len() > resolved.len() {
        return Ok(());
    }
    let ghost path = texts(resolved@);
    let ghost folder = texts(base@);
    let mut i: usize = 0;
    while i < base.len()
        invariant
            i <= base@.len() <= resolved@.len(),
            path == texts(resolved@),
            folder == texts(base@),
            forall|k: int|
                0 <= k < i ==> part_of(platform, #[trigger] folder[k]) == part_of(
                    platform,
                    path[k],
                ),
        decreases base@.len() - i,
    {
        if !same_part(platform, &base[i], &resolved[i]) {
            assert(part_of(platform, folder[i as int]) != part_of(platform, path[i as int]));
            return Ok(());
        }
        i += 1;
    }
    Err("Save exports outside VocalCode's application data folder.")
}

/// What is known of the two collections. One that cannot be read leaves the other
/// alone.
#[derive(Debug)]
pub struct Collections {
    pub dictionary: Option<(String, Vec<Entry>)>,
    pub snippets: Option<(String, Vec<Entry>)>,
    pub warnings: Vec<String>,
}

/// The words of a failure, as a list.
pub open spec fn failures<T>(r: Result<T, String>) -> Seq<Seq<char>> {
    match r {
        Ok(_) => Seq::empty(),
        Err(e) => seq![e@],
    }
}

/// What was read of the two collections.
pub fn collections(
    dictionary: Result<(String, Vec<Entry>), String>,
    snippets: Result<(String, Vec<Entry>), String>,
) -> (r: Collections)
    ensures
        r.dictionary == (match dictionary {
            Ok(x) => Some(x),
            Err(_) => None,
        }),
        r.snippets == (match snippets {
            Ok(x) => Some(x),
            Err(_) => None,
        }),
        texts(r.warnings@) == failures(dictionary) + failures(snippets),
{
    let mut warnings: Vec<String> = Vec::new();
    assert(texts(warnings@) =~= Seq::<Seq<char>>::empty());
    let first = match dictionary {
        Ok(x) => Some(x),
        Err(e) => {
            warnings.push(e);
            None
        },
    };
    assert(texts(warnings@) =~= failures(dictionary));
    let second = match snippets {
        Ok(x) => Some(x),
        Err(e) => {
            warnings.push(e);
            None
        },
    };
    assert(texts(warnings@) =~= failures(dictionary) + failures(snippets));
    Collections { dictionary: first, snippets: second, warnings }
}

/// A preview can be committed with its own number and kind where it adds something,
/// and what was there before can then be taken back with that number, until the next
/// preview is committed.
pub proof fn a_preview_can_be_committed(
    s: SessionView,
    kind: Kind,
    revision: Seq<char>,
    before: Seq<EntryView>,
    merged: Seq<EntryView>,
    added: usize,
    saved_as: Seq<char>,
)
    requires
        s.serial < u64::MAX,
    ensures
        ({
            let shown = previewed(s, kind, revision, before, merged, added);
            let token = shown.serial;
            &&& commit_error(shown, Some(token), kind) is None <==> added > 0
            &&& forall|other: Option<u64>|
                other != Some(token) ==> #[trigger] commit_error(shown, other, kind) is Some
            &&& forall|other: Kind|
                other != kind ==> #[trigger] commit_error(shown, Some(token), other) is Some
            &&& shown.undo == s.undo
            &&& undo_error(committed(shown, saved_as), Some(token)) is None
            &&& committed(shown, saved_as).undo->0.before == before
            &&& committed(shown, saved_as).undo->0.kind == kind
            &&& committed(shown, saved_as).undo->0.revision == saved_as
        }),
{
}

/// A snippet is deleted where the list is the one that was shown and holds it. It is
/// then gone, all others stay in their order, and to delete it again is refused.
/// (Where several have one name, the first goes.)
pub proof fn a_deleted_snippet_is_gone(
    entries: Seq<EntryView>,
    current: Seq<char>,
    revision: Option<Seq<char>>,
    name: Seq<char>,
    after: Seq<EntryView>,
)
    requires
        after == entries.remove(entry_at(entries, name)),
    ensures
        delete_error(entries, current, revision, Some(name)) is None <==> revision == Some(current)
            && exists|i: int| 0 <= i < entries.len() && (#[trigger] entries[i]).name == name,
        delete_error(entries, current, revision, None) is Some,
        delete_error(entries, current, revision, Some(name)) is None ==> {
            let at = entry_at(entries, name);
            &&& 0 <= at < entries.len()
            &&& entries[at].name == name
            &&& after.len() == entries.len() - 1
            &&& forall|i: int| 0 <= i < at ==> #[trigger] entries[i] == after[i] && entries[i].name
                != name
            &&& forall|i: int| at < i < entries.len() ==> #[trigger] entries[i] == after[i - 1]
            &&& (forall|i: int, j: int|
                0 <= i < j < entries.len() ==> (#[trigger] entries[i]).name != (
                #[trigger] entries[j]).name) ==> delete_error(
                after,
                current,
                revision,
                Some(name),
            ) is Some
        },
{
    let named = |e: EntryView| e.name == name;
    crate::seqs::first_where_is_first(entries, named, 0);
    let at = entry_at(entries, name);
    if exists|i: int| 0 <= i < entries.len() && (#[trigger] entries[i]).name == name {
        let i = choose|i: int| 0 <= i < entries.len() && (#[trigger] entries[i]).name == name;
        if at == entries.len() {
            assert(!named(entries[i]));
        }
    }
    if at < entries.len() {
        assert(named(entries[at]));
        assert forall|i: int| 0 <= i < at implies #[trigger] entries[i] == after[i]
            && entries[i].name != name by {
            assert(!named(entries[i]));
        }
        if forall|i: int, j: int|
            0 <= i < j < entries.len() ==> (#[trigger] entries[i]).name != (
            #[trigger] entries[j]).name {
            crate::seqs::first_where_is_first(after, named, 0);
            let k = entry_at(after, name);
            if k < after.len() {
                assert(named(after[k]));
                if k < at {
                    assert(entries[k] == after[k]);
                } else {
                    assert(entries[k + 1] == after[k]);
                    assert(entries[at].name != entries[k + 1].name);
                }
            }
        }
    }
}

/// The application's own folder and everything below it are refused as a place for
/// exports, on Windows in whatever case they are written; a place whose path parts from
/// it is not.
pub proof fn exports_stay_out_of_the_own_folder(
    platform: Platform,
    folder: Seq<Seq<char>>,
    below: Seq<Seq<char>>,
    path: Seq<Seq<char>>,
    i: int,
)
    ensures
        under(platform, folder, folder),
        under(platform, folder + below, folder),
        path.len() < folder.len() ==> !under(platform, path, folder),
        0 <= i < folder.len() <= path.len() && platform != Platform::Windows && path[i] != folder[i]
            ==> !under(platform, path, folder),
        0 <= i < folder.len() <= path.len() && unicode_lowercase(path[i]) != unicode_lowercase(
            folder[i],
        ) && platform == Platform::Windows ==> !under(platform, path, folder),
        platform == Platform::Windows && path.len() == folder.len() && (forall|k: int|
            0 <= k < folder.len() ==> unicode_lowercase(#[trigger] folder[k]) == unicode_lowercase(
                path[k],
            )) ==> under(platform, path, folder),
{
    assert forall|k: int| 0 <= k < folder.len() implies part_of(platform, #[trigger] folder[k])
        == part_of(platform, (folder + below)[k]) by {
        assert((folder + below)[k] == folder[k]);
    }
    if 0 <= i < folder.len() && under(platform, path, folder) {
        assert(part_of(platform, folder[i]) == part_of(platform, path[i]));
    }
}

/// A request is understood exactly where it names an operation and a kind that there
/// are.
pub proof fn requests_name_an_operation_and_a_kind(op: Option<Seq<char>>, kind: Option<Seq<char>>)
    ensures
        request_error(op, kind) is None <==> {
            &&& op is Some
            &&& op->0 == "load"@ || op->0 == "preview"@ || op->0 == "pick"@ || op->0 == "commit"@
                || op->0 == "undo"@ || op->0 == "delete_snippet"@ || op->0 == "export"@
            &&& kind == Some("dictionary"@) || kind == Some("snippets"@)
        },
{
}

/// Each kind and each operation has its own name; a preview has two.
pub proof fn names_tell_what_is_asked_for(name: Seq<char>)
    ensures
        named_kind(Some(name)) == Some(Kind::Dictionary) <==> name == "dictionary"@,
        named_kind(Some(name)) == Some(Kind::Snippets) <==> name == "snippets"@,
        named_kind(None) is None,
        named_operation(name) == Some(Operation::Load) <==> name == "load"@,
        named_operation(name) == Some(Operation::Preview) <==> name == "preview"@ || name
            == "pick"@,
        named_operation(name) == Some(Operation::Commit) <==> name == "commit"@,
        named_operation(name) == Some(Operation::Undo) <==> name == "undo"@,
        named_operation(name) == Some(Operation::DeleteSnippet) <==> name == "delete_snippet"@,
        named_operation(name) == Some(Operation::Export) <==> name == "export"@,
{
    reveal_strlit("dictionary");
    reveal_strlit("snippets");
    reveal_strlit("load");
    reveal_strlit("preview");
    reveal_strlit("pick");
    reveal_strlit("commit");
    reveal_strlit("undo");
    reveal_strlit("delete_snippet");
    reveal_strlit("export");
    assert("dictionary"@[0] == 'd' && "snippets"@[0] == 's' && "load"@[0] == 'l');
    assert("preview"@[0] == 'p' && "preview"@[1] == 'r' && "pick"@[0] == 'p' && "pick"@[1] == 'i');
    assert("commit"@[0] == 'c' && "undo"@[0] == 'u' && "delete_snippet"@[0] == 'd');
    assert("export"@[0] == 'e');
}

} // verus!
