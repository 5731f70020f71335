//! The user's own dictionary on disk: a file that is missing is created from a
//! template, and one that exists is never written over.

use crate::dictionary::{
    parsed, refused, rules_document_from_bytes, rules_view, text_in, DictionaryError, DocumentError,
    Limits, RuleView, RulesDocument,
};
use crate::digest::sha256_hex;
use crate::settings::Published;
use vstd::prelude::*;
use vstd::utf8::{encode_utf8, valid_utf8};

verus! {

/// What came of reading the file.
#[derive(Debug)]
pub enum FileRead {
    Bytes(Vec<u8>),
    Missing,
    Failed(String),
}

/// What to do next.
#[derive(Debug)]
pub enum RulesStep {
    /// Create the file from the template, without writing over another one.
    Publish,
    /// Read the file that another writer has created.
    ReadConcurrent,
    Done(Result<RulesDocument, String>),
}

/// `r` is the dictionary that the bytes hold, or says why they hold none.
pub open spec fn reads_as(
    path: Seq<char>,
    bytes: Seq<u8>,
    limits: Limits,
    r: Result<RulesDocument, String>,
) -> bool {
    match r {
        Ok(d) => {
            &&& bytes.len() <= limits.max_document_bytes
            &&& valid_utf8(bytes)
            &&& parsed(text_in(bytes), limits) == Ok::<Seq<RuleView>, DictionaryError>(
                rules_view(d.rules@),
            )
            &&& d.revision@ == sha256_hex(bytes)
        },
        Err(words) => exists|e: DocumentError| #[trigger]
            refused(bytes, limits, e) && words@ == e.words(path),
    }
}

fn read_rules(path: &str, bytes: Vec<u8>, limits: &Limits) -> (r: Result<RulesDocument, String>)
    ensures
        reads_as(path@, bytes@, *limits, r),
{
    match rules_document_from_bytes(bytes, limits) {
        Ok(document) => Ok(document),
        Err(error) => {
            assert(refused(bytes@, *limits, error));
            Err(error.message(path))
        },
    }
}

/// The file was read, or not.
pub fn rules_after_read(path: &str, read: FileRead, limits: &Limits) -> (r: RulesStep)
    ensures
        match read {
            FileRead::Bytes(bytes) => r matches RulesStep::Done(done) && reads_as(
                path@,
                bytes@,
                *limits,
                done,
            ),
            FileRead::Missing => r is Publish,
            FileRead::Failed(error) => r matches RulesStep::Done(Err(words)) && words@
                == "could not read replacement rules from "@ + path@
                + "; the existing path was left untouched: "@ + error@,
        },
{
    match read {
        FileRead::Bytes(bytes) => RulesStep::Done(read_rules(path, bytes, limits)),
        FileRead::Missing => RulesStep::Publish,
        FileRead::Failed(error) => RulesStep::Done(
            Err(
                "could not read replacement rules from ".to_owned().concat(path).concat(
                    "; the existing path was left untouched: ",
                ).concat(&error),
            ),
        ),
    }
}

/// The template was to become the file: another writer's file wins.
pub fn rules_after_publish(path: &str, outcome: &Published, template: &str, limits: &Limits) -> (r:
    RulesStep)
    ensures
        match *outcome {
            Published::Created => r matches RulesStep::Done(done) && reads_as(
                path@,
                encode_utf8(template@),
                *limits,
                done,
            ),
            Published::AlreadyExists => r is ReadConcurrent,
            Published::Failed(error) => r matches RulesStep::Done(Err(words)) && words@
                == "could not create the default replacement rules at "@ + path@
                + " without overwriting another writer: "@ + error@,
        },
{
    match outcome {
        Published::Created => RulesStep::Done(
            read_rules(path, template.as_bytes_vec(), limits),
        ),
        Published::AlreadyExists => RulesStep::ReadConcurrent,
        Published::Failed(error) => RulesStep::Done(
            Err(
                "could not create the default replacement rules at ".to_owned().concat(path).concat(
                    " without overwriting another writer: ",
                ).concat(error),
            ),
        ),
    }
}

/// The file that another writer created was read, or not.
pub fn rules_after_concurrent_read(
    path: &str,
    read: Result<Vec<u8>, String>,
    limits: &Limits,
) -> (r: Result<RulesDocument, String>)
    ensures
        match read {
            Ok(bytes) => reads_as(path@, bytes@, *limits, r),
            Err(error) => r is Err && r->Err_0@ == "replacement rules appeared concurrently at "@
                + path@ + ", but could not be read: "@ + error@ + "; they were left untouched"@,
        },
{
    match read {
        Ok(bytes) => read_rules(path, bytes, limits),
        Err(error) => Err(
            "replacement rules appeared concurrently at ".to_owned().concat(path).concat(
                ", but could not be read: ",
            ).concat(&error).concat("; they were left untouched"),
        ),
    }
}

} // verus!
