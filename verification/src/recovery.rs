//! Setting an invalid file aside without losing a byte of it: the file is moved
//! away first, held against what was read, and only then do the defaults take
//! its place, never over a file that somebody created meanwhile.

use crate::text::{decimal, decimal_text};
use vstd::prelude::*;

verus! {

/// How many names for a recovery directory are tried.
pub const RECOVERY_NAMES: u32 = 128;

/// What is done with the file that was moved away.
#[derive(Debug, Clone, Copy, PartialEq, Eq, Structural)]
pub enum MovedFile {
    /// It is longer than what was read: somebody appended. It gets its name back
    /// without being read any further.
    Longer,
    /// It is not what was read: somebody wrote. It is put back.
    Different,
    /// It is what was read. The defaults may take its place.
    Same,
}

/// The name of a recovery directory.
pub open spec fn recovery_name_of(
    file_name: Seq<char>,
    timestamp: u128,
    process: u32,
    nonce: u64,
) -> Seq<char> {
    file_name + ".invalid-"@ + decimal(timestamp as nat) + "-"@ + decimal(process as nat) + "-"@
        + decimal(nonce as nat)
}

/// The name of a recovery directory: the file's own name, the time, the process
/// and a number.
pub fn recovery_name(file_name: &str, timestamp: u128, process: u32, nonce: u64) -> (r: String)
    ensures
        r@ == recovery_name_of(file_name@, timestamp, process, nonce),
{
    file_name.to_owned().concat(".invalid-").concat(&decimal_text(timestamp)).concat("-").concat(
        &decimal_text(process as u128),
    ).concat("-").concat(&decimal_text(nonce as u128))
}

/// How much of the moved file is read: one byte more than was read before, so
/// that growth shows.
pub fn probe_limit(original_len: usize) -> (r: Option<usize>)
    ensures
        original_len < usize::MAX ==> r == Some((original_len + 1) as usize),
        original_len == usize::MAX ==> r is None,
{
    original_len.checked_add(1)
}

/// Is the moved file the one that was read? `moved` is its beginning, up to the
/// probe limit.
pub fn judge_moved(original: &[u8], moved: &[u8]) -> (r: MovedFile)
    ensures
        r == MovedFile::Longer <==> moved@.len() > original@.len(),
        r == MovedFile::Same <==> moved@ == original@,
{
    if moved.len() > original.len() {
        return MovedFile::Longer;
    }
    if moved.len() < original.len() {
        return MovedFile::Different;
    }
    let mut i: usize = 0;
    while i < moved.len()
        invariant
            i <= moved@.len(),
            moved@.len() == original@.len(),
            forall|k: int| 0 <= k < i ==> moved@[k] == original@[k],
        decreases moved@.len() - i,
    {
        if moved[i] != original[i] {
            assert(moved@[i as int] != original@[i as int]);
            return MovedFile::Different;
        }
        i += 1;
    }
    assert(moved@ =~= original@);
    MovedFile::Same
}

/// The defaults take the place of exactly the bytes that were read: where the
/// file that was moved away differs in any byte, they do not.
pub proof fn a_changed_file_is_never_replaced(original: Seq<u8>, whole: Seq<u8>, probed: Seq<u8>)
    requires
        whole != original,
        probed == (if whole.len() <= original.len() + 1 {
            whole
        } else {
            whole.take((original.len() + 1) as int)
        }),
    ensures
        probed != original,
{
    if probed == original {
        assert(whole.len() <= original.len() + 1);
    }
}

/// What became of giving the source back to its path.
#[derive(Debug, PartialEq, Eq)]
pub enum Restored {
    Done,
    /// Another file is there by now; with the words of the failure.
    Occupied(String),
    Failed(String),
}

/// The words for a source that grew while it was being moved.
pub open spec fn grown_words(
    path: Seq<char>,
    recovery: Seq<char>,
    limit: usize,
    restored: Restored,
) -> Seq<char> {
    path + " changed before it could be moved to "@ + recovery
        + "; the moved bytes did not match the version initially read (verification stopped after "@
        + decimal(limit as nat) + " bytes), so defaults were not installed and "@ + (
    match restored {
        Restored::Done => "the complete moved file was also restored to the source path"@,
        Restored::Occupied(error) => "a concurrent source already exists and was preserved ("@
            + error@ + ")"@,
        Restored::Failed(error) =>
            "the complete moved file remains only in recovery because restoring its name failed: "@
            + error@,
    })
}

/// The words for a source that changed while it was being moved.
pub open spec fn changed_words(path: Seq<char>, recovery: Seq<char>, restored: Restored) -> Seq<
    char,
> {
    path + " changed before it could be moved to "@ + recovery
        + "; the moved bytes did not match the version initially read, so defaults were not installed and "@
        + (match restored {
        Restored::Done => "the moved bytes were also restored to the source path"@,
        Restored::Occupied(error) => "a concurrent source already exists and was preserved ("@
            + error@ + ")"@,
        Restored::Failed(error) =>
            "the moved bytes remain in recovery because restoring the source failed: "@ + error@,
    })
}

/// The words for defaults that could not take the place.
pub open spec fn unpublished_words(
    path: Seq<char>,
    recovery: Seq<char>,
    error: Seq<char>,
    restored: Restored,
) -> Seq<char> {
    "the invalid source was preserved at "@ + recovery
        + ", but defaults could not be published without overwriting "@ + path + ": "@ + error
        + "; "@ + (match restored {
        Restored::Done => "the original invalid source was restored"@,
        Restored::Occupied(_) => "the concurrently created source was preserved"@,
        Restored::Failed(failure) =>
            "the original remains available only in recovery because restoring it failed: "@
            + failure@,
    })
}

/// The words for a source that grew while it was being moved.
pub fn grown_message(path: &str, recovery: &str, limit: usize, restored: &Restored) -> (r: String)
    ensures
        r@ == grown_words(path@, recovery@, limit, *restored),
{
    let start = path.to_owned().concat(" changed before it could be moved to ").concat(
        recovery,
    ).concat(
        "; the moved bytes did not match the version initially read (verification stopped after ",
    ).concat(&decimal_text(limit as u128)).concat(
        " bytes), so defaults were not installed and ",
    );
    match restored {
        Restored::Done => start.concat(
            "the complete moved file was also restored to the source path",
        ),
        Restored::Occupied(error) => {
            let end = "a concurrent source already exists and was preserved (".to_owned().concat(
                error,
            ).concat(")");
            start.concat(&end)
        },
        Restored::Failed(error) => {
            let end =
                "the complete moved file remains only in recovery because restoring its name failed: ".to_owned(
            ).concat(error);
            start.concat(&end)
        },
    }
}

/// The words for a source that changed while it was being moved.
pub fn changed_message(path: &str, recovery: &str, restored: &Restored) -> (r: String)
    ensures
        r@ == changed_words(path@, recovery@, *restored),
{
    let start = path.to_owned().concat(" changed before it could be moved to ").concat(
        recovery,
    ).concat(
        "; the moved bytes did not match the version initially read, so defaults were not installed and ",
    );
    match restored {
        Restored::Done => start.concat("the moved bytes were also restored to the source path"),
        Restored::Occupied(error) => {
            let end = "a concurrent source already exists and was preserved (".to_owned().concat(
                error,
            ).concat(")");
            start.concat(&end)
        },
        Restored::Failed(error) => {
            let end =
                "the moved bytes remain in recovery because restoring the source failed: ".to_owned(
            ).concat(error);
            start.concat(&end)
        },
    }
}

/// The words for defaults that could not take the place.
pub fn unpublished_message(path: &str, recovery: &str, error: &str, restored: &Restored) -> (r:
    String)
    ensures
        r@ == unpublished_words(path@, recovery@, error@, *restored),
{
    let start = "the invalid source was preserved at ".to_owned().concat(recovery).concat(
        ", but defaults could not be published without overwriting ",
    ).concat(path).concat(": ").concat(error).concat("; ");
    match restored {
        Restored::Done => start.concat("the original invalid source was restored"),
        Restored::Occupied(_) => start.concat("the concurrently created source was preserved"),
        Restored::Failed(failure) => {
            let end =
                "the original remains available only in recovery because restoring it failed: ".to_owned(
            ).concat(failure);
            start.concat(&end)
        },
    }
}

} // verus!
