//! Bounded reading of small control files: neither what the file system says of a
//! file nor a file that grows meanwhile leads to more than the limit in memory.

use crate::dictionary::{text_in, utf8_text};
use crate::text::{decimal, decimal_text};
use vstd::prelude::*;
use vstd::utf8::valid_utf8;

verus! {

/// What is said of a file that is too large.
pub open spec fn too_large_text(maximum: usize) -> Seq<char> {
    "file exceeds the "@ + decimal(maximum as nat) + "-byte safety limit"@
}

fn too_large(maximum: usize) -> (r: String)
    ensures
        r@ == too_large_text(maximum),
{
    "file exceeds the ".to_owned().concat(&decimal_text(maximum as u128)).concat(
        "-byte safety limit",
    )
}

/// May a file of that size be opened for reading? Then at most one byte more than
/// the limit is read, which shows whether the file has grown.
pub fn read_allowance(advertised: u64, maximum: usize) -> (r: Result<u64, String>)
    requires
        maximum < u64::MAX,
    ensures
        match r {
            Ok(n) => advertised <= maximum && n == maximum + 1,
            Err(e) => advertised > maximum && e@ == too_large_text(maximum),
        },
{
    if advertised > maximum as u64 {
        Err(too_large(maximum))
    } else {
        Ok(maximum as u64 + 1)
    }
}

/// What was read of a file, unless the file was larger.
pub fn read_bounded_bytes(read: Vec<u8>, maximum: usize) -> (r: Result<Vec<u8>, String>)
    ensures
        match r {
            Ok(bytes) => bytes == read && read@.len() <= maximum,
            Err(e) => read@.len() > maximum && e@ == too_large_text(maximum),
        },
{
    if read.len() > maximum {
        Err(too_large(maximum))
    } else {
        Ok(read)
    }
}

/// The text that was read of a file. What the decoder says of bytes that are no
/// text is part of the error and left open.
pub fn read_bounded_string(read: Vec<u8>, maximum: usize) -> (r: Result<String, String>)
    ensures
        if read@.len() > maximum {
            r is Err && r->Err_0@ == too_large_text(maximum)
        } else if valid_utf8(read@) {
            r is Ok && r->Ok_0@ == text_in(read@)
        } else {
            r is Err && exists|words: Seq<char>|
                r->Err_0@ == #[trigger] ("file is not valid UTF-8: "@ + words)
        },
{
    let bytes = match read_bounded_bytes(read, maximum) {
        Ok(bytes) => bytes,
        Err(e) => {
            return Err(e);
        },
    };
    match utf8_text(bytes) {
        Ok(text) => {
            proof {
                vstd::utf8::encode_utf8_decode_utf8(text@);
            }
            Ok(text)
        },
        Err(words) => Err("file is not valid UTF-8: ".to_owned().concat(&words)),
    }
}

} // verus!
