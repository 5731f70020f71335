//! The settings file: which file may be read, replaced or set aside, and what
//! is said where it may not. A file that a newer version wrote, or that
//! somebody else changed, is never overwritten.

use crate::text::{byte_len, decimal, decimal_text, same};
use vstd::prelude::*;
use vstd::utf8::encode_utf8;

verus! {

/// The integer under a key of a TOML document: none where the text is no TOML,
/// where the key is missing and where its value is no integer.
pub uninterp spec fn toml_integer(source: Seq<char>, key: Seq<char>) -> Option<i64>;

/// `toml::from_str::<toml::Value>`, `toml::Value::get` and
/// `toml::Value::as_integer`: the result is a function of the text and the key
/// alone.
#[verifier::external_body]
fn read_toml_integer(source: &str, key: &str) -> (r: Option<i64>)
    ensures
        r == toml_integer(source@, key@),
{
    let value = toml::from_str::<toml::Value>(source).ok()?;
    value.get(key).and_then(toml::Value::as_integer)
}

/// The decimal notation of a number that may be negative.
pub open spec fn signed_decimal(n: int) -> Seq<char> {
    if n < 0 {
        "-"@ + decimal((0 - n) as nat)
    } else {
        decimal(n as nat)
    }
}

/// The words for a file that a newer version wrote.
pub open spec fn newer_words(path: Seq<char>, version: int, supported: int) -> Seq<char> {
    "settings at "@ + path + " were written by a newer VocalCode config version "@ + signed_decimal(
        version,
    ) + " (this build supports through "@ + signed_decimal(supported)
        + "); the file was left byte-for-byte unchanged. Install a newer VocalCode build or restore a compatible settings file"@
}

/// The words for a file whose values are out of bounds.
pub open spec fn bounds_words(path: Seq<char>, error: Seq<char>) -> Seq<char> {
    "settings at "@ + path + " are outside supported safety bounds ("@ + error
        + "); the file was left byte-for-byte unchanged"@
}

fn signed_text(n: i64) -> (r: String)
    ensures
        r@ == signed_decimal(n as int),
{
    if n < 0 {
        "-".to_owned().concat(&decimal_text((-(n as i128)) as u128))
    } else {
        decimal_text(n as u128)
    }
}

fn newer_text(path: &str, version: i64, supported: u32) -> (r: String)
    ensures
        r@ == newer_words(path@, version as int, supported as int),
{
    "settings at ".to_owned().concat(path).concat(
        " were written by a newer VocalCode config version ",
    ).concat(&signed_text(version)).concat(" (this build supports through ").concat(
        &signed_text(supported as i64),
    ).concat(
        "); the file was left byte-for-byte unchanged. Install a newer VocalCode build or restore a compatible settings file",
    )
}

/// Refuses a version beyond the supported one. A file without a version is not
/// refused here.
pub fn reject_future_version(path: &str, version: Option<i64>, supported: u32) -> (r: Result<
    (),
    String,
>)
    ensures
        r is Err <==> version is Some && version->0 > supported,
        r is Err ==> r->Err_0@ == newer_words(path@, version->0 as int, supported as int),
{
    match version {
        Some(v) => {
            if v > supported as i64 {
                Err(newer_text(path, v, supported))
            } else {
                Ok(())
            }
        },
        None => Ok(()),
    }
}

/// Refuses a file that a newer version wrote, by the version that the text
/// names, before the text is read by the rules of this version.
pub fn reject_future_config_version(path: &str, source: &str, supported: u32) -> (r: Result<
    (),
    String,
>)
    ensures
        ({
            let version = toml_integer(source@, "config_version"@);
            &&& r is Err <==> version is Some && version->0 > supported
            &&& r is Err ==> r->Err_0@ == newer_words(path@, version->0 as int, supported as int)
        }),
{
    reject_future_version(path, read_toml_integer(source, "config_version"), supported)
}

/// What the settings in a file say, as far as it matters whether they are
/// taken.
#[derive(Debug)]
pub struct DiskConfig {
    pub config_version: u32,
    /// What is out of bounds, if anything is.
    pub bounds_error: Option<String>,
    /// The settings in their canonical form, brought up to this version.
    pub snapshot: String,
}

/// Takes settings of a supported version that are within bounds.
pub fn accept_supported_config(path: &str, config: &DiskConfig, supported: u32) -> (r: Result<
    (),
    String,
>)
    ensures
        match r {
            Ok(_) => config.config_version <= supported && config.bounds_error is None,
            Err(words) => if config.config_version > supported {
                words@ == newer_words(path@, config.config_version as int, supported as int)
            } else {
                config.bounds_error is Some && words@ == bounds_words(
                    path@,
                    config.bounds_error->0@,
                )
            },
        },
{
    if config.config_version > supported {
        return Err(newer_text(path, config.config_version as i64, supported));
    }
    match &config.bounds_error {
        Some(error) => Err(
            "settings at ".to_owned().concat(path).concat(
                " are outside supported safety bounds (",
            ).concat(error).concat("); the file was left byte-for-byte unchanged"),
        ),
        None => Ok(()),
    }
}

/// Why the settings on disk may not be replaced.
pub open spec fn replace_refusal(
    path: Seq<char>,
    source: Seq<char>,
    disk: Result<DiskConfig, String>,
    supported: u32,
    expected: Seq<char>,
    replacement: Seq<char>,
    max: usize,
) -> Option<Seq<char>> {
    let version = toml_integer(source, "config_version"@);
    if version is Some && version->0 > supported {
        Some(newer_words(path, version->0 as int, supported as int))
    } else {
        match disk {
            Err(error) => Some(
                "settings at "@ + path + " changed to an incompatible or invalid document ("@
                    + error@ + "); nothing was overwritten"@,
            ),
            Ok(disk) => if disk.config_version > supported {
                Some(newer_words(path, disk.config_version as int, supported as int))
            } else if disk.bounds_error is Some {
                Some(
                    "settings at "@ + path
                        + " changed to a document outside supported safety bounds ("@
                        + disk.bounds_error->0@ + "); nothing was overwritten"@,
                )
            } else if disk.snapshot@ != expected {
                Some(
                    "settings at "@ + path
                        + " changed outside this window; reload Settings and try again. The newer disk file was left untouched"@,
                )
            } else if encode_utf8(replacement).len() > max {
                Some(
                    "refusing to save settings larger than "@ + decimal(max as nat) + " bytes"@,
                )
            } else {
                None
            },
        }
    }
}

/// May the settings on disk be replaced? `source` is the file under the
/// writers' lock and `disk` what it says; `expected` is the snapshot that was
/// edited and `replacement` what is to be written. The file has to be the one
/// that was edited.
pub fn persist_config_if_current(
    path: &str,
    source: &str,
    disk: &Result<DiskConfig, String>,
    supported: u32,
    expected: &str,
    replacement: &str,
    max: usize,
) -> (r: Result<(), String>)
    ensures
        ({
            let refusal = replace_refusal(
                path@,
                source@,
                *disk,
                supported,
                expected@,
                replacement@,
                max,
            );
            match r {
                Ok(_) => refusal is None,
                Err(words) => refusal == Some(words@),
            }
        }),
{
    match reject_future_config_version(path, source, supported) {
        Ok(_) => {},
        Err(words) => {
            return Err(words);
        },
    }
    let start = "settings at ".to_owned().concat(path);
    let config = match disk {
        Ok(config) => config,
        Err(error) => {
            return Err(
                start.concat(" changed to an incompatible or invalid document (").concat(
                    error,
                ).concat("); nothing was overwritten"),
            );
        },
    };
    if config.config_version > supported {
        return Err(newer_text(path, config.config_version as i64, supported));
    }
    if let Some(error) = &config.bounds_error {
        return Err(
            start.concat(" changed to a document outside supported safety bounds (").concat(
                error,
            ).concat("); nothing was overwritten"),
        );
    }
    if !same(&config.snapshot, expected) {
        return Err(
            start.concat(
                " changed outside this window; reload Settings and try again. The newer disk file was left untouched",
            ),
        );
    }
    if byte_len(replacement) > max {
        return Err(
            "refusing to save settings larger than ".to_owned().concat(
                &decimal_text(max as u128),
            ).concat(" bytes"),
        );
    }
    Ok(())
}

/// A file that a newer version wrote, that is invalid, or whose settings are not
/// the ones that were edited, is not replaced.
pub proof fn foreign_settings_stay(
    path: Seq<char>,
    source: Seq<char>,
    disk: Result<DiskConfig, String>,
    supported: u32,
    expected: Seq<char>,
    replacement: Seq<char>,
    max: usize,
)
    requires
        (toml_integer(source, "config_version"@) matches Some(v) && v > supported) || disk is Err
            || disk->Ok_0.snapshot@ != expected,
    ensures
        replace_refusal(path, source, disk, supported, expected, replacement, max) is Some,
{
}

/// What to do with the settings that were read at start.
#[derive(Debug, PartialEq, Eq)]
pub enum LoadDecision {
    /// Use them.
    Accept,
    /// Set the file aside and install the defaults.
    Recover,
    /// Leave the file alone and say why.
    Refuse(String),
}

/// What to do with the settings file at start: a valid one is used, an invalid
/// one is set aside, and one of a newer version or out of bounds is left alone.
pub fn settings_after_read(
    path: &str,
    source: &str,
    disk: &Result<DiskConfig, String>,
    supported: u32,
) -> (r: LoadDecision)
    ensures
        ({
            let version = toml_integer(source@, "config_version"@);
            if version is Some && version->0 > supported {
                r matches LoadDecision::Refuse(words) && words@ == newer_words(
                    path@,
                    version->0 as int,
                    supported as int,
                )
            } else {
                match *disk {
                    Err(_) => r is Recover,
                    Ok(config) => if config.config_version > supported {
                        r matches LoadDecision::Refuse(words) && words@ == newer_words(
                            path@,
                            config.config_version as int,
                            supported as int,
                        )
                    } else if config.bounds_error is Some {
                        r matches LoadDecision::Refuse(words) && words@ == bounds_words(
                            path@,
                            config.bounds_error->0@,
                        )
                    } else {
                        r is Accept
                    },
                }
            }
        }),
{
    match reject_future_config_version(path, source, supported) {
        Ok(_) => {},
        Err(words) => {
            return LoadDecision::Refuse(words);
        },
    }
    match disk {
        Err(_) => LoadDecision::Recover,
        Ok(config) => match accept_supported_config(path, config, supported) {
            Ok(_) => LoadDecision::Accept,
            Err(words) => LoadDecision::Refuse(words),
        },
    }
}

/// What became of creating a file that was missing.
#[derive(Debug, PartialEq, Eq)]
pub enum Published {
    Created,
    /// Another writer was first.
    AlreadyExists,
    Failed(String),
}

/// What to do when settings were missing.
#[derive(Debug, PartialEq, Eq)]
pub enum MissingDecision {
    UseDefaults,
    /// Read the file that another writer has created.
    ReadConcurrent,
    Refuse(String),
}

/// What to do after the defaults were to be created: another writer's file wins.
pub fn settings_after_publish(path: &str, outcome: &Published) -> (r: MissingDecision)
    ensures
        match *outcome {
            Published::Created => r is UseDefaults,
            Published::AlreadyExists => r is ReadConcurrent,
            Published::Failed(error) => r matches MissingDecision::Refuse(words) && words@
                == "settings do not exist and defaults could not be created at "@ + path@
                + " without overwriting another writer: "@ + error@,
        },
{
    match outcome {
        Published::Created => MissingDecision::UseDefaults,
        Published::AlreadyExists => MissingDecision::ReadConcurrent,
        Published::Failed(error) => MissingDecision::Refuse(
            "settings do not exist and defaults could not be created at ".to_owned().concat(
                path,
            ).concat(" without overwriting another writer: ").concat(error),
        ),
    }
}

/// May a settings file that appeared while the defaults were to be created be
/// used? It is never set aside.
pub fn settings_after_concurrent_read(
    path: &str,
    source: &str,
    disk: &Result<DiskConfig, String>,
    supported: u32,
) -> (r: Result<(), String>)
    ensures
        ({
            let version = toml_integer(source@, "config_version"@);
            if version is Some && version->0 > supported {
                r is Err && r->Err_0@ == newer_words(path@, version->0 as int, supported as int)
            } else {
                match *disk {
                    Err(error) => r is Err && r->Err_0@ == "settings appeared concurrently at "@
                        + path@ + ", but are invalid ("@ + error@ + "); they were left untouched"@,
                    Ok(config) => if config.config_version > supported {
                        r is Err && r->Err_0@ == newer_words(
                            path@,
                            config.config_version as int,
                            supported as int,
                        )
                    } else if config.bounds_error is Some {
                        r is Err && r->Err_0@ == bounds_words(path@, config.bounds_error->0@)
                    } else {
                        r is Ok
                    },
                }
            }
        }),
{
    match reject_future_config_version(path, source, supported) {
        Ok(_) => {},
        Err(words) => {
            return Err(words);
        },
    }
    match disk {
        Err(error) => Err(
            "settings appeared concurrently at ".to_owned().concat(path).concat(
                ", but are invalid (",
            ).concat(error).concat("); they were left untouched"),
        ),
        Ok(config) => accept_supported_config(path, config, supported),
    }
}

/// Settings are replaced where nothing speaks against it: the file and what was read of
/// it are of a supported version and within bounds, it is the one that the change
/// was made on, and the new one is not too large. In every other case they are not.
pub proof fn current_settings_are_replaced(
    path: Seq<char>,
    source: Seq<char>,
    disk: Result<DiskConfig, String>,
    supported: u32,
    expected: Seq<char>,
    replacement: Seq<char>,
    max: usize,
)
    ensures
        replace_refusal(path, source, disk, supported, expected, replacement, max) is None <==> {
            &&& toml_integer(source, "config_version"@) matches Some(v) ==> v <= supported
            &&& disk is Ok
            &&& disk->Ok_0.config_version <= supported
            &&& disk->Ok_0.bounds_error is None
            &&& disk->Ok_0.snapshot@ == expected
            &&& encode_utf8(replacement).len() <= max
        },
{
}

} // verus!
