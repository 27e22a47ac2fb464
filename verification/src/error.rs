//! Error kinds of the timelapse pipeline.

use vstd::prelude::*;

verus! {

/// What can go wrong while turning a file path into a timestamped candidate.
///
/// `RegexNoMatch` says the file name does not have the timestamp shape at
/// all; `ParseOhNo` says it has the shape but a numeric field is outside its
/// calendar range; `FileHuh` says the path holds no file name to look at.
#[derive(Clone, Debug, PartialEq, Eq)]
pub enum TimelapsifyError {
    /// An unexpected situation, described in the payload.
    Weird(&'static str),
    /// A path-shaped input did not yield the part we needed.
    FileHuh { msg: &'static str, rugrat: String },
    /// The file name does not match the timestamp pattern.
    RegexNoMatch,
    /// The named numeric field of a pattern-shaped name is out of range.
    ParseOhNo(&'static str),
}

impl TimelapsifyError {
    /// The error for a path from which no file name could be taken.
    pub fn file_option_issue(file: &str) -> (e: Self)
        ensures
            e matches TimelapsifyError::FileHuh { msg, rugrat } && msg@
                == "a method on a str-like which returns option failed"@ && rugrat@ == file@,
    {
        TimelapsifyError::FileHuh {
            msg: "a method on a str-like which returns option failed",
            rugrat: String::from_str(file),
        }
    }
}

} // verus!
