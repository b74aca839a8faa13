//! Input-format selection for the builder.

use vstd::prelude::*;
use crate::text::str_eq;
use crate::utf8::spec_looks_like_utf8;

verus! {

/// The input file formats the builder understands.
#[derive(Debug, Clone, Copy, PartialEq, Eq, Structural)]
pub enum Format {
    Flat,
}

impl Format {
    /// The format a sniffed MIME type stands for: flat text for
    /// "text/plain", nothing for anything else.
    pub fn from_mime_type(mime_type: &str) -> (r: Option<Format>)
        ensures
            r == (if mime_type@ == "text/plain"@ {
                Some(Format::Flat)
            } else {
                None::<Format>
            }),
    {
        if str_eq(mime_type, "text/plain") {
            Some(Format::Flat)
        } else {
            None
        }
    }

    /// The format the command line asks for: an explicit "flat" wins,
    /// "guess" takes whatever the sniffer proposed, and any other word
    /// selects nothing.
    pub fn from_cli(name: &str, guessed: Option<Format>) -> (r: Option<Format>)
        ensures
            r == (if name@ == "flat"@ {
                Some(Format::Flat)
            } else if name@ == "guess"@ {
                guessed
            } else {
                None::<Format>
            }),
    {
        if str_eq(name, "flat") {
            Some(Format::Flat)
        } else if str_eq(name, "guess") {
            guessed
        } else {
            None
        }
    }
}

/// The format a sniffing buffer suggests: flat text exactly when the
/// buffer passes for UTF-8.
pub fn guess_format(sniff: &[u8]) -> (r: Option<Format>)
    ensures
        r == (if spec_looks_like_utf8(sniff@) {
            Some(Format::Flat)
        } else {
            None::<Format>
        }),
{
    if crate::utf8::looks_like_utf8(sniff) {
        Some(Format::Flat)
    } else {
        None
    }
}

} // verus!
