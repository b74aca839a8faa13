//! Choice of transport for lookups: local file or HTTP byte ranges.

use vstd::prelude::*;
use vstd::string::StringSliceAdditionalSpecFns;
use crate::text::contains_double_slash;
use crate::text::has_double_slash;
use crate::text::str_eq;

verus! {

/// Where a store is read from.
#[derive(Debug, Clone, Copy, PartialEq, Eq, Structural)]
pub enum Source {
    File,
    Http,
}

/// The source a bare path suggests: HTTP exactly when the path holds
/// "//", as every URL does.
pub open spec fn spec_guess_source(path_bytes: Seq<u8>) -> Source {
    if has_double_slash(path_bytes) {
        Source::Http
    } else {
        Source::File
    }
}

pub fn guess_source(path: &str) -> (r: Source)
    ensures
        r == spec_guess_source(path.spec_bytes()),
{
    if contains_double_slash(path) {
        Source::Http
    } else {
        Source::File
    }
}

impl Source {
    /// The source the command line asks for: an explicit "file" or
    /// "http" wins; anything else, "guess" and absence included, falls
    /// back to what the path suggests.
    pub fn new(arg: Option<&str>, path: &str) -> (r: Source)
        ensures
            (match arg {
                Some(a) => r == (if a@ == "file"@ {
                    Source::File
                } else if a@ == "http"@ {
                    Source::Http
                } else {
                    spec_guess_source(path.spec_bytes())
                }),
                None => r == spec_guess_source(path.spec_bytes()),
            }),
    {
        match arg {
            Some(a) => {
                if str_eq(a, "file") {
                    Source::File
                } else if str_eq(a, "http") {
                    Source::Http
                } else {
                    guess_source(path)
                }
            },
            None => guess_source(path),
        }
    }
}

} // verus!
