//! Small verified string utilities shared by the selection logic.

use vstd::prelude::*;
use vstd::string::StrSliceExecFns;
use vstd::string::StringSliceAdditionalSpecFns;

verus! {

/// Character-for-character equality of two string slices.
pub fn str_eq(a: &str, b: &str) -> (r: bool)
    ensures
        r == (a@ == b@),
{
    let an: usize = a.unicode_len();
    let bn: usize = b.unicode_len();
    if an != bn {
        return false;
    }
    let mut i: usize = 0;
    while i < an
        invariant
            i <= an,
            an == a@.len(),
            an == b@.len(),
            forall|j: int| 0 <= j < i ==> a@[j] == b@[j],
        decreases an - i,
    {
        if a.get_char(i) != b.get_char(i) {
            return false;
        }
        i += 1;
    }
    proof {
        assert(a@ =~= b@);
    }
    true
}

/// True when two '/' bytes stand next to each other somewhere in `b`.
pub open spec fn has_double_slash(b: Seq<u8>) -> bool {
    exists|i: int|
        #![trigger b[i], b[i + 1]]
        0 <= i && i + 1 < b.len() && b[i] == 0x2F && b[i + 1] == 0x2F
}

/// Scans a path for the byte pair "//", the mark of a URL.
pub fn contains_double_slash(path: &str) -> (r: bool)
    ensures
        r == has_double_slash(path.spec_bytes()),
{
    let bytes = path.as_bytes();
    let n: usize = bytes.len();
    if n < 2 {
        return false;
    }
    let mut i: usize = 0;
    while i < n - 1
        invariant
            bytes@ == path.spec_bytes(),
            2 <= n == bytes@.len(),
            i <= n - 1,
            forall|j: int|
                #![trigger bytes@[j], bytes@[j + 1]]
                0 <= j < i ==> !(bytes@[j] == 0x2F && bytes@[j + 1] == 0x2F),
        decreases n - i,
    {
        if bytes[i] == 0x2F && bytes[i + 1] == 0x2F {
            return true;
        }
        i += 1;
    }
    false
}

} // verus!
