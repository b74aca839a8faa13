//! UTF-8 sniffing for input-format detection.
//!
//! A file is taken for flat text when its leading bytes look like UTF-8.
//! "Looks like" is forgiving at the tail: a buffer that was cut off up to
//! three bytes inside a multi-byte character is still accepted, because a
//! sniffing buffer routinely ends mid-character.

use vstd::prelude::*;

verus! {

/// A byte in the range reserved for UTF-8 continuation positions.
pub open spec fn is_cont_byte(b: u8) -> bool {
    0x80 <= b <= 0xBF
}

/// Well-formed UTF-8, following the byte-distribution table of RFC 3629:
/// a sequence of encoded scalar values, shortest-form only, no surrogates,
/// nothing above U+10FFFF.
pub open spec fn is_utf8(s: Seq<u8>) -> bool
    decreases s.len(),
{
    if s.len() == 0 {
        true
    } else {
        let b0 = s[0];
        if b0 < 0x80 {
            is_utf8(s.skip(1))
        } else if 0xC2 <= b0 && b0 <= 0xDF {
            s.len() >= 2 && is_cont_byte(s[1]) && is_utf8(s.skip(2))
        } else if b0 == 0xE0 {
            s.len() >= 3 && 0xA0 <= s[1] && s[1] <= 0xBF && is_cont_byte(s[2]) && is_utf8(s.skip(3))
        } else if (0xE1 <= b0 && b0 <= 0xEC) || b0 == 0xEE || b0 == 0xEF {
            s.len() >= 3 && is_cont_byte(s[1]) && is_cont_byte(s[2]) && is_utf8(s.skip(3))
        } else if b0 == 0xED {
            s.len() >= 3 && 0x80 <= s[1] && s[1] <= 0x9F && is_cont_byte(s[2]) && is_utf8(s.skip(3))
        } else if b0 == 0xF0 {
            s.len() >= 4 && 0x90 <= s[1] && s[1] <= 0xBF && is_cont_byte(s[2]) && is_cont_byte(s[3])
                && is_utf8(s.skip(4))
        } else if 0xF1 <= b0 && b0 <= 0xF3 {
            s.len() >= 4 && is_cont_byte(s[1]) && is_cont_byte(s[2]) && is_cont_byte(s[3])
                && is_utf8(s.skip(4))
        } else if b0 == 0xF4 {
            s.len() >= 4 && 0x80 <= s[1] && s[1] <= 0x8F && is_cont_byte(s[2]) && is_cont_byte(s[3])
                && is_utf8(s.skip(4))
        } else {
            false
        }
    }
}

/// A byte that can never occur in well-formed UTF-8: an overlong lead
/// (0xC0, 0xC1) or a lead beyond U+10FFFF (above 0xF4). One such byte is
/// enough to refuse the whole buffer, chopped tail or not.
pub open spec fn has_refused_byte(s: Seq<u8>) -> bool {
    exists|i: int| 0 <= i < s.len() && (s[i] == 0xC0 || s[i] == 0xC1 || s[i] > 0xF4)
}

/// Checks a whole buffer for well-formed UTF-8.
pub fn utf8_valid(bytes: &[u8]) -> (r: bool)
    ensures
        r == is_utf8(bytes@),
{
    let n: usize = bytes.len();
    let mut i: usize = 0;
    proof {
        assert(bytes@.skip(0) =~= bytes@);
    }
    while i < n
        invariant
            i <= n,
            n == bytes@.len(),
            is_utf8(bytes@) <==> is_utf8(bytes@.skip(i as int)),
        decreases n - i,
    {
        let b0: u8 = bytes[i];
        if b0 < 0x80 {
            proof {
                assert(bytes@.skip(i as int).skip(1) =~= bytes@.skip(i as int + 1));
            }
            i += 1;
        } else if 0xC2 <= b0 && b0 <= 0xDF {
            if n - i < 2 || !(0x80 <= bytes[i + 1] && bytes[i + 1] <= 0xBF) {
                return false;
            }
            proof {
                assert(bytes@.skip(i as int).skip(2) =~= bytes@.skip(i as int + 2));
            }
            i += 2;
        } else if b0 == 0xE0 || (0xE1 <= b0 && b0 <= 0xEF) {
            if n - i < 3 {
                return false;
            }
            let b1: u8 = bytes[i + 1];
            let b2: u8 = bytes[i + 2];
            let lo: u8 = if b0 == 0xE0 { 0xA0 } else { 0x80 };
            let hi: u8 = if b0 == 0xED { 0x9F } else { 0xBF };
            if !(lo <= b1 && b1 <= hi) || !(0x80 <= b2 && b2 <= 0xBF) {
                return false;
            }
            proof {
                assert(bytes@.skip(i as int).skip(3) =~= bytes@.skip(i as int + 3));
            }
            i += 3;
        } else if 0xF0 <= b0 && b0 <= 0xF4 {
            if n - i < 4 {
                return false;
            }
            let b1: u8 = bytes[i + 1];
            let b2: u8 = bytes[i + 2];
            let b3: u8 = bytes[i + 3];
            let lo: u8 = if b0 == 0xF0 { 0x90 } else { 0x80 };
            let hi: u8 = if b0 == 0xF4 { 0x8F } else { 0xBF };
            if !(lo <= b1 && b1 <= hi) || !(0x80 <= b2 && b2 <= 0xBF) || !(0x80 <= b3 && b3 <= 0xBF) {
                return false;
            }
            proof {
                assert(bytes@.skip(i as int).skip(4) =~= bytes@.skip(i as int + 4));
            }
            i += 4;
        } else {
            return false;
        }
    }
    proof {
        assert(bytes@.skip(n as int) =~= Seq::<u8>::empty());
    }
    true
}

/// Drops up to `fuel` continuation bytes from the tail of `s`.
pub open spec fn drop_trailing_conts(s: Seq<u8>, fuel: int) -> Seq<u8>
    decreases fuel,
{
    if fuel <= 0 || s.len() == 0 || !is_cont_byte(s.last()) {
        s
    } else {
        drop_trailing_conts(s.drop_last(), fuel - 1)
    }
}

/// What remains of a buffer after the tail chop: at most three trailing
/// continuation bytes go, then one trailing lead byte if one is exposed.
pub open spec fn chopped(s: Seq<u8>) -> Seq<u8> {
    let v = drop_trailing_conts(s, 3);
    if v.len() > 0 && v.last() > 0xBF {
        v.drop_last()
    } else {
        v
    }
}

/// What the sniffer accepts: no byte that UTF-8 refuses outright; then either
/// the whole buffer is well-formed, or it becomes well-formed once a
/// mid-character tail (up to three continuation bytes and the lead that
/// started them) is chopped off. A buffer that the chop empties out held
/// nothing but a character fragment and is refused.
pub open spec fn spec_looks_like_utf8(s: Seq<u8>) -> bool {
    if has_refused_byte(s) {
        false
    } else if is_utf8(s) {
        true
    } else {
        let v = chopped(s);
        if v.len() < s.len() && v.len() == 0 {
            false
        } else {
            is_utf8(v)
        }
    }
}

/// Decides whether a buffer passes for UTF-8 text, tolerating a tail that
/// was cut off inside one multi-byte character.
pub fn looks_like_utf8(bytes: &[u8]) -> (r: bool)
    ensures
        r == spec_looks_like_utf8(bytes@),
{
    let n: usize = bytes.len();
    let mut i: usize = 0;
    while i < n
        invariant
            i <= n,
            n == bytes@.len(),
            forall|j: int|
                0 <= j < i ==> !(bytes@[j] == 0xC0 || bytes@[j] == 0xC1 || bytes@[j] > 0xF4),
        decreases n - i,
    {
        let b: u8 = bytes[i];
        if b == 0xC0 || b == 0xC1 || b > 0xF4 {
            return false;
        }
        i += 1;
    }
    assert(!has_refused_byte(bytes@));
    if utf8_valid(bytes) {
        return true;
    }
    let mut end: usize = n;
    let mut chop: usize = 0;
    proof {
        assert(bytes@.subrange(0, n as int) =~= bytes@);
    }
    while chop < 3 && end > 0 && 0x80 <= bytes[end - 1] && bytes[end - 1] <= 0xBF
        invariant
            chop <= 3,
            end + chop == n,
            n == bytes@.len(),
            drop_trailing_conts(bytes@, 3) == drop_trailing_conts(
                bytes@.subrange(0, end as int),
                3 - chop,
            ),
        decreases end,
    {
        proof {
            assert(bytes@.subrange(0, end as int).last() == bytes@[end - 1]);
            assert(bytes@.subrange(0, end as int).drop_last() =~= bytes@.subrange(
                0,
                end as int - 1,
            ));
        }
        end -= 1;
        chop += 1;
    }
    proof {
        assert(drop_trailing_conts(bytes@, 3) == bytes@.subrange(0, end as int));
    }
    if end > 0 && bytes[end - 1] > 0xBF {
        proof {
            assert(bytes@.subrange(0, end as int).drop_last() =~= bytes@.subrange(
                0,
                end as int - 1,
            ));
        }
        end -= 1;
        chop += 1;
    }
    assert(chopped(bytes@) == bytes@.subrange(0, end as int));
    if chop > 0 && end == 0 {
        return false;
    }
    let head = &bytes[0..end];
    utf8_valid(head)
}

/// Number of bytes that the lead byte `b0` of a well-formed encoding claims.
pub open spec fn cp_len(b0: u8) -> int {
    if b0 < 0x80 {
        1
    } else if b0 <= 0xDF {
        2
    } else if b0 <= 0xEF {
        3
    } else {
        4
    }
}

/// The empty buffer passes the sniffer.
pub proof fn lemma_empty_accepted()
    ensures
        spec_looks_like_utf8(Seq::<u8>::empty()),
{
}

/// One overlong or out-of-range lead byte anywhere refuses the whole
/// buffer, wherever the buffer was cut.
pub proof fn lemma_refused_byte_rejected(s: Seq<u8>, i: int)
    requires
        0 <= i < s.len(),
        s[i] == 0xC0 || s[i] == 0xC1 || s[i] > 0xF4,
    ensures
        !spec_looks_like_utf8(s),
{
}

/// Well-formed UTF-8 never contains a byte that the sniffer refuses
/// outright.
pub proof fn lemma_utf8_no_refused_byte(s: Seq<u8>)
    requires
        is_utf8(s),
    ensures
        !has_refused_byte(s),
    decreases s.len(),
{
    if s.len() > 0 {
        let l = cp_len(s[0]);
        lemma_utf8_no_refused_byte(s.skip(l));
        assert forall|i: int| 0 <= i < s.len() implies !(s[i] == 0xC0 || s[i] == 0xC1 || s[i]
            > 0xF4) by {
            if i >= l {
                assert(s[i] == s.skip(l)[i - l]);
            }
        }
    }
}

/// A buffer that is well-formed UTF-8 throughout passes the sniffer.
pub proof fn lemma_utf8_accepted(s: Seq<u8>)
    requires
        is_utf8(s),
    ensures
        spec_looks_like_utf8(s),
{
    lemma_utf8_no_refused_byte(s);
}

/// Appending to well-formed UTF-8 keeps or breaks well-formedness exactly
/// as the appended part alone would: codepoint boundaries cannot reach
/// back across the seam.
pub proof fn lemma_utf8_concat(w: Seq<u8>, p: Seq<u8>)
    requires
        is_utf8(w),
    ensures
        is_utf8(w + p) <==> is_utf8(p),
    decreases w.len(),
{
    if w.len() == 0 {
        assert(w + p =~= p);
    } else {
        let l = cp_len(w[0]);
        lemma_utf8_concat(w.skip(l), p);
        assert((w + p).skip(l) =~= w.skip(l) + p);
        assert(is_utf8(w + p) <==> is_utf8((w + p).skip(l)));
    }
}

/// A nonempty proper prefix of one well-formed multi-byte encoding: the
/// shape a buffer tail takes when it was cut off inside a character.
pub open spec fn is_partial_codepoint(p: Seq<u8>) -> bool {
    &&& 1 <= p.len() < cp_len(p[0])
    &&& {
        ||| 0xC2 <= p[0] <= 0xDF
        ||| (p[0] == 0xE0 && (p.len() < 2 || 0xA0 <= p[1] <= 0xBF))
        ||| (((0xE1 <= p[0] && p[0] <= 0xEC) || p[0] == 0xEE || p[0] == 0xEF) && (p.len() < 2
            || is_cont_byte(p[1])))
        ||| (p[0] == 0xED && (p.len() < 2 || 0x80 <= p[1] <= 0x9F))
        ||| (p[0] == 0xF0 && (p.len() < 2 || 0x90 <= p[1] <= 0xBF) && (p.len() < 3
            || is_cont_byte(p[2])))
        ||| (0xF1 <= p[0] <= 0xF3 && (p.len() < 2 || is_cont_byte(p[1])) && (p.len() < 3
            || is_cont_byte(p[2])))
        ||| (p[0] == 0xF4 && (p.len() < 2 || 0x80 <= p[1] <= 0x8F) && (p.len() < 3
            || is_cont_byte(p[2])))
    }
}

/// Well-formed UTF-8 followed by one character fragment passes the
/// sniffer: the chop removes exactly the fragment.
pub proof fn lemma_fragment_after_valid(w: Seq<u8>, p: Seq<u8>)
    requires
        is_utf8(w),
        w.len() > 0,
        is_partial_codepoint(p),
    ensures
        spec_looks_like_utf8(w + p),
{
    let t = w + p;
    lemma_utf8_no_refused_byte(w);
    assert forall|i: int| 0 <= i < t.len() implies !(t[i] == 0xC0 || t[i] == 0xC1 || t[i]
        > 0xF4) by {
        if i < w.len() {
            assert(t[i] == w[i]);
        } else {
            assert(t[i] == p[i - w.len()]);
        }
    }
    lemma_utf8_concat(w, p);
    assert(!is_utf8(p));
    // The chop peels p off again: its continuation bytes first, then its
    // lead byte, leaving exactly w.
    if p.len() == 1 {
        assert(!is_cont_byte(t.last()));
        assert(drop_trailing_conts(t, 3) == t);
        assert(t.drop_last() =~= w);
    } else if p.len() == 2 {
        assert(is_cont_byte(t.last()));
        assert(t.drop_last() =~= w + p.take(1));
        assert(drop_trailing_conts(t, 3) == drop_trailing_conts(w + p.take(1), 2));
        assert(!is_cont_byte((w + p.take(1)).last()));
        assert((w + p.take(1)).drop_last() =~= w);
    } else {
        assert(p.len() == 3);
        assert(is_cont_byte(t.last()));
        assert(t.drop_last() =~= w + p.take(2));
        assert(drop_trailing_conts(t, 3) == drop_trailing_conts(w + p.take(2), 2));
        assert(is_cont_byte((w + p.take(2)).last()));
        assert((w + p.take(2)).drop_last() =~= w + p.take(1));
        assert(drop_trailing_conts(w + p.take(2), 2) == drop_trailing_conts(w + p.take(1), 1));
        assert(!is_cont_byte((w + p.take(1)).last()));
        assert((w + p.take(1)).drop_last() =~= w);
    }
    assert(chopped(t) == w);
}

/// Splits a truncation of well-formed UTF-8 into the well-formed part and
/// the fragment of the one character the cut landed in.
proof fn lemma_truncation_decomposition(s: Seq<u8>, k: int) -> (r: (Seq<u8>, Seq<u8>))
    requires
        is_utf8(s),
        0 <= k <= 3,
        k <= s.len(),
    ensures
        s.take(s.len() - k) =~= r.0 + r.1,
        is_utf8(r.0),
        r.1.len() == 0 || is_partial_codepoint(r.1),
    decreases s.len(),
{
    let m = s.len() - k;
    let t = s.take(m);
    if s.len() == 0 {
        assert(t =~= Seq::<u8>::empty() + Seq::<u8>::empty());
        (Seq::empty(), Seq::empty())
    } else {
        let l = cp_len(s[0]);
        let c = s.take(l);
        if m >= l {
            let (w1, p1) = lemma_truncation_decomposition(s.skip(l), k);
            assert(s.skip(l).len() - k == m - l);
            assert(w1 + p1 =~= s.skip(l).take(m - l));
            assert((c + w1).skip(l) =~= w1);
            assert(forall|j: int| 0 <= j < l ==> (c + w1)[j] == s[j]);
            assert(is_utf8(c + w1));
            assert(c + (w1 + p1) =~= t);
            assert((c + w1) + p1 =~= c + (w1 + p1));
            (c + w1, p1)
        } else if m == 0 {
            assert(t =~= Seq::<u8>::empty() + Seq::<u8>::empty());
            (Seq::empty(), Seq::empty())
        } else {
            assert(is_partial_codepoint(t));
            assert(t =~= Seq::<u8>::empty() + t);
            (Seq::empty(), t)
        }
    }
}

/// A well-formed buffer cut off up to three bytes before its end still
/// passes the sniffer, unless the cut leaves nothing but the fragment of
/// a single character.
pub proof fn lemma_truncated_accepted(s: Seq<u8>, k: int)
    requires
        is_utf8(s),
        0 <= k <= 3,
        k <= s.len(),
    ensures
        spec_looks_like_utf8(s.take(s.len() - k)) || is_partial_codepoint(s.take(s.len() - k)),
{
    let t = s.take(s.len() - k);
    let (w, p) = lemma_truncation_decomposition(s, k);
    if p.len() == 0 {
        assert(t =~= w);
        lemma_utf8_accepted(t);
    } else if w.len() > 0 {
        lemma_fragment_after_valid(w, p);
    } else {
        assert(t =~= p);
    }
}

} // verus!
