//! Byte-level slicing of UTF-8 strings at character boundaries.
use vstd::prelude::*;
use vstd::utf8::{
    decode_utf8, encode_utf8_decode_utf8, encode_utf8_valid_utf8, is_char_boundary,
    is_char_boundary_iff_not_is_continuation_byte, is_char_boundary_start_end_of_seq,
    valid_utf8, valid_utf8_split,
};
use vstd::string::StringSliceAdditionalSpecFns;

verus! {

proof fn lemma_boundary_in_tail(b: Seq<u8>, lo: int, hi: int)
    requires
        valid_utf8(b),
        0 <= lo <= hi <= b.len(),
        is_char_boundary(b, lo),
        is_char_boundary(b, hi),
    ensures
        valid_utf8(b.subrange(lo, b.len() as int)),
        is_char_boundary(b.subrange(lo, b.len() as int), hi - lo),
{
    valid_utf8_split(b, lo);
    let t = b.subrange(lo, b.len() as int);
    if hi == b.len() {
        is_char_boundary_start_end_of_seq(t);
    } else {
        is_char_boundary_iff_not_is_continuation_byte(b, hi);
        is_char_boundary_iff_not_is_continuation_byte(t, hi - lo);
        assert(t[hi - lo] == b[hi]);
    }
}

/// The text of `s` between byte offsets `lo` and `hi`, both character
/// boundaries.
pub fn substr(s: &str, lo: usize, hi: usize) -> (r: &str)
    requires
        lo <= hi <= s.spec_bytes().len(),
        is_char_boundary(s.spec_bytes(), lo as int),
        is_char_boundary(s.spec_bytes(), hi as int),
    ensures
        r.spec_bytes() == s.spec_bytes().subrange(lo as int, hi as int),
        r@ == decode_utf8(s.spec_bytes().subrange(lo as int, hi as int)),
{
    let ghost b = s.spec_bytes();
    proof {
        encode_utf8_valid_utf8(s@);
        lemma_boundary_in_tail(b, lo as int, hi as int);
    }
    let (_, tail) = s.split_at(lo);
    proof {
        assert(tail.spec_bytes() =~= b.subrange(lo as int, b.len() as int));
    }
    let (mid, _) = tail.split_at(hi - lo);
    proof {
        assert(mid.spec_bytes() =~= b.subrange(lo as int, hi as int));
        encode_utf8_decode_utf8(mid@);
    }
    mid
}

} // verus!
