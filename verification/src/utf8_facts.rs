use vstd::prelude::*;
use vstd::utf8::*;

verus! {

/// In a valid UTF-8 byte sequence, a continuation byte is never directly preceded
/// by an ASCII byte.
pub proof fn lemma_continuation_not_after_ascii(bytes: Seq<u8>, i: int)
    requires
        valid_utf8(bytes),
        0 < i < bytes.len(),
        is_continuation_byte(bytes[i]),
    ensures
        bytes[i - 1] >= 0x80,
    decreases bytes.len(),
{
    let l = length_of_first_scalar(bytes);
    let rest = pop_first_scalar(bytes);
    assert(valid_utf8(rest));
    assert(rest.len() == bytes.len() - l);
    if i < l {
        // inside the first scalar: bytes[i - 1] is its leading byte or a continuation byte
    } else if i == l {
        assert(rest[0] == bytes[i]);
        assert(rest.len() != 0);
        assert(valid_first_scalar(rest));
    } else {
        assert(rest[i - l] == bytes[i]);
        assert(rest[i - l - 1] == bytes[i - 1]);
        lemma_continuation_not_after_ascii(rest, i - l);
    }
}

/// Positions right after an ASCII byte, or at an ASCII byte, are character boundaries.
pub proof fn lemma_ascii_boundary(bytes: Seq<u8>, i: int)
    requires
        valid_utf8(bytes),
        0 <= i <= bytes.len(),
        i == 0 || i == bytes.len() || bytes[i] < 0x80 || bytes[i - 1] < 0x80,
    ensures
        is_char_boundary(bytes, i),
{
    is_char_boundary_start_end_of_seq(bytes);
    if 0 < i < bytes.len() {
        is_char_boundary_iff_not_is_continuation_byte(bytes, i);
        if is_continuation_byte(bytes[i]) {
            lemma_continuation_not_after_ascii(bytes, i);
        }
    }
}

} // verus!
