//! Text out of bytes: strict and lenient UTF-8, and the trimming of NULs.

use vstd::prelude::*;
use vstd::utf8::{
    decode_utf8, encode_scalar, encode_utf8, encode_utf8_decode_utf8, encode_utf8_valid_utf8,
    is_char_boundary_iff_not_is_continuation_byte, is_char_boundary_start_end_of_seq, valid_utf8,
};

verus! {

/// `s` with every `c` at its end removed.
pub open spec fn trim_end(s: Seq<char>, c: char) -> Seq<char>
    decreases s.len(),
{
    if s.len() > 0 && s.last() == c {
        trim_end(s.drop_last(), c)
    } else {
        s
    }
}

/// A name for what `String::from_utf8_lossy` makes of `bytes`: their UTF-8
/// reading, with the replacement character in place of each sequence that is
/// not UTF-8. The name has no definition here; all that is used of it is
/// that the same bytes give the same text.
pub uninterp spec fn utf8_lossy(bytes: Seq<u8>) -> Seq<char>;

/// What trimming leaves is the start of the string, does not end with `c`,
/// and is followed in the string by nothing but `c`.
pub proof fn lemma_trim_end(s: Seq<char>, c: char)
    ensures
        trim_end(s, c).len() <= s.len(),
        trim_end(s, c) == s.subrange(0, trim_end(s, c).len() as int),
        trim_end(s, c).len() == 0 || trim_end(s, c).last() != c,
        forall|i: int| trim_end(s, c).len() <= i < s.len() ==> s[i] == c,
    decreases s.len(),
{
    if s.len() > 0 && s.last() == c {
        lemma_trim_end(s.drop_last(), c);
        let kept = trim_end(s, c);
        assert(kept =~= s.subrange(0, kept.len() as int));
    } else {
        assert(s =~= s.subrange(0, s.len() as int));
    }
}

/// Declares `std::string::FromUtf8Error`, the error of `String::from_utf8`,
/// as a type whose values verified code can hold but not look into.
#[verifier::external_type_specification]
#[verifier::external_body]
pub struct ExFromUtf8Error(std::string::FromUtf8Error);

/// Assumed of `String::from_utf8`, not proved: it succeeds exactly on valid
/// UTF-8, and the string it returns is the decoding of the bytes it was
/// given.
pub assume_specification[ String::from_utf8 ](vec: Vec<u8>) -> (res: Result<
    String,
    std::string::FromUtf8Error,
>)
    ensures
        res is Ok <==> valid_utf8(vec@),
        res matches Ok(s) ==> s@ == decode_utf8(vec@),
;

/// Calls `String::from_utf8_lossy` and owns what it returns. Assumed of it,
/// not proved: the text depends on the bytes alone, and so can go by the
/// name [`utf8_lossy`]. What the text is, is not said.
#[verifier::external_body]
pub(crate) fn string_from_utf8_lossy(bytes: &[u8]) -> (s: String)
    ensures
        s@ == utf8_lossy(bytes@),
{
    String::from_utf8_lossy(bytes).into_owned()
}

/// The encoding of a string with one more character at its end is the
/// encoding of the string, then that of the character.
proof fn lemma_encode_push(chars: Seq<char>, c: char)
    ensures
        encode_utf8(chars.push(c)) == encode_utf8(chars) + encode_scalar(c as u32),
    decreases chars.len(),
{
    if chars.len() == 0 {
        assert(chars.push(c).drop_first() =~= chars);
        assert(encode_utf8(chars.push(c)) =~= encode_utf8(chars) + encode_scalar(c as u32));
    } else {
        assert(chars.push(c).drop_first() =~= chars.drop_first().push(c));
        lemma_encode_push(chars.drop_first(), c);
        assert(encode_utf8(chars.push(c)) =~= encode_utf8(chars) + encode_scalar(c as u32));
    }
}

/// The one byte of a scalar below 0x80 is the scalar.
proof fn lemma_low_bits(scalar: u32)
    by (bit_vector)
    requires
        scalar <= 0x7F,
    ensures
        scalar & 0x7F == scalar,
{
}

/// A continuation byte is not zero.
proof fn lemma_continuation_is_not_zero(bits: u8)
    by (bit_vector)
    ensures
        0x80u8 | bits != 0,
{
}

/// A NUL is encoded as one zero byte, and the encoding of any other
/// character ends with a byte that is not zero.
proof fn lemma_encode_scalar_last(c: char)
    ensures
        c == '\0' ==> encode_scalar(c as u32) == seq![0u8],
        c != '\0' ==> encode_scalar(c as u32).len() > 0 && encode_scalar(c as u32).last() != 0,
{
    let scalar = c as u32;
    if scalar <= 0x7F {
        lemma_low_bits(scalar);
    } else {
        lemma_continuation_is_not_zero((scalar & 0x3F) as u8);
    }
}

/// The encoding of a string is the encoding of the string without the NULs
/// at its end, then one zero byte for each of those NULs; and the former
/// does not end with a zero byte.
proof fn lemma_encode_trimmed(chars: Seq<char>)
    ensures
        ({
            let kept = encode_utf8(trim_end(chars, '\0'));
            &&& kept.len() <= encode_utf8(chars).len()
            &&& kept == encode_utf8(chars).subrange(0, kept.len() as int)
            &&& forall|i: int|
                kept.len() <= i < encode_utf8(chars).len() ==> encode_utf8(chars)[i] == 0
            &&& kept.len() == 0 || kept.last() != 0
        }),
    decreases chars.len(),
{
    let kept = encode_utf8(trim_end(chars, '\0'));
    if chars.len() > 0 {
        let head = chars.drop_last();
        assert(chars =~= head.push(chars.last()));
        lemma_encode_push(head, chars.last());
        lemma_encode_scalar_last(chars.last());
        if chars.last() == '\0' {
            lemma_encode_trimmed(head);
            assert(kept =~= encode_utf8(chars).subrange(0, kept.len() as int));
        } else {
            assert(kept =~= encode_utf8(chars).subrange(0, kept.len() as int));
        }
    } else {
        assert(kept =~= encode_utf8(chars).subrange(0, kept.len() as int));
    }
}

/// The slice of `s` that is left when the NULs at its end are removed.
pub fn trim_end_nuls(s: &str) -> (trimmed: &str)
    ensures
        trimmed@ == trim_end(s@, '\0'),
{
    let bytes = s.as_bytes();
    let mut end: usize = bytes.len();
    while end > 0 && bytes[end - 1] == 0
        invariant
            end <= bytes.len(),
            forall|i: int| end <= i < bytes.len() ==> bytes[i] == 0,
        decreases end,
    {
        end = end - 1;
    }
    proof {
        let kept = encode_utf8(trim_end(s@, '\0'));
        lemma_encode_trimmed(s@);
        assert(end == kept.len()) by {
            if end < kept.len() {
                assert(bytes[kept.len() - 1] == kept.last());
            }
        }
        encode_utf8_valid_utf8(s@);
        if end < bytes.len() {
            is_char_boundary_iff_not_is_continuation_byte(bytes@, end as int);
        } else {
            is_char_boundary_start_end_of_seq(bytes@);
        }
    }
    let (trimmed, _) = s.split_at(end);
    proof {
        encode_utf8_decode_utf8(trimmed@);
        encode_utf8_decode_utf8(trim_end(s@, '\0'));
    }
    trimmed
}

} // verus!
