//! Decoding valid UTF-8: every character's encoding reads back as that
//! character, whatever its length, and a valid byte string decodes to its
//! own characters with nothing left over.
use vstd::prelude::*;
use vstd::utf8::{
    encode_scalar, encode_utf8, has_width_1_encoding, has_width_2_encoding, has_width_3_encoding,
    has_width_4_encoding, is_scalar, last_continuation_byte, leading_byte_width_1,
    leading_byte_width_2, leading_byte_width_3, leading_byte_width_4,
    second_last_continuation_byte, third_last_continuation_byte,
};
use crate::terminal::parser::{
    decode_stream, is_continuation, lemma_decode_unfold, lemma_utf8_step_extend, scalar2, scalar3,
    scalar4, second_of_four_ok, second_of_three_ok, utf8_step, Utf8Step,
};

verus! {

proof fn lemma_width_1_bits(v: u32)
    by (bit_vector)
    requires
        has_width_1_encoding(v),
    ensures
        leading_byte_width_1(v) < 0x80,
        leading_byte_width_1(v) as u32 == v,
{
}

proof fn lemma_width_2_bits(v: u32)
    by (bit_vector)
    requires
        has_width_2_encoding(v),
    ensures
        0xC2 <= leading_byte_width_2(v) <= 0xDF,
        0x80 <= last_continuation_byte(v) <= 0xBF,
        scalar2(leading_byte_width_2(v), last_continuation_byte(v)) == v,
{
}

proof fn lemma_width_3_bits(v: u32)
    by (bit_vector)
    requires
        has_width_3_encoding(v),
    ensures
        0xE0 <= leading_byte_width_3(v) <= 0xEF,
        second_of_three_ok(leading_byte_width_3(v), second_last_continuation_byte(v)),
        0x80 <= last_continuation_byte(v) <= 0xBF,
        scalar3(
            leading_byte_width_3(v),
            second_last_continuation_byte(v),
            last_continuation_byte(v),
        ) == v,
{
}

proof fn lemma_width_4_bits(v: u32)
    by (bit_vector)
    requires
        has_width_4_encoding(v),
    ensures
        0xF0 <= leading_byte_width_4(v) <= 0xF4,
        second_of_four_ok(leading_byte_width_4(v), third_last_continuation_byte(v)),
        0x80 <= second_last_continuation_byte(v) <= 0xBF,
        0x80 <= last_continuation_byte(v) <= 0xBF,
        scalar4(
            leading_byte_width_4(v),
            third_last_continuation_byte(v),
            second_last_continuation_byte(v),
            last_continuation_byte(v),
        ) == v,
{
}

/// The decoder reads the UTF-8 encoding of any character `c` as one
/// complete step giving `c` itself, using all of its bytes.
pub proof fn law_char_encoding_decodes_to_itself(c: char)
    ensures
        utf8_step(encode_scalar(c as u32)) == Utf8Step::Scalar(
            c,
            encode_scalar(c as u32).len() as usize,
        ),
        1 <= encode_scalar(c as u32).len() <= 4,
{
    let v = c as u32;
    vstd::utf8::char_is_scalar(c);
    vstd::utf8::char_u32_cast(c, v);
    let e = encode_scalar(v);
    if has_width_1_encoding(v) {
        lemma_width_1_bits(v);
        assert(e[0] == leading_byte_width_1(v));
        assert((e[0] as char) == (v as char));
    } else if has_width_2_encoding(v) {
        lemma_width_2_bits(v);
        assert(e[0] == leading_byte_width_2(v) && e[1] == last_continuation_byte(v));
        assert(is_continuation(e[1]));
    } else if has_width_3_encoding(v) {
        lemma_width_3_bits(v);
        assert(e[0] == leading_byte_width_3(v) && e[1] == second_last_continuation_byte(v)
            && e[2] == last_continuation_byte(v));
        assert(is_continuation(e[2]));
    } else {
        assert(has_width_4_encoding(v));
        lemma_width_4_bits(v);
        assert(e[0] == leading_byte_width_4(v) && e[1] == third_last_continuation_byte(v)
            && e[2] == second_last_continuation_byte(v) && e[3] == last_continuation_byte(v));
        assert(is_continuation(e[2]) && is_continuation(e[3]));
    }
}

/// Valid UTF-8 decodes to its own characters: the bytes of any string
/// decode to exactly that string, with no replacement characters and no
/// bytes kept back.
pub proof fn law_valid_utf8_decodes_to_its_chars(s: Seq<char>)
    ensures
        decode_stream(encode_utf8(s)) == (s, Seq::<u8>::empty()),
    decreases s.len(),
{
    if s.len() == 0 {
        assert(encode_utf8(s) =~= Seq::<u8>::empty());
    } else {
        let c = s[0];
        let e = encode_scalar(c as u32);
        let rest = encode_utf8(s.drop_first());
        law_char_encoding_decodes_to_itself(c);
        lemma_utf8_step_extend(e, rest);
        let d = encode_utf8(s);
        assert(d == e + rest);
        lemma_decode_unfold(d);
        assert(d.skip(e.len() as int) =~= rest);
        law_valid_utf8_decodes_to_its_chars(s.drop_first());
        assert(seq![c] + s.drop_first() =~= s);
    }
}

} // verus!
