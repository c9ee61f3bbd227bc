use vstd::prelude::*;
use vstd::utf8::{
    char_is_scalar, codepoint_width_1, codepoint_width_2, codepoint_width_3, codepoint_width_4,
    decode_first_codepoint, encode_scalar, has_width_1_encoding, has_width_2_encoding,
    has_width_3_encoding, is_continuation_byte, is_leading_byte_width_1, is_leading_byte_width_2,
    is_leading_byte_width_3, is_leading_byte_width_4, is_scalar, length_of_first_codepoint,
    not_overlong_encoding, valid_leading_and_continuation_bytes_first_codepoint,
};
use vstd::string::StringSliceAdditionalSpecFns;

verus! {

/// The bytes that `encode_utf8` writes for `cp`: the UTF-8 bit layout, applied
/// to any value (surrogate code points included).
pub open spec fn spec_encode_code_point(cp: u32) -> Seq<u8> {
    if cp <= 0x7F {
        seq![cp as u8]
    } else if cp <= 0x7FF {
        seq![0xC0u8 | ((cp >> 6u32) as u8), 0x80u8 | ((cp & 0x3Fu32) as u8)]
    } else if cp <= 0xFFFF {
        seq![
            0xE0u8 | ((cp >> 12u32) as u8),
            0x80u8 | (((cp >> 6u32) & 0x3Fu32) as u8),
            0x80u8 | ((cp & 0x3Fu32) as u8),
        ]
    } else {
        seq![
            0xF0u8 | ((cp >> 18u32) as u8),
            0x80u8 | (((cp >> 12u32) & 0x3Fu32) as u8),
            0x80u8 | (((cp >> 6u32) & 0x3Fu32) as u8),
            0x80u8 | ((cp & 0x3Fu32) as u8),
        ]
    }
}

/// A code point outside the Basic Multilingual Plane.
pub open spec fn is_non_bmp(c: char) -> bool {
    (c as u32) > 0xFFFF
}

/// The high surrogate of a non-BMP code point.
pub open spec fn high_surrogate(cp: u32) -> u32 {
    (0xD800 + (cp - 0x10000) / 0x400) as u32
}

/// The low surrogate of a non-BMP code point.
pub open spec fn low_surrogate(cp: u32) -> u32 {
    (0xDC00 + (cp - 0x10000) % 0x400) as u32
}

/// The UTF-16 code units of one character, each as a code point value.
pub open spec fn utf16_units_of_char(c: char) -> Seq<u32> {
    if is_non_bmp(c) {
        seq![high_surrogate(c as u32), low_surrogate(c as u32)]
    } else {
        seq![c as u32]
    }
}

/// The UTF-16 code units of a character sequence.
pub open spec fn utf16_units(chars: Seq<char>) -> Seq<u32>
    decreases chars.len(),
{
    if chars.len() == 0 {
        seq![]
    } else {
        utf16_units_of_char(chars[0]) + utf16_units(chars.drop_first())
    }
}

/// The bytes written for one character by `encode_utf8_surrogate`: a non-BMP
/// character becomes its two surrogates, each written with the UTF-8 layout.
pub open spec fn spec_encode_char_surrogate(c: char) -> Seq<u8> {
    if is_non_bmp(c) {
        spec_encode_code_point(high_surrogate(c as u32)) + spec_encode_code_point(
            low_surrogate(c as u32),
        )
    } else {
        spec_encode_code_point(c as u32)
    }
}

/// The output of `encode_utf8_surrogate` for a character sequence.
pub open spec fn spec_encode_utf8_surrogate(chars: Seq<char>) -> Seq<u8>
    decreases chars.len(),
{
    if chars.len() == 0 {
        seq![]
    } else {
        spec_encode_char_surrogate(chars[0]) + spec_encode_utf8_surrogate(chars.drop_first())
    }
}

/// Encodes a code point as UTF-8 bytes.
pub fn encode_utf8(code_point: u32) -> (r: Vec<u8>)
    ensures
        r@ == spec_encode_code_point(code_point),
{
    if code_point <= 0x7F {
        vec![code_point as u8]
    } else if code_point <= 0x7FF {
        vec![0xC0u8 | ((code_point >> 6u32) as u8), 0x80u8 | ((code_point & 0x3Fu32) as u8)]
    } else if code_point <= 0xFFFF {
        vec![
            0xE0u8 | ((code_point >> 12u32) as u8),
            0x80u8 | (((code_point >> 6u32) & 0x3Fu32) as u8),
            0x80u8 | ((code_point & 0x3Fu32) as u8),
        ]
    } else {
        vec![
            0xF0u8 | ((code_point >> 18u32) as u8),
            0x80u8 | (((code_point >> 12u32) & 0x3Fu32) as u8),
            0x80u8 | (((code_point >> 6u32) & 0x3Fu32) as u8),
            0x80u8 | ((code_point & 0x3Fu32) as u8),
        ]
    }
}

/// On Unicode scalar values the bytes of `encode_utf8` are the standard UTF-8
/// encoding.
pub proof fn lemma_encode_code_point_is_utf8(cp: u32)
    requires
        is_scalar(cp),
    ensures
        spec_encode_code_point(cp) == encode_scalar(cp),
{
    if has_width_1_encoding(cp) {
        assert(cp <= 0x7Fu32 ==> (cp as u8) == ((cp & 0x7Fu32) as u8)) by (bit_vector);
    } else if has_width_2_encoding(cp) {
        assert(0x80u32 <= cp <= 0x7FFu32 ==> (0xC0u8 | ((cp >> 6u32) as u8)) == (0xC0u8 | ((
        cp >> 6u32) & 0x1Fu32) as u8)) by (bit_vector);
    } else if has_width_3_encoding(cp) {
        assert(0x800u32 <= cp <= 0xFFFFu32 ==> (0xE0u8 | ((cp >> 12u32) as u8)) == (0xE0u8 | ((
        cp >> 12u32) & 0x0Fu32) as u8)) by (bit_vector);
    } else {
        assert(0x10000u32 <= cp <= 0x10FFFFu32 ==> (0xF0u8 | ((cp >> 18u32) as u8)) == (0xF0u8
            | ((cp >> 18u32) & 0x7u32) as u8)) by (bit_vector);
    }
    assert(spec_encode_code_point(cp) =~= encode_scalar(cp));
}

/// Appending one character appends its encoding.
pub proof fn lemma_encode_surrogate_push(chars: Seq<char>, c: char)
    ensures
        spec_encode_utf8_surrogate(chars.push(c)) == spec_encode_utf8_surrogate(chars)
            + spec_encode_char_surrogate(c),
    decreases chars.len(),
{
    if chars.len() == 0 {
        assert(chars.push(c).drop_first() =~= Seq::<char>::empty());
        assert(spec_encode_utf8_surrogate(Seq::<char>::empty()) =~= Seq::<u8>::empty());
        assert(spec_encode_utf8_surrogate(chars.push(c)) =~= spec_encode_char_surrogate(c)
            + spec_encode_utf8_surrogate(Seq::<char>::empty()));
    } else {
        lemma_encode_surrogate_push(chars.drop_first(), c);
        assert(chars.push(c).drop_first() =~= chars.drop_first().push(c));
        assert(spec_encode_utf8_surrogate(chars.push(c)) =~= spec_encode_utf8_surrogate(chars)
            + spec_encode_char_surrogate(c));
    }
}

/// Without non-BMP characters, `encode_utf8_surrogate` writes the standard
/// UTF-8 encoding, which is the string's own bytes.
pub proof fn law_encode_surrogate_bmp_is_utf8(chars: Seq<char>)
    requires
        forall|i: int| 0 <= i < chars.len() ==> !is_non_bmp(#[trigger] chars[i]),
    ensures
        spec_encode_utf8_surrogate(chars) == vstd::utf8::encode_utf8(chars),
    decreases chars.len(),
{
    if chars.len() > 0 {
        assert(!is_non_bmp(chars[0]));
        char_is_scalar(chars[0]);
        lemma_encode_code_point_is_utf8(chars[0] as u32);
        assert forall|i: int| 0 <= i < chars.drop_first().len() implies !is_non_bmp(
            #[trigger] chars.drop_first()[i],
        ) by {
            assert(chars.drop_first()[i] == chars[i + 1]);
        }
        law_encode_surrogate_bmp_is_utf8(chars.drop_first());
    }
}

/// The number of characters outside the Basic Multilingual Plane.
pub open spec fn non_bmp_count(chars: Seq<char>) -> nat
    decreases chars.len(),
{
    if chars.len() == 0 {
        0
    } else {
        (if is_non_bmp(chars[0]) {
            1nat
        } else {
            0nat
        }) + non_bmp_count(chars.drop_first())
    }
}

/// `encode_utf8_surrogate` writes two bytes more than UTF-8 for each non-BMP
/// character (two three-byte surrogates in place of four bytes) and the same
/// bytes for every other one.
pub proof fn law_encode_surrogate_length(chars: Seq<char>)
    ensures
        spec_encode_utf8_surrogate(chars).len() == vstd::utf8::encode_utf8(chars).len() + 2
            * non_bmp_count(chars),
    decreases chars.len(),
{
    if chars.len() > 0 {
        let c = chars[0];
        char_is_scalar(c);
        law_encode_surrogate_length(chars.drop_first());
        if !is_non_bmp(c) {
            lemma_encode_code_point_is_utf8(c as u32);
        }
    }
}

/// Splits a non-BMP code point into its UTF-16 surrogate pair.
fn surrogate_pair(code: u32) -> (r: (u32, u32))
    requires
        0x10000 <= code <= 0x10FFFF,
    ensures
        r.0 == high_surrogate(code),
        r.1 == low_surrogate(code),
        0xD800 <= r.0 <= 0xDBFF,
        0xDC00 <= r.1 <= 0xDFFF,
{
    let v: u32 = code - 0x10000;
    assert((v >> 10u32) == v / 0x400u32) by (bit_vector);
    assert((v & 0x3FFu32) == v % 0x400u32) by (bit_vector);
    (0xD800 + (v >> 10u32), 0xDC00 + (v & 0x3FFu32))
}

/// Converts a string to the pattern encoding the compiler expects: a non-BMP
/// character is written as its surrogate pair, each surrogate in the UTF-8
/// layout; every other character keeps its UTF-8 bytes.
pub fn encode_utf8_surrogate(utf8_str: &str) -> (r: Vec<u8>)
    ensures
        r@ == spec_encode_utf8_surrogate(utf8_str@),
        r@.len() == utf8_str.spec_bytes().len() + 2 * non_bmp_count(utf8_str@),
{
    proof {
        law_encode_surrogate_length(utf8_str@);
    }
    broadcast use vstd::string::axiom_spec_iter;

    let mut has_non_bmp = false;
    for ch in it: utf8_str.chars()
        invariant
            it.seq() == utf8_str@,
            has_non_bmp <==> exists|i: int| 0 <= i < it.index() && is_non_bmp(#[trigger] utf8_str@[i]),
    {
        if ch as u32 > 0xFFFF {
            has_non_bmp = true;
        }
    }
    if !has_non_bmp {
        proof {
            law_encode_surrogate_bmp_is_utf8(utf8_str@);
        }
        let mut out: Vec<u8> = Vec::new();
        out.extend_from_slice(utf8_str.as_bytes());
        assert(out@ =~= utf8_str.spec_bytes());
        return out;
    }
    let mut cvt: Vec<u8> = Vec::new();
    for ch in it: utf8_str.chars()
        invariant
            it.seq() == utf8_str@,
            cvt@ == spec_encode_utf8_surrogate(utf8_str@.take(it.index() as int)),
    {
        let ghost before = utf8_str@.take(it.index() as int);
        let code = ch as u32;
        proof {
            char_is_scalar(ch);
        }
        if code > 0xFFFF {
            let (hi, lo) = surrogate_pair(code);
            let high_bytes = encode_utf8(hi);
            cvt.extend_from_slice(high_bytes.as_slice());
            let low_bytes = encode_utf8(lo);
            cvt.extend_from_slice(low_bytes.as_slice());
        } else {
            let bytes = encode_utf8(code);
            cvt.extend_from_slice(bytes.as_slice());
        }
        proof {
            lemma_encode_surrogate_push(before, ch);
            assert(utf8_str@.take(it.index() + 1) =~= before.push(ch));
        }
    }
    assert(utf8_str@.take(utf8_str@.len() as int) =~= utf8_str@);
    cvt
}

/// The bytes begin with one code point in the UTF-8 layout, surrogate code
/// points allowed, overlong forms and values above 0x10FFFF refused.
pub open spec fn first_code_point_ok(b: Seq<u8>) -> bool {
    &&& valid_leading_and_continuation_bytes_first_codepoint(b)
    &&& not_overlong_encoding(decode_first_codepoint(b), length_of_first_codepoint(b))
}

/// Puts `prefix` in front of a decoding result.
pub open spec fn prepend_code_points(prefix: Seq<u32>, rest: Option<Seq<u32>>) -> Option<Seq<u32>> {
    match rest {
        Some(r) => Some(prefix + r),
        None => None,
    }
}

/// The code points of a pattern in the compiler's input encoding, or `None`
/// when the bytes are malformed.
pub open spec fn pattern_code_points(b: Seq<u8>) -> Option<Seq<u32>>
    decreases b.len(),
{
    if b.len() == 0 {
        Some(seq![])
    } else if first_code_point_ok(b) {
        prepend_code_points(
            seq![decode_first_codepoint(b)],
            pattern_code_points(b.subrange(length_of_first_codepoint(b), b.len() as int)),
        )
    } else {
        None
    }
}

/// The code point values of a character sequence.
pub open spec fn char_code_points(chars: Seq<char>) -> Seq<u32> {
    Seq::new(chars.len(), |i: int| chars[i] as u32)
}

/// Decoding the bytes of one encoded code point in front of other bytes yields
/// that code point in front of what the other bytes decode to.
pub proof fn lemma_decode_encoded_code_point(cp: u32, rest: Seq<u8>)
    requires
        cp <= 0x10FFFF,
    ensures
        pattern_code_points(spec_encode_code_point(cp) + rest) == prepend_code_points(
            seq![cp],
            pattern_code_points(rest),
        ),
{
    let e = spec_encode_code_point(cp);
    let b = e + rest;
    if cp <= 0x7F {
        assert(cp <= 0x7Fu32 ==> is_leading_byte_width_1(cp as u8) && codepoint_width_1(cp as u8)
            == cp) by (bit_vector);
    } else if cp <= 0x7FF {
        assert(0x80u32 <= cp <= 0x7FFu32 ==> is_leading_byte_width_2(0xC0u8 | ((cp >> 6u32) as u8))
            && is_continuation_byte(0x80u8 | ((cp & 0x3Fu32) as u8)) && codepoint_width_2(
            0xC0u8 | ((cp >> 6u32) as u8),
            0x80u8 | ((cp & 0x3Fu32) as u8),
        ) == cp) by (bit_vector);
    } else if cp <= 0xFFFF {
        assert(0x800u32 <= cp <= 0xFFFFu32 ==> is_leading_byte_width_3(
            0xE0u8 | ((cp >> 12u32) as u8),
        ) && is_continuation_byte(0x80u8 | (((cp >> 6u32) & 0x3Fu32) as u8)) && is_continuation_byte(
            0x80u8 | ((cp & 0x3Fu32) as u8),
        ) && codepoint_width_3(
            0xE0u8 | ((cp >> 12u32) as u8),
            0x80u8 | (((cp >> 6u32) & 0x3Fu32) as u8),
            0x80u8 | ((cp & 0x3Fu32) as u8),
        ) == cp) by (bit_vector);
    } else {
        assert(0x10000u32 <= cp <= 0x10FFFFu32 ==> is_leading_byte_width_4(
            0xF0u8 | ((cp >> 18u32) as u8),
        ) && is_continuation_byte(0x80u8 | (((cp >> 12u32) & 0x3Fu32) as u8))
            && is_continuation_byte(0x80u8 | (((cp >> 6u32) & 0x3Fu32) as u8))
            && is_continuation_byte(0x80u8 | ((cp & 0x3Fu32) as u8)) && codepoint_width_4(
            0xF0u8 | ((cp >> 18u32) as u8),
            0x80u8 | (((cp >> 12u32) & 0x3Fu32) as u8),
            0x80u8 | (((cp >> 6u32) & 0x3Fu32) as u8),
            0x80u8 | ((cp & 0x3Fu32) as u8),
        ) == cp) by (bit_vector);
    }
    assert(b[0] == e[0]);
    assert(first_code_point_ok(b));
    assert(length_of_first_codepoint(b) == e.len());
    assert(decode_first_codepoint(b) == cp);
    assert(b.subrange(e.len() as int, b.len() as int) =~= rest);
}

/// The bytes written by `encode_utf8_surrogate` decode to the UTF-16 code
/// units of the string: the input the compiler needs without Unicode mode.
pub proof fn law_surrogate_encoding_decodes_to_utf16(chars: Seq<char>)
    ensures
        pattern_code_points(spec_encode_utf8_surrogate(chars)) == Some(utf16_units(chars)),
    decreases chars.len(),
{
    if chars.len() == 0 {
        assert(spec_encode_utf8_surrogate(chars) =~= Seq::<u8>::empty());
        assert(utf16_units(chars) =~= Seq::<u32>::empty());
    } else {
        let c = chars[0];
        let tail = spec_encode_utf8_surrogate(chars.drop_first());
        law_surrogate_encoding_decodes_to_utf16(chars.drop_first());
        char_is_scalar(c);
        if is_non_bmp(c) {
            let hi = high_surrogate(c as u32);
            let lo = low_surrogate(c as u32);
            lemma_decode_encoded_code_point(lo, tail);
            lemma_decode_encoded_code_point(hi, spec_encode_code_point(lo) + tail);
            assert(spec_encode_utf8_surrogate(chars) =~= spec_encode_code_point(hi) + (
            spec_encode_code_point(lo) + tail));
            assert(utf16_units(chars) =~= seq![hi] + (seq![lo] + utf16_units(chars.drop_first())));
        } else {
            lemma_decode_encoded_code_point(c as u32, tail);
        }
    }
}

/// The UTF-8 bytes of a string decode to its code points: the input the
/// compiler needs in Unicode mode.
pub proof fn law_utf8_decodes_to_code_points(chars: Seq<char>)
    ensures
        pattern_code_points(vstd::utf8::encode_utf8(chars)) == Some(char_code_points(chars)),
    decreases chars.len(),
{
    if chars.len() == 0 {
        assert(char_code_points(chars) =~= Seq::<u32>::empty());
    } else {
        let c = chars[0];
        char_is_scalar(c);
        lemma_encode_code_point_is_utf8(c as u32);
        law_utf8_decodes_to_code_points(chars.drop_first());
        lemma_decode_encoded_code_point(c as u32, vstd::utf8::encode_utf8(chars.drop_first()));
        assert(char_code_points(chars) =~= seq![c as u32] + char_code_points(chars.drop_first()));
    }
}

/// Reads the code point that starts at `bytes[i]`, with its length in bytes.
fn decode_first(bytes: &[u8], i: usize) -> (r: Option<(u32, usize)>)
    requires
        i < bytes@.len(),
    ensures
        ({
            let rest = bytes@.subrange(i as int, bytes@.len() as int);
            match r {
                Some((cp, len)) => {
                    &&& first_code_point_ok(rest)
                    &&& cp == decode_first_codepoint(rest)
                    &&& len == length_of_first_codepoint(rest)
                },
                None => !first_code_point_ok(rest),
            }
        }),
{
    let ghost rest = bytes@.subrange(i as int, bytes@.len() as int);
    let n = bytes.len();
    let b0 = bytes[i];
    assert(rest[0] == b0);
    if b0 <= 0x7F {
        let cp = (b0 & 0x7F) as u32;
        assert(cp == codepoint_width_1(b0));
        return Some((cp, 1));
    }
    if 0xC0 <= b0 && b0 <= 0xDF {
        if n - i <= 1 || !(0x80 <= bytes[i + 1] && bytes[i + 1] <= 0xBF) {
            return None;
        }
        let b1 = bytes[i + 1];
        assert(rest[1] == b1);
        let cp: u32 = (((b0 & 0x1F) as u32) << 6u32) | ((b1 & 0x3F) as u32);
        assert(cp == codepoint_width_2(b0, b1)) by (bit_vector)
            requires
                cp == (((b0 & 0x1F) as u32) << 6u32) | ((b1 & 0x3F) as u32),
        ;
        if cp < 0x80 {
            return None;
        }
        return Some((cp, 2));
    }
    if 0xE0 <= b0 && b0 <= 0xEF {
        if n - i <= 2 || !(0x80 <= bytes[i + 1] && bytes[i + 1] <= 0xBF) || !(0x80 <= bytes[i + 2]
            && bytes[i + 2] <= 0xBF) {
            return None;
        }
        let b1 = bytes[i + 1];
        let b2 = bytes[i + 2];
        assert(rest[1] == b1 && rest[2] == b2);
        let cp: u32 = (((b0 & 0x0F) as u32) << 12u32) | (((b1 & 0x3F) as u32) << 6u32) | ((b2
            & 0x3F) as u32);
        assert(cp == codepoint_width_3(b0, b1, b2)) by (bit_vector)
            requires
                cp == (((b0 & 0x0F) as u32) << 12u32) | (((b1 & 0x3F) as u32) << 6u32) | ((b2
                    & 0x3F) as u32),
        ;
        if cp < 0x800 {
            return None;
        }
        return Some((cp, 3));
    }
    if 0xF0 <= b0 && b0 <= 0xF7 {
        if n - i <= 3 || !(0x80 <= bytes[i + 1] && bytes[i + 1] <= 0xBF) || !(0x80 <= bytes[i + 2]
            && bytes[i + 2] <= 0xBF) || !(0x80 <= bytes[i + 3] && bytes[i + 3] <= 0xBF) {
            return None;
        }
        let b1 = bytes[i + 1];
        let b2 = bytes[i + 2];
        let b3 = bytes[i + 3];
        assert(rest[1] == b1 && rest[2] == b2 && rest[3] == b3);
        let cp: u32 = (((b0 & 0x07) as u32) << 18u32) | (((b1 & 0x3F) as u32) << 12u32) | (((b2
            & 0x3F) as u32) << 6u32) | ((b3 & 0x3F) as u32);
        assert(cp == codepoint_width_4(b0, b1, b2, b3)) by (bit_vector)
            requires
                cp == (((b0 & 0x07) as u32) << 18u32) | (((b1 & 0x3F) as u32) << 12u32) | (((b2
                    & 0x3F) as u32) << 6u32) | ((b3 & 0x3F) as u32),
        ;
        if cp < 0x10000 || cp > 0x10FFFF {
            return None;
        }
        return Some((cp, 4));
    }
    None
}

/// Decodes a pattern in the compiler's input encoding into its code points;
/// `None` when the bytes are malformed.
pub fn decode_pattern(pattern: &[u8]) -> (r: Option<Vec<u32>>)
    ensures
        match pattern_code_points(pattern@) {
            Some(cps) => r matches Some(v) && v@ == cps,
            None => r is None,
        },
{
    let n = pattern.len();
    let mut out: Vec<u32> = Vec::new();
    let mut i: usize = 0;
    assert(pattern@.subrange(0, n as int) =~= pattern@);
    while i < n
        invariant
            i <= n,
            n == pattern@.len(),
            pattern_code_points(pattern@) == prepend_code_points(
                out@,
                pattern_code_points(pattern@.subrange(i as int, n as int)),
            ),
        decreases n - i,
    {
        let ghost rest = pattern@.subrange(i as int, n as int);
        match decode_first(pattern, i) {
            None => {
                return None;
            },
            Some((cp, len)) => {
                proof {
                    assert(rest.subrange(len as int, rest.len() as int) =~= pattern@.subrange(
                        i + len,
                        n as int,
                    ));
                    assert(out@.push(cp) =~= out@ + seq![cp]);
                    match pattern_code_points(pattern@.subrange(i + len, n as int)) {
                        Some(t) => {
                            assert(out@ + (seq![cp] + t) =~= out@.push(cp) + t);
                        },
                        None => {},
                    }
                }
                out.push(cp);
                i = i + len;
            },
        }
    }
    assert(pattern@.subrange(n as int, n as int) =~= Seq::<u8>::empty());
    assert(out@ + Seq::<u32>::empty() =~= out@);
    Some(out)
}

} // verus!
