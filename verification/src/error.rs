use vstd::prelude::*;

use crate::engine::string_from_utf8_lossy;

verus! {

/// Errors that can occur when working with regular expressions.
#[derive(Debug, Clone, PartialEq)]
pub enum RegexError {
    /// Error compiling a regular expression pattern.
    CompileError(String),
    /// Memory allocation error.
    MemoryError,
    /// Regex execution timeout.
    TimeoutError,
    /// Invalid UTF-8 sequence in input.
    InvalidUtf8,
    /// Invalid capture group index.
    InvalidCaptureIndex(usize),
    /// Invalid bytecode (possibly corrupted).
    InvalidBytecode,
    /// Other internal error.
    InternalError(String),
}

/// Result type for regex operations.
pub type Result<T> = std::result::Result<T, RegexError>;

/// The character of a decimal digit.
pub open spec fn digit_char(d: nat) -> char {
    (d + 48) as char
}

/// The decimal digits of `n`, most significant first, without leading zeros.
pub open spec fn decimal_digits(n: nat) -> Seq<char>
    decreases n,
{
    if n < 10 {
        seq![digit_char(n)]
    } else {
        decimal_digits(n / 10).push(digit_char(n % 10))
    }
}

/// The decimal text of an integer, with a leading minus sign when negative.
pub open spec fn decimal_text(i: int) -> Seq<char> {
    if i < 0 {
        seq!['-'] + decimal_digits((-i) as nat)
    } else {
        decimal_digits(i as nat)
    }
}

/// The bytes of ASCII characters, one each.
pub open spec fn ascii_bytes(cs: Seq<char>) -> Seq<u8> {
    Seq::new(cs.len(), |i: int| cs[i] as u8)
}

/// The message of the error for an unknown engine status code.
pub open spec fn unknown_code_message(code: i32) -> Seq<char> {
    "unknown error code: "@ + decimal_text(code as int)
}

/// Decimal digits are ASCII characters.
proof fn lemma_decimal_digits_ascii(n: nat)
    ensures
        vstd::utf8::is_ascii_chars(decimal_digits(n)),
        forall|i: int|
            0 <= i < decimal_digits(n).len() ==> 48 <= (#[trigger] decimal_digits(n)[i]) as u32
                <= 57,
    decreases n,
{
    if n >= 10 {
        lemma_decimal_digits_ascii(n / 10);
    }
}

/// Appends the decimal digits of `n` to `out`, one byte each.
fn push_decimal(out: &mut Vec<u8>, n: u64)
    ensures
        final(out)@ == old(out)@ + ascii_bytes(decimal_digits(n as nat)),
    decreases n,
{
    if n >= 10 {
        push_decimal(out, n / 10);
    }
    let ghost before = out@;
    let d: u8 = (n % 10) as u8;
    let byte: u8 = 48 + d;
    out.push(byte);
    proof {
        let ds = decimal_digits(n as nat);
        if n >= 10 {
            assert(ds == decimal_digits((n / 10) as nat).push(digit_char((n % 10) as nat)));
            assert(ascii_bytes(ds) =~= ascii_bytes(decimal_digits((n / 10) as nat)).push(byte));
        } else {
            assert(ascii_bytes(ds) =~= seq![byte]);
        }
    }
}

impl RegexError {
    /// Converts an engine status code to an error: `-1` is a memory error,
    /// `-2` a timeout, any other code an internal error that names it.
    pub fn from_c_error(code: i32) -> (r: RegexError)
        ensures
            code == -1 ==> r == RegexError::MemoryError,
            code == -2 ==> r == RegexError::TimeoutError,
            code != -1 && code != -2 ==> (r matches RegexError::InternalError(msg) && msg@
                == unknown_code_message(code)),
    {
        if code == -1 {
            return RegexError::MemoryError;
        }
        if code == -2 {
            return RegexError::TimeoutError;
        }
        let prefix = "unknown error code: ";
        proof {
            reveal_strlit("unknown error code: ");
        }
        let mut bytes: Vec<u8> = Vec::new();
        let prefix_bytes = prefix.as_bytes();
        bytes.extend_from_slice(prefix_bytes);
        let magnitude: u64 = if code < 0 {
            bytes.push(45);
            (-(code as i64)) as u64
        } else {
            code as u64
        };
        let ghost before_digits = bytes@;
        push_decimal(&mut bytes, magnitude);
        proof {
            let chars = unknown_code_message(code);
            lemma_decimal_digits_ascii(magnitude as nat);
            vstd::utf8::is_ascii_chars_encode_utf8(prefix@);
            assert(vstd::utf8::is_ascii_chars(chars));
            vstd::utf8::is_ascii_chars_encode_utf8(chars);
            assert(bytes@ =~= ascii_bytes(chars));
            assert(bytes@ =~= vstd::utf8::encode_utf8(chars));
            vstd::utf8::encode_utf8_valid_utf8(chars);
            vstd::utf8::encode_utf8_decode_utf8(chars);
        }
        RegexError::InternalError(string_from_utf8_lossy(bytes.as_slice()))
    }
}

} // verus!
