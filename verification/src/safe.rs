use vstd::prelude::*;

use crate::encoding::{decode_pattern, pattern_code_points};
use crate::engine::{
    engine_match_in_bounds, engine_match_value, engine_parse_outcome, engine_search_ucs2,
    engine_search_utf16, engine_ucs2_first_match, engine_utf16_first_match,
    string_from_utf8_lossy, utf8_lossy, EngineMatch,
};
use crate::error::{RegexError, Result};
use crate::flags::{
    flag_on, is_flag_bit, spec_is_unicode, RegexFlags, LRE_FLAG_DOTALL, LRE_FLAG_IGNORECASE,
    LRE_FLAG_MULTILINE, LRE_FLAG_NAMED_GROUPS, LRE_FLAG_STICKY, LRE_FLAG_UNICODE,
    LRE_FLAG_UNICODE_SETS,
};
use crate::pattern::{
    is_non_capturing_opener, law_non_capturing_opener_adds_no_group, lemma_scan_bounds,
    scan_capture_groups, scan_groups, shifted_entry,
};

verus! {

/// The most capture groups a pattern may have, group 0 included.
pub const CAPTURE_COUNT_MAX: usize = 255;

/// The message of the error for a pattern whose bytes are malformed.
pub open spec fn malformed_message() -> Seq<char> {
    "malformed unicode char"@
}

/// The message of the error for a pattern with too many capture groups.
pub open spec fn too_many_captures_message() -> Seq<char> {
    "too many captures"@
}

/// Some code point lies outside the Basic Multilingual Plane.
pub open spec fn has_non_bmp_code_point(cps: Seq<u32>) -> bool {
    exists|i: int| 0 <= i < cps.len() && #[trigger] cps[i] > 0xFFFF
}

/// Some capture group of the scan is named.
pub open spec fn has_named_group(groups: Seq<Option<(usize, usize)>>) -> bool {
    exists|i: int| 0 <= i < groups.len() && #[trigger] groups[i] is Some
}

/// The flags a compiled pattern reports: the requested ones (16 bits kept),
/// plus the named-groups flag when the pattern names a group.
pub open spec fn compiled_flags(pattern: Seq<u8>, flags: u32) -> u32 {
    (flags & 0xFFFF) | (if has_named_group(scan_groups(pattern, 0)) {
        LRE_FLAG_NAMED_GROUPS
    } else {
        0
    })
}

/// The name of each capture group after group 0, in order; empty for an
/// unnamed group.
pub open spec fn group_name_table(pattern: Seq<u8>) -> Seq<Seq<char>> {
    let groups = scan_groups(pattern, 0);
    Seq::new(
        groups.len(),
        |i: int|
            match groups[i] {
                Some((s, e)) => utf8_lossy(pattern.subrange(s as int, e as int)),
                None => Seq::<char>::empty(),
            },
    )
}

/// The abstract content of a compiled pattern.
pub struct CompiledView {
    pub pattern: Seq<u32>,
    pub flags: u32,
    pub capture_count: nat,
    pub group_names: Seq<Seq<char>>,
}

/// What compiling `pattern` with `flags` gives, as a value of the library:
/// `Ok` with the compiled view, or the error message.
pub open spec fn compile_outcome(pattern: Seq<u8>, flags: u32) -> std::result::Result<
    CompiledView,
    Seq<char>,
> {
    match pattern_code_points(pattern) {
        None => Err(malformed_message()),
        Some(cps) => if !spec_is_unicode(flags) && has_non_bmp_code_point(cps) {
            Err(malformed_message())
        } else if scan_groups(pattern, 0).len() + 1 > CAPTURE_COUNT_MAX {
            Err(too_many_captures_message())
        } else {
            match engine_parse_outcome(
                cps,
                flag_on(flags, LRE_FLAG_IGNORECASE),
                flag_on(flags, LRE_FLAG_MULTILINE),
                flag_on(flags, LRE_FLAG_DOTALL),
                flag_on(flags, LRE_FLAG_UNICODE),
                flag_on(flags, LRE_FLAG_UNICODE_SETS),
            ) {
                Err(text) => Err(text),
                Ok(()) => Ok(
                    CompiledView {
                        pattern: cps,
                        flags: compiled_flags(pattern, flags),
                        capture_count: scan_groups(pattern, 0).len() + 1,
                        group_names: group_name_table(pattern),
                    },
                ),
            }
        },
    }
}

/// The engine's five flags, read from the library's flag bits.
pub open spec fn engine_flags(flags: u32) -> (bool, bool, bool, bool, bool) {
    (
        flag_on(flags, LRE_FLAG_IGNORECASE),
        flag_on(flags, LRE_FLAG_MULTILINE),
        flag_on(flags, LRE_FLAG_DOTALL),
        flag_on(flags, LRE_FLAG_UNICODE),
        flag_on(flags, LRE_FLAG_UNICODE_SETS),
    )
}

/// The engine accepts the compiled pattern with its flags.
pub open spec fn engine_accepts(v: CompiledView) -> bool {
    let f = engine_flags(v.flags);
    engine_parse_outcome(v.pattern, f.0, f.1, f.2, f.3, f.4) is Ok
}

/// The engine's first match for a compiled pattern in `text` from code unit
/// `start`; `utf16` reads surrogate pairs as one character.
pub open spec fn engine_answer(v: CompiledView, text: Seq<u16>, start: usize, utf16: bool) -> Option<
    (usize, usize, Seq<Option<(usize, usize)>>),
> {
    let f = engine_flags(v.flags);
    if utf16 {
        engine_utf16_first_match(v.pattern, f.0, f.1, f.2, f.3, f.4, text, start)
    } else {
        engine_ucs2_first_match(v.pattern, f.0, f.1, f.2, f.3, f.4, text, start)
    }
}

/// Information about a compiled regex: the engine's program, the flags, the
/// number of capture groups (group 0 included) and the group names.
#[derive(Debug)]
pub struct RegexInfo {
    pattern: Vec<u32>,
    flags: RegexFlags,
    capture_count: usize,
    group_names: Vec<String>,
}

impl View for RegexInfo {
    type V = CompiledView;

    closed spec fn view(&self) -> CompiledView {
        CompiledView {
            pattern: self.pattern@,
            flags: self.flags@,
            capture_count: self.capture_count as nat,
            group_names: self.group_names@.map_values(|s: String| s@),
        }
    }
}

impl RegexInfo {
    #[verifier::type_invariant]
    closed spec fn inv(self) -> bool {
        &&& self.capture_count == self.group_names@.len() + 1
        &&& self.capture_count <= CAPTURE_COUNT_MAX
        &&& engine_accepts(self@)
    }

    /// The flags the compiled pattern reports.
    pub fn flags(&self) -> (r: RegexFlags)
        ensures
            r@ == self@.flags,
    {
        self.flags
    }

    /// Number of capture groups, group 0 (the whole match) included.
    pub fn capture_count(&self) -> (r: usize)
        ensures
            r == self@.capture_count,
            1 <= r <= CAPTURE_COUNT_MAX,
            self@.group_names.len() + 1 == r,
    {
        proof {
            use_type_invariant(self);
        }
        self.capture_count
    }
}

/// Keeping the low 16 bits and adding the named-groups flag leaves the
/// engine's flags as requested.
proof fn lemma_compiled_flags_keep_engine_flags(flags: u32, named: u32)
    requires
        named == 0 || named == LRE_FLAG_NAMED_GROUPS,
    ensures
        engine_flags((flags & 0xFFFF) | named) == engine_flags(flags),
        spec_is_unicode((flags & 0xFFFF) | named) == spec_is_unicode(flags),
{
    assert(named == 0u32 || named == 128u32 ==> {
        &&& (((flags & 0xFFFFu32) | named) & 2u32 == 2u32) == (flags & 2u32 == 2u32)
        &&& (((flags & 0xFFFFu32) | named) & 4u32 == 4u32) == (flags & 4u32 == 4u32)
        &&& (((flags & 0xFFFFu32) | named) & 8u32 == 8u32) == (flags & 8u32 == 8u32)
        &&& (((flags & 0xFFFFu32) | named) & 16u32 == 16u32) == (flags & 16u32 == 16u32)
        &&& (((flags & 0xFFFFu32) | named) & 256u32 == 256u32) == (flags & 256u32 == 256u32)
    }) by (bit_vector);
}

/// A compiled pattern reports exactly the flags it was compiled with, plus
/// the named-groups flag when the pattern names a group.
pub proof fn law_compile_reports_requested_flags(pattern: Seq<u8>, flags: u32, flag: u32)
    requires
        is_flag_bit(flag),
    ensures
        compile_outcome(pattern, flags) matches Ok(view) ==> (flag_on(view.flags, flag) <==> (
        flag_on(flags, flag) || (flag == LRE_FLAG_NAMED_GROUPS && has_named_group(
            scan_groups(pattern, 0),
        )))),
{
    let named: u32 = if has_named_group(scan_groups(pattern, 0)) {
        LRE_FLAG_NAMED_GROUPS
    } else {
        0
    };
    assert((((flags & 0xFFFFu32) | named) & flag == flag) <==> (flags & flag == flag || (named
        == 128u32 && flag == 128u32))) by (bit_vector)
        requires
            flag == 1u32 || flag == 2u32 || flag == 4u32 || flag == 8u32 || flag == 16u32 || flag
                == 32u32 || flag == 64u32 || flag == 128u32 || flag == 256u32,
            named == 0u32 || named == 128u32,
    ;
}

/// Compiles a pattern given in the compiler's input encoding (UTF-8 layout,
/// surrogate code points allowed).
pub fn compile(pattern: &[u8], flags: RegexFlags) -> (r: Result<RegexInfo>)
    ensures
        match compile_outcome(pattern@, flags@) {
            Ok(view) => r matches Ok(info) && info@ == view,
            Err(msg) => r matches Err(RegexError::CompileError(m)) && m@ == msg,
        },
        r matches Ok(info) ==> forall|i: int|
            0 <= i < scan_groups(pattern@, 0).len() ==> (#[trigger] scan_groups(pattern@, 0)[i]
                matches Some((s, e)) ==> (vstd::utf8::valid_utf8(
                pattern@.subrange(s as int, e as int),
            ) ==> info@.group_names[i] == vstd::utf8::decode_utf8(
                pattern@.subrange(s as int, e as int),
            ))),
{
    let cps = match decode_pattern(pattern) {
        None => {
            proof {
                reveal_strlit("malformed unicode char");
            }
            return Err(RegexError::CompileError("malformed unicode char".to_owned()));
        },
        Some(v) => v,
    };
    if !flags.is_unicode() {
        let mut i: usize = 0;
        while i < cps.len()
            invariant
                i <= cps@.len(),
                forall|j: int| 0 <= j < i ==> cps@[j] <= 0xFFFF,
                !spec_is_unicode(flags@),
                pattern_code_points(pattern@) == Some(cps@),
            decreases cps@.len() - i,
        {
            if cps[i] > 0xFFFF {
                proof {
                    reveal_strlit("malformed unicode char");
                    assert(cps@[i as int] > 0xFFFF);
                    assert(has_non_bmp_code_point(cps@));
                }
                return Err(RegexError::CompileError("malformed unicode char".to_owned()));
            }
            i = i + 1;
        }
    }
    let groups = scan_capture_groups(pattern);
    if groups.len() >= CAPTURE_COUNT_MAX {
        proof {
            reveal_strlit("too many captures");
        }
        return Err(RegexError::CompileError("too many captures".to_owned()));
    }
    let empty: Vec<u16> = Vec::new();
    match engine_search_ucs2(
        cps.as_slice(),
        flags.has_ignore_case(),
        flags.has_multi_line(),
        flags.has_dotall(),
        flags.has_unicode(),
        flags.has_unicode_sets(),
        empty.as_slice(),
        0,
    ) {
        Ok(_) => {},
        Err(text) => {
            return Err(RegexError::CompileError(text));
        },
    }
    let mut names: Vec<String> = Vec::new();
    let mut any_named = false;
    let mut k: usize = 0;
    while k < groups.len()
        invariant
            k <= groups@.len(),
            groups@ == scan_groups(pattern@, 0),
            forall|i: int|
                0 <= i < groups@.len() ==> (#[trigger] groups@[i] matches Some((s, e)) ==> s <= e
                    <= pattern@.len()),
            names@.len() == k,
            forall|i: int|
                0 <= i < k ==> (#[trigger] names@[i])@ == group_name_table(pattern@)[i],
            any_named <==> exists|i: int| 0 <= i < k && #[trigger] groups@[i] is Some,
            forall|i: int|
                0 <= i < k ==> (#[trigger] groups@[i] matches Some((s, e)) ==> (
                vstd::utf8::valid_utf8(pattern@.subrange(s as int, e as int)) ==> names@[i]@
                    == vstd::utf8::decode_utf8(pattern@.subrange(s as int, e as int)))),
        decreases groups@.len() - k,
    {
        match groups[k] {
            Some((s, e)) => {
                let slice = vstd::slice::slice_subrange(pattern, s, e);
                names.push(string_from_utf8_lossy(slice));
                any_named = true;
            },
            None => {
                names.push(String::new());
            },
        }
        k = k + 1;
    }
    let named_bit: u32 = if any_named {
        LRE_FLAG_NAMED_GROUPS
    } else {
        0
    };
    let compiled = RegexFlags::from_bits_retain((flags.bits() & 0xFFFF) | named_bit);
    proof {
        lemma_compiled_flags_keep_engine_flags(flags@, named_bit);
    }
    let info = RegexInfo {
        pattern: cps,
        flags: compiled,
        capture_count: groups.len() + 1,
        group_names: names,
    };
    assert(info@.group_names =~= group_name_table(pattern@));
    Ok(info)
}

/// Result of a regex match.
#[derive(Debug, Clone)]
pub struct MatchResult {
    /// Whether the match was successful.
    pub success: bool,
    /// Capture positions (start, end) in bytes for each group; group 0 is the
    /// full match.
    pub captures: Vec<Option<(usize, usize)>>,
}

/// The code units of a text: each byte on its own, or (wide) each pair of
/// bytes as a little-endian 16-bit unit, a trailing odd byte left out.
pub open spec fn spec_code_units(b: Seq<u8>, is_wide: bool) -> Seq<u16> {
    if is_wide {
        Seq::new(b.len() / 2, |i: int| (b[2 * i] as u16) | ((b[2 * i + 1] as u16) << 8u16))
    } else {
        Seq::new(b.len(), |i: int| b[i] as u16)
    }
}

/// Reads a text as the engine's code units.
pub fn code_units(bytes: &[u8], is_wide: bool) -> (r: Vec<u16>)
    ensures
        r@ == spec_code_units(bytes@, is_wide),
{
    let mut out: Vec<u16> = Vec::new();
    if is_wide {
        let len = bytes.len();
        let n = len / 2;
        let mut i: usize = 0;
        while i < n
            invariant
                len == bytes@.len(),
                n == len / 2,
                i <= n,
                out@ =~= spec_code_units(bytes@, true).take(i as int),
            decreases n - i,
        {
            assert(2 * i + 1 < len) by (nonlinear_arith)
                requires
                    i < n,
                    n == len / 2,
            ;
            out.push((bytes[2 * i] as u16) | ((bytes[2 * i + 1] as u16) << 8u16));
            i = i + 1;
        }
    } else {
        let n = bytes.len();
        let mut i: usize = 0;
        while i < n
            invariant
                n == bytes@.len(),
                i <= n,
                out@ =~= spec_code_units(bytes@, false).take(i as int),
            decreases n - i,
        {
            out.push(bytes[i] as u16);
            i = i + 1;
        }
    }
    out
}

/// A span in code units as a span in bytes, kept when it is ordered and lies
/// within a text of `len` bytes.
pub open spec fn spec_byte_span(span: (usize, usize), is_wide: bool, len: usize) -> Option<
    (usize, usize),
> {
    let a = if is_wide {
        2 * span.0
    } else {
        span.0 as int
    };
    let b = if is_wide {
        2 * span.1
    } else {
        span.1 as int
    };
    if a <= b && b <= len {
        Some((a as usize, b as usize))
    } else {
        None
    }
}

/// A raw engine match: the whole match and the span of each capture group
/// after group 0, in code units.
pub type RawMatch = (usize, usize, Seq<Option<(usize, usize)>>);

/// The capture list of a found match: `capture_count` entries, group 0 the
/// whole match, then the engine's groups, each checked against the text.
pub open spec fn spec_found_captures(
    m: RawMatch,
    capture_count: usize,
    is_wide: bool,
    len: usize,
) -> Seq<Option<(usize, usize)>> {
    Seq::new(
        capture_count as nat,
        |i: int|
            if i == 0 {
                spec_byte_span((m.0, m.1), is_wide, len)
            } else if i - 1 < m.2.len() {
                match m.2[i - 1] {
                    Some(g) => spec_byte_span(g, is_wide, len),
                    None => None,
                }
            } else {
                None
            },
    )
}

/// What a search reports for the engine's answer `found`: a sticky search
/// only accepts a match at its start position.
pub open spec fn spec_match_result(
    found: Option<RawMatch>,
    capture_count: usize,
    len: usize,
    start_unit: usize,
    is_wide: bool,
    sticky: bool,
) -> (bool, Seq<Option<(usize, usize)>>) {
    match found {
        Some(m) => if sticky && m.0 != start_unit {
            (false, Seq::new(capture_count as nat, |i: int| None))
        } else {
            (true, spec_found_captures(m, capture_count, is_wide, len))
        },
        None => (false, Seq::new(capture_count as nat, |i: int| None)),
    }
}

fn byte_span(span: (usize, usize), is_wide: bool, len: usize) -> (r: Option<(usize, usize)>)
    ensures
        r == spec_byte_span(span, is_wide, len),
{
    let (s, e) = span;
    if is_wide {
        if s <= e && e <= len / 2 {
            Some((2 * s, 2 * e))
        } else {
            None
        }
    } else if s <= e && e <= len {
        Some((s, e))
    } else {
        None
    }
}

/// Builds the match result for the engine's answer `found`.
pub fn match_result_from(
    found: Option<EngineMatch>,
    capture_count: usize,
    len: usize,
    start_unit: usize,
    is_wide: bool,
    sticky: bool,
) -> (r: MatchResult)
    ensures
        (r.success, r.captures@) == spec_match_result(
            engine_match_value(found),
            capture_count,
            len,
            start_unit,
            is_wide,
            sticky,
        ),
{
    let ghost spec = spec_match_result(
        engine_match_value(found),
        capture_count,
        len,
        start_unit,
        is_wide,
        sticky,
    );
    let mut captures: Vec<Option<(usize, usize)>> = Vec::new();
    match found {
        Some(m) => {
            if !(sticky && m.start != start_unit) {
                let ghost raw = (m.start, m.end, m.groups@);
                let mut i: usize = 0;
                while i < capture_count
                    invariant
                        i <= capture_count,
                        raw == (m.start, m.end, m.groups@),
                        captures@ =~= spec_found_captures(raw, capture_count, is_wide, len).take(
                            i as int,
                        ),
                    decreases capture_count - i,
                {
                    let entry = if i == 0 {
                        byte_span((m.start, m.end), is_wide, len)
                    } else if i - 1 < m.groups.len() {
                        match m.groups[i - 1] {
                            Some(g) => byte_span(g, is_wide, len),
                            None => None,
                        }
                    } else {
                        None
                    };
                    captures.push(entry);
                    i = i + 1;
                }
                return MatchResult { success: true, captures };
            }
        },
        None => {},
    }
    let mut i: usize = 0;
    while i < capture_count
        invariant
            i <= capture_count,
            captures@.len() == i,
            forall|j: int| 0 <= j < i ==> captures@[j] is None,
        decreases capture_count - i,
    {
        captures.push(None);
        i = i + 1;
    }
    assert(captures@ =~= spec.1);
    MatchResult { success: false, captures }
}

/// The byte position where a search starting at `bytes_start` begins: wide
/// texts are searched from the code unit holding that byte.
pub open spec fn search_start(bytes_start: usize, is_wide: bool) -> int {
    if is_wide {
        2 * (bytes_start / 2)
    } else {
        bytes_start as int
    }
}

/// The code unit where a search starting at byte `bytes_start` begins.
pub open spec fn start_unit_of(bytes_start: usize, is_wide: bool) -> usize {
    if is_wide {
        (bytes_start / 2) as usize
    } else {
        bytes_start
    }
}

/// Surrogate pairs count as one character when the text is wide and the
/// pattern is in a Unicode mode.
pub open spec fn reads_utf16(info: CompiledView, is_wide: bool) -> bool {
    is_wide && spec_is_unicode(info.flags)
}

/// What a search of `bytes` from byte `bytes_start` reports.
pub open spec fn search_outcome(
    info: CompiledView,
    bytes: Seq<u8>,
    bytes_start: usize,
    is_wide: bool,
) -> (bool, Seq<Option<(usize, usize)>>) {
    spec_match_result(
        engine_answer(
            info,
            spec_code_units(bytes, is_wide),
            start_unit_of(bytes_start, is_wide),
            reads_utf16(info, is_wide),
        ),
        info.capture_count as usize,
        bytes.len() as usize,
        start_unit_of(bytes_start, is_wide),
        is_wide,
        flag_on(info.flags, LRE_FLAG_STICKY),
    )
}

/// What holds of every result of a search in a text of `len` bytes.
pub open spec fn match_result_wf(
    r: (bool, Seq<Option<(usize, usize)>>),
    capture_count: nat,
    len: usize,
    bytes_start: usize,
    is_wide: bool,
    sticky: bool,
) -> bool {
    &&& r.1.len() == capture_count
    &&& forall|i: int|
        0 <= i < r.1.len() ==> (#[trigger] r.1[i] matches Some((a, b)) ==> {
            &&& a <= b <= len
            &&& is_wide ==> a % 2 == 0 && b % 2 == 0
        })
    &&& r.0 ==> (r.1[0] matches Some((a, b)) && a >= search_start(bytes_start, is_wide) && (sticky
        ==> a == search_start(bytes_start, is_wide)))
    &&& !r.0 ==> forall|i: int| 0 <= i < r.1.len() ==> #[trigger] r.1[i] is None
}

/// A search outcome built from an engine answer that respects its bounds
/// satisfies `match_result_wf`.
proof fn lemma_search_outcome_wf(info: CompiledView, bytes: Seq<u8>, bytes_start: usize, is_wide: bool)
    requires
        engine_match_in_bounds(
            engine_answer(
                info,
                spec_code_units(bytes, is_wide),
                start_unit_of(bytes_start, is_wide),
                reads_utf16(info, is_wide),
            ),
            spec_code_units(bytes, is_wide).len(),
            start_unit_of(bytes_start, is_wide),
        ),
        bytes.len() <= usize::MAX,
        1 <= info.capture_count <= CAPTURE_COUNT_MAX,
    ensures
        match_result_wf(
            search_outcome(info, bytes, bytes_start, is_wide),
            info.capture_count,
            bytes.len() as usize,
            bytes_start,
            is_wide,
            flag_on(info.flags, LRE_FLAG_STICKY),
        ),
{
    let len = bytes.len() as usize;
    let raw = engine_answer(
        info,
        spec_code_units(bytes, is_wide),
        start_unit_of(bytes_start, is_wide),
        reads_utf16(info, is_wide),
    );
    let r = search_outcome(info, bytes, bytes_start, is_wide);
    match raw {
        Some(m) => {
            if r.0 {
                assert(r.1[0] == spec_byte_span((m.0, m.1), is_wide, len));
                if is_wide {
                    assert(2 * m.1 <= len) by (nonlinear_arith)
                        requires
                            m.1 <= len as int / 2,
                    ;
                    assert(2 * m.0 >= 2 * (bytes_start / 2)) by (nonlinear_arith)
                        requires
                            m.0 >= bytes_start / 2,
                    ;
                }
            }
        },
        None => {},
    }
    assert forall|i: int| 0 <= i < r.1.len() implies (#[trigger] r.1[i] matches Some((a, b)) ==> {
        &&& a <= b <= len
        &&& is_wide ==> a % 2 == 0 && b % 2 == 0
    }) by {}
}

/// Executes a compiled regex on `bytes` from byte `bytes_start` on; `is_wide`
/// reads the text as UTF-16LE code units.
pub fn exec_bytes(info: &RegexInfo, bytes: &[u8], bytes_start: usize, is_wide: bool) -> (r: Result<
    MatchResult,
>)
    ensures
        r matches Ok(res) && (res.success, res.captures@) == search_outcome(
            info@,
            bytes@,
            bytes_start,
            is_wide,
        ),
        r matches Ok(res) ==> match_result_wf(
            (res.success, res.captures@),
            info@.capture_count,
            bytes@.len() as usize,
            bytes_start,
            is_wide,
            flag_on(info@.flags, LRE_FLAG_STICKY),
        ),
        1 <= info@.capture_count <= CAPTURE_COUNT_MAX,
{
    proof {
        use_type_invariant(info);
    }
    let capture_count = info.capture_count();
    let flags = info.flags();
    let units = code_units(bytes, is_wide);
    let start_unit = if is_wide {
        bytes_start / 2
    } else {
        bytes_start
    };
    let utf16 = is_wide && flags.is_unicode();
    let searched = if utf16 {
        engine_search_utf16(
            info.pattern.as_slice(),
            flags.has_ignore_case(),
            flags.has_multi_line(),
            flags.has_dotall(),
            flags.has_unicode(),
            flags.has_unicode_sets(),
            units.as_slice(),
            start_unit,
        )
    } else {
        engine_search_ucs2(
            info.pattern.as_slice(),
            flags.has_ignore_case(),
            flags.has_multi_line(),
            flags.has_dotall(),
            flags.has_unicode(),
            flags.has_unicode_sets(),
            units.as_slice(),
            start_unit,
        )
    };
    let found = match searched {
        Ok(m) => m,
        Err(text) => {
            proof {
                assert(false);
            }
            return Err(RegexError::InternalError(text));
        },
    };
    let sticky = flags.has_sticky();
    let res = match_result_from(found, capture_count, bytes.len(), start_unit, is_wide, sticky);
    proof {
        lemma_search_outcome_wf(info@, bytes@, bytes_start, is_wide);
    }
    Ok(res)
}

/// The non-empty entries of a name table, in order: the names of the named
/// capture groups, unnamed groups skipped.
pub open spec fn named_only(names: Seq<Seq<char>>) -> Seq<Seq<char>>
    decreases names.len(),
{
    if names.len() == 0 {
        seq![]
    } else if names.last().len() > 0 {
        named_only(names.drop_last()).push(names.last())
    } else {
        named_only(names.drop_last())
    }
}

/// The group names a compiled pattern reports: none unless it carries the
/// named-groups flag, else the names of all its named groups, in order.
pub open spec fn reported_group_names(view: CompiledView) -> Seq<Seq<char>> {
    if flag_on(view.flags, LRE_FLAG_NAMED_GROUPS) {
        named_only(view.group_names)
    } else {
        seq![]
    }
}

/// Gets the names of the named capture groups of a compiled regex.
pub fn get_group_names(info: &RegexInfo) -> (r: Vec<String>)
    ensures
        r@.map_values(|s: String| s@) == reported_group_names(info@),
{
    let mut names: Vec<String> = Vec::new();
    if !info.flags.has_named_groups() {
        assert(names@.map_values(|s: String| s@) =~= Seq::<Seq<char>>::empty());
        return names;
    }
    let table = &info.group_names;
    let ghost all = table@.map_values(|s: String| s@);
    let mut i: usize = 0;
    assert(all.take(0) =~= Seq::<Seq<char>>::empty());
    while i < table.len()
        invariant
            i <= table@.len(),
            all == table@.map_values(|s: String| s@),
            names@.map_values(|s: String| s@) =~= named_only(all.take(i as int)),
        decreases table@.len() - i,
    {
        proof {
            assert(all.take(i + 1).drop_last() =~= all.take(i as int));
            assert(all.take(i + 1).last() == all[i as int]);
        }
        if !table[i].as_str().is_empty() {
            names.push(table[i].clone());
        }
        i = i + 1;
    }
    assert(all.take(table@.len() as int) =~= all);
    names
}

/// Whether the engine accepts a pattern decides compilation: a well-formed
/// pattern within the group limit, with no code point above U+FFFF unless
/// Unicode mode (`u`) or Unicode-sets mode (`v`) is on, compiles exactly when
/// the engine, run with each requested mode (ignore case, multi-line,
/// dot-all, Unicode, Unicode sets) taken from its own flag bit, accepts it;
/// otherwise it fails with the engine's message.
pub proof fn law_compile_decided_by_engine(pattern: Seq<u8>, flags: u32, cps: Seq<u32>)
    requires
        pattern_code_points(pattern) == Some(cps),
        scan_groups(pattern, 0).len() + 1 <= CAPTURE_COUNT_MAX,
        flag_on(flags, LRE_FLAG_UNICODE) || flag_on(flags, LRE_FLAG_UNICODE_SETS) || forall|
            i: int,
        | 0 <= i < cps.len() ==> #[trigger] cps[i] <= 0xFFFF,
    ensures
        match engine_parse_outcome(
            cps,
            flag_on(flags, LRE_FLAG_IGNORECASE),
            flag_on(flags, LRE_FLAG_MULTILINE),
            flag_on(flags, LRE_FLAG_DOTALL),
            flag_on(flags, LRE_FLAG_UNICODE),
            flag_on(flags, LRE_FLAG_UNICODE_SETS),
        ) {
            Ok(()) => compile_outcome(pattern, flags) is Ok,
            Err(text) => compile_outcome(pattern, flags) == Err::<CompiledView, Seq<char>>(text),
        },
{
}

/// A search with a compiled regex runs the engine in the modes that were
/// requested at compilation: ignore case, multi-line, dot-all, Unicode and
/// Unicode sets each as its own flag bit says, whatever the other bits are;
/// a wide text is read as UTF-16 exactly in Unicode or Unicode-sets mode, and
/// a sticky search exactly when the sticky bit was requested.
pub proof fn law_search_runs_in_requested_modes(
    pattern: Seq<u8>,
    flags: u32,
    bytes: Seq<u8>,
    start: usize,
    is_wide: bool,
)
    ensures
        compile_outcome(pattern, flags) matches Ok(v) ==> search_outcome(v, bytes, start, is_wide)
            == spec_match_result(
            if is_wide && (flag_on(flags, LRE_FLAG_UNICODE) || flag_on(
                flags,
                LRE_FLAG_UNICODE_SETS,
            )) {
                engine_utf16_first_match(
                    v.pattern,
                    flag_on(flags, LRE_FLAG_IGNORECASE),
                    flag_on(flags, LRE_FLAG_MULTILINE),
                    flag_on(flags, LRE_FLAG_DOTALL),
                    flag_on(flags, LRE_FLAG_UNICODE),
                    flag_on(flags, LRE_FLAG_UNICODE_SETS),
                    spec_code_units(bytes, is_wide),
                    start_unit_of(start, is_wide),
                )
            } else {
                engine_ucs2_first_match(
                    v.pattern,
                    flag_on(flags, LRE_FLAG_IGNORECASE),
                    flag_on(flags, LRE_FLAG_MULTILINE),
                    flag_on(flags, LRE_FLAG_DOTALL),
                    flag_on(flags, LRE_FLAG_UNICODE),
                    flag_on(flags, LRE_FLAG_UNICODE_SETS),
                    spec_code_units(bytes, is_wide),
                    start_unit_of(start, is_wide),
                )
            },
            v.capture_count as usize,
            bytes.len() as usize,
            start_unit_of(start, is_wide),
            is_wide,
            flag_on(flags, LRE_FLAG_STICKY),
        ),
{
    if compile_outcome(pattern, flags) is Ok {
        let named: u32 = if has_named_group(scan_groups(pattern, 0)) {
            LRE_FLAG_NAMED_GROUPS
        } else {
            0
        };
        lemma_compiled_flags_keep_engine_flags(flags, named);
        law_compile_reports_requested_flags(pattern, flags, LRE_FLAG_STICKY);
    }
}

/// Putting a non-capturing group or lookaround opener (`(?:`, `(?=`, `(?!`,
/// `(?<=`, `(?<!`) in front of a pattern changes neither the number of
/// capture groups of what it compiles to nor their names.
pub proof fn law_lookaround_keeps_groups(pre: Seq<u8>, rest: Seq<u8>, flags: u32)
    requires
        is_non_capturing_opener(pre),
        (pre + rest).len() + 3 <= usize::MAX,
    ensures
        compile_outcome(pre + rest, flags) matches Ok(v1) ==> (compile_outcome(rest, flags) matches Ok(
            v2,
        ) ==> v1.capture_count == v2.capture_count && v1.group_names == v2.group_names),
        group_name_table(pre + rest) == group_name_table(rest),
{
    let b = pre + rest;
    let k = pre.len() as int;
    law_non_capturing_opener_adds_no_group(pre, rest);
    lemma_scan_bounds(rest, 0);
    let g1 = scan_groups(b, 0);
    let g2 = scan_groups(rest, 0);
    assert forall|i: int| 0 <= i < g2.len() implies #[trigger] group_name_table(b)[i]
        == group_name_table(rest)[i] by {
        assert(shifted_entry(g1[i], g2[i], k));
        match g2[i] {
            Some((s, e)) => {
                assert(b.subrange(s + k, e + k) =~= rest.subrange(s as int, e as int));
            },
            None => {},
        }
    }
    assert(group_name_table(b) =~= group_name_table(rest));
}

} // verus!
