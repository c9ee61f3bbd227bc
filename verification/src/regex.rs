use vstd::prelude::*;

use crate::encoding::{
    char_code_points, encode_utf8_surrogate, is_non_bmp, law_surrogate_encoding_decodes_to_utf16,
    law_utf8_decodes_to_code_points, pattern_code_points, spec_encode_utf8_surrogate, utf16_units,
};
use crate::engine::into_boxed;
use crate::error::{RegexError, Result};
use crate::flags::{flag_on, spec_is_unicode, RegexFlags, LRE_FLAG_STICKY};
use crate::safe::{
    compile, compile_outcome, exec_bytes, get_group_names, match_result_wf,
    reported_group_names, search_outcome, search_start, CompiledView, MatchResult, RegexInfo, CAPTURE_COUNT_MAX,
};

verus! {

/// The pattern bytes `Regex::from_str` hands to the compiler: the string's
/// own bytes in Unicode mode or when it is ASCII, else its surrogate encoding.
pub open spec fn from_str_pattern(chars: Seq<char>, flags: u32) -> Seq<u8> {
    if spec_is_unicode(flags) || vstd::utf8::is_ascii_chars(chars) {
        vstd::utf8::encode_utf8(chars)
    } else {
        spec_encode_utf8_surrogate(chars)
    }
}

/// Without non-BMP characters the UTF-16 code units of a string are its code
/// points.
proof fn lemma_bmp_units_are_code_points(chars: Seq<char>)
    requires
        forall|i: int| 0 <= i < chars.len() ==> !is_non_bmp(#[trigger] chars[i]),
    ensures
        utf16_units(chars) == char_code_points(chars),
    decreases chars.len(),
{
    if chars.len() > 0 {
        assert(!is_non_bmp(chars[0]));
        assert forall|i: int| 0 <= i < chars.drop_first().len() implies !is_non_bmp(
            #[trigger] chars.drop_first()[i],
        ) by {
            assert(chars.drop_first()[i] == chars[i + 1]);
        }
        lemma_bmp_units_are_code_points(chars.drop_first());
        assert(char_code_points(chars) =~= seq![chars[0] as u32] + char_code_points(
            chars.drop_first(),
        ));
    }
}

/// The pattern `Regex::from_str` compiles reads as the string's code points
/// in a Unicode mode and as its UTF-16 code units otherwise.
pub proof fn law_from_str_pattern_code_points(chars: Seq<char>, flags: u32)
    ensures
        pattern_code_points(from_str_pattern(chars, flags)) == Some(
            if spec_is_unicode(flags) {
                char_code_points(chars)
            } else {
                utf16_units(chars)
            },
        ),
{
    if spec_is_unicode(flags) {
        law_utf8_decodes_to_code_points(chars);
    } else if vstd::utf8::is_ascii_chars(chars) {
        law_utf8_decodes_to_code_points(chars);
        assert forall|i: int| 0 <= i < chars.len() implies !is_non_bmp(#[trigger] chars[i]) by {
            assert('\0' <= chars[i] <= '\u{7f}');
        }
        lemma_bmp_units_are_code_points(chars);
    } else {
        law_surrogate_encoding_decodes_to_utf16(chars);
    }
}

/// A single match of a regex in a text.
#[derive(Debug, Clone, Copy, PartialEq, Eq)]
pub struct Match<'t> {
    bytes: &'t [u8],
    start: usize,
    end: usize,
}

/// The text a match was found in, and its byte span.
pub struct MatchView {
    pub text: Seq<u8>,
    pub start: usize,
    pub end: usize,
}

impl<'t> View for Match<'t> {
    type V = MatchView;

    closed spec fn view(&self) -> MatchView {
        MatchView { text: self.bytes@, start: self.start, end: self.end }
    }
}

/// The span of an optional match.
pub open spec fn span_of(m: Option<MatchView>) -> Option<(usize, usize)> {
    match m {
        Some(v) => Some((v.start, v.end)),
        None => None,
    }
}

impl<'t> Match<'t> {
    #[verifier::type_invariant]
    closed spec fn inv(self) -> bool {
        self.start <= self.end <= self.bytes@.len()
    }

    /// Returns the starting byte offset of the match in the text.
    pub fn start(&self) -> (r: usize)
        ensures
            r == self@.start,
    {
        self.start
    }

    /// Returns the ending byte offset of the match in the text.
    pub fn end(&self) -> (r: usize)
        ensures
            r == self@.end,
    {
        self.end
    }

    /// Returns the byte range of the match.
    pub fn range(&self) -> (r: std::ops::Range<usize>)
        ensures
            r.start == self@.start,
            r.end == self@.end,
    {
        self.start..self.end
    }

    /// Returns the matched bytes.
    pub fn as_bytes(&self) -> (r: &'t [u8])
        ensures
            r@ == self@.text.subrange(self@.start as int, self@.end as int),
    {
        proof {
            use_type_invariant(self);
        }
        vstd::slice::slice_subrange(self.bytes, self.start, self.end)
    }
}

/// Capture groups from a regex match.
#[derive(Debug)]
pub struct Captures<'t> {
    bytes: &'t [u8],
    matches: Vec<Option<(usize, usize)>>,
}

/// The text of a set of captures and the span of each group.
pub struct CapturesView {
    pub text: Seq<u8>,
    pub spans: Seq<Option<(usize, usize)>>,
}

impl<'t> View for Captures<'t> {
    type V = CapturesView;

    closed spec fn view(&self) -> CapturesView {
        CapturesView { text: self.bytes@, spans: self.matches@ }
    }
}

/// Every span lies within a text of `len` bytes.
pub open spec fn spans_in_text(spans: Seq<Option<(usize, usize)>>, len: nat) -> bool {
    forall|i: int|
        0 <= i < spans.len() ==> (#[trigger] spans[i] matches Some((s, e)) ==> s <= e <= len)
}

impl<'t> Captures<'t> {
    #[verifier::type_invariant]
    closed spec fn inv(self) -> bool {
        spans_in_text(self.matches@, self.bytes@.len())
    }

    /// Returns the match for capture group `i`; group 0 is the whole match.
    /// `None` when the group did not take part or `i` is out of range.
    pub fn get(&self, i: usize) -> (r: Option<Match<'t>>)
        ensures
            span_of(
                match r {
                    Some(m) => Some(m@),
                    None => None,
                },
            ) == (if i < self@.spans.len() {
                self@.spans[i as int]
            } else {
                None
            }),
            r matches Some(m) ==> m@.text == self@.text,
    {
        proof {
            use_type_invariant(self);
        }
        if i < self.matches.len() {
            match self.matches[i] {
                Some((start, end)) => Some(Match { bytes: self.bytes, start, end }),
                None => None,
            }
        } else {
            None
        }
    }

    /// Returns the number of capture groups (including group 0).
    pub fn len(&self) -> (r: usize)
        ensures
            r == self@.spans.len(),
    {
        self.matches.len()
    }

    /// Returns true if there are no capture groups.
    pub fn is_empty(&self) -> (r: bool)
        ensures
            r == (self@.spans.len() == 0),
    {
        self.matches.len() == 0
    }

    /// Returns the match of every capture group, in order.
    pub fn iter(&self) -> (r: Vec<Option<Match<'t>>>)
        ensures
            r@.len() == self@.spans.len(),
            forall|i: int|
                0 <= i < r@.len() ==> span_of(
                    match #[trigger] r@[i] {
                        Some(m) => Some(m@),
                        None => None,
                    },
                ) == self@.spans[i] && (r@[i] matches Some(m) ==> m@.text == self@.text),
    {
        let mut out: Vec<Option<Match<'t>>> = Vec::new();
        let mut i: usize = 0;
        while i < self.matches.len()
            invariant
                i <= self@.spans.len(),
                out@.len() == i,
                forall|j: int|
                    0 <= j < i ==> span_of(
                        match #[trigger] out@[j] {
                            Some(m) => Some(m@),
                            None => None,
                        },
                    ) == self@.spans[j] && (out@[j] matches Some(m) ==> m@.text == self@.text),
            decreases self@.spans.len() - i,
        {
            out.push(self.get(i));
            i = i + 1;
        }
        out
    }
}

impl<'t> Clone for Captures<'t> {
    /// A copy of the captures: the same text and the same spans.
    fn clone(&self) -> (r: Self)
        ensures
            r@ == self@,
    {
        proof {
            use_type_invariant(self);
        }
        let mut matches: Vec<Option<(usize, usize)>> = Vec::new();
        let mut i: usize = 0;
        while i < self.matches.len()
            invariant
                i <= self@.spans.len(),
                matches@ =~= self@.spans.take(i as int),
                spans_in_text(self@.spans, self@.text.len()),
            decreases self@.spans.len() - i,
        {
            matches.push(self.matches[i]);
            i = i + 1;
        }
        assert(matches@ =~= self@.spans);
        Captures { bytes: self.bytes, matches }
    }
}

/// A compiled regular expression.
#[derive(Debug)]
pub struct Regex(RegexInfo);

impl View for Regex {
    type V = CompiledView;

    closed spec fn view(&self) -> CompiledView {
        self.0@
    }
}

/// The first match a search reports: group 0 when it starts at or after the
/// requested offset and lies within the text.
pub open spec fn spec_first_match(
    outcome: (bool, Seq<Option<(usize, usize)>>),
    offset: usize,
    len: nat,
) -> Option<(usize, usize)> {
    if !outcome.0 || outcome.1.len() == 0 {
        None
    } else {
        match outcome.1[0] {
            Some((s, e)) => if s >= offset && s <= e && e <= len {
                Some((s, e))
            } else {
                None
            },
            None => None,
        }
    }
}

impl Regex {
    /// Compiles a regular expression given as bytes in the compiler's input
    /// encoding (UTF-8 layout, surrogate code points allowed).
    pub fn from_bytes(pattern: &[u8], flags: RegexFlags) -> (r: Result<Self>)
        ensures
            match compile_outcome(pattern@, flags@) {
                Ok(view) => r matches Ok(re) && re@ == view,
                Err(msg) => r matches Err(RegexError::CompileError(m)) && m@ == msg,
            },
    {
        match compile(pattern, flags) {
            Ok(info) => Ok(Regex(info)),
            Err(e) => Err(e),
        }
    }

    /// Compiles a regular expression string with flags.
    pub fn from_str(pattern: &str, flags: RegexFlags) -> (r: Result<Self>)
        ensures
            match compile_outcome(from_str_pattern(pattern@, flags@), flags@) {
                Ok(view) => r matches Ok(re) && re@ == view,
                Err(msg) => r matches Err(RegexError::CompileError(m)) && m@ == msg,
            },
    {
        if flags.is_unicode() || pattern.is_ascii() {
            Self::from_bytes(pattern.as_bytes(), flags)
        } else {
            let converted = encode_utf8_surrogate(pattern);
            Self::from_bytes(converted.as_slice(), flags)
        }
    }

    /// Returns the flags with which this regex was compiled.
    pub fn flags(&self) -> (r: RegexFlags)
        ensures
            r@ == self@.flags,
    {
        self.0.flags()
    }

    /// Returns the names of all named capture groups.
    pub fn group_names(&self) -> (r: Option<Box<[String]>>)
        ensures
            match r {
                Some(names) => names@.map_values(|s: String| s@) == reported_group_names(self@)
                    && names@.len() > 0,
                None => reported_group_names(self@).len() == 0,
            },
    {
        if self.flags().contains(RegexFlags::NAMED_GROUPS) {
            let names = get_group_names(&self.0);
            if names.len() == 0 {
                None
            } else {
                let boxed = into_boxed(names);
                Some(boxed)
            }
        } else {
            let ghost v = self@;
            assert(reported_group_names(v) =~= Seq::<Seq<char>>::empty());
            None
        }
    }

    /// Returns the number of capture groups in the regex, group 0 included.
    pub fn captures_len(&self) -> (r: usize)
        ensures
            r == self@.capture_count,
            1 <= r <= CAPTURE_COUNT_MAX,
    {
        self.0.capture_count()
    }

    /// Executes the regex against `bytes` from byte `bytes_offset` on,
    /// returning the match information. With `is_wide` the text is read as
    /// UTF-16LE code units and positions are in bytes.
    pub fn exec(&self, bytes: &[u8], bytes_offset: usize, is_wide: bool) -> (r: Result<MatchResult>)
        ensures
            r matches Ok(res) && (res.success, res.captures@) == search_outcome(
                self@,
                bytes@,
                bytes_offset,
                is_wide,
            ),
            r matches Ok(res) ==> match_result_wf(
                (res.success, res.captures@),
                self@.capture_count,
                bytes@.len() as usize,
                bytes_offset,
                is_wide,
                flag_on(self@.flags, LRE_FLAG_STICKY),
            ),
            1 <= self@.capture_count <= CAPTURE_COUNT_MAX,
    {
        exec_bytes(&self.0, bytes, bytes_offset, is_wide)
    }

    /// Returns `true` if the regex matches anywhere in `bytes`.
    pub fn is_match(&self, bytes: &[u8], is_wide: bool) -> (r: bool)
        ensures
            r == search_outcome(self@, bytes@, 0, is_wide).0,
    {
        match self.exec(bytes, 0, is_wide) {
            Ok(res) => res.success,
            Err(_) => false,
        }
    }

    /// Returns the first match in the text.
    pub fn find<'t>(&self, bytes: &'t [u8], is_wide: bool) -> (r: Result<Option<Match<'t>>>)
        ensures
            r matches Ok(o) && (o matches Some(m) ==> m@.text == bytes@ && m@.start <= m@.end
                <= bytes@.len()),
            r matches Ok(o) ==> span_of(
                match o {
                    Some(m) => Some(m@),
                    None => None,
                },
            ) == spec_first_match(search_outcome(self@, bytes@, 0, is_wide), 0, bytes@.len()),
            r matches Ok(o) ==> (o is Some <==> search_outcome(self@, bytes@, 0, is_wide).0),
    {
        self.find_at(bytes, 0, is_wide)
    }

    /// Returns the first match in the text that starts at or after byte
    /// `bytes_offset`.
    pub fn find_at<'t>(&self, bytes: &'t [u8], bytes_offset: usize, is_wide: bool) -> (r: Result<
        Option<Match<'t>>,
    >)
        ensures
            r matches Ok(o) && (o matches Some(m) ==> m@.text == bytes@ && bytes_offset <= m@.start
                <= m@.end <= bytes@.len()),
            r matches Ok(o) ==> span_of(
                match o {
                    Some(m) => Some(m@),
                    None => None,
                },
            ) == spec_first_match(
                search_outcome(self@, bytes@, bytes_offset, is_wide),
                bytes_offset,
                bytes@.len(),
            ),
            !is_wide || bytes_offset % 2 == 0 ==> (r matches Ok(o) ==> (o is Some
                <==> search_outcome(self@, bytes@, bytes_offset, is_wide).0)),
    {
        let result = match self.exec(bytes, bytes_offset, is_wide) {
            Ok(res) => res,
            Err(e) => {
                return Err(e);
            },
        };
        if !result.success || result.captures.len() == 0 {
            Ok(None)
        } else {
            match result.captures[0] {
                Some((match_start, match_end)) => {
                    if match_start >= bytes_offset && match_start <= match_end && match_end
                        <= bytes.len() {
                        Ok(Some(Match { bytes, start: match_start, end: match_end }))
                    } else {
                        Ok(None)
                    }
                },
                None => Ok(None),
            }
        }
    }

    /// Returns the capture groups of the first match in the text, searching
    /// from byte `bytes_offset`.
    pub fn captures_at<'t>(&self, bytes: &'t [u8], bytes_offset: usize, is_wide: bool) -> (r:
        Result<Option<Captures<'t>>>)
        ensures
            r matches Ok(o) && (o matches Some(c) ==> c@.text == bytes@ && match_result_wf(
                (true, c@.spans),
                self@.capture_count,
                bytes@.len() as usize,
                bytes_offset,
                is_wide,
                flag_on(self@.flags, LRE_FLAG_STICKY),
            ) && c@.spans.len() >= 1),
            r matches Ok(o) ==> ({
                let outcome = search_outcome(self@, bytes@, bytes_offset, is_wide);
                match o {
                    Some(c) => outcome.0 && c@.spans == outcome.1,
                    None => !outcome.0,
                }
            }),
            !is_wide || bytes_offset % 2 == 0 ==> (r matches Ok(o) ==> (o matches Some(c)
                ==> c@.spans[0] == spec_first_match(
                search_outcome(self@, bytes@, bytes_offset, is_wide),
                bytes_offset,
                bytes@.len(),
            ))),
    {
        let r = match self.exec(bytes, bytes_offset, is_wide) {
            Ok(res) => res,
            Err(e) => {
                return Err(e);
            },
        };
        if !r.success {
            Ok(None)
        } else {
            Ok(Some(Captures { bytes, matches: r.captures }))
        }
    }

    /// Returns the capture groups of the first match in the text.
    pub fn captures<'t>(&self, bytes: &'t [u8], is_wide: bool) -> (r: Result<Option<Captures<'t>>>)
        ensures
            r matches Ok(o) && (o matches Some(c) ==> c@.text == bytes@ && c@.spans.len()
                == self@.capture_count),
            r matches Ok(o) ==> ({
                let outcome = search_outcome(self@, bytes@, 0, is_wide);
                match o {
                    Some(c) => outcome.0 && c@.spans == outcome.1,
                    None => !outcome.0,
                }
            }),
            r matches Ok(o) ==> (o matches Some(c) ==> c@.spans[0] == spec_first_match(
                search_outcome(self@, bytes@, 0, is_wide),
                0,
                bytes@.len(),
            )),
    {
        self.captures_at(bytes, 0, is_wide)
    }
}

/// True for a UTF-16 high surrogate.
pub open spec fn spec_is_hi_surrogate(c: u16) -> bool {
    0xD800 <= c <= 0xDBFF
}

/// True for a UTF-16 low surrogate.
pub open spec fn spec_is_lo_surrogate(c: u16) -> bool {
    0xDC00 <= c <= 0xDFFF
}

fn is_hi_surrogate(c: u16) -> (r: bool)
    ensures
        r == spec_is_hi_surrogate(c),
{
    assert(((c >> 10u16) == (0xD800u16 >> 10u16)) == (0xD800u16 <= c && c <= 0xDBFFu16))
        by (bit_vector);
    (c >> 10u16) == (0xD800u16 >> 10u16)
}

fn is_lo_surrogate(c: u16) -> (r: bool)
    ensures
        r == spec_is_lo_surrogate(c),
{
    assert(((c >> 10u16) == (0xDC00u16 >> 10u16)) == (0xDC00u16 <= c && c <= 0xDFFFu16))
        by (bit_vector);
    (c >> 10u16) == (0xDC00u16 >> 10u16)
}

/// The little-endian 16-bit code unit at byte `i`.
pub open spec fn unit_at(b: Seq<u8>, i: int) -> u16 {
    (b[i] as u16) | ((b[i + 1] as u16) << 8u16)
}

/// The position one character after `pos`: one byte in a byte text or past
/// the end; one code unit in a wide text, two for a surrogate pair when read
/// in a Unicode mode.
pub open spec fn spec_advance(b: Seq<u8>, pos: int, is_wide: bool, unicode: bool) -> int {
    if !is_wide || pos >= b.len() {
        pos + 1
    } else if unicode && spec_is_hi_surrogate(unit_at(b, pos)) && pos + 2 < b.len()
        && spec_is_lo_surrogate(unit_at(b, pos + 2)) {
        pos + 4
    } else {
        pos + 2
    }
}

/// Advances a byte cursor by one character.
pub fn bytes_advance_char(bytes: &[u8], pos: usize, is_wide: bool, re_flags: RegexFlags) -> (r: usize)
    requires
        pos < usize::MAX,
        bytes@.len() < usize::MAX,
        is_wide && spec_is_unicode(re_flags@) ==> bytes@.len() % 2 == 0 && pos % 2 == 0,
    ensures
        r == spec_advance(bytes@, pos as int, is_wide, spec_is_unicode(re_flags@)),
        is_wide && pos % 2 == 0 && pos < bytes@.len() ==> r % 2 == 0 && pos + 2 <= r && (
        bytes@.len() % 2 == 0 ==> r <= bytes@.len()),
{
    if !is_wide || pos >= bytes.len() {
        pos + 1
    } else if !re_flags.is_unicode() {
        pos + 2
    } else {
        let mut i = pos;
        let c = (bytes[i] as u16) | ((bytes[i + 1] as u16) << 8u16);
        i = i + 2;
        if is_hi_surrogate(c) && i < bytes.len() {
            let c1 = (bytes[i] as u16) | ((bytes[i + 1] as u16) << 8u16);
            if is_lo_surrogate(c1) {
                i = i + 2;
            }
        }
        i
    }
}

/// One step of the match iterator from cursor `last_end` (and the start of
/// the last match): the next match, and the new cursor and last match start.
/// After an empty match the cursor first moves one character on.
pub open spec fn matches_step(
    re: CompiledView,
    b: Seq<u8>,
    is_wide: bool,
    last_end: usize,
    last_match: Option<usize>,
) -> (Option<(usize, usize)>, usize, Option<usize>) {
    let pos = if last_match == Some(last_end) {
        spec_advance(b, last_end as int, is_wide, spec_is_unicode(re.flags))
    } else {
        last_end as int
    };
    if pos > b.len() {
        (None, pos as usize, last_match)
    } else {
        match spec_first_match(search_outcome(re, b, pos as usize, is_wide), pos as usize, b.len()) {
            Some((s, e)) => (Some((s, e)), e, Some(s)),
            None => (None, pos as usize, last_match),
        }
    }
}

/// A measure of the iterator's progress that every match makes smaller.
pub open spec fn iter_measure(len: nat, last_end: usize, last_match: Option<usize>) -> nat {
    if last_end > len + 1 {
        0
    } else {
        (2 * (len + 2 - last_end) + (if last_match == Some(last_end) {
            0int
        } else {
            1int
        })) as nat
    }
}

/// Each match the iterator yields lies after its cursor, and the iterator's
/// measure decreases.
pub proof fn lemma_matches_step_progress(
    re: CompiledView,
    b: Seq<u8>,
    is_wide: bool,
    last_end: usize,
    last_match: Option<usize>,
)
    requires
        b.len() < usize::MAX,
    ensures
        ({
            let (m, e2, lm2) = matches_step(re, b, is_wide, last_end, last_match);
            m matches Some((s, e)) ==> {
                &&& last_end <= s <= e <= b.len()
                &&& e2 == e
                &&& lm2 == Some(s)
                &&& iter_measure(b.len(), e2, lm2) < iter_measure(b.len(), last_end, last_match)
                &&& (last_match == Some(last_end) ==> last_end < s)
            }
        }),
{
}

/// All the matches the iterator yields from a state, in order.
pub open spec fn all_matches(
    re: CompiledView,
    b: Seq<u8>,
    is_wide: bool,
    last_end: usize,
    last_match: Option<usize>,
) -> Seq<(usize, usize)>
    decreases iter_measure(b.len(), last_end, last_match),
{
    if b.len() >= usize::MAX {
        seq![]
    } else {
        let (m, e2, lm2) = matches_step(re, b, is_wide, last_end, last_match);
        match m {
            Some(span) => {
                proof {
                    lemma_matches_step_progress(re, b, is_wide, last_end, last_match);
                }
                seq![span] + all_matches(re, b, is_wide, e2, lm2)
            },
            None => seq![],
        }
    }
}

/// Matches that lie in a text of `len` bytes from `cur` on, each starting at
/// or after the end of the one before.
pub open spec fn ordered_matches(ms: Seq<(usize, usize)>, cur: int, len: nat) -> bool
    decreases ms.len(),
{
    ms.len() == 0 || (cur <= ms[0].0 <= ms[0].1 <= len && ordered_matches(
        ms.drop_first(),
        ms[0].1 as int,
        len,
    ))
}

/// The matches of a text never overlap and come in order: each starts at or
/// after the end of the previous one, all within the text and after the
/// starting position.
pub proof fn law_matches_ordered(
    re: CompiledView,
    b: Seq<u8>,
    is_wide: bool,
    last_end: usize,
    last_match: Option<usize>,
)
    requires
        b.len() < usize::MAX,
    ensures
        ordered_matches(all_matches(re, b, is_wide, last_end, last_match), last_end as int, b.len()),
    decreases iter_measure(b.len(), last_end, last_match),
{
    let (m, e2, lm2) = matches_step(re, b, is_wide, last_end, last_match);
    lemma_matches_step_progress(re, b, is_wide, last_end, last_match);
    match m {
        Some(span) => {
            law_matches_ordered(re, b, is_wide, e2, lm2);
            let ms = all_matches(re, b, is_wide, last_end, last_match);
            assert(ms.drop_first() =~= all_matches(re, b, is_wide, e2, lm2));
        },
        None => {},
    }
}

/// The least position at which the next match can start: one past the cursor
/// right after an empty match there, else the cursor.
pub open spec fn next_start_bound(last_end: usize, last_match: Option<usize>) -> int {
    if last_match == Some(last_end) {
        last_end + 1
    } else {
        last_end as int
    }
}

/// Matches whose starts strictly increase, the first at `lb` or later.
pub open spec fn increasing_starts(ms: Seq<(usize, usize)>, lb: int) -> bool
    decreases ms.len(),
{
    ms.len() == 0 || (lb <= ms[0].0 && increasing_starts(ms.drop_first(), ms[0].0 + 1))
}

/// Every match starts strictly after the one before it, so a text of `n`
/// bytes has at most `n + 1` matches from any cursor.
pub proof fn law_match_starts_increase(
    re: CompiledView,
    b: Seq<u8>,
    is_wide: bool,
    last_end: usize,
    last_match: Option<usize>,
)
    requires
        b.len() < usize::MAX,
    ensures
        increasing_starts(
            all_matches(re, b, is_wide, last_end, last_match),
            next_start_bound(last_end, last_match),
        ),
        all_matches(re, b, is_wide, last_end, last_match).len() <= b.len() + 1,
        all_matches(re, b, is_wide, last_end, last_match).len() > 0 ==> all_matches(
            re,
            b,
            is_wide,
            last_end,
            last_match,
        ).len() + next_start_bound(last_end, last_match) <= b.len() + 1,
    decreases iter_measure(b.len(), last_end, last_match),
{
    let (m, e2, lm2) = matches_step(re, b, is_wide, last_end, last_match);
    lemma_matches_step_progress(re, b, is_wide, last_end, last_match);
    match m {
        Some((s, e)) => {
            law_match_starts_increase(re, b, is_wide, e2, lm2);
            let ms = all_matches(re, b, is_wide, last_end, last_match);
            let rest = all_matches(re, b, is_wide, e2, lm2);
            assert(ms.drop_first() =~= rest);
            assert(next_start_bound(e2, lm2) >= s + 1);
            assert(increasing_starts(rest, s + 1)) by {
                lemma_increasing_starts_weaken(rest, next_start_bound(e2, lm2), s + 1);
            }
        },
        None => {},
    }
}

/// A lower bound for increasing starts may be lowered.
proof fn lemma_increasing_starts_weaken(ms: Seq<(usize, usize)>, lb: int, lower: int)
    requires
        increasing_starts(ms, lb),
        lower <= lb,
    ensures
        increasing_starts(ms, lower),
{
}

/// Iterator over matches of a regex in a text.
pub struct Matches<'r, 't> {
    regex: &'r Regex,
    bytes: &'t [u8],
    is_wide: bool,
    last_end: usize,
    last_match: Option<usize>,
}

/// The state of a match iterator.
pub struct MatchesView {
    pub regex: CompiledView,
    pub text: Seq<u8>,
    pub is_wide: bool,
    pub last_end: usize,
    pub last_match: Option<usize>,
}

impl<'r, 't> View for Matches<'r, 't> {
    type V = MatchesView;

    closed spec fn view(&self) -> MatchesView {
        MatchesView {
            regex: self.regex@,
            text: self.bytes@,
            is_wide: self.is_wide,
            last_end: self.last_end,
            last_match: self.last_match,
        }
    }
}

/// The matches a match iterator has still to yield.
pub open spec fn remaining_matches(v: MatchesView) -> Seq<(usize, usize)> {
    all_matches(v.regex, v.text, v.is_wide, v.last_end, v.last_match)
}

/// The cursor state every match iterator keeps: in a wide text read in a
/// Unicode mode the cursor stays on code-unit boundaries.
pub open spec fn matches_state_ok(v: MatchesView) -> bool {
    &&& v.text.len() < usize::MAX
    &&& (v.is_wide && spec_is_unicode(v.regex.flags)) ==> v.text.len() % 2 == 0 && (v.last_match
        == Some(v.last_end) ==> v.last_end % 2 == 0)
    &&& v.last_match matches Some(s) ==> s <= v.last_end && (s == v.last_end ==> v.last_end
        <= v.text.len())
}

/// In a wide text every position a search reports is even.
proof fn lemma_wide_spans_even(re: CompiledView, b: Seq<u8>, pos: usize)
    requires
        b.len() < usize::MAX,
    ensures
        spec_first_match(search_outcome(re, b, pos, true), pos, b.len()) matches Some((s, e)) ==> s
            % 2 == 0 && e % 2 == 0,
{
}

impl<'r, 't> Matches<'r, 't> {
    #[verifier::type_invariant]
    closed spec fn inv(self) -> bool {
        matches_state_ok(self@)
    }

    /// Returns the next match, or `None` when there is none left.
    pub fn next(&mut self) -> (r: Option<Match<'t>>)
        ensures
            final(self)@.regex == old(self)@.regex,
            final(self)@.text == old(self)@.text,
            final(self)@.is_wide == old(self)@.is_wide,
            (
                span_of(
                    match r {
                        Some(m) => Some(m@),
                        None => None,
                    },
                ),
                final(self)@.last_end,
                final(self)@.last_match,
            ) == matches_step(
                old(self)@.regex,
                old(self)@.text,
                old(self)@.is_wide,
                old(self)@.last_end,
                old(self)@.last_match,
            ),
            r matches Some(m) ==> m@.text == old(self)@.text,
            match r {
                Some(m) => remaining_matches(old(self)@) == seq![(m@.start, m@.end)]
                    + remaining_matches(final(self)@),
                None => remaining_matches(old(self)@).len() == 0 && remaining_matches(
                    final(self)@,
                ).len() == 0,
            },
    {
        proof {
            use_type_invariant(&*self);
        }
        let ghost old_v = self@;
        let flags = self.regex.flags();
        if let Some(start) = self.last_match {
            if start == self.last_end {
                self.last_end = bytes_advance_char(self.bytes, self.last_end, self.is_wide, flags);
            }
        }
        if self.last_end > self.bytes.len() {
            assert(remaining_matches(old_v).len() == 0);
            proof {
                law_exhausted_matches_stay_exhausted(
                    old_v.regex,
                    old_v.text,
                    old_v.is_wide,
                    old_v.last_end,
                    old_v.last_match,
                );
            }
            return None;
        }
        match self.regex.find_at(self.bytes, self.last_end, self.is_wide) {
            Ok(Some(mat)) => {
                proof {
                    if self.is_wide {
                        lemma_wide_spans_even(self.regex@, self.bytes@, self.last_end);
                    }
                }
                self.last_end = mat.end();
                self.last_match = Some(mat.start());
                Some(mat)
            },
            _ => {
                assert(remaining_matches(old_v).len() == 0);
                proof {
                    law_exhausted_matches_stay_exhausted(
                        old_v.regex,
                        old_v.text,
                        old_v.is_wide,
                        old_v.last_end,
                        old_v.last_match,
                    );
                }
                None
            },
        }
    }
}

impl Regex {
    /// Returns an iterator over all non-overlapping matches in the text,
    /// searching from byte `bytes_offset`.
    pub fn find_iter<'r, 't>(&'r self, bytes: &'t [u8], bytes_offset: usize, is_wide: bool) -> (r:
        Matches<'r, 't>)
        requires
            bytes@.len() < usize::MAX,
            is_wide && spec_is_unicode(self@.flags) ==> bytes@.len() % 2 == 0,
        ensures
            r@ == (MatchesView {
                regex: self@,
                text: bytes@,
                is_wide,
                last_end: bytes_offset,
                last_match: None,
            }),
    {
        Matches { regex: self, bytes, is_wide, last_end: bytes_offset, last_match: None }
    }
}

/// The text with every match of `ms` replaced by `rep`, from byte `cur` on.
pub open spec fn replace_from(b: Seq<u8>, rep: Seq<u8>, ms: Seq<(usize, usize)>, cur: int) -> Seq<u8>
    decreases ms.len(),
{
    if ms.len() == 0 {
        b.subrange(cur, b.len() as int)
    } else {
        b.subrange(cur, ms[0].0 as int) + rep + replace_from(b, rep, ms.drop_first(), ms[0].1 as int)
    }
}

/// The pieces of the text between the matches of `ms`, from byte `cur` on.
pub open spec fn split_pieces(b: Seq<u8>, ms: Seq<(usize, usize)>, cur: int) -> Seq<Seq<u8>>
    decreases ms.len(),
{
    if ms.len() == 0 {
        seq![b.subrange(cur, b.len() as int)]
    } else {
        seq![b.subrange(cur, ms[0].0 as int)] + split_pieces(b, ms.drop_first(), ms[0].1 as int)
    }
}

/// The pieces joined with `sep` between each two.
pub open spec fn join_pieces(pieces: Seq<Seq<u8>>, sep: Seq<u8>) -> Seq<u8>
    decreases pieces.len(),
{
    if pieces.len() == 0 {
        seq![]
    } else if pieces.len() == 1 {
        pieces[0]
    } else {
        pieces[0] + sep + join_pieces(pieces.drop_first(), sep)
    }
}

/// Replacing every match with `rep` gives the pieces that splitting at the
/// same matches gives, joined with `rep`.
pub proof fn law_replace_is_join_of_split(
    b: Seq<u8>,
    rep: Seq<u8>,
    ms: Seq<(usize, usize)>,
    cur: int,
)
    ensures
        replace_from(b, rep, ms, cur) == join_pieces(split_pieces(b, ms, cur), rep),
        split_pieces(b, ms, cur).len() == ms.len() + 1,
    decreases ms.len(),
{
    if ms.len() > 0 {
        law_replace_is_join_of_split(b, rep, ms.drop_first(), ms[0].1 as int);
        let rest = split_pieces(b, ms.drop_first(), ms[0].1 as int);
        let all = split_pieces(b, ms, cur);
        assert(all.drop_first() =~= rest);
    }
}

/// With no match, replacing leaves the text as it is.
pub proof fn law_replace_without_matches_is_identity(
    re: CompiledView,
    b: Seq<u8>,
    is_wide: bool,
    rep: Seq<u8>,
)
    requires
        all_matches(re, b, is_wide, 0, None).len() == 0,
    ensures
        replace_from(b, rep, all_matches(re, b, is_wide, 0, None), 0) == b,
{
    assert(b.subrange(0, b.len() as int) =~= b);
}

/// The total number of bytes the matches of `ms` cover.
pub open spec fn matched_len(ms: Seq<(usize, usize)>) -> int
    decreases ms.len(),
{
    if ms.len() == 0 {
        0
    } else {
        (ms[0].1 - ms[0].0) + matched_len(ms.drop_first())
    }
}

/// Replacing `k` ordered, disjoint matches with `rep` changes the length by
/// `k` times `rep`'s length less the bytes the matches covered.
pub proof fn law_replace_length(b: Seq<u8>, rep: Seq<u8>, ms: Seq<(usize, usize)>, cur: int)
    requires
        0 <= cur <= b.len(),
        ordered_matches(ms, cur, b.len()),
    ensures
        replace_from(b, rep, ms, cur).len() == b.len() - cur + ms.len() * rep.len() - matched_len(
            ms,
        ),
    decreases ms.len(),
{
    if ms.len() > 0 {
        law_replace_length(b, rep, ms.drop_first(), ms[0].1 as int);
        let k = ms.len();
        let r = rep.len();
        assert(k * r == r + (k - 1) * r) by (nonlinear_arith);
    }
}

/// The pieces put back together with the matched bytes of `ms` between each
/// two.
pub open spec fn rejoin_pieces(b: Seq<u8>, pieces: Seq<Seq<u8>>, ms: Seq<(usize, usize)>) -> Seq<u8>
    decreases pieces.len(),
{
    if pieces.len() == 0 {
        seq![]
    } else if pieces.len() == 1 || ms.len() == 0 {
        pieces[0]
    } else {
        pieces[0] + b.subrange(ms[0].0 as int, ms[0].1 as int) + rejoin_pieces(
            b,
            pieces.drop_first(),
            ms.drop_first(),
        )
    }
}

/// Splitting at ordered, non-overlapping matches loses nothing: the pieces
/// with the matched bytes put back between them are the text from `cur` on.
pub proof fn law_split_rejoins_to_text(b: Seq<u8>, ms: Seq<(usize, usize)>, cur: int)
    requires
        0 <= cur <= b.len(),
        ordered_matches(ms, cur, b.len()),
    ensures
        rejoin_pieces(b, split_pieces(b, ms, cur), ms) == b.subrange(cur, b.len() as int),
    decreases ms.len(),
{
    if ms.len() > 0 {
        let (s, e) = ms[0];
        law_split_rejoins_to_text(b, ms.drop_first(), e as int);
        law_replace_is_join_of_split(b, seq![], ms.drop_first(), e as int);
        let pieces = split_pieces(b, ms, cur);
        assert(pieces.drop_first() =~= split_pieces(b, ms.drop_first(), e as int));
        assert(b.subrange(cur, s as int) + b.subrange(s as int, e as int) + b.subrange(
            e as int,
            b.len() as int,
        ) =~= b.subrange(cur, b.len() as int));
    }
}

/// The pieces `split` yields, with the matches `find_iter` yields put back
/// between them, give back the whole text.
pub proof fn law_split_and_matches_rebuild_text(re: CompiledView, b: Seq<u8>, is_wide: bool)
    requires
        b.len() < usize::MAX,
    ensures
        rejoin_pieces(
            b,
            split_pieces(b, all_matches(re, b, is_wide, 0, None), 0),
            all_matches(re, b, is_wide, 0, None),
        ) == b,
{
    law_matches_ordered(re, b, is_wide, 0, None);
    law_split_rejoins_to_text(b, all_matches(re, b, is_wide, 0, None), 0);
    assert(b.subrange(0, b.len() as int) =~= b);
}

/// Once the match iterator finds no match, it never finds one again: the step
/// that finds none leads to a state with no matches left, from any state the
/// iterator can be in.
pub proof fn law_exhausted_matches_stay_exhausted(
    re: CompiledView,
    b: Seq<u8>,
    is_wide: bool,
    last_end: usize,
    last_match: Option<usize>,
)
    requires
        b.len() < usize::MAX,
        last_match matches Some(s) ==> s <= last_end && (s == last_end ==> last_end <= b.len()),
        matches_step(re, b, is_wide, last_end, last_match).0 is None,
    ensures
        ({
            let (_, e2, lm2) = matches_step(re, b, is_wide, last_end, last_match);
            &&& all_matches(re, b, is_wide, e2, lm2).len() == 0
            &&& all_matches(re, b, is_wide, last_end, last_match).len() == 0
            &&& last_end <= e2
        }),
{
    let (_, e2, lm2) = matches_step(re, b, is_wide, last_end, last_match);
    if last_match == Some(last_end) {
        assert(spec_advance(b, last_end as int, is_wide, spec_is_unicode(re.flags)) > last_end);
    }
    assert(lm2 != Some(e2));
    assert(matches_step(re, b, is_wide, e2, lm2).0 is None);
}

impl Regex {
    /// Replaces all matches in the text with `rep`.
    pub fn replace_all<'t>(&self, bytes: &'t [u8], is_wide: bool, rep: &[u8]) -> (r: Box<[u8]>)
        requires
            bytes@.len() < usize::MAX,
            is_wide && spec_is_unicode(self@.flags) ==> bytes@.len() % 2 == 0,
        ensures
            r@ == replace_from(bytes@, rep@, all_matches(self@, bytes@, is_wide, 0, None), 0),
            r@.len() == bytes@.len() + all_matches(self@, bytes@, is_wide, 0, None).len()
                * rep@.len() - matched_len(all_matches(self@, bytes@, is_wide, 0, None)),
    {
        let mut result: Vec<u8> = Vec::new();
        let mut last_end: usize = 0;
        let mut it = self.find_iter(bytes, 0, is_wide);
        let ghost all = remaining_matches(it@);
        loop
            invariant
                it@.regex == self@,
                it@.text == bytes@,
                it@.is_wide == is_wide,
                bytes@.len() < usize::MAX,
                last_end <= it@.last_end,
                last_end <= bytes@.len(),
                result@ + replace_from(bytes@, rep@, remaining_matches(it@), last_end as int)
                    == replace_from(bytes@, rep@, all, 0),
                all == all_matches(self@, bytes@, is_wide, 0, None),
            ensures
                last_end <= bytes@.len(),
                result@ + bytes@.subrange(last_end as int, bytes@.len() as int) == replace_from(
                    bytes@,
                    rep@,
                    all,
                    0,
                ),
            decreases iter_measure(bytes@.len(), it@.last_end, it@.last_match),
        {
            let ghost before = it@;
            proof {
                use_type_invariant(&it);
                lemma_matches_step_progress(
                    before.regex,
                    before.text,
                    before.is_wide,
                    before.last_end,
                    before.last_match,
                );
            }
            match it.next() {
                Some(mat) => {
                    let gap = vstd::slice::slice_subrange(bytes, last_end, mat.start());
                    let ghost rest = remaining_matches(it@);
                    let ghost old_result = result@;
                    result.extend_from_slice(gap);
                    result.extend_from_slice(rep);
                    proof {
                        let ms = remaining_matches(before);
                        assert(ms.drop_first() =~= rest);
                        assert(result@ =~= old_result + gap@ + rep@);
                        assert(old_result + replace_from(bytes@, rep@, ms, last_end as int) =~= result@
                            + replace_from(bytes@, rep@, rest, mat@.end as int));
                    }
                    last_end = mat.end();
                },
                None => {
                    proof {
                        use_type_invariant(&it);
                        law_exhausted_matches_stay_exhausted(
                            before.regex,
                            before.text,
                            before.is_wide,
                            before.last_end,
                            before.last_match,
                        );
                        let ms = remaining_matches(before);
                        assert(ms.len() == 0);
                        assert(replace_from(bytes@, rep@, ms, last_end as int) == bytes@.subrange(
                            last_end as int,
                            bytes@.len() as int,
                        ));
                    }
                    break ;
                },
            }
        }
        let tail = vstd::slice::slice_subrange(bytes, last_end, bytes.len());
        let ghost old_result = result@;
        result.extend_from_slice(tail);
        assert(result@ =~= old_result + tail@);
        proof {
            law_matches_ordered(self@, bytes@, is_wide, 0, None);
            law_replace_length(bytes@, rep@, all, 0);
        }
        into_boxed(result)
    }

    /// Splits the text at the matches of the regex.
    pub fn split<'r, 't>(&'r self, bytes: &'t [u8], is_wide: bool) -> (r: Split<'r, 't>)
        requires
            bytes@.len() < usize::MAX,
            is_wide && spec_is_unicode(self@.flags) ==> bytes@.len() % 2 == 0,
        ensures
            r.wf(),
            remaining_pieces(r@) == split_pieces(
                bytes@,
                all_matches(self@, bytes@, is_wide, 0, None),
                0,
            ),
    {
        Split { finder: self.find_iter(bytes, 0, is_wide), last_end: 0 }
    }
}

/// Iterator over the parts of a text split by a regex.
pub struct Split<'r, 't> {
    finder: Matches<'r, 't>,
    last_end: usize,
}

/// The state of a split iterator.
pub struct SplitView {
    pub finder: MatchesView,
    pub last_end: usize,
}

impl<'r, 't> View for Split<'r, 't> {
    type V = SplitView;

    closed spec fn view(&self) -> SplitView {
        SplitView { finder: self.finder@, last_end: self.last_end }
    }
}

/// The pieces a split iterator has still to yield.
pub open spec fn remaining_pieces(v: SplitView) -> Seq<Seq<u8>> {
    if v.last_end > v.finder.text.len() {
        seq![]
    } else {
        split_pieces(v.finder.text, remaining_matches(v.finder), v.last_end as int)
    }
}

impl<'r, 't> Split<'r, 't> {
    /// The bookkeeping every split iterator keeps between its cursor and the
    /// match iterator it reads.
    pub closed spec fn wf(self) -> bool {
        let f = self.finder@;
        &&& self.last_end <= f.text.len() + 1
        &&& self.last_end <= f.text.len() ==> self.last_end <= f.last_end
        &&& self.last_end > f.text.len() ==> remaining_matches(f).len() == 0
    }

    /// Returns the next piece, or `None` when all have been returned.
    pub fn next(&mut self) -> (r: Option<&'t [u8]>)
        requires
            old(self).wf(),
        ensures
            final(self).wf(),
            match r {
                Some(piece) => remaining_pieces(old(self)@) == seq![piece@] + remaining_pieces(
                    final(self)@,
                ),
                None => remaining_pieces(old(self)@).len() == 0 && remaining_pieces(
                    final(self)@,
                ).len() == 0,
            },
    {
        proof {
            use_type_invariant(&self.finder);
        }
        let ghost before = self.finder@;
        proof {
            lemma_matches_step_progress(
                before.regex,
                before.text,
                before.is_wide,
                before.last_end,
                before.last_match,
            );
        }
        let bytes = self.finder.bytes;
        match self.finder.next() {
            Some(m) => {
                let slice = vstd::slice::slice_subrange(bytes, self.last_end, m.start());
                proof {
                    let ms = remaining_matches(before);
                    assert(ms.drop_first() =~= remaining_matches(self.finder@));
                    assert(split_pieces(bytes@, ms, self.last_end as int).drop_first()
                        =~= split_pieces(bytes@, remaining_matches(self.finder@), m@.end as int));
                }
                self.last_end = m.end();
                Some(slice)
            },
            None => {
                proof {
                    law_exhausted_matches_stay_exhausted(
                        before.regex,
                        before.text,
                        before.is_wide,
                        before.last_end,
                        before.last_match,
                    );
                }
                if self.last_end <= bytes.len() {
                    let slice = vstd::slice::slice_subrange(bytes, self.last_end, bytes.len());
                    self.last_end = bytes.len() + 1;
                    Some(slice)
                } else {
                    None
                }
            },
        }
    }
}

/// One step of the capture iterator from cursor `last_end`: the captures of
/// the next match and the new cursor. After an empty match the cursor moves
/// one character on from the match, else to the match's end.
pub open spec fn captures_step(
    re: CompiledView,
    b: Seq<u8>,
    is_wide: bool,
    last_end: usize,
) -> Option<(Seq<Option<(usize, usize)>>, usize)> {
    if last_end > b.len() {
        None
    } else {
        let outcome = search_outcome(re, b, last_end, is_wide);
        match spec_first_match(outcome, last_end, b.len()) {
            Some((s, e)) => Some(
                (
                    outcome.1,
                    (if s == e {
                        spec_advance(b, s as int, is_wide, spec_is_unicode(re.flags))
                    } else {
                        e as int
                    }) as usize,
                ),
            ),
            None => None,
        }
    }
}

/// One character on from a position within the text (or at its end) is past
/// it and at most one past the end.
pub proof fn lemma_advance_bounds(b: Seq<u8>, pos: int, is_wide: bool, unicode: bool)
    requires
        0 <= pos <= b.len(),
    ensures
        pos < spec_advance(b, pos, is_wide, unicode) <= b.len() + 1,
{
}

/// A measure of the capture iterator's progress.
pub open spec fn captures_measure(len: nat, last_end: usize) -> nat {
    if last_end > len + 1 {
        0
    } else {
        (len + 2 - last_end) as nat
    }
}

/// Each step of the capture iterator moves its cursor past the old one, to at
/// most one past the end of the text.
pub proof fn lemma_captures_step_progress(
    re: CompiledView,
    b: Seq<u8>,
    is_wide: bool,
    last_end: usize,
)
    requires
        b.len() < usize::MAX,
    ensures
        captures_step(re, b, is_wide, last_end) matches Some((caps, next)) ==> {
            &&& last_end < next <= b.len() + 1
            &&& captures_measure(b.len(), next) < captures_measure(b.len(), last_end)
        },
{
    if last_end <= b.len() {
        let outcome = search_outcome(re, b, last_end, is_wide);
        match spec_first_match(outcome, last_end, b.len()) {
            Some((s, e)) => {
                lemma_advance_bounds(b, s as int, is_wide, spec_is_unicode(re.flags));
            },
            None => {},
        }
    }
}

/// The captures of every match the capture iterator yields from cursor
/// `last_end`, in order.
pub open spec fn all_captures(
    re: CompiledView,
    b: Seq<u8>,
    is_wide: bool,
    last_end: usize,
) -> Seq<Seq<Option<(usize, usize)>>>
    decreases captures_measure(b.len(), last_end),
{
    if b.len() >= usize::MAX {
        seq![]
    } else {
        match captures_step(re, b, is_wide, last_end) {
            None => seq![],
            Some((caps, next)) => {
                proof {
                    lemma_captures_step_progress(re, b, is_wide, last_end);
                }
                seq![caps] + all_captures(re, b, is_wide, next)
            },
        }
    }
}

/// Where the match iterator searches next from its state: one character on
/// after an empty match at the cursor, else at the cursor.
pub open spec fn next_search_position(
    re: CompiledView,
    b: Seq<u8>,
    is_wide: bool,
    last_end: usize,
    last_match: Option<usize>,
) -> int {
    if last_match == Some(last_end) {
        spec_advance(b, last_end as int, is_wide, spec_is_unicode(re.flags))
    } else {
        last_end as int
    }
}

/// The capture iterator searching where the match iterator does reports the
/// same matches: group 0 of each capture list is the next match.
#[verifier::spinoff_prover]
#[verifier::rlimit(40)]
pub proof fn lemma_captures_follow_matches(
    re: CompiledView,
    b: Seq<u8>,
    is_wide: bool,
    last_end: usize,
    last_match: Option<usize>,
)
    requires
        b.len() < usize::MAX,
        last_match == Some(last_end) ==> last_end <= b.len(),
    ensures
        whole_spans(
            all_captures(
                re,
                b,
                is_wide,
                next_search_position(re, b, is_wide, last_end, last_match) as usize,
            ),
        ) == all_matches(re, b, is_wide, last_end, last_match),
    decreases iter_measure(b.len(), last_end, last_match),
{
    let pos = next_search_position(re, b, is_wide, last_end, last_match);
    if last_match == Some(last_end) {
        lemma_advance_bounds(b, last_end as int, is_wide, spec_is_unicode(re.flags));
    }
    let c = pos as usize;
    let caps = all_captures(re, b, is_wide, c);
    let ms = all_matches(re, b, is_wide, last_end, last_match);
    lemma_matches_step_progress(re, b, is_wide, last_end, last_match);
    let (m, e2, lm2) = matches_step(re, b, is_wide, last_end, last_match);
    match m {
        Some((s, e)) => {
            lemma_captures_follow_matches(re, b, is_wide, e2, lm2);
            lemma_captures_step_progress(re, b, is_wide, c);
            let outcome = search_outcome(re, b, c, is_wide);
            assert(spec_first_match(outcome, c, b.len()) == Some((s, e)));
            assert(whole_span(outcome.1) == (s, e));
            assert(captures_step(re, b, is_wide, c) == Some(
                (
                    outcome.1,
                    (if s == e {
                        spec_advance(b, s as int, is_wide, spec_is_unicode(re.flags))
                    } else {
                        e as int
                    }) as usize,
                ),
            ));
            assert(next_search_position(re, b, is_wide, e2, lm2) == (if s == e {
                spec_advance(b, s as int, is_wide, spec_is_unicode(re.flags))
            } else {
                e as int
            }));
            let rest = all_captures(re, b, is_wide, next_search_position(re, b, is_wide, e2, lm2) as usize);
            assert(caps == seq![outcome.1] + rest);
            assert(whole_spans(caps) =~= seq![(s, e)] + whole_spans(rest));
        },
        None => {
            assert(whole_spans(caps) =~= Seq::<(usize, usize)>::empty());
        },
    }
}

/// The capture iterator reports exactly the matches the match iterator
/// reports: group 0 of its `i`-th capture list is `find_iter`'s `i`-th match.
pub proof fn law_captures_iter_matches_find_iter(re: CompiledView, b: Seq<u8>, is_wide: bool)
    requires
        b.len() < usize::MAX,
    ensures
        whole_spans(all_captures(re, b, is_wide, 0)) == all_matches(re, b, is_wide, 0, None),
{
    lemma_captures_follow_matches(re, b, is_wide, 0, None);
}

/// The first captures the capture iterator yields are what `captures` gives:
/// some exactly when the search from the start finds a match.
pub proof fn law_first_captures_are_captures(re: CompiledView, b: Seq<u8>, is_wide: bool)
    requires
        b.len() < usize::MAX,
    ensures
        all_captures(re, b, is_wide, 0).len() > 0 <==> spec_first_match(
            search_outcome(re, b, 0, is_wide),
            0,
            b.len(),
        ) is Some,
        all_captures(re, b, is_wide, 0).len() > 0 ==> all_captures(re, b, is_wide, 0)[0]
            == search_outcome(re, b, 0, is_wide).1,
{
}

/// Iterator over the capture groups of the matches of a regex in a text.
pub struct CaptureMatches<'r, 't> {
    regex: &'r Regex,
    bytes: &'t [u8],
    is_wide: bool,
    last_end: usize,
}

/// The state of a capture iterator.
pub struct CaptureMatchesView {
    pub regex: CompiledView,
    pub text: Seq<u8>,
    pub is_wide: bool,
    pub last_end: usize,
}

impl<'r, 't> View for CaptureMatches<'r, 't> {
    type V = CaptureMatchesView;

    closed spec fn view(&self) -> CaptureMatchesView {
        CaptureMatchesView {
            regex: self.regex@,
            text: self.bytes@,
            is_wide: self.is_wide,
            last_end: self.last_end,
        }
    }
}

/// The captures a capture iterator has still to yield.
pub open spec fn remaining_captures(v: CaptureMatchesView) -> Seq<Seq<Option<(usize, usize)>>> {
    all_captures(v.regex, v.text, v.is_wide, v.last_end)
}

/// The cursor state every capture iterator keeps: in a wide text the cursor
/// stays on code-unit boundaries until it passes the end, and a wide text
/// read in a Unicode mode has whole code units.
pub open spec fn captures_state_ok(v: CaptureMatchesView) -> bool {
    &&& v.text.len() < usize::MAX
    &&& v.is_wide ==> (v.last_end % 2 == 0 || v.last_end > v.text.len())
    &&& (v.is_wide && spec_is_unicode(v.regex.flags)) ==> v.text.len() % 2 == 0
}

impl<'r, 't> CaptureMatches<'r, 't> {
    #[verifier::type_invariant]
    closed spec fn inv(self) -> bool {
        captures_state_ok(self@)
    }

    /// Returns the captures of the next match, or `None` when there is none
    /// left.
    pub fn next(&mut self) -> (r: Option<Captures<'t>>)
        ensures
            final(self)@.regex == old(self)@.regex,
            final(self)@.text == old(self)@.text,
            final(self)@.is_wide == old(self)@.is_wide,
            match r {
                Some(c) => {
                    &&& c@.text == old(self)@.text
                    &&& captures_step(
                        old(self)@.regex,
                        old(self)@.text,
                        old(self)@.is_wide,
                        old(self)@.last_end,
                    ) == Some((c@.spans, final(self)@.last_end))
                    &&& c@.spans.len() == old(self)@.regex.capture_count
                    &&& c@.spans[0] matches Some((s, e)) && old(self)@.last_end <= s <= e
                        <= c@.text.len() && e <= final(self)@.last_end
                    &&& final(self)@.last_end > old(self)@.last_end
                    &&& remaining_captures(old(self)@) == seq![c@.spans] + remaining_captures(
                        final(self)@,
                    )
                },
                None => {
                    &&& captures_step(
                        old(self)@.regex,
                        old(self)@.text,
                        old(self)@.is_wide,
                        old(self)@.last_end,
                    ) is None
                    &&& final(self)@ == old(self)@
                    &&& remaining_captures(old(self)@).len() == 0
                },
            },
    {
        proof {
            use_type_invariant(&*self);
        }
        if self.last_end > self.bytes.len() {
            return None;
        }
        match self.regex.captures_at(self.bytes, self.last_end, self.is_wide) {
            Ok(Some(caps)) => {
                proof {
                    use_type_invariant(&caps);
                    assert(caps@.spans[0] is Some);
                    lemma_captures_step_progress(
                        self.regex@,
                        self.bytes@,
                        self.is_wide,
                        self.last_end,
                    );
                }
                match caps.get(0) {
                    Some(m) => {
                        if m.start() == m.end() {
                            let flags = self.regex.flags();
                            self.last_end = bytes_advance_char(
                                self.bytes,
                                m.start(),
                                self.is_wide,
                                flags,
                            );
                        } else {
                            self.last_end = m.end();
                        }
                    },
                    None => {},
                }
                Some(caps)
            },
            _ => None,
        }
    }
}

impl Regex {
    /// Returns an iterator over the capture groups of all matches in the
    /// text.
    pub fn captures_iter<'r, 't>(&'r self, bytes: &'t [u8], is_wide: bool) -> (r: CaptureMatches<
        'r,
        't,
    >)
        requires
            bytes@.len() < usize::MAX,
            is_wide && spec_is_unicode(self@.flags) ==> bytes@.len() % 2 == 0,
        ensures
            r@ == (CaptureMatchesView { regex: self@, text: bytes@, is_wide, last_end: 0 }),
    {
        CaptureMatches { regex: self, bytes, is_wide, last_end: 0 }
    }
}

/// The span of group 0 in a list of capture spans.
pub open spec fn whole_span(spans: Seq<Option<(usize, usize)>>) -> (usize, usize) {
    if spans.len() > 0 && spans[0] is Some {
        spans[0]->0
    } else {
        (0, 0)
    }
}

/// The span of group 0 of each capture list.
pub open spec fn whole_spans(caps: Seq<Seq<Option<(usize, usize)>>>) -> Seq<(usize, usize)> {
    Seq::new(caps.len(), |i: int| whole_span(caps[i]))
}

/// The text from byte `cur` on with the whole match of each capture list in
/// `caps` replaced by the matching entry of `outs`.
pub open spec fn replace_with_from(
    b: Seq<u8>,
    caps: Seq<Seq<Option<(usize, usize)>>>,
    outs: Seq<Seq<u8>>,
    cur: int,
) -> Seq<u8>
    decreases caps.len(),
{
    if caps.len() == 0 {
        b.subrange(cur, b.len() as int)
    } else {
        let (s, e) = whole_span(caps[0]);
        b.subrange(cur, s as int) + outs[0] + replace_with_from(
            b,
            caps.drop_first(),
            outs.drop_first(),
            e as int,
        )
    }
}

/// `out` is what the closure `f` may return for the captures with spans
/// `spans` in the text `text`.
pub open spec fn replacement_of<'t, F: Fn(&Captures<'t>) -> std::borrow::Cow<'t, [u8]>>(
    f: F,
    text: Seq<u8>,
    spans: Seq<Option<(usize, usize)>>,
    out: Seq<u8>,
) -> bool {
    exists|c: Captures<'t>, o: std::borrow::Cow<'t, [u8]>|
        #[trigger] f.ensures((&c,), o) && c@.text == text && c@.spans == spans && o@ == out
}

/// Each entry of `outs` is a replacement `f` may return for the matching
/// capture list of `caps`.
pub open spec fn replacements_by<'t, F: Fn(&Captures<'t>) -> std::borrow::Cow<'t, [u8]>>(
    f: F,
    text: Seq<u8>,
    caps: Seq<Seq<Option<(usize, usize)>>>,
    outs: Seq<Seq<u8>>,
) -> bool {
    &&& outs.len() == caps.len()
    &&& forall|i: int| 0 <= i < outs.len() ==> replacement_of(f, text, caps[i], #[trigger] outs[i])
}

impl Regex {
    /// Replaces all matches in the text with what the closure returns for
    /// their captures.
    pub fn replace_all_with<'t, F: Fn(&Captures<'t>) -> std::borrow::Cow<'t, [u8]>>(
        &self,
        bytes: &'t [u8],
        is_wide: bool,
        f: F,
    ) -> (r: Box<[u8]>)
        requires
            bytes@.len() < usize::MAX,
            is_wide && spec_is_unicode(self@.flags) ==> bytes@.len() % 2 == 0,
            forall|c: &Captures<'t>| #[trigger] f.requires((c,)),
        ensures
            exists|outs: Seq<Seq<u8>>|
                {
                    &&& replacements_by(f, bytes@, all_captures(self@, bytes@, is_wide, 0), outs)
                    &&& r@ == replace_with_from(
                        bytes@,
                        all_captures(self@, bytes@, is_wide, 0),
                        outs,
                        0,
                    )
                },
    {
        let mut result: Vec<u8> = Vec::new();
        let mut last_end: usize = 0;
        let mut it = self.captures_iter(bytes, is_wide);
        let ghost all = remaining_captures(it@);
        let ghost mut done: Seq<Seq<Option<(usize, usize)>>> = seq![];
        let ghost mut outs: Seq<Seq<u8>> = seq![];
        proof {
            assert(all =~= done + all);
            assert forall|future: Seq<Seq<u8>>|
                #[trigger] replace_with_from(bytes@, all, future, 0) == replace_with_from(
                    bytes@,
                    all,
                    outs + future,
                    0,
                ) by {
                assert(outs + future =~= future);
            }
        }
        loop
            invariant
                it@.regex == self@,
                it@.text == bytes@,
                it@.is_wide == is_wide,
                last_end <= bytes@.len(),
                last_end <= it@.last_end,
                all == all_captures(self@, bytes@, is_wide, 0),
                all == done + remaining_captures(it@),
                forall|c: &Captures<'t>| #[trigger] f.requires((c,)),
                replacements_by(f, bytes@, done, outs),
                forall|future: Seq<Seq<u8>>|
                    result@ + #[trigger] replace_with_from(
                        bytes@,
                        remaining_captures(it@),
                        future,
                        last_end as int,
                    ) == replace_with_from(bytes@, all, outs + future, 0),
            ensures
                last_end <= bytes@.len(),
                replacements_by(f, bytes@, all, outs),
                result@ + bytes@.subrange(last_end as int, bytes@.len() as int) == replace_with_from(
                    bytes@,
                    all,
                    outs,
                    0,
                ),
            decreases captures_measure(bytes@.len(), it@.last_end),
        {
            let ghost before = it@;
            let ghost old_result = result@;
            let ghost old_outs = outs;
            let ghost old_end = last_end;
            match it.next() {
                Some(caps) => {
                    let m = caps.get(0).unwrap();
                    let start = m.start();
                    let end = m.end();
                    let piece = vstd::slice::slice_subrange(bytes, last_end, start);
                    result.extend_from_slice(piece);
                    let ghost with_gap = result@;
                    let rep = f(&caps);
                    match &rep {
                        std::borrow::Cow::Borrowed(borrowed) => {
                            result.extend_from_slice(borrowed);
                        },
                        std::borrow::Cow::Owned(owned) => {
                            result.extend_from_slice(owned.as_slice());
                        },
                    }
                    proof {
                        let spans = caps@.spans;
                        let rest = remaining_captures(it@);
                        assert(with_gap =~= old_result + bytes@.subrange(
                            old_end as int,
                            start as int,
                        ));
                        assert(result@ =~= with_gap + rep@);
                        assert(replacement_of(f, bytes@, spans, rep@));
                        done = done.push(spans);
                        outs = outs.push(rep@);
                        assert(all =~= done + rest);
                        let rem = remaining_captures(before);
                        assert(rem.drop_first() =~= rest);
                        assert(whole_span(rem[0]) == (start, end));
                        assert forall|future: Seq<Seq<u8>>|
                            result@ + #[trigger] replace_with_from(
                                bytes@,
                                rest,
                                future,
                                end as int,
                            ) == replace_with_from(bytes@, all, outs + future, 0) by {
                            let fut0 = seq![rep@] + future;
                            assert(fut0.drop_first() =~= future);
                            assert(replace_with_from(bytes@, rem, fut0, old_end as int)
                                =~= bytes@.subrange(old_end as int, start as int) + rep@
                                + replace_with_from(bytes@, rest, future, end as int));
                            assert(old_outs + fut0 =~= outs + future);
                        }
                        assert forall|i: int| 0 <= i < outs.len() implies replacement_of(
                            f,
                            bytes@,
                            done[i],
                            #[trigger] outs[i],
                        ) by {
                            if i < outs.len() - 1 {
                                assert(outs[i] == old_outs[i]);
                            }
                        }
                    }
                    last_end = end;
                },
                None => {
                    proof {
                        assert(done + seq![] =~= done);
                        let e: Seq<Seq<u8>> = seq![];
                        assert(outs + e =~= outs);
                        assert(replace_with_from(bytes@, remaining_captures(it@), e, last_end as int)
                            == bytes@.subrange(last_end as int, bytes@.len() as int));
                    }
                    break ;
                },
            }
        }
        let tail = vstd::slice::slice_subrange(bytes, last_end, bytes.len());
        let ghost old_result = result@;
        result.extend_from_slice(tail);
        assert(result@ =~= old_result + tail@);
        into_boxed(result)
    }
}

/// Replacing each capture list's whole match by the same bytes is replacing
/// the matches those lists hold.
proof fn lemma_constant_replacement(
    b: Seq<u8>,
    caps: Seq<Seq<Option<(usize, usize)>>>,
    ms: Seq<(usize, usize)>,
    outs: Seq<Seq<u8>>,
    rep: Seq<u8>,
    cur: int,
)
    requires
        whole_spans(caps) == ms,
        outs.len() == caps.len(),
        forall|i: int| 0 <= i < outs.len() ==> #[trigger] outs[i] == rep,
    ensures
        replace_with_from(b, caps, outs, cur) == replace_from(b, rep, ms, cur),
    decreases caps.len(),
{
    if caps.len() > 0 {
        assert(ms[0] == whole_span(caps[0]));
        assert(whole_spans(caps.drop_first()) =~= ms.drop_first());
        assert(outs[0] == rep);
        assert forall|i: int| 0 <= i < outs.drop_first().len() implies #[trigger] outs.drop_first()[i]
            == rep by {
            assert(outs.drop_first()[i] == outs[i + 1]);
        }
        lemma_constant_replacement(
            b,
            caps.drop_first(),
            ms.drop_first(),
            outs.drop_first(),
            rep,
            ms[0].1 as int,
        );
    }
}

/// A closure that returns the same bytes for every match makes
/// `replace_all_with` give what `replace_all` gives, one replacement per match.
pub proof fn law_constant_replacement_is_replace_all(
    re: CompiledView,
    b: Seq<u8>,
    is_wide: bool,
    rep: Seq<u8>,
    outs: Seq<Seq<u8>>,
)
    requires
        b.len() < usize::MAX,
        outs.len() == all_captures(re, b, is_wide, 0).len(),
        forall|i: int| 0 <= i < outs.len() ==> #[trigger] outs[i] == rep,
    ensures
        all_captures(re, b, is_wide, 0).len() == all_matches(re, b, is_wide, 0, None).len(),
        replace_with_from(b, all_captures(re, b, is_wide, 0), outs, 0) == replace_from(
            b,
            rep,
            all_matches(re, b, is_wide, 0, None),
            0,
        ),
{
    law_captures_iter_matches_find_iter(re, b, is_wide);
    lemma_constant_replacement(
        b,
        all_captures(re, b, is_wide, 0),
        all_matches(re, b, is_wide, 0, None),
        outs,
        rep,
        0,
    );
}

/// Replacing ordered, disjoint whole matches by their own bytes gives the
/// text back.
proof fn lemma_self_replacement(
    b: Seq<u8>,
    caps: Seq<Seq<Option<(usize, usize)>>>,
    outs: Seq<Seq<u8>>,
    cur: int,
)
    requires
        0 <= cur <= b.len(),
        ordered_matches(whole_spans(caps), cur, b.len()),
        outs.len() == caps.len(),
        forall|i: int|
            0 <= i < outs.len() ==> #[trigger] outs[i] == b.subrange(
                whole_span(caps[i]).0 as int,
                whole_span(caps[i]).1 as int,
            ),
    ensures
        replace_with_from(b, caps, outs, cur) == b.subrange(cur, b.len() as int),
    decreases caps.len(),
{
    if caps.len() > 0 {
        let ws = whole_spans(caps);
        let (s, e) = whole_span(caps[0]);
        assert(ws[0] == (s, e));
        assert(whole_spans(caps.drop_first()) =~= ws.drop_first());
        assert forall|i: int| 0 <= i < outs.drop_first().len() implies #[trigger] outs.drop_first()[i]
            == b.subrange(
            whole_span(caps.drop_first()[i]).0 as int,
            whole_span(caps.drop_first()[i]).1 as int,
        ) by {
            assert(outs.drop_first()[i] == outs[i + 1]);
            assert(caps.drop_first()[i] == caps[i + 1]);
        }
        lemma_self_replacement(b, caps.drop_first(), outs.drop_first(), e as int);
        assert(outs[0] == b.subrange(s as int, e as int));
        assert(b.subrange(cur, s as int) + b.subrange(s as int, e as int) + b.subrange(
            e as int,
            b.len() as int,
        ) =~= b.subrange(cur, b.len() as int));
    }
}

/// Replacing every match by its own bytes with `replace_all_with` leaves the
/// text as it is.
pub proof fn law_self_replacement_keeps_text(
    re: CompiledView,
    b: Seq<u8>,
    is_wide: bool,
    outs: Seq<Seq<u8>>,
)
    requires
        b.len() < usize::MAX,
        outs.len() == all_captures(re, b, is_wide, 0).len(),
        forall|i: int|
            0 <= i < outs.len() ==> #[trigger] outs[i] == b.subrange(
                whole_span(all_captures(re, b, is_wide, 0)[i]).0 as int,
                whole_span(all_captures(re, b, is_wide, 0)[i]).1 as int,
            ),
    ensures
        replace_with_from(b, all_captures(re, b, is_wide, 0), outs, 0) == b,
{
    law_captures_iter_matches_find_iter(re, b, is_wide);
    law_matches_ordered(re, b, is_wide, 0, None);
    lemma_self_replacement(b, all_captures(re, b, is_wide, 0), outs, 0);
    assert(b.subrange(0, b.len() as int) =~= b);
}

/// Ordered matches, read by index: each lies within `cur..=len`, and each
/// ends at or before the start of every later one.
proof fn lemma_ordered_by_index(ms: Seq<(usize, usize)>, cur: int, len: nat)
    requires
        ordered_matches(ms, cur, len),
    ensures
        forall|i: int| 0 <= i < ms.len() ==> cur <= (#[trigger] ms[i]).0 <= ms[i].1 <= len,
        forall|i: int, j: int| 0 <= i < j < ms.len() ==> (#[trigger] ms[i]).1 <= (#[trigger] ms[j]).0,
    decreases ms.len(),
{
    if ms.len() > 0 {
        let rest = ms.drop_first();
        lemma_ordered_by_index(rest, ms[0].1 as int, len);
        assert forall|i: int| 0 <= i < ms.len() implies cur <= (#[trigger] ms[i]).0 <= ms[i].1
            <= len by {
            if i > 0 {
                assert(ms[i] == rest[i - 1]);
            }
        }
        assert forall|i: int, j: int| 0 <= i < j < ms.len() implies (#[trigger] ms[i]).1 <= (
        #[trigger] ms[j]).0 by {
            assert(ms[j] == rest[j - 1]);
            if i > 0 {
                assert(ms[i] == rest[i - 1]);
            }
        }
    }
}

/// Increasing starts, read by index: each match starts after every earlier
/// one, and the first at `lb` or later.
proof fn lemma_increasing_by_index(ms: Seq<(usize, usize)>, lb: int)
    requires
        increasing_starts(ms, lb),
    ensures
        forall|i: int| 0 <= i < ms.len() ==> lb <= (#[trigger] ms[i]).0,
        forall|i: int, j: int| 0 <= i < j < ms.len() ==> (#[trigger] ms[i]).0 < (#[trigger] ms[j]).0,
    decreases ms.len(),
{
    if ms.len() > 0 {
        let rest = ms.drop_first();
        lemma_increasing_by_index(rest, ms[0].0 + 1);
        assert forall|i: int| 0 <= i < ms.len() implies lb <= (#[trigger] ms[i]).0 by {
            if i > 0 {
                assert(ms[i] == rest[i - 1]);
            }
        }
        assert forall|i: int, j: int| 0 <= i < j < ms.len() implies (#[trigger] ms[i]).0 < (
        #[trigger] ms[j]).0 by {
            assert(ms[j] == rest[j - 1]);
            if i > 0 {
                assert(ms[i] == rest[i - 1]);
            }
        }
    }
}

/// The matches `find_iter` yields from byte `offset`: each lies within
/// `offset..=len`, each ends at or before the next one starts, their starts
/// strictly increase (so no match comes twice), and there are at most
/// `len - offset + 1` of them.
pub proof fn law_find_iter_sorted(re: CompiledView, b: Seq<u8>, is_wide: bool, offset: usize)
    requires
        b.len() < usize::MAX,
    ensures
        ({
            let ms = all_matches(re, b, is_wide, offset, None);
            &&& ms.len() > 0 ==> ms.len() + offset <= b.len() + 1
            &&& forall|i: int| 0 <= i < ms.len() ==> offset <= (#[trigger] ms[i]).0 <= ms[i].1
                <= b.len()
            &&& forall|i: int, j: int|
                0 <= i < j < ms.len() ==> (#[trigger] ms[i]).1 <= (#[trigger] ms[j]).0 && ms[i].0
                    < ms[j].0
        }),
{
    let ms = all_matches(re, b, is_wide, offset, None);
    law_matches_ordered(re, b, is_wide, offset, None);
    law_match_starts_increase(re, b, is_wide, offset, None);
    lemma_ordered_by_index(ms, offset as int, b.len());
    lemma_increasing_by_index(ms, offset as int);
}

} // verus!
