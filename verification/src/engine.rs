//! The calls into the matching engine (the `regress` crate) and into the few
//! std functions that vstd leaves unspecified. Every item here is trusted:
//! its contract is believed, not proved.
use vstd::prelude::*;

verus! {

/// What `regress::Regex::from_unicode` answers for a pattern (as code points)
/// and its flags: `Ok` when the engine accepts the pattern, or the text of
/// its syntax error.
pub uninterp spec fn engine_parse_outcome(
    pattern: Seq<u32>,
    icase: bool,
    multiline: bool,
    dot_all: bool,
    unicode: bool,
    unicode_sets: bool,
) -> Result<(), Seq<char>>;

/// The first match that `regress::Regex::find_from_utf16` reports for the
/// program compiled from `pattern` and the flags, in `text` from index
/// `start`: the whole match and the span of each capture group after group
/// 0, in code units.
pub uninterp spec fn engine_utf16_first_match(
    pattern: Seq<u32>,
    icase: bool,
    multiline: bool,
    dot_all: bool,
    unicode: bool,
    unicode_sets: bool,
    text: Seq<u16>,
    start: usize,
) -> Option<(usize, usize, Seq<Option<(usize, usize)>>)>;

/// As `engine_utf16_first_match`, for `regress::Regex::find_from_ucs2`.
pub uninterp spec fn engine_ucs2_first_match(
    pattern: Seq<u32>,
    icase: bool,
    multiline: bool,
    dot_all: bool,
    unicode: bool,
    unicode_sets: bool,
    text: Seq<u16>,
    start: usize,
) -> Option<(usize, usize, Seq<Option<(usize, usize)>>)>;

/// What `String::from_utf8_lossy` makes of a byte sequence.
pub uninterp spec fn utf8_lossy(bytes: Seq<u8>) -> Seq<char>;

/// One match found by the engine, in code-unit positions: the whole match
/// and, for each capture group after group 0, its span if it took part.
pub struct EngineMatch {
    pub start: usize,
    pub end: usize,
    pub groups: Vec<Option<(usize, usize)>>,
}

/// The plain value of an optional engine match.
pub open spec fn engine_match_value(m: Option<EngineMatch>) -> Option<
    (usize, usize, Seq<Option<(usize, usize)>>),
> {
    match m {
        Some(x) => Some((x.start, x.end, x.groups@)),
        None => None,
    }
}

/// A match the engine reports lies within `start..=len` and does not end
/// before it starts.
pub open spec fn engine_match_in_bounds(
    m: Option<(usize, usize, Seq<Option<(usize, usize)>>)>,
    len: nat,
    start: usize,
) -> bool {
    m matches Some((s, e, _)) ==> start <= s <= e <= len
}

/// Compiles `pattern` (code points) with `regress::Regex::from_unicode` and
/// the flags (optimisations on), then searches `text` from index `start` with
/// `find_from_utf16` (surrogate pairs read as one character) and takes the
/// first match. Trusted: a refused pattern gives the text of
/// `regress::Error`, as `engine_parse_outcome` names it; an accepted one gives
/// the first match, as `engine_utf16_first_match` names it. The engine tries
/// positions from `start` rightwards and matches forwards, so a reported match
/// lies within `start..=text.len()`.
#[verifier::external_body]
pub(crate) fn engine_search_utf16(
    pattern: &[u32],
    icase: bool,
    multiline: bool,
    dot_all: bool,
    unicode: bool,
    unicode_sets: bool,
    text: &[u16],
    start: usize,
) -> (r: Result<Option<EngineMatch>, String>)
    ensures
        match engine_parse_outcome(pattern@, icase, multiline, dot_all, unicode, unicode_sets) {
            Err(msg) => r matches Err(e) && e@ == msg,
            Ok(()) => r matches Ok(m) && engine_match_value(m) == engine_utf16_first_match(
                pattern@,
                icase,
                multiline,
                dot_all,
                unicode,
                unicode_sets,
                text@,
                start,
            ),
        },
        r matches Ok(m) ==> engine_match_in_bounds(engine_match_value(m), text@.len(), start),
{
    let flags = regress::Flags { icase, multiline, dot_all, no_opt: false, unicode, unicode_sets };
    let program = regress::Regex::from_unicode(pattern.iter().copied(), flags).map_err(|e| e.text)?;
    Ok(program.find_from_utf16(text, start).next().map(|m| EngineMatch {
        start: m.range.start,
        end: m.range.end,
        groups: m.captures.iter().map(|g| g.as_ref().map(|s| (s.start, s.end))).collect(),
    }))
}

/// As `engine_search_utf16`, but every code unit is one character
/// (`regress::Regex::find_from_ucs2`); the first match is named by
/// `engine_ucs2_first_match`. Trusted with the same bounds.
#[verifier::external_body]
pub(crate) fn engine_search_ucs2(
    pattern: &[u32],
    icase: bool,
    multiline: bool,
    dot_all: bool,
    unicode: bool,
    unicode_sets: bool,
    text: &[u16],
    start: usize,
) -> (r: Result<Option<EngineMatch>, String>)
    ensures
        match engine_parse_outcome(pattern@, icase, multiline, dot_all, unicode, unicode_sets) {
            Err(msg) => r matches Err(e) && e@ == msg,
            Ok(()) => r matches Ok(m) && engine_match_value(m) == engine_ucs2_first_match(
                pattern@,
                icase,
                multiline,
                dot_all,
                unicode,
                unicode_sets,
                text@,
                start,
            ),
        },
        r matches Ok(m) ==> engine_match_in_bounds(engine_match_value(m), text@.len(), start),
{
    let flags = regress::Flags { icase, multiline, dot_all, no_opt: false, unicode, unicode_sets };
    let program = regress::Regex::from_unicode(pattern.iter().copied(), flags).map_err(|e| e.text)?;
    Ok(program.find_from_ucs2(text, start).next().map(|m| EngineMatch {
        start: m.range.start,
        end: m.range.end,
        groups: m.captures.iter().map(|g| g.as_ref().map(|s| (s.start, s.end))).collect(),
    }))
}

/// Decodes bytes with `String::from_utf8_lossy`. Trusted: the result is the
/// one std gives for these bytes, and on valid UTF-8 it is the decoded text,
/// as std documents. What replaces invalid sequences is left unsaid.
#[verifier::external_body]
pub(crate) fn string_from_utf8_lossy(bytes: &[u8]) -> (r: String)
    ensures
        r@ == utf8_lossy(bytes@),
        vstd::utf8::valid_utf8(bytes@) ==> r@ == vstd::utf8::decode_utf8(bytes@),
{
    String::from_utf8_lossy(bytes).into_owned()
}

/// Turns a vector into a boxed slice with `Vec::into_boxed_slice`. Trusted:
/// the elements are kept, in order.
#[verifier::external_body]
pub(crate) fn into_boxed<T>(v: Vec<T>) -> (r: Box<[T]>)
    ensures
        r@ == v@,
{
    v.into_boxed_slice()
}

} // verus!
