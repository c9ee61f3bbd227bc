use vstd::prelude::*;

verus! {

/// Global matching (find all matches).
pub const LRE_FLAG_GLOBAL: u32 = 1;

/// Case-insensitive matching.
pub const LRE_FLAG_IGNORECASE: u32 = 2;

/// Multi-line mode (^ and $ match line boundaries).
pub const LRE_FLAG_MULTILINE: u32 = 4;

/// Dot-all mode (. matches newline).
pub const LRE_FLAG_DOTALL: u32 = 8;

/// Unicode mode.
pub const LRE_FLAG_UNICODE: u32 = 16;

/// Sticky matching (a match must start exactly at the search position).
pub const LRE_FLAG_STICKY: u32 = 32;

/// Include indices in captures.
pub const LRE_FLAG_INDICES: u32 = 64;

/// The pattern has (or supports) named capture groups.
pub const LRE_FLAG_NAMED_GROUPS: u32 = 128;

/// Unicode sets mode.
pub const LRE_FLAG_UNICODE_SETS: u32 = 256;

/// True when every bit of `flag` is set in `bits`.
pub open spec fn flag_on(bits: u32, flag: u32) -> bool {
    bits & flag == flag
}

/// The nine single-bit flags that the library defines.
pub open spec fn is_flag_bit(flag: u32) -> bool {
    ||| flag == LRE_FLAG_GLOBAL
    ||| flag == LRE_FLAG_IGNORECASE
    ||| flag == LRE_FLAG_MULTILINE
    ||| flag == LRE_FLAG_DOTALL
    ||| flag == LRE_FLAG_UNICODE
    ||| flag == LRE_FLAG_STICKY
    ||| flag == LRE_FLAG_INDICES
    ||| flag == LRE_FLAG_NAMED_GROUPS
    ||| flag == LRE_FLAG_UNICODE_SETS
}

/// Compilation flags for regular expressions: a set of bits.
#[derive(Debug, Clone, Copy, PartialEq, Eq, Structural)]
pub struct RegexFlags {
    bits: u32,
}

impl View for RegexFlags {
    type V = u32;

    closed spec fn view(&self) -> u32 {
        self.bits
    }
}

impl RegexFlags {
    /// Global matching (find all matches).
    pub const GLOBAL: u32 = 1;

    /// Case-insensitive matching.
    pub const IGNORE_CASE: u32 = 2;

    /// Multi-line mode (^ and $ match line boundaries).
    pub const MULTI_LINE: u32 = 4;

    /// Dot-all mode (. matches newline).
    pub const DOTALL: u32 = 8;

    /// Unicode mode.
    pub const UNICODE: u32 = 16;

    /// Sticky matching.
    pub const STICKY: u32 = 32;

    /// Include indices in captures.
    pub const INDICES: u32 = 64;

    /// Support named groups.
    pub const NAMED_GROUPS: u32 = 128;

    /// Unicode sets support.
    pub const UNICODE_SETS: u32 = 256;

    /// The empty set of flags.
    pub fn empty() -> (r: Self)
        ensures
            r@ == 0,
    {
        RegexFlags { bits: 0 }
    }

    /// Builds flags holding exactly the given bits, unknown bits included.
    pub fn from_bits_retain(bits: u32) -> (r: Self)
        ensures
            r@ == bits,
    {
        RegexFlags { bits }
    }

    /// The raw bits of the flags.
    pub fn bits(&self) -> (r: u32)
        ensures
            r == self@,
    {
        self.bits
    }

    /// Converts flags to the u32.
    pub fn to_u32(&self) -> (r: u32)
        ensures
            r == self@,
    {
        self.bits
    }

    /// True when every bit of `other` is also set in `self`.
    pub fn contains(&self, other: u32) -> (r: bool)
        ensures
            r == flag_on(self@, other),
    {
        self.bits & other == other
    }

    /// The flags set in either `self` or `other`.
    pub fn union(self, other: RegexFlags) -> (r: Self)
        ensures
            r@ == self@ | other@,
    {
        RegexFlags { bits: self.bits | other.bits }
    }

    /// Enables case-insensitive matching.
    pub fn ignore_case(self) -> (r: Self)
        ensures
            r@ == self@ | LRE_FLAG_IGNORECASE,
    {
        RegexFlags { bits: self.bits | LRE_FLAG_IGNORECASE }
    }

    /// Enables multi-line mode.
    pub fn multi_line(self) -> (r: Self)
        ensures
            r@ == self@ | LRE_FLAG_MULTILINE,
    {
        RegexFlags { bits: self.bits | LRE_FLAG_MULTILINE }
    }

    /// Enables dot-all mode.
    pub fn dotall(self) -> (r: Self)
        ensures
            r@ == self@ | LRE_FLAG_DOTALL,
    {
        RegexFlags { bits: self.bits | LRE_FLAG_DOTALL }
    }

    /// Enables Unicode mode.
    pub fn unicode(self) -> (r: Self)
        ensures
            r@ == self@ | LRE_FLAG_UNICODE,
    {
        RegexFlags { bits: self.bits | LRE_FLAG_UNICODE }
    }

    /// Enables global matching.
    pub fn global(self) -> (r: Self)
        ensures
            r@ == self@ | LRE_FLAG_GLOBAL,
    {
        RegexFlags { bits: self.bits | LRE_FLAG_GLOBAL }
    }

    /// Enables sticky matching.
    pub fn sticky(self) -> (r: Self)
        ensures
            r@ == self@ | LRE_FLAG_STICKY,
    {
        RegexFlags { bits: self.bits | LRE_FLAG_STICKY }
    }

    /// Enables indices in captures.
    pub fn indices(self) -> (r: Self)
        ensures
            r@ == self@ | LRE_FLAG_INDICES,
    {
        RegexFlags { bits: self.bits | LRE_FLAG_INDICES }
    }

    /// Enables named groups support.
    pub fn named_groups(self) -> (r: Self)
        ensures
            r@ == self@ | LRE_FLAG_NAMED_GROUPS,
    {
        RegexFlags { bits: self.bits | LRE_FLAG_NAMED_GROUPS }
    }

    /// Enables Unicode sets support.
    pub fn unicode_sets(self) -> (r: Self)
        ensures
            r@ == self@ | LRE_FLAG_UNICODE_SETS,
    {
        RegexFlags { bits: self.bits | LRE_FLAG_UNICODE_SETS }
    }

    /// Returns true if global matching is enabled.
    pub fn has_global(&self) -> (r: bool)
        ensures
            r == flag_on(self@, LRE_FLAG_GLOBAL),
    {
        self.bits & LRE_FLAG_GLOBAL == LRE_FLAG_GLOBAL
    }

    /// Returns true if case-insensitive matching is enabled.
    pub fn has_ignore_case(&self) -> (r: bool)
        ensures
            r == flag_on(self@, LRE_FLAG_IGNORECASE),
    {
        self.bits & LRE_FLAG_IGNORECASE == LRE_FLAG_IGNORECASE
    }

    /// Returns true if multi-line mode is enabled.
    pub fn has_multi_line(&self) -> (r: bool)
        ensures
            r == flag_on(self@, LRE_FLAG_MULTILINE),
    {
        self.bits & LRE_FLAG_MULTILINE == LRE_FLAG_MULTILINE
    }

    /// Returns true if dot-all mode is enabled.
    pub fn has_dotall(&self) -> (r: bool)
        ensures
            r == flag_on(self@, LRE_FLAG_DOTALL),
    {
        self.bits & LRE_FLAG_DOTALL == LRE_FLAG_DOTALL
    }

    /// Returns true if sticky matching is enabled.
    pub fn has_sticky(&self) -> (r: bool)
        ensures
            r == flag_on(self@, LRE_FLAG_STICKY),
    {
        self.bits & LRE_FLAG_STICKY == LRE_FLAG_STICKY
    }

    /// Returns true if indices in captures are enabled.
    pub fn has_indices(&self) -> (r: bool)
        ensures
            r == flag_on(self@, LRE_FLAG_INDICES),
    {
        self.bits & LRE_FLAG_INDICES == LRE_FLAG_INDICES
    }

    /// Returns true if named groups support is enabled.
    pub fn has_named_groups(&self) -> (r: bool)
        ensures
            r == flag_on(self@, LRE_FLAG_NAMED_GROUPS),
    {
        self.bits & LRE_FLAG_NAMED_GROUPS == LRE_FLAG_NAMED_GROUPS
    }

    /// Returns true if Unicode mode is enabled.
    pub fn has_unicode(&self) -> (r: bool)
        ensures
            r == flag_on(self@, LRE_FLAG_UNICODE),
    {
        self.bits & LRE_FLAG_UNICODE == LRE_FLAG_UNICODE
    }

    /// Returns true if Unicode sets support is enabled.
    pub fn has_unicode_sets(&self) -> (r: bool)
        ensures
            r == flag_on(self@, LRE_FLAG_UNICODE_SETS),
    {
        self.bits & LRE_FLAG_UNICODE_SETS == LRE_FLAG_UNICODE_SETS
    }

    /// True when Unicode mode or Unicode sets mode is enabled.
    pub fn is_unicode(&self) -> (r: bool)
        ensures
            r == spec_is_unicode(self@),
    {
        self.has_unicode() || self.has_unicode_sets()
    }
}

/// Unicode mode or Unicode sets mode is on in `bits`.
pub open spec fn spec_is_unicode(bits: u32) -> bool {
    flag_on(bits, LRE_FLAG_UNICODE) || flag_on(bits, LRE_FLAG_UNICODE_SETS)
}

impl Default for RegexFlags {
    fn default() -> (r: Self)
        ensures
            r@ == 0,
    {
        RegexFlags { bits: 0 }
    }
}

/// Enabling a flag turns that flag on, and leaves every other flag of the
/// library as it was.
pub proof fn law_enable_flag(bits: u32, flag: u32, other: u32)
    requires
        is_flag_bit(flag),
        is_flag_bit(other),
    ensures
        flag_on(bits | flag, flag),
        other != flag ==> flag_on(bits | flag, other) == flag_on(bits, other),
{
    assert(flag_on(bits | flag, flag)) by (bit_vector)
        requires
            flag == 1u32 || flag == 2u32 || flag == 4u32 || flag == 8u32 || flag == 16u32 || flag
                == 32u32 || flag == 64u32 || flag == 128u32 || flag == 256u32,
    ;
    assert(other != flag ==> flag_on(bits | flag, other) == flag_on(bits, other)) by (bit_vector)
        requires
            flag == 1u32 || flag == 2u32 || flag == 4u32 || flag == 8u32 || flag == 16u32 || flag
                == 32u32 || flag == 64u32 || flag == 128u32 || flag == 256u32,
            other == 1u32 || other == 2u32 || other == 4u32 || other == 8u32 || other == 16u32
                || other == 32u32 || other == 64u32 || other == 128u32 || other == 256u32,
    ;
}

/// The empty flag set has no flag on.
pub proof fn law_empty_has_no_flag(flag: u32)
    requires
        is_flag_bit(flag),
    ensures
        !flag_on(0, flag),
{
    assert(flag != 0u32 ==> !flag_on(0, flag)) by (bit_vector);
}

} // verus!
