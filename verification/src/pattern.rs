use vstd::prelude::*;

verus! {

/// The byte at `i`, or 0 past the end (the pattern is read as if it were
/// terminated by a NUL byte).
pub open spec fn byte_at(b: Seq<u8>, i: int) -> u8 {
    if 0 <= i < b.len() {
        b[i]
    } else {
        0
    }
}

/// Index of the `]` that closes a character class whose body starts at `p`,
/// skipping escaped bytes; the pattern's length when there is none.
pub open spec fn class_end(b: Seq<u8>, p: int) -> int
    decreases b.len() + 2 - p,
{
    if p < 0 || p >= b.len() {
        b.len() as int
    } else if b[p] == 0x5D {
        p
    } else if b[p] == 0x5C {
        class_end(b, p + 2)
    } else {
        class_end(b, p + 1)
    }
}

/// Index of the first `>` at or after `p`; the pattern's length when there is
/// none.
pub open spec fn name_end(b: Seq<u8>, p: int) -> int
    decreases b.len() - p,
{
    if p < 0 || p >= b.len() {
        b.len() as int
    } else if b[p] == 0x3E {
        p
    } else {
        name_end(b, p + 1)
    }
}

/// `(` at `p` opens a named capture group: `(?<` not followed by `=` or `!`.
pub open spec fn opens_named_group(b: Seq<u8>, p: int) -> bool {
    &&& byte_at(b, p + 1) == 0x3F
    &&& byte_at(b, p + 2) == 0x3C
    &&& byte_at(b, p + 3) != 0x3D
    &&& byte_at(b, p + 3) != 0x21
}

/// The capture groups of the pattern from byte `p` on, in order: `Some` with
/// the byte range of the group's name for a named group, `None` for an unnamed
/// one. Escapes and character classes are skipped; `(?` opens no capture
/// unless it is a named group.
pub open spec fn scan_groups(b: Seq<u8>, p: int) -> Seq<Option<(usize, usize)>>
    decreases b.len() + 2 - p,
{
    if p < 0 || p >= b.len() {
        seq![]
    } else if b[p] == 0x5C {
        scan_groups(b, p + 2)
    } else if b[p] == 0x5B {
        proof {
            lemma_class_end_bounds(b, p + 1);
        }
        scan_groups(b, class_end(b, p + 1) + 1)
    } else if b[p] == 0x28 {
        if byte_at(b, p + 1) == 0x3F {
            if opens_named_group(b, p) {
                seq![Some(((p + 3) as usize, name_end(b, p + 3) as usize))] + scan_groups(b, p + 1)
            } else {
                scan_groups(b, p + 1)
            }
        } else {
            seq![None] + scan_groups(b, p + 1)
        }
    } else {
        scan_groups(b, p + 1)
    }
}

pub proof fn lemma_class_end_bounds(b: Seq<u8>, p: int)
    requires
        0 <= p,
    ensures
        class_end(b, p) <= b.len(),
        p <= b.len() ==> p <= class_end(b, p),
    decreases b.len() + 2 - p,
{
    if p < b.len() && b[p] != 0x5D {
        if b[p] == 0x5C {
            lemma_class_end_bounds(b, p + 2);
        } else {
            lemma_class_end_bounds(b, p + 1);
        }
    }
}

pub proof fn lemma_name_end_bounds(b: Seq<u8>, p: int)
    requires
        0 <= p,
    ensures
        p <= b.len() ==> p <= name_end(b, p) <= b.len(),
        p > b.len() ==> name_end(b, p) == b.len(),
    decreases b.len() - p,
{
    if p < b.len() && b[p] != 0x3E {
        lemma_name_end_bounds(b, p + 1);
    }
}

fn get_byte(b: &[u8], i: usize) -> (r: u8)
    ensures
        r == byte_at(b@, i as int),
{
    if i < b.len() {
        b[i]
    } else {
        0
    }
}

fn find_class_end(b: &[u8], p: usize) -> (r: usize)
    requires
        p <= b@.len(),
    ensures
        r == class_end(b@, p as int),
{
    let n = b.len();
    let mut q = p;
    while q < n
        invariant
            n == b@.len(),
            p <= q <= n,
            class_end(b@, q as int) == class_end(b@, p as int),
        decreases n + 1 - q,
    {
        if b[q] == 0x5D {
            return q;
        }
        if b[q] == 0x5C {
            if n - q <= 2 {
                assert(class_end(b@, q as int) == class_end(b@, q + 2));
                assert(class_end(b@, q + 2) == n);
                return n;
            }
            q = q + 2;
        } else {
            q = q + 1;
        }
    }
    n
}

fn find_name_end(b: &[u8], p: usize) -> (r: usize)
    requires
        p <= b@.len(),
    ensures
        r == name_end(b@, p as int),
{
    let n = b.len();
    let mut q = p;
    while q < n
        invariant
            n == b@.len(),
            p <= q <= n,
            name_end(b@, q as int) == name_end(b@, p as int),
        decreases n - q,
    {
        if b[q] == 0x3E {
            return q;
        }
        q = q + 1;
    }
    n
}

/// Lists the capture groups of a pattern (group 0 excluded), each with the
/// byte range of its name when it is named.
pub fn scan_capture_groups(pattern: &[u8]) -> (r: Vec<Option<(usize, usize)>>)
    ensures
        r@ == scan_groups(pattern@, 0),
        forall|i: int|
            0 <= i < r@.len() ==> (#[trigger] r@[i] matches Some((s, e)) ==> s <= e <= pattern@.len()),
{
    let n = pattern.len();
    let mut out: Vec<Option<(usize, usize)>> = Vec::new();
    let mut p: usize = 0;
    while p < n
        invariant
            n == pattern@.len(),
            p <= n,
            scan_groups(pattern@, 0) == out@ + scan_groups(pattern@, p as int),
            forall|i: int|
                0 <= i < out@.len() ==> (#[trigger] out@[i] matches Some((s, e)) ==> s <= e <= n),
        decreases n - p,
    {
        let ghost old_out = out@;
        let ghost old_p = p as int;
        let c = pattern[p];
        if c == 0x5C {
            p = if n - p <= 2 {
                n
            } else {
                p + 2
            };
        } else if c == 0x5B {
            let e = find_class_end(pattern, p + 1);
            proof {
                lemma_class_end_bounds(pattern@, p + 1);
            }
            p = if e < n {
                e + 1
            } else {
                n
            };
        } else if c == 0x28 {
            if get_byte(pattern, p + 1) == 0x3F {
                if get_byte(pattern, p + 2) == 0x3C && get_byte(pattern, p + 3) != 0x3D && get_byte(
                    pattern,
                    p + 3,
                ) != 0x21 {
                    let start = if p + 3 <= n {
                        p + 3
                    } else {
                        n
                    };
                    proof {
                        lemma_name_end_bounds(pattern@, p + 3);
                    }
                    let end = find_name_end(pattern, start);
                    assert(p + 3 > n ==> name_end(pattern@, n as int) == name_end(pattern@, p + 3))
                        by {
                        lemma_name_end_bounds(pattern@, p + 3);
                    }
                    assert(start == (p + 3) as usize);
                    out.push(Some((start, end)));
                }
            } else {
                out.push(None);
            }
            p = p + 1;
        } else {
            p = p + 1;
        }
        proof {
            let b = pattern@;
            if c == 0x5C {
                assert(scan_groups(b, old_p) == scan_groups(b, old_p + 2));
                if old_p + 2 >= n {
                    assert(scan_groups(b, old_p + 2) =~= Seq::<Option<(usize, usize)>>::empty());
                    assert(scan_groups(b, n as int) =~= Seq::<Option<(usize, usize)>>::empty());
                }
            } else if c == 0x5B {
                assert(scan_groups(b, old_p) == scan_groups(b, class_end(b, old_p + 1) + 1));
                if class_end(b, old_p + 1) + 1 > n {
                    assert(scan_groups(b, class_end(b, old_p + 1) + 1) =~= Seq::<
                        Option<(usize, usize)>,
                    >::empty());
                    assert(scan_groups(b, n as int) =~= Seq::<Option<(usize, usize)>>::empty());
                }
            } else {
                assert(scan_groups(b, old_p) == (out@.subrange(old_out.len() as int, out@.len() as int))
                    + scan_groups(b, p as int));
            }
            assert(out@ =~= old_out + out@.subrange(old_out.len() as int, out@.len() as int));
        }
    }
    assert(out@ + Seq::<Option<(usize, usize)>>::empty() =~= out@);
    out
}

/// Every name range the scan reports from `p` on lies within the pattern,
/// from `p` on.
pub proof fn lemma_scan_bounds(b: Seq<u8>, p: int)
    requires
        0 <= p,
        b.len() + 3 <= usize::MAX,
    ensures
        forall|i: int|
            0 <= i < scan_groups(b, p).len() ==> (#[trigger] scan_groups(b, p)[i] matches Some(
                (s, e),
            ) ==> p <= s <= e <= b.len()),
    decreases b.len() + 2 - p,
{
    if 0 <= p < b.len() {
        if b[p] == 0x5C {
            lemma_scan_bounds(b, p + 2);
        } else if b[p] == 0x5B {
            lemma_class_end_bounds(b, p + 1);
            lemma_scan_bounds(b, class_end(b, p + 1) + 1);
        } else if b[p] == 0x28 {
            lemma_scan_bounds(b, p + 1);
            let rest = scan_groups(b, p + 1);
            if byte_at(b, p + 1) == 0x3F && opens_named_group(b, p) {
                lemma_name_end_bounds(b, p + 3);
                let g = scan_groups(b, p);
                assert forall|i: int| 0 <= i < g.len() implies (#[trigger] g[i] matches Some((s, e))
                    ==> p <= s <= e <= b.len()) by {
                    if i > 0 {
                        assert(g[i] == rest[i - 1]);
                    }
                }
            } else if byte_at(b, p + 1) != 0x3F {
                let g = scan_groups(b, p);
                assert forall|i: int| 0 <= i < g.len() implies (#[trigger] g[i] matches Some((s, e))
                    ==> p <= s <= e <= b.len()) by {
                    if i > 0 {
                        assert(g[i] == rest[i - 1]);
                    }
                }
            }
        } else {
            lemma_scan_bounds(b, p + 1);
        }
    }
}

/// Two scan entries for the same group, the first in a pattern with `k` bytes
/// put in front: both unnamed, or both named with the name `k` bytes later.
pub open spec fn shifted_entry(g1: Option<(usize, usize)>, g2: Option<(usize, usize)>, k: int) -> bool {
    match (g1, g2) {
        (None, None) => true,
        (Some((s1, e1)), Some((s2, e2))) => s1 == s2 + k && e1 == e2 + k,
        _ => false,
    }
}

/// Reading past a prefix reads the rest.
proof fn lemma_class_end_shift(pre: Seq<u8>, rest: Seq<u8>, q: int)
    requires
        0 <= q,
    ensures
        class_end(pre + rest, pre.len() + q) == pre.len() + class_end(rest, q),
    decreases rest.len() + 2 - q,
{
    let b = pre + rest;
    let k = pre.len() as int;
    if q < rest.len() {
        assert(b[k + q] == rest[q]);
        if rest[q] != 0x5D {
            if rest[q] == 0x5C {
                lemma_class_end_shift(pre, rest, q + 2);
            } else {
                lemma_class_end_shift(pre, rest, q + 1);
            }
        }
    }
}

/// Reading past a prefix reads the rest.
proof fn lemma_name_end_shift(pre: Seq<u8>, rest: Seq<u8>, q: int)
    requires
        0 <= q,
    ensures
        name_end(pre + rest, pre.len() + q) == pre.len() + name_end(rest, q),
    decreases rest.len() - q,
{
    let b = pre + rest;
    let k = pre.len() as int;
    if q < rest.len() {
        assert(b[k + q] == rest[q]);
        if rest[q] != 0x3E {
            lemma_name_end_shift(pre, rest, q + 1);
        }
    }
}

/// Scanning a pattern with bytes put in front, from a position past them,
/// finds the groups of the rest, with the names moved by the prefix's length.
pub proof fn lemma_scan_shift(pre: Seq<u8>, rest: Seq<u8>, q: int)
    requires
        0 <= q,
        (pre + rest).len() + 3 <= usize::MAX,
    ensures
        scan_groups(pre + rest, pre.len() + q).len() == scan_groups(rest, q).len(),
        forall|i: int|
            0 <= i < scan_groups(rest, q).len() ==> shifted_entry(
                #[trigger] scan_groups(pre + rest, pre.len() + q)[i],
                scan_groups(rest, q)[i],
                pre.len() as int,
            ),
    decreases rest.len() + 2 - q,
{
    let b = pre + rest;
    let k = pre.len() as int;
    if q < rest.len() {
        assert(b[k + q] == rest[q]);
        assert(byte_at(b, k + q + 1) == byte_at(rest, q + 1));
        assert(byte_at(b, k + q + 2) == byte_at(rest, q + 2));
        assert(byte_at(b, k + q + 3) == byte_at(rest, q + 3));
        if rest[q] == 0x5C {
            lemma_scan_shift(pre, rest, q + 2);
        } else if rest[q] == 0x5B {
            lemma_class_end_shift(pre, rest, q + 1);
            lemma_class_end_bounds(rest, q + 1);
            lemma_scan_shift(pre, rest, class_end(rest, q + 1) + 1);
        } else if rest[q] == 0x28 {
            lemma_scan_shift(pre, rest, q + 1);
            let g1 = scan_groups(b, k + q);
            let g2 = scan_groups(rest, q);
            let t1 = scan_groups(b, k + q + 1);
            let t2 = scan_groups(rest, q + 1);
            if byte_at(rest, q + 1) == 0x3F {
                if opens_named_group(rest, q) {
                    lemma_name_end_shift(pre, rest, q + 3);
                    lemma_name_end_bounds(rest, q + 3);
                    lemma_name_end_bounds(b, k + q + 3);
                    assert(opens_named_group(b, k + q));
                    assert forall|i: int| 0 <= i < g2.len() implies shifted_entry(
                        #[trigger] g1[i],
                        g2[i],
                        k,
                    ) by {
                        if i > 0 {
                            assert(g1[i] == t1[i - 1]);
                            assert(g2[i] == t2[i - 1]);
                        }
                    }
                }
            } else {
                assert forall|i: int| 0 <= i < g2.len() implies shifted_entry(
                    #[trigger] g1[i],
                    g2[i],
                    k,
                ) by {
                    if i > 0 {
                        assert(g1[i] == t1[i - 1]);
                        assert(g2[i] == t2[i - 1]);
                    }
                }
            }
        } else {
            lemma_scan_shift(pre, rest, q + 1);
        }
    } else {
        assert(scan_groups(b, k + q) =~= Seq::<Option<(usize, usize)>>::empty());
    }
}

/// The openers of the groups that capture nothing: a non-capturing group
/// `(?:`, a lookahead `(?=` or `(?!`, and a lookbehind `(?<=` or `(?<!`.
pub open spec fn is_non_capturing_opener(pre: Seq<u8>) -> bool {
    ||| pre == seq![0x28u8, 0x3Fu8, 0x3Au8]
    ||| pre == seq![0x28u8, 0x3Fu8, 0x3Du8]
    ||| pre == seq![0x28u8, 0x3Fu8, 0x21u8]
    ||| pre == seq![0x28u8, 0x3Fu8, 0x3Cu8, 0x3Du8]
    ||| pre == seq![0x28u8, 0x3Fu8, 0x3Cu8, 0x21u8]
}

/// A non-capturing group or a lookaround opens no capture group: a pattern
/// that starts with `(?:`, `(?=`, `(?!`, `(?<=` or `(?<!` has the capture
/// groups of the rest, the names moved by the opener's length.
pub proof fn law_non_capturing_opener_adds_no_group(pre: Seq<u8>, rest: Seq<u8>)
    requires
        is_non_capturing_opener(pre),
        (pre + rest).len() + 3 <= usize::MAX,
    ensures
        scan_groups(pre + rest, 0).len() == scan_groups(rest, 0).len(),
        forall|i: int|
            0 <= i < scan_groups(rest, 0).len() ==> shifted_entry(
                #[trigger] scan_groups(pre + rest, 0)[i],
                scan_groups(rest, 0)[i],
                pre.len() as int,
            ),
{
    let b = pre + rest;
    let k = pre.len() as int;
    lemma_scan_shift(pre, rest, 0);
    assert(b[0] == 0x28u8 && b[1] == 0x3Fu8 && b[2] == pre[2]);
    assert(byte_at(b, 1) == 0x3Fu8);
    assert(!opens_named_group(b, 0));
    assert(scan_groups(b, 0) == scan_groups(b, 1));
    assert(scan_groups(b, 1) == scan_groups(b, 2));
    if k == 3 {
        assert(scan_groups(b, 2) == scan_groups(b, 3));
    } else {
        assert(b[3] == pre[3]);
        assert(scan_groups(b, 2) == scan_groups(b, 3));
        assert(scan_groups(b, 3) == scan_groups(b, 4));
    }
}

/// A `(` that is not followed by `?` opens an unnamed capture group: a
/// pattern that starts with `(` has one group more than the rest, unnamed and
/// first.
pub proof fn law_plain_paren_adds_one_group(rest: Seq<u8>)
    requires
        rest.len() + 4 <= usize::MAX,
        byte_at(rest, 0) != 0x3F,
    ensures
        scan_groups(seq![0x28u8] + rest, 0).len() == scan_groups(rest, 0).len() + 1,
        scan_groups(seq![0x28u8] + rest, 0)[0] is None,
        forall|i: int|
            0 <= i < scan_groups(rest, 0).len() ==> shifted_entry(
                #[trigger] scan_groups(seq![0x28u8] + rest, 0)[i + 1],
                scan_groups(rest, 0)[i],
                1,
            ),
{
    let pre = seq![0x28u8];
    let b = pre + rest;
    lemma_scan_shift(pre, rest, 0);
    assert(b[0] == 0x28u8);
    assert(byte_at(b, 1) == byte_at(rest, 0));
    let t = scan_groups(b, 1);
    assert(scan_groups(b, 0) == seq![None] + t);
    assert forall|i: int| 0 <= i < scan_groups(rest, 0).len() implies shifted_entry(
        #[trigger] scan_groups(b, 0)[i + 1],
        scan_groups(rest, 0)[i],
        1,
    ) by {
        assert(scan_groups(b, 0)[i + 1] == t[i]);
    }
}

} // verus!
