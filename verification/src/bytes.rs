//! Fixed-width byte encodings of numbers, and small helpers on byte strings.

use vstd::prelude::*;

verus! {

/// 256 to the power of `width`.
pub open spec fn pow256(width: nat) -> nat
    decreases width,
{
    if width == 0 {
        1
    } else {
        256 * pow256((width - 1) as nat)
    }
}

/// The `width` least significant base-256 digits of `value`, most significant first.
pub open spec fn be_bytes(value: nat, width: nat) -> Seq<u8>
    decreases width,
{
    if width == 0 {
        Seq::empty()
    } else {
        be_bytes(value / 256, (width - 1) as nat).push((value % 256) as u8)
    }
}

/// The `width` least significant base-256 digits of `value`, least significant first.
pub open spec fn le_bytes(value: nat, width: nat) -> Seq<u8>
    decreases width,
{
    if width == 0 {
        Seq::empty()
    } else {
        seq![(value % 256) as u8] + le_bytes(value / 256, (width - 1) as nat)
    }
}

/// `prefix` is an initial segment of `whole`.
pub open spec fn starts_with(whole: Seq<u8>, prefix: Seq<u8>) -> bool {
    prefix.len() <= whole.len() && whole.subrange(0, prefix.len() as int) == prefix
}

pub proof fn lemma_be_bytes_len(value: nat, width: nat)
    ensures
        be_bytes(value, width).len() == width,
    decreases width,
{
    if width > 0 {
        lemma_be_bytes_len(value / 256, (width - 1) as nat);
    }
}

pub proof fn lemma_le_bytes_len(value: nat, width: nat)
    ensures
        le_bytes(value, width).len() == width,
    decreases width,
{
    if width > 0 {
        lemma_le_bytes_len(value / 256, (width - 1) as nat);
    }
}

/// Two numbers below `256^width` with the same big-endian digits are equal.
pub proof fn lemma_be_bytes_injective(a: nat, b: nat, width: nat)
    requires
        a < pow256(width),
        b < pow256(width),
        be_bytes(a, width) == be_bytes(b, width),
    ensures
        a == b,
    decreases width,
{
    if width > 0 {
        let rest = (width - 1) as nat;
        let sa = be_bytes(a / 256, rest);
        let sb = be_bytes(b / 256, rest);
        lemma_be_bytes_len(a / 256, rest);
        lemma_be_bytes_len(b / 256, rest);
        assert(sa.push((a % 256) as u8).last() == (a % 256) as u8);
        assert(sb.push((b % 256) as u8).last() == (b % 256) as u8);
        assert(sa.push((a % 256) as u8).drop_last() == sa);
        assert(sb.push((b % 256) as u8).drop_last() == sb);
        lemma_be_bytes_injective(a / 256, b / 256, rest);
    }
}

/// Two numbers below `256^width` with the same little-endian digits are equal.
pub proof fn lemma_le_bytes_injective(a: nat, b: nat, width: nat)
    requires
        a < pow256(width),
        b < pow256(width),
        le_bytes(a, width) == le_bytes(b, width),
    ensures
        a == b,
    decreases width,
{
    if width > 0 {
        let rest = (width - 1) as nat;
        let sa = le_bytes(a / 256, rest);
        let sb = le_bytes(b / 256, rest);
        let fa = seq![(a % 256) as u8];
        let fb = seq![(b % 256) as u8];
        assert((fa + sa)[0] == (a % 256) as u8);
        assert((fb + sb)[0] == (b % 256) as u8);
        assert((fa + sa).subrange(1, (fa + sa).len() as int) == sa);
        assert((fb + sb).subrange(1, (fb + sb).len() as int) == sb);
        lemma_le_bytes_injective(a / 256, b / 256, rest);
    }
}

/// `a` comes before `b` in the order of the dictionary: at the first place
/// where they differ, `a` has the smaller byte, or `a` ends there.
pub open spec fn lex_less(a: Seq<u8>, b: Seq<u8>) -> bool {
    exists|i: int|
        0 <= i <= a.len() && i <= b.len() && #[trigger] a.subrange(0, i) == b.subrange(0, i) && (if i == a.len() {
            i < b.len()
        } else {
            i < b.len() && a[i] < b[i]
        })
}

/// No byte string comes before itself, and of two byte strings at most one
/// comes before the other.
pub proof fn lemma_lex_less_asymmetric(a: Seq<u8>, b: Seq<u8>)
    requires
        lex_less(a, b),
    ensures
        !lex_less(b, a),
        a != b,
{
    let i = choose|i: int|
        0 <= i <= a.len() && i <= b.len() && #[trigger] a.subrange(0, i) == b.subrange(0, i) && (if i == a.len() {
            i < b.len()
        } else {
            i < b.len() && a[i] < b[i]
        });
    if lex_less(b, a) {
        let j = choose|j: int|
            0 <= j <= b.len() && j <= a.len() && #[trigger] b.subrange(0, j) == a.subrange(0, j) && (if j == b.len() {
                j < a.len()
            } else {
                j < a.len() && b[j] < a[j]
            });
        if i < j {
            assert(b.subrange(0, j)[i] == a.subrange(0, j)[i]);
        } else if j < i {
            assert(a.subrange(0, i)[j] == b.subrange(0, i)[j]);
        }
    }
}

/// Of two numbers below `256^width`, the smaller has the big-endian digits
/// that come first in the order of the dictionary.
pub proof fn lemma_be_bytes_ordered(a: nat, b: nat, width: nat)
    requires
        a < b,
        b < pow256(width),
    ensures
        lex_less(be_bytes(a, width), be_bytes(b, width)),
    decreases width,
{
    if width > 0 {
        let rest = (width - 1) as nat;
        let sa = be_bytes(a / 256, rest);
        let sb = be_bytes(b / 256, rest);
        let ka = be_bytes(a, width);
        let kb = be_bytes(b, width);
        lemma_be_bytes_len(a / 256, rest);
        lemma_be_bytes_len(b / 256, rest);
        if a / 256 < b / 256 {
            lemma_be_bytes_ordered(a / 256, b / 256, rest);
            let i = choose|i: int|
                0 <= i <= sa.len() && i <= sb.len() && #[trigger] sa.subrange(0, i) == sb.subrange(0, i) && (if i
                    == sa.len() {
                    i < sb.len()
                } else {
                    i < sb.len() && sa[i] < sb[i]
                });
            assert(ka.subrange(0, i) =~= sa.subrange(0, i));
            assert(kb.subrange(0, i) =~= sb.subrange(0, i));
            assert(ka.subrange(0, i) == kb.subrange(0, i));
        } else {
            assert(a / 256 == b / 256);
            let i = rest as int;
            assert(ka.subrange(0, i) =~= sa);
            assert(kb.subrange(0, i) =~= sb);
            assert(ka.subrange(0, i) == kb.subrange(0, i));
            assert(ka[i] < kb[i]);
        }
    }
}

/// Every 64-bit number is below `256^8`.
pub proof fn lemma_u64_below_pow256(value: u64)
    ensures
        (value as nat) < pow256(8),
{
    reveal_with_fuel(pow256, 9);
}

/// Compares two byte strings.
pub fn bytes_equal(a: &[u8], b: &[u8]) -> (same: bool)
    ensures
        same == (a@ == b@),
{
    if a.len() != b.len() {
        return false;
    }
    let mut i: usize = 0;
    while i < a.len()
        invariant
            a.len() == b.len(),
            i <= a.len(),
            forall|j: int| 0 <= j < i ==> a@[j] == b@[j],
        decreases a.len() - i,
    {
        if a[i] != b[i] {
            return false;
        }
        i += 1;
    }
    assert(a@ =~= b@);
    true
}

/// Tells whether `whole` begins with `prefix`.
pub fn has_prefix(whole: &[u8], prefix: &[u8]) -> (found: bool)
    ensures
        found == starts_with(whole@, prefix@),
{
    if prefix.len() > whole.len() {
        return false;
    }
    let mut i: usize = 0;
    while i < prefix.len()
        invariant
            prefix.len() <= whole.len(),
            i <= prefix.len(),
            forall|j: int| 0 <= j < i ==> whole@[j] == prefix@[j],
        decreases prefix.len() - i,
    {
        if whole[i] != prefix[i] {
            assert(whole@.subrange(0, prefix@.len() as int)[i as int] != prefix@[i as int]);
            return false;
        }
        i += 1;
    }
    assert(whole@.subrange(0, prefix@.len() as int) =~= prefix@);
    true
}

/// Copies the bytes of `source` from position `from` on.
pub fn bytes_from(source: &[u8], from: usize) -> (tail: Vec<u8>)
    requires
        from <= source@.len(),
    ensures
        tail@ == source@.subrange(from as int, source@.len() as int),
{
    let mut tail: Vec<u8> = Vec::new();
    let mut i: usize = from;
    while i < source.len()
        invariant
            from <= i <= source.len(),
            tail@ == source@.subrange(from as int, i as int),
        decreases source.len() - i,
    {
        tail.push(source[i]);
        assert(tail@ =~= source@.subrange(from as int, i + 1));
        i += 1;
    }
    tail
}

/// Joins two byte strings.
pub fn join(first: &[u8], second: &[u8]) -> (joined: Vec<u8>)
    ensures
        joined@ == first@ + second@,
{
    let mut joined: Vec<u8> = Vec::new();
    let mut i: usize = 0;
    while i < first.len()
        invariant
            i <= first.len(),
            joined@ == first@.subrange(0, i as int),
        decreases first.len() - i,
    {
        joined.push(first[i]);
        assert(joined@ =~= first@.subrange(0, i + 1));
        i += 1;
    }
    assert(joined@ =~= first@);
    let mut j: usize = 0;
    while j < second.len()
        invariant
            j <= second.len(),
            joined@ == first@ + second@.subrange(0, j as int),
        decreases second.len() - j,
    {
        joined.push(second[j]);
        assert(joined@ =~= first@ + second@.subrange(0, j + 1));
        j += 1;
    }
    assert(joined@ =~= first@ + second@);
    joined
}

} // verus!
