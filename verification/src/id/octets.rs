//! Eight octets as a number: their value, their order, and their digits.

use vstd::prelude::*;

verus! {

/// Two to the power 64: the size of the key space.
pub open spec fn key_space() -> int {
    0x1_0000_0000_0000_0000
}

/// How many numbers the octets from index `k` on can stand for: 256 to the
/// power `8 - k`.
pub open spec fn span(k: int) -> int
    decreases 8 - k,
{
    if k >= 8 {
        1
    } else {
        256 * span(k + 1)
    }
}

/// The number that the octets of `s` from index `k` on stand for, octet 7
/// being the least significant.
pub open spec fn tail_value(s: Seq<u8>, k: int) -> int
    decreases 8 - k,
{
    if k >= 8 {
        0
    } else {
        s[k] * span(k + 1) + tail_value(s, k + 1)
    }
}

/// The unsigned number that eight octets stand for, most significant first.
pub open spec fn octets_value(s: Seq<u8>) -> int {
    tail_value(s, 0)
}

/// The octets from index `k` on span the whole key space when `k` is 0.
pub proof fn lemma_span_zero()
    ensures
        span(0) == key_space(),
{
    reveal_with_fuel(span, 10);
}

/// The octets from index `k` on stand for a number below `span(k)`.
pub proof fn lemma_tail_bound(s: Seq<u8>, k: int)
    requires
        0 <= k <= 8,
    ensures
        0 <= tail_value(s, k) < span(k),
    decreases 8 - k,
{
    if k < 8 {
        lemma_tail_bound(s, k + 1);
        let w = span(k + 1);
        let d = s[k] as int;
        assert(0 <= d * w && d * w + w <= 256 * w) by (nonlinear_arith)
            requires
                0 <= d <= 255,
                0 < w,
        ;
    }
}

/// The number that the octets from `k` on stand for depends on those octets
/// alone.
pub proof fn lemma_tail_agree(s: Seq<u8>, t: Seq<u8>, k: int)
    requires
        0 <= k <= 8,
        forall|j: int| k <= j < 8 ==> s[j] == t[j],
    ensures
        tail_value(s, k) == tail_value(t, k),
    decreases 8 - k,
{
    if k < 8 {
        lemma_tail_agree(s, t, k + 1);
    }
}

/// Octets that agree from `j` up to `k` add the same to both numbers.
pub proof fn lemma_tail_common(s: Seq<u8>, t: Seq<u8>, j: int, k: int)
    requires
        0 <= j <= k <= 8,
        forall|i: int| j <= i < k ==> s[i] == t[i],
    ensures
        tail_value(s, j) - tail_value(t, j) == tail_value(s, k) - tail_value(t, k),
    decreases k - j,
{
    if j < k {
        lemma_tail_common(s, t, j + 1, k);
    }
}

/// Octets from `k` on that stand for the same number are the same octets.
pub proof fn lemma_tail_injective(s: Seq<u8>, t: Seq<u8>, k: int)
    requires
        0 <= k <= 8,
        tail_value(s, k) == tail_value(t, k),
    ensures
        forall|j: int| k <= j < 8 ==> s[j] == t[j],
    decreases 8 - k,
{
    if k < 8 {
        lemma_tail_bound(s, k + 1);
        lemma_tail_bound(t, k + 1);
        let w = span(k + 1);
        let a = s[k] as int;
        let b = t[k] as int;
        assert(a == b) by (nonlinear_arith)
            requires
                0 < w,
                0 <= tail_value(s, k + 1) < w,
                0 <= tail_value(t, k + 1) < w,
                a * w + tail_value(s, k + 1) == b * w + tail_value(t, k + 1),
        ;
        lemma_tail_injective(s, t, k + 1);
    }
}

/// Lexicographic order on two runs of eight octets: at the first index where
/// they differ, the octet of `s` is the smaller one.
pub open spec fn lex_less(s: Seq<u8>, t: Seq<u8>) -> bool {
    exists|k: int| 0 <= k < 8 && s[k] < t[k] && forall|j: int| 0 <= j < k ==> s[j] == t[j]
}

/// Where two runs of octets first differ at `k`, the one with the smaller
/// octet there stands for the smaller number.
pub proof fn lemma_first_difference(s: Seq<u8>, t: Seq<u8>, k: int)
    requires
        0 <= k < 8,
        s[k] < t[k],
        forall|j: int| 0 <= j < k ==> s[j] == t[j],
    ensures
        octets_value(s) < octets_value(t),
{
    lemma_tail_common(s, t, 0, k);
    lemma_tail_bound(s, k + 1);
    lemma_tail_bound(t, k + 1);
    let w = span(k + 1);
    let a = s[k] as int;
    let b = t[k] as int;
    assert(a * w + w <= b * w) by (nonlinear_arith)
        requires
            a < b,
            0 < w,
    ;
}

/// Wrap-around difference of two numbers of the key space.
pub open spec fn wrapping_difference(a: int, b: int) -> int {
    (a - b) % key_space()
}

/// The digit at position `i` of the octets `s`: the low half of octet `i / 2`
/// when `i` is even, its high half when `i` is odd.
pub open spec fn octets_digit(s: Seq<u8>, i: int) -> int {
    if i % 2 == 0 {
        (s[i / 2] as int) % 16
    } else {
        (s[i / 2] as int) / 16
    }
}

/// Eight octets that are all zero.
pub open spec fn zero_octets() -> Seq<u8> {
    Seq::new(8, |i: int| 0u8)
}

/// Zero octets stand for the number zero, from whatever index on.
pub proof fn lemma_zero_tail(k: int)
    requires
        0 <= k <= 8,
    ensures
        tail_value(zero_octets(), k) == 0,
    decreases 8 - k,
{
    if k < 8 {
        lemma_zero_tail(k + 1);
        assert(zero_octets()[k] == 0);
    }
}

/// Eight zero octets stand for the number zero.
pub proof fn lemma_zero_value()
    ensures
        octets_value(zero_octets()) == 0,
{
    lemma_zero_tail(0);
}

/// The first index from `k` on at which two runs of octets that stand for
/// different numbers differ.
pub proof fn lemma_differing_index(s: Seq<u8>, t: Seq<u8>, k: int) -> (r: int)
    requires
        0 <= k <= 8,
        forall|j: int| 0 <= j < k ==> s[j] == t[j],
        octets_value(s) != octets_value(t),
    ensures
        k <= r < 8,
        s[r] != t[r],
        forall|j: int| 0 <= j < r ==> s[j] == t[j],
    decreases 8 - k,
{
    if k == 8 {
        lemma_tail_common(s, t, 0, 8);
        k
    } else if s[k] != t[k] {
        k
    } else {
        lemma_differing_index(s, t, k + 1)
    }
}

/// The order of the numbers is the lexicographic order of the octets.
pub proof fn lemma_value_order_is_lexicographic(s: Seq<u8>, t: Seq<u8>)
    ensures
        octets_value(s) < octets_value(t) <==> lex_less(s, t),
{
    if lex_less(s, t) {
        let k = choose|k: int|
            0 <= k < 8 && s[k] < t[k] && forall|j: int| 0 <= j < k ==> s[j] == t[j];
        lemma_first_difference(s, t, k);
    }
    if octets_value(s) < octets_value(t) {
        let r = lemma_differing_index(s, t, 0);
        if s[r] > t[r] {
            lemma_first_difference(t, s, r);
        }
        assert(0 <= r < 8 && s[r] < t[r] && forall|j: int| 0 <= j < r ==> s[j] == t[j]);
    }
}

} // verus!
