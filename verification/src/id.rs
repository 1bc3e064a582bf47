//! Identifiers: 64-bit numbers that are read as sixteen hexadecimal digits.

use std::cmp::Ordering;
use std::collections::hash_map::DefaultHasher;
use std::hash::Hasher;
use vstd::prelude::*;
use vstd::std_specs::cmp::PartialOrdSpec;
use vstd::std_specs::hash::DefaultHasherAdditionalSpecFns;
use vstd::string::StringSliceAdditionalSpecFns;

use crate::id::octets::{
    key_space, lemma_first_difference, lemma_span_zero, lemma_tail_agree, lemma_tail_bound,
    lemma_tail_common, lemma_tail_injective, lemma_value_order_is_lexicographic,
    lemma_zero_value, lex_less, octets_digit, octets_value, span, tail_value,
    wrapping_difference, zero_octets,
};

pub mod octets;
pub mod text;

verus! {

/// The 64-bit hash of a key whose octets are written to a fresh hasher in one
/// piece.
pub open spec fn key_hash(octets: Seq<u8>) -> int {
    DefaultHasher::spec_finish(seq![octets]) as int
}

/// A key that identifiers can be derived from: it names the octets that are
/// hashed.
pub trait Key {
    /// The octets that stand for the key.
    spec fn key_octets(&self) -> Seq<u8>;

    /// Writes the octets of the key to the hasher, in one piece.
    fn feed(&self, hasher: &mut DefaultHasher)
        ensures
            final(hasher)@ == old(hasher)@.push(self.key_octets()),
    ;
}

impl Key for &str {
    /// A text is hashed as its UTF-8 octets.
    open spec fn key_octets(&self) -> Seq<u8> {
        (*self).spec_bytes()
    }

    fn feed(&self, hasher: &mut DefaultHasher) {
        hasher.write(self.as_bytes());
    }
}

impl Key for &[u8] {
    open spec fn key_octets(&self) -> Seq<u8> {
        (*self)@
    }

    fn feed(&self, hasher: &mut DefaultHasher) {
        hasher.write(*self);
    }
}

/// A 64-bit identifier, held as eight octets with the most significant first.
#[derive(Clone, Copy, Debug, PartialEq, Eq, Ord, Hash)]
pub struct Id {
    id: [u8; 8],
}

impl View for Id {
    type V = Seq<u8>;

    /// The eight octets of the identifier, most significant first.
    closed spec fn view(&self) -> Seq<u8> {
        self.id@
    }
}

impl Id {
    /// The number in `[0, 2^64)` that the identifier stands for.
    pub open spec fn value(&self) -> int {
        octets_value(self@)
    }

    /// The hexadecimal digit at position `i`, digit 0 being the low half of
    /// octet 0.
    pub open spec fn digit(&self, i: int) -> int {
        octets_digit(self@, i)
    }

    /// The identifier whose octets are the first eight of `s`.
    pub closed spec fn from_octets(s: Seq<u8>) -> Id {
        Id { id: [s[0], s[1], s[2], s[3], s[4], s[5], s[6], s[7]] }
    }

    /// Eight octets make the identifier that holds them.
    pub proof fn lemma_from_octets(s: Seq<u8>)
        requires
            s.len() == 8,
        ensures
            Id::from_octets(s)@ == s,
    {
        assert(Id::from_octets(s)@ =~= s);
    }

    /// Every identifier is made of its octets.
    pub proof fn lemma_from_own_octets(&self)
        ensures
            Id::from_octets(self@) == *self,
    {
        assert(Id::from_octets(self@).id =~= self.id);
    }

    /// Every identifier has exactly eight octets.
    pub proof fn lemma_len(&self)
        ensures
            self@.len() == 8,
    {
    }

    /// Two identifiers with the same octets are the same identifier.
    pub proof fn lemma_ext_equal(&self, other: &Id)
        requires
            self@ == other@,
        ensures
            *self == *other,
    {
        assert(self.id =~= other.id);
    }

    /// Identifiers that stand for the same number are the same identifier.
    pub proof fn lemma_value_injective(&self, other: &Id)
        requires
            self.value() == other.value(),
        ensures
            self@ == other@,
            *self == *other,
    {
        lemma_tail_injective(self@, other@, 0);
        assert(self@ =~= other@);
        self.lemma_ext_equal(other);
    }

    /// A digit is its octet shifted right by four times the parity of its
    /// position, and cut to four bits.
    pub proof fn lemma_digit_by_shift(&self, i: int)
        requires
            0 <= i < 16,
        ensures
            self.digit(i) == if i % 2 == 0 {
                self@[i / 2] & 0x0F
            } else {
                (self@[i / 2] >> 4) & 0x0F
            },
    {
        let octet: u8 = self@[i / 2];
        assert(octet & 0x0F == octet % 16) by (bit_vector);
        assert((octet >> 4) & 0x0F == octet / 16) by (bit_vector);
    }

    /// Each octet is its low digit plus sixteen times its high digit, and
    /// each digit is below sixteen.
    pub proof fn lemma_digits_rebuild_octet(&self, k: int)
        requires
            0 <= k < 8,
        ensures
            0 <= self.digit(2 * k) < 16,
            0 <= self.digit(2 * k + 1) < 16,
            self@[k] == self.digit(2 * k) + 16 * self.digit(2 * k + 1),
    {
    }

    /// The identifier whose octets are all zero.
    pub fn zero() -> (r: Self)
        ensures
            r@ == zero_octets(),
            r.value() == 0,
    {
        let r = Self { id: [0; 8] };
        assert(r@ =~= zero_octets());
        proof {
            lemma_zero_value();
        }
        r
    }

    /// The identifier with the given octets.
    pub fn new(id: [u8; 8]) -> (r: Self)
        ensures
            r@ == id@,
    {
        Self { id }
    }

    /// The identifier that stands for the number `v` of the key space.
    pub closed spec fn of_value(v: int) -> Id {
        choose|id: Id| id.value() == v
    }

    /// The identifier of a key whose octets are `octets`.
    pub open spec fn of_key(octets: Seq<u8>) -> Id {
        Id::of_value(key_hash(octets))
    }

    /// An identifier is the one that stands for its number.
    pub proof fn lemma_of_own_value(&self)
        ensures
            Id::of_value(self.value()) == *self,
    {
        let found = Id::of_value(self.value());
        assert(found.value() == self.value());
        found.lemma_value_injective(self);
    }

    /// The identifier that stands for the number `v`.
    pub fn from_value(v: u64) -> (r: Self)
        ensures
            r.value() == v,
            r == Id::of_value(v as int),
    {
        let mut out: [u8; 8] = [0; 8];
        let mut rest: u64 = v;
        let mut i: usize = 8;
        while i > 0
            invariant
                i <= 8,
                v == rest * span(i as int) + tail_value(out@, i as int),
            decreases i,
        {
            i = i - 1;
            let ghost before = out@;
            let ghost whole = rest as int;
            out[i] = (rest % 256) as u8;
            rest = rest / 256;
            proof {
                let w = span(i as int + 1);
                let q = rest as int;
                let b = out@[i as int] as int;
                lemma_tail_agree(out@, before, i as int + 1);
                assert(whole * w == q * (256 * w) + b * w) by (nonlinear_arith)
                    requires
                        whole == 256 * q + b,
                ;
            }
        }
        proof {
            lemma_tail_bound(out@, 0);
            lemma_span_zero();
            let q = rest as int;
            assert(q == 0) by (nonlinear_arith)
                requires
                    0 <= q,
                    v == q * span(0) + tail_value(out@, 0),
                    0 <= tail_value(out@, 0),
                    v < span(0),
            ;
            assert(q * span(0) == 0) by (nonlinear_arith)
                requires
                    q == 0,
            ;
        }
        let r = Self { id: out };
        proof {
            r.lemma_of_own_value();
        }
        r
    }

    /// The identifier of a key: the 64-bit hash of the key's octets.
    pub fn from_key<K: Key>(key: K) -> (r: Self)
        ensures
            r.value() == key_hash(key.key_octets()),
            r == Id::of_key(key.key_octets()),
    {
        let mut hasher = DefaultHasher::new();
        key.feed(&mut hasher);
        let hash: u64 = hasher.finish();
        assert(hasher@ =~= seq![key.key_octets()]);
        Self::from_value(hash)
    }

    /// The octets of the identifier, most significant first.
    pub fn octets(&self) -> (r: [u8; 8])
        ensures
            r@ == self@,
    {
        self.id
    }

    /// Every identifier stands for a number of the key space.
    pub proof fn lemma_value_bound(&self)
        ensures
            0 <= self.value() < key_space(),
    {
        lemma_tail_bound(self@, 0);
        lemma_span_zero();
    }

    /// The wrap-around difference `self - other` modulo 2^64.
    pub fn distance(&self, other: &Self) -> (r: Self)
        ensures
            r.value() == wrapping_difference(self.value(), other.value()),
            self@ == other@ ==> r@ == zero_octets(),
    {
        let mut out: [u8; 8] = [0; 8];
        let mut borrow: u8 = 0;
        let mut i: usize = 8;
        while i > 0
            invariant
                i <= 8,
                borrow <= 1,
                tail_value(out@, i as int) == tail_value(self@, i as int) - tail_value(
                    other@,
                    i as int,
                ) + borrow * span(i as int),
            decreases i,
        {
            i = i - 1;
            let ghost before = out@;
            let ghost borrowed = borrow as int;
            let minuend: u16 = self.id[i] as u16 + 256;
            let subtrahend: u16 = other.id[i] as u16 + borrow as u16;
            let diff: u16 = minuend - subtrahend;
            if diff >= 256 {
                out[i] = (diff - 256) as u8;
                borrow = 0;
            } else {
                out[i] = diff as u8;
                borrow = 1;
            }
            proof {
                let k = i as int;
                let w = span(k + 1);
                let a = self@[k] as int;
                let b = other@[k] as int;
                let d = out@[k] as int;
                let c = borrow as int;
                lemma_tail_agree(out@, before, k + 1);
                assert(d == a - b - borrowed + 256 * c);
                assert(d * w + borrowed * w == a * w - b * w + c * (256 * w))
                    by (nonlinear_arith)
                    requires
                        d == a - b - borrowed + 256 * c,
                ;
            }
        }
        let r = Self { id: out };
        proof {
            r.lemma_value_bound();
            self.lemma_value_bound();
            other.lemma_value_bound();
            lemma_span_zero();
            if self@ == other@ {
                lemma_zero_value();
                lemma_tail_injective(r@, zero_octets(), 0);
                assert(r@ =~= zero_octets());
            }
        }
        r
    }

    /// The hexadecimal digit at position `i`, a value below 16.
    pub fn get_digit(&self, i: usize) -> (d: u8)
        requires
            i < 16,
        ensures
            d == self.digit(i as int),
            d < 16,
    {
        let byte: u8 = self.id[i / 2];
        if i % 2 == 0 {
            assert(byte & 0x0F == byte % 16) by (bit_vector);
            byte & 0x0F
        } else {
            assert(byte >> 4 == byte / 16) by (bit_vector);
            byte >> 4
        }
    }

    /// The first index at which the octets of the two identifiers differ, or 8
    /// where they are the same.
    fn first_difference(&self, other: &Self) -> (k: usize)
        ensures
            k <= 8,
            forall|j: int| 0 <= j < k ==> self@[j] == other@[j],
            k < 8 ==> self@[k as int] != other@[k as int],
            k < 8 && self@[k as int] < other@[k as int] ==> self.value() < other.value(),
            k < 8 && self@[k as int] > other@[k as int] ==> self.value() > other.value(),
            k == 8 ==> self.value() == other.value(),
    {
        let mut i: usize = 0;
        while i < 8
            invariant
                i <= 8,
                forall|j: int| 0 <= j < i ==> self@[j] == other@[j],
            decreases 8 - i,
        {
            if self.id[i] != other.id[i] {
                proof {
                    if self@[i as int] < other@[i as int] {
                        lemma_first_difference(self@, other@, i as int);
                    } else {
                        lemma_first_difference(other@, self@, i as int);
                    }
                }
                return i;
            }
            i = i + 1;
        }
        proof {
            lemma_tail_common(self@, other@, 0, 8);
        }
        i
    }
}

impl PartialOrd for Id {
    /// Compares two identifiers as unsigned numbers, which is the
    /// lexicographic order of their octets.
    fn partial_cmp(&self, other: &Self) -> (r: Option<Ordering>) {
        let k: usize = self.first_difference(other);
        if k >= 8 {
            Some(Ordering::Equal)
        } else if self.id[k] < other.id[k] {
            Some(Ordering::Less)
        } else {
            Some(Ordering::Greater)
        }
    }
}

impl vstd::std_specs::cmp::PartialOrdSpecImpl for Id {
    open spec fn obeys_partial_cmp_spec() -> bool {
        true
    }

    open spec fn partial_cmp_spec(&self, other: &Self) -> Option<Ordering> {
        if self.value() < other.value() {
            Some(Ordering::Less)
        } else if self.value() == other.value() {
            Some(Ordering::Equal)
        } else {
            Some(Ordering::Greater)
        }
    }
}

/// The order that `<` and `partial_cmp` decide is a total order: any two
/// identifiers are comparable, only equal ones compare equal, and the order
/// is transitive. It is the lexicographic order of the octets.
pub proof fn lemma_order_total(a: Id, b: Id, c: Id)
    ensures
        a.partial_cmp_spec(&b) == Some(Ordering::Less) <==> lex_less(a@, b@),
        a.partial_cmp_spec(&b) == Some(Ordering::Greater) <==> lex_less(b@, a@),
        a.partial_cmp_spec(&b) == Some(Ordering::Equal) <==> a == b,
        a.partial_cmp_spec(&b) == Some(Ordering::Less) <==> b.partial_cmp_spec(&a) == Some(
            Ordering::Greater,
        ),
        a.partial_cmp_spec(&b) == Some(Ordering::Less) && b.partial_cmp_spec(&c) == Some(
            Ordering::Less,
        ) ==> a.partial_cmp_spec(&c) == Some(Ordering::Less),
{
    lemma_value_order_is_lexicographic(a@, b@);
    lemma_value_order_is_lexicographic(b@, a@);
    if a.value() == b.value() {
        a.lemma_value_injective(&b);
    }
}

} // verus!
