//! Enumerated types described at run time: a list of named variants, each
//! with its discriminant, and the width of the field that holds one.

use vstd::prelude::*;
use vstd::arithmetic::power2::{lemma2_to64, lemma_pow2_adds, lemma_pow2_pos};
use vstd::arithmetic::power2::{lemma_pow2_strictly_increases, pow2};
use crate::codec::fits_in;
use crate::model::{fits, MAX_BITS};
use crate::error::Error;

verus! {

/// One variant of an enumerated type.
pub struct Variant {
    pub name: String,
    pub discriminant: i64,
}

/// Whether a discriminant can be stored in `bits` bits: it is not negative
/// and below `2^bits`.
pub open spec fn in_range(discriminant: i64, bits: nat) -> bool {
    0 <= discriminant && fits(discriminant as u128, bits)
}

/// Whether every variant before index `upto` has a discriminant in range.
pub open spec fn all_in_range(variants: Seq<Variant>, bits: nat, upto: int) -> bool {
    forall|i: int| 0 <= i < upto ==> in_range(#[trigger] variants[i].discriminant, bits)
}

/// Whether `n` is a power of two.
pub open spec fn is_power_of_two(n: nat) -> bool {
    exists|b: nat| pow2(b) == n
}

/// The exponent of a power of two: the `b` with `2^b == n`.
pub open spec fn exponent_of(n: nat) -> nat {
    choose|b: nat| pow2(b) == n
}

/// Two powers of two are equal only where their exponents are.
pub proof fn lemma_pow2_injective(a: nat, b: nat)
    requires
        pow2(a) == pow2(b),
    ensures
        a == b,
{
    if a < b {
        lemma_pow2_strictly_increases(a, b);
    } else if b < a {
        lemma_pow2_strictly_increases(b, a);
    }
}

/// The index of the first variant, from index `from` on, whose discriminant is
/// `raw`.
pub open spec fn find_variant(variants: Seq<Variant>, raw: u128, from: int) -> Option<int>
    decreases variants.len() - from,
{
    if from < 0 || from >= variants.len() {
        None
    } else if variants[from].discriminant == raw {
        Some(from)
    } else {
        find_variant(variants, raw, from + 1)
    }
}

/// Whether no two variants have the same discriminant.
pub open spec fn distinct(variants: Seq<Variant>) -> bool {
    forall|i: int, j: int|
        0 <= i < j < variants.len() ==> (#[trigger] variants[i]).discriminant != (
        #[trigger] variants[j]).discriminant
}

/// The search for a discriminant finds variant `index`, where no variant
/// between `from` and `index` has the same discriminant.
pub proof fn lemma_find_variant(variants: Seq<Variant>, index: int, from: int)
    requires
        0 <= from <= index < variants.len(),
        0 <= variants[index].discriminant,
        forall|j: int| from <= j < index ==> (#[trigger] variants[j]).discriminant != variants[index].discriminant,
    ensures
        find_variant(variants, variants[index].discriminant as u128, from) == Some(index),
    decreases index - from,
{
    if from < index {
        assert(variants[from].discriminant != variants[index].discriminant);
        lemma_find_variant(variants, index, from + 1);
    }
}

/// The variants with the discriminants 0, 1, 2, ... in the order of the names.
pub open spec fn numbered(names: Seq<String>) -> Seq<Variant> {
    Seq::new(names.len(), |i: int| Variant { name: names[i], discriminant: i as i64 })
}

/// An enumerated type: its variants in the order of their declaration, and
/// the width of a field that holds one.
pub struct EnumDescriptor {
    variants: Vec<Variant>,
    bits: usize,
}

impl EnumDescriptor {
    /// The variants, in the order of their declaration.
    pub closed spec fn variants(&self) -> Seq<Variant> {
        self.variants@
    }

    /// The width of a field of this type, in bits.
    pub closed spec fn width(&self) -> nat {
        self.bits as nat
    }

    /// What every descriptor meets: the width is one that a field can have,
    /// and every discriminant fits in it.
    #[verifier::type_invariant]
    pub open spec fn wf(&self) -> bool {
        &&& self.width() <= MAX_BITS
        &&& all_in_range(self.variants(), self.width(), self.variants().len() as int)
    }

    /// The discriminant of the variant at `index`, as raw bits.
    pub open spec fn encode(&self, index: int) -> u128 {
        self.variants()[index].discriminant as u128
    }

    /// The index of the first variant whose discriminant is `raw`.
    pub open spec fn decode(&self, raw: u128) -> Result<usize, Error> {
        match find_variant(self.variants(), raw, 0) {
            Some(i) => Ok(i as usize),
            None => Err(Error::UnknownDiscriminant),
        }
    }

    /// Whether raw bits lead back to the variant at `index`: it exists, and
    /// no variant before it has the same discriminant.
    pub open spec fn representable(&self, index: int) -> bool {
        &&& 0 <= index < self.variants().len()
        &&& find_variant(self.variants(), self.encode(index), 0) == Some(index)
    }

    /// Where no two variants have the same discriminant, a field can hold each
    /// of them.
    pub proof fn lemma_distinct_representable(&self, index: int)
        requires
            self.wf(),
            distinct(self.variants()),
            0 <= index < self.variants().len(),
        ensures
            self.representable(index),
    {
        assert(in_range(self.variants()[index].discriminant, self.width()));
        lemma_find_variant(self.variants(), index, 0);
    }

    /// The type with these variants and the width given: any number of
    /// variants, each with a discriminant that fits in `bits` bits. The first
    /// variant whose discriminant does not fit is named in the error.
    pub fn with_bits(variants: Vec<Variant>, bits: usize) -> (r: Result<EnumDescriptor, Error>)
        requires
            bits <= MAX_BITS,
        ensures
            match r {
                Ok(d) => {
                    &&& d.wf()
                    &&& d.variants() == variants@
                    &&& d.width() == bits
                },
                Err(e) => exists|i: int|
                    {
                        &&& 0 <= i < variants@.len()
                        &&& all_in_range(variants@, bits as nat, i)
                        &&& !in_range(#[trigger] variants@[i].discriminant, bits as nat)
                        &&& e == Error::DiscriminantOutOfRange(variants@[i].name)
                    },
            },
    {
        let mut i: usize = 0;
        while i < variants.len()
            invariant
                i <= variants@.len(),
                all_in_range(variants@, bits as nat, i as int),
            decreases variants@.len() - i,
        {
            let d: i64 = variants[i].discriminant;
            if d < 0 || !fits_in(d as u128, bits) {
                return Err(Error::DiscriminantOutOfRange(variants[i].name.clone()));
            }
            i += 1;
        }
        Ok(EnumDescriptor { variants, bits })
    }

    /// The type with these variants, in a field just wide enough to tell them
    /// apart. Their number has to be a power of two, `2^bits`, and each
    /// discriminant has to fit in `bits` bits; the first that does not is
    /// named in the error.
    pub fn new(variants: Vec<Variant>) -> (r: Result<EnumDescriptor, Error>)
        ensures
            !is_power_of_two(variants@.len()) ==> r == Err::<EnumDescriptor, Error>(
                Error::NonPowerOfTwoVariantCount,
            ),
            is_power_of_two(variants@.len()) ==> match r {
                Ok(d) => {
                    &&& d.wf()
                    &&& d.variants() == variants@
                    &&& d.width() == exponent_of(variants@.len())
                },
                Err(e) => exists|i: int|
                    {
                        &&& 0 <= i < variants@.len()
                        &&& all_in_range(variants@, exponent_of(variants@.len()), i)
                        &&& !in_range(
                            #[trigger] variants@[i].discriminant,
                            exponent_of(variants@.len()),
                        )
                        &&& e == Error::DiscriminantOutOfRange(variants@[i].name)
                    },
            },
    {
        let count: usize = variants.len();
        let mut bits: usize = 0;
        let mut cap: u128 = 1;
        proof {
            lemma2_to64();
        }
        while cap < count as u128
            invariant
                cap == pow2(bits as nat),
                cap >= 1,
                bits <= 64,
                count == variants@.len(),
                bits > 0 ==> pow2((bits - 1) as nat) < count,
            decreases 64 - bits,
        {
            proof {
                lemma_pow2_adds(bits as nat, 1);
                lemma2_to64();
            }
            cap = cap * 2;
            bits = bits + 1;
        }
        if cap != count as u128 {
            proof {
                if is_power_of_two(count as nat) {
                    let b = choose|b: nat| pow2(b) == count as nat;
                    lemma_pow2_pos(b);
                    if b < bits {
                        if bits > 0 && b < bits - 1 {
                            lemma_pow2_strictly_increases(b, (bits - 1) as nat);
                        }
                    } else {
                        if b > bits {
                            lemma_pow2_strictly_increases(bits as nat, b);
                        }
                    }
                    assert(false);
                }
            }
            return Err(Error::NonPowerOfTwoVariantCount);
        }
        proof {
            assert(is_power_of_two(count as nat));
            lemma_pow2_injective(bits as nat, exponent_of(count as nat));
        }
        EnumDescriptor::with_bits(variants, bits)
    }

    /// The type with the variants of these names, numbered 0, 1, 2, ... in
    /// order. Their number has to be a power of two.
    pub fn from_names(names: Vec<String>) -> (r: Result<EnumDescriptor, Error>)
        requires
            names@.len() <= i64::MAX,
        ensures
            !is_power_of_two(names@.len()) ==> r == Err::<EnumDescriptor, Error>(
                Error::NonPowerOfTwoVariantCount,
            ),
            is_power_of_two(names@.len()) ==> {
                &&& r is Ok
                &&& r->Ok_0.wf()
                &&& r->Ok_0.variants() == numbered(names@)
                &&& r->Ok_0.width() == exponent_of(names@.len())
            },
    {
        let mut variants: Vec<Variant> = Vec::new();
        let mut i: usize = 0;
        while i < names.len()
            invariant
                i <= names@.len() <= i64::MAX,
                variants@.len() == i,
                forall|k: int| 0 <= k < i ==> variants@[k] == numbered(names@)[k],
            decreases names@.len() - i,
        {
            variants.push(Variant { name: names[i].clone(), discriminant: i as i64 });
            i += 1;
        }
        assert(variants@ =~= numbered(names@));
        let r = EnumDescriptor::new(variants);
        proof {
            if is_power_of_two(names@.len()) && r is Err {
                let b = exponent_of(names@.len());
                let i = choose|i: int|
                    0 <= i < variants@.len() && !in_range(#[trigger] variants@[i].discriminant, b);
                assert(variants@[i].discriminant == i);
                assert(false);
            }
        }
        r
    }

    /// The width of a field of this type, in bits.
    pub fn bits(&self) -> (bits: usize)
        ensures
            bits == self.width(),
    {
        self.bits
    }

    /// The number of variants.
    pub fn len(&self) -> (n: usize)
        ensures
            n == self.variants().len(),
    {
        self.variants.len()
    }

    /// The variant at `index`.
    pub fn variant(&self, index: usize) -> (v: &Variant)
        requires
            index < self.variants().len(),
        ensures
            *v == self.variants()[index as int],
    {
        &self.variants[index]
    }

    /// The index of the first variant whose discriminant is `raw`, tried in
    /// the order of their declaration.
    pub fn to_interface(&self, raw: u128) -> (r: Result<usize, Error>)
        ensures
            r == self.decode(raw),
    {
        let mut i: usize = 0;
        while i < self.variants.len()
            invariant
                i <= self.variants().len(),
                find_variant(self.variants(), raw, 0) == find_variant(self.variants(), raw, i as int),
            decreases self.variants().len() - i,
        {
            let d: i64 = self.variants[i].discriminant;
            if d >= 0 && d as u128 == raw {
                return Ok(i);
            }
            i += 1;
        }
        Err(Error::UnknownDiscriminant)
    }

    /// The discriminant of the variant at `index`, as raw bits.
    pub fn from_interface(&self, index: usize) -> (raw: u128)
        requires
            index < self.variants().len(),
        ensures
            raw == self.encode(index as int),
            fits(raw, self.width()),
    {
        proof {
            use_type_invariant(self);
        }
        self.variants[index].discriminant as u128
    }
}

} // verus!
