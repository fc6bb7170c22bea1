use crate::emit::{enum_error, enum_ok, kebab_names, variant_literals, GenError, MAX_VARIANTS};
use crate::naming::{all_distinct, views};
use vstd::prelude::*;

verus! {

/// The discriminant width, in bytes, of an enum with `n` variants.
pub open spec fn width_of(n: nat) -> nat {
    if n <= 256 {
        1
    } else if n <= 65536 {
        2
    } else {
        4
    }
}

/// How many distinct values a discriminant of `w` bytes can hold.
pub open spec fn capacity_of(w: nat) -> nat {
    if w == 1 {
        256
    } else if w == 2 {
        65536
    } else {
        4294967296
    }
}

/// What the generated `get` yields for the raw discriminant `raw`: the
/// literal of the variant with that value, or `None` for a decode error.
pub open spec fn decode_spec(lits: Seq<Seq<char>>, raw: nat) -> Option<Seq<char>> {
    if raw < lits.len() {
        Some(lits[raw as int])
    } else {
        None
    }
}

/// The position of `v` among `lits`, when it is there.
pub open spec fn encode_spec(lits: Seq<Seq<char>>, v: Seq<char>) -> Option<nat> {
    if exists|i: int| 0 <= i < lits.len() && lits[i] == v {
        Some((choose|i: int| 0 <= i < lits.len() && lits[i] == v) as nat)
    } else {
        None
    }
}

/// The value a discriminant of `w` bytes holds after `x` is written to it.
pub open spec fn stored(w: nat, x: nat) -> nat {
    x % capacity_of(w)
}

/// The integer encoding of an enum's variants, as the generated `get` and
/// `set` apply it: variant literals numbered densely from zero in declaration
/// order.
pub struct EnumCodec {
    literals: Vec<String>,
}

#[derive(Clone, Copy, Debug, PartialEq, Eq)]
pub enum CodecError {
    /// No variant has this discriminant.
    UnknownValue(u32),
    /// No variant has this literal.
    UnknownLiteral,
}

impl EnumCodec {
    /// The variant literals, in discriminant order.
    pub closed spec fn view(&self) -> Seq<Seq<char>> {
        views(self.literals@)
    }

    pub open spec fn wf(&self) -> bool {
        &&& self@.len() <= MAX_VARIANTS
        &&& all_distinct(self@)
    }

    /// The encoding of an enum whose variants, in declaration order, are
    /// `variants`; it fails exactly where the enum gets no binding.
    pub fn new(variants: &Vec<String>) -> (r: Result<EnumCodec, GenError>)
        ensures
            match r {
                Ok(c) => enum_ok(variants@) && c@ == kebab_names(variants@) && c.wf(),
                Err(e) => !enum_ok(variants@) && enum_error(variants@, e),
            },
    {
        match variant_literals(variants) {
            Ok(ks) => Ok(EnumCodec { literals: ks }),
            Err(e) => Err(e),
        }
    }

    /// The number of variants.
    pub fn len(&self) -> (r: usize)
        ensures
            r == self@.len(),
    {
        self.literals.len()
    }

    /// The discriminant width in bytes: one for up to 256 variants, two for
    /// up to 65536, four beyond.
    pub fn width(&self) -> (r: u8)
        ensures
            r == width_of(self@.len()),
    {
        let n = self.literals.len();
        if n <= 256 {
            1
        } else if n <= 65536 {
            2
        } else {
            4
        }
    }

    /// The literal of the variant whose discriminant is `raw`.
    pub fn decode(&self, raw: u32) -> (r: Result<String, CodecError>)
        ensures
            match decode_spec(self@, raw as nat) {
                Some(v) => r is Ok && r->Ok_0@ == v,
                None => r == Err::<String, CodecError>(CodecError::UnknownValue(raw)),
            },
    {
        if (raw as usize) < self.literals.len() {
            Ok(self.literals[raw as usize].clone())
        } else {
            Err(CodecError::UnknownValue(raw))
        }
    }

    /// The discriminant of the variant whose literal is `value`.
    pub fn encode(&self, value: &String) -> (r: Result<u32, CodecError>)
        requires
            self.wf(),
        ensures
            match encode_spec(self@, value@) {
                Some(i) => r == Ok::<u32, CodecError>(i as u32),
                None => r == Err::<u32, CodecError>(CodecError::UnknownLiteral),
            },
    {
        let n = self.literals.len();
        assert(self@.len() == n);
        let mut i: usize = 0;
        while i < n
            invariant
                n == self.literals@.len(),
                n == self@.len(),
                self.wf(),
                i <= n,
                forall|j: int| 0 <= j < i ==> #[trigger] self@[j] != value@,
            decreases n - i,
        {
            if self.literals[i] == *value {
                proof {
                    assert(self@[i as int] == value@);
                    let k = choose|k: int| 0 <= k < self@.len() && self@[k] == value@;
                    assert(k == i) by {
                        if k != i {
                            if k < i {
                                assert(self@[k] != self@[i as int]);
                            } else {
                                assert(self@[i as int] != self@[k]);
                            }
                        }
                    }
                }
                return Ok(i as u32);
            }
            i = i + 1;
        }
        Err(CodecError::UnknownLiteral)
    }
}

/// Enum round trip: for every variant, writing its discriminant at the chosen
/// width and reading it back decodes to the same literal; and every value the
/// discriminant can hold that no variant has is a decode error, never a
/// default variant.
pub proof fn lemma_enum_round_trip(lits: Seq<Seq<char>>, i: int, raw: nat)
    requires
        lits.len() <= MAX_VARIANTS,
        all_distinct(lits),
        0 <= i < lits.len(),
    ensures
        encode_spec(lits, lits[i]) == Some(i as nat),
        decode_spec(lits, stored(width_of(lits.len()), i as nat)) == Some(lits[i]),
        lits.len() <= raw < capacity_of(width_of(lits.len())) ==> decode_spec(lits, raw) is None,
{
    let k = choose|k: int| 0 <= k < lits.len() && lits[k] == lits[i];
    assert(k == i) by {
        if k < i {
            assert(lits[k] != lits[i]);
        } else if k > i {
            assert(lits[i] != lits[k]);
        }
    }
    let w = width_of(lits.len());
    assert(i < capacity_of(w));
    vstd::arithmetic::div_mod::lemma_small_mod(i as nat, capacity_of(w));
}

} // verus!
