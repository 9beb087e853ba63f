//! Binary tower field elements at levels 0 to 7 and their arithmetic.
//!
//! Levels 1 and 2 multiply through a packed 4-bit product table, level 3 uses
//! byte tables for the generator product and squaring; everything else
//! recurses into the level below.
use crate::tower_laws::{
    law_embedding, law_inverse, law_inverse_unique, law_mul_associates, lemma_embed_join,
    lemma_inv_zero, lemma_mul_closed, lemma_units, lemma_xor_cancel,
};
use crate::tower_spec::{
    bits_of, hi_half, in_level, join_halves, lemma_level_consts, lemma_level_join, lemma_level_split,
    lo_half, tower_norm, tower_inv, tower_inv_some, tower_mul, tower_mul_alpha,
    tower_square,
};
use vstd::prelude::*;

verus! {

/// The result of an inversion: `value` is meaningful when `is_some` holds.
/// Both are always computed, so that the work done does not depend on the input.
pub struct MaybeInverse<F> {
    pub value: F,
    pub is_some: bool,
}

impl<F> MaybeInverse<F> {
    /// The inverse, when there is one.
    pub fn into_option(self) -> (r: Option<F>)
        ensures
            r == (if self.is_some { Some(self.value) } else { None::<F> }),
    {
        if self.is_some {
            Some(self.value)
        } else {
            None
        }
    }
}

/// Relies on subtle's `ConstantTimeEq::ct_ne` for `u8` and on `Choice`'s
/// conversion to `bool`: true exactly when `x` is not 0.
#[verifier::external_body]
fn ct_is_nonzero(x: u8) -> (r: bool)
    ensures
        r == (x != 0),
{
    bool::from(subtle::ConstantTimeEq::ct_ne(&x, &0u8))
}

const MUL_4B_0: u128 = 0xfedcba98765432100000000000000000;
const MUL_4B_1: u128 = 0xa9b86574edfc21305764dfec9ba81320;
const MUL_4B_2: u128 = 0x41eb9c36278dfa50bf3726ae51d9c840;
const MUL_4B_3: u128 = 0x168f43dabc25e970e853f942ca71db60;
const MUL_4B_4: u128 = 0x2bc5816fd43a7e90d5193bf7a26e4c80;
const MUL_4B_5: u128 = 0x7ca15e834f926db0827de41b39c65fa0;
const MUL_4B_6: u128 = 0x94f2a7c185e3b6d06a2e1d59f3b784c0;
const MUL_4B_7: u128 = 0xc396782d1e4ba5f03d4ac2b5681f97e0;

/// Word `i` of the table of products of 4-bit elements: byte `(a << 4 | b) >> 1` holds the product of `a` and `b` in its low nibble when `b` is even, in its high nibble when odd, sixteen bytes to a word, lowest byte first.
spec fn mul_4b_word(i: u8) -> u128 {
    if i == 0 {
        MUL_4B_0
    } else if i == 1 {
        MUL_4B_1
    } else if i == 2 {
        MUL_4B_2
    } else if i == 3 {
        MUL_4B_3
    } else if i == 4 {
        MUL_4B_4
    } else if i == 5 {
        MUL_4B_5
    } else if i == 6 {
        MUL_4B_6
    } else {
        MUL_4B_7
    }
}

fn mul_4b_word_exec(i: u8) -> (r: u128)
    requires
        i < 8,
    ensures
        r == mul_4b_word(i),
{
    if i == 0 {
        MUL_4B_0
    } else if i == 1 {
        MUL_4B_1
    } else if i == 2 {
        MUL_4B_2
    } else if i == 3 {
        MUL_4B_3
    } else if i == 4 {
        MUL_4B_4
    } else if i == 5 {
        MUL_4B_5
    } else if i == 6 {
        MUL_4B_6
    } else {
        MUL_4B_7
    }
}

const INVERSE_8B_0: u128 = 0x0705080b0c090a0d0f040e0602030100;
const INVERSE_8B_1: u128 = 0x422f8fd14b2781d27e9e66107b946714;
const INVERSE_8B_2: u128 = 0x1e43c6b179dde9301a4ac1b37cdee63c;
const INVERSE_8B_3: u128 = 0xbb97e720c5833562c28d3963b99de828;
const INVERSE_8B_4: u128 = 0xbe5baacf1b26604156bcc8ac2e1f4861;
const INVERSE_8B_5: u128 = 0x6c53e0764ebffc88bd4786f75e6d73ef;
const INVERSE_8B_6: u128 = 0x9298525fa9af858b1115ebe434384049;
const INVERSE_8B_7: u128 = 0x9f17df2313952bdce15cf0b751eeb5fb;
const INVERSE_8B_8: u128 = 0x1dd036c36884fd58f655698a3ac419d3;
const INVERSE_8B_9: u128 = 0x7f1632b8f8a0936e3eba7a12996ff3a6;
const INVERSE_8B_10: u128 = 0x6aa8c944ce4d6baef290d8eddbe2f99a;
const INVERSE_8B_11: u128 = 0x5a4f57463f96339c74f171fa24c02cc7;
const INVERSE_8B_12: u128 = 0x4cabd4f4ffd7ad45b02d3b828c3725b2;
const INVERSE_8B_13: u128 = 0x7d222a78a3e3eca5cafef5cd80181c8e;
const INVERSE_8B_14: u128 = 0x5072a4d965e529313d21ea64daa2775d;
const INVERSE_8B_15: u128 = 0xcbd6895970b4a19b5487d5cc91a7b675;

/// Word `i` of the table of inverses of bytes (0 for 0), sixteen bytes to a word, lowest byte first.
spec fn inverse_8b_word(i: u8) -> u128 {
    if i == 0 {
        INVERSE_8B_0
    } else if i == 1 {
        INVERSE_8B_1
    } else if i == 2 {
        INVERSE_8B_2
    } else if i == 3 {
        INVERSE_8B_3
    } else if i == 4 {
        INVERSE_8B_4
    } else if i == 5 {
        INVERSE_8B_5
    } else if i == 6 {
        INVERSE_8B_6
    } else if i == 7 {
        INVERSE_8B_7
    } else if i == 8 {
        INVERSE_8B_8
    } else if i == 9 {
        INVERSE_8B_9
    } else if i == 10 {
        INVERSE_8B_10
    } else if i == 11 {
        INVERSE_8B_11
    } else if i == 12 {
        INVERSE_8B_12
    } else if i == 13 {
        INVERSE_8B_13
    } else if i == 14 {
        INVERSE_8B_14
    } else {
        INVERSE_8B_15
    }
}

fn inverse_8b_word_exec(i: u8) -> (r: u128)
    requires
        i < 16,
    ensures
        r == inverse_8b_word(i),
{
    if i == 0 {
        INVERSE_8B_0
    } else if i == 1 {
        INVERSE_8B_1
    } else if i == 2 {
        INVERSE_8B_2
    } else if i == 3 {
        INVERSE_8B_3
    } else if i == 4 {
        INVERSE_8B_4
    } else if i == 5 {
        INVERSE_8B_5
    } else if i == 6 {
        INVERSE_8B_6
    } else if i == 7 {
        INVERSE_8B_7
    } else if i == 8 {
        INVERSE_8B_8
    } else if i == 9 {
        INVERSE_8B_9
    } else if i == 10 {
        INVERSE_8B_10
    } else if i == 11 {
        INVERSE_8B_11
    } else if i == 12 {
        INVERSE_8B_12
    } else if i == 13 {
        INVERSE_8B_13
    } else if i == 14 {
        INVERSE_8B_14
    } else {
        INVERSE_8B_15
    }
}

const ALPHA_8B_0: u128 = 0xf0e0d0c0b0a090807060504030201000;
const ALPHA_8B_1: u128 = 0xb1a19181f1e1d1c13121110171615141;
const ALPHA_8B_2: u128 = 0x7262524232221202f2e2d2c2b2a29282;
const ALPHA_8B_3: u128 = 0x3323130373635343b3a39383f3e3d3c3;
const ALPHA_8B_4: u128 = 0x6474445424340414e4f4c4d4a4b48494;
const ALPHA_8B_5: u128 = 0x2535051565754555a5b58595e5f5c5d5;
const ALPHA_8B_6: u128 = 0xe6f6c6d6a6b686966676465626360616;
const ALPHA_8B_7: u128 = 0xa7b78797e7f7c7d72737071767774757;
const ALPHA_8B_8: u128 = 0x18083828584878689888b8a8d8c8f8e8;
const ALPHA_8B_9: u128 = 0x5949796919093929d9c9f9e99989b9a9;
const ALPHA_8B_10: u128 = 0x9a8abaaadacafaea1a0a3a2a5a4a7a6a;
const ALPHA_8B_11: u128 = 0xdbcbfbeb9b8bbbab5b4b7b6b1b0b3b2b;
const ALPHA_8B_12: u128 = 0x8c9cacbcccdcecfc0c1c2c3c4c5c6c7c;
const ALPHA_8B_13: u128 = 0xcdddedfd8d9dadbd4d5d6d7d0d1d2d3d;
const ALPHA_8B_14: u128 = 0x0e1e2e3e4e5e6e7e8e9eaebecedeeefe;
const ALPHA_8B_15: u128 = 0x4f5f6f7f0f1f2f3fcfdfefff8f9fafbf;

/// Word `i` of the table of products of bytes with the level-3 generator, sixteen bytes to a word, lowest byte first.
spec fn alpha_8b_word(i: u8) -> u128 {
    if i == 0 {
        ALPHA_8B_0
    } else if i == 1 {
        ALPHA_8B_1
    } else if i == 2 {
        ALPHA_8B_2
    } else if i == 3 {
        ALPHA_8B_3
    } else if i == 4 {
        ALPHA_8B_4
    } else if i == 5 {
        ALPHA_8B_5
    } else if i == 6 {
        ALPHA_8B_6
    } else if i == 7 {
        ALPHA_8B_7
    } else if i == 8 {
        ALPHA_8B_8
    } else if i == 9 {
        ALPHA_8B_9
    } else if i == 10 {
        ALPHA_8B_10
    } else if i == 11 {
        ALPHA_8B_11
    } else if i == 12 {
        ALPHA_8B_12
    } else if i == 13 {
        ALPHA_8B_13
    } else if i == 14 {
        ALPHA_8B_14
    } else {
        ALPHA_8B_15
    }
}

fn alpha_8b_word_exec(i: u8) -> (r: u128)
    requires
        i < 16,
    ensures
        r == alpha_8b_word(i),
{
    if i == 0 {
        ALPHA_8B_0
    } else if i == 1 {
        ALPHA_8B_1
    } else if i == 2 {
        ALPHA_8B_2
    } else if i == 3 {
        ALPHA_8B_3
    } else if i == 4 {
        ALPHA_8B_4
    } else if i == 5 {
        ALPHA_8B_5
    } else if i == 6 {
        ALPHA_8B_6
    } else if i == 7 {
        ALPHA_8B_7
    } else if i == 8 {
        ALPHA_8B_8
    } else if i == 9 {
        ALPHA_8B_9
    } else if i == 10 {
        ALPHA_8B_10
    } else if i == 11 {
        ALPHA_8B_11
    } else if i == 12 {
        ALPHA_8B_12
    } else if i == 13 {
        ALPHA_8B_13
    } else if i == 14 {
        ALPHA_8B_14
    } else {
        ALPHA_8B_15
    }
}

const SQUARE_8B_0: u128 = 0x0c0d0f0e050406070b0a080902030100;
const SQUARE_8B_1: u128 = 0x4d4c4e4f444547464a4b494843424041;
const SQUARE_8B_2: u128 = 0xcfcecccdc6c7c5c4c8c9cbcac1c0c2c3;
const SQUARE_8B_3: u128 = 0x8e8f8d8c8786848589888a8b80818382;
const SQUARE_8B_4: u128 = 0xa5a4a6a7acadafaea2a3a1a0abaaa8a9;
const SQUARE_8B_5: u128 = 0xe4e5e7e6edeceeefe3e2e0e1eaebe9e8;
const SQUARE_8B_6: u128 = 0x666765646f6e6c6d6160626368696b6a;
const SQUARE_8B_7: u128 = 0x272624252e2f2d2c2021232229282a2b;
const SQUARE_8B_8: u128 = 0x5b5a5859525351505c5d5f5e55545657;
const SQUARE_8B_9: u128 = 0x1a1b1918131210111d1c1e1f14151716;
const SQUARE_8B_10: u128 = 0x98999b9a919092939f9e9c9d96979594;
const SQUARE_8B_11: u128 = 0xd9d8dadbd0d1d3d2dedfdddcd7d6d4d5;
const SQUARE_8B_12: u128 = 0xf2f3f1f0fbfaf8f9f5f4f6f7fcfdfffe;
const SQUARE_8B_13: u128 = 0xb3b2b0b1babbb9b8b4b5b7b6bdbcbebf;
const SQUARE_8B_14: u128 = 0x3130323338393b3a363735343f3e3c3d;
const SQUARE_8B_15: u128 = 0x7071737279787a7b777674757e7f7d7c;

/// Word `i` of the table of squares of bytes, sixteen bytes to a word, lowest byte first.
spec fn square_8b_word(i: u8) -> u128 {
    if i == 0 {
        SQUARE_8B_0
    } else if i == 1 {
        SQUARE_8B_1
    } else if i == 2 {
        SQUARE_8B_2
    } else if i == 3 {
        SQUARE_8B_3
    } else if i == 4 {
        SQUARE_8B_4
    } else if i == 5 {
        SQUARE_8B_5
    } else if i == 6 {
        SQUARE_8B_6
    } else if i == 7 {
        SQUARE_8B_7
    } else if i == 8 {
        SQUARE_8B_8
    } else if i == 9 {
        SQUARE_8B_9
    } else if i == 10 {
        SQUARE_8B_10
    } else if i == 11 {
        SQUARE_8B_11
    } else if i == 12 {
        SQUARE_8B_12
    } else if i == 13 {
        SQUARE_8B_13
    } else if i == 14 {
        SQUARE_8B_14
    } else {
        SQUARE_8B_15
    }
}

fn square_8b_word_exec(i: u8) -> (r: u128)
    requires
        i < 16,
    ensures
        r == square_8b_word(i),
{
    if i == 0 {
        SQUARE_8B_0
    } else if i == 1 {
        SQUARE_8B_1
    } else if i == 2 {
        SQUARE_8B_2
    } else if i == 3 {
        SQUARE_8B_3
    } else if i == 4 {
        SQUARE_8B_4
    } else if i == 5 {
        SQUARE_8B_5
    } else if i == 6 {
        SQUARE_8B_6
    } else if i == 7 {
        SQUARE_8B_7
    } else if i == 8 {
        SQUARE_8B_8
    } else if i == 9 {
        SQUARE_8B_9
    } else if i == 10 {
        SQUARE_8B_10
    } else if i == 11 {
        SQUARE_8B_11
    } else if i == 12 {
        SQUARE_8B_12
    } else if i == 13 {
        SQUARE_8B_13
    } else if i == 14 {
        SQUARE_8B_14
    } else {
        SQUARE_8B_15
    }
}

/// The table products agree with the tower multiplication at level 2, and
/// the level-1 and level-2 generator products and squares are table products.
proof fn lemma_mul_4b_lookup(a: u8, b: u8, idx: u8, sh: u32, w: u128, r: u8)
    by (bit_vector)
    requires
        a < 16,
        b < 16,
        idx == (a << 4u8) | b,
        w == mul_4b_word(idx >> 5u8),
        sh == ((idx & 31u8) as u32) << 2u32,
        r == ((w >> sh) & 0x0f) as u8,
    ensures
        r as u128 == tower_mul(2, a as u128, b as u128),
        r < 16,
        (a < 4 && b < 4) ==> (r as u128 == tower_mul(1, a as u128, b as u128) && r < 4),
        b == 4 ==> r as u128 == tower_mul_alpha(2, a as u128),
        (a < 4 && b == 2) ==> r as u128 == tower_mul_alpha(1, a as u128),
        a == b ==> r as u128 == tower_square(2, a as u128),
        (a < 4 && a == b) ==> r as u128 == tower_square(1, a as u128),
{
}

/// Multiplies two 4-bit tower elements (level 2) through the packed product
/// table. Any bytes are accepted; the result is a product when both are
/// below 16.
pub fn mul_bin_4b(a: u8, b: u8) -> (r: u8)
    ensures
        r < 16,
        (a < 16 && b < 16) ==> r as u128 == tower_mul(2, a as u128, b as u128),
        (a < 4 && b < 4) ==> (r as u128 == tower_mul(1, a as u128, b as u128) && r < 4),
        (a < 16 && b == 4) ==> r as u128 == tower_mul_alpha(2, a as u128),
        (a < 4 && b == 2) ==> r as u128 == tower_mul_alpha(1, a as u128),
        (a < 16 && a == b) ==> r as u128 == tower_square(2, a as u128),
        (a < 4 && a == b) ==> r as u128 == tower_square(1, a as u128),
{
    let idx: u8 = (a << 4u8) | b;
    assert(idx >> 5u8 < 8) by (bit_vector);
    let w = mul_4b_word_exec(idx >> 5u8);
    let sh: u32 = ((idx & 31u8) as u32) << 2u32;
    assert(sh < 128) by (bit_vector)
        requires
            sh == ((idx & 31u8) as u32) << 2u32,
    ;
    let r = ((w >> sh) & 0x0f) as u8;
    assert(r < 16) by (bit_vector)
        requires
            r == ((w >> sh) & 0x0f) as u8,
    ;
    proof {
        if a < 16 && b < 16 {
            lemma_mul_4b_lookup(a, b, idx, sh, w, r);
        }
    }
    r
}

/// The generator-product and square tables agree with the tower at level 3.
proof fn lemma_alpha_square_8b_lookup(x: u8, sh: u32, wa: u128, ws: u128, ra: u8, rs: u8)
    by (bit_vector)
    requires
        wa == alpha_8b_word(x >> 4u8),
        ws == square_8b_word(x >> 4u8),
        sh == ((x & 15u8) as u32) << 3u32,
        ra == ((wa >> sh) & 0xff) as u8,
        rs == ((ws >> sh) & 0xff) as u8,
    ensures
        ra as u128 == tower_mul_alpha(3, x as u128),
        rs as u128 == tower_square(3, x as u128),
{
}

fn alpha_square_8b(x: u8) -> (r: (u8, u8))
    ensures
        r.0 as u128 == tower_mul_alpha(3, x as u128),
        r.1 as u128 == tower_square(3, x as u128),
{
    assert(x >> 4u8 < 16) by (bit_vector);
    let wa = alpha_8b_word_exec(x >> 4u8);
    let ws = square_8b_word_exec(x >> 4u8);
    let sh: u32 = ((x & 15u8) as u32) << 3u32;
    assert(sh < 128) by (bit_vector)
        requires
            sh == ((x & 15u8) as u32) << 3u32,
    ;
    let ra = ((wa >> sh) & 0xff) as u8;
    let rs = ((ws >> sh) & 0xff) as u8;
    proof {
        lemma_alpha_square_8b_lookup(x, sh, wa, ws, ra, rs);
    }
    (ra, rs)
}

} // verus!

verus! {

/// An element of GF(2), tower level 0.
#[derive(Clone, Copy, Debug, PartialEq, Eq, Structural)]
pub struct BinaryField1b(pub u8);

impl BinaryField1b {
    /// The element as a number.
    pub open spec fn value(self) -> u128 {
        self.0 as u128
    }

    /// The number is an element of tower level 0.
    pub open spec fn wf(self) -> bool {
        self.0 < 2
    }

    /// The element with bit pattern `v`.
    pub fn new(v: u8) -> (r: Self)
        requires
            v < 2,
        ensures
            r.value() == v as u128,
            r.wf(),
    {
        BinaryField1b(v)
    }

    /// The bit pattern of the element.
    pub fn val(self) -> (r: u8)
        ensures
            r as u128 == self.value(),
    {
        self.0
    }

    /// The additive identity.
    pub fn zero() -> (r: Self)
        ensures
            r.value() == 0,
            r.wf(),
    {
        BinaryField1b(0)
    }

    /// The multiplicative identity.
    pub fn one() -> (r: Self)
        ensures
            r.value() == 1,
            r.wf(),
    {
        BinaryField1b(1)
    }

    /// Field addition: bitwise exclusive or.
    pub fn add(self, rhs: Self) -> (r: Self)
        requires
            self.wf(),
            rhs.wf(),
        ensures
            r.value() == self.value() ^ rhs.value(),
            r.wf(),
    {
        let r = BinaryField1b(self.0 ^ rhs.0);
        assert(r.value() == self.value() ^ rhs.value());
        let (x, y) = (self.0, rhs.0);
        assert(x < 2 && y < 2 ==> (x ^ y) < 2) by (bit_vector);
        r
    }

    /// Multiplication at level 0: bitwise and.
    pub fn multiply(self, rhs: Self) -> (r: Self)
        requires
            self.wf(),
            rhs.wf(),
        ensures
            r.value() == tower_mul(0, self.value(), rhs.value()),
            r.wf(),
    {
        let (x, y) = (self.0, rhs.0);
        assert(x < 2 && y < 2 ==> (x & y) < 2) by (bit_vector);
        BinaryField1b(self.0 & rhs.0)
    }

    /// Multiplication by the level-0 generator, which is 1.
    pub fn multiply_alpha(self) -> (r: Self)
        requires
            self.wf(),
        ensures
            r.value() == tower_mul_alpha(0, self.value()),
            r.wf(),
    {
        self
    }

    /// Squaring, the identity at level 0.
    pub fn square(self) -> (r: Self)
        requires
            self.wf(),
        ensures
            r.value() == tower_square(0, self.value()),
            r.wf(),
    {
        self
    }

    /// Inversion at level 0: 1 is its own inverse, 0 has none.
    pub fn invert(self) -> (r: MaybeInverse<Self>)
        requires
            self.wf(),
        ensures
            r.value.value() == tower_inv(0, self.value()),
            r.is_some == tower_inv_some(0, self.value()),
            r.value.wf(),
    {
        MaybeInverse { value: self, is_some: ct_is_nonzero(self.0) }
    }
}

proof fn lemma_halves_level1(x: u8, a0: u8, a1: u8)
    by (bit_vector)
    ensures
        x < 4 ==> ((x & 1) as u8) as u128 == lo_half(1, x as u128),
        x < 4 ==> ((x >> 1u8) as u8) as u128 == hi_half(1, x as u128),
        x < 4 ==> ((x & 1) as u8) < 2,
        x < 4 ==> ((x >> 1u8) as u8) < 2,
        (a0 < 2 && a1 < 2) ==> ((a0 as u8) | ((a1 as u8) << 1u8)) as u128 == join_halves(
            1,
            a0 as u128,
            a1 as u128,
        ),
        (a0 < 2 && a1 < 2) ==> ((a0 as u8) | ((a1 as u8) << 1u8)) < 4,
{
}

/// An element of GF(4), tower level 1, in the low 2 bits.
#[derive(Clone, Copy, Debug, PartialEq, Eq, Structural)]
pub struct BinaryField2b(pub u8);

impl BinaryField2b {
    /// The element as a number.
    pub open spec fn value(self) -> u128 {
        self.0 as u128
    }

    /// The number is an element of tower level 1.
    pub open spec fn wf(self) -> bool {
        self.0 < 4
    }

    /// The element with bit pattern `v`.
    pub fn new(v: u8) -> (r: Self)
        requires
            v < 4,
        ensures
            r.value() == v as u128,
            r.wf(),
    {
        BinaryField2b(v)
    }

    /// The bit pattern of the element.
    pub fn val(self) -> (r: u8)
        ensures
            r as u128 == self.value(),
    {
        self.0
    }

    /// The additive identity.
    pub fn zero() -> (r: Self)
        ensures
            r.value() == 0,
            r.wf(),
    {
        BinaryField2b(0)
    }

    /// The multiplicative identity.
    pub fn one() -> (r: Self)
        ensures
            r.value() == 1,
            r.wf(),
    {
        BinaryField2b(1)
    }

    /// Field addition: bitwise exclusive or.
    pub fn add(self, rhs: Self) -> (r: Self)
        requires
            self.wf(),
            rhs.wf(),
        ensures
            r.value() == self.value() ^ rhs.value(),
            r.wf(),
    {
        let r = BinaryField2b(self.0 ^ rhs.0);
        assert(r.value() == self.value() ^ rhs.value());
        let (x, y) = (self.0, rhs.0);
        assert(x < 4 && y < 4 ==> (x ^ y) < 4) by (bit_vector);
        r
    }

    /// The low and high halves, elements of level 0.
    pub fn into_halves(self) -> (r: (BinaryField1b, BinaryField1b))
        requires
            self.wf(),
        ensures
            r.0.value() == lo_half(1, self.value()),
            r.1.value() == hi_half(1, self.value()),
            r.0.wf(),
            r.1.wf(),
    {
        proof {
            lemma_halves_level1(self.0, 0, 0);
        }
        (BinaryField1b((self.0 & 1) as u8), BinaryField1b((self.0 >> 1u8) as u8))
    }

    /// The element with low half `a0` and high half `a1`.
    pub fn from_halves(a0: BinaryField1b, a1: BinaryField1b) -> (r: Self)
        requires
            a0.wf(),
            a1.wf(),
        ensures
            r.value() == join_halves(1, a0.value(), a1.value()),
            r.wf(),
    {
        proof {
            lemma_halves_level1(0, a0.0, a1.0);
        }
        BinaryField2b((a0.0 as u8) | ((a1.0 as u8) << 1u8))
    }

    /// Multiplication through the packed 4-bit product table.
    pub fn multiply(self, rhs: Self) -> (r: Self)
        requires
            self.wf(),
            rhs.wf(),
        ensures
            r.value() == tower_mul(1, self.value(), rhs.value()),
            r.wf(),
    {
        BinaryField2b(mul_bin_4b(self.0, rhs.0))
    }

    /// Multiplication by the level-1 generator `0x02`.
    pub fn multiply_alpha(self) -> (r: Self)
        requires
            self.wf(),
        ensures
            r.value() == tower_mul_alpha(1, self.value()),
            r.wf(),
    {
        BinaryField2b(mul_bin_4b(self.0, 2))
    }

    /// Squaring, as the product of the element with itself.
    pub fn square(self) -> (r: Self)
        requires
            self.wf(),
        ensures
            r.value() == tower_square(1, self.value()),
            r.wf(),
    {
        BinaryField2b(mul_bin_4b(self.0, self.0))
    }

    /// Inversion through the 256-entry inverse table. It has a value
    /// exactly when the element is not 0.
    pub fn invert(self) -> (r: MaybeInverse<Self>)
        requires
            self.wf(),
        ensures
            r.value.value() == tower_inv(1, self.value()),
            r.is_some == tower_inv_some(1, self.value()),
            r.value.wf(),
    {
        let x = self.0;
        let v = inverse_8b(x);
        proof {
            assert(in_level(1, x as u128) && in_level(1, v as u128)) by (bit_vector)
                requires
                    x < 4,
                    v < 4,
            ;
            lemma_table_inverse(1, x, v);
        }
        MaybeInverse { value: BinaryField2b(v), is_some: ct_is_nonzero(self.0) }
    }
}

proof fn lemma_halves_level2(x: u8, a0: u8, a1: u8)
    by (bit_vector)
    ensures
        x < 16 ==> ((x & 3) as u8) as u128 == lo_half(2, x as u128),
        x < 16 ==> ((x >> 2u8) as u8) as u128 == hi_half(2, x as u128),
        x < 16 ==> ((x & 3) as u8) < 4,
        x < 16 ==> ((x >> 2u8) as u8) < 4,
        (a0 < 4 && a1 < 4) ==> ((a0 as u8) | ((a1 as u8) << 2u8)) as u128 == join_halves(
            2,
            a0 as u128,
            a1 as u128,
        ),
        (a0 < 4 && a1 < 4) ==> ((a0 as u8) | ((a1 as u8) << 2u8)) < 16,
{
}

/// An element of GF(16), tower level 2, in the low 4 bits.
#[derive(Clone, Copy, Debug, PartialEq, Eq, Structural)]
pub struct BinaryField4b(pub u8);

impl BinaryField4b {
    /// The element as a number.
    pub open spec fn value(self) -> u128 {
        self.0 as u128
    }

    /// The number is an element of tower level 2.
    pub open spec fn wf(self) -> bool {
        self.0 < 16
    }

    /// The element with bit pattern `v`.
    pub fn new(v: u8) -> (r: Self)
        requires
            v < 16,
        ensures
            r.value() == v as u128,
            r.wf(),
    {
        BinaryField4b(v)
    }

    /// The bit pattern of the element.
    pub fn val(self) -> (r: u8)
        ensures
            r as u128 == self.value(),
    {
        self.0
    }

    /// The additive identity.
    pub fn zero() -> (r: Self)
        ensures
            r.value() == 0,
            r.wf(),
    {
        BinaryField4b(0)
    }

    /// The multiplicative identity.
    pub fn one() -> (r: Self)
        ensures
            r.value() == 1,
            r.wf(),
    {
        BinaryField4b(1)
    }

    /// Field addition: bitwise exclusive or.
    pub fn add(self, rhs: Self) -> (r: Self)
        requires
            self.wf(),
            rhs.wf(),
        ensures
            r.value() == self.value() ^ rhs.value(),
            r.wf(),
    {
        let r = BinaryField4b(self.0 ^ rhs.0);
        assert(r.value() == self.value() ^ rhs.value());
        let (x, y) = (self.0, rhs.0);
        assert(x < 16 && y < 16 ==> (x ^ y) < 16) by (bit_vector);
        r
    }

    /// The low and high halves, elements of level 1.
    pub fn into_halves(self) -> (r: (BinaryField2b, BinaryField2b))
        requires
            self.wf(),
        ensures
            r.0.value() == lo_half(2, self.value()),
            r.1.value() == hi_half(2, self.value()),
            r.0.wf(),
            r.1.wf(),
    {
        proof {
            lemma_halves_level2(self.0, 0, 0);
        }
        (BinaryField2b((self.0 & 3) as u8), BinaryField2b((self.0 >> 2u8) as u8))
    }

    /// The element with low half `a0` and high half `a1`.
    pub fn from_halves(a0: BinaryField2b, a1: BinaryField2b) -> (r: Self)
        requires
            a0.wf(),
            a1.wf(),
        ensures
            r.value() == join_halves(2, a0.value(), a1.value()),
            r.wf(),
    {
        proof {
            lemma_halves_level2(0, a0.0, a1.0);
        }
        BinaryField4b((a0.0 as u8) | ((a1.0 as u8) << 2u8))
    }

    /// Multiplication through the packed 4-bit product table.
    pub fn multiply(self, rhs: Self) -> (r: Self)
        requires
            self.wf(),
            rhs.wf(),
        ensures
            r.value() == tower_mul(2, self.value(), rhs.value()),
            r.wf(),
    {
        BinaryField4b(mul_bin_4b(self.0, rhs.0))
    }

    /// Multiplication by the level-2 generator `0x04`.
    pub fn multiply_alpha(self) -> (r: Self)
        requires
            self.wf(),
        ensures
            r.value() == tower_mul_alpha(2, self.value()),
            r.wf(),
    {
        BinaryField4b(mul_bin_4b(self.0, 4))
    }

    /// Squaring, as the product of the element with itself.
    pub fn square(self) -> (r: Self)
        requires
            self.wf(),
        ensures
            r.value() == tower_square(2, self.value()),
            r.wf(),
    {
        BinaryField4b(mul_bin_4b(self.0, self.0))
    }

    /// Inversion through the 256-entry inverse table. It has a value
    /// exactly when the element is not 0.
    pub fn invert(self) -> (r: MaybeInverse<Self>)
        requires
            self.wf(),
        ensures
            r.value.value() == tower_inv(2, self.value()),
            r.is_some == tower_inv_some(2, self.value()),
            r.value.wf(),
    {
        let x = self.0;
        let v = inverse_8b(x);
        proof {
            assert(in_level(2, x as u128) && in_level(2, v as u128)) by (bit_vector)
                requires
                    x < 16,
                    v < 16,
            ;
            lemma_table_inverse(2, x, v);
        }
        MaybeInverse { value: BinaryField4b(v), is_some: ct_is_nonzero(self.0) }
    }
}

proof fn lemma_halves_level3(x: u8, a0: u8, a1: u8)
    by (bit_vector)
    ensures
        ((x & 15) as u8) as u128 == lo_half(4, x as u128),
        ((x >> 4u8) as u8) as u128 == hi_half(4, x as u128),
        ((x & 15) as u8) < 16,
        ((x >> 4u8) as u8) < 16,
        (a0 < 16 && a1 < 16) ==> ((a0 as u8) | ((a1 as u8) << 4u8)) as u128 == join_halves(
            4,
            a0 as u128,
            a1 as u128,
        ),
{
}

/// An element of GF(2^8), tower level 3.
#[derive(Clone, Copy, Debug, PartialEq, Eq, Structural)]
pub struct BinaryField8b(pub u8);

impl BinaryField8b {
    /// The element as a number.
    pub open spec fn value(self) -> u128 {
        self.0 as u128
    }

    /// The number is an element of tower level 3.
    pub open spec fn wf(self) -> bool {
        true
    }

    /// The element with bit pattern `v`.
    pub fn new(v: u8) -> (r: Self)
        ensures
            r.value() == v as u128,
            r.wf(),
    {
        BinaryField8b(v)
    }

    /// The bit pattern of the element.
    pub fn val(self) -> (r: u8)
        ensures
            r as u128 == self.value(),
    {
        self.0
    }

    /// The additive identity.
    pub fn zero() -> (r: Self)
        ensures
            r.value() == 0,
            r.wf(),
    {
        BinaryField8b(0)
    }

    /// The multiplicative identity.
    pub fn one() -> (r: Self)
        ensures
            r.value() == 1,
            r.wf(),
    {
        BinaryField8b(1)
    }

    /// Field addition: bitwise exclusive or.
    pub fn add(self, rhs: Self) -> (r: Self)
        requires
            self.wf(),
            rhs.wf(),
        ensures
            r.value() == self.value() ^ rhs.value(),
            r.wf(),
    {
        let r = BinaryField8b(self.0 ^ rhs.0);
        assert(r.value() == self.value() ^ rhs.value());
        r
    }

    /// The low and high halves, elements of level 2.
    pub fn into_halves(self) -> (r: (BinaryField4b, BinaryField4b))
        requires
            self.wf(),
        ensures
            r.0.value() == lo_half(4, self.value()),
            r.1.value() == hi_half(4, self.value()),
            r.0.wf(),
            r.1.wf(),
    {
        proof {
            lemma_halves_level3(self.0, 0, 0);
        }
        (BinaryField4b((self.0 & 15) as u8), BinaryField4b((self.0 >> 4u8) as u8))
    }

    /// The element with low half `a0` and high half `a1`.
    pub fn from_halves(a0: BinaryField4b, a1: BinaryField4b) -> (r: Self)
        requires
            a0.wf(),
            a1.wf(),
        ensures
            r.value() == join_halves(4, a0.value(), a1.value()),
            r.wf(),
    {
        proof {
            lemma_halves_level3(0, a0.0, a1.0);
        }
        BinaryField8b((a0.0 as u8) | ((a1.0 as u8) << 4u8))
    }

    /// Karatsuba multiplication over the halves.
    pub fn multiply(self, rhs: Self) -> (r: Self)
        requires
            self.wf(),
            rhs.wf(),
        ensures
            r.value() == tower_mul(3, self.value(), rhs.value()),
            r.wf(),
    {
        let (a0, a1) = self.into_halves();
        let (b0, b1) = rhs.into_halves();
        let z0 = a0.multiply(b0);
        let z2 = a1.multiply(b1);
        let z0z2 = z0.add(z2);
        let z1 = a0.add(a1).multiply(b0.add(b1)).add(z0z2);
        let z2a = z2.multiply_alpha();
        Self::from_halves(z0z2, z1.add(z2a))
    }

    /// Multiplication by the level-3 generator, through its byte table.
    pub fn multiply_alpha(self) -> (r: Self)
        requires
            self.wf(),
        ensures
            r.value() == tower_mul_alpha(3, self.value()),
            r.wf(),
    {
        BinaryField8b(alpha_square_8b(self.0).0)
    }

    /// Squaring, through its byte table.
    pub fn square(self) -> (r: Self)
        requires
            self.wf(),
        ensures
            r.value() == tower_square(3, self.value()),
            r.wf(),
    {
        BinaryField8b(alpha_square_8b(self.0).1)
    }

    /// Inversion through the 256-entry inverse table. It has a value
    /// exactly when the element is not 0.
    pub fn invert(self) -> (r: MaybeInverse<Self>)
        requires
            self.wf(),
        ensures
            r.value.value() == tower_inv(3, self.value()),
            r.is_some == tower_inv_some(3, self.value()),
            r.value.wf(),
    {
        let x = self.0;
        let v = inverse_8b(x);
        proof {
            assert(in_level(3, x as u128) && in_level(3, v as u128)) by (bit_vector)
                requires
                    true,
                    true,
            ;
            lemma_table_inverse(3, x, v);
        }
        MaybeInverse { value: BinaryField8b(v), is_some: ct_is_nonzero(self.0) }
    }
}

proof fn lemma_halves_level4(x: u16, a0: u8, a1: u8)
    by (bit_vector)
    ensures
        ((x & 0xff) as u8) as u128 == lo_half(8, x as u128),
        ((x >> 8u16) as u8) as u128 == hi_half(8, x as u128),
        ((a0 as u16) | ((a1 as u16) << 8u16)) as u128 == join_halves(
            8,
            a0 as u128,
            a1 as u128,
        ),
{
}

/// An element of GF(2^16), tower level 4.
#[derive(Clone, Copy, Debug, PartialEq, Eq, Structural)]
pub struct BinaryField16b(pub u16);

impl BinaryField16b {
    /// The element as a number.
    pub open spec fn value(self) -> u128 {
        self.0 as u128
    }

    /// The number is an element of tower level 4.
    pub open spec fn wf(self) -> bool {
        true
    }

    /// The element with bit pattern `v`.
    pub fn new(v: u16) -> (r: Self)
        ensures
            r.value() == v as u128,
            r.wf(),
    {
        BinaryField16b(v)
    }

    /// The bit pattern of the element.
    pub fn val(self) -> (r: u16)
        ensures
            r as u128 == self.value(),
    {
        self.0
    }

    /// The additive identity.
    pub fn zero() -> (r: Self)
        ensures
            r.value() == 0,
            r.wf(),
    {
        BinaryField16b(0)
    }

    /// The multiplicative identity.
    pub fn one() -> (r: Self)
        ensures
            r.value() == 1,
            r.wf(),
    {
        BinaryField16b(1)
    }

    /// Field addition: bitwise exclusive or.
    pub fn add(self, rhs: Self) -> (r: Self)
        requires
            self.wf(),
            rhs.wf(),
        ensures
            r.value() == self.value() ^ rhs.value(),
            r.wf(),
    {
        let r = BinaryField16b(self.0 ^ rhs.0);
        assert(r.value() == self.value() ^ rhs.value());
        r
    }

    /// The low and high halves, elements of level 3.
    pub fn into_halves(self) -> (r: (BinaryField8b, BinaryField8b))
        requires
            self.wf(),
        ensures
            r.0.value() == lo_half(8, self.value()),
            r.1.value() == hi_half(8, self.value()),
            r.0.wf(),
            r.1.wf(),
    {
        proof {
            lemma_halves_level4(self.0, 0, 0);
        }
        (BinaryField8b((self.0 & 0xff) as u8), BinaryField8b((self.0 >> 8u16) as u8))
    }

    /// The element with low half `a0` and high half `a1`.
    pub fn from_halves(a0: BinaryField8b, a1: BinaryField8b) -> (r: Self)
        requires
            a0.wf(),
            a1.wf(),
        ensures
            r.value() == join_halves(8, a0.value(), a1.value()),
            r.wf(),
    {
        proof {
            lemma_halves_level4(0, a0.0, a1.0);
        }
        BinaryField16b((a0.0 as u16) | ((a1.0 as u16) << 8u16))
    }

    /// Karatsuba multiplication over the halves.
    pub fn multiply(self, rhs: Self) -> (r: Self)
        requires
            self.wf(),
            rhs.wf(),
        ensures
            r.value() == tower_mul(4, self.value(), rhs.value()),
            r.wf(),
    {
        let (a0, a1) = self.into_halves();
        let (b0, b1) = rhs.into_halves();
        let z0 = a0.multiply(b0);
        let z2 = a1.multiply(b1);
        let z0z2 = z0.add(z2);
        let z1 = a0.add(a1).multiply(b0.add(b1)).add(z0z2);
        let z2a = z2.multiply_alpha();
        Self::from_halves(z0z2, z1.add(z2a))
    }

    /// Multiplication by the generator: `(a0, a1)` to `(a1, a0 + alpha a1)`.
    pub fn multiply_alpha(self) -> (r: Self)
        requires
            self.wf(),
        ensures
            r.value() == tower_mul_alpha(4, self.value()),
            r.wf(),
    {
        let (a0, a1) = self.into_halves();
        let z1 = a1.multiply_alpha();
        Self::from_halves(a1, a0.add(z1))
    }

    /// Squaring: `(a0^2 + a1^2, alpha a1^2)`.
    pub fn square(self) -> (r: Self)
        requires
            self.wf(),
        ensures
            r.value() == tower_square(4, self.value()),
            r.wf(),
    {
        let (a0, a1) = self.into_halves();
        let z0 = a0.square();
        let z2 = a1.square();
        let z2a = z2.multiply_alpha();
        Self::from_halves(z0.add(z2), z2a)
    }

    /// Inversion through the norm: with `u = a0 + alpha a1` and
    /// `d = 1 / (a0 u + a1^2)`, the inverse is `(d u, d a1)`. It has a value
    /// exactly when the norm has an inverse one level down.
    pub fn invert(self) -> (r: MaybeInverse<Self>)
        requires
            self.wf(),
        ensures
            r.value.value() == tower_inv(4, self.value()),
            r.is_some == tower_inv_some(4, self.value()),
            r.value.wf(),
    {
        let (a0, a1) = self.into_halves();
        let a0z1 = a0.add(a1.multiply_alpha());
        let delta = a0.multiply(a0z1).add(a1.square());
        let delta_inv = delta.invert();
        let inv0 = delta_inv.value.multiply(a0z1);
        let inv1 = delta_inv.value.multiply(a1);
        MaybeInverse { value: Self::from_halves(inv0, inv1), is_some: delta_inv.is_some }
    }
}

proof fn lemma_halves_level5(x: u32, a0: u16, a1: u16)
    by (bit_vector)
    ensures
        ((x & 0xffff) as u16) as u128 == lo_half(16, x as u128),
        ((x >> 16u32) as u16) as u128 == hi_half(16, x as u128),
        ((a0 as u32) | ((a1 as u32) << 16u32)) as u128 == join_halves(
            16,
            a0 as u128,
            a1 as u128,
        ),
{
}

/// An element of GF(2^32), tower level 5.
#[derive(Clone, Copy, Debug, PartialEq, Eq, Structural)]
pub struct BinaryField32b(pub u32);

impl BinaryField32b {
    /// The element as a number.
    pub open spec fn value(self) -> u128 {
        self.0 as u128
    }

    /// The number is an element of tower level 5.
    pub open spec fn wf(self) -> bool {
        true
    }

    /// The element with bit pattern `v`.
    pub fn new(v: u32) -> (r: Self)
        ensures
            r.value() == v as u128,
            r.wf(),
    {
        BinaryField32b(v)
    }

    /// The bit pattern of the element.
    pub fn val(self) -> (r: u32)
        ensures
            r as u128 == self.value(),
    {
        self.0
    }

    /// The additive identity.
    pub fn zero() -> (r: Self)
        ensures
            r.value() == 0,
            r.wf(),
    {
        BinaryField32b(0)
    }

    /// The multiplicative identity.
    pub fn one() -> (r: Self)
        ensures
            r.value() == 1,
            r.wf(),
    {
        BinaryField32b(1)
    }

    /// Field addition: bitwise exclusive or.
    pub fn add(self, rhs: Self) -> (r: Self)
        requires
            self.wf(),
            rhs.wf(),
        ensures
            r.value() == self.value() ^ rhs.value(),
            r.wf(),
    {
        let r = BinaryField32b(self.0 ^ rhs.0);
        assert(r.value() == self.value() ^ rhs.value());
        r
    }

    /// The low and high halves, elements of level 4.
    pub fn into_halves(self) -> (r: (BinaryField16b, BinaryField16b))
        requires
            self.wf(),
        ensures
            r.0.value() == lo_half(16, self.value()),
            r.1.value() == hi_half(16, self.value()),
            r.0.wf(),
            r.1.wf(),
    {
        proof {
            lemma_halves_level5(self.0, 0, 0);
        }
        (BinaryField16b((self.0 & 0xffff) as u16), BinaryField16b((self.0 >> 16u32) as u16))
    }

    /// The element with low half `a0` and high half `a1`.
    pub fn from_halves(a0: BinaryField16b, a1: BinaryField16b) -> (r: Self)
        requires
            a0.wf(),
            a1.wf(),
        ensures
            r.value() == join_halves(16, a0.value(), a1.value()),
            r.wf(),
    {
        proof {
            lemma_halves_level5(0, a0.0, a1.0);
        }
        BinaryField32b((a0.0 as u32) | ((a1.0 as u32) << 16u32))
    }

    /// Karatsuba multiplication over the halves.
    pub fn multiply(self, rhs: Self) -> (r: Self)
        requires
            self.wf(),
            rhs.wf(),
        ensures
            r.value() == tower_mul(5, self.value(), rhs.value()),
            r.wf(),
    {
        let (a0, a1) = self.into_halves();
        let (b0, b1) = rhs.into_halves();
        let z0 = a0.multiply(b0);
        let z2 = a1.multiply(b1);
        let z0z2 = z0.add(z2);
        let z1 = a0.add(a1).multiply(b0.add(b1)).add(z0z2);
        let z2a = z2.multiply_alpha();
        Self::from_halves(z0z2, z1.add(z2a))
    }

    /// Multiplication by the generator: `(a0, a1)` to `(a1, a0 + alpha a1)`.
    pub fn multiply_alpha(self) -> (r: Self)
        requires
            self.wf(),
        ensures
            r.value() == tower_mul_alpha(5, self.value()),
            r.wf(),
    {
        let (a0, a1) = self.into_halves();
        let z1 = a1.multiply_alpha();
        Self::from_halves(a1, a0.add(z1))
    }

    /// Squaring: `(a0^2 + a1^2, alpha a1^2)`.
    pub fn square(self) -> (r: Self)
        requires
            self.wf(),
        ensures
            r.value() == tower_square(5, self.value()),
            r.wf(),
    {
        let (a0, a1) = self.into_halves();
        let z0 = a0.square();
        let z2 = a1.square();
        let z2a = z2.multiply_alpha();
        Self::from_halves(z0.add(z2), z2a)
    }

    /// Inversion through the norm: with `u = a0 + alpha a1` and
    /// `d = 1 / (a0 u + a1^2)`, the inverse is `(d u, d a1)`. It has a value
    /// exactly when the norm has an inverse one level down.
    pub fn invert(self) -> (r: MaybeInverse<Self>)
        requires
            self.wf(),
        ensures
            r.value.value() == tower_inv(5, self.value()),
            r.is_some == tower_inv_some(5, self.value()),
            r.value.wf(),
    {
        let (a0, a1) = self.into_halves();
        let a0z1 = a0.add(a1.multiply_alpha());
        let delta = a0.multiply(a0z1).add(a1.square());
        let delta_inv = delta.invert();
        let inv0 = delta_inv.value.multiply(a0z1);
        let inv1 = delta_inv.value.multiply(a1);
        MaybeInverse { value: Self::from_halves(inv0, inv1), is_some: delta_inv.is_some }
    }
}

proof fn lemma_halves_level6(x: u64, a0: u32, a1: u32)
    by (bit_vector)
    ensures
        ((x & 0xffff_ffff) as u32) as u128 == lo_half(32, x as u128),
        ((x >> 32u64) as u32) as u128 == hi_half(32, x as u128),
        ((a0 as u64) | ((a1 as u64) << 32u64)) as u128 == join_halves(
            32,
            a0 as u128,
            a1 as u128,
        ),
{
}

/// An element of GF(2^64), tower level 6.
#[derive(Clone, Copy, Debug, PartialEq, Eq, Structural)]
pub struct BinaryField64b(pub u64);

impl BinaryField64b {
    /// The element as a number.
    pub open spec fn value(self) -> u128 {
        self.0 as u128
    }

    /// The number is an element of tower level 6.
    pub open spec fn wf(self) -> bool {
        true
    }

    /// The element with bit pattern `v`.
    pub fn new(v: u64) -> (r: Self)
        ensures
            r.value() == v as u128,
            r.wf(),
    {
        BinaryField64b(v)
    }

    /// The bit pattern of the element.
    pub fn val(self) -> (r: u64)
        ensures
            r as u128 == self.value(),
    {
        self.0
    }

    /// The additive identity.
    pub fn zero() -> (r: Self)
        ensures
            r.value() == 0,
            r.wf(),
    {
        BinaryField64b(0)
    }

    /// The multiplicative identity.
    pub fn one() -> (r: Self)
        ensures
            r.value() == 1,
            r.wf(),
    {
        BinaryField64b(1)
    }

    /// Field addition: bitwise exclusive or.
    pub fn add(self, rhs: Self) -> (r: Self)
        requires
            self.wf(),
            rhs.wf(),
        ensures
            r.value() == self.value() ^ rhs.value(),
            r.wf(),
    {
        let r = BinaryField64b(self.0 ^ rhs.0);
        assert(r.value() == self.value() ^ rhs.value());
        r
    }

    /// The low and high halves, elements of level 5.
    pub fn into_halves(self) -> (r: (BinaryField32b, BinaryField32b))
        requires
            self.wf(),
        ensures
            r.0.value() == lo_half(32, self.value()),
            r.1.value() == hi_half(32, self.value()),
            r.0.wf(),
            r.1.wf(),
    {
        proof {
            lemma_halves_level6(self.0, 0, 0);
        }
        (BinaryField32b((self.0 & 0xffff_ffff) as u32), BinaryField32b((self.0 >> 32u64) as u32))
    }

    /// The element with low half `a0` and high half `a1`.
    pub fn from_halves(a0: BinaryField32b, a1: BinaryField32b) -> (r: Self)
        requires
            a0.wf(),
            a1.wf(),
        ensures
            r.value() == join_halves(32, a0.value(), a1.value()),
            r.wf(),
    {
        proof {
            lemma_halves_level6(0, a0.0, a1.0);
        }
        BinaryField64b((a0.0 as u64) | ((a1.0 as u64) << 32u64))
    }

    /// Karatsuba multiplication over the halves.
    pub fn multiply(self, rhs: Self) -> (r: Self)
        requires
            self.wf(),
            rhs.wf(),
        ensures
            r.value() == tower_mul(6, self.value(), rhs.value()),
            r.wf(),
    {
        let (a0, a1) = self.into_halves();
        let (b0, b1) = rhs.into_halves();
        let z0 = a0.multiply(b0);
        let z2 = a1.multiply(b1);
        let z0z2 = z0.add(z2);
        let z1 = a0.add(a1).multiply(b0.add(b1)).add(z0z2);
        let z2a = z2.multiply_alpha();
        Self::from_halves(z0z2, z1.add(z2a))
    }

    /// Multiplication by the generator: `(a0, a1)` to `(a1, a0 + alpha a1)`.
    pub fn multiply_alpha(self) -> (r: Self)
        requires
            self.wf(),
        ensures
            r.value() == tower_mul_alpha(6, self.value()),
            r.wf(),
    {
        let (a0, a1) = self.into_halves();
        let z1 = a1.multiply_alpha();
        Self::from_halves(a1, a0.add(z1))
    }

    /// Squaring: `(a0^2 + a1^2, alpha a1^2)`.
    pub fn square(self) -> (r: Self)
        requires
            self.wf(),
        ensures
            r.value() == tower_square(6, self.value()),
            r.wf(),
    {
        let (a0, a1) = self.into_halves();
        let z0 = a0.square();
        let z2 = a1.square();
        let z2a = z2.multiply_alpha();
        Self::from_halves(z0.add(z2), z2a)
    }

    /// Inversion through the norm: with `u = a0 + alpha a1` and
    /// `d = 1 / (a0 u + a1^2)`, the inverse is `(d u, d a1)`. It has a value
    /// exactly when the norm has an inverse one level down.
    pub fn invert(self) -> (r: MaybeInverse<Self>)
        requires
            self.wf(),
        ensures
            r.value.value() == tower_inv(6, self.value()),
            r.is_some == tower_inv_some(6, self.value()),
            r.value.wf(),
    {
        let (a0, a1) = self.into_halves();
        let a0z1 = a0.add(a1.multiply_alpha());
        let delta = a0.multiply(a0z1).add(a1.square());
        let delta_inv = delta.invert();
        let inv0 = delta_inv.value.multiply(a0z1);
        let inv1 = delta_inv.value.multiply(a1);
        MaybeInverse { value: Self::from_halves(inv0, inv1), is_some: delta_inv.is_some }
    }
}

proof fn lemma_halves_level7(x: u128, a0: u64, a1: u64)
    by (bit_vector)
    ensures
        ((x & 0xffff_ffff_ffff_ffff) as u64) as u128 == lo_half(64, x as u128),
        ((x >> 64u128) as u64) as u128 == hi_half(64, x as u128),
        ((a0 as u128) | ((a1 as u128) << 64u128)) as u128 == join_halves(
            64,
            a0 as u128,
            a1 as u128,
        ),
{
}

/// An element of GF(2^128), tower level 7.
#[derive(Clone, Copy, Debug, PartialEq, Eq, Structural)]
pub struct BinaryField128b(pub u128);

impl BinaryField128b {
    /// The element as a number.
    pub open spec fn value(self) -> u128 {
        self.0 as u128
    }

    /// The number is an element of tower level 7.
    pub open spec fn wf(self) -> bool {
        true
    }

    /// The element with bit pattern `v`.
    pub fn new(v: u128) -> (r: Self)
        ensures
            r.value() == v as u128,
            r.wf(),
    {
        BinaryField128b(v)
    }

    /// The bit pattern of the element.
    pub fn val(self) -> (r: u128)
        ensures
            r as u128 == self.value(),
    {
        self.0
    }

    /// The additive identity.
    pub fn zero() -> (r: Self)
        ensures
            r.value() == 0,
            r.wf(),
    {
        BinaryField128b(0)
    }

    /// The multiplicative identity.
    pub fn one() -> (r: Self)
        ensures
            r.value() == 1,
            r.wf(),
    {
        BinaryField128b(1)
    }

    /// Field addition: bitwise exclusive or.
    pub fn add(self, rhs: Self) -> (r: Self)
        requires
            self.wf(),
            rhs.wf(),
        ensures
            r.value() == self.value() ^ rhs.value(),
            r.wf(),
    {
        let r = BinaryField128b(self.0 ^ rhs.0);
        assert(r.value() == self.value() ^ rhs.value());
        r
    }

    /// The low and high halves, elements of level 6.
    pub fn into_halves(self) -> (r: (BinaryField64b, BinaryField64b))
        requires
            self.wf(),
        ensures
            r.0.value() == lo_half(64, self.value()),
            r.1.value() == hi_half(64, self.value()),
            r.0.wf(),
            r.1.wf(),
    {
        proof {
            lemma_halves_level7(self.0, 0, 0);
        }
        (BinaryField64b((self.0 & 0xffff_ffff_ffff_ffff) as u64), BinaryField64b((self.0 >> 64u128) as u64))
    }

    /// The element with low half `a0` and high half `a1`.
    pub fn from_halves(a0: BinaryField64b, a1: BinaryField64b) -> (r: Self)
        requires
            a0.wf(),
            a1.wf(),
        ensures
            r.value() == join_halves(64, a0.value(), a1.value()),
            r.wf(),
    {
        proof {
            lemma_halves_level7(0, a0.0, a1.0);
        }
        BinaryField128b((a0.0 as u128) | ((a1.0 as u128) << 64u128))
    }

    /// Karatsuba multiplication over the halves.
    pub fn multiply(self, rhs: Self) -> (r: Self)
        requires
            self.wf(),
            rhs.wf(),
        ensures
            r.value() == tower_mul(7, self.value(), rhs.value()),
            r.wf(),
    {
        let (a0, a1) = self.into_halves();
        let (b0, b1) = rhs.into_halves();
        let z0 = a0.multiply(b0);
        let z2 = a1.multiply(b1);
        let z0z2 = z0.add(z2);
        let z1 = a0.add(a1).multiply(b0.add(b1)).add(z0z2);
        let z2a = z2.multiply_alpha();
        Self::from_halves(z0z2, z1.add(z2a))
    }

    /// Multiplication by the generator: `(a0, a1)` to `(a1, a0 + alpha a1)`.
    pub fn multiply_alpha(self) -> (r: Self)
        requires
            self.wf(),
        ensures
            r.value() == tower_mul_alpha(7, self.value()),
            r.wf(),
    {
        let (a0, a1) = self.into_halves();
        let z1 = a1.multiply_alpha();
        Self::from_halves(a1, a0.add(z1))
    }

    /// Squaring: `(a0^2 + a1^2, alpha a1^2)`.
    pub fn square(self) -> (r: Self)
        requires
            self.wf(),
        ensures
            r.value() == tower_square(7, self.value()),
            r.wf(),
    {
        let (a0, a1) = self.into_halves();
        let z0 = a0.square();
        let z2 = a1.square();
        let z2a = z2.multiply_alpha();
        Self::from_halves(z0.add(z2), z2a)
    }

    /// Inversion through the norm: with `u = a0 + alpha a1` and
    /// `d = 1 / (a0 u + a1^2)`, the inverse is `(d u, d a1)`. It has a value
    /// exactly when the norm has an inverse one level down.
    pub fn invert(self) -> (r: MaybeInverse<Self>)
        requires
            self.wf(),
        ensures
            r.value.value() == tower_inv(7, self.value()),
            r.is_some == tower_inv_some(7, self.value()),
            r.value.wf(),
    {
        let (a0, a1) = self.into_halves();
        let a0z1 = a0.add(a1.multiply_alpha());
        let delta = a0.multiply(a0z1).add(a1.square());
        let delta_inv = delta.invert();
        let inv0 = delta_inv.value.multiply(a0z1);
        let inv1 = delta_inv.value.multiply(a1);
        MaybeInverse { value: Self::from_halves(inv0, inv1), is_some: delta_inv.is_some }
    }
}


proof fn lemma_inverse_8b_products(x: u8, sh: u32, w: u128, r: u8)
    by (bit_vector)
    requires
        w == inverse_8b_word(x >> 4u8),
        sh == ((x & 15u8) as u32) << 3u32,
        r == ((w >> sh) & 0xff) as u8,
    ensures
        x != 0 ==> tower_mul(3, r as u128, x as u128) == 1,
        x == 0 ==> r == 0,
        x < 16 ==> r < 16,
        x < 4 ==> r < 4,
{
}


/// At levels 1 to 3 exactly the nonzero elements have an inverse.
pub proof fn law_nonzero_invertible_small(x: u8)
    by (bit_vector)
    ensures
        tower_inv_some(3, x as u128) == (x != 0),
        x < 16 ==> tower_inv_some(2, x as u128) == (x != 0),
        x < 4 ==> tower_inv_some(1, x as u128) == (x != 0),
{
}

/// Looks up the inverse of a byte in the inverse table (0 for 0).
fn inverse_8b(x: u8) -> (r: u8)
    ensures
        x != 0 ==> tower_mul(3, r as u128, x as u128) == 1,
        x == 0 ==> r == 0,
        x < 16 ==> r < 16,
        x < 4 ==> r < 4,
{
    assert(x >> 4u8 < 16) by (bit_vector);
    let w = inverse_8b_word_exec(x >> 4u8);
    let sh: u32 = ((x & 15u8) as u32) << 3u32;
    assert(sh < 128) by (bit_vector)
        requires
            sh == ((x & 15u8) as u32) << 3u32,
    ;
    let r = ((w >> sh) & 0xff) as u8;
    proof {
        lemma_inverse_8b_products(x, sh, w, r);
    }
    r
}

/// The inverse found in the table is the tower inverse at levels 1 to 3.
proof fn lemma_table_inverse(k: nat, x: u8, r: u8)
    requires
        1 <= k <= 3,
        in_level(k, x as u128),
        in_level(k, r as u128),
        x != 0 ==> tower_mul(3, r as u128, x as u128) == 1,
        x == 0 ==> r == 0,
    ensures
        r as u128 == tower_inv(k, x as u128),
        tower_inv_some(k, x as u128) == (x != 0),
{
    law_nonzero_invertible_small(x);
    let xv = x as u128;
    let rv = r as u128;
    assert((xv >> 2u128 == 0 ==> xv >> 4u128 == 0) && (rv >> 2u128 == 0 ==> rv >> 4u128 == 0) && (
    xv >> 2u128 == 0 ==> xv < 4) && (xv >> 4u128 == 0 ==> xv < 16)) by (bit_vector);
    if x == 0 {
        lemma_inv_zero(k);
    } else {
        law_inverse(k, x as u128);
        if k <= 2 {
            law_embedding(2, r as u128, x as u128);
        }
        if k == 1 {
            law_embedding(1, r as u128, x as u128);
        }
        law_inverse_unique(k, x as u128, r as u128, tower_inv(k, x as u128));
    }
}

proof fn lemma_small_inv_some(k: nat, a: u128)
    requires
        k <= 3,
        in_level(k, a),
    ensures
        tower_inv_some(k, a) == (a != 0),
{
    assert((a >> 8u128 == 0 || a >> 4u128 == 0 || a >> 2u128 == 0 || a >> 1u128 == 0) ==> (a < 256 && (
    a as u8) as u128 == a && (a >> 4u128 == 0 ==> (a as u8) < 16) && (a >> 2u128 == 0 ==> (a as u8)
        < 4))) by (bit_vector);
    law_nonzero_invertible_small(a as u8);
}

/// Inversion agrees with the embedding into levels up to 3: an element of
/// level `k` read at level `k + 1` as `(x, 0)` has an inverse exactly when it
/// has one at level `k`, and the same inverse.
pub proof fn law_embedding_inverse(k: nat, x: u8)
    requires
        k <= 2,
        in_level(k, x as u128),
    ensures
        tower_inv_some(k + 1, x as u128) == tower_inv_some(k, x as u128),
        tower_inv(k + 1, x as u128) == tower_inv(k, x as u128),
{
    let xv = x as u128;
    let s = bits_of(k);
    lemma_level_consts(k);
    lemma_units(k, xv);
    lemma_units(k, 0);
    lemma_level_join(k, xv, 0);
    lemma_embed_join(s, xv);
    lemma_level_split(k, xv);
    assert(lo_half(s, xv) == xv && hi_half(s, xv) == 0);
    lemma_xor_cancel(xv, 0);
    let sq = tower_mul(k, xv, xv);
    lemma_xor_cancel(sq, 0);
    lemma_mul_closed(k, xv, xv);
    assert(tower_norm(k + 1, xv) == sq);
    let d = tower_inv(k, sq);
    law_inverse(k, sq);
    law_inverse(k, xv);
    lemma_mul_closed(k, d, xv);
    lemma_small_inv_some(k, xv);
    lemma_small_inv_some(k, sq);
    lemma_units(k, d);
    assert(tower_mul_alpha(k, 0) == 0);
    assert(tower_inv(k + 1, xv) == join_halves(s, tower_mul(k, d, xv), tower_mul(k, d, 0)));
    lemma_embed_join(s, tower_mul(k, d, xv));
    if x == 0 {
        lemma_inv_zero(k);
        assert(sq == 0);
        assert(d == 0);
        lemma_units(k, 0);
        lemma_level_join(k, 0, 0);
        lemma_level_consts(k + 1);
    } else {
        assert(sq != 0) by {
            let y = tower_inv(k, xv);
            law_mul_associates(k, y, xv, xv);
            lemma_units(k, y);
            lemma_units(k, xv);
        }
        law_mul_associates(k, d, xv, xv);
        law_inverse_unique(k, xv, tower_mul(k, d, xv), tower_inv(k, xv));
        let v = tower_mul(k, d, xv);
        lemma_embed_join(s, v);
        lemma_mul_closed(k, d, 0);
    }
}

} // verus!
