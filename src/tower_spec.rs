//! The mathematical model of the binary tower fields.
//!
//! An element of level `k` (0 <= k <= 7) is a `u128` below `2^(2^k)`. A level
//! `k + 1` element is the pair `(a0, a1)` of its low and high halves, read as
//! `a0 + a1 * X` where `X^2 = alpha_k * X + 1`.
use vstd::prelude::*;

verus! {

/// Number of bits of an element of tower level `k`.
pub open spec fn bits_of(k: nat) -> u128 {
    if k == 0 {
        1
    } else if k == 1 {
        2
    } else if k == 2 {
        4
    } else if k == 3 {
        8
    } else if k == 4 {
        16
    } else if k == 5 {
        32
    } else if k == 6 {
        64
    } else {
        128
    }
}

/// `a` is an element of tower level `k`.
pub open spec fn in_level(k: nat, a: u128) -> bool {
    k <= 7 && a >> bits_of(k) == 0
}

/// `s` is the width of the halves of some level above 0.
pub open spec fn half_width(s: u128) -> bool {
    s == 1 || s == 2 || s == 4 || s == 8 || s == 16 || s == 32 || s == 64
}

/// The low `s` bits of `a`.
pub open spec fn lo_half(s: u128, a: u128) -> u128 {
    a & !(0xffff_ffff_ffff_ffff_ffff_ffff_ffff_ffffu128 << s)
}

/// The bits of `a` above the low `s`.
pub open spec fn hi_half(s: u128, a: u128) -> u128 {
    a >> s
}

/// The element whose low half is `a0` and whose high half is `a1`.
pub open spec fn join_halves(s: u128, a0: u128, a1: u128) -> u128 {
    a0 | (a1 << s)
}

/// The generator of tower level `k`: 1 at level 0, `X` (the pair `(0, 1)`) above.
pub open spec fn alpha(k: nat) -> u128 {
    if k == 0 {
        1
    } else {
        1u128 << bits_of((k - 1) as nat)
    }
}

/// Field addition at every level: bitwise exclusive or.
pub open spec fn tower_add(a: u128, b: u128) -> u128 {
    a ^ b
}

/// Multiplication by the generator at level `k`: the identity at level 0;
/// above, `(a0, a1)` goes to `(a1, a0 + alpha a1)`.
pub open spec fn tower_mul_alpha(k: nat, a: u128) -> u128
    decreases k,
{
    if k == 0 {
        a
    } else {
        let j = (k - 1) as nat;
        let s = bits_of(j);
        join_halves(s, hi_half(s, a), lo_half(s, a) ^ tower_mul_alpha(j, hi_half(s, a)))
    }
}

/// Field multiplication at level `k`: `a & b` at level 0; above, the
/// Karatsuba recurrence `z0 = a0 b0`, `z2 = a1 b1`,
/// `z1 = (a0 + a1)(b0 + b1) - (z0 + z2)`, product `(z0 + z2, z1 + alpha z2)`.
pub open spec fn tower_mul(k: nat, a: u128, b: u128) -> u128
    decreases k,
{
    if k == 0 {
        a & b
    } else {
        let j = (k - 1) as nat;
        let s = bits_of(j);
        let (a0, a1) = (lo_half(s, a), hi_half(s, a));
        let (b0, b1) = (lo_half(s, b), hi_half(s, b));
        let z0 = tower_mul(j, a0, b0);
        let z2 = tower_mul(j, a1, b1);
        let z1 = tower_mul(j, a0 ^ a1, b0 ^ b1) ^ (z0 ^ z2);
        join_halves(s, z0 ^ z2, z1 ^ tower_mul_alpha(j, z2))
    }
}

/// Squaring at level `k`: the identity at level 0; above,
/// `(a0^2 + a1^2, alpha a1^2)`.
pub open spec fn tower_square(k: nat, a: u128) -> u128
    decreases k,
{
    if k == 0 {
        a
    } else {
        let j = (k - 1) as nat;
        let s = bits_of(j);
        let z0 = tower_square(j, lo_half(s, a));
        let z2 = tower_square(j, hi_half(s, a));
        join_halves(s, z0 ^ z2, tower_mul_alpha(j, z2))
    }
}

/// The norm `a0 (a0 + alpha a1) + a1^2` of a level `k` element (`k >= 1`),
/// an element of level `k - 1`.
pub open spec fn tower_norm(k: nat, a: u128) -> u128 {
    let j = (k - 1) as nat;
    let s = bits_of(j);
    let (a0, a1) = (lo_half(s, a), hi_half(s, a));
    tower_mul(j, a0, a0 ^ tower_mul_alpha(j, a1)) ^ tower_square(j, a1)
}

/// Whether inversion at level `k` yields a value: at level 0 for 1 alone;
/// above, when the norm is invertible one level down.
pub open spec fn tower_inv_some(k: nat, a: u128) -> bool
    decreases k,
{
    if k == 0 {
        a != 0
    } else {
        tower_inv_some((k - 1) as nat, tower_norm(k, a))
    }
}

/// The value of inversion at level `k`: `a` at level 0; above, with
/// `u = a0 + alpha a1` and `d` the inverse of the norm, `(d u, d a1)`.
pub open spec fn tower_inv(k: nat, a: u128) -> u128
    decreases k,
{
    if k == 0 {
        a
    } else {
        let j = (k - 1) as nat;
        let s = bits_of(j);
        let (a0, a1) = (lo_half(s, a), hi_half(s, a));
        let d = tower_inv(j, tower_norm(k, a));
        join_halves(s, tower_mul(j, d, a0 ^ tower_mul_alpha(j, a1)), tower_mul(j, d, a1))
    }
}

/// The halves of a `2s`-bit value `a` are below `2^s` and make `a` again.
pub open spec fn split_facts(s: u128, a: u128) -> bool {
    a >> (s + s) == 0 ==> (lo_half(s, a) >> s == 0 && hi_half(s, a) >> s == 0 && join_halves(
        s,
        lo_half(s, a),
        hi_half(s, a),
    ) == a)
}

/// Two values below `2^s` make a `2s`-bit value whose halves they are.
pub open spec fn join_facts(s: u128, a0: u128, a1: u128) -> bool {
    (a0 >> s == 0 && a1 >> s == 0) ==> (join_halves(s, a0, a1) >> (s + s) == 0 && lo_half(
        s,
        join_halves(s, a0, a1),
    ) == a0 && hi_half(s, join_halves(s, a0, a1)) == a1)
}

/// The halves of 0, 1 and of the generator.
pub open spec fn const_facts(s: u128) -> bool {
    lo_half(s, 0) == 0 && hi_half(s, 0) == 0 && lo_half(s, 1) == 1 && hi_half(s, 1) == 0
        && join_halves(s, 0, 0) == 0 && join_halves(s, 1, 0) == 1 && join_halves(s, 0, 1) == 1u128
        << s && (1u128 << s) >> (s + s) == 0 && 0u128 >> s == 0 && 1u128 >> s == 0
}

/// Splitting commutes with exclusive or.
pub open spec fn xor_split_facts(s: u128, a: u128, b: u128) -> bool {
    lo_half(s, a ^ b) == lo_half(s, a) ^ lo_half(s, b) && hi_half(s, a ^ b) == hi_half(s, a)
        ^ hi_half(s, b)
}

/// Joining commutes with exclusive or.
pub open spec fn xor_join_facts(s: u128, c0: u128, c1: u128, d0: u128, d1: u128) -> bool {
    (c0 >> s == 0 && d0 >> s == 0) ==> join_halves(s, c0 ^ d0, c1 ^ d1) == join_halves(s, c0, c1)
        ^ join_halves(s, d0, d1)
}

proof fn lemma_xor_split_all(a: u128, b: u128)
    by (bit_vector)
    ensures
        xor_split_facts(1, a, b),
        xor_split_facts(2, a, b),
        xor_split_facts(4, a, b),
        xor_split_facts(8, a, b),
        xor_split_facts(16, a, b),
        xor_split_facts(32, a, b),
        xor_split_facts(64, a, b),
{
}

proof fn lemma_xor_join_all(c0: u128, c1: u128, d0: u128, d1: u128)
    by (bit_vector)
    ensures
        xor_join_facts(1, c0, c1, d0, d1),
        xor_join_facts(2, c0, c1, d0, d1),
        xor_join_facts(4, c0, c1, d0, d1),
        xor_join_facts(8, c0, c1, d0, d1),
        xor_join_facts(16, c0, c1, d0, d1),
        xor_join_facts(32, c0, c1, d0, d1),
        xor_join_facts(64, c0, c1, d0, d1),
{
}

/// Splitting a level `k + 1` element commutes with exclusive or.
pub proof fn lemma_level_xor_split(k: nat, a: u128, b: u128)
    requires
        k < 7,
    ensures
        xor_split_facts(bits_of(k), a, b),
{
    lemma_xor_split_all(a, b);
}

/// Joining halves of level `k` commutes with exclusive or.
pub proof fn lemma_level_xor_join(k: nat, c0: u128, c1: u128, d0: u128, d1: u128)
    requires
        k < 7,
        in_level(k, c0),
        in_level(k, d0),
    ensures
        join_halves(bits_of(k), c0 ^ d0, c1 ^ d1) == join_halves(bits_of(k), c0, c1) ^ join_halves(
            bits_of(k),
            d0,
            d1,
        ),
{
    lemma_xor_join_all(c0, c1, d0, d1);
}

proof fn lemma_split_all(a: u128)
    by (bit_vector)
    ensures
        split_facts(1, a),
        split_facts(2, a),
        split_facts(4, a),
        split_facts(8, a),
        split_facts(16, a),
        split_facts(32, a),
        split_facts(64, a),
{
}

proof fn lemma_join_all(a0: u128, a1: u128)
    by (bit_vector)
    ensures
        join_facts(1, a0, a1),
        join_facts(2, a0, a1),
        join_facts(4, a0, a1),
        join_facts(8, a0, a1),
        join_facts(16, a0, a1),
        join_facts(32, a0, a1),
        join_facts(64, a0, a1),
{
}

proof fn lemma_const_all()
    by (bit_vector)
    ensures
        const_facts(1),
        const_facts(2),
        const_facts(4),
        const_facts(8),
        const_facts(16),
        const_facts(32),
        const_facts(64),
{
}

/// Facts about the halves of a `2s`-bit value.
pub proof fn lemma_split(s: u128, a: u128)
    requires
        half_width(s),
    ensures
        split_facts(s, a),
{
    lemma_split_all(a);
}

/// Facts about the value built from two `s`-bit halves.
pub proof fn lemma_join(s: u128, a0: u128, a1: u128)
    requires
        half_width(s),
    ensures
        join_facts(s, a0, a1),
{
    lemma_join_all(a0, a1);
}

/// The halves of 0, 1 and of the generator.
pub proof fn lemma_halves_consts(s: u128)
    requires
        half_width(s),
    ensures
        const_facts(s),
{
    lemma_const_all();
}

/// The values below `2^s` are closed under exclusive or, for every `s`.
pub proof fn lemma_xor_bounded(s: u128, a: u128, b: u128)
    requires
        half_width(s) || s == 128,
        a >> s == 0,
        b >> s == 0,
    ensures
        (a ^ b) >> s == 0,
{
    assert(forall|s: u128|
        #![auto]
        (s == 1 || s == 2 || s == 4 || s == 8 || s == 16 || s == 32 || s == 64 || s == 128) ==> (
        a >> s == 0 && b >> s == 0 ==> (a ^ b) >> s == 0)) by (bit_vector);
}

/// The halves of a level `k + 1` element are elements of level `k`.
pub proof fn lemma_level_split(k: nat, a: u128)
    requires
        k < 7,
        in_level(k + 1, a),
    ensures
        in_level(k, lo_half(bits_of(k), a)),
        in_level(k, hi_half(bits_of(k), a)),
        join_halves(bits_of(k), lo_half(bits_of(k), a), hi_half(bits_of(k), a)) == a,
{
    lemma_split(bits_of(k), a);
}

/// Two elements of level `k` make one of level `k + 1`.
pub proof fn lemma_level_join(k: nat, a0: u128, a1: u128)
    requires
        k < 7,
        in_level(k, a0),
        in_level(k, a1),
    ensures
        in_level(k + 1, join_halves(bits_of(k), a0, a1)),
        lo_half(bits_of(k), join_halves(bits_of(k), a0, a1)) == a0,
        hi_half(bits_of(k), join_halves(bits_of(k), a0, a1)) == a1,
{
    lemma_join(bits_of(k), a0, a1);
}

/// 0, 1 and the generator are elements of every level; the halves of 0, 1
/// and of the generator.
pub proof fn lemma_level_consts(k: nat)
    requires
        k <= 7,
    ensures
        in_level(k, 0),
        in_level(k, 1),
        in_level(k, alpha(k)),
        k >= 1 ==> lo_half(bits_of((k - 1) as nat), 0) == 0 && hi_half(bits_of((k - 1) as nat), 0) == 0
            && lo_half(bits_of((k - 1) as nat), 1) == 1 && hi_half(bits_of((k - 1) as nat), 1) == 0
            && join_halves(bits_of((k - 1) as nat), 0, 0) == 0
            && join_halves(bits_of((k - 1) as nat), 1, 0) == 1
            && join_halves(bits_of((k - 1) as nat), 0, 1) == alpha(k),
{
    if k == 0 {
        assert(0u128 >> 1u128 == 0 && 1u128 >> 1u128 == 0) by (bit_vector);
    } else {
        let j = (k - 1) as nat;
        lemma_halves_consts(bits_of(j));
        let b = bits_of(k);
        assert(0u128 >> b == 0 && 1u128 >> b == 0) by (bit_vector)
            requires
                b >= 2,
        ;
    }
}

} // verus!

verus! {

/// The elements of a level are closed under addition.
pub proof fn lemma_xor_level(k: nat, a: u128, b: u128)
    requires
        in_level(k, a),
        in_level(k, b),
    ensures
        in_level(k, a ^ b),
{
    lemma_xor_bounded(bits_of(k), a, b);
}

} // verus!
