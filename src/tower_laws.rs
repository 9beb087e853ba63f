//! Laws of the tower fields, proved for every level by induction on the level.
use crate::tower_spec::{
    alpha, bits_of, hi_half, tower_inv, tower_inv_some, tower_norm, in_level, join_halves, lemma_level_consts, lemma_level_join,
    lemma_level_split, lemma_level_xor_join, lemma_level_xor_split, lemma_xor_level, lo_half, tower_add, tower_mul, tower_mul_alpha,
    tower_square,
};
use vstd::prelude::*;

verus! {

/// Exclusive or with 0 and with itself.
pub proof fn lemma_xor_cancel(x: u128, y: u128)
    by (bit_vector)
    ensures
        x ^ 0 == x,
        0 ^ x == x,
        x ^ x == 0,
        (x ^ y) ^ x == y,
        (x ^ y) ^ y == x,
        0u128 ^ 0u128 == 0,
        1u128 ^ 0u128 == 1,
        0u128 ^ 1u128 == 1,
{
}

proof fn lemma_level0_units(a: u128, b: u128)
    by (bit_vector)
    requires
        a >> 1u128 == 0,
        b >> 1u128 == 0,
    ensures
        (a & b) >> 1u128 == 0,
        a & 0 == 0,
        0 & a == 0,
        a & 1 == a,
        1 & a == a,
{
}

proof fn lemma_level0_laws(a: u128, b: u128, c: u128)
    by (bit_vector)
    ensures
        a & b == b & a,
        a & (b ^ c) == (a & b) ^ (a & c),
        (a & b) & c == a & (b & c),
        a & a == a,
{
}

/// Products and generator products of elements of level `k` are elements of level `k`.
pub proof fn lemma_mul_closed(k: nat, a: u128, b: u128)
    requires
        in_level(k, a),
        in_level(k, b),
    ensures
        in_level(k, tower_mul(k, a, b)),
        in_level(k, tower_mul_alpha(k, a)),
    decreases k,
{
    if k == 0 {
        lemma_level0_units(a, b);
    } else {
        let j = (k - 1) as nat;
        let s = bits_of(j);
        lemma_level_split(j, a);
        lemma_level_split(j, b);
        let (a0, a1, b0, b1) = (lo_half(s, a), hi_half(s, a), lo_half(s, b), hi_half(s, b));
        lemma_mul_closed(j, a0, b0);
        lemma_mul_closed(j, a1, b1);
        lemma_xor_level(j, a0, a1);
        lemma_xor_level(j, b0, b1);
        lemma_mul_closed(j, a0 ^ a1, b0 ^ b1);
        let z0 = tower_mul(j, a0, b0);
        let z2 = tower_mul(j, a1, b1);
        lemma_mul_closed(j, z2, z2);
        lemma_xor_level(j, z0, z2);
        let t = tower_mul(j, a0 ^ a1, b0 ^ b1);
        lemma_xor_level(j, t, z0 ^ z2);
        lemma_xor_level(j, t ^ (z0 ^ z2), tower_mul_alpha(j, z2));
        lemma_level_join(j, z0 ^ z2, (t ^ (z0 ^ z2)) ^ tower_mul_alpha(j, z2));
        lemma_mul_closed(j, a1, a1);
        lemma_xor_level(j, a0, tower_mul_alpha(j, a1));
        lemma_level_join(j, a1, a0 ^ tower_mul_alpha(j, a1));
    }
}

/// 0 absorbs and 1 is neutral on both sides; the generator times 0 is 0.
pub proof fn lemma_units(k: nat, a: u128)
    requires
        in_level(k, a),
    ensures
        tower_mul(k, a, 0) == 0,
        tower_mul(k, 0, a) == 0,
        tower_mul(k, a, 1) == a,
        tower_mul(k, 1, a) == a,
        tower_mul_alpha(k, 0) == 0,
        tower_square(k, 0) == 0,
    decreases k,
{
    lemma_level_consts(k);
    if k == 0 {
        lemma_level0_units(a, a);
    } else {
        let j = (k - 1) as nat;
        let s = bits_of(j);
        lemma_level_split(j, a);
        lemma_level_consts(j);
        let (a0, a1) = (lo_half(s, a), hi_half(s, a));
        lemma_xor_level(j, a0, a1);
        lemma_units(j, a0);
        lemma_units(j, a1);
        lemma_units(j, a0 ^ a1);
        lemma_xor_cancel(a0, a1);
        lemma_xor_cancel(a1, a0);
        lemma_xor_cancel(0, 0);
        assert(tower_mul(k, a, 0) == join_halves(s, 0, 0));
        assert(tower_mul(k, 0, a) == join_halves(s, 0, 0));
        assert(tower_mul(k, a, 1) == join_halves(s, a0, a1));
        assert(tower_mul(k, 1, a) == join_halves(s, a0, a1));
        assert(tower_mul_alpha(k, 0) == join_halves(s, 0, 0));
        assert(tower_square(k, 0) == join_halves(s, 0, 0));
    }
}

/// Adding an element to itself gives 0 (characteristic 2).
pub proof fn law_add_self(x: u128)
    ensures
        tower_add(x, x) == 0,
{
    lemma_xor_cancel(x, x);
}

/// `x * 1 = x` and `x * 0 = 0` at every level.
pub proof fn law_mul_one_zero(k: nat, x: u128)
    requires
        in_level(k, x),
    ensures
        tower_mul(k, x, 1) == x,
        tower_mul(k, x, 0) == 0,
{
    lemma_units(k, x);
}

/// Multiplying by the generator is the product with the generator constant
/// of the level: `multiply_alpha(x) = alpha_k * x`.
pub proof fn law_mul_alpha(k: nat, x: u128)
    requires
        in_level(k, x),
    ensures
        tower_mul_alpha(k, x) == tower_mul(k, alpha(k), x),
{
    lemma_level_consts(k);
    if k == 0 {
        lemma_level0_units(x, x);
    } else {
        let j = (k - 1) as nat;
        let s = bits_of(j);
        lemma_level_split(j, x);
        lemma_level_consts(j);
        let (x0, x1) = (lo_half(s, x), hi_half(s, x));
        lemma_level_split(j, alpha(k));
        lemma_level_join(j, 0, 1);
        lemma_xor_level(j, x0, x1);
        lemma_units(j, x0);
        lemma_units(j, x1);
        lemma_units(j, x0 ^ x1);
        lemma_xor_cancel(x0, x1);
        lemma_xor_cancel(0, 1);
        lemma_xor_cancel(x1, 0);
        assert(lo_half(s, alpha(k)) == 0);
        assert(hi_half(s, alpha(k)) == 1);
    }
}

/// An element of level `k` read at level `k + 1` as the pair `(x, 0)`:
/// products and squares agree with those of level `k`.
pub proof fn law_embedding(k: nat, x: u128, y: u128)
    requires
        k < 7,
        in_level(k, x),
        in_level(k, y),
    ensures
        tower_mul(k + 1, x, y) == tower_mul(k, x, y),
        tower_square(k + 1, x) == tower_square(k, x),
        join_halves(bits_of(k), x, 0) ^ join_halves(bits_of(k), y, 0) == join_halves(
            bits_of(k),
            x ^ y,
            0,
        ),
{
    let s = bits_of(k);
    lemma_level_consts(k);
    lemma_level_join(k, x, 0);
    lemma_level_join(k, y, 0);
    lemma_units(k, x);
    lemma_units(k, 0);
    lemma_mul_closed(k, x, y);
    lemma_xor_cancel(x, 0);
    lemma_xor_cancel(y, 0);
    lemma_xor_cancel(tower_mul(k, x, y), 0);
    lemma_xor_cancel(tower_square(k, x), 0);
    lemma_embed_join(s, x);
    lemma_embed_join(s, y);
    lemma_embed_join(s, x ^ y);
    lemma_level_split(k, x);
    lemma_level_split(k, y);
    assert(tower_mul(k + 1, x, y) == join_halves(s, tower_mul(k, x, y), 0));
    assert(tower_square(k + 1, x) == join_halves(s, tower_square(k, x), 0));
    lemma_embed_join(s, tower_mul(k, x, y));
    lemma_embed_join(s, tower_square(k, x));
}

/// Joining `x` with a zero high half gives `x`.
pub proof fn lemma_embed_join(s: u128, x: u128)
    by (bit_vector)
    ensures
        join_halves(s, x, 0) == x,
{
}

proof fn lemma_xor_swap(p: u128, q: u128, r: u128, t: u128)
    by (bit_vector)
    ensures
        (p ^ q) ^ (r ^ t) == (p ^ r) ^ (q ^ t),
{
}

/// Multiplying by the generator is additive, and stays in the level.
pub proof fn lemma_mul_alpha_additive(k: nat, a: u128, b: u128)
    requires
        in_level(k, a),
        in_level(k, b),
    ensures
        tower_mul_alpha(k, a ^ b) == tower_mul_alpha(k, a) ^ tower_mul_alpha(k, b),
        in_level(k, tower_mul_alpha(k, a)),
    decreases k,
{
    lemma_mul_closed(k, a, a);
    if k > 0 {
        let j = (k - 1) as nat;
        let s = bits_of(j);
        lemma_level_split(j, a);
        lemma_level_split(j, b);
        lemma_level_xor_split(j, a, b);
        let (a0, a1, b0, b1) = (lo_half(s, a), hi_half(s, a), lo_half(s, b), hi_half(s, b));
        lemma_mul_alpha_additive(j, a1, b1);
        lemma_mul_alpha_additive(j, b1, b1);
        let (ma, mb) = (tower_mul_alpha(j, a1), tower_mul_alpha(j, b1));
        lemma_xor_swap(a0, b0, ma, mb);
        lemma_level_xor_join(j, a1, a0 ^ ma, b1, b0 ^ mb);
    }
}

/// Squaring is additive, `(a + b)^2 = a^2 + b^2`, and stays in the level.
pub proof fn lemma_square_additive(k: nat, a: u128, b: u128)
    requires
        in_level(k, a),
        in_level(k, b),
    ensures
        tower_square(k, a ^ b) == tower_square(k, a) ^ tower_square(k, b),
        in_level(k, tower_square(k, a)),
    decreases k,
{
    if k > 0 {
        let j = (k - 1) as nat;
        let s = bits_of(j);
        lemma_level_split(j, a);
        lemma_level_split(j, b);
        lemma_level_xor_split(j, a, b);
        let (a0, a1, b0, b1) = (lo_half(s, a), hi_half(s, a), lo_half(s, b), hi_half(s, b));
        lemma_square_additive(j, a0, b0);
        lemma_square_additive(j, a1, b1);
        lemma_square_additive(j, b0, b0);
        lemma_square_additive(j, b1, b1);
        let (p0, p1, q0, q1) = (
            tower_square(j, a0),
            tower_square(j, a1),
            tower_square(j, b0),
            tower_square(j, b1),
        );
        lemma_mul_alpha_additive(j, p1, q1);
        lemma_mul_alpha_additive(j, q1, q1);
        lemma_xor_swap(p0, q0, p1, q1);
        lemma_xor_level(j, p0, p1);
        lemma_xor_level(j, q0, q1);
        lemma_level_xor_join(j, p0 ^ p1, tower_mul_alpha(j, p1), q0 ^ q1, tower_mul_alpha(j, q1));
        lemma_level_join(j, p0 ^ p1, tower_mul_alpha(j, p1));
    } else {
        lemma_level0_units(a, b);
    }
}

/// Squaring is the product of an element with itself, at every level.
pub proof fn law_square_is_product(k: nat, x: u128)
    requires
        in_level(k, x),
    ensures
        tower_square(k, x) == tower_mul(k, x, x),
    decreases k,
{
    if k == 0 {
        lemma_level0_laws(x, x, 0);
    } else {
        let j = (k - 1) as nat;
        let s = bits_of(j);
        lemma_level_split(j, x);
        let (x0, x1) = (lo_half(s, x), hi_half(s, x));
        lemma_xor_level(j, x0, x1);
        law_square_is_product(j, x0);
        law_square_is_product(j, x1);
        law_square_is_product(j, x0 ^ x1);
        lemma_square_additive(j, x0, x1);
        let z = tower_square(j, x0) ^ tower_square(j, x1);
        lemma_xor_cancel(z, 0);
        let m = tower_mul_alpha(j, tower_square(j, x1));
        lemma_xor_cancel(m, 0);
        assert(tower_mul(j, x0 ^ x1, x0 ^ x1) == z);
        assert(tower_mul(j, x0, x0) ^ tower_mul(j, x1, x1) == z);
        assert((z ^ z) ^ m == m);
        assert(tower_mul(k, x, x) == join_halves(s, z, (tower_mul(j, x0 ^ x1, x0 ^ x1) ^ z) ^ m));
        assert(tower_square(k, x) == join_halves(s, z, m));
    }
}

/// Multiplication is commutative, at every level.
pub proof fn law_mul_commutes(k: nat, a: u128, b: u128)
    requires
        in_level(k, a),
        in_level(k, b),
    ensures
        tower_mul(k, a, b) == tower_mul(k, b, a),
    decreases k,
{
    if k == 0 {
        lemma_level0_laws(a, b, 0);
    } else {
        let j = (k - 1) as nat;
        let s = bits_of(j);
        lemma_level_split(j, a);
        lemma_level_split(j, b);
        let (a0, a1, b0, b1) = (lo_half(s, a), hi_half(s, a), lo_half(s, b), hi_half(s, b));
        lemma_xor_level(j, a0, a1);
        lemma_xor_level(j, b0, b1);
        law_mul_commutes(j, a0, b0);
        law_mul_commutes(j, a1, b1);
        law_mul_commutes(j, a0 ^ a1, b0 ^ b1);
    }
}

/// Multiplication distributes over addition, at every level:
/// `a (b + c) = a b + a c`.
pub proof fn law_mul_distributes(k: nat, a: u128, b: u128, c: u128)
    requires
        in_level(k, a),
        in_level(k, b),
        in_level(k, c),
    ensures
        tower_mul(k, a, b ^ c) == tower_mul(k, a, b) ^ tower_mul(k, a, c),
    decreases k,
{
    if k == 0 {
        lemma_level0_laws(a, b, c);
    } else {
        let j = (k - 1) as nat;
        let s = bits_of(j);
        lemma_level_split(j, a);
        lemma_level_split(j, b);
        lemma_level_split(j, c);
        lemma_level_xor_split(j, b, c);
        let (a0, a1) = (lo_half(s, a), hi_half(s, a));
        let (b0, b1, c0, c1) = (lo_half(s, b), hi_half(s, b), lo_half(s, c), hi_half(s, c));
        lemma_xor_level(j, a0, a1);
        lemma_xor_level(j, b0, b1);
        lemma_xor_level(j, c0, c1);
        law_mul_distributes(j, a0, b0, c0);
        law_mul_distributes(j, a1, b1, c1);
        law_mul_distributes(j, a0 ^ a1, b0 ^ b1, c0 ^ c1);
        lemma_xor_swap(b0, c0, b1, c1);
        let (zb0, zc0) = (tower_mul(j, a0, b0), tower_mul(j, a0, c0));
        let (zb2, zc2) = (tower_mul(j, a1, b1), tower_mul(j, a1, c1));
        let (tb, tc) = (tower_mul(j, a0 ^ a1, b0 ^ b1), tower_mul(j, a0 ^ a1, c0 ^ c1));
        lemma_mul_closed(j, a0, b0);
        lemma_mul_closed(j, a0, c0);
        lemma_mul_closed(j, a1, b1);
        lemma_mul_closed(j, a1, c1);
        lemma_mul_alpha_additive(j, zb2, zc2);
        let (mb, mc) = (tower_mul_alpha(j, zb2), tower_mul_alpha(j, zc2));
        lemma_xor_swap(zb0, zc0, zb2, zc2);
        assert(((tb ^ tc) ^ ((zb0 ^ zb2) ^ (zc0 ^ zc2))) ^ (mb ^ mc) == ((tb ^ (zb0 ^ zb2)) ^ mb)
            ^ ((tc ^ (zc0 ^ zc2)) ^ mc)) by (bit_vector);
        lemma_xor_level(j, zb0, zb2);
        lemma_xor_level(j, zc0, zc2);
        lemma_level_xor_join(j, zb0 ^ zb2, (tb ^ (zb0 ^ zb2)) ^ mb, zc0 ^ zc2, (tc ^ (zc0 ^ zc2)) ^ mc);
    }
}

/// The Karatsuba product is the schoolbook product
/// `(a0 b0 + a1 b1, a0 b1 + a1 b0 + alpha a1 b1)`.
proof fn lemma_schoolbook(k: nat, a: u128, b: u128)
    requires
        1 <= k <= 7,
        in_level(k, a),
        in_level(k, b),
    ensures
        tower_mul(k, a, b) == join_halves(
            bits_of((k - 1) as nat),
            tower_mul((k - 1) as nat, lo_half(bits_of((k - 1) as nat), a), lo_half(bits_of((k - 1) as nat), b))
                ^ tower_mul((k - 1) as nat, hi_half(bits_of((k - 1) as nat), a), hi_half(bits_of((k - 1) as nat), b)),
            (tower_mul((k - 1) as nat, lo_half(bits_of((k - 1) as nat), a), hi_half(bits_of((k - 1) as nat), b))
                ^ tower_mul((k - 1) as nat, hi_half(bits_of((k - 1) as nat), a), lo_half(bits_of((k - 1) as nat), b)))
                ^ tower_mul_alpha(
                (k - 1) as nat,
                tower_mul((k - 1) as nat, hi_half(bits_of((k - 1) as nat), a), hi_half(bits_of((k - 1) as nat), b)),
            ),
        ),
{
    let j = (k - 1) as nat;
    let s = bits_of(j);
    lemma_level_split(j, a);
    lemma_level_split(j, b);
    let (a0, a1, b0, b1) = (lo_half(s, a), hi_half(s, a), lo_half(s, b), hi_half(s, b));
    lemma_xor_level(j, a0, a1);
    law_mul_distributes(j, a0 ^ a1, b0, b1);
    law_mul_commutes(j, a0 ^ a1, b0);
    law_mul_commutes(j, a0 ^ a1, b1);
    law_mul_distributes(j, b0, a0, a1);
    law_mul_distributes(j, b1, a0, a1);
    law_mul_commutes(j, b0, a0);
    law_mul_commutes(j, b0, a1);
    law_mul_commutes(j, b1, a0);
    law_mul_commutes(j, b1, a1);
    let (m00, m01, m10, m11) = (
        tower_mul(j, a0, b0),
        tower_mul(j, a0, b1),
        tower_mul(j, a1, b0),
        tower_mul(j, a1, b1),
    );
    assert(tower_mul(j, a0 ^ a1, b0 ^ b1) == (m00 ^ m10) ^ (m01 ^ m11));
    assert(((m00 ^ m10) ^ (m01 ^ m11)) ^ (m00 ^ m11) == m01 ^ m10) by (bit_vector);
}

/// `(x + y) z = x z + y z`.
proof fn lemma_mul_xor_left(k: nat, x: u128, y: u128, z: u128)
    requires
        in_level(k, x),
        in_level(k, y),
        in_level(k, z),
    ensures
        tower_mul(k, x ^ y, z) == tower_mul(k, x, z) ^ tower_mul(k, y, z),
{
    lemma_xor_level(k, x, y);
    law_mul_commutes(k, x ^ y, z);
    law_mul_distributes(k, z, x, y);
    law_mul_commutes(k, z, x);
    law_mul_commutes(k, z, y);
}

/// Multiplication is associative, at every level.
pub proof fn law_mul_associates(k: nat, a: u128, b: u128, c: u128)
    requires
        in_level(k, a),
        in_level(k, b),
        in_level(k, c),
    ensures
        tower_mul(k, tower_mul(k, a, b), c) == tower_mul(k, a, tower_mul(k, b, c)),
    decreases k, 2nat,
{
    if k == 0 {
        lemma_level0_laws(a, b, c);
    } else {
        lemma_assoc_step(k, a, b, c);
    }
}

/// `alpha (x y) = (alpha x) y = x (alpha y)` at level `j`.
proof fn lemma_alpha_moves(j: nat, x: u128, y: u128)
    requires
        j < 7,
        in_level(j, x),
        in_level(j, y),
    ensures
        tower_mul_alpha(j, tower_mul(j, x, y)) == tower_mul(j, tower_mul_alpha(j, x), y),
        tower_mul_alpha(j, tower_mul(j, x, y)) == tower_mul(j, x, tower_mul_alpha(j, y)),
    decreases j, 3nat,
{
    lemma_level_consts(j);
    lemma_mul_closed(j, x, y);
    lemma_mul_closed(j, y, y);
    lemma_mul_closed(j, x, x);
    law_mul_alpha(j, x);
    law_mul_alpha(j, y);
    law_mul_alpha(j, tower_mul(j, x, y));
    law_mul_associates(j, alpha(j), x, y);
    law_mul_commutes(j, x, tower_mul_alpha(j, y));
    law_mul_associates(j, alpha(j), y, x);
    law_mul_commutes(j, y, x);
}

proof fn lemma_assoc_step(k: nat, a: u128, b: u128, c: u128)
    requires
        1 <= k <= 7,
        in_level(k, a),
        in_level(k, b),
        in_level(k, c),
    ensures
        tower_mul(k, tower_mul(k, a, b), c) == tower_mul(k, a, tower_mul(k, b, c)),
    decreases k, 1nat,
{
    let j = (k - 1) as nat;
    let s = bits_of(j);
    lemma_level_split(j, a);
    lemma_level_split(j, b);
    lemma_level_split(j, c);
    let (a0, a1, b0, b1, c0, c1) = (
        lo_half(s, a),
        hi_half(s, a),
        lo_half(s, b),
        hi_half(s, b),
        lo_half(s, c),
        hi_half(s, c),
    );
    // a b
    lemma_mul_closed(j, a0, b0);
    lemma_mul_closed(j, a0, b1);
    lemma_mul_closed(j, a1, b0);
    lemma_mul_closed(j, a1, b1);
    let (m00, m01, m10, m11) = (
        tower_mul(j, a0, b0),
        tower_mul(j, a0, b1),
        tower_mul(j, a1, b0),
        tower_mul(j, a1, b1),
    );
    lemma_mul_closed(j, m11, m11);
    let am11 = tower_mul_alpha(j, m11);
    let p0 = m00 ^ m11;
    let p1 = (m01 ^ m10) ^ am11;
    lemma_xor_level(j, m00, m11);
    lemma_xor_level(j, m01, m10);
    lemma_xor_level(j, m01 ^ m10, am11);
    lemma_schoolbook(k, a, b);
    lemma_level_join(j, p0, p1);
    // b c
    lemma_mul_closed(j, b0, c0);
    lemma_mul_closed(j, b0, c1);
    lemma_mul_closed(j, b1, c0);
    lemma_mul_closed(j, b1, c1);
    let (n00, n01, n10, n11) = (
        tower_mul(j, b0, c0),
        tower_mul(j, b0, c1),
        tower_mul(j, b1, c0),
        tower_mul(j, b1, c1),
    );
    lemma_mul_closed(j, n11, n11);
    let an11 = tower_mul_alpha(j, n11);
    let q0 = n00 ^ n11;
    let q1 = (n01 ^ n10) ^ an11;
    lemma_xor_level(j, n00, n11);
    lemma_xor_level(j, n01, n10);
    lemma_xor_level(j, n01 ^ n10, an11);
    lemma_schoolbook(k, b, c);
    lemma_level_join(j, q0, q1);
    // monomials
    let t000 = tower_mul(j, a0, n00);
    let t001 = tower_mul(j, a0, n01);
    let t010 = tower_mul(j, a0, n10);
    let t011 = tower_mul(j, a0, n11);
    let t100 = tower_mul(j, a1, n00);
    let t101 = tower_mul(j, a1, n01);
    let t110 = tower_mul(j, a1, n10);
    let t111 = tower_mul(j, a1, n11);
    law_mul_associates(j, a0, b0, c0);
    law_mul_associates(j, a0, b0, c1);
    law_mul_associates(j, a0, b1, c0);
    law_mul_associates(j, a0, b1, c1);
    law_mul_associates(j, a1, b0, c0);
    law_mul_associates(j, a1, b0, c1);
    law_mul_associates(j, a1, b1, c0);
    law_mul_associates(j, a1, b1, c1);
    lemma_mul_closed(j, a0, n01);
    lemma_mul_closed(j, a0, n11);
    lemma_mul_closed(j, a1, n01);
    lemma_mul_closed(j, a1, n10);
    lemma_mul_closed(j, a1, n11);
    lemma_mul_closed(j, t111, t111);
    let at011 = tower_mul_alpha(j, t011);
    let at101 = tower_mul_alpha(j, t101);
    let at110 = tower_mul_alpha(j, t110);
    let at111 = tower_mul_alpha(j, t111);
    let aat111 = tower_mul_alpha(j, at111);
    // left side: (a b) c
    lemma_mul_xor_left(j, m00, m11, c0);
    lemma_mul_xor_left(j, m00, m11, c1);
    lemma_mul_xor_left(j, m01 ^ m10, am11, c0);
    lemma_mul_xor_left(j, m01 ^ m10, am11, c1);
    lemma_mul_xor_left(j, m01, m10, c0);
    lemma_mul_xor_left(j, m01, m10, c1);
    lemma_alpha_moves(j, m11, c0);
    lemma_alpha_moves(j, m11, c1);
    let l_p1c1 = (t011 ^ t101) ^ at111;
    assert(tower_mul(j, p1, c1) == l_p1c1);
    assert(tower_mul(j, p1, c0) == (t010 ^ t100) ^ at110);
    assert(tower_mul(j, p0, c0) == t000 ^ t110);
    assert(tower_mul(j, p0, c1) == t001 ^ t111);
    lemma_mul_closed(j, a0, n11);
    lemma_xor_level(j, t011, t101);
    lemma_mul_closed(j, t011, t011);
    lemma_mul_closed(j, t101, t101);
    lemma_mul_alpha_additive(j, t011 ^ t101, at111);
    lemma_mul_alpha_additive(j, t011, t101);
    lemma_xor_level(j, m00, m11);
    lemma_xor_level(j, (m01 ^ m10), am11);
    lemma_schoolbook(k, join_halves(s, p0, p1), c);
    let lx = (t000 ^ t110) ^ l_p1c1;
    let ly = ((t001 ^ t111) ^ ((t010 ^ t100) ^ at110)) ^ ((at011 ^ at101) ^ aat111);
    assert(tower_mul(k, tower_mul(k, a, b), c) == join_halves(s, lx, ly));
    // right side: a (b c)
    law_mul_distributes(j, a0, n00, n11);
    law_mul_distributes(j, a1, n00, n11);
    lemma_xor_level(j, n01, n10);
    law_mul_distributes(j, a0, n01 ^ n10, an11);
    law_mul_distributes(j, a1, n01 ^ n10, an11);
    law_mul_distributes(j, a0, n01, n10);
    law_mul_distributes(j, a1, n01, n10);
    lemma_alpha_moves(j, a0, n11);
    lemma_alpha_moves(j, a1, n11);
    let r_a1q1 = (t101 ^ t110) ^ at111;
    assert(tower_mul(j, a1, q1) == r_a1q1);
    let r_a0q1 = (t001 ^ t010) ^ at011;
    assert(tower_mul(j, a0, q1) == r_a0q1);
    lemma_mul_closed(j, t110, t110);
    lemma_xor_level(j, t101, t110);
    lemma_mul_alpha_additive(j, t101 ^ t110, at111);
    lemma_mul_alpha_additive(j, t101, t110);
    lemma_schoolbook(k, a, join_halves(s, q0, q1));
    let rx = (t000 ^ t011) ^ r_a1q1;
    let ry = (r_a0q1 ^ (t100 ^ t111)) ^ ((at101 ^ at110) ^ aat111);
    assert(tower_mul(k, a, tower_mul(k, b, c)) == join_halves(s, rx, ry));
    assert(lx == rx) by (bit_vector)
        requires
            lx == (t000 ^ t110) ^ ((t011 ^ t101) ^ at111),
            rx == (t000 ^ t011) ^ ((t101 ^ t110) ^ at111),
    ;
    assert(ly == ry) by (bit_vector)
        requires
            ly == ((t001 ^ t111) ^ ((t010 ^ t100) ^ at110)) ^ ((at011 ^ at101) ^ aat111),
            ry == (((t001 ^ t010) ^ at011) ^ (t100 ^ t111)) ^ ((at101 ^ at110) ^ aat111),
    ;
}

/// Inversion of 0 yields no value; when inversion yields a value, that value
/// times the element is 1, at every level.
pub proof fn law_inverse(k: nat, x: u128)
    requires
        in_level(k, x),
    ensures
        x == 0 ==> !tower_inv_some(k, x),
        tower_inv_some(k, x) ==> tower_mul(k, tower_inv(k, x), x) == 1,
        in_level(k, tower_inv(k, x)),
    decreases k,
{
    if k == 0 {
        assert(x >> 1u128 == 0 && x != 0 ==> x & x == 1) by (bit_vector);
    } else {
        let j = (k - 1) as nat;
        let s = bits_of(j);
        lemma_level_split(j, x);
        lemma_level_consts(j);
        let (x0, x1) = (lo_half(s, x), hi_half(s, x));
        lemma_mul_closed(j, x1, x1);
        let ax1 = tower_mul_alpha(j, x1);
        let u = x0 ^ ax1;
        lemma_xor_level(j, x0, ax1);
        lemma_mul_closed(j, x0, u);
        lemma_square_additive(j, x1, x1);
        let sq = tower_square(j, x1);
        let delta = tower_mul(j, x0, u) ^ sq;
        lemma_xor_level(j, tower_mul(j, x0, u), sq);
        assert(tower_norm(k, x) == delta);
        law_inverse(j, delta);
        let d = tower_inv(j, delta);
        lemma_mul_closed(j, d, u);
        lemma_mul_closed(j, d, x1);
        lemma_level_join(j, tower_mul(j, d, u), tower_mul(j, d, x1));
        if x == 0 {
            lemma_units(j, 0);
            lemma_xor_cancel(0, 0);
            assert(x0 == 0 && x1 == 0) by {
                lemma_level_split(j, x);
                lemma_level_consts(k);
            }
            assert(delta == 0);
        }
        if tower_inv_some(k, x) {
            let i0 = tower_mul(j, d, u);
            let i1 = tower_mul(j, d, x1);
            lemma_schoolbook(k, join_halves(s, i0, i1), x);
            // low half: d (u x0 + x1 x1) = d delta = 1
            law_mul_associates(j, d, u, x0);
            law_mul_associates(j, d, x1, x1);
            law_square_is_product(j, x1);
            law_mul_commutes(j, u, x0);
            lemma_mul_closed(j, u, x0);
            law_mul_distributes(j, d, tower_mul(j, u, x0), tower_mul(j, x1, x1));
            law_mul_commutes(j, d, delta);
            assert(tower_mul(j, i0, x0) ^ tower_mul(j, i1, x1) == 1);
            // high half: d (u x1 + x1 x0 + alpha x1 x1) = d 0 = 0
            law_mul_associates(j, d, u, x1);
            law_mul_associates(j, d, x1, x0);
            lemma_alpha_moves(j, d, tower_mul(j, x1, x1));
            law_mul_associates(j, d, x1, x1);
            lemma_mul_xor_left(j, x0, ax1, x1);
            lemma_alpha_moves(j, x1, x1);
            law_mul_commutes(j, x1, x0);
            let p = tower_mul(j, x0, x1);
            let q = tower_mul_alpha(j, tower_mul(j, x1, x1));
            lemma_mul_closed(j, x0, x1);
            lemma_mul_closed(j, tower_mul(j, x1, x1), tower_mul(j, x1, x1));
            lemma_mul_closed(j, x1, x1);
            assert(tower_mul(j, u, x1) == p ^ q);
            lemma_xor_level(j, p, q);
            law_mul_distributes(j, d, p ^ q, p);
            lemma_xor_level(j, p ^ q, p);
            law_mul_distributes(j, d, (p ^ q) ^ p, q);
            assert(((p ^ q) ^ p) ^ q == 0) by (bit_vector);
            lemma_units(j, d);
            assert(tower_mul(j, tower_mul(j, d, u), x1) ^ tower_mul(j, tower_mul(j, d, x1), x0) ^ tower_mul_alpha(j, tower_mul(j, tower_mul(j, d, x1), x1)) == 0);
            lemma_level_consts(k);
        }
    }
}

/// Inverses are unique: `y x = 1` and `z x = 1` give `y = z`.
pub proof fn law_inverse_unique(k: nat, x: u128, y: u128, z: u128)
    requires
        in_level(k, x),
        in_level(k, y),
        in_level(k, z),
        tower_mul(k, y, x) == 1,
        tower_mul(k, z, x) == 1,
    ensures
        y == z,
{
    law_mul_associates(k, y, x, z);
    law_mul_commutes(k, x, z);
    lemma_units(k, y);
    lemma_units(k, z);
}

/// The value of the inversion of 0 is 0, at every level.
pub proof fn lemma_inv_zero(k: nat)
    requires
        k <= 7,
    ensures
        tower_inv(k, 0) == 0,
    decreases k,
{
    lemma_level_consts(k);
    if k > 0 {
        let j = (k - 1) as nat;
        lemma_level_consts(j);
        lemma_units(j, 0);
        lemma_xor_cancel(0, 0);
        assert(tower_norm(k, 0) == 0);
        lemma_inv_zero(j);
    }
}

} // verus!
