//! Index arithmetic for gate application.
//!
//! A basis-state index of an `n`-qubit register is an `n`-bit number; the bit
//! at position `p` tells the state of qubit `p`.  All of it is phrased here
//! over the *weight* `d = 2^p` of a bit position: `bit_at(x, d)` reads a bit,
//! [`ins0`] inserts a zero bit at a position (shifting the higher bits up),
//! and [`ext0`] drops a bit.  The lemmas say that insertion and extraction
//! are inverse to each other, and how they interact with setting a bit.

use vstd::prelude::*;

use vstd::arithmetic::div_mod::{
    lemma_div_is_ordered, lemma_div_pos_is_pos, lemma_fundamental_div_mod,
    lemma_fundamental_div_mod_converse, lemma_mod_bound, lemma_mod_breakdown, lemma_mod_mod,
    lemma_mod_multiples_vanish,
};
use vstd::arithmetic::mul::lemma_mul_inequality;

verus! {

/// The bit of `x` at the position of weight `d` (a power of two).
pub open spec fn bit_at(x: int, d: int) -> int {
    (x / d) % 2
}

/// Inserts a zero bit at the position of weight `d`: bits below `d` stay,
/// bits at and above `d` move one position up.
pub open spec fn ins0(x: int, d: int) -> int {
    (x / d) * (2 * d) + x % d
}

/// Drops the bit at the position of weight `d`: bits below `d` stay, bits
/// above `d` move one position down.
pub open spec fn ext0(y: int, d: int) -> int {
    (y / (2 * d)) * d + y % d
}

/// The base index of the four-element index group numbered `c`, for bit
/// weights `d1 < d2`: `c` with a zero bit inserted first at `d1`, then at
/// `d2`.
pub open spec fn base_index(c: int, d1: int, d2: int) -> int {
    ins0(ins0(c, d1), d2)
}

/// The group number an index `i` belongs to: `i` with the bits at weights
/// `d2` and `d1` dropped.  Inverse of [`base_index`] on indices whose two
/// bits are clear.
pub open spec fn code_of(i: int, d1: int, d2: int) -> int {
    ext0(ext0(i, d2), d1)
}

/// How inserting a zero bit at weight `d` decomposes: the result has the
/// same bits below `d`, the old bits above, and a clear bit at `d`.
pub proof fn lemma_ins0_parts(x: int, d: int)
    requires
        d >= 1,
        x >= 0,
    ensures
        x <= ins0(x, d) <= 2 * x,
        ins0(x, d) / (2 * d) == x / d,
        ins0(x, d) % (2 * d) == x % d,
        ins0(x, d) / d == 2 * (x / d),
        ins0(x, d) % d == x % d,
        bit_at(ins0(x, d), d) == 0,
{
    let q = x / d;
    let r = x % d;
    lemma_fundamental_div_mod(x, d);
    lemma_mod_bound(x, d);
    lemma_div_pos_is_pos(x, d);
    let y = ins0(x, d);
    assert(y == q * (2 * d) + r);
    lemma_fundamental_div_mod_converse(y, 2 * d, q, r);
    assert(y == (2 * q) * d + r) by (nonlinear_arith)
        requires y == q * (2 * d) + r;
    lemma_fundamental_div_mod_converse(y, d, 2 * q, r);
    lemma_mod_multiples_vanish(q, 0, 2);
    assert(0 <= q * d <= x && y == x + q * d) by (nonlinear_arith)
        requires x == d * q + r, y == q * (2 * d) + r, q >= 0, d >= 1, r >= 0;
}

/// How dropping the bit at weight `d` decomposes: the result keeps the bits
/// below and above `d`, and re-inserting a zero bit recovers `y` less the
/// dropped bit.  Also characterises the bit as the high half of `y mod 2d`.
pub proof fn lemma_ext0_parts(y: int, d: int)
    requires
        d >= 1,
        y >= 0,
    ensures
        ext0(y, d) >= 0,
        ext0(y, d) / d == y / (2 * d),
        ext0(y, d) % d == y % d,
        0 <= bit_at(y, d) <= 1,
        bit_at(y, d) == (y % (2 * d)) / d,
        y % (2 * d) == d * bit_at(y, d) + y % d,
        ins0(ext0(y, d), d) == y - d * bit_at(y, d),
{
    let qq = y / (2 * d);
    let r = y % d;
    let b = bit_at(y, d);
    lemma_mod_breakdown(y, d, 2);
    assert(y % (2 * d) == d * b + r);
    lemma_mod_bound(y, d);
    lemma_mod_bound(y / d, 2);
    lemma_div_pos_is_pos(y / d, 2);
    lemma_div_pos_is_pos(y, d);
    let e = ext0(y, d);
    assert(e == qq * d + r);
    lemma_fundamental_div_mod(y, 2 * d);
    lemma_div_pos_is_pos(y, 2 * d);
    lemma_fundamental_div_mod_converse(e, d, qq, r);
    assert((d * b + r) / d == b) by {
        lemma_fundamental_div_mod_converse(d * b + r, d, b, r);
    }
    assert(ins0(e, d) == (e / d) * (2 * d) + e % d);
    assert(y == (2 * d) * qq + (d * b + r));
    assert(qq * (2 * d) + r == y - d * b) by (nonlinear_arith)
        requires y == (2 * d) * qq + (d * b + r);
}

/// Dropping a bit from an index below `2m` lands below `m`, provided the bit
/// weight divides `m`.
pub proof fn lemma_ext0_bound(y: int, d: int, m: int)
    requires
        d >= 1,
        m >= 1,
        0 <= y < 2 * m,
        m % d == 0,
    ensures
        ext0(y, d) < m,
{
    let k = m / d;
    lemma_fundamental_div_mod(m, d);
    let qq = y / (2 * d);
    lemma_div_is_ordered(y, 2 * m - 1, 2 * d);
    assert(2 * m - 1 == (k - 1) * (2 * d) + (2 * d - 1)) by (nonlinear_arith)
        requires m == d * k;
    lemma_fundamental_div_mod_converse(2 * m - 1, 2 * d, k - 1, 2 * d - 1);
    lemma_mul_inequality(qq, k - 1, d);
    lemma_mod_bound(y, d);
    assert(ext0(y, d) == qq * d + y % d);
    assert((k - 1) * d + d <= m) by (nonlinear_arith)
        requires m == d * k;
}

/// Every index decomposes uniquely as the base index of its group plus its
/// two bits: `i == base_index(code_of(i)) + bit_at(i, d1) * d1 + bit_at(i, d2) * d2`.
pub proof fn lemma_code_decompose(i: int, d1: int, d2: int)
    requires
        d1 >= 1,
        d2 >= 2 * d1,
        d2 % (2 * d1) == 0,
        i >= 0,
    ensures
        0 <= bit_at(i, d1) <= 1,
        0 <= bit_at(i, d2) <= 1,
        code_of(i, d1, d2) >= 0,
        i == base_index(code_of(i, d1, d2), d1, d2) + bit_at(i, d1) * d1 + bit_at(i, d2) * d2,
{
    let k = d2 / (2 * d1);
    lemma_fundamental_div_mod(d2, 2 * d1);
    let b2 = bit_at(i, d2);
    let b1 = bit_at(i, d1);
    let z2 = ext0(i, d2);
    lemma_ext0_parts(i, d2);
    // The bits of i below d2 survive in z2, in particular its bit at d1.
    assert(z2 % (2 * d1) == i % (2 * d1)) by {
        assert(z2 == (i / (2 * d2)) * d2 + i % d2);
        assert(z2 == ((i / (2 * d2)) * k) * (2 * d1) + i % d2) by (nonlinear_arith)
            requires z2 == (i / (2 * d2)) * d2 + i % d2, d2 == (2 * d1) * k;
        lemma_mod_multiples_vanish((i / (2 * d2)) * k, i % d2, 2 * d1);
        lemma_mod_mod(i, 2 * d1, k);
    }
    lemma_ext0_parts(z2, d1);
    assert(bit_at(z2, d1) == b1) by {
        lemma_ext0_parts(i, d1);
    }
    let c = code_of(i, d1, d2);
    assert(ins0(c, d1) == z2 - d1 * b1);
    // Removing the d1 bit does not change the quotient or overflow at d2.
    let zc = z2 - d1 * b1;
    assert(z2 % d2 >= z2 % (2 * d1) >= d1 * b1) by {
        lemma_mod_breakdown(z2, 2 * d1, k);
        lemma_mod_bound(z2 / (2 * d1), k);
        lemma_mod_bound(z2, 2 * d1);
        assert((2 * d1) * ((z2 / (2 * d1)) % k) >= 0) by (nonlinear_arith)
            requires (z2 / (2 * d1)) % k >= 0, d1 >= 1;
        assert(z2 % (2 * d1) == d1 * bit_at(z2, d1) + z2 % d1);
        lemma_mod_bound(z2, d1);
    }
    lemma_fundamental_div_mod(z2, d2);
    lemma_div_pos_is_pos(z2, d2);
    lemma_mod_bound(z2, d2);
    assert(zc == (z2 / d2) * d2 + (z2 % d2 - d1 * b1)) by (nonlinear_arith)
        requires z2 == d2 * (z2 / d2) + z2 % d2, zc == z2 - d1 * b1;
    lemma_fundamental_div_mod_converse(zc, d2, z2 / d2, z2 % d2 - d1 * b1);
    assert(ins0(zc, d2) == (z2 / d2) * (2 * d2) + z2 % d2 - d1 * b1);
    assert(ins0(z2, d2) == (z2 / d2) * (2 * d2) + z2 % d2);
    assert(ins0(z2, d2) == i - d2 * b2);
    assert(base_index(c, d1, d2) == i - d2 * b2 - d1 * b1);
}

/// The four members of group `c` — the base index with its two bits set every
/// way — lie inside the vector, carry the bit values that were set, and are
/// mapped back to `c` by [`code_of`].
pub proof fn lemma_sibling(c: int, d1: int, d2: int, l: int, alpha: int, beta: int)
    requires
        d1 >= 1,
        d2 >= 2 * d1,
        d2 % (2 * d1) == 0,
        l % (2 * d2) == 0,
        0 <= c < l / 4,
        0 <= alpha <= 1,
        0 <= beta <= 1,
    ensures
        0 <= base_index(c, d1, d2),
        base_index(c, d1, d2) + alpha * d1 + beta * d2 < l,
        bit_at(base_index(c, d1, d2) + alpha * d1 + beta * d2, d1) == alpha,
        bit_at(base_index(c, d1, d2) + alpha * d1 + beta * d2, d2) == beta,
        code_of(base_index(c, d1, d2) + alpha * d1 + beta * d2, d1, d2) == c,
{
    let k = d2 / (2 * d1);
    lemma_fundamental_div_mod(d2, 2 * d1);
    let z = ins0(c, d1);
    lemma_ins0_parts(c, d1);
    lemma_mod_bound(c, d1);
    let b = ins0(z, d2);
    lemma_ins0_parts(z, d2);
    let qq = z / d2;
    let rr = z % d2;
    lemma_fundamental_div_mod(z, d2);
    lemma_div_pos_is_pos(z, d2);
    lemma_mod_bound(z, d2);
    // The low part of z below d2 keeps c's bits below d1, so there is room
    // to set the d1 bit without touching the d2 bit.
    assert(rr % (2 * d1) == c % d1) by {
        lemma_mod_mod(z, 2 * d1, k);
        assert(z % (2 * d1) == c % d1);
    }
    let s = rr / (2 * d1);
    lemma_fundamental_div_mod(rr, 2 * d1);
    lemma_div_pos_is_pos(rr, 2 * d1);
    assert(s <= k - 1) by {
        assert(d2 - 1 == (k - 1) * (2 * d1) + (2 * d1 - 1)) by (nonlinear_arith)
            requires d2 == (2 * d1) * k;
        lemma_fundamental_div_mod_converse(d2 - 1, 2 * d1, k - 1, 2 * d1 - 1);
        lemma_div_is_ordered(rr, d2 - 1, 2 * d1);
    }
    assert(rr + alpha * d1 < d2) by (nonlinear_arith)
        requires
            rr == s * (2 * d1) + c % d1,
            s <= k - 1,
            0 <= c % d1 < d1,
            alpha <= 1,
            d1 >= 1,
            d2 == (2 * d1) * k;
    let y = b + alpha * d1 + beta * d2;
    let rp = rr + alpha * d1;
    assert(y == (2 * qq + beta) * d2 + rp) by (nonlinear_arith)
        requires b == qq * (2 * d2) + rr, y == b + alpha * d1 + beta * d2, rp == rr + alpha * d1;
    assert(rp >= 0);
    lemma_fundamental_div_mod_converse(y, d2, 2 * qq + beta, rp);
    lemma_mod_multiples_vanish(qq, beta, 2);
    assert(bit_at(y, d2) == beta) by {
        assert(y / d2 == 2 * qq + beta);
    }
    assert(y == qq * (2 * d2) + (beta * d2 + rp)) by (nonlinear_arith)
        requires y == (2 * qq + beta) * d2 + rp;
    assert(0 <= beta * d2 + rp < 2 * d2) by (nonlinear_arith)
        requires 0 <= beta <= 1, 0 <= rp < d2;
    lemma_fundamental_div_mod_converse(y, 2 * d2, qq, beta * d2 + rp);
    // y stays inside the vector.
    assert(z < l / 2) by {
        assert(4 * (l / 4) <= l && 2 * (l / 2) <= l && (l / 4) * 2 <= l / 2) by (nonlinear_arith)
            requires l % (2 * d2) == 0, l / 4 > c, c >= 0, l >= 0;
    }
    assert(y < l) by {
        assert(qq * d2 <= z) by (nonlinear_arith)
            requires z == d2 * qq + rr, rr >= 0;
        assert(y < (qq + 1) * (2 * d2)) by (nonlinear_arith)
            requires y == qq * (2 * d2) + (beta * d2 + rp), beta * d2 + rp < 2 * d2;
        let t = l / (2 * d2);
        lemma_fundamental_div_mod(l, 2 * d2);
        assert((qq + 1) * (2 * d2) <= t * (2 * d2)) by (nonlinear_arith)
            requires qq * d2 < l / 2, l == (2 * d2) * t, d2 >= 1, 2 * (l / 2) <= l;
        assert(t * (2 * d2) == l) by (nonlinear_arith)
            requires l == (2 * d2) * t;
    }
    // The group number comes back out of y.
    let z2 = ext0(y, d2);
    assert(z2 == qq * d2 + rp);
    assert(z2 == z + alpha * d1) by (nonlinear_arith)
        requires z2 == qq * d2 + rp, z == d2 * qq + rr, rp == rr + alpha * d1;
    assert(z == (c / d1) * (2 * d1) + c % d1);
    assert(z2 == ((c / d1) * 2 + alpha) * d1 + c % d1) by (nonlinear_arith)
        requires z2 == z + alpha * d1, z == (c / d1) * (2 * d1) + c % d1;
    lemma_div_pos_is_pos(c, d1);
    lemma_fundamental_div_mod_converse(z2, d1, (c / d1) * 2 + alpha, c % d1);
    lemma_mod_multiples_vanish(c / d1, alpha, 2);
    assert(bit_at(z2, d1) == alpha) by {
        assert(z2 / d1 == (c / d1) * 2 + alpha);
        assert(((c / d1) * 2 + alpha) % 2 == alpha) by {
            assert((2 * (c / d1) + alpha) % 2 == alpha % 2);
        }
    }
    assert(z2 == (c / d1) * (2 * d1) + (alpha * d1 + c % d1)) by (nonlinear_arith)
        requires z2 == ((c / d1) * 2 + alpha) * d1 + c % d1;
    assert(0 <= alpha * d1 + c % d1 < 2 * d1) by (nonlinear_arith)
        requires 0 <= alpha <= 1, 0 <= c % d1 < d1;
    lemma_fundamental_div_mod_converse(z2, 2 * d1, c / d1, alpha * d1 + c % d1);
    assert(ext0(z2, d1) == (c / d1) * d1 + z2 % d1);
    assert(z2 % d1 == c % d1) by {
        assert(z2 == ((c / d1) * 2 + alpha) * d1 + c % d1);
        lemma_fundamental_div_mod_converse(z2, d1, (c / d1) * 2 + alpha, c % d1);
    }
    assert(ext0(z2, d1) == c) by {
        lemma_fundamental_div_mod(c, d1);
    }
    // The d1 bit of y matches alpha as well.
    assert(bit_at(y, d1) == alpha) by {
        assert(y % (2 * d1) == alpha * d1 + c % d1) by {
            assert(y == ((2 * qq + beta) * k) * (2 * d1) + rp) by (nonlinear_arith)
                requires y == (2 * qq + beta) * d2 + rp, d2 == (2 * d1) * k;
            lemma_mod_multiples_vanish((2 * qq + beta) * k, rp, 2 * d1);
            assert(rp % (2 * d1) == alpha * d1 + c % d1) by {
                assert(rp == s * (2 * d1) + (alpha * d1 + c % d1)) by (nonlinear_arith)
                    requires rp == rr + alpha * d1, rr == s * (2 * d1) + c % d1;
                lemma_fundamental_div_mod_converse(rp, 2 * d1, s, alpha * d1 + c % d1);
            }
        }
        lemma_ext0_parts(y, d1);
        assert((alpha * d1 + c % d1) / d1 == alpha) by {
            lemma_fundamental_div_mod_converse(alpha * d1 + c % d1, d1, alpha, c % d1);
        }
    }
    assert(code_of(y, d1, d2) == c);
    assert(0 <= b);
}

/// Computes [`ins0`]: the argument with a zero bit inserted at weight `d`.
pub(crate) fn ins_exec(x: usize, d: usize) -> (r: usize)
    requires
        d >= 1,
        d <= usize::MAX / 2,
        ins0(x as int, d as int) <= usize::MAX,
    ensures
        r as int == ins0(x as int, d as int),
{
    let q = x / d;
    let rem = x % d;
    q * (2 * d) + rem
}

/// The enumeration law of the controlled-gate loop.  For bit weights
/// `d1 < d2` and a vector length `l` they divide as powers of two, the map
/// `c -> base_index(c, d1, d2)` sends the `l/4` group numbers to `l/4`
/// distinct base indices, each inside the vector with both bits clear; and
/// every index `i` of the vector is reached exactly once by the four-way
/// expansions, namely from the group `code_of(i)` with its two bits set to
/// the bits of `i`.
pub proof fn lemma_enumeration_bijective(d1: int, d2: int, l: int)
    requires
        d1 >= 1,
        d2 >= 2 * d1,
        d2 % (2 * d1) == 0,
        l % (2 * d2) == 0,
        l >= 4,
    ensures
        forall|c: int|
            0 <= c < l / 4 ==> {
                let b = #[trigger] base_index(c, d1, d2);
                0 <= b && b + d1 + d2 < l && bit_at(b, d1) == 0 && bit_at(b, d2) == 0 && code_of(
                    b,
                    d1,
                    d2,
                ) == c
            },
        forall|c1: int, c2: int|
            0 <= c1 < l / 4 && 0 <= c2 < l / 4 && c1 != c2 ==> base_index(c1, d1, d2)
                != base_index(c2, d1, d2),
        forall|i: int|
            0 <= i < l ==> {
                let c = #[trigger] code_of(i, d1, d2);
                0 <= c < l / 4 && i == base_index(c, d1, d2) + bit_at(i, d1) * d1 + bit_at(i, d2)
                    * d2
            },
{
    assert forall|c: int| 0 <= c < l / 4 implies {
        let b = #[trigger] base_index(c, d1, d2);
        0 <= b && b + d1 + d2 < l && bit_at(b, d1) == 0 && bit_at(b, d2) == 0 && code_of(b, d1, d2)
            == c
    } by {
        lemma_sibling(c, d1, d2, l, 0, 0);
        lemma_sibling(c, d1, d2, l, 1, 1);
    }
    assert forall|c1: int, c2: int|
        0 <= c1 < l / 4 && 0 <= c2 < l / 4 && c1 != c2 implies base_index(c1, d1, d2)
        != base_index(c2, d1, d2) by {
        lemma_sibling(c1, d1, d2, l, 0, 0);
        lemma_sibling(c2, d1, d2, l, 0, 0);
    }
    assert forall|i: int| 0 <= i < l implies {
        let c = #[trigger] code_of(i, d1, d2);
        0 <= c < l / 4 && i == base_index(c, d1, d2) + bit_at(i, d1) * d1 + bit_at(i, d2) * d2
    } by {
        lemma_code_decompose(i, d1, d2);
        lemma_code_bound(i, d1, d2, l);
    }
}

/// The group number of any index inside the vector lies below `l / 4`.
pub proof fn lemma_code_bound(i: int, d1: int, d2: int, l: int)
    requires
        d1 >= 1,
        d2 >= 2 * d1,
        d2 % (2 * d1) == 0,
        l % (2 * d2) == 0,
        l >= 4,
        0 <= i < l,
    ensures
        0 <= code_of(i, d1, d2) < l / 4,
{
    let k = d2 / (2 * d1);
    let t = l / (2 * d2);
    lemma_fundamental_div_mod(d2, 2 * d1);
    lemma_fundamental_div_mod(l, 2 * d2);
    lemma_div_pos_is_pos(d2, 2 * d1);
    lemma_div_pos_is_pos(l, 2 * d2);
    assert(k >= 1) by (nonlinear_arith)
        requires d2 == (2 * d1) * k, d2 >= 2 * d1, d1 >= 1, k >= 0;
    assert(t >= 1) by (nonlinear_arith)
        requires l == (2 * d2) * t, l >= 4, d2 >= 2, t >= 0, l % (2 * d2) == 0, 2 * d2 >= 4;
    let h = l / 2;
    let q = l / 4;
    assert(h == d2 * t && q == d1 * (k * t) && l == 2 * h && h == 2 * q && h >= 1 && q >= 1)
        by (nonlinear_arith)
        requires l == (2 * d2) * t, d2 == (2 * d1) * k, h == l / 2, q == l / 4, d1 >= 1, k >= 1,
            t >= 1;
    vstd::arithmetic::div_mod::lemma_small_mod(0, d2 as nat);
    vstd::arithmetic::div_mod::lemma_small_mod(0, d1 as nat);
    lemma_mod_multiples_vanish(t, 0, d2);
    lemma_mod_multiples_vanish(k * t, 0, d1);
    assert(h % d2 == 0 && q % d1 == 0);
    let z2 = ext0(i, d2);
    lemma_ext0_parts(i, d2);
    lemma_ext0_bound(i, d2, h);
    lemma_ext0_parts(z2, d1);
    lemma_ext0_bound(z2, d1, q);
}

} // verus!
