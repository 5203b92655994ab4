//! The single-qubit gate kernel, in three concurrency variants.
//!
//! For a gate at qubit `k` the state vector splits into contiguous chunks of
//! `2^(k+1)` amplitudes; within a chunk the first half pairs element-wise
//! with the second, each pair holding the two amplitudes whose indices differ
//! exactly in bit `k`.  Every pair `(a0, a1)` becomes
//! `(m00*a0 + m01*a1, m10*a0 + m11*a1)`.
//!
//! The three variants — serial, chunk-parallel and tile-parallel — carry the
//! same contract: the new state is [`single_step`] of the old one.  They are
//! interchangeable implementations of one transform, not three gates.

use vstd::prelude::*;

use crate::amp::Amp;
use crate::bits::{bit_at, lemma_ext0_parts};
use crate::operator::{row2, row2_exec, Matrix};
use crate::Error;
use rayon::iter::{IndexedParallelIterator, ParallelIterator};
use rayon::slice::ParallelSliceMut;
use vstd::arithmetic::div_mod::{
    lemma_fundamental_div_mod, lemma_fundamental_div_mod_converse, lemma_mod_bound,
    lemma_small_mod,
};
use vstd::arithmetic::mul::lemma_mul_inequality;
use vstd::arithmetic::power2::{lemma_pow2_pos, lemma_pow2_unfold, pow2};

verus! {

/// The whole-vector single-qubit transform at bit weight `h = 2^k`: the
/// element at an index with bit `k` clear is row 0 of its pair, the element
/// at the partner index with bit `k` set is row 1.
pub open spec fn single_step(m: Matrix, h: int, s: Seq<Amp>) -> Seq<Amp> {
    Seq::new(
        s.len(),
        |i: int|
            if bit_at(i, h) == 0 {
                row2(m, 0, s[i], s[i + h])
            } else {
                row2(m, 1, s[i - h], s[i])
            },
    )
}

/// One chunk of `2h` amplitudes transformed: position `j` of the first half
/// pairs with position `j + h` of the second.
pub open spec fn chunk_step(m: Matrix, h: int, s: Seq<Amp>) -> Seq<Amp> {
    Seq::new(
        s.len(),
        |j: int|
            if j < h {
                row2(m, 0, s[j], s[j + h])
            } else {
                row2(m, 1, s[j - h], s[j])
            },
    )
}

/// What position `t` of the state holds once the chunk around it has been
/// transformed: position `t - c*2h` of [`chunk_step`] of its chunk `c`.
pub open spec fn chunked_at(m: Matrix, h: int, s: Seq<Amp>, t: int) -> Amp {
    let c = t / (2 * h);
    chunk_step(m, h, s.subrange(c * (2 * h), c * (2 * h) + 2 * h))[t - c * (2 * h)]
}

/// The single-qubit kernel accepts a 2x2 matrix and a state length that is
/// an exact multiple of the chunk width `2^(k+1)`.
pub open spec fn single_ok(m: Matrix, k: u32, len: int) -> bool {
    m.is2() && len % (2 * pow2(k as nat) as int) == 0
}

/// The tiled kernel additionally needs a tile size that divides the half
/// chunk width `2^k`.
pub open spec fn tiles_ok(tile: int, k: u32) -> bool {
    tile >= 1 && pow2(k as nat) as int % tile == 0
}

/// Computes `2^e`, reporting when it does not fit a `usize`.
pub fn pow2_checked(e: u32) -> (r: Option<usize>)
    ensures
        match r {
            Some(p) => p == pow2(e as nat),
            None => pow2(e as nat) > usize::MAX,
        },
{
    let mut p: usize = 1;
    let mut i: u32 = 0;
    proof {
        vstd::arithmetic::power2::lemma2_to64();
    }
    while i < e
        invariant
            i <= e,
            p == pow2(i as nat),
        decreases e - i,
    {
        if p > usize::MAX / 2 {
            proof {
                lemma_pow2_unfold((i + 1) as nat);
                assert(pow2((i + 1) as nat) > usize::MAX);
                if ((i + 1) as nat) < (e as nat) {
                    vstd::arithmetic::power2::lemma_pow2_strictly_increases((i + 1) as nat, e as nat)
                        ;
                }
                assert(pow2(e as nat) > usize::MAX);
            }
            return None;
        }
        proof {
            lemma_pow2_unfold((i + 1) as nat);
        }
        p = p * 2;
        i = i + 1;
    }
    Some(p)
}

/// Transforms the pair `(a[j], b[j])` for every `j`, `a` holding the
/// bit-clear elements and `b` the bit-set ones.
pub(crate) fn tile_update(m: &Matrix, a: &mut Vec<Amp>, b: &mut Vec<Amp>)
    requires
        m.is2(),
        old(a)@.len() == old(b)@.len(),
    ensures
        final(a)@.len() == old(a)@.len(),
        final(b)@.len() == old(b)@.len(),
        forall|j: int|
            0 <= j < old(a)@.len() ==> final(a)@[j] == row2(*m, 0, old(a)@[j], old(b)@[j])
                && final(b)@[j] == row2(*m, 1, old(a)@[j], old(b)@[j]),
{
    let n = a.len();
    let mut j: usize = 0;
    while j < n
        invariant
            j <= n,
            m.is2(),
            n == old(a)@.len(),
            a@.len() == n,
            b@.len() == n,
            forall|t: int| j <= t < n ==> a@[t] == old(a)@[t] && b@[t] == old(b)@[t],
            forall|t: int|
                0 <= t < j ==> a@[t] == row2(*m, 0, old(a)@[t], old(b)@[t]) && b@[t] == row2(
                    *m,
                    1,
                    old(a)@[t],
                    old(b)@[t],
                ),
        decreases n - j,
    {
        let a0 = a[j];
        let a1 = b[j];
        a.set(j, row2_exec(m, 0, a0, a1));
        b.set(j, row2_exec(m, 1, a0, a1));
        j += 1;
    }
}

/// Transforms one chunk of `2 * half` amplitudes in place, pairing position
/// `j` with position `j + half`.
pub(crate) fn chunk_update(m: &Matrix, half: usize, v: &mut Vec<Amp>)
    requires
        m.is2(),
        half >= 1,
        half <= usize::MAX / 2,
        old(v)@.len() == 2 * half,
    ensures
        final(v)@ == chunk_step(*m, half as int, old(v)@),
{
    let mut j: usize = 0;
    while j < half
        invariant
            j <= half,
            m.is2(),
            half <= usize::MAX / 2,
            v@.len() == 2 * half,
            forall|t: int| j <= t < half ==> v@[t] == old(v)@[t],
            forall|t: int| half + j <= t < 2 * half ==> v@[t] == old(v)@[t],
            forall|t: int|
                0 <= t < j ==> v@[t] == row2(*m, 0, old(v)@[t], old(v)@[t + half]),
            forall|t: int|
                half <= t < half + j ==> v@[t] == row2(*m, 1, old(v)@[t - half], old(v)@[t]),
        decreases half - j,
    {
        let a0 = v[j];
        let a1 = v[j + half];
        v.set(j, row2_exec(m, 0, a0, a1));
        v.set(j + half, row2_exec(m, 1, a0, a1));
        j += 1;
    }
    proof {
        assert(v@ =~= chunk_step(*m, half as int, old(v)@));
    }
}

/// Splits one chunk into its two halves, transforms the element pairs tile
/// by tile through [`tiles_run`], and reassembles the chunk.
fn chunk_update_tiled(m: &Matrix, half: usize, tile: usize, v: &mut Vec<Amp>)
    requires
        m.is2(),
        half >= 1,
        half <= usize::MAX / 2,
        tile >= 1,
        half % tile == 0,
        old(v)@.len() == 2 * half,
    ensures
        final(v)@ == chunk_step(*m, half as int, old(v)@),
{
    let mut h0: Vec<Amp> = Vec::new();
    let mut h1: Vec<Amp> = Vec::new();
    let mut j: usize = 0;
    while j < half
        invariant
            j <= half,
            half <= usize::MAX / 2,
            v@ == old(v)@,
            v@.len() == 2 * half,
            h0@.len() == j,
            h1@.len() == j,
            forall|t: int| 0 <= t < j ==> h0@[t] == v@[t] && h1@[t] == v@[t + half],
        decreases half - j,
    {
        h0.push(v[j]);
        h1.push(v[j + half]);
        j += 1;
    }
    let ghost v0 = v@;
    tiles_run(m, tile, &mut h0, &mut h1);
    let mut j: usize = 0;
    while j < half
        invariant
            j <= half,
            m.is2(),
            half <= usize::MAX / 2,
            v0 == old(v)@,
            v@.len() == 2 * half,
            h0@.len() == half,
            h1@.len() == half,
            forall|t: int| 0 <= t < half ==> h0@[t] == row2(*m, 0, v0[t], v0[t + half]),
            forall|t: int| 0 <= t < half ==> h1@[t] == row2(*m, 1, v0[t], v0[t + half]),
            forall|t: int| j <= t < half ==> v@[t] == v0[t],
            forall|t: int| half + j <= t < 2 * half ==> v@[t] == v0[t],
            forall|t: int| 0 <= t < j ==> v@[t] == h0@[t],
            forall|t: int| half <= t < half + j ==> v@[t] == h1@[t - half],
        decreases half - j,
    {
        v.set(j, h0[j]);
        v.set(j + half, h1[j]);
        j += 1;
    }
    proof {
        let h = half as int;
        assert forall|t: int| 0 <= t < 2 * h implies v@[t] == chunk_step(*m, h, old(v)@)[t] by {
            if t < h {
                assert(v@[t] == h0@[t]);
            } else {
                assert(v@[t] == h1@[t - h]);
            }
        }
        assert(v@ =~= chunk_step(*m, half as int, old(v)@));
    }
}

/// Relies on rayon's `par_chunks_exact_mut` and `for_each`: the slice is
/// split into disjoint consecutive chunks of `2 * half` elements, and each
/// chunk is handed exactly once, in place, to the verified chunk transform
/// [`chunk_update`] via a copy.  With the length an exact multiple of the
/// chunk width, every element belongs to exactly one chunk.
#[verifier::external_body]
fn chunks_run(m: &Matrix, half: usize, width: usize, state: &mut Vec<Amp>)
    requires
        m.is2(),
        half >= 1,
        width == 2 * half,
        old(state)@.len() as int % (width as int) == 0,
    ensures
        final(state)@.len() == old(state)@.len(),
        forall|t: int|
            0 <= t < old(state)@.len() ==> final(state)@[t] == chunked_at(
                *m,
                half as int,
                old(state)@,
                t,
            ),
{
    state.par_chunks_exact_mut(width).for_each(|chunk| {
        let mut buf = chunk.to_vec();
        chunk_update(m, half, &mut buf);
        chunk.copy_from_slice(&buf);
    });
}

/// Relies on rayon's `par_chunks_exact_mut`, `zip` and `for_each`: the two
/// halves are split into disjoint consecutive tiles of `tile` elements, the
/// tile of one half is paired with the tile of the other half at the same
/// position, and each tile pair is handed exactly once, in place, to the
/// verified pair transform [`tile_update`] via copies.  Element `j` of `h0`
/// is thereby paired with element `j` of `h1`; with `tile` dividing the
/// length, every element belongs to exactly one tile.
#[verifier::external_body]
fn tiles_run(m: &Matrix, tile: usize, h0: &mut Vec<Amp>, h1: &mut Vec<Amp>)
    requires
        m.is2(),
        tile >= 1,
        old(h0)@.len() == old(h1)@.len(),
        old(h0)@.len() as int % (tile as int) == 0,
    ensures
        final(h0)@.len() == old(h0)@.len(),
        final(h1)@.len() == old(h1)@.len(),
        forall|j: int|
            0 <= j < old(h0)@.len() ==> final(h0)@[j] == row2(*m, 0, old(h0)@[j], old(h1)@[j])
                && final(h1)@[j] == row2(*m, 1, old(h0)@[j], old(h1)@[j]),
{
    h0.par_chunks_exact_mut(tile).zip(h1.par_chunks_exact_mut(tile)).for_each(|(t0, t1)| {
        let mut b0 = t0.to_vec();
        let mut b1 = t1.to_vec();
        tile_update(m, &mut b0, &mut b1);
        t0.copy_from_slice(&b0);
        t1.copy_from_slice(&b1);
    });
}

/// Walks the chunks in order and transforms each in place: through
/// [`chunk_update`] when `tile` is absent, through the tiled
/// [`chunk_update_tiled`] otherwise.
fn process_chunks(m: &Matrix, half: usize, width: usize, tile: Option<usize>, state: &mut Vec<Amp>)
    requires
        m.is2(),
        half >= 1,
        width == 2 * half,
        old(state)@.len() as int % (width as int) == 0,
        match tile {
            Some(t) => t >= 1 && half % t == 0,
            None => true,
        },
    ensures
        final(state)@.len() == old(state)@.len(),
        forall|t: int|
            0 <= t < old(state)@.len() ==> final(state)@[t] == chunked_at(
                *m,
                half as int,
                old(state)@,
                t,
            ),
{
    let len = state.len();
    let nc = len / width;
    proof {
        lemma_fundamental_div_mod(len as int, width as int);
        assert(len as int == (nc as int) * (width as int)) by (nonlinear_arith)
            requires
                len as int == (width as int) * ((len as int) / (width as int)) + (len as int) % (
                width as int),
                (len as int) % (width as int) == 0,
                nc as int == (len as int) / (width as int);
    }
    let mut c: usize = 0;
    while c < nc
        invariant
            c <= nc,
            m.is2(),
            half >= 1,
            width == 2 * half,
            len == old(state)@.len(),
            len == nc * width,
            state@.len() == len,
            match tile {
                Some(t) => t >= 1 && half % t == 0,
                None => true,
            },
            forall|t: int|
                0 <= t < c * width ==> state@[t] == chunked_at(*m, half as int, old(state)@, t),
            forall|t: int| c * width <= t < len ==> state@[t] == old(state)@[t],
        decreases nc - c,
    {
        proof {
            lemma_mul_inequality(c as int + 1, nc as int, width as int);
            lemma_mul_inequality(c as int, nc as int, width as int);
            assert(c * width + width == (c + 1) * width) by (nonlinear_arith);
        }
        let c0 = c * width;
        let mut buf: Vec<Amp> = Vec::new();
        let mut j: usize = 0;
        while j < width
            invariant
                j <= width,
                c0 + width <= len,
                state@.len() == len,
                buf@.len() == j,
                forall|t: int| 0 <= t < j ==> buf@[t] == state@[c0 + t],
            decreases width - j,
        {
            buf.push(state[c0 + j]);
            j += 1;
        }
        proof {
            assert(buf@ =~= state@.subrange(c0 as int, c0 as int + width as int));
        }
        let ghost snap = state@;
        match tile {
            Some(t) => chunk_update_tiled(m, half, t, &mut buf),
            None => chunk_update(m, half, &mut buf),
        }
        let mut j: usize = 0;
        while j < width
            invariant
                j <= width,
                c0 + width <= len,
                state@.len() == len,
                snap.len() == len,
                buf@.len() == width,
                forall|t: int|
                    0 <= t < width ==> buf@[t] == chunk_step(
                        *m,
                        half as int,
                        snap.subrange(c0 as int, c0 + width),
                    )[t],
                forall|t: int| 0 <= t < c0 ==> state@[t] == snap[t],
                forall|t: int| c0 + j <= t < len ==> state@[t] == snap[t],
                forall|t: int| c0 <= t < c0 + j ==> state@[t] == buf@[t - c0],
            decreases width - j,
        {
            proof {
                let cs = chunk_step(*m, half as int, snap.subrange(c0 as int, c0 + width));
                assert(snap.subrange(c0 as int, c0 + width).len() == width);
                assert(buf@[j as int] == cs[j as int]);
            }
            state.set(c0 + j, buf[j]);
            j += 1;
        }
        proof {
            let h = half as int;
            let w = width as int;
            assert forall|t: int| 0 <= t < (c + 1) * width implies state@[t] == chunked_at(
                *m,
                h,
                old(state)@,
                t,
            ) by {
                if t < c * width {
                    assert(state@[t] == snap[t]);
                } else {
                    let o = t - c * w;
                    assert(t == c * w + o && 0 <= o < w);
                    lemma_fundamental_div_mod_converse(t, w, c as int, o);
                    assert(t / (2 * h) == c as int);
                    assert(state@[t] == buf@[o]);
                    assert(snap.subrange(c0 as int, c0 + w) =~= old(state)@.subrange(
                        c * w,
                        c * w + w,
                    ));
                }
            }
        }
        c += 1;
    }
    proof {
        assert(nc * width == len);
        assert(forall|t: int| 0 <= t < len ==> state@[t] == chunked_at(
            *m,
            half as int,
            old(state)@,
            t,
        ));
    }
}

/// The variant-equivalence law: the three kernels [`single_serial`],
/// [`single_par_outer`] and [`single_par_inner`] all promise the same
/// result, [`single_step`] of the prior state, so on the same matrix, qubit
/// and input state any two of them return equal output vectors.
pub proof fn lemma_variant_equivalence(m: Matrix, k: u32, s: Seq<Amp>, r1: Seq<Amp>, r2: Seq<Amp>)
    requires
        r1 == single_step(m, pow2(k as nat) as int, s),
        r2 == single_step(m, pow2(k as nat) as int, s),
    ensures
        r1 == r2,
{
}

/// Chunk-wise transformation agrees with the whole-vector [`single_step`]:
/// position `j` of chunk `c` is position `c*2h + j` of the vector, and the
/// first or second half of a chunk is exactly a clear or set bit at weight
/// `h`.
proof fn lemma_chunked_is_single_step(m: Matrix, h: int, s: Seq<Amp>, s2: Seq<Amp>)
    requires
        h >= 1,
        s.len() as int % (2 * h) == 0,
        s2.len() == s.len(),
        forall|t: int| 0 <= t < s.len() ==> s2[t] == chunked_at(m, h, s, t),
    ensures
        s2 == single_step(m, h, s),
{
    let w = 2 * h;
    assert forall|i: int| 0 <= i < s.len() implies s2[i] == single_step(m, h, s)[i] by {
        let c = i / w;
        let j = i % w;
        lemma_fundamental_div_mod(i, w);
        lemma_mod_bound(i, w);
        lemma_ext0_parts(i, h);
        assert(bit_at(i, h) == (i % (2 * h)) / h);
        let sub = s.subrange(c * w, c * w + w);
        assert(c * w + w <= s.len()) by {
            lemma_mod_bound(s.len() as int, w);
            lemma_fundamental_div_mod(s.len() as int, w);
            assert(i < s.len());
            assert(c <= (s.len() as int) / w - 1) by (nonlinear_arith)
                requires
                    i == w * c + j,
                    0 <= j < w,
                    i < s.len(),
                    s.len() as int == w * ((s.len() as int) / w),
                    w >= 2;
            assert(c * w + w <= ((s.len() as int) / w) * w) by (nonlinear_arith)
                requires c <= (s.len() as int) / w - 1, w >= 2;
            assert(((s.len() as int) / w) * w == s.len() as int) by (nonlinear_arith)
                requires s.len() as int == w * ((s.len() as int) / w);
        }
        assert(s2[i] == chunk_step(m, h, sub)[j]);
        if j < h {
            assert((i % (2 * h)) / h == 0) by {
                lemma_fundamental_div_mod_converse(j, h, 0, j);
            }
            assert(sub[j] == s[i] && sub[j + h] == s[i + h]);
        } else {
            assert((i % (2 * h)) / h == 1) by {
                lemma_fundamental_div_mod_converse(j, h, 1, j - h);
            }
            assert(sub[j] == s[i] && sub[j - h] == s[i - h]);
        }
    }
    assert(s2 =~= single_step(m, h, s));
}

/// Shared entry logic of the three kernels: validates the matrix and the
/// length, then reports the chunk geometry.  `Ok(None)` means the state is
/// empty and there is nothing to do.
fn kernel_geometry(k: u32, matrix: &Matrix, len: usize) -> (r: Result<Option<(usize, usize)>, Error>)
    ensures
        match r {
            Ok(Some((half, width))) => matrix.is2() && half >= 1 && half == pow2(k as nat)
                && width == 2 * half && len % width == 0 && len > 0 && single_ok(
                *matrix,
                k,
                len as int,
            ),
            Ok(None) => matrix.is2() && len == 0 && single_ok(*matrix, k, len as int),
            Err(Error::MatrixShape) => !matrix.is2(),
            Err(Error::LengthMismatch) => matrix.is2() && !single_ok(*matrix, k, len as int),
            Err(_) => false,
        },
{
    if !(matrix.dim == 2 && matrix.array.len() == 4) {
        return Err(Error::MatrixShape);
    }
    proof {
        lemma_pow2_pos(k as nat);
    }
    match pow2_checked(k) {
        Some(half) if half <= usize::MAX / 2 => {
            let width = 2 * half;
            if len % width == 0 {
                if len == 0 {
                    Ok(None)
                } else {
                    Ok(Some((half, width)))
                }
            } else {
                Err(Error::LengthMismatch)
            }
        },
        _ => {
            // The chunk width exceeds what a vector can hold, so only the
            // empty state is an exact multiple of it.
            proof {
                assert(2 * pow2(k as nat) > usize::MAX);
                if len > 0 {
                    lemma_small_mod(len as nat, (2 * pow2(k as nat)) as nat);
                }
            }
            if len == 0 {
                Ok(None)
            } else {
                Err(Error::LengthMismatch)
            }
        },
    }
}

/// Applies the 2x2 `matrix` to qubit `k` of `state` on the current thread,
/// walking chunks and pairs sequentially.
pub fn single_serial(k: u32, matrix: &Matrix, state: &mut Vec<Amp>) -> (r: Result<(), Error>)
    ensures
        match r {
            Ok(()) => single_ok(*matrix, k, old(state)@.len() as int) && final(state)@
                == single_step(*matrix, pow2(k as nat) as int, old(state)@),
            Err(Error::MatrixShape) => !matrix.is2() && final(state)@ == old(state)@,
            Err(Error::LengthMismatch) => matrix.is2() && !single_ok(
                *matrix,
                k,
                old(state)@.len() as int,
            ) && final(state)@ == old(state)@,
            Err(_) => false,
        },
{
    match kernel_geometry(k, matrix, state.len()) {
        Err(e) => Err(e),
        Ok(None) => {
            proof {
                assert(state@ =~= single_step(*matrix, pow2(k as nat) as int, old(state)@));
            }
            Ok(())
        },
        Ok(Some((half, width))) => {
            process_chunks(matrix, half, width, None, state);
            proof {
                lemma_chunked_is_single_step(
                    *matrix,
                    pow2(k as nat) as int,
                    old(state)@,
                    state@,
                );
            }
            Ok(())
        },
    }
}

/// Applies the 2x2 `matrix` to qubit `k` of `state`, processing whole chunks
/// as parallel work items.
pub fn single_par_outer(k: u32, matrix: &Matrix, state: &mut Vec<Amp>) -> (r: Result<(), Error>)
    ensures
        match r {
            Ok(()) => single_ok(*matrix, k, old(state)@.len() as int) && final(state)@
                == single_step(*matrix, pow2(k as nat) as int, old(state)@),
            Err(Error::MatrixShape) => !matrix.is2() && final(state)@ == old(state)@,
            Err(Error::LengthMismatch) => matrix.is2() && !single_ok(
                *matrix,
                k,
                old(state)@.len() as int,
            ) && final(state)@ == old(state)@,
            Err(_) => false,
        },
{
    match kernel_geometry(k, matrix, state.len()) {
        Err(e) => Err(e),
        Ok(None) => {
            proof {
                assert(state@ =~= single_step(*matrix, pow2(k as nat) as int, old(state)@));
            }
            Ok(())
        },
        Ok(Some((half, width))) => {
            chunks_run(matrix, half, width, state);
            proof {
                lemma_chunked_is_single_step(
                    *matrix,
                    pow2(k as nat) as int,
                    old(state)@,
                    state@,
                );
            }
            Ok(())
        },
    }
}

/// Applies the 2x2 `matrix` to qubit `k` of `state`, walking chunks
/// sequentially and processing tile pairs of `TILE` elements of the two
/// chunk halves as parallel work items.
pub fn single_par_inner<const TILE: usize>(
    k: u32,
    matrix: &Matrix,
    state: &mut Vec<Amp>,
) -> (r: Result<(), Error>)
    ensures
        match r {
            Ok(()) => single_ok(*matrix, k, old(state)@.len() as int) && (old(state)@.len() > 0
                ==> tiles_ok(TILE as int, k)) && final(state)@ == single_step(
                *matrix,
                pow2(k as nat) as int,
                old(state)@,
            ),
            Err(Error::MatrixShape) => !matrix.is2() && final(state)@ == old(state)@,
            Err(Error::LengthMismatch) => matrix.is2() && !(single_ok(
                *matrix,
                k,
                old(state)@.len() as int,
            ) && (old(state)@.len() > 0 ==> tiles_ok(TILE as int, k))) && final(state)@ == old(
                state,
            )@,
            Err(_) => false,
        },
{
    match kernel_geometry(k, matrix, state.len()) {
        Err(e) => Err(e),
        Ok(None) => {
            proof {
                assert(state@ =~= single_step(*matrix, pow2(k as nat) as int, old(state)@));
            }
            Ok(())
        },
        Ok(Some((half, width))) => {
            if TILE == 0 || half % TILE != 0 {
                return Err(Error::LengthMismatch);
            }
            process_chunks(matrix, half, width, Some(TILE), state);
            proof {
                lemma_chunked_is_single_step(
                    *matrix,
                    pow2(k as nat) as int,
                    old(state)@,
                    state@,
                );
            }
            Ok(())
        },
    }
}

} // verus!
