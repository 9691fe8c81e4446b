//! Exact norm preservation.
//!
//! The squared magnitude of an amplitude is `z * conj(z)`; the norm of
//! a state is the sum of its amplitudes' squared magnitudes.  Every
//! operator a column composes is, up to its `sqrt(2)` denominator, a
//! scaled unitary: the conjugate transpose times the matrix is `2^denom`
//! times the identity.  Applying it therefore multiplies the summed
//! numerator norm by exactly `2^denom` while the denominator gains the
//! same factor, so the physical norm of the state never moves: it is
//! one at every step, exactly.

use vstd::prelude::*;
use vstd::arithmetic::power2::{pow2, lemma2_to64, lemma_pow2_adds, lemma_pow2_pos};

use crate::complex::{Cx, cx_zero, cx_one, cx_add, cx_mul};
use crate::circuit_validator::{GateToken, spec_validate, spec_token_of, col_tokens,
    col_all_valid, col_align_ok, spec_col_error, is_continuation, lemma_valid_grid};
use crate::circuit_parser::{gate_for, parse_col, rows_of, SpecPlacement, widths_sum,
    lemma_parse_covers, lemma_widths_concat, lemma_widths_cons};
use crate::simulator::{col_op, step_op, trace_at, initial_spec_state, no_cz};
use crate::quantum_state::{matvec_cx, row_dot};
use crate::quantum_gate::{omega_pow, id_mat, kron_cx, h_mat, x_mat, y_mat, z_mat, s_mat, t_mat,
    cnot_mat, cz_mat, swap_mat, ccnot_mat};

verus! {

/// Complex conjugation: `conj(w) == w^-1 == -w^3`, so the coefficient
/// vector `(a, b, c, d)` becomes `(a, -d, -c, -b)`.
pub open spec fn cx_conj(z: Cx) -> Cx {
    Cx { a: z.a, b: -z.d, c: -z.c, d: -z.b }
}

/// Sum of the first `n` entries of a sequence.
pub open spec fn csum(v: Seq<Cx>, n: int) -> Cx
    decreases n,
{
    if n <= 0 {
        cx_zero()
    } else {
        cx_add(csum(v, n - 1), v[n - 1])
    }
}

// ---------------------------------------------------------------------
// Ring facts, each one algebraic identity.
// ---------------------------------------------------------------------

pub proof fn lemma_mul_comm(x: Cx, y: Cx)
    ensures
        cx_mul(x, y) == cx_mul(y, x),
{
    assert(cx_mul(x, y) == cx_mul(y, x)) by (nonlinear_arith);
}

#[verifier::rlimit(50)]
pub proof fn lemma_mul_assoc(x: Cx, y: Cx, z: Cx)
    ensures
        cx_mul(cx_mul(x, y), z) == cx_mul(x, cx_mul(y, z)),
{
    broadcast use vstd::arithmetic::mul::lemma_mul_is_distributive_add,
        vstd::arithmetic::mul::lemma_mul_is_distributive_add_other_way,
        vstd::arithmetic::mul::lemma_mul_is_distributive_sub,
        vstd::arithmetic::mul::lemma_mul_is_distributive_sub_other_way,
        vstd::arithmetic::mul::lemma_mul_is_associative;

}

#[verifier::rlimit(50)]
pub proof fn lemma_mul_dist(x: Cx, y: Cx, z: Cx)
    ensures
        cx_mul(x, cx_add(y, z)) == cx_add(cx_mul(x, y), cx_mul(x, z)),
        cx_mul(cx_add(y, z), x) == cx_add(cx_mul(y, x), cx_mul(z, x)),
{
    broadcast use vstd::arithmetic::mul::lemma_mul_is_distributive_add,
        vstd::arithmetic::mul::lemma_mul_is_distributive_add_other_way;

}

pub proof fn lemma_mul_zero(x: Cx)
    ensures
        cx_mul(x, cx_zero()) == cx_zero(),
        cx_mul(cx_zero(), x) == cx_zero(),
{
    assert(cx_mul(x, cx_zero()) == cx_zero() && cx_mul(cx_zero(), x) == cx_zero())
        by (nonlinear_arith);
}

pub proof fn lemma_conj_mul(x: Cx, y: Cx)
    ensures
        cx_conj(cx_mul(x, y)) == cx_mul(cx_conj(x), cx_conj(y)),
{
    assert(cx_conj(cx_mul(x, y)) == cx_mul(cx_conj(x), cx_conj(y))) by (nonlinear_arith);
}

// ---------------------------------------------------------------------
// Sum lemmas.
// ---------------------------------------------------------------------

/// A sum of zeros is zero.
pub proof fn lemma_csum_zero(v: Seq<Cx>, n: int)
    requires
        forall|i: int| 0 <= i < n ==> #[trigger] v[i] == cx_zero(),
    ensures
        csum(v, n) == cx_zero(),
    decreases n,
{
    if n > 0 {
        lemma_csum_zero(v, n - 1);
    }
}

/// A sum whose entries vanish except at one index is that entry.
pub proof fn lemma_csum_single(v: Seq<Cx>, n: int, t: int)
    requires
        0 <= t < n,
        forall|i: int| 0 <= i < n && i != t ==> #[trigger] v[i] == cx_zero(),
    ensures
        csum(v, n) == v[t],
    decreases n,
{
    if t == n - 1 {
        lemma_csum_zero(v, n - 1);
    } else {
        lemma_csum_single(v, n - 1, t);
    }
}

/// Sums add entrywise.
pub proof fn lemma_csum_add(w: Seq<Cx>, u: Seq<Cx>, v: Seq<Cx>, n: int)
    requires
        forall|i: int| 0 <= i < n ==> #[trigger] w[i] == cx_add(u[i], v[i]),
    ensures
        csum(w, n) == cx_add(csum(u, n), csum(v, n)),
    decreases n,
{
    if n > 0 {
        lemma_csum_add(w, u, v, n - 1);
    }
}

/// A common left factor moves out of a sum.
pub proof fn lemma_csum_scale_left(w: Seq<Cx>, t: Cx, u: Seq<Cx>, n: int)
    requires
        forall|i: int| 0 <= i < n ==> #[trigger] w[i] == cx_mul(t, u[i]),
    ensures
        csum(w, n) == cx_mul(t, csum(u, n)),
    decreases n,
{
    if n <= 0 {
        lemma_mul_zero(t);
    } else {
        lemma_csum_scale_left(w, t, u, n - 1);
        lemma_mul_dist(t, csum(u, n - 1), u[n - 1]);
    }
}

/// A common right factor moves out of a sum.
pub proof fn lemma_csum_scale_right(w: Seq<Cx>, t: Cx, u: Seq<Cx>, n: int)
    requires
        forall|i: int| 0 <= i < n ==> #[trigger] w[i] == cx_mul(u[i], t),
    ensures
        csum(w, n) == cx_mul(csum(u, n), t),
    decreases n,
{
    if n <= 0 {
        lemma_mul_zero(t);
    } else {
        lemma_csum_scale_right(w, t, u, n - 1);
        lemma_mul_dist(t, csum(u, n - 1), u[n - 1]);
    }
}

/// Conjugation moves through a sum.
pub proof fn lemma_csum_conj(w: Seq<Cx>, u: Seq<Cx>, n: int)
    requires
        forall|i: int| 0 <= i < n ==> #[trigger] w[i] == cx_conj(u[i]),
    ensures
        csum(w, n) == cx_conj(csum(u, n)),
    decreases n,
{
    if n > 0 {
        lemma_csum_conj(w, u, n - 1);
    }
}

/// Sums over equal prefixes are equal.
pub proof fn lemma_csum_congr(w: Seq<Cx>, u: Seq<Cx>, n: int)
    requires
        forall|i: int| 0 <= i < n ==> #[trigger] w[i] == u[i],
    ensures
        csum(w, n) == csum(u, n),
    decreases n,
{
    if n > 0 {
        lemma_csum_congr(w, u, n - 1);
    }
}

/// A sum over `a + b` entries splits at `a`.
pub proof fn lemma_csum_split(v: Seq<Cx>, a: int, b: int)
    requires
        a >= 0,
        b >= 0,
    ensures
        csum(v, a + b) == cx_add(csum(v, a), csum(Seq::new(b as nat, |i: int| v[a + i]), b)),
    decreases b,
{
    let tail = Seq::new(b as nat, |i: int| v[a + i]);
    if b <= 0 {
    } else {
        let tail1 = Seq::new((b - 1) as nat, |i: int| v[a + i]);
        lemma_csum_split(v, a, b - 1);
        lemma_csum_congr(tail, tail1, b - 1);
        assert(tail[b - 1] == v[a + b - 1]);
    }
}

/// Exchanging the order of a double sum: summing each of `m` rows and
/// adding the row totals equals summing each of `n` columns and adding
/// the column totals.
pub proof fn lemma_fubini(g: Seq<Seq<Cx>>, m: int, n: int)
    requires
        m >= 0,
        n >= 0,
    ensures
        csum(Seq::new(m as nat, |r: int| csum(g[r], n)), m) == csum(
            Seq::new(n as nat, |c: int| csum(Seq::new(m as nat, |r: int| g[r][c]), m)),
            n,
        ),
    decreases m,
{
    let rows = Seq::new(m as nat, |r: int| csum(g[r], n));
    let cols = Seq::new(n as nat, |c: int| csum(Seq::new(m as nat, |r: int| g[r][c]), m));
    if m == 0 {
        assert forall|c: int| 0 <= c < n implies #[trigger] cols[c] == cx_zero() by {
            assert(csum(Seq::new(0, |r: int| g[r][c]), 0) == cx_zero());
        }
        lemma_csum_zero(cols, n);
    } else {
        let rows1 = Seq::new((m - 1) as nat, |r: int| csum(g[r], n));
        let cols1 = Seq::new(
            n as nat,
            |c: int| csum(Seq::new((m - 1) as nat, |r: int| g[r][c]), m - 1),
        );
        let last = Seq::new(n as nat, |c: int| g[m - 1][c]);
        lemma_fubini(g, m - 1, n);
        lemma_csum_congr(rows, rows1, m - 1);
        assert(csum(rows, m) == cx_add(csum(rows1, m - 1), csum(g[m - 1], n)));
        assert forall|c: int| 0 <= c < n implies #[trigger] cols[c] == cx_add(
            cols1[c],
            last[c],
        ) by {
            let whole = Seq::new(m as nat, |r: int| g[r][c]);
            let front = Seq::new((m - 1) as nat, |r: int| g[r][c]);
            lemma_csum_congr(whole, front, m - 1);
            assert(csum(whole, m) == cx_add(csum(front, m - 1), whole[m - 1]));
        }
        lemma_csum_add(cols, cols1, last, n);
        lemma_csum_congr(last, g[m - 1], n);
    }
}

/// A sum over a product range `da * db` whose entries factor as
/// `g[r / db] * h[r % db]` is the product of the two sums.
pub proof fn lemma_csum_blocks(w: Seq<Cx>, g: Seq<Cx>, h: Seq<Cx>, da: int, db: int)
    requires
        da >= 0,
        db >= 1,
        forall|r: int|
            0 <= r < da * db ==> #[trigger] w[r] == cx_mul(g[r / db], h[r % db]),
    ensures
        csum(w, da * db) == cx_mul(csum(g, da), csum(h, db)),
    decreases da,
{
    broadcast use vstd::arithmetic::mul::lemma_mul_is_distributive_sub_other_way;

    if da == 0 {
        lemma_mul_zero(csum(h, db));
    } else {
        assert((da - 1) * db + db == da * db);
        assert((da - 1) * db >= 0) by (nonlinear_arith)
            requires
                da >= 1,
                db >= 1,
        ;
        lemma_csum_split(w, (da - 1) * db, db);
        let tail = Seq::new(db as nat, |i: int| w[(da - 1) * db + i]);
        assert forall|i: int| 0 <= i < db implies #[trigger] tail[i] == cx_mul(
            g[da - 1],
            h[i],
        ) by {
            let r = (da - 1) * db + i;
            assert(r / db == da - 1 && r % db == i) by (nonlinear_arith)
                requires
                    r == (da - 1) * db + i,
                    0 <= i < db,
                    db >= 1,
                    da >= 1,
            ;
            assert(0 <= r < da * db) by (nonlinear_arith)
                requires
                    r == (da - 1) * db + i,
                    0 <= i < db,
                    db >= 1,
                    da >= 1,
            ;
        }
        lemma_csum_scale_left(tail, g[da - 1], h, db);
        assert forall|r: int| 0 <= r < (da - 1) * db implies #[trigger] w[r] == cx_mul(
            g[r / db],
            h[r % db],
        ) by {
            assert((da - 1) * db <= da * db) by (nonlinear_arith)
                requires
                    da >= 1,
                    db >= 1,
            ;
        }
        lemma_csum_blocks(w, g, h, da - 1, db);
        lemma_mul_dist(csum(h, db), csum(g, da - 1), g[da - 1]);
    }
}

// ---------------------------------------------------------------------
// Gram entries: the conjugate transpose times the matrix.
// ---------------------------------------------------------------------

/// The integer `n` as a ring element.
pub open spec fn cx_int(n: int) -> Cx {
    Cx { a: n, b: 0, c: 0, d: 0 }
}

/// Entry `(c1, c2)` of `conj(M)^T * M`.
pub open spec fn gram_entry(m: Seq<Seq<Cx>>, c1: int, c2: int) -> Cx {
    csum(
        Seq::new(m.len(), |r: int| cx_mul(cx_conj(m[r][c1]), m[r][c2])),
        m.len() as int,
    )
}

/// `conj(M)^T * M == s * I`: the matrix is `sqrt(s)` times a unitary.
/// The catalog's numerator matrices all have this shape, with
/// `s == 2^denom`.
pub open spec fn gram_ok(m: Seq<Seq<Cx>>, s: int) -> bool {
    forall|c1: int, c2: int|
        0 <= c1 < m.len() && 0 <= c2 < m.len() ==> #[trigger] gram_entry(m, c1, c2) == (
        if c1 == c2 {
            cx_int(s)
        } else {
            cx_zero()
        })
}

/// Any power of `w` has unit modulus.
proof fn lemma_omega_unit(j: int)
    ensures
        cx_mul(cx_conj(omega_pow(j)), omega_pow(j)) == cx_int(1),
{
    if j == 0 {
        assert(cx_mul(cx_conj(omega_pow(0)), omega_pow(0)) == cx_int(1));
    } else if j == 1 {
        assert(cx_mul(cx_conj(omega_pow(1)), omega_pow(1)) == cx_int(1));
    } else if j == 2 {
        assert(cx_mul(cx_conj(omega_pow(2)), omega_pow(2)) == cx_int(1));
    } else if j == 3 {
        assert(cx_mul(cx_conj(omega_pow(3)), omega_pow(3)) == cx_int(1));
    } else if j == 4 {
        assert(cx_mul(cx_conj(omega_pow(4)), omega_pow(4)) == cx_int(1));
    } else if j == 5 {
        assert(cx_mul(cx_conj(omega_pow(5)), omega_pow(5)) == cx_int(1));
    } else if j == 6 {
        assert(cx_mul(cx_conj(omega_pow(6)), omega_pow(6)) == cx_int(1));
    } else {
        assert(cx_mul(cx_conj(omega_pow(j)), omega_pow(j)) == cx_int(1));
    }
}

/// A matrix with exactly one nonzero entry per column, each a power
/// of `w`, in pairwise distinct rows, satisfies `conj(M)^T M == I`.
proof fn lemma_mono_gram(m: Seq<Seq<Cx>>, p: Seq<int>, e: Seq<int>)
    requires
        forall|c: int| 0 <= c < m.len() ==> 0 <= #[trigger] p[c] < m.len(),
        forall|c1: int, c2: int|
            0 <= c1 < m.len() && 0 <= c2 < m.len() && c1 != c2 ==> p[c1] != p[c2],
        forall|r: int, c: int|
            0 <= r < m.len() && 0 <= c < m.len() ==> #[trigger] m[r][c] == (
            if r == p[c] {
                omega_pow(e[c])
            } else {
                cx_zero()
            }),
    ensures
        gram_ok(m, 1),
{
    let n = m.len() as int;
    assert forall|c1: int, c2: int|
        0 <= c1 < m.len() && 0 <= c2 < m.len() implies #[trigger] gram_entry(m, c1, c2) == (
    if c1 == c2 {
        cx_int(1)
    } else {
        cx_zero()
    }) by {
        let w = Seq::new(m.len(), |r: int| cx_mul(cx_conj(m[r][c1]), m[r][c2]));
        if c1 == c2 {
            assert forall|r: int| 0 <= r < n && r != p[c1] implies #[trigger] w[r]
                == cx_zero() by {
                assert(m[r][c1] == cx_zero());
                lemma_mul_zero(m[r][c2]);
            }
            lemma_csum_single(w, n, p[c1]);
            lemma_omega_unit(e[c1]);
            assert(w[p[c1]] == cx_mul(cx_conj(omega_pow(e[c1])), omega_pow(e[c1])));
        } else {
            assert forall|r: int| 0 <= r < n implies #[trigger] w[r] == cx_zero() by {
                if r == p[c1] {
                    assert(m[r][c2] == cx_zero());
                    lemma_mul_zero(cx_conj(m[r][c1]));
                } else {
                    assert(m[r][c1] == cx_zero());
                    lemma_mul_zero(m[r][c2]);
                }
            }
            lemma_csum_zero(w, n);
        }
    }
}

proof fn lemma_mul_four(a: Cx, b: Cx, c: Cx, d: Cx)
    ensures
        cx_mul(cx_mul(a, b), cx_mul(c, d)) == cx_mul(cx_mul(a, c), cx_mul(b, d)),
{
    lemma_mul_assoc(a, b, cx_mul(c, d));
    lemma_mul_assoc(b, c, d);
    lemma_mul_comm(b, c);
    lemma_mul_assoc(c, b, d);
    lemma_mul_assoc(a, c, cx_mul(b, d));
}

proof fn lemma_int_mul(p: int, q: int)
    ensures
        cx_mul(cx_int(p), cx_int(q)) == cx_int(p * q),
{
    assert(cx_mul(cx_int(p), cx_int(q)) == cx_int(p * q)) by (nonlinear_arith);
}

/// The Kronecker product of two scaled unitaries is a scaled unitary,
/// the scales multiplying.
proof fn lemma_kron_gram(x: Seq<Seq<Cx>>, y: Seq<Seq<Cx>>, sx: int, sy: int)
    requires
        gram_ok(x, sx),
        gram_ok(y, sy),
        y.len() >= 1,
    ensures
        gram_ok(kron_cx(x, y), sx * sy),
{
    let nx = x.len() as int;
    let ny = y.len() as int;
    let k = kron_cx(x, y);
    let nk = nx * ny;
    assert(k.len() == nk);
    assert forall|c1: int, c2: int|
        0 <= c1 < k.len() && 0 <= c2 < k.len() implies #[trigger] gram_entry(k, c1, c2) == (
    if c1 == c2 {
        cx_int(sx * sy)
    } else {
        cx_zero()
    }) by {
        assert(0 <= c1 / ny < nx && 0 <= c2 / ny < nx && 0 <= c1 % ny < ny && 0 <= c2 % ny
            < ny) by (nonlinear_arith)
            requires
                0 <= c1 < nx * ny,
                0 <= c2 < nx * ny,
                ny >= 1,
        ;
        let w = Seq::new(k.len(), |r: int| cx_mul(cx_conj(k[r][c1]), k[r][c2]));
        let g = Seq::new(x.len(), |ra: int| cx_mul(cx_conj(x[ra][c1 / ny]), x[ra][c2 / ny]));
        let h = Seq::new(y.len(), |rb: int| cx_mul(cx_conj(y[rb][c1 % ny]), y[rb][c2 % ny]));
        assert forall|r: int| 0 <= r < nx * ny implies #[trigger] w[r] == cx_mul(
            g[r / ny],
            h[r % ny],
        ) by {
            assert(0 <= r / ny < nx && 0 <= r % ny < ny) by (nonlinear_arith)
                requires
                    0 <= r < nx * ny,
                    ny >= 1,
            ;
            assert(k[r][c1] == cx_mul(x[r / ny][c1 / ny], y[r % ny][c1 % ny]));
            assert(k[r][c2] == cx_mul(x[r / ny][c2 / ny], y[r % ny][c2 % ny]));
            lemma_conj_mul(x[r / ny][c1 / ny], y[r % ny][c1 % ny]);
            lemma_mul_four(
                cx_conj(x[r / ny][c1 / ny]),
                cx_conj(y[r % ny][c1 % ny]),
                x[r / ny][c2 / ny],
                y[r % ny][c2 % ny],
            );
        }
        lemma_csum_blocks(w, g, h, nx, ny);
        assert(csum(w, nk) == cx_mul(csum(g, nx), csum(h, ny)));
        assert(gram_entry(k, c1, c2) == csum(w, nk));
        assert(csum(g, nx) == gram_entry(x, c1 / ny, c2 / ny));
        assert(csum(h, ny) == gram_entry(y, c1 % ny, c2 % ny));
        assert((c1 == c2) == (c1 / ny == c2 / ny && c1 % ny == c2 % ny)) by (nonlinear_arith)
            requires
                ny >= 1,
                c1 >= 0,
                c2 >= 0,
        ;
        if c1 == c2 {
            lemma_int_mul(sx, sy);
        } else {
            if c1 / ny == c2 / ny {
                lemma_mul_zero(cx_int(sx));
            } else {
                lemma_mul_zero(gram_entry(y, c1 % ny, c2 % ny));
            }
        }
    }
}

/// Every catalog gate's numerator matrix is `sqrt(2)^denom` times a
/// unitary: its Gram matrix is `2^denom` times the identity.
pub proof fn lemma_gate_gram(t: GateToken)
    ensures
        gram_ok(gate_for(t).mat, pow2(gate_for(t).denom) as int),
{
    lemma2_to64();
    match t {
        GateToken::H => {
            lemma_h_gram();
        },
        GateToken::X => {
            lemma_mono_gram(x_mat(), seq![1, 0], seq![0, 0]);
        },
        GateToken::Y => {
            lemma_mono_gram(y_mat(), seq![1, 0], seq![2, 6]);
        },
        GateToken::Z => {
            lemma_mono_gram(z_mat(), seq![0, 1], seq![0, 4]);
        },
        GateToken::T => {
            lemma_mono_gram(t_mat(), seq![0, 1], seq![0, 1]);
        },
        GateToken::S => {
            lemma_mono_gram(s_mat(), seq![0, 1], seq![0, 2]);
        },
        GateToken::Cz => {
            lemma_mono_gram(cz_mat(), seq![0, 1, 2, 3], seq![0, 0, 0, 4]);
        },
        GateToken::Cnot1 => {
            lemma_mono_gram(cnot_mat(), seq![0, 1, 3, 2], seq![0, 0, 0, 0]);
        },
        GateToken::Swap1 => {
            lemma_mono_gram(swap_mat(), seq![0, 2, 1, 3], seq![0, 0, 0, 0]);
        },
        GateToken::Ccnot1 => {
            lemma_mono_gram(
                ccnot_mat(),
                seq![0, 1, 2, 3, 4, 5, 7, 6],
                seq![0, 0, 0, 0, 0, 0, 0, 0],
            );
        },
        _ => {
            lemma_mono_gram(id_mat(2), seq![0, 1], seq![0, 0]);
        },
    }
}

/// The one-by-one identity is unitary.
pub proof fn lemma_unit_gram()
    ensures
        gram_ok(id_mat(1), 1),
{
    lemma_mono_gram(id_mat(1), seq![0], seq![0]);
}

proof fn lemma_h_gram()
    ensures
        gram_ok(h_mat(), 2),
{
    reveal_with_fuel(csum, 3);
    lemma_omega_unit(0);
    lemma_omega_unit(4);
    assert(cx_one() == omega_pow(0));
    assert(cx_mul(cx_conj(cx_one()), cx_one()) == cx_int(1));
    assert(cx_mul(cx_conj(cx_one()), omega_pow(4)) == cx_int(-1)) by (nonlinear_arith);
    assert(cx_mul(cx_conj(omega_pow(4)), cx_one()) == cx_int(-1)) by (nonlinear_arith);
    assert(cx_mul(cx_conj(omega_pow(4)), omega_pow(4)) == cx_int(1));
    assert forall|c1: int, c2: int|
        0 <= c1 < h_mat().len() && 0 <= c2 < h_mat().len() implies #[trigger] gram_entry(
        h_mat(),
        c1,
        c2,
    ) == (if c1 == c2 {
        cx_int(2)
    } else {
        cx_zero()
    }) by {
        let w = Seq::new(h_mat().len(), |r: int| cx_mul(cx_conj(h_mat()[r][c1]), h_mat()[r][c2]));
        assert(gram_entry(h_mat(), c1, c2) == csum(w, 2));
        assert(csum(w, 2) == cx_add(cx_add(cx_zero(), w[0]), w[1]));
        assert(h_mat()[0][0] == cx_one() && h_mat()[0][1] == cx_one() && h_mat()[1][0]
            == cx_one() && h_mat()[1][1] == omega_pow(4));
        if c1 == 0 && c2 == 0 {
            assert(w[0] == cx_mul(cx_conj(cx_one()), cx_one()));
            assert(w[1] == cx_mul(cx_conj(cx_one()), cx_one()));
            assert(cx_mul(cx_conj(cx_one()), cx_one()) == cx_int(1));
        } else if c1 == 0 && c2 == 1 {
            assert(w[0] == cx_mul(cx_conj(cx_one()), cx_one()));
            assert(w[1] == cx_mul(cx_conj(cx_one()), omega_pow(4)));
            assert(cx_mul(cx_conj(cx_one()), cx_one()) == cx_int(1));
            assert(cx_mul(cx_conj(cx_one()), omega_pow(4)) == cx_int(-1));
        } else if c1 == 1 && c2 == 0 {
            assert(w[0] == cx_mul(cx_conj(cx_one()), cx_one()));
            assert(w[1] == cx_mul(cx_conj(omega_pow(4)), cx_one()));
            assert(cx_mul(cx_conj(cx_one()), cx_one()) == cx_int(1));
            assert(cx_mul(cx_conj(omega_pow(4)), cx_one()) == cx_int(-1));
        } else {
            assert(w[0] == cx_mul(cx_conj(cx_one()), cx_one()));
            assert(w[1] == cx_mul(cx_conj(omega_pow(4)), omega_pow(4)));
            assert(cx_mul(cx_conj(cx_one()), cx_one()) == cx_int(1));
            assert(cx_mul(cx_conj(omega_pow(4)), omega_pow(4)) == cx_int(1));
        }
    }
}

// ---------------------------------------------------------------------
// Norm preservation under a scaled unitary.
// ---------------------------------------------------------------------

/// The summed squared magnitudes of a vector's numerators.
pub open spec fn norm2(v: Seq<Cx>) -> Cx {
    csum(Seq::new(v.len(), |i: int| cx_mul(cx_conj(v[i]), v[i])), v.len() as int)
}

proof fn lemma_row_dot_csum(row: Seq<Cx>, v: Seq<Cx>, fam: Seq<Cx>, k: int)
    requires
        forall|c: int| 0 <= c < k ==> #[trigger] fam[c] == cx_mul(row[c], v[c]),
    ensures
        row_dot(row, v, k) == csum(fam, k),
    decreases k,
{
    if k > 0 {
        lemma_row_dot_csum(row, v, fam, k - 1);
    }
}

/// Multiplying by a matrix whose Gram matrix is `s * I` multiplies the
/// summed squared magnitudes by exactly `s`.
#[verifier::rlimit(50)]
pub proof fn lemma_matvec_norm(m: Seq<Seq<Cx>>, v: Seq<Cx>, s: int)
    requires
        gram_ok(m, s),
        v.len() == m.len(),
    ensures
        norm2(matvec_cx(m, v)) == cx_mul(cx_int(s), norm2(v)),
{
    let n = m.len() as int;
    let w = matvec_cx(m, v);
    assert(w.len() == n);
    let tfam = Seq::new(w.len(), |r: int| cx_mul(cx_conj(w[r]), w[r]));
    let g1 = Seq::new(
        n as nat,
        |r: int|
            Seq::new(
                n as nat,
                |c: int| cx_mul(cx_mul(cx_conj(m[r][c]), cx_conj(v[c])), w[r]),
            ),
    );
    assert forall|r: int| 0 <= r < n implies #[trigger] tfam[r] == csum(g1[r], n) by {
        let prod = Seq::new(n as nat, |c: int| cx_mul(m[r][c], v[c]));
        lemma_row_dot_csum(m[r], v, prod, n);
        assert(w[r] == row_dot(m[r], v, n));
        assert(w[r] == csum(prod, n));
        let conjprod = Seq::new(n as nat, |c: int| cx_mul(cx_conj(m[r][c]), cx_conj(v[c])));
        assert forall|c: int| 0 <= c < n implies #[trigger] conjprod[c] == cx_conj(
            prod[c],
        ) by {
            lemma_conj_mul(m[r][c], v[c]);
        }
        lemma_csum_conj(conjprod, prod, n);
        assert(cx_conj(w[r]) == csum(conjprod, n));
        assert forall|c: int| 0 <= c < n implies #[trigger] g1[r][c] == cx_mul(
            conjprod[c],
            w[r],
        ) by {}
        lemma_csum_scale_right(g1[r], w[r], conjprod, n);
    }
    let rowsums = Seq::new(n as nat, |r: int| csum(g1[r], n));
    lemma_csum_congr(tfam, rowsums, n);
    lemma_fubini(g1, n, n);
    let colsums = Seq::new(n as nat, |c: int| csum(Seq::new(n as nat, |r: int| g1[r][c]), n));
    let vnorm_fam = Seq::new(v.len(), |c: int| cx_mul(cx_conj(v[c]), v[c]));
    assert forall|c: int| 0 <= c < n implies #[trigger] colsums[c] == cx_mul(
        vnorm_fam[c],
        cx_int(s),
    ) by {
        let colfam = Seq::new(n as nat, |r: int| g1[r][c]);
        let g2 = Seq::new(
            n as nat,
            |r: int|
                Seq::new(
                    n as nat,
                    |cp: int|
                        cx_mul(
                            cx_mul(cx_conj(m[r][c]), cx_conj(v[c])),
                            cx_mul(m[r][cp], v[cp]),
                        ),
                ),
        );
        assert forall|r: int| 0 <= r < n implies #[trigger] colfam[r] == csum(g2[r], n) by {
            let prod = Seq::new(n as nat, |cp: int| cx_mul(m[r][cp], v[cp]));
            lemma_row_dot_csum(m[r], v, prod, n);
            assert(w[r] == row_dot(m[r], v, n));
            assert(w[r] == csum(prod, n));
            assert forall|cp: int| 0 <= cp < n implies #[trigger] g2[r][cp] == cx_mul(
                cx_mul(cx_conj(m[r][c]), cx_conj(v[c])),
                prod[cp],
            ) by {}
            lemma_csum_scale_left(g2[r], cx_mul(cx_conj(m[r][c]), cx_conj(v[c])), prod, n);
            assert(colfam[r] == cx_mul(cx_mul(cx_conj(m[r][c]), cx_conj(v[c])), w[r]));
        }
        let rowsums2 = Seq::new(n as nat, |r: int| csum(g2[r], n));
        lemma_csum_congr(colfam, rowsums2, n);
        lemma_fubini(g2, n, n);
        let colsums2 = Seq::new(
            n as nat,
            |cp: int| csum(Seq::new(n as nat, |r: int| g2[r][cp]), n),
        );
        let kc = cx_mul(cx_conj(v[c]), v[c]);
        assert forall|cp: int| 0 <= cp < n implies #[trigger] colsums2[cp] == (
        if cp == c {
            cx_mul(kc, cx_int(s))
        } else {
            cx_zero()
        }) by {
            let inner = Seq::new(n as nat, |r: int| g2[r][cp]);
            let gramfam = Seq::new(m.len(), |r: int| cx_mul(cx_conj(m[r][c]), m[r][cp]));
            let kcp = cx_mul(cx_conj(v[c]), v[cp]);
            assert forall|r: int| 0 <= r < n implies #[trigger] inner[r] == cx_mul(
                kcp,
                gramfam[r],
            ) by {
                lemma_mul_four(cx_conj(m[r][c]), cx_conj(v[c]), m[r][cp], v[cp]);
                lemma_mul_comm(cx_mul(cx_conj(m[r][c]), m[r][cp]), kcp);
            }
            lemma_csum_scale_left(inner, kcp, gramfam, n);
            assert(csum(gramfam, n) == gram_entry(m, c, cp));
            if cp == c {
            } else {
                lemma_mul_zero(kcp);
            }
        }
        lemma_csum_single(colsums2, n, c);
    }
    lemma_csum_scale_right(colsums, cx_int(s), vnorm_fam, n);
    lemma_mul_comm(csum(vnorm_fam, n), cx_int(s));
    assert(norm2(w) == csum(tfam, n));
    assert(norm2(v) == csum(vnorm_fam, n));
}

// ---------------------------------------------------------------------
// Norm preservation along the whole run.
// ---------------------------------------------------------------------

/// Every placement a column parses to carries a scaled-unitary gate of
/// the right dimension.
proof fn lemma_parse_gram(col: Seq<GateToken>, i: int)
    requires
        0 <= i <= col.len(),
    ensures
        forall|k: int|
            0 <= k < parse_col(col, i).len() ==> {
                let g = (#[trigger] parse_col(col, i)[k]).gate;
                gram_ok(g.mat, pow2(g.denom) as int) && g.mat.len() == pow2(g.width)
            },
    decreases col.len() - i,
{
    if i < col.len() {
        let t = col[i];
        if is_continuation(t) {
            lemma_parse_gram(col, i + 1);
            assert(parse_col(col, i) == parse_col(col, i + 1));
            assert forall|k: int| 0 <= k < parse_col(col, i).len() implies {
                let g = (#[trigger] parse_col(col, i)[k]).gate;
                gram_ok(g.mat, pow2(g.denom) as int) && g.mat.len() == pow2(g.width)
            } by {
                assert(parse_col(col, i)[k] == parse_col(col, i + 1)[k]);
            }
        } else {
            let nx = if i + rows_of(t) <= col.len() {
                i + rows_of(t)
            } else {
                col.len() as int
            };
            lemma_parse_gram(col, nx);
            lemma_gate_gram(t);
            lemma2_to64();
            assert(gate_for(t).mat.len() == pow2(gate_for(t).width));
            let head = SpecPlacement { gate: gate_for(t), start: i };
            assert(parse_col(col, i) == seq![head] + parse_col(col, nx));
            assert forall|k: int| 0 <= k < parse_col(col, i).len() implies {
                let g = (#[trigger] parse_col(col, i)[k]).gate;
                gram_ok(g.mat, pow2(g.denom) as int) && g.mat.len() == pow2(g.width)
            } by {
                if k == 0 {
                    assert(parse_col(col, i)[0] == head);
                } else {
                    assert(parse_col(col, i)[k] == parse_col(col, nx)[k - 1]);
                }
            }
        }
    }
}

/// The composed column operator is a scaled unitary of the composed
/// dimension.
proof fn lemma_col_op_gram(sps: Seq<SpecPlacement>)
    requires
        forall|k: int|
            0 <= k < sps.len() ==> {
                let g = (#[trigger] sps[k]).gate;
                gram_ok(g.mat, pow2(g.denom) as int) && g.mat.len() == pow2(g.width)
            },
    ensures
        gram_ok(col_op(sps).mat, pow2(col_op(sps).denom) as int),
        col_op(sps).mat.len() == pow2(col_op(sps).width),
    decreases sps.len(),
{
    if sps.len() == 0 {
        lemma_unit_gram();
        lemma2_to64();
    } else {
        let dl = sps.drop_last();
        let last = sps.last();
        assert forall|k: int| 0 <= k < dl.len() implies {
            let g = (#[trigger] dl[k]).gate;
            gram_ok(g.mat, pow2(g.denom) as int) && g.mat.len() == pow2(g.width)
        } by {
            assert(dl[k] == sps[k]);
        }
        lemma_col_op_gram(dl);
        assert(sps[sps.len() - 1] == last);
        lemma_pow2_pos(last.gate.width);
        lemma_kron_gram(
            col_op(dl).mat,
            last.gate.mat,
            pow2(col_op(dl).denom) as int,
            pow2(last.gate.denom) as int,
        );
        lemma_pow2_adds(col_op(dl).denom, last.gate.denom);
        lemma_pow2_adds(col_op(dl).width, last.gate.width);
    }
}

/// The composed operator's width is the sum of the placements' widths.
proof fn lemma_col_op_width(sps: Seq<SpecPlacement>)
    ensures
        col_op(sps).width == widths_sum(sps),
    decreases sps.len(),
{
    if sps.len() > 0 {
        let dl = sps.drop_last();
        let last = sps.last();
        lemma_col_op_width(dl);
        assert(sps =~= dl + seq![last]);
        lemma_widths_concat(dl, seq![last]);
        lemma_widths_cons(last, Seq::empty());
        assert(seq![last] + Seq::<SpecPlacement>::empty() =~= seq![last]);
    }
}

/// Unitary evolution preserves the norm, exactly: at every step of a
/// validated, `CZ`-free run, the summed squared magnitudes of the
/// state's numerators equal `2^denom`, so the state's physical norm
/// (numerators over `sqrt(2)^denom`) is exactly one.
pub proof fn lemma_norm_preserved(gv: Seq<Seq<Seq<char>>>, j: int)
    requires
        spec_validate(gv) is Ok,
        no_cz(gv),
        0 <= j <= gv[0].len(),
    ensures
        trace_at(gv, j).amps.len() == pow2(gv.len()),
        norm2(trace_at(gv, j).amps) == cx_int(pow2(trace_at(gv, j).denom) as int),
    decreases j,
{
    lemma_valid_grid(gv);
    let n = gv.len();
    lemma2_to64();
    if j <= 0 {
        let v = initial_spec_state(n).amps;
        let fam = Seq::new(v.len(), |i: int| cx_mul(cx_conj(v[i]), v[i]));
        lemma_pow2_pos(n);
        assert forall|i: int| 0 <= i < v.len() && i != 0 implies #[trigger] fam[i]
            == cx_zero() by {
            assert(v[i] == cx_zero());
            lemma_mul_zero(cx_conj(cx_zero()));
        }
        lemma_csum_single(fam, v.len() as int, 0);
        lemma_omega_unit(0);
        assert(fam[0] == cx_mul(cx_conj(cx_one()), cx_one()));
        assert(cx_one() == omega_pow(0));
    } else {
        lemma_norm_preserved(gv, j - 1);
        let toks = col_tokens(gv, j - 1);
        assert(spec_col_error(gv, j - 1) is None);
        assert(col_all_valid(gv, j - 1));
        assert(col_align_ok(toks, 0, None));
        assert forall|r: int| 0 <= r < toks.len() implies #[trigger] toks[r]
            != GateToken::Cz by {
            assert(spec_token_of(gv[r][j - 1]) != Some(GateToken::Cz));
            assert(spec_token_of(gv[r][j - 1]) is Some);
        }
        lemma_parse_covers(toks, 0);
        let sps = parse_col(toks, 0);
        lemma_parse_gram(toks, 0);
        lemma_col_op_gram(sps);
        lemma_col_op_width(sps);
        let op = step_op(gv, j - 1);
        assert(op.width == n);
        let prev = trace_at(gv, j - 1);
        assert(prev.amps.len() == pow2(n));
        assert(op.mat.len() == pow2(n));
        lemma_matvec_norm(op.mat, prev.amps, pow2(op.denom) as int);
        lemma_int_mul(pow2(op.denom) as int, pow2(prev.denom) as int);
        lemma_pow2_adds(op.denom, prev.denom);
        assert(trace_at(gv, j).amps == matvec_cx(op.mat, prev.amps));
        assert(trace_at(gv, j).denom == prev.denom + op.denom);
    }
}

} // verus!
