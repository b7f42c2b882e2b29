//! The Lagrange layer: re-expressing the commitment basis in evaluation
//! form. The radix-2 butterfly over group elements is the crate's own
//! verified code, proved to compute the discrete Fourier transform of its
//! input over the domain's root of unity; the root itself and scalar-side
//! interpolation come from `ark_poly` behind trusted wrappers.
use ark_ff::Zero;
use ark_poly::EvaluationDomain;
use ark_serialize::{CanonicalDeserialize, CanonicalSerialize};
use vstd::prelude::*;

verus! {

use crate::algebra::{fadd, finv, fmul, fneg, fpow, group_order, red};
use crate::field::Scalar;
use crate::group::{indices_of, vals_of, Point};
use crate::prove::Commitment;
use crate::seqs::{all_red, dot, even_entries, odd_entries, powers_of};
use crate::IpaScheme;
use vstd::arithmetic::power2::pow2;

/// The coefficients of the interpolation of the given values on the radix-2
/// evaluation domain of their length.
pub uninterp spec fn interp_coeffs(evals: Seq<nat>) -> Seq<nat>;

/// The root of unity generating the radix-2 evaluation domain of size `n`.
pub uninterp spec fn omega_of(n: nat) -> nat;

/// The discrete Fourier transform: position `i` holds the inner product of
/// the input with the powers of `w^i`.
pub open spec fn dft(v: Seq<nat>, w: nat) -> Seq<nat> {
    Seq::new(v.len(), |i: int| dot(v, powers_of(fpow(w, i as nat), v.len())))
}

/// The exponent the inverse transform reads at position `i`: the forward
/// transform's output order reversed past the first entry.
pub open spec fn rev_exp(n: nat, i: int) -> nat {
    if i == 0 {
        0
    } else {
        (n - i) as nat
    }
}

/// Relies on `ark_poly`'s `Radix2EvaluationDomain`: its `group_gen` is a
/// primitive root of unity of order `n`, so its `n`-th power is one and,
/// being the primitive root of a two-power order in a field, its `n/2`-th
/// power is minus one.
#[verifier::external_body]
pub(crate) fn domain_root(n: usize) -> (r: Scalar)
    requires
        exists|k: nat| k <= 30 && n == pow2(k),
    ensures
        r.val() == omega_of(n as nat),
        fpow(r.val(), n as nat) == 1,
        n >= 2 ==> fpow(r.val(), (n / 2) as nat) == fneg(1),
{
    let domain = ark_poly::Radix2EvaluationDomain::<ark_pallas::Fr>::new(n).unwrap();
    let mut bytes = Vec::new();
    domain.group_gen.serialize(&mut bytes).unwrap();
    Scalar { bytes }
}

/// Relies on `ark_poly`'s `Evaluations::interpolate` on the radix-2 domain:
/// it returns the coefficients, here padded back to full length, of the
/// unique polynomial of degree below `n` whose evaluations on the domain are
/// the inputs. The result is a function of the values alone, named
/// `interp_coeffs`; evaluating it back on the domain returns the inputs.
#[verifier::external_body]
pub(crate) fn interpolate(evals: &Vec<Scalar>, k: u8) -> (r: Vec<Scalar>)
    requires
        k <= 30,
        evals@.len() == pow2(k as nat),
    ensures
        r@.len() == evals@.len(),
        vals_of(r@) == interp_coeffs(vals_of(evals@)),
        forall|j: int|
            0 <= j < evals@.len() ==> dot(
                vals_of(r@),
                powers_of(fpow(omega_of(evals@.len()), j as nat), evals@.len()),
            ) == vals_of(evals@)[j] % group_order(),
{
    let n = evals.len();
    let domain = ark_poly::Radix2EvaluationDomain::<ark_pallas::Fr>::new(n).unwrap();
    let evs: Vec<ark_pallas::Fr> =
        evals.iter().map(|s| ark_pallas::Fr::deserialize(&s.bytes[..]).unwrap()).collect();
    let mut coeffs = ark_poly::Evaluations::from_vec_and_domain(evs, domain).interpolate().coeffs;
    coeffs.resize(n, ark_pallas::Fr::zero());
    coeffs.into_iter().map(|f| {
        let mut bytes = Vec::new();
        f.serialize(&mut bytes).unwrap();
        Scalar { bytes }
    }).collect()
}

impl IpaScheme {
    /// The commitments to the Lagrange interpolation polynomials of the
    /// scheme's domain, computed from the coefficient basis by one inverse
    /// FFT over group elements: commitment `i` is the basis combined with
    /// the powers of `omega^(n-i)`, scaled by the inverse of the domain
    /// size — the coefficient vector of the `i`-th Lagrange polynomial.
    pub fn lagrange_commitments(&self) -> (r: Vec<Commitment>)
        ensures
            r@.len() == self.degree_spec(),
            fmul(self.degree_spec(), finv(self.degree_spec())) == 1,
            forall|i: int|
                0 <= i < r@.len() ==> (#[trigger] r@[i]).idx() == fmul(
                    finv(self.degree_spec()),
                    dot(
                        self.basis_spec(),
                        powers_of(
                            fpow(omega_of(self.degree_spec()), rev_exp(self.degree_spec(), i)),
                            self.degree_spec(),
                        ),
                    ),
                ),
    {
        let points = self.lagrange_basis_points();
        let mut out: Vec<Commitment> = Vec::new();
        let n = points.len();
        let mut i: usize = 0;
        while i < n
            invariant
                0 <= i <= n,
                points@.len() == n,
                out@.len() == i,
                forall|j: int| 0 <= j < i ==> (#[trigger] out@[j]).idx() == points@[j].idx(),
            decreases n - i,
        {
            out.push(Commitment { point: points[i].dup() });
            i = i + 1;
        }
        proof {
            assert(forall|j: int|
                0 <= j < n ==> indices_of(points@)[j] == (#[trigger] points@[j]).idx());
        }
        out
    }

    /// The Lagrange basis itself: the inverse FFT of the coefficient basis.
    pub(crate) fn lagrange_basis_points(&self) -> (r: Vec<Point>)
        ensures
            r@.len() == self.degree_spec(),
            all_red(indices_of(r@)),
            fmul(self.degree_spec(), finv(self.degree_spec())) == 1,
            forall|i: int|
                0 <= i < r@.len() ==> indices_of(r@)[i] == fmul(
                    finv(self.degree_spec()),
                    dot(
                        self.basis_spec(),
                        powers_of(
                            fpow(omega_of(self.degree_spec()), rev_exp(self.degree_spec(), i)),
                            self.degree_spec(),
                        ),
                    ),
                ),
    {
        proof {
            use_type_invariant(self);
        }
        let basis = crate::group::clone_points(&self.basis);
        let out = self.ifft(basis);
        proof {
            assert(forall|i: int|
                0 <= i < out@.len() ==> dft(self.basis_spec(), omega_of(self.degree_spec()))[
                    rev_exp(self.degree_spec(), i) as int] == dot(
                    self.basis_spec(),
                    powers_of(
                        fpow(
                            omega_of(self.degree_spec()),
                            #[trigger] rev_exp(self.degree_spec(), i),
                        ),
                        self.degree_spec(),
                    ),
                ));
        }
        out
    }

    /// Inverse transform: run the forward transform, reverse the order of
    /// the outputs past the first, and scale everything by the inverse of
    /// the domain size.
    pub(crate) fn ifft(&self, coeffs: Vec<Point>) -> (r: Vec<Point>)
        requires
            coeffs@.len() == self.degree_spec(),
            all_red(indices_of(coeffs@)),
        ensures
            r@.len() == coeffs@.len(),
            all_red(indices_of(r@)),
            fmul(self.degree_spec(), finv(self.degree_spec())) == 1,
            forall|i: int|
                0 <= i < r@.len() ==> indices_of(r@)[i] == fmul(
                    finv(coeffs@.len()),
                    dft(indices_of(coeffs@), omega_of(coeffs@.len()))[rev_exp(
                        coeffs@.len(),
                        i,
                    ) as int],
                ),
    {
        proof {
            use_type_invariant(self);
            vstd::arithmetic::power2::lemma2_to64();
            vstd::arithmetic::power2::lemma_pow2_strictly_increases(self.max_size as nat, 31);
            vstd::arithmetic::power2::lemma_pow2_pos(self.max_size as nat);
        }
        let n = coeffs.len();
        let omega = domain_root(n);
        let size_scalar = Scalar::from_u64(n as u64);
        proof {
            assert(size_scalar.val() != 0);
            if self.max_size >= 1 {
                vstd::arithmetic::power2::lemma_pow2_unfold(self.max_size as nat);
            }
        }
        let inverted_size = size_scalar.inverse();
        let ghost vidx = indices_of(coeffs@);
        let res = fft_points(coeffs, &omega, self.max_size);
        let mut out: Vec<Point> = Vec::new();
        let mut i: usize = 0;
        while i < n
            invariant
                0 <= i <= n,
                res@.len() == n,
                n >= 1,
                vidx.len() == n,
                out@.len() == i,
                indices_of(res@) == dft(vidx, omega_of(n as nat)),
                inverted_size.val() == finv(n as nat),
                forall|j: int|
                    0 <= j < i ==> (#[trigger] out@[j]).idx() == fmul(
                        finv(n as nat),
                        dft(vidx, omega_of(n as nat))[rev_exp(n as nat, j) as int],
                    ),
            decreases n - i,
        {
            let src: &Point = if i == 0 {
                &res[0]
            } else {
                &res[n - i]
            };
            let p = src.mul(&inverted_size);
            proof {
                assert(src.idx() == dft(vidx, omega_of(n as nat))[rev_exp(
                    n as nat,
                    i as int,
                ) as int]);
                crate::algebra::lemma_fmul_comm(src.idx(), inverted_size.val());
            }
            out.push(p);
            i = i + 1;
        }
        proof {
            assert forall|j: int| 0 <= j < n implies red(#[trigger] indices_of(out@)[j]) by {
                assert(indices_of(out@)[j] == out@[j].idx());
                crate::algebra::lemma_fmul_red(
                    finv(n as nat),
                    dft(vidx, omega_of(n as nat))[rev_exp(n as nat, j) as int],
                );
            }
        }
        out
    }
}

/// The radix-2 butterfly over group elements: split into even and odd
/// positions, transform each half with the squared root of unity, and
/// combine with `left = even + odd * omega^i`, `right = even - odd * omega^i`.
/// The result is the discrete Fourier transform of the input.
pub(crate) fn fft_points(coeffs: Vec<Point>, omega: &Scalar, k: u8) -> (r: Vec<Point>)
    requires
        coeffs@.len() == pow2(k as nat),
        k <= 30,
        all_red(indices_of(coeffs@)),
        fpow(omega.val(), pow2(k as nat)) == 1,
        k >= 1 ==> fpow(omega.val(), pow2((k - 1) as nat)) == fneg(1),
    ensures
        r@.len() == coeffs@.len(),
        indices_of(r@) == dft(indices_of(coeffs@), omega.val()),
    decreases k,
{
    proof {
        vstd::arithmetic::power2::lemma2_to64();
    }
    let n = coeffs.len();
    let ghost vidx = indices_of(coeffs@);
    let ghost w = omega.val();
    if k == 0 {
        proof {
            assert(dot(vidx.skip(1), powers_of(fpow(w, 0), 1).skip(1)) == 0);
            assert(powers_of(fpow(w, 0), 1)[0] == fpow(fpow(w, 0), 0));
            assert(dft(vidx, w)[0] == fadd(fmul(vidx[0], 1), 0));
            crate::algebra::lemma_fmul_one(vidx[0]);
            crate::algebra::lemma_fadd_zero(vidx[0]);
            assert(indices_of(coeffs@) =~= dft(vidx, w));
        }
        return coeffs;
    }
    proof {
        vstd::arithmetic::power2::lemma_pow2_unfold(k as nat);
    }
    let half = n / 2;
    let mut even: Vec<Point> = Vec::new();
    let mut odd: Vec<Point> = Vec::new();
    let mut i: usize = 0;
    while i < half
        invariant
            0 <= i <= half,
            coeffs@.len() == 2 * half,
            2 * half <= usize::MAX,
            even@.len() == i,
            odd@.len() == i,
            forall|t: int| 0 <= t < i ==> (#[trigger] even@[t]).idx() == coeffs@[2 * t].idx(),
            forall|t: int|
                0 <= t < i ==> (#[trigger] odd@[t]).idx() == coeffs@[2 * t + 1].idx(),
        decreases half - i,
    {
        even.push(coeffs[2 * i].dup());
        odd.push(coeffs[2 * i + 1].dup());
        i = i + 1;
    }
    let omega_sq = omega.mul(omega);
    proof {
        assert(indices_of(even@) =~= even_entries(vidx));
        assert(indices_of(odd@) =~= odd_entries(vidx));
        assert(all_red(indices_of(even@)));
        assert(all_red(indices_of(odd@)));
        crate::algebra::lemma_fpow_square(w, pow2((k - 1) as nat));
        assert(fpow(omega_sq.val(), pow2((k - 1) as nat)) == 1);
        if k >= 2 {
            crate::algebra::lemma_fpow_square(w, pow2((k - 2) as nat));
            vstd::arithmetic::power2::lemma_pow2_unfold((k - 1) as nat);
            assert(fpow(omega_sq.val(), pow2((k - 2) as nat)) == fneg(1));
        }
    }
    let ghost eidx = indices_of(even@);
    let ghost oidx = indices_of(odd@);
    let even_out = fft_points(even, &omega_sq, k - 1);
    let odd_out = fft_points(odd, &omega_sq, k - 1);
    let mut left: Vec<Point> = Vec::new();
    let mut right: Vec<Point> = Vec::new();
    let mut w_run = Scalar::from_u64(1);
    let mut i: usize = 0;
    while i < half
        invariant
            0 <= i <= half,
            coeffs@.len() == 2 * half,
            half == pow2((k - 1) as nat),
            k >= 1,
            vidx == indices_of(coeffs@),
            vidx.len() == 2 * half,
            all_red(vidx),
            w == omega.val(),
            fpow(w, pow2(k as nat)) == 1,
            fpow(w, pow2((k - 1) as nat)) == fneg(1),
            pow2(k as nat) == 2 * half,
            eidx == even_entries(vidx),
            oidx == odd_entries(vidx),
            even_out@.len() == half,
            odd_out@.len() == half,
            indices_of(even_out@) == dft(eidx, fmul(w, w)),
            indices_of(odd_out@) == dft(oidx, fmul(w, w)),
            left@.len() == i,
            right@.len() == i,
            w_run.val() == fpow(w, i as nat),
            forall|t: int| 0 <= t < i ==> (#[trigger] left@[t]).idx() == dft(vidx, w)[t],
            forall|t: int|
                0 <= t < i ==> (#[trigger] right@[t]).idx() == dft(vidx, w)[t + half],
        decreases half - i,
    {
        let rhs = odd_out[i].mul(&w_run);
        let lterm = even_out[i].add(&rhs);
        let rterm = even_out[i].sub(&rhs);
        proof {
            lemma_butterfly(vidx, w, (k - 1) as nat, i as int);
            assert(even_out@[i as int].idx() == dft(eidx, fmul(w, w))[i as int]);
            assert(odd_out@[i as int].idx() == dft(oidx, fmul(w, w))[i as int]);
            crate::algebra::lemma_fmul_comm(
                dft(oidx, fmul(w, w))[i as int],
                fpow(w, i as nat),
            );
            crate::algebra::lemma_fmul_comm(w_run.val(), w);
            assert(fpow(w, (i + 1) as nat) == fmul(w, fpow(w, i as nat)));
        }
        left.push(lterm);
        right.push(rterm);
        w_run = w_run.mul(omega);
        i = i + 1;
    }
    let mut out = left;
    let mut right = right;
    out.append(&mut right);
    proof {
        assert(indices_of(out@) =~= dft(vidx, w));
    }
    out
}

/// One butterfly position: the transform of the interleaved input at `i` and
/// at `i + n/2` is the even half's transform at `i` plus and minus `omega^i`
/// times the odd half's transform at `i`.
proof fn lemma_butterfly(vidx: Seq<nat>, w: nat, k1: nat, i: int)
    requires
        vidx.len() == 2 * pow2(k1),
        all_red(vidx),
        0 <= i < pow2(k1),
        fpow(w, 2 * pow2(k1)) == 1,
        fpow(w, pow2(k1)) == fneg(1),
    ensures
        dft(vidx, w)[i] == fadd(
            dft(even_entries(vidx), fmul(w, w))[i],
            fmul(fpow(w, i as nat), dft(odd_entries(vidx), fmul(w, w))[i]),
        ),
        dft(vidx, w)[i + pow2(k1)] == fadd(
            dft(even_entries(vidx), fmul(w, w))[i],
            fneg(fmul(fpow(w, i as nat), dft(odd_entries(vidx), fmul(w, w))[i])),
        ),
{
    let m = pow2(k1);
    let n = vidx.len();
    let x = fpow(w, i as nat);
    let e = even_entries(vidx);
    let o = odd_entries(vidx);
    let x2w = fmul(w, w);
    vstd::arithmetic::power2::lemma_pow2_pos(k1);
    // position i: interleave at x, whose square is (w^2)^i
    crate::seqs::lemma_dot_interleave(vidx, x);
    assert(fmul(x, x) == fpow(x2w, i as nat)) by {
        crate::algebra::lemma_fpow_add(w, i as nat, i as nat);
        crate::algebra::lemma_fpow_square(w, i as nat);
    }
    assert(dft(vidx, w)[i] == dot(vidx, powers_of(x, n)));
    assert(dft(e, x2w)[i] == dot(e, powers_of(fpow(x2w, i as nat), m)));
    assert(dft(o, x2w)[i] == dot(o, powers_of(fpow(x2w, i as nat), m)));
    // position i + m: interleave at x' == x * (-1), whose square is again (w^2)^i
    let xp = fpow(w, (i + m) as nat);
    crate::seqs::lemma_dot_interleave(vidx, xp);
    assert(xp == fmul(x, fneg(1))) by {
        crate::algebra::lemma_fpow_add(w, i as nat, m);
    }
    assert(fmul(xp, xp) == fpow(x2w, i as nat)) by {
        crate::algebra::lemma_fpow_add(w, (i + m) as nat, (i + m) as nat);
        assert((i + m) + (i + m) == (i + i) + 2 * m);
        crate::algebra::lemma_fpow_add(w, (i + i) as nat, 2 * m);
        crate::algebra::lemma_fpow_red(w, (i + i) as nat);
        crate::algebra::lemma_fmul_one(fpow(w, (i + i) as nat));
        crate::algebra::lemma_fpow_add(w, i as nat, i as nat);
        crate::algebra::lemma_fpow_square(w, i as nat);
    }
    assert(fmul(xp, dot(o, powers_of(fpow(x2w, i as nat), m))) == fneg(
        fmul(x, dot(o, powers_of(fpow(x2w, i as nat), m))),
    )) by {
        let d = dot(o, powers_of(fpow(x2w, i as nat), m));
        crate::algebra::lemma_fmul_assoc(x, fneg(1), d);
        crate::algebra::lemma_fneg_one_mul(d);
        crate::algebra::lemma_fmul_fneg(x, d);
    }
    assert(dft(vidx, w)[i + m] == dot(vidx, powers_of(xp, n)));
}

} // verus!
