use ipa_pcs::field::Scalar;
use ipa_pcs::utils::eval_poly;
use ipa_pcs::{CoeffsOrEvals, Init, IpaScheme};

#[test]
fn lagrange_commitment() {
    // The FFT layer's Lagrange commitments must match committing to each
    // Lagrange basis polynomial the slow way, through interpolation.
    let scheme = IpaScheme::init(Init::Seed(1), 3, false);
    let commitments = scheme.lagrange_commitments();
    assert_eq!(commitments.len(), 8);
    for i in 0..8usize {
        let evals: Vec<Scalar> = (0..8usize)
            .map(|j| Scalar::from_u64(if i == j { 1 } else { 0 }))
            .collect();
        let good_commit = scheme.commit(&CoeffsOrEvals::Evals(evals)).unwrap();
        assert!(good_commit.equals(&commitments[i]));
    }
}

#[test]
fn evaluation_basis_commits_to_evaluations() {
    // With the evaluation basis configured, committing to an evaluation
    // vector equals interpolating it and committing to the coefficients.
    let with_basis = IpaScheme::init(Init::Seed(1), 3, true);
    let plain = IpaScheme::init(Init::Seed(1), 3, false);
    let evals: Vec<Scalar> = (0..8u64).map(|v| Scalar::from_u64(3 * v + 1)).collect();
    let evals2: Vec<Scalar> = evals.iter().map(|v| v.dup()).collect();
    let fast = with_basis.commit(&CoeffsOrEvals::Evals(evals)).unwrap();
    let slow = plain.commit(&CoeffsOrEvals::Evals(evals2)).unwrap();
    assert!(fast.equals(&slow));
}

#[test]
fn string_returns_the_basis() {
    let scheme = IpaScheme::init(Init::Seed(6), 2, false);
    let string = scheme.string();
    assert_eq!(string.len(), 4);
    let mut unit = vec![
        Scalar::from_u64(1),
        Scalar::from_u64(0),
        Scalar::from_u64(0),
        Scalar::from_u64(0),
    ];
    let commit = scheme.commit(&CoeffsOrEvals::Coeffs(unit.split_off(0))).unwrap();
    assert!(commit.equals(&string[0]));
}
