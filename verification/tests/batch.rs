use ipa_pcs::field::Scalar;
use ipa_pcs::group::Sampler;
use ipa_pcs::prove::Commitment;
use ipa_pcs::utils::eval_poly;
use ipa_pcs::{CoeffsOrEvals, Init, IpaScheme};

fn commit_and_open(
    scheme: &IpaScheme,
    rng: &mut Sampler,
) -> (Commitment, Vec<Scalar>, Scalar, Scalar) {
    let poly: Vec<Scalar> = (0..scheme.max_degree()).map(|_| rng.scalar()).collect();
    let poly2: Vec<Scalar> = poly.iter().map(|v| v.dup()).collect();
    let commit = scheme.commit(&CoeffsOrEvals::Coeffs(poly2)).unwrap();
    let point = Scalar::from_u64(5);
    let eval = eval_poly(&poly, &point);
    (commit, poly, point, eval)
}

#[test]
fn test_multi() {
    let scheme = IpaScheme::init(Init::Seed(1), 8, true);
    let mut rng = Sampler::from_seed(13);
    let mut commitments: Vec<Commitment> = Vec::new();
    let mut opens: Vec<(Commitment, Vec<Scalar>, Scalar, Scalar)> = Vec::new();
    for _ in 0..4 {
        let item = commit_and_open(&scheme, &mut rng);
        commitments.push(item.0.dup());
        opens.push(item);
    }
    let multi_open = scheme.batch_open(&opens).unwrap();
    let verif = scheme.batch_verify(&commitments, multi_open);
    assert!(verif.is_some());
}

#[test]
fn batch_matches_individual_evaluations() {
    let scheme = IpaScheme::init(Init::Seed(3), 4, false);
    let mut rng = Sampler::from_seed(17);
    let mut commitments: Vec<Commitment> = Vec::new();
    let mut opens: Vec<(Commitment, Vec<Scalar>, Scalar, Scalar)> = Vec::new();
    for _ in 0..3 {
        let item = commit_and_open(&scheme, &mut rng);
        commitments.push(item.0.dup());
        opens.push(item);
    }
    let multi_open = scheme.batch_open(&opens).unwrap();
    let evals = scheme.batch_verify(&commitments, multi_open).unwrap();
    assert_eq!(evals.len(), 3);
    for i in 0..3 {
        assert!(evals[i].equals(&opens[i].3));
    }
}

#[test]
fn batch_rejects_a_flipped_evaluation() {
    let scheme = IpaScheme::init(Init::Seed(3), 4, false);
    let mut rng = Sampler::from_seed(19);
    let mut commitments: Vec<Commitment> = Vec::new();
    let mut opens: Vec<(Commitment, Vec<Scalar>, Scalar, Scalar)> = Vec::new();
    for i in 0..3 {
        let mut item = commit_and_open(&scheme, &mut rng);
        if i == 1 {
            item.3 = item.3.add(&Scalar::from_u64(1));
        }
        commitments.push(item.0.dup());
        opens.push(item);
    }
    let multi_open = scheme.batch_open(&opens).unwrap();
    assert!(scheme.batch_verify(&commitments, multi_open).is_none());
}
