use ipa_pcs::field::Scalar;
use ipa_pcs::group::Sampler;
use ipa_pcs::utils::eval_poly;
use ipa_pcs::{CoeffsOrEvals, Init, IpaScheme, SchemeError};

fn scalars(values: &[u64]) -> Vec<Scalar> {
    values.iter().map(|v| Scalar::from_u64(*v)).collect()
}

fn dup_all(values: &Vec<Scalar>) -> Vec<Scalar> {
    values.iter().map(|v| v.dup()).collect()
}

#[test]
fn test_binding() {
    let scheme = IpaScheme::init(Init::Seed(1), 3, true);
    let poly = scalars(&[1, 2, 3, 4, 5, 6, 7, 8]);
    let commit = scheme.commit(&CoeffsOrEvals::Coeffs(dup_all(&poly))).unwrap();
    let point = Scalar::from_u64(5);
    let eval = eval_poly(&poly, &point);
    let proof = scheme.open(&commit, &poly, &point, &eval).unwrap();
    let bad_eval = eval.add(&Scalar::from_u64(1));
    let bad_proof = scheme.open(&commit, &poly, &point, &bad_eval).unwrap();
    assert!(scheme.verify(&commit, proof).unwrap().equals(&eval));
    assert!(scheme.verify(&commit, bad_proof).is_none());
}

#[test]
fn test_hiding() {
    let scheme = IpaScheme::init(Init::Seed(1), 3, true);
    let mut rng = Sampler::from_seed(7);
    let poly = scalars(&[1, 2, 3, 4, 5, 6, 7, 8]);
    let hiding = scheme
        .commit_hiding(&CoeffsOrEvals::Coeffs(dup_all(&poly)), &mut rng)
        .unwrap();
    let commit = hiding.commitment();
    let blinding = hiding.blinding();
    let point = Scalar::from_u64(5);
    let eval = eval_poly(&poly, &point);
    let proof = scheme
        .open_hiding(&commit, &blinding, &poly, &point, &eval, &mut rng)
        .unwrap();
    let bad_eval = eval.add(&Scalar::from_u64(1));
    let bad_proof = scheme
        .open_hiding(&commit, &blinding, &poly, &point, &bad_eval, &mut rng)
        .unwrap();
    assert!(scheme.verify_hiding(&commit, proof).unwrap().equals(&eval));
    assert!(scheme.verify_hiding(&commit, bad_proof).is_none());
}

#[test]
fn homomorphisms() {
    let scheme = IpaScheme::init(Init::Seed(1), 2, true);
    let mut rng = Sampler::from_seed(9);
    let p1 = scalars(&[0, 1, 2, 3]);
    let p2 = scalars(&[1, 9, 2, 3]);
    let p3: Vec<Scalar> = p1.iter().zip(p2.iter()).map(|(a, b)| a.add(b)).collect();
    let scalar = Scalar::from_u64(9);
    let p4: Vec<Scalar> = p1.iter().map(|e| e.mul(&scalar)).collect();

    let mut check = |poly: Vec<Scalar>| {
        let hiding = scheme
            .commit_hiding(&CoeffsOrEvals::Coeffs(dup_all(&poly)), &mut rng)
            .unwrap();
        let commit = hiding.commitment();
        let blinding = hiding.blinding();
        let point = Scalar::from_u64(43);
        let eval = eval_poly(&poly, &point);
        let opening = scheme
            .open_hiding(&commit, &blinding, &poly, &point, &eval, &mut rng)
            .unwrap();
        scheme.verify_hiding(&commit, opening).unwrap()
    };
    let c1 = check(p1);
    let c2 = check(p2);
    let c3 = check(p3);
    let c4 = check(p4);

    assert!(c1.add(&c2).equals(&c3));
    assert!(c4.equals(&c1.mul(&scalar)));
}

#[test]
fn commitments_are_homomorphic() {
    let scheme = IpaScheme::init(Init::Seed(4), 2, false);
    let p1 = scalars(&[0, 1, 2, 3]);
    let p2 = scalars(&[1, 9, 2, 3]);
    let p3: Vec<Scalar> = p1.iter().zip(p2.iter()).map(|(a, b)| a.add(b)).collect();
    let scalar = Scalar::from_u64(9);
    let p4: Vec<Scalar> = p1.iter().map(|e| e.mul(&scalar)).collect();
    let c1 = scheme.commit(&CoeffsOrEvals::Coeffs(p1)).unwrap();
    let c2 = scheme.commit(&CoeffsOrEvals::Coeffs(p2)).unwrap();
    let c3 = scheme.commit(&CoeffsOrEvals::Coeffs(p3)).unwrap();
    let c4 = scheme.commit(&CoeffsOrEvals::Coeffs(p4)).unwrap();
    assert!(c1.add(&c2).equals(&c3));
    assert!(c1.mul(&scalar).equals(&c4));
    assert!(c3.sub(&c2).equals(&c1));
}

#[test]
fn fixed_seed_scenario() {
    // Degree-eight polynomial over the seed-one reference string, opened at
    // five; the expected evaluation comes from Horner's rule by hand.
    let scheme = IpaScheme::init(Init::Seed(1), 3, false);
    let poly = scalars(&[1, 2, 3, 4, 5, 6, 7, 8]);
    let point = Scalar::from_u64(5);
    let mut expected = Scalar::from_u64(0);
    for coeff in poly.iter().rev() {
        expected = expected.mul(&point).add(coeff);
    }
    assert!(expected.equals(&Scalar::from_u64(756836)));
    let eval = eval_poly(&poly, &point);
    assert!(eval.equals(&expected));
    let commit = scheme.commit(&CoeffsOrEvals::Coeffs(dup_all(&poly))).unwrap();
    let proof = scheme.open(&commit, &poly, &point, &eval).unwrap();
    assert!(scheme.verify(&commit, proof).unwrap().equals(&expected));
    let off_by_one = expected.add(&Scalar::from_u64(1));
    let bad_proof = scheme.open(&commit, &poly, &point, &off_by_one).unwrap();
    assert!(scheme.verify(&commit, bad_proof).is_none());
}

#[test]
fn scalar_arithmetic() {
    let three = Scalar::from_u64(3);
    let four = Scalar::from_u64(4);
    assert!(three.add(&four).equals(&Scalar::from_u64(7)));
    assert!(three.mul(&four).equals(&Scalar::from_u64(12)));
    assert!(three.add(&three.neg()).equals(&Scalar::from_u64(0)));
    assert!(three.sub(&four).add(&four).equals(&three));
    let seven = Scalar::from_u64(7);
    assert!(seven.mul(&seven.inverse()).equals(&Scalar::from_u64(1)));
    let bytes = seven.to_bytes();
    assert_eq!(bytes.len(), 32);
    assert_eq!(bytes[0], 7);
}

#[test]
fn length_mismatch_is_rejected() {
    let scheme = IpaScheme::init(Init::Seed(2), 2, false);
    let short = scalars(&[1, 2, 3]);
    assert!(matches!(
        scheme.commit(&CoeffsOrEvals::Coeffs(dup_all(&short))),
        Err(SchemeError::MismatchedLength)
    ));
    let good = scalars(&[1, 2, 3, 4]);
    let commit = scheme.commit(&CoeffsOrEvals::Coeffs(dup_all(&good))).unwrap();
    let point = Scalar::from_u64(3);
    let eval = eval_poly(&short, &point);
    assert!(matches!(
        scheme.open(&commit, &short, &point, &eval),
        Err(SchemeError::MismatchedLength)
    ));
}

#[test]
fn seeded_setup_is_reproducible() {
    let one = IpaScheme::init(Init::Seed(21), 3, false);
    let two = IpaScheme::init(Init::Seed(21), 3, false);
    let s1 = one.string();
    let s2 = two.string();
    assert_eq!(s1.len(), s2.len());
    for i in 0..s1.len() {
        assert!(s1[i].equals(&s2[i]));
    }
    let other = IpaScheme::init(Init::Seed(22), 3, false);
    let s3 = other.string();
    assert!(!s1[0].equals(&s3[0]));
}

#[test]
fn explicit_reference_string() {
    let seeded = IpaScheme::init(Init::Seed(11), 2, false);
    let elems: Vec<ipa_pcs::group::Point> = seeded.string().iter().map(|c| c.point_value()).collect();
    let blinding = elems[0].dup();
    let explicit = IpaScheme::init(Init::Elements(elems, blinding), 2, false);
    let poly = scalars(&[5, 6, 7, 8]);
    let c1 = seeded.commit(&CoeffsOrEvals::Coeffs(dup_all(&poly))).unwrap();
    let c2 = explicit.commit(&CoeffsOrEvals::Coeffs(dup_all(&poly))).unwrap();
    assert!(c1.equals(&c2));
}
