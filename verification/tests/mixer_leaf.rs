use ark_bls12_381::Fq;
use ark_ff::{BigInteger, PrimeField};
use ark_std::test_rng;
use ark_std::UniformRand;
use permutation_hash::error::Error;
use permutation_hash::field::{FieldElement, NativeField};
use permutation_hash::leaf::mixer::{MixerLeaf, Output, Private};
use permutation_hash::mimc;
use permutation_hash::poseidon::sbox::PoseidonSbox;
use permutation_hash::poseidon::{PoseidonParameters, Rounds, CRH};

fn leaf_from_ark<F: PrimeField + NativeField>(x: F) -> FieldElement<F> {
    FieldElement::from_le_bytes_mod_order(&x.into_repr().to_bytes_le())
}

fn rounds5() -> Rounds {
    Rounds { width: 5, full_rounds: 8, partial_rounds: 60, sbox: PoseidonSbox::Exponentiation(5) }
}

fn parameters5() -> PoseidonParameters<Fq> {
    let rng = &mut test_rng();
    let round_keys = (0..(8 + 60) * 5).map(|_| leaf_from_ark(Fq::rand(rng))).collect();
    let mds = (0..5).map(|_| (0..5).map(|_| leaf_from_ark(Fq::rand(rng))).collect()).collect();
    PoseidonParameters::new(round_keys, mds)
}

#[test]
fn should_crate_mixer_leaf() {
    let rng = &mut test_rng();
    let secrets: Private<Fq> = MixerLeaf::<CRH>::generate_secrets(rng).unwrap();

    let mut leaf_inputs = secrets.r().to_bytes();
    leaf_inputs.extend_from_slice(&secrets.nullifier().to_bytes());
    leaf_inputs.extend_from_slice(&secrets.rho().to_bytes());

    let mut nullifier_inputs = secrets.nullifier().to_bytes();
    nullifier_inputs.extend_from_slice(&secrets.nullifier().to_bytes());

    let params = parameters5();
    assert!(params.check_fits(&rounds5()));
    let crh = CRH::new(rounds5());
    let leaf_res = crh.evaluate(&params, &leaf_inputs).unwrap();
    let nullifier_res = crh.evaluate(&params, &nullifier_inputs).unwrap();

    let mixer = MixerLeaf::new(crh);
    let leaf = mixer.create_leaf(&secrets, &(), &params).unwrap();
    let nullifier_hash = mixer.create_nullifier(&secrets, &params).unwrap();
    assert_eq!(leaf_res, leaf);
    assert_eq!(nullifier_res, nullifier_hash);
}

#[test]
fn mixer_secrets_are_three_elements_of_the_field() {
    let rng = &mut test_rng();
    let secrets = Private::<Fq>::generate(rng);
    assert_eq!(secrets.r().to_bytes().len(), 48);
    assert_eq!(secrets.nullifier().to_bytes().len(), 48);
    assert_eq!(secrets.rho().to_bytes().len(), 48);
    assert_ne!(secrets.r(), secrets.nullifier());
    assert_ne!(secrets.nullifier(), secrets.rho());

    // The generator is asked three times, in the order r, nullifier, rho.
    let again = &mut test_rng();
    assert_eq!(secrets.r(), leaf_from_ark(Fq::rand(again)));
    assert_eq!(secrets.nullifier(), leaf_from_ark(Fq::rand(again)));
    assert_eq!(secrets.rho(), leaf_from_ark(Fq::rand(again)));
}

#[test]
fn mixer_leaves_of_different_secrets_differ() {
    let rng = &mut test_rng();
    let params = parameters5();
    let mixer = MixerLeaf::new(CRH::new(rounds5()));
    let mut leaves = Vec::new();
    let mut tags = Vec::new();
    for _ in 0..20 {
        let secrets = Private::<Fq>::generate(rng);
        leaves.push(mixer.create_leaf(&secrets, &(), &params).unwrap());
        tags.push(mixer.create_nullifier(&secrets, &params).unwrap());
    }
    for i in 0..leaves.len() {
        assert_ne!(leaves[i], tags[i]);
        for j in (i + 1)..leaves.len() {
            assert_ne!(leaves[i], leaves[j]);
            assert_ne!(tags[i], tags[j]);
        }
    }
}

#[test]
fn mixer_nullifier_depends_on_the_nullifier_alone() {
    let rng = &mut test_rng();
    let params = parameters5();
    let mixer = MixerLeaf::new(CRH::new(rounds5()));
    let first = Private::<Fq>::generate(rng);
    let other = Private::<Fq>::generate(rng);
    let same_nullifier = Private::from_elements(other.r(), first.nullifier(), other.rho());
    assert_eq!(
        mixer.create_nullifier(&first, &params).unwrap(),
        mixer.create_nullifier(&same_nullifier, &params).unwrap()
    );
    assert_ne!(
        mixer.create_leaf(&first, &(), &params).unwrap(),
        mixer.create_leaf(&same_nullifier, &(), &params).unwrap()
    );
}

#[test]
fn mixer_leaf_too_wide_for_the_hasher_is_refused() {
    let rng = &mut test_rng();
    let narrow =
        Rounds { width: 2, full_rounds: 8, partial_rounds: 60, sbox: PoseidonSbox::Exponentiation(5) };
    let params = parameters5();
    assert!(params.check_fits(&narrow));
    let mixer = MixerLeaf::new(CRH::new(narrow));
    let secrets = Private::<Fq>::generate(rng);
    assert_eq!(mixer.create_leaf(&secrets, &(), &params), Err(Error::WidthOverflow));
    assert!(mixer.create_nullifier(&secrets, &params).is_ok());
}

#[test]
fn mixer_leaf_with_mimc() {
    let rng = &mut test_rng();
    let round_keys = (0..8).map(|_| leaf_from_ark(Fq::rand(rng))).collect();
    let params = mimc::MiMCParameters::new(leaf_from_ark(Fq::from(3u64)), 10, 3, 3, round_keys);
    let crh = mimc::CRH::new(mimc::Rounds { width: 3, rounds: 10 });
    let mixer = MixerLeaf::new(crh);
    let secrets = Private::<Fq>::generate(rng);
    let mut bytes = secrets.r().to_bytes();
    bytes.extend_from_slice(&secrets.nullifier().to_bytes());
    bytes.extend_from_slice(&secrets.rho().to_bytes());
    assert_eq!(
        mixer.create_leaf(&secrets, &(), &params).unwrap(),
        crh.evaluate(&params, &bytes).unwrap()
    );
}

#[test]
fn mixer_output_is_written_leaf_first() {
    let rng = &mut test_rng();
    let leaf = leaf_from_ark(Fq::rand(rng));
    let nullifier_hash = leaf_from_ark(Fq::rand(rng));
    let output = Output { leaf: leaf.clone(), nullifier_hash: nullifier_hash.clone() };
    let bytes = output.to_bytes();
    assert_eq!(bytes.len(), 96);
    assert_eq!(bytes[..48].to_vec(), leaf.to_bytes());
    assert_eq!(bytes[48..].to_vec(), nullifier_hash.to_bytes());
}
