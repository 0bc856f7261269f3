use nube::{
    decrypt, encrypt, generate_kfrags, reencrypt, CapsuleFrag, Fr, KeyFrag, KeyMaker,
    KeySliver, Params, RecipientSecretKey, SymmetricKey, TpreError,
};
use sha3::Digest;

fn aggregate(makers: &[KeyMaker]) -> nube::EncryptionKey {
    let mut key = makers[0].encryption_key();
    for maker in &makers[1..] {
        key = key + &maker.encryption_key();
    }
    key
}

struct Run {
    recipient_sk: RecipientSecretKey,
    symmetric_key: SymmetricKey,
    kfrags: Vec<KeyFrag>,
    capsule: nube::Capsule,
}

fn run(n_makers: usize, threshold: usize, shares: usize, label: &[u8]) -> Run {
    let makers: Vec<KeyMaker> = (0..n_makers).map(|_| KeyMaker::random()).collect();
    let encryption_key = aggregate(&makers);
    let (capsule, symmetric_key) = encrypt(&encryption_key);
    let recipient_sk = RecipientSecretKey::random();
    let recipient_pk = recipient_sk.public_key();
    let slivers: Vec<KeySliver> = makers
        .iter()
        .map(|m| m.make_key_sliver(label, &recipient_pk, threshold, shares).unwrap())
        .collect();
    let kfrags = generate_kfrags(&slivers).unwrap();
    Run { recipient_sk, symmetric_key, kfrags, capsule }
}

fn cfrags_of(run: &Run, picks: &[usize]) -> Vec<CapsuleFrag> {
    picks.iter().map(|&i| reencrypt(&run.capsule, &run.kfrags[i])).collect()
}

#[test]
fn test_api() {
    let threshold = 2;
    let shares = 3;

    let keymaker1 = KeyMaker::random();
    let keymaker2 = KeyMaker::random();
    let keymaker3 = KeyMaker::random();
    let keymaker4 = KeyMaker::random();

    let key_parts = [
        keymaker1.encryption_key(),
        keymaker2.encryption_key(),
        keymaker3.encryption_key(),
        keymaker4.encryption_key(),
    ];

    let encryption_key = &key_parts[0] + &key_parts[1] + &key_parts[2] + &key_parts[3];

    let (capsule, symmetric_key) = encrypt(&encryption_key);

    let recipient_sk = RecipientSecretKey::random();
    let recipient_pk = recipient_sk.public_key();

    let label = b"some label";

    let ksliver1 = keymaker1.make_key_sliver(label, &recipient_pk, threshold, shares).unwrap();
    let ksliver2 = keymaker2.make_key_sliver(label, &recipient_pk, threshold, shares).unwrap();
    let ksliver3 = keymaker3.make_key_sliver(label, &recipient_pk, threshold, shares).unwrap();
    let ksliver4 = keymaker4.make_key_sliver(label, &recipient_pk, threshold, shares).unwrap();

    let kfrags = generate_kfrags(&[ksliver1, ksliver2, ksliver3, ksliver4]).unwrap();

    let cfrag0 = reencrypt(&capsule, &kfrags[0]);
    let _cfrag1 = reencrypt(&capsule, &kfrags[1]);
    let cfrag2 = reencrypt(&capsule, &kfrags[2]);

    let decrypted_key = decrypt(&recipient_sk, &[cfrag0, cfrag2]).unwrap();

    assert_eq!(symmetric_key, decrypted_key);
}

#[test]
fn single_maker_single_share_decrypts() {
    let run = run(1, 1, 1, b"x");
    assert_eq!(run.kfrags.len(), 1);
    let cfrags = cfrags_of(&run, &[0]);
    assert_eq!(decrypt(&run.recipient_sk, &cfrags).unwrap(), run.symmetric_key);
}

#[test]
fn any_threshold_subset_decrypts_to_same_key() {
    let run = run(3, 3, 5, b"abc");
    let first = decrypt(&run.recipient_sk, &cfrags_of(&run, &[0, 1, 2])).unwrap();
    let second = decrypt(&run.recipient_sk, &cfrags_of(&run, &[2, 3, 4])).unwrap();
    assert_eq!(first, run.symmetric_key);
    assert_eq!(second, run.symmetric_key);
    assert_eq!(first, second);
}

#[test]
fn more_than_threshold_fragments_decrypt() {
    let run = run(2, 2, 4, b"more");
    let key = decrypt(&run.recipient_sk, &cfrags_of(&run, &[3, 0, 2])).unwrap();
    assert_eq!(key, run.symmetric_key);
}

#[test]
fn tampered_sliver_is_inconsistent() {
    let recipient_pk = RecipientSecretKey::random().public_key();
    let maker1 = KeyMaker::random();
    let maker2 = KeyMaker::random();
    let mut sliver1 = maker1.make_key_sliver(b"label", &recipient_pk, 2, 2).unwrap();
    let sliver2 = maker2.make_key_sliver(b"label", &recipient_pk, 2, 2).unwrap();
    sliver1.shared_values[0] = sliver1.shared_values[1];
    assert_eq!(generate_kfrags(&[sliver1, sliver2]).err(), Some(TpreError::InconsistentShares));
}

#[test]
fn slivers_for_different_labels_are_inconsistent() {
    let recipient_pk = RecipientSecretKey::random().public_key();
    let maker = KeyMaker::random();
    let a = maker.make_key_sliver(b"one", &recipient_pk, 1, 3).unwrap();
    let b = maker.make_key_sliver(b"two", &recipient_pk, 1, 3).unwrap();
    assert_eq!(generate_kfrags(&[a, b]).err(), Some(TpreError::InconsistentShares));
}

#[test]
fn below_threshold_gives_wrong_key() {
    let run = run(2, 2, 3, b"below");
    let key = decrypt(&run.recipient_sk, &cfrags_of(&run, &[1])).unwrap();
    assert_ne!(key, run.symmetric_key);
}

#[test]
fn same_label_gives_same_shared_values_and_fresh_parts() {
    let recipient_pk = RecipientSecretKey::random().public_key();
    let maker = KeyMaker::random();
    let first = maker.make_key_sliver(&[], &recipient_pk, 2, 4).unwrap();
    let second = maker.make_key_sliver(&[], &recipient_pk, 2, 4).unwrap();
    assert_eq!(first.shared_values, second.shared_values);
    assert_eq!(first.shared_values.len(), 4);
    assert_ne!(first.reencryption_key_parts, second.reencryption_key_parts);
    let other = KeyMaker::random().make_key_sliver(&[], &recipient_pk, 3, 4).unwrap();
    assert_eq!(first.shared_values, other.shared_values);
}

#[test]
fn shared_values_follow_sha3_rejection_layout() {
    let recipient_pk = RecipientSecretKey::random().public_key();
    let label = b"some label";
    let sliver = KeyMaker::random().make_key_sliver(label, &recipient_pk, 1, 3).unwrap();
    for index in 0u32..3 {
        let mut attempt = 0u32;
        let expected = loop {
            let mut hasher = sha3::Sha3_256::new();
            hasher.update(attempt.to_be_bytes());
            hasher.update(index.to_be_bytes());
            hasher.update(label);
            let digest: [u8; 32] = hasher.finalize().into();
            if let Some(x) = Fr::from_bytes(digest) {
                break x;
            }
            attempt += 1;
        };
        assert_eq!(sliver.shared_values[index as usize], expected);
        assert_eq!(
            sliver.shared_values[index as usize].to_bytes(),
            expected.to_bytes()
        );
    }
    assert_ne!(sliver.shared_values[0], sliver.shared_values[1]);
}

#[test]
fn aggregation_ignores_sliver_order() {
    let recipient_sk = RecipientSecretKey::random();
    let recipient_pk = recipient_sk.public_key();
    let makers: Vec<KeyMaker> = (0..3).map(|_| KeyMaker::random()).collect();
    let slivers = |order: &[usize]| -> Vec<KeySliver> {
        order
            .iter()
            .map(|&i| makers[i].make_key_sliver(b"order", &recipient_pk, 2, 3).unwrap())
            .collect()
    };
    let a = generate_kfrags(&slivers(&[0, 1, 2])).unwrap();
    let b = generate_kfrags(&slivers(&[2, 0, 1])).unwrap();
    assert_eq!(a.len(), b.len());
    for (x, y) in a.iter().zip(b.iter()) {
        assert_eq!(x.shared_value, y.shared_value);
    }
    let c = generate_kfrags(&slivers(&[1, 2, 0])).unwrap();
    assert_eq!(c.len(), 3);
    let encryption_key = aggregate(&makers);
    let (capsule, symmetric_key) = encrypt(&encryption_key);
    let cfrags: Vec<CapsuleFrag> = [0usize, 2].iter().map(|&i| reencrypt(&capsule, &b[i])).collect();
    assert_eq!(decrypt(&recipient_sk, &cfrags).unwrap(), symmetric_key);
}

#[test]
fn empty_inputs_are_rejected() {
    assert_eq!(generate_kfrags(&[]).err(), Some(TpreError::EmptyInput));
    let sk = RecipientSecretKey::random();
    assert_eq!(decrypt(&sk, &[]).err(), Some(TpreError::EmptyInput));
}

#[test]
fn duplicate_shared_values_are_degenerate() {
    let run = run(2, 2, 3, b"dup");
    let cfrags = cfrags_of(&run, &[1, 1]);
    assert_eq!(decrypt(&run.recipient_sk, &cfrags).err(), Some(TpreError::DegenerateShares));
}

#[test]
fn reencrypt_keeps_shared_value() {
    let run = run(2, 2, 3, b"keep");
    for (i, kfrag) in run.kfrags.iter().enumerate() {
        let cfrag = reencrypt(&run.capsule, kfrag);
        assert_eq!(cfrag.shared_value, run.kfrags[i].shared_value);
    }
}

#[test]
fn params_pairing_identity() {
    let params = Params::new();
    let z = bls12_381::pairing(
        &bls12_381::G1Affine::from_compressed(&params.g.to_bytes()).unwrap(),
        &bls12_381::G2Affine::from_compressed(&params.h.to_bytes()).unwrap(),
    );
    assert_eq!(z, params.z);
    assert_eq!(params.g.to_bytes(), bls12_381::G1Affine::generator().to_compressed());
    assert_eq!(params.h.to_bytes(), bls12_381::G2Affine::generator().to_compressed());
}

#[test]
fn scalar_encoding_bounds() {
    let q_minus_one: [u8; 32] = [
        0x00, 0x00, 0x00, 0x00, 0xff, 0xff, 0xff, 0xff, 0xfe, 0x5b, 0xfe, 0xff, 0x02, 0xa4,
        0xbd, 0x53, 0x05, 0xd8, 0xa1, 0x09, 0x08, 0xd8, 0x39, 0x33, 0x48, 0x7d, 0x9d, 0x29,
        0x53, 0xa7, 0xed, 0x73,
    ];
    let mut q = q_minus_one;
    q[0] = 1;
    assert!(Fr::from_bytes(q).is_none());
    assert!(Fr::from_bytes([0xff; 32]).is_none());
    let top = Fr::from_bytes(q_minus_one).unwrap();
    assert_eq!(top.to_bytes(), q_minus_one);
    assert!(!top.is_zero());
    assert!(Fr::zero().is_zero());
    assert_eq!(Fr::zero().to_bytes(), [0u8; 32]);
    let mut one = [0u8; 32];
    one[0] = 1;
    assert_eq!(Fr::one().to_bytes(), one);
    assert_ne!(Fr::one(), Fr::zero());
}

#[test]
fn kfrag_points_are_sums_of_parts() {
    let recipient_pk = RecipientSecretKey::random().public_key();
    let makers: Vec<KeyMaker> = (0..3).map(|_| KeyMaker::random()).collect();
    let slivers: Vec<KeySliver> = makers
        .iter()
        .map(|m| m.make_key_sliver(b"sum", &recipient_pk, 2, 2).unwrap())
        .collect();
    let kfrags = generate_kfrags(&slivers).unwrap();
    for i in 0..2 {
        let mut sum = bls12_381::G2Projective::identity();
        for sliver in &slivers {
            let bytes = sliver.reencryption_key_parts[i].to_bytes();
            sum += bls12_381::G2Affine::from_compressed(&bytes).unwrap();
        }
        assert_eq!(
            kfrags[i].point.to_bytes(),
            bls12_381::G2Affine::from(sum).to_compressed()
        );
        assert_eq!(kfrags[i].shared_value, slivers[0].shared_values[i]);
    }
}

#[test]
fn threshold_one_parts_are_key_times_secret() {
    let recipient_pk = RecipientSecretKey::random().public_key();
    let maker = KeyMaker::random();
    let sliver = maker.make_key_sliver(b"flat", &recipient_pk, 1, 3).unwrap();
    assert_eq!(sliver.reencryption_key_parts[0], sliver.reencryption_key_parts[1]);
    assert_eq!(sliver.reencryption_key_parts[1], sliver.reencryption_key_parts[2]);
    assert_ne!(sliver.reencryption_key_parts[0], recipient_pk.0);
}

fn to_outside(x: &Fr) -> bls12_381::Scalar {
    bls12_381::Scalar::from_bytes(&x.to_bytes()).unwrap()
}

fn point_of(bytes: [u8; 96]) -> bls12_381::G2Projective {
    bls12_381::G2Projective::from(bls12_381::G2Affine::from_compressed(&bytes).unwrap())
}

#[test]
fn parts_follow_the_given_polynomial() {
    let recipient_pk = RecipientSecretKey::random().public_key();
    let maker = KeyMaker::random();
    let mut five = [0u8; 32];
    five[0] = 5;
    let c1 = Fr::from_bytes(five).unwrap();
    let mut seven = [0u8; 32];
    seven[0] = 7;
    let c2 = Fr::from_bytes(seven).unwrap();
    let flat = maker.make_key_sliver_with(b"poly", &recipient_pk, &vec![], 3).unwrap();
    let cubic = maker.make_key_sliver_with(b"poly", &recipient_pk, &vec![c1, c2], 3).unwrap();
    assert_eq!(flat.shared_values, cubic.shared_values);
    let pk = point_of(recipient_pk.0.to_bytes());
    for i in 0..3 {
        let x = to_outside(&cubic.shared_values[i]);
        let extra = to_outside(&c1) * x + to_outside(&c2) * x * x;
        let expected = point_of(flat.reencryption_key_parts[i].to_bytes()) + pk * extra;
        assert_eq!(
            cubic.reencryption_key_parts[i].to_bytes(),
            bls12_381::G2Affine::from(expected).to_compressed()
        );
    }
    let again = maker.make_key_sliver_with(b"poly", &recipient_pk, &vec![c1, c2], 3).unwrap();
    assert_eq!(again.reencryption_key_parts, cubic.reencryption_key_parts);
}

#[test]
fn public_key_is_generator_times_secret_consistently() {
    let sk = RecipientSecretKey::random();
    assert_eq!(sk.public_key().0, sk.public_key().0);
    let other = RecipientSecretKey::random();
    assert_ne!(sk.public_key().0, other.public_key().0);
}

#[test]
fn encrypt_with_nonce_is_generator_and_key_times_nonce() {
    let maker = KeyMaker::random();
    let key = maker.encryption_key();
    let mut three = [0u8; 32];
    three[0] = 3;
    let nonce = Fr::from_bytes(three).unwrap();
    let (capsule, symmetric_key) = nube::encryptor::encrypt_with(&key, &nonce);
    let k = bls12_381::Scalar::from(3u64);
    let expected_capsule = bls12_381::G1Affine::from(bls12_381::G1Projective::generator() * k);
    assert_eq!(capsule.0.to_bytes(), expected_capsule.to_compressed());
    assert_eq!(symmetric_key.0, key.0 * k);
    let (capsule2, symmetric_key2) = nube::encryptor::encrypt_with(&key, &nonce);
    assert_eq!(capsule2.0, capsule.0);
    assert_eq!(symmetric_key2, symmetric_key);
}

#[test]
fn reencrypt_point_is_pairing_and_keys_add_in_gt() {
    let run = run(2, 2, 2, b"pair");
    let cfrag = reencrypt(&run.capsule, &run.kfrags[1]);
    let expected = bls12_381::pairing(
        &bls12_381::G1Affine::from_compressed(&run.capsule.0.to_bytes()).unwrap(),
        &bls12_381::G2Affine::from_compressed(&run.kfrags[1].point.to_bytes()).unwrap(),
    );
    assert_eq!(cfrag.point, expected);
    let a = KeyMaker::random().encryption_key();
    let b = KeyMaker::random().encryption_key();
    let sum = &a + &b;
    assert_eq!(sum.0, a.0 + b.0);
    assert_ne!(sum.0, a.0);
}
