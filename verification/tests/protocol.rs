use bls_sys::{bls_init, BlsId, BlsPublicKey, BlsSecretKey, BlsSignature, CurveType};

#[test]
fn init_accepts_only_the_compiled_curve() {
    assert_eq!(Ok(()), bls_init(CurveType::Bls12CurveFp381));
    // re-initialization with the same selector is a no-op
    assert_eq!(Ok(()), bls_init(CurveType::Bls12CurveFp381));
    // every other selector reports the initialization error
    assert_eq!(Err(-1), bls_init(CurveType::CurveFp254BNb));
    assert_eq!(Err(-1), bls_init(CurveType::CurveFp382One));
    assert_eq!(Err(-1), bls_init(CurveType::CurveFp382Two));
    assert_eq!(Err(-1), bls_init(CurveType::CurveFp462));
    assert_eq!(Err(-1), bls_init(CurveType::CurveSNARK1));
}

#[test]
fn serialize_rejects_short_buffer() {
    bls_init(CurveType::Bls12CurveFp381).unwrap();
    let mut id = BlsId::new();
    id.set_int(42);
    let mut short = [0u8; 31];
    assert!(id.serialize(&mut short).is_err());

    let pk = BlsSecretKey::new_random().unwrap().to_public_key();
    let mut short_pk = [0u8; 95];
    assert!(pk.serialize(&mut short_pk).is_err());
}

#[test]
fn group_element_widths() {
    bls_init(CurveType::Bls12CurveFp381).unwrap();
    let sk = BlsSecretKey::new_random().unwrap();
    let pk = sk.to_public_key();
    let sig = sk.sign(b"widths");

    let mut pk_buf = [0u8; 96];
    assert_eq!(96, pk.serialize(&mut pk_buf).unwrap());
    let mut pk2 = BlsPublicKey::new();
    assert_eq!(96, pk2.deserialize(&pk_buf).unwrap());
    assert_eq!(pk, pk2);

    let mut sig_buf = [0u8; 48];
    assert_eq!(48, sig.serialize(&mut sig_buf).unwrap());
    let mut sig2 = BlsSignature::new();
    assert_eq!(48, sig2.deserialize(&sig_buf).unwrap());
    assert_eq!(sig, sig2);
}

#[test]
fn deserialize_rejects_wrong_length() {
    bls_init(CurveType::Bls12CurveFp381).unwrap();
    let mut id = BlsId::new();
    id.set_int(7);
    let kept = id.clone();
    assert!(id.deserialize(&[0u8; 31]).is_err());
    assert!(id.deserialize(&[0u8; 33]).is_err());
    // a failed decode must not substitute a default value
    assert_eq!(kept, id);
}

#[test]
fn deserialize_rejects_out_of_range_scalar() {
    bls_init(CurveType::Bls12CurveFp381).unwrap();
    let mut id = BlsId::new();
    id.set_int(7);
    let kept = id.clone();
    assert!(id.deserialize(&[0xffu8; 32]).is_err());
    assert_eq!(kept, id);
}

#[test]
fn dec_str_rejects_bad_input() {
    bls_init(CurveType::Bls12CurveFp381).unwrap();
    let mut sk = BlsSecretKey::new();
    sk.set_dec_str("5").unwrap();
    let kept = sk.clone();
    assert!(sk.set_dec_str("").is_err());
    assert!(sk.set_dec_str("12a").is_err());
    assert!(sk.set_dec_str("-4").is_err());
    // an embedded null byte is rejected
    assert!(sk.set_dec_str("4\u{0}2").is_err());
    // values at or above the scalar-field order are rejected
    assert!(sk.set_dec_str("1000003").is_err());
    assert!(sk.set_dec_str("99999999999999999999").is_err());
    assert_eq!(kept, sk);
    // the largest canonical scalar parses
    assert!(sk.set_dec_str("1000002").is_ok());
}

#[test]
fn hex_str_rejects_bad_input() {
    bls_init(CurveType::Bls12CurveFp381).unwrap();
    let mut sk = BlsSecretKey::new();
    sk.set_dec_str("5").unwrap();
    let kept = sk.clone();
    assert!(sk.set_hex_str("").is_err());
    assert!(sk.set_hex_str("zz").is_err());
    assert!(sk.set_hex_str("2a\u{0}").is_err());
    assert_eq!(kept, sk);
    // upper-case digits are accepted
    let mut upper = BlsSecretKey::new();
    upper.set_hex_str("2A").unwrap();
    let mut lower = BlsSecretKey::new();
    lower.set_hex_str("2a").unwrap();
    assert_eq!(lower, upper);
}

#[test]
fn zero_renders_as_single_digit() {
    bls_init(CurveType::Bls12CurveFp381).unwrap();
    let id = BlsId::new();
    assert_eq!("0", &id.get_dec_str().unwrap());
    assert_eq!("0", &id.get_hex_str().unwrap());
}

#[test]
fn text_roundtrip_random_key() {
    bls_init(CurveType::Bls12CurveFp381).unwrap();
    let sk = BlsSecretKey::new_random().unwrap();

    let dec = sk.get_dec_str().unwrap();
    let mut back = BlsSecretKey::new();
    back.set_dec_str(&dec).unwrap();
    assert_eq!(sk, back);

    let hex = sk.get_hex_str().unwrap();
    let mut back2 = BlsSecretKey::new();
    back2.set_hex_str(&hex).unwrap();
    assert_eq!(sk, back2);
}

#[test]
fn serde_roundtrip_random_key() {
    bls_init(CurveType::Bls12CurveFp381).unwrap();
    let sk = BlsSecretKey::new_random().unwrap();
    let mut buf = [0u8; 32];
    assert_eq!(32, sk.serialize(&mut buf).unwrap());
    let mut back = BlsSecretKey::new();
    assert_eq!(32, back.deserialize(&buf).unwrap());
    assert_eq!(sk, back);
}

#[test]
fn little_endian_sets_canonical_value() {
    bls_init(CurveType::Bls12CurveFp381).unwrap();
    let mut sk = BlsSecretKey::new();
    sk.set_little_endian(&[42, 0, 0, 0]);
    assert_eq!("42", &sk.get_dec_str().unwrap());
    // an out-of-range value leaves the key unchanged
    sk.set_little_endian(&[0xff; 32]);
    assert_eq!("42", &sk.get_dec_str().unwrap());
}

#[test]
fn little_endian_mod_reduces() {
    bls_init(CurveType::Bls12CurveFp381).unwrap();
    let mut sk = BlsSecretKey::new();
    // 0x0f4b44 = 1002308 = 1000003 + 2305
    sk.set_little_endian_mod(&[0x44, 0x4b, 0x0f]);
    assert_eq!("2305", &sk.get_dec_str().unwrap());
}

#[test]
fn signing_is_deterministic() {
    bls_init(CurveType::Bls12CurveFp381).unwrap();
    let sk = BlsSecretKey::new_random().unwrap();
    let sig1 = sk.sign(b"same message");
    let sig2 = sk.sign(b"same message");
    assert_eq!(sig1, sig2);
}

#[test]
fn verify_rejects_explicitly_different_key() {
    bls_init(CurveType::Bls12CurveFp381).unwrap();
    let mut sk1 = BlsSecretKey::new();
    sk1.set_dec_str("10").unwrap();
    let mut sk2 = BlsSecretKey::new();
    sk2.set_dec_str("11").unwrap();
    let sig = sk1.sign(b"message");
    assert!(sig.verify(&sk1.to_public_key(), b"message"));
    assert!(!sig.verify(&sk2.to_public_key(), b"message"));
}

#[test]
fn aggregated_keys_match_aggregated_publics() {
    bls_init(CurveType::Bls12CurveFp381).unwrap();
    let mut sk1 = BlsSecretKey::new();
    sk1.set_dec_str("10").unwrap();
    let mut sk2 = BlsSecretKey::new();
    sk2.set_dec_str("15").unwrap();
    let pk1 = sk1.to_public_key();
    let pk2 = sk2.to_public_key();
    let agg_sk = sk1 + sk2;
    assert_eq!(agg_sk.to_public_key(), pk1 + pk2);
}

#[test]
fn in_place_aggregation_matches_operators() {
    bls_init(CurveType::Bls12CurveFp381).unwrap();
    let mut sk1 = BlsSecretKey::new();
    sk1.set_dec_str("10").unwrap();
    let mut sk2 = BlsSecretKey::new();
    sk2.set_dec_str("15").unwrap();
    let mut acc = sk1.clone();
    acc.add_assign(&sk2);
    assert_eq!(sk1.clone() + sk2.clone(), acc);
    acc.sub_assign(&sk2);
    assert_eq!(sk1, acc);
}

#[test]
fn subtraction_wraps_in_the_field() {
    bls_init(CurveType::Bls12CurveFp381).unwrap();
    let mut small = BlsSecretKey::new();
    small.set_dec_str("1").unwrap();
    let mut large = BlsSecretKey::new();
    large.set_dec_str("2").unwrap();
    let wrapped = small - large; // 1 - 2 = -1 = 1000002 mod 1000003
    assert_eq!("1000002", &wrapped.get_dec_str().unwrap());
}

#[test]
fn threshold_two_sharing_recovers_master() {
    bls_init(CurveType::Bls12CurveFp381).unwrap();
    let mut msk = BlsSecretKey::new();
    msk.set_dec_str("123").unwrap();

    let mut ids = Vec::new();
    let mut shares = Vec::new();
    for n in 1..=3 {
        let mut id = BlsId::new();
        id.set_int(n);
        shares.push(BlsSecretKey::new_share(&msk, 2, &id).unwrap());
        ids.push(id);
    }

    // any two of the three shares recover the master key
    let r12 = BlsSecretKey::recover(&shares[0..2], &ids[0..2], 2).unwrap();
    assert_eq!(msk, r12);
    let r23 = BlsSecretKey::recover(&shares[1..3], &ids[1..3], 2).unwrap();
    assert_eq!(msk, r23);

    // a single share of a two-coefficient sharing is not the master key,
    // and recovery from it silently yields an unrelated value
    assert_ne!(msk, shares[0]);
    let under = BlsSecretKey::recover(&shares[0..1], &ids[0..1], 1).unwrap();
    assert_ne!(msk, under);
}

#[test]
fn recover_rejects_bad_inputs() {
    bls_init(CurveType::Bls12CurveFp381).unwrap();
    let msk = BlsSecretKey::new_random().unwrap();
    let mut id = BlsId::new();
    id.set_int(5);
    let share = BlsSecretKey::new_share(&msk, 1, &id).unwrap();

    // a zero count
    assert!(BlsSecretKey::recover(&[share.clone()], &[id.clone()], 0).is_err());
    // a count that exceeds the slices
    assert!(BlsSecretKey::recover(&[share.clone()], &[id.clone()], 2).is_err());
    // a zero identity
    let zero_id = BlsId::new();
    assert!(BlsSecretKey::recover(&[share.clone()], &[zero_id], 1).is_err());
    // duplicate identities
    let dup = BlsSecretKey::recover(
        &[share.clone(), share.clone()],
        &[id.clone(), id.clone()],
        2,
    );
    assert!(dup.is_err());
}

#[test]
fn share_rejects_zero_count() {
    bls_init(CurveType::Bls12CurveFp381).unwrap();
    let msk = BlsSecretKey::new_random().unwrap();
    let mut id = BlsId::new();
    id.set_int(5);
    assert!(BlsSecretKey::new_share(&msk, 0, &id).is_err());
    assert!(BlsPublicKey::new_share(&msk.to_public_key(), 0, &id).is_err());
}

#[test]
fn signature_recover_trivial() {
    bls_init(CurveType::Bls12CurveFp381).unwrap();
    let sk = BlsSecretKey::new_random().unwrap();
    let sig = sk.sign(b"shared message");
    let mut id = BlsId::new();
    id.set_int(77);
    let rec = BlsSignature::recover(&[sig.clone()], &[id], 1).unwrap();
    assert_eq!(sig, rec);
}

#[test]
fn public_key_threshold_two_recovers_master() {
    bls_init(CurveType::Bls12CurveFp381).unwrap();
    let mut msk = BlsSecretKey::new();
    msk.set_dec_str("123").unwrap();
    let mpk = msk.to_public_key();

    let mut ids = Vec::new();
    let mut shares = Vec::new();
    for n in 4..=5 {
        let mut id = BlsId::new();
        id.set_int(n);
        shares.push(BlsPublicKey::new_share(&mpk, 2, &id).unwrap());
        ids.push(id);
    }
    let rec = BlsPublicKey::recover(&shares, &ids, 2).unwrap();
    assert_eq!(mpk, rec);
}

#[test]
fn defaults_are_the_zero_elements() {
    bls_init(CurveType::Bls12CurveFp381).unwrap();
    assert_eq!(BlsId::new(), BlsId::default());
    assert_eq!(BlsSecretKey::new(), BlsSecretKey::default());
    assert_eq!(BlsPublicKey::new(), BlsPublicKey::default());
    assert_eq!(BlsSignature::new(), BlsSignature::default());
}

#[test]
fn concrete_end_to_end_scenario() {
    bls_init(CurveType::Bls12CurveFp381).unwrap();

    // an identity of 42 survives a 32-byte serialization round trip
    let mut id = BlsId::new();
    id.set_int(42);
    let mut buf = [0u8; 32];
    assert_eq!(32, id.serialize(&mut buf).unwrap());
    let mut id2 = BlsId::new();
    assert_eq!(32, id2.deserialize(&buf).unwrap());
    assert_eq!(id, id2);

    // decimal arithmetic: 10 + 15 = 25, 25 - 15 = 10
    let mut ten = BlsSecretKey::new();
    ten.set_dec_str("10").unwrap();
    let mut fifteen = BlsSecretKey::new();
    fifteen.set_dec_str("15").unwrap();
    let sum = ten.clone() + fifteen.clone();
    assert_eq!("25", &sum.get_dec_str().unwrap());
    let back = sum - fifteen;
    assert_eq!("10", &back.get_dec_str().unwrap());

    // hex "2a" is the identity 42
    let mut hex_id = BlsId::new();
    hex_id.set_hex_str("2a").unwrap();
    let mut int_id = BlsId::new();
    int_id.set_int(42);
    assert_eq!(hex_id, int_id);
}

#[test]
fn negative_set_int_wraps() {
    bls_init(CurveType::Bls12CurveFp381).unwrap();
    let mut id = BlsId::new();
    id.set_int(-1);
    assert_eq!("1000002", &id.get_dec_str().unwrap());
    let mut id2 = BlsId::new();
    id2.set_int(-1000003);
    assert_eq!("0", &id2.get_dec_str().unwrap());
}
