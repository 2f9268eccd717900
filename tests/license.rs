use licenses_pro::blockers::{check_blocklist_body, BlockCheckError, Blocker, BuiltinBlocklist, NoBlock};
use licenses_pro::check::{
    verify_license, ChecksumVerifyError, HumanReadableParseError, License, LicenseCheckInfo,
    LicenseParseError, LicenseVerifyResult,
};
use licenses_pro::gen::{add_dashes, AdminGenerator, LicenseGenError};
use licenses_pro::LicenseStructParameters;

const SEED: [u8; 6] = [5, 100, 42, 69, 3, 90];

fn new_test_genner() -> AdminGenerator {
    let params = LicenseStructParameters {
        seed_length: 6,
        payload_length: 10,
        chunk_size: 2,
    };
    AdminGenerator::new_with_random_ivs(params)
}

fn new_test_license() -> License {
    let genner = new_test_genner();
    genner.generate_license(vec![5, 100, 42, 69, 3, 90]).unwrap()
}

/// A generator whose vector `i` is twelve bytes of value `i`.
fn fixed_genner() -> AdminGenerator {
    AdminGenerator {
        parameters: LicenseStructParameters::default(),
        ivs: (0u8..10).map(|i| vec![i; 12]).collect(),
    }
}

fn expected_payload() -> Vec<Vec<u8>> {
    vec![
        vec![247, 146],
        vec![136, 76],
        vec![26, 65],
        vec![23, 58],
        vec![17, 169],
        vec![172, 70],
        vec![117, 76],
        vec![233, 70],
        vec![164, 30],
        vec![253, 32],
    ]
}

const FIXED_TEXT: &str = "BWQq-RQNa-95KI-TBpB-FzoR-qaxG-dUzp-RqQe-/SDC-2Q";

fn same(a: &License, b: &License) -> bool {
    a.seed == b.seed && a.payload == b.payload && a.checksum == b.checksum
}

fn info(iv: Vec<u8>, index: usize) -> LicenseCheckInfo {
    LicenseCheckInfo { known_iv: iv, iv_index: index }
}

#[test]
fn checksum_works_for_valid() {
    new_test_license().verify_checksum().unwrap()
}

#[test]
fn checksum_detects_invalid() {
    let mut license = new_test_license();
    license.payload[0][0] = license.payload[0][0].wrapping_add(1);
    if let Ok(_) = license.verify_checksum() {
        panic!("Checksum should not be valid")
    }
}

#[test]
fn license_works() {
    let genner = new_test_genner();
    let license = genner.generate_license(vec![5, 100, 42, 69, 3, 90]).unwrap();
    println!("{}", license.clone().to_human_readable());
    println!("{:?}", genner.ivs[0]);
    assert_eq!(
        verify_license(
            license,
            LicenseCheckInfo {
                known_iv: genner.ivs[0].clone(),
                iv_index: 0
            },
            NoBlock
        ),
        LicenseVerifyResult::LicenseGood
    );
}

#[test]
fn forgery_detected() {
    let genner = new_test_genner();
    let license = genner.generate_license(vec![5, 100, 42, 69, 3, 90]).unwrap();
    if let LicenseVerifyResult::LicenseForged = verify_license(
        license,
        LicenseCheckInfo {
            known_iv: vec![182, 34],
            iv_index: 0,
        },
        NoBlock,
    ) {
    } else {
        panic!("Bad license detected as good")
    }
}

#[test]
fn default_parameters() {
    let p = LicenseStructParameters::default();
    assert_eq!((p.seed_length, p.payload_length, p.chunk_size), (6, 10, 2));
}

#[test]
fn random_generator_shape() {
    let genner = new_test_genner();
    assert_eq!(genner.ivs.len(), 10);
    for iv in &genner.ivs {
        assert!(iv.len() >= 10 && iv.len() < 16);
    }
}

#[test]
fn generated_license_exact_values() {
    let license = fixed_genner().generate_license(SEED.to_vec()).unwrap();
    assert_eq!(license.seed, SEED.to_vec());
    assert_eq!(license.payload, expected_payload());
    assert_eq!(license.checksum, vec![194, 217]);
}

#[test]
fn generate_is_deterministic() {
    let g = new_test_genner();
    let a = g.generate_license(SEED.to_vec()).unwrap();
    let b = g.generate_license(SEED.to_vec()).unwrap();
    assert!(same(&a, &b));
}

#[test]
fn generate_rejects_wrong_seed_length() {
    let g = fixed_genner();
    assert!(matches!(g.generate_license(vec![1, 2, 3]), Err(LicenseGenError::InvalidSeedLen)));
    assert!(matches!(g.generate_license(vec![0; 7]), Err(LicenseGenError::InvalidSeedLen)));
}

#[test]
fn to_bytes_layout() {
    let license = fixed_genner().generate_license(SEED.to_vec()).unwrap();
    let bytes = license.to_bytes();
    let mut expected = SEED.to_vec();
    for c in expected_payload() {
        expected.extend(c);
    }
    expected.extend([194, 217]);
    assert_eq!(bytes, expected);
    assert_eq!(bytes.len(), 6 + 10 * 2 + 2);
}

#[test]
fn bytes_round_trip() {
    let g = new_test_genner();
    let license = g.generate_license(SEED.to_vec()).unwrap();
    let parsed =
        License::from_license_bytes(license.clone().to_bytes(), LicenseStructParameters::default())
            .unwrap();
    assert!(same(&parsed, &license));
}

#[test]
fn parse_bytes_splits_in_order() {
    let p = LicenseStructParameters { seed_length: 2, payload_length: 3, chunk_size: 2 };
    let parsed = License::from_license_bytes(vec![1, 2, 3, 4, 5, 6, 7, 8, 9, 10], p).unwrap();
    assert_eq!(parsed.seed, vec![1, 2]);
    assert_eq!(parsed.payload, vec![vec![3, 4], vec![5, 6], vec![7, 8]]);
    assert_eq!(parsed.checksum, vec![9, 10]);
}

#[test]
fn parse_bytes_wrong_length() {
    let p = LicenseStructParameters::default();
    assert!(matches!(License::from_license_bytes(vec![0; 27], p), Err(LicenseParseError::InvalidLength)));
    assert!(matches!(License::from_license_bytes(vec![0; 29], p), Err(LicenseParseError::InvalidLength)));
    assert!(matches!(License::from_license_bytes(vec![], p), Err(LicenseParseError::InvalidLength)));
    assert!(License::from_license_bytes(vec![0; 28], p).is_ok());
}

#[test]
fn parse_bytes_huge_parameters() {
    let p = LicenseStructParameters { seed_length: 1, payload_length: usize::MAX, chunk_size: 2 };
    assert!(matches!(License::from_license_bytes(vec![0; 5], p), Err(LicenseParseError::InvalidLength)));
}

#[test]
fn human_readable_exact() {
    let license = fixed_genner().generate_license(SEED.to_vec()).unwrap();
    assert_eq!(license.to_human_readable(), FIXED_TEXT);
}

#[test]
fn human_readable_parse_exact() {
    let parsed =
        License::from_human_readable(FIXED_TEXT.to_string(), LicenseStructParameters::default())
            .unwrap();
    assert_eq!(parsed.seed, SEED.to_vec());
    assert_eq!(parsed.payload, expected_payload());
    assert_eq!(parsed.checksum, vec![194, 217]);
}

#[test]
fn human_readable_round_trip() {
    let license = new_test_license();
    let text = license.clone().to_human_readable();
    let parsed = License::from_human_readable(text, LicenseStructParameters::default()).unwrap();
    assert!(same(&parsed, &license));
}

#[test]
fn human_readable_dash_positions() {
    let text = new_test_license().to_human_readable();
    let b = text.as_bytes();
    assert!(b[0] != b'-');
    for (i, c) in b.iter().enumerate() {
        assert_eq!(*c == b'-', i % 5 == 4);
    }
}

#[test]
fn human_readable_ignores_dashes() {
    let undashed = FIXED_TEXT.replace('-', "");
    let parsed = License::from_human_readable(undashed, LicenseStructParameters::default()).unwrap();
    assert_eq!(parsed.payload, expected_payload());
}

#[test]
fn human_readable_bad_base64() {
    let r = License::from_human_readable("BWQq-RQ*a".to_string(), LicenseStructParameters::default());
    assert!(matches!(r, Err(HumanReadableParseError::Base64DecodeError(_))));
}

#[test]
fn human_readable_wrong_length() {
    let r = License::from_human_readable("AQID".to_string(), LicenseStructParameters::default());
    assert!(matches!(
        r,
        Err(HumanReadableParseError::ParseBytesError(LicenseParseError::InvalidLength))
    ));
}

#[test]
fn checksum_error_variant() {
    let mut license = fixed_genner().generate_license(SEED.to_vec()).unwrap();
    license.checksum = vec![0, 0];
    assert!(matches!(license.verify_checksum(), Err(ChecksumVerifyError::ChecksumDoesntMatch)));
}

#[test]
fn checksum_detects_single_byte_flip() {
    let base = fixed_genner().generate_license(SEED.to_vec()).unwrap();
    let mut license = base.clone();
    license.payload[0][0] ^= 0xff;
    assert!(license.verify_checksum().is_err());
}

#[test]
fn checksum_is_no_authenticity_proof() {
    // A two-byte checksum collides easily: this edit keeps it.
    let mut license = fixed_genner().generate_license(SEED.to_vec()).unwrap();
    license.payload[2][1] = 119;
    assert!(license.verify_checksum().is_ok());
}

#[test]
fn verify_good_with_fixed_ivs() {
    let g = fixed_genner();
    for i in 0..10usize {
        let license = g.generate_license(SEED.to_vec()).unwrap();
        assert_eq!(verify_license(license, info(vec![i as u8; 12], i), NoBlock), LicenseVerifyResult::LicenseGood);
    }
}

#[test]
fn verify_wrong_iv_forged() {
    let license = fixed_genner().generate_license(SEED.to_vec()).unwrap();
    assert_eq!(
        verify_license(license, info(vec![1; 12], 0), NoBlock),
        LicenseVerifyResult::LicenseForged
    );
}

#[test]
fn verify_checksum_failed_first() {
    let mut license = fixed_genner().generate_license(SEED.to_vec()).unwrap();
    license.checksum = vec![0, 0];
    assert_eq!(
        verify_license(license, info(vec![0; 12], 99), NoBlock),
        LicenseVerifyResult::ChecksumFailed
    );
}

#[test]
fn verify_invalid_iv_index() {
    let g = new_test_genner();
    let license = g.generate_license(SEED.to_vec()).unwrap();
    assert_eq!(
        verify_license(license, info(g.ivs[0].clone(), 10), NoBlock),
        LicenseVerifyResult::InvalidIVIndex
    );
}

#[test]
fn verify_builtin_blocklist() {
    let g = new_test_genner();
    let license = g.generate_license(SEED.to_vec()).unwrap();
    let list = BuiltinBlocklist(vec![vec![1, 2, 3, 4, 5, 6], SEED.to_vec()]);
    assert_eq!(
        verify_license(license, info(g.ivs[3].clone(), 3), list),
        LicenseVerifyResult::LicenseBlocked(BlockCheckError::Blocked)
    );
    let other = g.generate_license(vec![9, 9, 9, 9, 9, 9]).unwrap();
    let list = BuiltinBlocklist(vec![vec![1, 2, 3, 4, 5, 6], SEED.to_vec()]);
    assert_eq!(
        verify_license(other, info(g.ivs[3].clone(), 3), list),
        LicenseVerifyResult::LicenseGood
    );
}

#[test]
fn blockers_decide() {
    assert_eq!(NoBlock.check_block(&SEED), Ok(()));
    let list = BuiltinBlocklist(vec![SEED.to_vec()]);
    assert_eq!(list.check_block(&SEED), Err(BlockCheckError::Blocked));
    assert_eq!(list.check_block(&SEED[..5]), Ok(()));
    assert_eq!(BuiltinBlocklist(vec![]).check_block(&SEED), Ok(()));
}

#[test]
fn blocklist_body_outcomes() {
    // "BWQqRQNa" is the base64 form of the seed, "AQID" that of [1, 2, 3].
    assert_eq!(check_blocklist_body(b"AQID\nBWQqRQNa", &SEED), Err(BlockCheckError::Blocked));
    assert_eq!(check_blocklist_body(b"AQID", &SEED), Ok(()));
    assert_eq!(check_blocklist_body(b"AQID", &[1, 2, 3]), Err(BlockCheckError::Blocked));
    assert_eq!(check_blocklist_body(b"AQID\n", &SEED), Ok(()));
    assert_eq!(check_blocklist_body(b"", &[]), Err(BlockCheckError::Blocked));
    assert_eq!(check_blocklist_body(b"BWQqRQNa\n*!", &SEED), Err(BlockCheckError::BadList));
    assert_eq!(check_blocklist_body(b"*!\nBWQqRQNa", &SEED), Err(BlockCheckError::BadList));
}

#[test]
fn dashes_every_four() {
    assert_eq!(add_dashes(b""), "");
    assert_eq!(add_dashes(b"abcd"), "abcd");
    assert_eq!(add_dashes(b"abcde"), "abcd-e");
    assert_eq!(add_dashes(b"abcdefghi"), "abcd-efgh-i");
}
