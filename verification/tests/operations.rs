//! The operations on whole inputs: what holds of them on chosen values.
use eip2537::error::ErrorKind;
use eip2537::g1::{decode_g1, encode_g1, G1Point};
use eip2537::g2::{decode_g2, encode_g2, G2Point};
use eip2537::group::{validate_point, CurvePoint};
use eip2537::mapper::{map_fp2_to_g2, map_fp_to_g1};
use eip2537::field::{decode_fp, decode_fp2};
use eip2537::msm::{accumulate, multiexp, Strategy};
use eip2537::pairing::{pairing_check, validate_pairs};
use eip2537::precompile::{
    g1_add, g1_mul, g1_multiexp_with, g2_add, g2_mul, g2_multiexp_with, map_fp2_to_g2_bytes,
    map_fp_to_g1_bytes, pairing,
};
use eip2537::scalar::{decode_scalar, Scalar};
use eip2537::blstEIP2537Executor;

fn hex(s: &str) -> Vec<u8> {
    let digits: Vec<u8> = s.bytes().map(|c| match c {
        b'0'..=b'9' => c - b'0',
        b'a'..=b'f' => c - b'a' + 10,
        _ => panic!("not a hex digit"),
    }).collect();
    digits.chunks(2).map(|pair| pair[0] * 16 + pair[1]).collect()
}

const G1: &str = "0000000000000000000000000000000017f1d3a73197d7942695638c4fa9ac0fc3688c4f9774b905a14e3a3f171bac586c55e83ff97a1aeffb3af00adb22c6bb0000000000000000000000000000000008b3f481e3aaa0f1a09e30ed741d8ae4fcf5e095d5d00af600db18cb2c04b3edd03cc744a2888ae40caa232946c5e7e1";
const G1_2: &str = "000000000000000000000000000000000572cbea904d67468808c8eb50a9450c9721db309128012543902d0ac358a62ae28f75bb8f1c7c42c39a8c5529bf0f4e00000000000000000000000000000000166a9d8cabc673a322fda673779d8e3822ba3ecb8670e461f73bb9021d5fd76a4c56d9d4cd16bd1bba86881979749d28";
const G1_3: &str = "0000000000000000000000000000000009ece308f9d1f0131765212deca99697b112d61f9be9a5f1f3780a51335b3ff981747a0b2ca2179b96d2c0c9024e522400000000000000000000000000000000032b80d3a6f5b09f8a84623389c5f80ca69a0cddabc3097f9d9c27310fd43be6e745256c634af45ca3473b0590ae30d1";
const G1_5: &str = "0000000000000000000000000000000010e7791fb972fe014159aa33a98622da3cdc98ff707965e536d8636b5fcc5ac7a91a8c46e59a00dca575af0f18fb13dc0000000000000000000000000000000016ba437edcc6551e30c10512367494bfb6b01cc6681e8a4c3cd2501832ab5c4abc40b4578b85cbaffbf0bcd70d67c6e2";
const G1_8: &str = "00000000000000000000000000000000085ae765588126f5e860d019c0e26235f567a9c0c0b2d8ff30f3e8d436b1082596e5e7462d20f5be3764fd473e57f9cf0000000000000000000000000000000019e7dfab8a794b6abb9f84e57739de172a63415273f460d1607fa6a74f0acd97d9671b801dd1fd4f18232dd1259359a1";
const G1_NEG: &str = "0000000000000000000000000000000017f1d3a73197d7942695638c4fa9ac0fc3688c4f9774b905a14e3a3f171bac586c55e83ff97a1aeffb3af00adb22c6bb00000000000000000000000000000000114d1d6855d545a8aa7d76c8cf2e21f267816aef1db507c96655b9d5caac42364e6f38ba0ecb751bad54dcd6b939c2ca";
const G1_OFF: &str = "0000000000000000000000000000000017f1d3a73197d7942695638c4fa9ac0fc3688c4f9774b905a14e3a3f171bac586c55e83ff97a1aeffb3af00adb22c6bb0000000000000000000000000000000008b3f481e3aaa0f1a09e30ed741d8ae4fcf5e095d5d00af600db18cb2c04b3edd03cc744a2888ae40caa232946c5e7e2";
const G1_OUT: &str = "00000000000000000000000000000000000000000000000000000000000000000000000000000000000000000000000000000000000000000000000000000004000000000000000000000000000000000a989badd40d6212b33cffc3f3763e9bc760f988c9926b26da9dd85e928483446346b8ed00e1de5d5ea93e354abe706c";
const G1_K1: &str = "000000000000000000000000000000000491d1b0ecd9bb917989f0e74f0dea0422eac4a873e5e2644f368dffb9a6e20fd6e10c1b77654d067c0618f6e5a7f79a0000000000000000000000000000000017cd7061575d3e8034fcea62adaa1a3bc38dca4b50e4c5c01d04dd78037c9cee914e17944ea99e7ad84278e5d49f36c4";
const G1_MSM3: &str = "00000000000000000000000000000000022052fb9e42c66e16746c316762e41ebce938ef26c01022707d1974cfba0d08b94af3b3df4b89075f8ab769802f5ff700000000000000000000000000000000013a7a6869759b6df4e0d990320d8b92ad4196167135e5742ca05b7f629ea697ae9a957d9656794f3496c0205c5c9950";
const G2: &str = "00000000000000000000000000000000024aa2b2f08f0a91260805272dc51051c6e47ad4fa403b02b4510b647ae3d1770bac0326a805bbefd48056c8c121bdb80000000000000000000000000000000013e02b6052719f607dacd3a088274f65596bd0d09920b61ab5da61bbdc7f5049334cf11213945d57e5ac7d055d042b7e000000000000000000000000000000000ce5d527727d6e118cc9cdc6da2e351aadfd9baa8cbdd3a76d429a695160d12c923ac9cc3baca289e193548608b82801000000000000000000000000000000000606c4a02ea734cc32acd2b02bc28b99cb3e287e85a763af267492ab572e99ab3f370d275cec1da1aaa9075ff05f79be";
const G2_2: &str = "000000000000000000000000000000001638533957d540a9d2370f17cc7ed5863bc0b995b8825e0ee1ea1e1e4d00dbae81f14b0bf3611b78c952aacab827a053000000000000000000000000000000000a4edef9c1ed7f729f520e47730a124fd70662a904ba1074728114d1031e1572c6c886f6b57ec72a6178288c47c33577000000000000000000000000000000000468fb440d82b0630aeb8dca2b5256789a66da69bf91009cbfe6bd221e47aa8ae88dece9764bf3bd999d95d71e4c9899000000000000000000000000000000000f6d4552fa65dd2638b361543f887136a43253d9c66c411697003f7a13c308f5422e1aa0a59c8967acdefd8b6e36ccf3";
const G2_3: &str = "00000000000000000000000000000000122915c824a0857e2ee414a3dccb23ae691ae54329781315a0c75df1c04d6d7a50a030fc866f09d516020ef82324afae0000000000000000000000000000000009380275bbc8e5dcea7dc4dd7e0550ff2ac480905396eda55062650f8d251c96eb480673937cc6d9d6a44aaa56ca66dc000000000000000000000000000000000b21da7955969e61010c7a1abc1a6f0136961d1e3b20b1a7326ac738fef5c721479dfd948b52fdf2455e44813ecfd8920000000000000000000000000000000008f239ba329b3967fe48d718a36cfe5f62a7e42e0bf1c1ed714150a166bfbd6bcf6b3b58b975b9edea56d53f23a0e849";
const G2_5: &str = "000000000000000000000000000000000411a5de6730ffece671a9f21d65028cc0f1102378de124562cb1ff49db6f004fcd14d683024b0548eff3d1468df26880000000000000000000000000000000000fb837804dba8213329db46608b6c121d973363c1234a86dd183baff112709cf97096c5e9a1a770ee9d7dc641a894d60000000000000000000000000000000019b5e8f5d4a72f2b75811ac084a7f814317360bac52f6aab15eed416b4ef9938e0bdc4865cc2c4d0fd947e7c6925fd1400000000000000000000000000000000093567b4228be17ee62d11a254edd041ee4b953bffb8b8c7f925bd6662b4298bac2822b446f5b5de3b893e1be5aa4986";
const G2_NEG: &str = "00000000000000000000000000000000024aa2b2f08f0a91260805272dc51051c6e47ad4fa403b02b4510b647ae3d1770bac0326a805bbefd48056c8c121bdb80000000000000000000000000000000013e02b6052719f607dacd3a088274f65596bd0d09920b61ab5da61bbdc7f5049334cf11213945d57e5ac7d055d042b7e000000000000000000000000000000000d1b3cc2c7027888be51d9ef691d77bcb679afda66c73f17f9ee3837a55024f78c71363275a75d75d86bab79f74782aa0000000000000000000000000000000013fa4d4a0ad8b1ce186ed5061789213d993923066dddaf1040bc3ff59f825c78df74f2d75467e25e0f55f8a00fa030ed";
const G2_OUT: &str = "00000000000000000000000000000000000000000000000000000000000000000000000000000000000000000000000000000000000000000000000000000001000000000000000000000000000000000000000000000000000000000000000000000000000000000000000000000000000000000000000000000000000000010000000000000000000000000000000017faa6201231304f270b858dad9462089f2a5b83388e4b10773abc1eef6d193b9fce4e8ea2d9d28e3c3a315aa7de14ca0000000000000000000000000000000000cc12449be6ac4e7f367e7242250427c4fb4c39325d3164ad397c1837a90f0ea1a534757df374dd6569345eb41ed76e";
const G2_MSM3: &str = "000000000000000000000000000000000d637e316efa3ed95fcd2ff98bbf42672a0f2a95e94ae0789a5112cf51f467801d7efcde86d5a099b079615ece9816bc00000000000000000000000000000000126a329814071b434052cacc4730d60370e3e78e9226f9184b2ddb9cd4de6a0f514bda7ed789284857fda7e62b925a7b0000000000000000000000000000000000a91305bd6260273214dcf8f671635ac667571209c7731656e4bac1812ae172fc1ebb829cf2022cdbcf4da3400cde690000000000000000000000000000000014a98830e6767c45b11e3854d18f03e4902a1bc855c396740ff9087e9b1c1aacb6c79273b96a950d39762ac7af73c620";
const K1: &str = "263dbd792f5b1be47ed85f8938c0f29586af0d3ac7b977f21c278fe1462040e3";
const K2: &str = "47b8192d77bf871b62e87859d653922725724a5c031afeabc60bcef5ff665138";
const K3: &str = "328388aff0d4a5b7dc9205abd374e7e98f3cd9f3418edb4eafda5fb16473d216";
const MODULUS: &str = "1a0111ea397fe69a4b1ba7b6434bacd764774b84f38512bf6730d2a0f6b0f6241eabfffeb153ffffb9feffffffffaaab";

fn join(parts: &[&[u8]]) -> Vec<u8> {
    let mut bytes = Vec::new();
    for part in parts {
        bytes.extend_from_slice(part);
    }
    bytes
}

fn scalar(k: u8) -> Vec<u8> {
    let mut bytes = vec![0u8; 32];
    bytes[31] = k;
    bytes
}

#[test]
fn adding_two_known_points_gives_the_known_sum() {
    let input = join(&[&hex(G1), &hex(G1_2)]);
    assert_eq!(g1_add(&input).unwrap().to_vec(), hex(G1_3));
    assert_eq!(blstEIP2537Executor::g1_add(&input).unwrap().to_vec(), hex(G1_3));
}

#[test]
fn adding_the_identity_changes_nothing() {
    let zero = [0u8; 128];
    for point in [G1, G1_2, G1_OUT] {
        let p = hex(point);
        assert_eq!(g1_add(&join(&[&p, &zero])).unwrap().to_vec(), p);
        assert_eq!(g1_add(&join(&[&zero, &p])).unwrap().to_vec(), p);
    }
    let zero = [0u8; 256];
    for point in [G2, G2_2, G2_OUT] {
        let p = hex(point);
        assert_eq!(g2_add(&join(&[&p, &zero])).unwrap().to_vec(), p);
        assert_eq!(g2_add(&join(&[&zero, &p])).unwrap().to_vec(), p);
    }
}

#[test]
fn multiplying_by_zero_gives_the_identity() {
    for point in [G1, G1_2, G1_3] {
        let input = join(&[&hex(point), &scalar(0)]);
        assert_eq!(g1_mul(&input).unwrap(), [0u8; 128]);
    }
    for point in [G2, G2_2] {
        let input = join(&[&hex(point), &scalar(0)]);
        assert_eq!(g2_mul(&input).unwrap(), [0u8; 256]);
    }
}

#[test]
fn addition_commutes() {
    for (a, b) in [(G1, G1_2), (G1_2, G1_OUT), (G1_NEG, G1_3)] {
        let forth = g1_add(&join(&[&hex(a), &hex(b)])).unwrap();
        let back = g1_add(&join(&[&hex(b), &hex(a)])).unwrap();
        assert_eq!(forth, back);
    }
    for (a, b) in [(G2, G2_2), (G2_2, G2_OUT), (G2_NEG, G2_2)] {
        let forth = g2_add(&join(&[&hex(a), &hex(b)])).unwrap();
        let back = g2_add(&join(&[&hex(b), &hex(a)])).unwrap();
        assert_eq!(forth, back);
    }
}

#[test]
fn doubling_is_adding_a_point_to_itself() {
    let p = decode_g1(&hex(G1)).unwrap();
    assert_eq!(encode_g1(&p.twice()).to_vec(), hex(G1_2));
    assert_eq!(encode_g1(&p.plus(&p)).to_vec(), hex(G1_2));
    assert_eq!(encode_g1(&p.duplicate()).to_vec(), hex(G1));
    let q = decode_g2(&hex(G2)).unwrap();
    assert_eq!(encode_g2(&q.twice()).to_vec(), hex(G2_2));
    assert_eq!(encode_g2(&q.plus(&q)).to_vec(), hex(G2_2));
    assert_eq!(encode_g2(&G2Point::identity().twice()), [0u8; 256]);
}

#[test]
fn scalar_multiplication_gives_the_known_product() {
    let p = decode_g1(&hex(G1)).unwrap();
    let k = decode_scalar(&hex(K1)).unwrap();
    assert_eq!(encode_g1(&p.times(&k)).to_vec(), hex(G1_K1));
    let input = join(&[&hex(G1), &hex(K1)]);
    assert_eq!(g1_mul(&input).unwrap().to_vec(), hex(G1_K1));
    assert_eq!(g1_mul(&join(&[&hex(G1_2), &scalar(4)])).unwrap().to_vec(), hex(G1_8));
}

#[test]
fn the_strategies_agree() {
    let g1_input = join(&[&hex(G1), &hex(K1), &hex(G1_3), &hex(K2), &hex(G1_5), &hex(K3)]);
    let naive = g1_multiexp_with(&g1_input, Strategy::Naive).unwrap();
    let bucket = g1_multiexp_with(&g1_input, Strategy::Bucket).unwrap();
    let reference = g1_multiexp_with(&g1_input, Strategy::ReferenceBucket).unwrap();
    assert_eq!(naive.to_vec(), hex(G1_MSM3));
    assert_eq!(bucket, naive);
    assert_eq!(reference, naive);
    let g2_input = join(&[&hex(G2), &hex(K1), &hex(G2_3), &hex(K2), &hex(G2_5), &hex(K3)]);
    let naive = g2_multiexp_with(&g2_input, Strategy::Naive).unwrap();
    let bucket = g2_multiexp_with(&g2_input, Strategy::Bucket).unwrap();
    let reference = g2_multiexp_with(&g2_input, Strategy::ReferenceBucket).unwrap();
    assert_eq!(naive.to_vec(), hex(G2_MSM3));
    assert_eq!(bucket, naive);
    assert_eq!(reference, naive);
}

#[test]
fn the_strategies_agree_on_decoded_terms() {
    let terms: Vec<(G1Point, Scalar)> = vec![
        (decode_g1(&hex(G1)).unwrap(), decode_scalar(&hex(K1)).unwrap()),
        (decode_g1(&hex(G1_3)).unwrap(), decode_scalar(&hex(K2)).unwrap()),
        (decode_g1(&hex(G1_5)).unwrap(), decode_scalar(&hex(K3)).unwrap()),
    ];
    for strategy in [Strategy::Naive, Strategy::Bucket, Strategy::ReferenceBucket] {
        let total = multiexp(&terms, strategy).unwrap();
        assert_eq!(encode_g1(&total).to_vec(), hex(G1_MSM3));
        assert_eq!(encode_g1(&accumulate(&terms, strategy)).to_vec(), hex(G1_MSM3));
    }
}

#[test]
fn no_terms_is_an_error_and_not_the_identity() {
    let terms: Vec<(G1Point, Scalar)> = Vec::new();
    for strategy in [Strategy::Naive, Strategy::Bucket, Strategy::ReferenceBucket] {
        assert_eq!(multiexp(&terms, strategy).unwrap_err(), ErrorKind::EmptyInput);
        assert_eq!(g1_multiexp_with(&[], strategy).unwrap_err(), ErrorKind::EmptyInput);
        assert_eq!(g2_multiexp_with(&[], strategy).unwrap_err(), ErrorKind::EmptyInput);
        assert!(accumulate(&terms, strategy).is_identity());
    }
}

#[test]
fn a_term_with_scalar_zero_is_still_validated() {
    let outside = join(&[&hex(G1), &scalar(3), &hex(G1_OUT), &scalar(0)]);
    let off = join(&[&hex(G1_OFF), &scalar(0), &hex(G1), &scalar(3)]);
    for strategy in [Strategy::Naive, Strategy::Bucket, Strategy::ReferenceBucket] {
        assert_eq!(
            g1_multiexp_with(&outside, strategy).unwrap_err(),
            ErrorKind::PointNotInSubgroup
        );
        assert_eq!(g1_multiexp_with(&off, strategy).unwrap_err(), ErrorKind::PointNotOnCurve);
    }
    let terms = vec![(decode_g1(&hex(G1_OUT)).unwrap(), decode_scalar(&scalar(0)).unwrap())];
    assert_eq!(multiexp(&terms, Strategy::Bucket).unwrap_err(), ErrorKind::PointNotInSubgroup);
}

#[test]
fn the_first_bad_term_gives_the_error() {
    let mut bad_encoding = hex(G1);
    bad_encoding[..16].copy_from_slice(&[1u8; 16]);
    let input = join(&[&hex(G1_OUT), &scalar(1), &bad_encoding, &scalar(1)]);
    assert_eq!(
        g1_multiexp_with(&input, Strategy::Naive).unwrap_err(),
        ErrorKind::PointNotInSubgroup
    );
    let input = join(&[&bad_encoding, &scalar(1), &hex(G1_OUT), &scalar(1)]);
    assert_eq!(g1_multiexp_with(&input, Strategy::Naive).unwrap_err(), ErrorKind::EncodingError);
}

#[test]
fn the_subgroup_is_asked_for_by_multiplication_and_not_by_addition() {
    let outside = hex(G1_OUT);
    assert!(g1_add(&join(&[&outside, &outside])).is_ok());
    assert_eq!(
        g1_mul(&join(&[&outside, &scalar(2)])).unwrap_err(),
        ErrorKind::PointNotInSubgroup
    );
    assert_eq!(
        blstEIP2537Executor::g1_mul(&join(&[&outside, &scalar(2)])).unwrap_err(),
        "point not in subgroup"
    );
    let outside = hex(G2_OUT);
    assert!(g2_add(&join(&[&outside, &outside])).is_ok());
    assert_eq!(
        g2_mul(&join(&[&outside, &scalar(2)])).unwrap_err(),
        ErrorKind::PointNotInSubgroup
    );
}

#[test]
fn lengths_are_looked_at_first() {
    assert_eq!(g1_add(&[]).unwrap_err(), ErrorKind::EmptyInput);
    assert_eq!(g1_add(&[0u8; 255]).unwrap_err(), ErrorKind::InvalidLength);
    assert_eq!(g1_add(&[1u8; 257]).unwrap_err(), ErrorKind::InvalidLength);
    assert_eq!(g1_mul(&[]).unwrap_err(), ErrorKind::EmptyInput);
    assert_eq!(g1_mul(&[1u8; 128]).unwrap_err(), ErrorKind::InvalidLength);
    assert_eq!(g2_add(&[]).unwrap_err(), ErrorKind::EmptyInput);
    assert_eq!(g2_add(&[1u8; 256]).unwrap_err(), ErrorKind::InvalidLength);
    assert_eq!(g2_mul(&[]).unwrap_err(), ErrorKind::EmptyInput);
    assert_eq!(g2_mul(&[1u8; 287]).unwrap_err(), ErrorKind::InvalidLength);
    assert_eq!(
        g1_multiexp_with(&[1u8; 161], Strategy::Bucket).unwrap_err(),
        ErrorKind::InvalidLength
    );
    assert_eq!(
        g2_multiexp_with(&[1u8; 160], Strategy::Bucket).unwrap_err(),
        ErrorKind::InvalidLength
    );
    assert_eq!(pairing(&[1u8; 383]).unwrap_err(), ErrorKind::InvalidLength);
    assert_eq!(map_fp_to_g1_bytes(&[]).unwrap_err(), ErrorKind::EmptyInput);
    assert_eq!(map_fp_to_g1_bytes(&[0u8; 65]).unwrap_err(), ErrorKind::InvalidLength);
    assert_eq!(map_fp2_to_g2_bytes(&[]).unwrap_err(), ErrorKind::EmptyInput);
    assert_eq!(map_fp2_to_g2_bytes(&[0u8; 64]).unwrap_err(), ErrorKind::InvalidLength);
}

#[test]
fn no_pairs_is_an_error_and_not_an_output() {
    assert_eq!(pairing(&[]).unwrap_err(), ErrorKind::EmptyInput);
    assert_eq!(blstEIP2537Executor::pairing(&[]).unwrap_err(), "empty input");
    let pairs: Vec<(G1Point, G2Point)> = Vec::new();
    assert_eq!(pairing_check(&pairs).unwrap_err(), ErrorKind::EmptyInput);
}

#[test]
fn a_pairing_and_the_pairing_with_the_negated_point_cancel() {
    let input = join(&[&hex(G1), &hex(G2_NEG), &hex(G1), &hex(G2)]);
    let mut one = [0u8; 32];
    one[31] = 1;
    assert_eq!(pairing(&input).unwrap(), one);
    let pairs = vec![
        (decode_g1(&hex(G1)).unwrap(), decode_g2(&hex(G2_NEG)).unwrap()),
        (decode_g1(&hex(G1)).unwrap(), decode_g2(&hex(G2)).unwrap()),
    ];
    assert_eq!(validate_pairs(&pairs), Ok(()));
    assert_eq!(pairing_check(&pairs), Ok(true));
    let single = vec![(decode_g1(&hex(G1)).unwrap(), decode_g2(&hex(G2)).unwrap())];
    assert_eq!(pairing_check(&single), Ok(false));
    assert_eq!(pairing(&join(&[&hex(G1), &hex(G2)])).unwrap(), [0u8; 32]);
}

#[test]
fn a_pair_with_the_identity_is_accepted() {
    let pairs = vec![(G1Point::identity(), decode_g2(&hex(G2)).unwrap())];
    assert_eq!(pairing_check(&pairs), Ok(true));
    let pairs = vec![
        (decode_g1(&hex(G1)).unwrap(), G2Point::identity()),
        (decode_g1(&hex(G1)).unwrap(), decode_g2(&hex(G2)).unwrap()),
    ];
    assert_eq!(pairing_check(&pairs), Ok(false));
}

#[test]
fn every_point_of_every_pair_is_validated() {
    let pairs = vec![
        (decode_g1(&hex(G1)).unwrap(), decode_g2(&hex(G2)).unwrap()),
        (decode_g1(&hex(G1)).unwrap(), decode_g2(&hex(G2_OUT)).unwrap()),
    ];
    assert_eq!(validate_pairs(&pairs), Err(ErrorKind::PointNotInSubgroup));
    assert_eq!(pairing_check(&pairs), Err(ErrorKind::PointNotInSubgroup));
    let input = join(&[&hex(G1_OFF), &hex(G2_OUT)]);
    assert_eq!(pairing(&input).unwrap_err(), ErrorKind::PointNotOnCurve);
    let input = join(&[&hex(G1_OUT), &hex(G2)]);
    assert_eq!(pairing(&input).unwrap_err(), ErrorKind::PointNotInSubgroup);
}

#[test]
fn the_map_gives_the_same_point_each_time_and_a_point_of_the_subgroup() {
    let mut input = [0u8; 64];
    input[63] = 5;
    let first = map_fp_to_g1_bytes(&input).unwrap();
    let second = map_fp_to_g1_bytes(&input).unwrap();
    assert_eq!(first, second);
    assert_ne!(first, [0u8; 128]);
    let p = decode_g1(&first).unwrap();
    assert_eq!(validate_point(&p, true), Ok(()));
    assert!(g1_mul(&join(&[&first, &scalar(3)])).is_ok());
    let u = decode_fp(&input).unwrap();
    assert_eq!(encode_g1(&map_fp_to_g1(&u)), first);
    input[63] = 6;
    assert_ne!(map_fp_to_g1_bytes(&input).unwrap(), first);
}

#[test]
fn the_map_to_g2_gives_the_same_point_each_time_and_a_point_of_the_subgroup() {
    let mut input = [0u8; 128];
    input[63] = 5;
    input[127] = 9;
    let first = map_fp2_to_g2_bytes(&input).unwrap();
    let second = map_fp2_to_g2_bytes(&input).unwrap();
    assert_eq!(first, second);
    assert_ne!(first, [0u8; 256]);
    let p = decode_g2(&first).unwrap();
    assert_eq!(validate_point(&p, true), Ok(()));
    let u = decode_fp2(&input).unwrap();
    assert_eq!(encode_g2(&map_fp2_to_g2(&u)), first);
    input[127] = 10;
    assert_ne!(map_fp2_to_g2_bytes(&input).unwrap(), first);
}

#[test]
fn the_map_refuses_the_modulus() {
    let mut input = vec![0u8; 16];
    input.extend(hex(MODULUS));
    assert_eq!(map_fp_to_g1_bytes(&input).unwrap_err(), ErrorKind::EncodingError);
    assert_eq!(blstEIP2537Executor::map_fp_to_g1(&input).unwrap_err(), "encoding error");
}

#[test]
fn a_scalar_may_exceed_the_order_of_the_group() {
    let order = hex("73eda753299d7d483339d80809a1d80553bda402fffe5bfeffffffff00000001");
    let mut above = order.clone();
    above[31] += 1;
    assert_eq!(g1_mul(&join(&[&hex(G1), &order])).unwrap(), [0u8; 128]);
    assert_eq!(g1_mul(&join(&[&hex(G1), &above])).unwrap().to_vec(), hex(G1));
    assert_eq!(g2_mul(&join(&[&hex(G2), &order])).unwrap(), [0u8; 256]);
    assert_eq!(g2_mul(&join(&[&hex(G2), &above])).unwrap().to_vec(), hex(G2));
    for strategy in [Strategy::Naive, Strategy::Bucket, Strategy::ReferenceBucket] {
        let input = join(&[&hex(G1_2), &above]);
        assert_eq!(g1_multiexp_with(&input, strategy).unwrap().to_vec(), hex(G1_2));
    }
}

#[test]
fn the_identity_may_be_multiplied_and_summed() {
    let zero = [0u8; 128];
    assert_eq!(g1_mul(&join(&[&zero, &scalar(7)])).unwrap(), zero);
    assert_eq!(g1_add(&join(&[&zero, &zero])).unwrap(), zero);
    assert_eq!(g1_add(&join(&[&hex(G1), &hex(G1_NEG)])).unwrap(), zero);
    for strategy in [Strategy::Naive, Strategy::Bucket, Strategy::ReferenceBucket] {
        let input = join(&[&zero, &scalar(7), &hex(G1), &scalar(2)]);
        assert_eq!(g1_multiexp_with(&input, strategy).unwrap().to_vec(), hex(G1_2));
    }
    let zero = [0u8; 256];
    assert_eq!(g2_mul(&join(&[&zero, &scalar(7)])).unwrap(), zero);
    assert_eq!(g2_add(&join(&[&hex(G2), &hex(G2_NEG)])).unwrap(), zero);
}

#[test]
fn multiplying_by_one_gives_the_point_back() {
    for point in [G1, G1_2, G1_K1] {
        let input = join(&[&hex(point), &scalar(1)]);
        assert_eq!(g1_mul(&input).unwrap().to_vec(), hex(point));
        for strategy in [Strategy::Naive, Strategy::Bucket, Strategy::ReferenceBucket] {
            assert_eq!(g1_multiexp_with(&input, strategy).unwrap().to_vec(), hex(point));
        }
    }
    for point in [G2, G2_2] {
        let input = join(&[&hex(point), &scalar(1)]);
        assert_eq!(g2_mul(&input).unwrap().to_vec(), hex(point));
    }
    assert_eq!(g1_mul(&join(&[&[0u8; 128], &scalar(1)])).unwrap(), [0u8; 128]);
    assert_eq!(
        g1_mul(&join(&[&hex(G1_OUT), &scalar(1)])).unwrap_err(),
        ErrorKind::PointNotInSubgroup
    );
}

#[test]
fn every_output_decodes_again() {
    let sum = g1_add(&join(&[&hex(G1), &hex(G1_2)])).unwrap();
    assert!(decode_g1(&sum).is_ok());
    assert_eq!(g1_add(&join(&[&sum, &[0u8; 128]])).unwrap(), sum);
    let outside = g1_add(&join(&[&hex(G1_OUT), &hex(G1_OUT)])).unwrap();
    assert!(decode_g1(&outside).is_ok());
    let product = g2_mul(&join(&[&hex(G2), &hex(K2)])).unwrap();
    assert!(decode_g2(&product).is_ok());
    let mut input = [0u8; 64];
    input[63] = 11;
    let mapped = map_fp_to_g1_bytes(&input).unwrap();
    for k in [0u8, 1, 2, 255] {
        assert!(g1_mul(&join(&[&mapped, &scalar(k)])).is_ok());
    }
    assert!(g1_mul(&join(&[&mapped, &[0xffu8; 32]])).is_ok());
    let mut input = [0u8; 128];
    input[0 + 63] = 3;
    let mapped = map_fp2_to_g2_bytes(&input).unwrap();
    assert!(g2_mul(&join(&[&mapped, &[0xffu8; 32]])).is_ok());
}

#[test]
fn an_invalid_pair_is_an_error_wherever_it_stands() {
    let valid = join(&[&hex(G1), &hex(G2)]);
    let off = join(&[&[0u8; 63], &[1u8], &[0u8; 63], &[1u8], &hex(G2)]);
    assert_eq!(pairing(&join(&[&valid, &off])).unwrap_err(), ErrorKind::PointNotOnCurve);
    assert_eq!(pairing(&join(&[&off, &valid])).unwrap_err(), ErrorKind::PointNotOnCurve);
    let mut zero_g2 = [0u8; 384];
    zero_g2[..128].copy_from_slice(&hex(G1));
    let mut one = [0u8; 32];
    one[31] = 1;
    assert_eq!(pairing(&zero_g2).unwrap(), one);
    assert_eq!(pairing(&[0u8; 384]).unwrap(), one);
}
