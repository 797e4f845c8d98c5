//! The codec: field elements, points and scalars to and from bytes.
use eip2537::bytes::{is_zero, less_than, read_array, write_at};
use eip2537::error::ErrorKind;
use eip2537::field::{decode_fp, decode_fp2, encode_fp, encode_fp2, Fp};
use eip2537::g1::{decode_g1, encode_g1, parse_g1, G1Point};
use eip2537::g2::{decode_g2, encode_g2, parse_g2, G2Point};
use eip2537::group::{validate_point, CurvePoint};
use eip2537::scalar::{decode_scalar, Scalar};

fn hex(s: &str) -> Vec<u8> {
    let digits: Vec<u8> = s.bytes().map(|c| match c {
        b'0'..=b'9' => c - b'0',
        b'a'..=b'f' => c - b'a' + 10,
        _ => panic!("not a hex digit"),
    }).collect();
    digits.chunks(2).map(|pair| pair[0] * 16 + pair[1]).collect()
}

const G1: &str = "0000000000000000000000000000000017f1d3a73197d7942695638c4fa9ac0fc3688c4f9774b905a14e3a3f171bac586c55e83ff97a1aeffb3af00adb22c6bb0000000000000000000000000000000008b3f481e3aaa0f1a09e30ed741d8ae4fcf5e095d5d00af600db18cb2c04b3edd03cc744a2888ae40caa232946c5e7e1";
const G1_OFF: &str = "0000000000000000000000000000000017f1d3a73197d7942695638c4fa9ac0fc3688c4f9774b905a14e3a3f171bac586c55e83ff97a1aeffb3af00adb22c6bb0000000000000000000000000000000008b3f481e3aaa0f1a09e30ed741d8ae4fcf5e095d5d00af600db18cb2c04b3edd03cc744a2888ae40caa232946c5e7e2";
const G1_OUT: &str = "00000000000000000000000000000000000000000000000000000000000000000000000000000000000000000000000000000000000000000000000000000004000000000000000000000000000000000a989badd40d6212b33cffc3f3763e9bc760f988c9926b26da9dd85e928483446346b8ed00e1de5d5ea93e354abe706c";
const G2: &str = "00000000000000000000000000000000024aa2b2f08f0a91260805272dc51051c6e47ad4fa403b02b4510b647ae3d1770bac0326a805bbefd48056c8c121bdb80000000000000000000000000000000013e02b6052719f607dacd3a088274f65596bd0d09920b61ab5da61bbdc7f5049334cf11213945d57e5ac7d055d042b7e000000000000000000000000000000000ce5d527727d6e118cc9cdc6da2e351aadfd9baa8cbdd3a76d429a695160d12c923ac9cc3baca289e193548608b82801000000000000000000000000000000000606c4a02ea734cc32acd2b02bc28b99cb3e287e85a763af267492ab572e99ab3f370d275cec1da1aaa9075ff05f79be";
const G2_OFF: &str = "00000000000000000000000000000000024aa2b2f08f0a91260805272dc51051c6e47ad4fa403b02b4510b647ae3d1770bac0326a805bbefd48056c8c121bdb80000000000000000000000000000000013e02b6052719f607dacd3a088274f65596bd0d09920b61ab5da61bbdc7f5049334cf11213945d57e5ac7d055d042b7e000000000000000000000000000000000ce5d527727d6e118cc9cdc6da2e351aadfd9baa8cbdd3a76d429a695160d12c923ac9cc3baca289e193548608b82802000000000000000000000000000000000606c4a02ea734cc32acd2b02bc28b99cb3e287e85a763af267492ab572e99ab3f370d275cec1da1aaa9075ff05f79be";
const G2_OUT: &str = "00000000000000000000000000000000000000000000000000000000000000000000000000000000000000000000000000000000000000000000000000000001000000000000000000000000000000000000000000000000000000000000000000000000000000000000000000000000000000000000000000000000000000010000000000000000000000000000000017faa6201231304f270b858dad9462089f2a5b83388e4b10773abc1eef6d193b9fce4e8ea2d9d28e3c3a315aa7de14ca0000000000000000000000000000000000cc12449be6ac4e7f367e7242250427c4fb4c39325d3164ad397c1837a90f0ea1a534757df374dd6569345eb41ed76e";
const MODULUS: &str = "1a0111ea397fe69a4b1ba7b6434bacd764774b84f38512bf6730d2a0f6b0f6241eabfffeb153ffffb9feffffffffaaab";
const MODULUS_LESS_ONE: &str = "1a0111ea397fe69a4b1ba7b6434bacd764774b84f38512bf6730d2a0f6b0f6241eabfffeb153ffffb9feffffffffaaaa";

fn padded(digits: &str) -> Vec<u8> {
    let mut bytes = vec![0u8; 16];
    bytes.extend(hex(digits));
    bytes
}

#[test]
fn field_element_round_trips() {
    let bytes = padded(MODULUS_LESS_ONE);
    let fe = decode_fp(&bytes).unwrap();
    assert_eq!(encode_fp(&fe).to_vec(), bytes);
    assert!(!fe.is_zero());
    assert_eq!(fe.to_be_bytes().to_vec(), hex(MODULUS_LESS_ONE));
}

#[test]
fn zero_field_element_is_canonical() {
    let fe = decode_fp(&[0u8; 64]).unwrap();
    assert!(fe.is_zero());
    assert_eq!(encode_fp(&fe), [0u8; 64]);
    assert_eq!(encode_fp(&Fp::zero()), [0u8; 64]);
}

#[test]
fn modulus_is_not_canonical() {
    assert_eq!(decode_fp(&padded(MODULUS)).unwrap_err(), ErrorKind::EncodingError);
    let mut digits = [0u8; 48];
    digits.copy_from_slice(&hex(MODULUS));
    assert!(Fp::from_be_bytes(&digits).is_none());
    digits.copy_from_slice(&hex(MODULUS_LESS_ONE));
    assert!(Fp::from_be_bytes(&digits).is_some());
}

#[test]
fn padding_must_be_zero() {
    let mut bytes = padded(MODULUS_LESS_ONE);
    bytes[15] = 1;
    assert_eq!(decode_fp(&bytes).unwrap_err(), ErrorKind::EncodingError);
    let mut bytes = vec![0u8; 64];
    bytes[0] = 0x80;
    assert_eq!(decode_fp(&bytes).unwrap_err(), ErrorKind::EncodingError);
}

#[test]
fn field_element_length_errors() {
    assert_eq!(decode_fp(&[]).unwrap_err(), ErrorKind::EmptyInput);
    assert_eq!(decode_fp(&[0u8; 63]).unwrap_err(), ErrorKind::InvalidLength);
    assert_eq!(decode_fp(&[0u8; 65]).unwrap_err(), ErrorKind::InvalidLength);
    assert_eq!(decode_fp2(&[]).unwrap_err(), ErrorKind::EmptyInput);
    assert_eq!(decode_fp2(&[0u8; 64]).unwrap_err(), ErrorKind::InvalidLength);
}

#[test]
fn extension_element_round_trips_with_c0_first() {
    let mut bytes = padded(MODULUS_LESS_ONE);
    bytes.extend(vec![0u8; 63]);
    bytes.push(7);
    let fe = decode_fp2(&bytes).unwrap();
    assert_eq!(encode_fp2(&fe).to_vec(), bytes);
    assert_eq!(fe.c0.to_be_bytes().to_vec(), hex(MODULUS_LESS_ONE));
    assert_eq!(fe.c1.to_be_bytes()[47], 7);
}

#[test]
fn extension_element_reports_first_bad_component() {
    let mut bytes = padded(MODULUS);
    bytes.extend(vec![0u8; 64]);
    assert_eq!(decode_fp2(&bytes).unwrap_err(), ErrorKind::EncodingError);
    let mut bytes = vec![0u8; 64];
    bytes.extend(padded(MODULUS));
    assert_eq!(decode_fp2(&bytes).unwrap_err(), ErrorKind::EncodingError);
}

#[test]
fn g1_point_round_trips() {
    let bytes = hex(G1);
    let p = decode_g1(&bytes).unwrap();
    assert!(!p.is_identity());
    assert_eq!(encode_g1(&p).to_vec(), bytes);
    assert_eq!(validate_point(&p, true), Ok(()));
}

#[test]
fn g2_point_round_trips() {
    let bytes = hex(G2);
    let p = decode_g2(&bytes).unwrap();
    assert!(!p.is_identity());
    assert_eq!(encode_g2(&p).to_vec(), bytes);
    assert_eq!(validate_point(&p, true), Ok(()));
}

#[test]
fn all_zero_is_the_identity() {
    let p = decode_g1(&[0u8; 128]).unwrap();
    assert!(p.is_identity());
    assert_eq!(encode_g1(&p), [0u8; 128]);
    assert_eq!(encode_g1(&G1Point::identity()), [0u8; 128]);
    assert_eq!(validate_point(&p, true), Ok(()));
    let q = decode_g2(&[0u8; 256]).unwrap();
    assert!(q.is_identity());
    assert_eq!(encode_g2(&q), [0u8; 256]);
    assert_eq!(validate_point(&q, true), Ok(()));
}

#[test]
fn point_off_the_curve_is_parsed_and_not_decoded() {
    let bytes = hex(G1_OFF);
    let p = parse_g1(&bytes).unwrap();
    assert_eq!(validate_point(&p, false), Err(ErrorKind::PointNotOnCurve));
    assert_eq!(validate_point(&p, true), Err(ErrorKind::PointNotOnCurve));
    assert_eq!(decode_g1(&bytes).unwrap_err(), ErrorKind::PointNotOnCurve);
    let bytes = hex(G2_OFF);
    let q = parse_g2(&bytes).unwrap();
    assert_eq!(validate_point(&q, false), Err(ErrorKind::PointNotOnCurve));
    assert_eq!(decode_g2(&bytes).unwrap_err(), ErrorKind::PointNotOnCurve);
}

#[test]
fn point_outside_the_subgroup_is_decoded_and_not_validated() {
    let p = decode_g1(&hex(G1_OUT)).unwrap();
    assert_eq!(validate_point(&p, false), Ok(()));
    assert_eq!(validate_point(&p, true), Err(ErrorKind::PointNotInSubgroup));
    let q = decode_g2(&hex(G2_OUT)).unwrap();
    assert_eq!(validate_point(&q, false), Ok(()));
    assert_eq!(validate_point(&q, true), Err(ErrorKind::PointNotInSubgroup));
}

#[test]
fn canonicality_comes_before_the_curve() {
    let mut bytes = hex(G1_OFF);
    bytes[..64].copy_from_slice(&padded(MODULUS));
    assert_eq!(decode_g1(&bytes).unwrap_err(), ErrorKind::EncodingError);
    let mut bytes = hex(G1);
    bytes[64..].copy_from_slice(&padded(MODULUS));
    assert_eq!(decode_g1(&bytes).unwrap_err(), ErrorKind::EncodingError);
    let mut bytes = hex(G2_OFF);
    bytes[192..].copy_from_slice(&padded(MODULUS));
    assert_eq!(decode_g2(&bytes).unwrap_err(), ErrorKind::EncodingError);
}

#[test]
fn point_length_errors() {
    assert_eq!(decode_g1(&[]).unwrap_err(), ErrorKind::EmptyInput);
    assert_eq!(decode_g1(&[0u8; 127]).unwrap_err(), ErrorKind::InvalidLength);
    assert_eq!(decode_g2(&[]).unwrap_err(), ErrorKind::EmptyInput);
    assert_eq!(decode_g2(&[0u8; 128]).unwrap_err(), ErrorKind::InvalidLength);
}

#[test]
fn every_scalar_of_the_right_length_decodes() {
    let k = decode_scalar(&[0xffu8; 32]).unwrap();
    assert_eq!(k.to_be_bytes(), [0xffu8; 32]);
    assert!(!k.is_zero());
    let zero = decode_scalar(&[0u8; 32]).unwrap();
    assert_eq!(zero.to_be_bytes(), [0u8; 32]);
    assert!(zero.is_zero());
    assert_eq!(decode_scalar(&[]).unwrap_err(), ErrorKind::EmptyInput);
    assert_eq!(decode_scalar(&[0u8; 31]).unwrap_err(), ErrorKind::InvalidLength);
}

#[test]
fn scalar_windows_and_wide_form() {
    let mut bytes = [0u8; 32];
    bytes[31] = 0xa5;
    bytes[30] = 0x3c;
    bytes[0] = 0xf1;
    let k = Scalar::from_be_bytes(bytes);
    assert_eq!(k.digit(0), 0x5);
    assert_eq!(k.digit(1), 0xa);
    assert_eq!(k.digit(2), 0xc);
    assert_eq!(k.digit(3), 0x3);
    assert_eq!(k.digit(4), 0);
    assert_eq!(k.digit(62), 0x1);
    assert_eq!(k.digit(63), 0xf);
    let wide = k.to_wide();
    assert_eq!(wide[0], 0xa5);
    assert_eq!(wide[1], 0x3c);
    assert_eq!(wide[31], 0xf1);
    assert_eq!(wide[32..], [0u8; 32]);
}

#[test]
fn wire_form_holds_the_coordinates() {
    let p = decode_g1(&hex(G1)).unwrap();
    let wire = p.to_wire();
    assert_eq!(wire[..48], hex(G1)[16..64]);
    assert_eq!(wire[48..], hex(G1)[80..]);
    let identity = G1Point::identity().to_wire();
    assert_eq!(identity[0], 0x40);
    assert_eq!(identity[1..], [0u8; 95]);
    let q = decode_g2(&hex(G2)).unwrap();
    let wire = q.to_wire();
    assert_eq!(wire[..48], hex(G2)[80..128]);
    assert_eq!(wire[48..96], hex(G2)[16..64]);
}

#[test]
fn byte_strings_are_compared_as_numbers() {
    assert!(less_than(&[0, 255], &[1, 0]));
    assert!(!less_than(&[1, 0], &[0, 255]));
    assert!(!less_than(&[7, 7], &[7, 7]));
    assert!(less_than(&[7, 7], &[7, 8]));
    assert!(!less_than(&[], &[]));
    assert!(less_than(&hex(MODULUS_LESS_ONE), &hex(MODULUS)));
    assert!(!less_than(&hex(MODULUS), &hex(MODULUS)));
    assert!(is_zero(&[]));
    assert!(is_zero(&[0, 0, 0]));
    assert!(!is_zero(&[0, 0, 1]));
}

#[test]
fn bytes_are_read_and_written_in_place() {
    let source = [1u8, 2, 3, 4, 5];
    let middle: [u8; 3] = read_array(&source, 1);
    assert_eq!(middle, [2, 3, 4]);
    let none: [u8; 0] = read_array(&source, 5);
    assert_eq!(none, []);
    let mut out = [9u8; 6];
    write_at(&mut out, 2, &middle);
    assert_eq!(out, [9, 9, 2, 3, 4, 9]);
    write_at(&mut out, 6, &[]);
    assert_eq!(out, [9, 9, 2, 3, 4, 9]);
}

#[test]
fn points_are_read_from_their_wire_form() {
    let encoded = hex(G1);
    let mut wire = [0u8; 96];
    wire[..48].copy_from_slice(&encoded[16..64]);
    wire[48..].copy_from_slice(&encoded[80..]);
    let p = G1Point::from_wire(&wire);
    assert!(!p.is_identity());
    assert_eq!(encode_g1(&p).to_vec(), encoded);
    assert_eq!(p.to_wire(), wire);
    let mut infinity = [0u8; 96];
    infinity[0] = 0x40;
    let o = G1Point::from_wire(&infinity);
    assert!(o.is_identity());
    assert_eq!(encode_g1(&o), [0u8; 128]);

    let encoded = hex(G2);
    let mut wire = [0u8; 192];
    wire[..48].copy_from_slice(&encoded[80..128]);
    wire[48..96].copy_from_slice(&encoded[16..64]);
    wire[96..144].copy_from_slice(&encoded[208..256]);
    wire[144..].copy_from_slice(&encoded[144..192]);
    let q = G2Point::from_wire(&wire);
    assert!(!q.is_identity());
    assert_eq!(encode_g2(&q).to_vec(), encoded);
    assert_eq!(q.to_wire(), wire);
    let mut infinity = [0u8; 192];
    infinity[0] = 0x40;
    assert!(G2Point::from_wire(&infinity).is_identity());
}

#[test]
fn the_scalar_one_is_told_apart() {
    let mut bytes = [0u8; 32];
    bytes[31] = 1;
    assert!(Scalar::from_be_bytes(bytes).is_one());
    bytes[31] = 2;
    assert!(!Scalar::from_be_bytes(bytes).is_one());
    bytes[31] = 1;
    bytes[0] = 1;
    assert!(!Scalar::from_be_bytes(bytes).is_one());
    bytes[0] = 0;
    bytes[30] = 1;
    assert!(!Scalar::from_be_bytes(bytes).is_one());
    assert!(!Scalar::from_be_bytes([0u8; 32]).is_one());
}
