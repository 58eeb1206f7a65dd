use ark_bn254::{g1::G1Affine, g2::G2Affine, Fq};
use ark_serialize::CanonicalDeserialize;
use num_bigint::BigUint;
use std::str::FromStr;
use zk_factor::adapter::{prepare_g1_point, prepare_proofs, PreparedProof, ProofError, RawProof};
use zk_factor::endian::convert_endianness_vec;

/// Proofs are stored as big-endian bytes.
pub const PROOF: [u8; 256] = [
    30, 224, 237, 110, 5, 97, 5, 4, 215, 78, 46, 210, 139, 140, 124, 27, 38, 217, 231, 248,
    193, 201, 179, 253, 43, 176, 181, 85, 253, 227, 205, 0, 10, 171, 214, 28, 83, 89, 11, 147,
    96, 197, 126, 86, 92, 68, 254, 86, 98, 236, 85, 109, 84, 18, 47, 12, 143, 89, 232, 181, 40,
    170, 85, 38, 1, 120, 86, 178, 146, 60, 231, 71, 4, 98, 212, 99, 127, 230, 154, 189, 100,
    239, 128, 110, 157, 154, 0, 173, 159, 78, 131, 59, 36, 78, 82, 0, 18, 219, 2, 128, 232,
    169, 93, 131, 200, 24, 76, 24, 96, 153, 238, 126, 13, 83, 134, 179, 147, 224, 221, 227, 69,
    118, 114, 92, 168, 178, 142, 5, 20, 24, 195, 255, 61, 131, 225, 9, 84, 239, 254, 128, 141,
    63, 52, 49, 22, 9, 147, 69, 15, 247, 126, 128, 14, 117, 124, 111, 100, 217, 215, 42, 30,
    84, 227, 208, 19, 91, 230, 240, 162, 234, 46, 196, 186, 160, 254, 174, 74, 66, 65, 1, 58,
    65, 64, 151, 107, 96, 93, 133, 81, 114, 149, 114, 5, 2, 0, 23, 117, 104, 223, 250, 146,
    215, 45, 193, 39, 139, 238, 222, 133, 201, 210, 3, 135, 26, 154, 49, 148, 245, 24, 75, 28,
    103, 194, 6, 2, 99, 168, 248, 9, 219, 103, 73, 37, 218, 156, 39, 251, 245, 85, 61, 38, 182,
    106, 53, 75, 160, 22, 156, 51, 169, 136, 101, 95, 84, 52, 3,
];

const FQ_MODULUS: &str =
    "21888242871839275222246405745257275088696311157297823662689037894645226208583";

fn be32(v: &BigUint) -> Vec<u8> {
    let b = v.to_bytes_be();
    let mut out = vec![0u8; 32 - b.len()];
    out.extend_from_slice(&b);
    out
}

fn dec(s: &str) -> BigUint {
    BigUint::from_str(s).unwrap()
}

#[test]
fn test_g1_serialization() {
    let mut prepared_proof = PreparedProof::new();
    let a_x = "21354890625990214870754375882710379221752862473433052375025104960967799391247";
    let a_y = "9290940334260810909325264371688111273809487189485387679341484436824715253293";

    prepared_proof.set_proof_a(a_x, a_y).unwrap();

    let proof_a_le = convert_endianness_vec(prepared_proof.proof_a.as_slice(), 32).unwrap();
    let mut reader = proof_a_le.as_slice();
    let g1 = G1Affine::deserialize_uncompressed(&mut reader).unwrap();
    println!("g1: {:?}", g1);
    println!("size: {:?}", proof_a_le.len());
}

#[test]
fn test_g2_serialization() {
    let mut prepared_proof = PreparedProof::new();
    let b_x_0 = "7306243638971215804951680750533088848275286064001317063496098528064419749903";
    let b_y_0 = "7844607428842522796576705607203096747373145189506599069140420161427295788542";
    let b_x_1 = "10455015464246595512016883905509923021523643682756570031364275697838770910732";
    let b_y_1 = "12154566038230164257680564580258256126266356181539069382921568167830671442360";

    prepared_proof.set_proof_b(b_x_0, b_y_0, b_x_1, b_y_1).unwrap();

    let proof_b_be = prepared_proof.proof_b.clone();
    let proof_b_le = convert_endianness_vec(&proof_b_be, 64).unwrap();
    let mut reader = proof_b_le.as_slice();
    let g2 = G2Affine::deserialize_uncompressed(&mut reader).unwrap();
    println!("g2: {:?}", g2);
    println!("size: {:?}", proof_b_be.len());

    assert_eq!(g2.x.c0, Fq::from(dec(b_x_0)));
    assert_eq!(g2.x.c1, Fq::from(dec(b_y_0)));
    assert_eq!(g2.y.c0, Fq::from(dec(b_x_1)));
    assert_eq!(g2.y.c1, Fq::from(dec(b_y_1)));
}

#[test]
fn test_points_deserialization() {
    let points_a_be = PROOF[0..64].to_vec();
    let points_a_le = convert_endianness_vec(&points_a_be, 32).unwrap();
    assert_eq!(points_a_le.len(), 64);

    let points_b_be = PROOF[64..192].to_vec();
    let points_b_le = convert_endianness_vec(&points_b_be, 64).unwrap();
    assert_eq!(points_b_le.len(), 128);

    let points_c_be = PROOF[192..256].to_vec();
    let points_c_le = convert_endianness_vec(&points_c_be, 32).unwrap();
    assert_eq!(points_c_le.len(), 64);

    let points_a_x = BigUint::from_bytes_be(&points_a_be[0..32]);
    let points_a_y = BigUint::from_bytes_be(&points_a_be[32..64]);
    println!("points_a_x: {:?}", points_a_x);
    println!("points_a_y: {:?}", points_a_y);
    println!("--------------------------------");

    let points_c_x = BigUint::from_bytes_be(&points_c_be[0..32]);
    let points_c_y = BigUint::from_bytes_be(&points_c_be[32..64]);
    println!("points_c_x: {:?}", points_c_x);
    println!("points_c_y: {:?}", points_c_y);
    println!("--------------------------------");

    let points_b_x0 = BigUint::from_bytes_be(&points_b_be[32..64]);
    let points_b_y0 = BigUint::from_bytes_be(&points_b_be[0..32]);
    let points_b_x1 = BigUint::from_bytes_be(&points_b_be[96..]);
    let points_b_y1 = BigUint::from_bytes_be(&points_b_be[64..96]);
    println!("points_b_x0: {:?}", points_b_x0);
    println!("points_b_y0: {:?}", points_b_y0);
    println!("points_b_x1: {:?}", points_b_x1);
    println!("points_b_y1: {:?}", points_b_y1);
    println!("--------------------------------");

    let points_a = G1Affine::deserialize_uncompressed(&mut points_a_le.as_slice()).unwrap();
    let points_b = G2Affine::deserialize_uncompressed(&mut points_b_le.as_slice()).unwrap();
    let points_c = G1Affine::deserialize_uncompressed(&mut points_c_le.as_slice()).unwrap();

    println!("points_a: {:?}", points_a);
    println!("points_b: {:?}", points_b);
    println!("points_c: {:?}", points_c);

    // G1
    assert_eq!(points_a_x, BigUint::from(points_a.x));
    assert_eq!(points_a_y, BigUint::from(points_a.y));
    assert_eq!(points_c_x, BigUint::from(points_c.x));
    assert_eq!(points_c_y, BigUint::from(points_c.y));

    // G2
    assert_eq!(points_b_x0, BigUint::from(points_b.x.c0));
    assert_eq!(points_b_y0, BigUint::from(points_b.x.c1));
    assert_eq!(points_b_x1, BigUint::from(points_b.y.c0));
    assert_eq!(points_b_y1, BigUint::from(points_b.y.c1));
}

#[test]
fn new_buffer_is_zeroed() {
    let p = PreparedProof::new();
    assert_eq!(p.raw, vec![0u8; 256]);
    assert!(p.proof_a.is_empty() && p.proof_b.is_empty() && p.proof_c.is_empty());
}

#[test]
fn proof_a_is_the_negated_point_big_endian() {
    let mut p = PreparedProof::new();
    p.set_proof_a("1", "2").unwrap();
    let minus_two = dec(FQ_MODULUS) - BigUint::from(2u32);
    let mut expected = be32(&BigUint::from(1u32));
    expected.extend(be32(&minus_two));
    assert_eq!(p.proof_a, expected);
    assert_eq!(&p.raw[0..64], &expected[..]);
    assert_eq!(&p.raw[64..], &[0u8; 192][..]);
}

#[test]
fn proof_c_is_the_point_big_endian() {
    let mut p = PreparedProof::new();
    p.set_proof_c("1", "2").unwrap();
    let mut expected = be32(&BigUint::from(1u32));
    expected.extend(be32(&BigUint::from(2u32)));
    assert_eq!(p.proof_c, expected);
    assert_eq!(&p.raw[192..256], &expected[..]);
    assert_eq!(&p.raw[0..192], &[0u8; 192][..]);
}

#[test]
fn proof_b_limbs_are_reordered() {
    let x0 = "10857046999023057135944570762232829481370756359578518086990519993285655852781";
    let y0 = "11559732032986387107991004021392285783925812861821192530917403151452391805634";
    let x1 = "8495653923123431417604973247489272438418190587263600148770280649306958101930";
    let y1 = "4082367875863433681332203403145435568316851327593401208105741076214120093531";
    let mut p = PreparedProof::new();
    p.set_proof_b(x0, y0, x1, y1).unwrap();
    let mut expected = be32(&dec(y0));
    expected.extend(be32(&dec(x0)));
    expected.extend(be32(&dec(y1)));
    expected.extend(be32(&dec(x1)));
    assert_eq!(p.proof_b, expected);
    assert_eq!(&p.raw[64..192], &expected[..]);
}

#[test]
fn malformed_text_is_a_parse_error() {
    let mut p = PreparedProof::new();
    assert_eq!(p.set_proof_a("12a", "2"), Err(ProofError::ParseError(0)));
    assert_eq!(p.set_proof_c("1", ""), Err(ProofError::ParseError(1)));
    assert_eq!(p.set_proof_c("_1", "2"), Err(ProofError::ParseError(0)));
    assert_eq!(p.set_proof_c("x", "y"), Err(ProofError::ParseError(0)));
    assert_eq!(p.set_proof_b("1", "2", "x", "4"), Err(ProofError::ParseError(2)));
    assert_eq!(p.set_proof_b("1", "2", "3", "+"), Err(ProofError::ParseError(3)));
    assert_eq!(p.raw, vec![0u8; 256]);
}

#[test]
fn decimal_text_may_have_sign_and_separators() {
    let mut p = PreparedProof::new();
    p.set_proof_c("+1", "0_2").unwrap();
    let mut q = PreparedProof::new();
    q.set_proof_c("1", "2").unwrap();
    assert_eq!(p.proof_c, q.proof_c);
}

#[test]
fn off_curve_point_is_an_encoding_error() {
    let mut p = PreparedProof::new();
    assert_eq!(p.set_proof_a("1", "3"), Err(ProofError::EncodingError));
    assert_eq!(p.set_proof_c("1", FQ_MODULUS), Err(ProofError::EncodingError));
    assert_eq!(p.set_proof_b("1", "2", "3", "4"), Err(ProofError::EncodingError));
    assert_eq!(p.raw, vec![0u8; 256]);
    assert!(p.proof_a.is_empty());
}

#[test]
fn negating_the_a_block_again_restores_the_point() {
    let x = "11684643836096726770599088807339397581266930370717315968504711257306654148396";
    let y = "11750776160873302347811134195434586959137284877458760350265397742438820965603";
    let mut first = PreparedProof::new();
    first.set_proof_a(x, y).unwrap();
    let back_x = BigUint::from_bytes_be(&first.proof_a[0..32]).to_string();
    let back_y = BigUint::from_bytes_be(&first.proof_a[32..64]).to_string();
    let mut second = PreparedProof::new();
    second.set_proof_a(&back_x, &back_y).unwrap();
    let mut plain = PreparedProof::new();
    plain.set_proof_c(x, y).unwrap();
    assert_eq!(second.proof_a, plain.proof_c);
    assert_ne!(first.proof_a, plain.proof_c);
}

fn raw_proof() -> RawProof {
    let s = |v: &str| v.to_string();
    RawProof {
        pi_a: vec![s("1"), s("2"), s("1")],
        pi_b: vec![
            vec![
                s("10857046999023057135944570762232829481370756359578518086990519993285655852781"),
                s("11559732032986387107991004021392285783925812861821192530917403151452391805634"),
            ],
            vec![
                s("8495653923123431417604973247489272438418190587263600148770280649306958101930"),
                s("4082367875863433681332203403145435568316851327593401208105741076214120093531"),
            ],
            vec![s("1"), s("0")],
        ],
        pi_c: vec![s("1"), s("2"), s("1")],
        protocol: s("groth16"),
        curve: s("bn128"),
    }
}

#[test]
fn prepares_all_three_blocks() {
    let raw = raw_proof();
    let p = prepare_proofs(&raw).unwrap();
    let mut a = PreparedProof::new();
    a.set_proof_a("1", "2").unwrap();
    assert_eq!(p.proof_a, a.proof_a);
    assert_eq!(p.proof_c.len(), 64);
    assert_eq!(p.proof_b.len(), 128);
    let mut all = p.proof_a.clone();
    all.extend(&p.proof_b);
    all.extend(&p.proof_c);
    assert_eq!(p.raw, all);
}

#[test]
fn missing_coordinate_is_reported() {
    let mut raw = raw_proof();
    raw.pi_c.truncate(1);
    assert_eq!(prepare_proofs(&raw).err(), Some(ProofError::MissingCoordinate));
    let mut raw = raw_proof();
    raw.pi_b[1].clear();
    assert_eq!(prepare_proofs(&raw).err(), Some(ProofError::MissingCoordinate));
}

#[test]
fn bad_text_in_c_is_reported_with_its_position() {
    let mut raw = raw_proof();
    raw.pi_c[1] = "two".to_string();
    assert_eq!(prepare_proofs(&raw).err(), Some(ProofError::ParseError(1)));
}

#[test]
fn bad_b_block_fails_the_whole_proof() {
    let mut raw = raw_proof();
    raw.pi_b[0][0] = "5".to_string();
    assert_eq!(prepare_proofs(&raw).err(), Some(ProofError::EncodingError));
}

#[test]
fn g1_point_is_encoded_little_endian() {
    let v = prepare_g1_point("1", "2").unwrap();
    let mut expected = vec![0u8; 64];
    expected[0] = 1;
    expected[32] = 2;
    assert_eq!(v, expected);
}

#[test]
fn g1_point_with_large_y_carries_the_sign_flag() {
    let minus_two = (dec(FQ_MODULUS) - BigUint::from(2u32)).to_string();
    let v = prepare_g1_point("1", &minus_two).unwrap();
    let mut y = dec(&minus_two).to_bytes_le();
    y.resize(32, 0);
    y[31] |= 0x80;
    assert_eq!(&v[32..64], &y[..]);
    assert_eq!(v[0], 1);
}

#[test]
fn g1_point_errors() {
    assert_eq!(prepare_g1_point("abc", "xyz"), Err(ProofError::ParseError(0)));
    assert_eq!(prepare_g1_point("1", "xyz"), Err(ProofError::ParseError(1)));
    assert_eq!(prepare_g1_point("1", "3"), Err(ProofError::EncodingError));
}
