use zk_factor::endian::convert_endianness_vec;

#[test]
fn reverses_each_chunk_in_place() {
    let bytes: Vec<u8> = (1..=8).collect();
    assert_eq!(convert_endianness_vec(&bytes, 4), Some(vec![4, 3, 2, 1, 8, 7, 6, 5]));
    assert_eq!(convert_endianness_vec(&bytes, 2), Some(vec![2, 1, 4, 3, 6, 5, 8, 7]));
    assert_eq!(convert_endianness_vec(&bytes, 8), Some(vec![8, 7, 6, 5, 4, 3, 2, 1]));
    assert_eq!(convert_endianness_vec(&bytes, 1), Some(bytes.clone()));
}

#[test]
fn applying_twice_gives_back_the_input() {
    let bytes: Vec<u8> = (0..128u32).map(|i| (i * 37 % 251) as u8).collect();
    for k in [1usize, 2, 4, 8, 16, 32, 64, 128] {
        let once = convert_endianness_vec(&bytes, k).unwrap();
        assert_eq!(convert_endianness_vec(&once, k).unwrap(), bytes);
    }
}

#[test]
fn empty_input_gives_empty_output() {
    assert_eq!(convert_endianness_vec(&[], 32), Some(vec![]));
}

#[test]
fn partial_chunk_is_rejected() {
    let bytes = [0u8; 65];
    assert_eq!(convert_endianness_vec(&bytes, 32), None);
    assert_eq!(convert_endianness_vec(&bytes[..3], 2), None);
}

#[test]
fn zero_chunk_size_is_rejected() {
    assert_eq!(convert_endianness_vec(&[1, 2, 3], 0), None);
}
