use diskann_provider::bin_format::{
    decode_header, empty_bin_file, encode_bin_file, encode_header, parse_bin_file, vector_offset,
    BinFormatError, Metadata, HEADER_LEN,
};

#[test]
fn header_is_two_little_endian_u32s() {
    let m = Metadata { npts_u32: 10_000, ndims_u32: 128 };
    let bytes = encode_header(&m);
    assert_eq!(bytes, vec![0x10, 0x27, 0, 0, 128, 0, 0, 0]);
    assert_eq!(bytes.len(), HEADER_LEN);
}

#[test]
fn header_round_trip() {
    for &(n, d) in &[(0u32, 0u32), (10, 3), (10_000, 128), (u32::MAX, 1), (0x0102_0304, u32::MAX)] {
        let m = Metadata { npts_u32: n, ndims_u32: d };
        let back = decode_header(&encode_header(&m)).unwrap();
        assert_eq!(back.npts_u32, n);
        assert_eq!(back.ndims_u32, d);
    }
}

#[test]
fn metadata_default_is_zero() {
    let m = Metadata::default();
    assert_eq!(m.npts_u32, 0);
    assert_eq!(m.ndims_u32, 0);
}

#[test]
fn short_header_is_refused() {
    assert_eq!(decode_header(&[1, 2, 3]).unwrap_err(), BinFormatError::TruncatedHeader);
    assert_eq!(parse_bin_file(&[0; 7], 1).unwrap_err(), BinFormatError::TruncatedHeader);
    assert_eq!(parse_bin_file(&[], 4).unwrap_err(), BinFormatError::TruncatedHeader);
}

#[test]
fn short_payload_is_refused() {
    let m = Metadata { npts_u32: 2, ndims_u32: 3 };
    let mut bytes = encode_header(&m);
    bytes.extend_from_slice(&[1, 2, 3, 4, 5]);
    assert_eq!(parse_bin_file(&bytes, 1).unwrap_err(), BinFormatError::TruncatedPayload);
    bytes.push(6);
    let (back, payload) = parse_bin_file(&bytes, 1).unwrap();
    assert_eq!((back.npts_u32, back.ndims_u32), (2, 3));
    assert_eq!(payload, vec![1, 2, 3, 4, 5, 6]);
    // four-byte elements need 24 bytes of payload
    assert_eq!(parse_bin_file(&bytes, 4).unwrap_err(), BinFormatError::TruncatedPayload);
}

#[test]
fn huge_header_is_refused_not_allocated() {
    let m = Metadata { npts_u32: u32::MAX, ndims_u32: u32::MAX };
    let bytes = encode_header(&m);
    assert_eq!(parse_bin_file(&bytes, 4).unwrap_err(), BinFormatError::TruncatedPayload);
}

#[test]
fn trailing_bytes_are_not_read() {
    let m = Metadata { npts_u32: 1, ndims_u32: 2 };
    let mut bytes = encode_bin_file(&m, &[7, 8]);
    bytes.extend_from_slice(&[9, 9, 9]);
    let (_, payload) = parse_bin_file(&bytes, 1).unwrap();
    assert_eq!(payload, vec![7, 8]);
}

#[test]
fn encoded_file_reads_back() {
    let m = Metadata { npts_u32: 2, ndims_u32: 2 };
    let payload: Vec<u8> = (0..16).collect();
    let bytes = encode_bin_file(&m, &payload);
    assert_eq!(bytes.len(), 8 + 16);
    let (back, read) = parse_bin_file(&bytes, 4).unwrap();
    assert_eq!((back.npts_u32, back.ndims_u32), (2, 2));
    assert_eq!(read, payload);
}

#[test]
fn f32_payload_converts_back() {
    let m = Metadata { npts_u32: 1, ndims_u32: 3 };
    let values = [1.0f32, 2.5, 116.0];
    let payload: Vec<u8> = values.iter().flat_map(|x| x.to_le_bytes()).collect();
    let (_, read) = parse_bin_file(&encode_bin_file(&m, &payload), 4).unwrap();
    let floats: Vec<f32> = read
        .chunks(4)
        .map(|c| f32::from_le_bytes([c[0], c[1], c[2], c[3]]))
        .collect();
    assert_eq!(floats, values);
}

#[test]
fn empty_file_is_header_and_zeros() {
    let m = Metadata { npts_u32: 10, ndims_u32: 3 };
    let bytes = empty_bin_file(&m, 1);
    assert_eq!(bytes.len(), 8 + 30);
    let (back, payload) = parse_bin_file(&bytes, 1).unwrap();
    assert_eq!((back.npts_u32, back.ndims_u32), (10, 3));
    assert!(payload.iter().all(|&x| x == 0));
    let f32_bytes = empty_bin_file(&m, 4);
    assert_eq!(f32_bytes.len(), 8 + 120);
    assert_eq!(&f32_bytes[..8], &encode_header(&m)[..]);
}

#[test]
fn vector_offsets_follow_rows() {
    let m = Metadata { npts_u32: 10, ndims_u32: 3 };
    assert_eq!(vector_offset(&m, 0), Some(8));
    assert_eq!(vector_offset(&m, 1), Some(11));
    assert_eq!(vector_offset(&m, 9), Some(35));
    assert_eq!(vector_offset(&m, 10), None);
    assert_eq!(vector_offset(&m, usize::MAX), None);
    let big = Metadata { npts_u32: u32::MAX, ndims_u32: u32::MAX };
    assert_eq!(
        vector_offset(&big, (u32::MAX - 1) as usize),
        Some(8 + (u32::MAX as u64 - 1) * u32::MAX as u64)
    );
}

#[test]
fn written_vector_is_read_back_and_others_stay() {
    // a file image updated at the offsets the layout gives
    let m = Metadata { npts_u32: 10, ndims_u32: 3 };
    let mut image = empty_bin_file(&m, 1);
    let off9 = vector_offset(&m, 9).unwrap() as usize;
    image[off9..off9 + 3].copy_from_slice(&[1, 2, 3]);
    assert_eq!(&image[off9..off9 + 3], &[1, 2, 3]);
    let off0 = vector_offset(&m, 0).unwrap() as usize;
    assert_eq!(&image[off0..off0 + 3], &[0, 0, 0]);
    assert_eq!(off9 + 3, image.len());
}

#[test]
fn header_is_copied_byte_for_byte() {
    for bytes in [[1u8, 2, 3, 4, 5, 6, 7, 8], [255; 8], [0; 8], [0x10, 0x27, 0, 0, 128, 0, 0, 0]] {
        let m = decode_header(&bytes).unwrap();
        assert_eq!(encode_header(&m), bytes.to_vec());
    }
}

#[test]
fn write_in_a_longer_image_keeps_header_and_tail() {
    let m = Metadata { npts_u32: 4, ndims_u32: 2 };
    let mut image = empty_bin_file(&m, 1);
    image.extend_from_slice(&[42, 43]);
    let before = image.clone();
    let off = vector_offset(&m, 3).unwrap() as usize;
    image[off..off + 2].copy_from_slice(&[5, 6]);
    assert_eq!(&image[off..off + 2], &[5, 6]);
    assert_eq!(&image[..8], &before[..8]);
    assert_eq!(&image[16..18], &before[16..18]);
    assert_eq!(&image[image.len() - 2..], &[42, 43]);
    let (back, payload) = parse_bin_file(&image, 1).unwrap();
    assert_eq!((back.npts_u32, back.ndims_u32), (4, 2));
    assert_eq!(payload, vec![0, 0, 0, 0, 0, 0, 5, 6]);
}
