use dsvn::svndiff::decode_svndiff;

#[test]
fn test_decode_svndiff_plain_body() {
    assert_eq!(decode_svndiff(b"hello"), b"hello".to_vec());
    assert_eq!(decode_svndiff(b"SV"), b"SV".to_vec());
    assert_eq!(decode_svndiff(b"SVX\0abc"), b"SVX\0abc".to_vec());
}

#[test]
fn test_decode_svndiff_insert_window() {
    // header, then source offset 0, source length 0, target length 5,
    // instructions length 1, new data length 5, the insert, the new data
    let mut body = b"SVN\0".to_vec();
    body.extend_from_slice(&[0, 0, 5, 1, 5, 0x80 | 5]);
    body.extend_from_slice(b"hello");
    assert_eq!(decode_svndiff(&body), b"hello".to_vec());
}

#[test]
fn test_decode_svndiff_skips_copies_and_reads_long_lengths() {
    let mut body = b"SVN\0".to_vec();
    // instructions: copy from source (len 3, offset 0), insert with length in a varint (2)
    body.extend_from_slice(&[0, 3, 5, 4, 2, 0x03, 0x00, 0x80, 0x02]);
    body.extend_from_slice(b"ok");
    // a second window inserting one byte
    body.extend_from_slice(&[0, 0, 1, 1, 1, 0x81, b'!']);
    assert_eq!(decode_svndiff(&body), b"ok!".to_vec());
}

#[test]
fn test_decode_svndiff_truncated_window_keeps_rest() {
    let mut body = b"SVN\0".to_vec();
    body.extend_from_slice(&[0, 0, 9, 1, 9, 0x89]);
    body.extend_from_slice(b"abc");
    assert_eq!(decode_svndiff(&body), b"abc".to_vec());
}

#[test]
fn test_decode_svndiff_insert_past_new_data_is_dropped() {
    let mut body = b"SVN\0".to_vec();
    body.extend_from_slice(&[0, 0, 2, 2, 2, 0x81, 0x85]);
    body.extend_from_slice(b"xy");
    assert_eq!(decode_svndiff(&body), b"x".to_vec());
}

#[test]
fn test_decode_svndiff_header_only() {
    assert_eq!(decode_svndiff(b"SVN\0"), Vec::<u8>::new());
    assert_eq!(decode_svndiff(b"SVN\0\0\0"), Vec::<u8>::new());
}
