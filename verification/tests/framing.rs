use musify::codec::{
    decode_request, decode_response, encode_request, encode_response, FileRequest, FileResponse,
    RequestError, ResponseError, MAX_REQUEST_LEN, MAX_RESPONSE_LEN,
};
use musify::varint::{
    decode_length_prefixed, encode_length_prefixed, length_prefix_status, FrameError,
    PrefixStatus,
};

#[test]
fn short_message_has_one_byte_prefix() {
    assert_eq!(encode_length_prefixed(&[7, 8, 9]), vec![3, 7, 8, 9]);
}

#[test]
fn empty_message_has_zero_prefix() {
    assert_eq!(encode_length_prefixed(&[]), vec![0]);
}

#[test]
fn long_message_has_two_byte_prefix() {
    let data = vec![5u8; 300];
    let frame = encode_length_prefixed(&data);
    assert_eq!(frame[0], 0xAC);
    assert_eq!(frame[1], 0x02);
    assert_eq!(frame.len(), 302);
    assert_eq!(&frame[2..], &data[..]);
}

#[test]
fn prefix_status_streams() {
    assert_eq!(length_prefix_status(&[], 100), PrefixStatus::Incomplete);
    assert_eq!(length_prefix_status(&[0xAC], 1000), PrefixStatus::Incomplete);
    assert_eq!(
        length_prefix_status(&[0xAC, 0x02], 1000),
        PrefixStatus::Complete { len: 300, prefix_len: 2 }
    );
    assert_eq!(length_prefix_status(&[0xAC, 0x02], 299), PrefixStatus::TooLarge);
    assert_eq!(length_prefix_status(&[0xAC, 0x02], 300), PrefixStatus::Complete { len: 300, prefix_len: 2 });
}

#[test]
fn prefix_without_end_overflows() {
    assert_eq!(length_prefix_status(&[0xFF; 9], usize::MAX), PrefixStatus::Incomplete);
    assert_eq!(length_prefix_status(&[0xFF; 10], usize::MAX), PrefixStatus::Overflow);
    assert_eq!(decode_length_prefixed(&[0x80; 12], usize::MAX), Err(FrameError::Overflow));
}

#[test]
fn huge_prefix_is_too_large() {
    // 2^64 - 1 fits in ten bytes but not in the maximum.
    let mut frame = vec![0xFF; 9];
    frame.push(0x01);
    assert_eq!(length_prefix_status(&frame, 1_000_000), PrefixStatus::TooLarge);
}

#[test]
fn frame_roundtrip_leaves_trailing_bytes() {
    let mut frame = encode_length_prefixed(b"hello");
    frame.extend_from_slice(b"rest");
    assert_eq!(decode_length_prefixed(&frame, 10), Ok(b"hello".to_vec()));
}

#[test]
fn frame_errors() {
    assert_eq!(decode_length_prefixed(&[], 10), Ok(vec![]));
    assert_eq!(decode_length_prefixed(&[0x80], 10), Err(FrameError::UnexpectedEof));
    assert_eq!(decode_length_prefixed(&[5, 1, 2], 10), Err(FrameError::UnexpectedEof));
    assert_eq!(decode_length_prefixed(&[11, 1, 2], 10), Err(FrameError::TooLarge));
}

#[test]
fn request_roundtrip() {
    let req = FileRequest("canzone".to_string());
    let frame = encode_request(&req);
    assert_eq!(frame[0], 7);
    let body = decode_length_prefixed(&frame, MAX_REQUEST_LEN).unwrap();
    assert_eq!(decode_request(body), Ok(req));
}

#[test]
fn request_with_non_ascii_name() {
    let req = FileRequest("città".to_string());
    let frame = encode_request(&req);
    assert_eq!(frame[0], 6);
    let body = decode_length_prefixed(&frame, MAX_REQUEST_LEN).unwrap();
    assert_eq!(decode_request(body), Ok(req));
}

#[test]
fn request_errors() {
    assert_eq!(decode_request(vec![]), Err(RequestError::Empty));
    assert_eq!(decode_request(vec![0xFF, 0x41]), Err(RequestError::InvalidUtf8));
    assert_eq!(decode_request(vec![0xC3]), Err(RequestError::InvalidUtf8));
}

#[test]
fn response_roundtrip() {
    let resp = FileResponse(vec![1, 2, 3, 4]);
    let frame = encode_response(&resp);
    assert_eq!(frame, vec![4, 1, 2, 3, 4]);
    let body = decode_length_prefixed(&frame, MAX_RESPONSE_LEN).unwrap();
    assert_eq!(decode_response(body), Ok(resp));
}

#[test]
fn empty_response_is_refused() {
    assert_eq!(decode_response(vec![]), Err(ResponseError::Empty));
}

#[test]
fn empty_request_is_read_as_closed_stream() {
    let frame = encode_request(&FileRequest(String::new()));
    assert_eq!(frame, vec![0]);
    let body = decode_length_prefixed(&frame, MAX_REQUEST_LEN).unwrap();
    assert_eq!(decode_request(body), Err(RequestError::Empty));
}
