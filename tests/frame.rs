use wirestorm::checksum::compute_checksum;
use wirestorm::frame::{check_frame, check_header, parse_ctmp_message, FrameError, ReadOutcome};

fn sensitive_frame(payload: &[u8]) -> Vec<u8> {
    let len = payload.len() as u16;
    let mut f = vec![0xCC, 0x40, (len >> 8) as u8, len as u8, 0xCC, 0xCC, 0x00, 0x00];
    f.extend_from_slice(payload);
    let c = compute_checksum(&f);
    f[4] = (c >> 8) as u8;
    f[5] = c as u8;
    f
}

#[test]
fn hello_frame_is_forwarded_whole() {
    let mut input = vec![0xCC, 0x00, 0x00, 0x05, 0x00, 0x00, 0x00, 0x00];
    input.extend_from_slice(b"hello");
    assert_eq!(input.len(), 13);
    assert_eq!(parse_ctmp_message(&input), ReadOutcome::Frame(input.clone()));
}

#[test]
fn plain_frame_ignores_checksum_field() {
    let payload = [9u8, 8, 7, 6, 5, 4];
    let mut input = vec![0xCC, 0x00, 0x00, 0x06, 0x12, 0x34, 0xAB, 0xCD];
    input.extend_from_slice(&payload);
    input.extend_from_slice(&[0xCC, 0x00]);
    match parse_ctmp_message(&input) {
        ReadOutcome::Frame(m) => {
            assert_eq!(m.len(), 14);
            assert_eq!(&m[8..], &payload);
            assert_eq!(&m[..], &input[..14]);
        }
        other => panic!("unexpected {:?}", other),
    }
}

#[test]
fn sensitive_frame_with_good_checksum_is_forwarded() {
    let f = sensitive_frame(b"test");
    assert_eq!(&f[4..6], &[0x7F, 0x14]);
    assert_eq!(parse_ctmp_message(&f), ReadOutcome::Frame(f.clone()));
}

#[test]
fn sensitive_frame_with_flipped_checksum_bit_is_dropped() {
    let mut f = sensitive_frame(b"test");
    f[5] ^= 0x01;
    assert_eq!(
        parse_ctmp_message(&f),
        ReadOutcome::Failed(FrameError::ChecksumViolation)
    );
}

#[test]
fn sensitive_frame_with_flipped_payload_bit_is_dropped() {
    let mut f = sensitive_frame(b"payload bytes");
    f[10] ^= 0x20;
    assert_eq!(
        parse_ctmp_message(&f),
        ReadOutcome::Failed(FrameError::ChecksumViolation)
    );
}

#[test]
fn zero_length_frame_is_header_only() {
    let input = vec![0xCC, 0x00, 0x00, 0x00, 0x00, 0x00, 0x00, 0x00];
    assert_eq!(parse_ctmp_message(&input), ReadOutcome::Frame(input.clone()));
    let s = sensitive_frame(b"");
    assert_eq!(s.len(), 8);
    assert_eq!(parse_ctmp_message(&s), ReadOutcome::Frame(s.clone()));
}

#[test]
fn empty_stream_is_clean_end() {
    assert_eq!(parse_ctmp_message(&[]), ReadOutcome::CleanEnd);
}

#[test]
fn partial_header_is_io_failure() {
    assert_eq!(
        parse_ctmp_message(&[0xCC, 0x00, 0x00]),
        ReadOutcome::Failed(FrameError::IoFailure)
    );
}

#[test]
fn bad_magic_is_protocol_violation() {
    let input = vec![0xCD, 0x00, 0x00, 0x00, 0x00, 0x00, 0x00, 0x00];
    assert_eq!(
        parse_ctmp_message(&input),
        ReadOutcome::Failed(FrameError::ProtocolViolation)
    );
    assert_eq!(check_header(&input), Err(FrameError::ProtocolViolation));
}

#[test]
fn short_payload_is_io_failure() {
    let input = vec![0xCC, 0x00, 0x00, 0x04, 0x00, 0x00, 0x00, 0x00, 1, 2];
    assert_eq!(
        parse_ctmp_message(&input),
        ReadOutcome::Failed(FrameError::IoFailure)
    );
}

#[test]
fn header_announces_big_endian_length() {
    let h = [0xCC, 0x00, 0x01, 0x02, 0x00, 0x00, 0x00, 0x00];
    assert_eq!(check_header(&h), Ok(0x0102));
    let h = [0xCC, 0x00, 0xFF, 0xFF, 0x00, 0x00, 0x00, 0x00];
    assert_eq!(check_header(&h), Ok(65535));
}

#[test]
fn check_frame_joins_header_and_payload() {
    let h = [0xCC, 0x00, 0x00, 0x02, 0x00, 0x00, 0x00, 0x00];
    assert_eq!(
        check_frame(&h, &[0xAA, 0xBB]),
        Ok(vec![0xCC, 0x00, 0x00, 0x02, 0x00, 0x00, 0x00, 0x00, 0xAA, 0xBB])
    );
    let h = [0xCC, 0x40, 0x00, 0x02, 0x00, 0x00, 0x00, 0x00];
    assert_eq!(check_frame(&h, &[0xAA, 0xBB]), Err(FrameError::ChecksumViolation));
}

#[test]
fn back_to_back_frames_parse_in_order() {
    let mut a = vec![0xCC, 0x00, 0x00, 0x01, 0x00, 0x00, 0x00, 0x00, b'a'];
    let b = sensitive_frame(b"bb");
    let first_len = a.len();
    a.extend_from_slice(&b);
    assert_eq!(parse_ctmp_message(&a), ReadOutcome::Frame(a[..first_len].to_vec()));
    assert_eq!(parse_ctmp_message(&a[first_len..]), ReadOutcome::Frame(b.clone()));
}
