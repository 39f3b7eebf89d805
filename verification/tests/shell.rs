use pgprox::proto::Tag;
use pgprox::shell::{
    FIRST_READ, FrameError, HELD_READ, MAX_HANDSHAKE_FRAME, decode_header, decode_untagged,
};

#[test]
fn the_read_sizes_are_the_sizes_they_say() {
    // Both are per-connection costs, and both are written as products, so an
    // operator multiplied by a byte count is one edit away from being an
    // operator added to one.
    assert_eq!(FIRST_READ, 512);
    assert_eq!(HELD_READ, 16_384);
}

#[test]
fn the_handshake_limit_is_thirty_two_kibibytes() {
    assert_eq!(MAX_HANDSHAKE_FRAME, 32_768);
}

#[test]
fn a_header_is_read_once_five_bytes_are_there() {
    let frame = [b'Q', 0, 0, 0, 13, b'S', b'E', b'L', b'E', b'C', b'T', b' ', b'1', 0];
    for cut in 0..5 {
        assert_eq!(decode_header(&frame[..cut], 1024), Ok(None), "{cut}");
    }
    assert_eq!(decode_header(&frame, 1024), Ok(Some((Tag(Tag::QUERY), 9))));
    assert_eq!(decode_header(&frame[..5], 1024), Ok(Some((Tag(Tag::QUERY), 9))));
}

#[test]
fn an_oversized_handshake_message_is_refused_before_it_is_read() {
    // The length alone decides: a client that claims a megabyte is refused
    // without the megabyte being read.
    let mut header = vec![Tag::PASSWORD];
    header.extend_from_slice(&(1_048_576_u32 + 4).to_be_bytes());
    assert_eq!(
        decode_header(&header, MAX_HANDSHAKE_FRAME),
        Err(FrameError::TooLong(1_048_580))
    );

    let mut fits = vec![Tag::PASSWORD];
    fits.extend_from_slice(&(MAX_HANDSHAKE_FRAME as u32 + 4).to_be_bytes());
    assert_eq!(
        decode_header(&fits, MAX_HANDSHAKE_FRAME),
        Ok(Some((Tag(Tag::PASSWORD), MAX_HANDSHAKE_FRAME)))
    );
}

#[test]
fn a_length_under_its_own_size_is_refused() {
    assert_eq!(decode_header(&[b'Q', 0, 0, 0, 3], 1024), Err(FrameError::TooShort(3)));
    assert_eq!(decode_header(&[b'S', 0, 0, 0, 4], 1024), Ok(Some((Tag(Tag::SYNC), 0))));
}

#[test]
fn a_startup_length_is_read_from_four_bytes() {
    let ssl = [0, 0, 0, 8, 4, 210, 22, 47];
    assert_eq!(decode_untagged(&ssl[..3], 1024), Ok(None));
    assert_eq!(decode_untagged(&ssl, 1024), Ok(Some(4)));
    assert_eq!(decode_untagged(&[0, 0, 0, 2], 1024), Err(FrameError::TooShort(2)));
    assert_eq!(
        decode_untagged(&[0, 1, 0, 0], MAX_HANDSHAKE_FRAME),
        Err(FrameError::TooLong(65_536))
    );
}
