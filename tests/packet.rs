use wsserver::packet::{read, read_message, serialize, Error, Opcode, Packet};

#[test]
fn read_hello() {
    assert_eq!(
        read(&[129, 6, 72, 101, 108, 108, 111, 33][..]),
        Ok(Packet::Text("Hello!".to_owned())),
    );
}

#[test]
fn read_hello_masked() {
    assert_eq!(
        read(&[129, 134, 132, 29, 59, 30, 204, 120, 87, 114, 235, 60][..]),
        Ok(Packet::Text("Hello!".to_owned())),
    );
}

#[test]
fn read_hello_fragmented() {
    assert_eq!(
        read(&[1, 3, 72, 101, 108, 128, 3, 108, 111, 33][..]),
        Ok(Packet::Text("Hello!".to_owned())),
    );
}

#[test]
fn read_close_1001() {
    assert_eq!(
        read(&[136, 130, 247, 207, 169, 128, 244, 38][..]),
        Ok(Packet::Close(1001, None)),
    );
}

#[test]
fn serialize_hello() {
    assert_eq!(
        serialize(Opcode::Text, None, b"Hello!"),
        [129, 6, 72, 101, 108, 108, 111, 33],
    );
}

#[test]
fn serialize_hello_masked() {
    assert_eq!(
        serialize(Opcode::Text, Some([132, 29, 59, 30]), b"Hello!"),
        [129, 134, 132, 29, 59, 30, 204, 120, 87, 114, 235, 60],
    );
}

#[test]
fn read_reports_bytes_taken() {
    let input = [1, 3, 72, 101, 108, 128, 3, 108, 111, 33, 129, 0];
    assert_eq!(
        read_message(&input[..]),
        Ok((Packet::Text("Hello!".to_owned()), 10)),
    );
}

#[test]
fn round_trip_short_text() {
    let frame = serialize(Opcode::Text, None, "héllo wörld".as_bytes());
    assert_eq!(read(&frame[..]), Ok(Packet::Text("héllo wörld".to_owned())));
}

#[test]
fn round_trip_16_bit_length() {
    let text = "a".repeat(300);
    let frame = serialize(Opcode::Text, None, text.as_bytes());
    assert_eq!(&frame[..4], &[129, 126, 1, 44]);
    assert_eq!(frame.len(), 304);
    assert_eq!(read(&frame[..]), Ok(Packet::Text(text)));
}

#[test]
fn round_trip_64_bit_length_masked() {
    let text = "xyz".repeat(30000);
    let frame = serialize(Opcode::Text, Some([1, 2, 3, 4]), text.as_bytes());
    assert_eq!(&frame[..10], &[129, 255, 0, 0, 0, 0, 0, 1, 95, 144]);
    assert_eq!(&frame[10..14], &[1, 2, 3, 4]);
    assert_eq!(frame.len(), 14 + 90000);
    assert_eq!(read(&frame[..]), Ok(Packet::Text(text)));
}

#[test]
fn masked_and_unmasked_decode_alike() {
    let masked = serialize(Opcode::Text, Some([9, 200, 33, 7]), b"same text");
    let plain = serialize(Opcode::Text, None, b"same text");
    assert_ne!(masked[6..], plain[2..]);
    assert_eq!(read(&masked[..]), read(&plain[..]));
}

#[test]
fn fragmented_in_three_frames() {
    let input = [1, 2, 72, 101, 0, 2, 108, 108, 128, 2, 111, 33];
    assert_eq!(read(&input[..]), read(&[129, 6, 72, 101, 108, 108, 111, 33][..]));
}

#[test]
fn reserved_bits_rejected() {
    assert_eq!(read(&[129 | 64, 1, 65][..]), Err(Error::ReservedBits));
    assert_eq!(read(&[129 | 16, 1, 65][..]), Err(Error::ReservedBits));
}

#[test]
fn oversized_length_rejected() {
    assert_eq!(
        read(&[129, 127, 128, 0, 0, 0, 0, 0, 0, 1][..]),
        Err(Error::Length),
    );
}

#[test]
fn truncated_input_rejected() {
    assert_eq!(read(&[129][..]), Err(Error::UnexpectedEof));
    assert_eq!(read(&[129, 6, 72, 101][..]), Err(Error::UnexpectedEof));
    assert_eq!(read(&[129, 126, 1][..]), Err(Error::UnexpectedEof));
}

#[test]
fn reserved_opcode_rejected() {
    assert_eq!(read(&[131, 0][..]), Err(Error::Opcode));
}

#[test]
fn text_inside_fragments_rejected() {
    assert_eq!(read(&[1, 1, 72, 129, 1, 105][..]), Err(Error::Opcode));
}

#[test]
fn leading_continuation_rejected() {
    assert_eq!(read(&[128, 1, 72][..]), Err(Error::Opcode));
}

#[test]
fn invalid_utf8_rejected() {
    assert_eq!(read(&[129, 2, 0xC3, 0x28][..]), Err(Error::Utf8));
}

#[test]
fn short_close_rejected() {
    assert_eq!(read(&[136, 1, 3][..]), Err(Error::Slice));
    assert_eq!(read(&[136, 0][..]), Err(Error::Slice));
}

#[test]
fn close_with_reason() {
    assert_eq!(
        read(&[136, 5, 3, 232, 98, 121, 101][..]),
        Ok(Packet::Close(1000, Some("bye".to_owned()))),
    );
}

#[test]
fn unsupported_opcodes_rejected() {
    assert_eq!(read(&[130, 0][..]), Err(Error::Unsupported));
    assert_eq!(read(&[137, 0][..]), Err(Error::Unsupported));
    assert_eq!(read(&[138, 0][..]), Err(Error::Unsupported));
}

#[test]
fn opcode_wire_values() {
    assert_eq!(u8::from(Opcode::Pong), 10);
    assert_eq!(Opcode::from_value(8), Some(Opcode::Close));
    assert_eq!(Opcode::from_value(3), None);
}
