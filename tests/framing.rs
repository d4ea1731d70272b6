use script_shell::framing::{build_message, frame_header, FrameError, SendStage, HEADER_LEN};

#[test]
fn hello_message_layout() {
    let m = build_message("hello".as_bytes()).unwrap();
    assert_eq!(m.len(), HEADER_LEN + 5 + 1);
    assert_eq!(&m[8..12], &[6u8, 0, 0, 0]);
    assert_eq!(u32::from_le_bytes([m[8], m[9], m[10], m[11]]), 6);
    assert!(m[..8].iter().all(|b| *b == 0));
    assert!(m[12..16].iter().all(|b| *b == 0));
    assert_eq!(&m[16..21], "hello".as_bytes());
    assert_eq!(m[21], 0);
}

#[test]
fn empty_payload_message() {
    let m = build_message(&[]).unwrap();
    assert_eq!(m.len(), 17);
    assert_eq!(&m[8..12], &[1u8, 0, 0, 0]);
    assert_eq!(m[16], 0);
}

#[test]
fn length_field_spans_all_four_bytes() {
    let h = frame_header(0x0102_0304).unwrap();
    assert_eq!(h.len(), 16);
    assert_eq!(&h[8..12], &[0x05u8, 0x03, 0x02, 0x01]);
}

#[test]
fn length_field_for_various_sizes() {
    for len in [0usize, 1, 255, 256, 65535, 1 << 20] {
        let h = frame_header(len).unwrap();
        assert_eq!(u32::from_le_bytes([h[8], h[9], h[10], h[11]]) as usize, len + 1);
    }
}

#[test]
fn largest_frameable_payload() {
    let h = frame_header(u32::MAX as usize - 1).unwrap();
    assert_eq!(&h[8..12], &[0xffu8, 0xff, 0xff, 0xff]);
}

#[test]
fn payload_of_u32_max_is_too_large() {
    assert_eq!(frame_header(u32::MAX as usize), Err(FrameError::PayloadTooLarge));
    assert_eq!(frame_header(usize::MAX), Err(FrameError::PayloadTooLarge));
}

#[test]
fn too_large_message_text() {
    assert_eq!(FrameError::PayloadTooLarge.message(), "Script is too large to send");
}

#[test]
fn stage_prefixes_are_distinct() {
    assert_eq!(SendStage::Connect.prefix(), "Failed to connect");
    assert_eq!(SendStage::WriteHeader.prefix(), "Failed to write header");
    assert_eq!(SendStage::WritePayload.prefix(), "Failed to write script");
    assert_eq!(SendStage::WriteTerminator.prefix(), "Failed to write null terminator");
    assert_eq!(SendStage::Flush.prefix(), "Failed to flush stream");
    assert_eq!(SendStage::SetWriteTimeout.prefix(), "Failed to set write timeout");
    assert_eq!(SendStage::SetReadTimeout.prefix(), "Failed to set read timeout");
}
