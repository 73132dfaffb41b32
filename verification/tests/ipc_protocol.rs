use rway::ipc::protocol::{decode_header, encode_message, EventType, MessageType, ProtocolError, HEADER_SIZE, MAGIC};

#[test]
fn test_encode_message_empty_payload() {
    let msg = encode_message(0, b"");

    // 总长度 = 14 字节头（无 payload）
    assert_eq!(msg.len(), HEADER_SIZE);

    // 魔数正确
    assert_eq!(&msg[0..6], b"i3-ipc");

    // payload 长度为 0（小端序）
    assert_eq!(&msg[6..10], &0u32.to_le_bytes());

    // 消息类型为 0（小端序）
    assert_eq!(&msg[10..14], &0u32.to_le_bytes());
}

#[test]
fn test_encode_message_with_payload() {
    let payload = b"hello";
    let msg = encode_message(7, payload);

    assert_eq!(msg.len(), HEADER_SIZE + 5);
    assert_eq!(&msg[0..6], b"i3-ipc");
    assert_eq!(&msg[6..10], &5u32.to_le_bytes());
    assert_eq!(&msg[10..14], &7u32.to_le_bytes());
    assert_eq!(&msg[14..], b"hello");
}

#[test]
fn test_encode_message_type_little_endian() {
    // 消息类型 0x0100_0000（大数值）
    let msg = encode_message(0x01000000, b"");
    let stored_type = u32::from_le_bytes(msg[10..14].try_into().unwrap());
    assert_eq!(stored_type, 0x01000000);
}

#[test]
fn test_encode_message_event_type_high_bit() {
    let msg = encode_message(EventType::Workspace.code(), b"{}");
    let stored_type = u32::from_le_bytes(msg[10..14].try_into().unwrap());
    assert_eq!(stored_type, 0x80000000);
}

#[test]
fn test_encode_message_large_payload() {
    let payload: Vec<u8> = vec![0x41u8; 100_000]; // 100KB 'A'
    let msg = encode_message(4, &payload);

    assert_eq!(msg.len(), HEADER_SIZE + 100_000);
    let stored_len = u32::from_le_bytes(msg[6..10].try_into().unwrap());
    assert_eq!(stored_len, 100_000);
}

#[test]
fn test_decode_header_valid() {
    let mut header = [0u8; 14];
    header[0..6].copy_from_slice(b"i3-ipc");
    header[6..10].copy_from_slice(&42u32.to_le_bytes()); // payload_len = 42
    header[10..14].copy_from_slice(&7u32.to_le_bytes()); // msg_type = 7

    let result = decode_header(&header);
    assert_eq!(result, Ok((42, 7)));
}

#[test]
fn test_decode_header_zero_payload_len() {
    let mut header = [0u8; 14];
    header[0..6].copy_from_slice(b"i3-ipc");
    // payload_len = 0, msg_type = 0（已默认为 0）

    let result = decode_header(&header);
    assert_eq!(result, Ok((0, 0)));
}

#[test]
fn test_decode_header_invalid_magic() {
    let mut header = [0u8; 14];
    header[0..6].copy_from_slice(b"swayxx"); // 错误魔数
    header[6..10].copy_from_slice(&0u32.to_le_bytes());
    header[10..14].copy_from_slice(&0u32.to_le_bytes());

    let result = decode_header(&header);
    assert!(matches!(result, Err(ProtocolError::InvalidMagic(_))));
    if let Err(ProtocolError::InvalidMagic(magic)) = result {
        assert_eq!(&magic, b"swayxx");
    }
}

#[test]
fn test_decode_header_all_zero_magic() {
    let header = [0u8; 14];
    let result = decode_header(&header);
    assert!(matches!(result, Err(ProtocolError::InvalidMagic(_))));
}

#[test]
fn test_decode_header_large_msg_type() {
    // 事件类型 0x80000000（Workspace 事件）
    let mut header = [0u8; 14];
    header[0..6].copy_from_slice(b"i3-ipc");
    header[6..10].copy_from_slice(&2u32.to_le_bytes());
    header[10..14].copy_from_slice(&0x80000000u32.to_le_bytes());

    let result = decode_header(&header);
    assert_eq!(result, Ok((2, 0x80000000)));
}

#[test]
fn test_encode_decode_roundtrip() {
    let original_type: u32 = MessageType::GetVersion.code();
    let original_payload = b"{\"test\":true}";

    let encoded = encode_message(original_type, original_payload);

    // 提取头部并解码
    let header: [u8; 14] = encoded[0..14].try_into().unwrap();
    let (payload_len, msg_type) = decode_header(&header).unwrap();

    assert_eq!(msg_type, original_type);
    assert_eq!(payload_len as usize, original_payload.len());
    assert_eq!(&encoded[14..14 + payload_len as usize], original_payload);
}

#[test]
fn test_encode_decode_all_message_types() {
    let types = [
        MessageType::RunCommand,
        MessageType::GetWorkspaces,
        MessageType::Subscribe,
        MessageType::GetOutputs,
        MessageType::GetTree,
        MessageType::GetMarks,
        MessageType::GetBarConfig,
        MessageType::GetVersion,
        MessageType::GetBindingModes,
        MessageType::GetConfig,
        MessageType::SendTick,
        MessageType::Sync,
        MessageType::GetBindingState,
        MessageType::GetInputs,
        MessageType::GetSeats,
    ];

    for mt in types {
        let encoded = encode_message(mt.code(), b"{}");
        let header: [u8; 14] = encoded[0..14].try_into().unwrap();
        let (_, decoded_type) = decode_header(&header).unwrap();
        assert_eq!(decoded_type, mt.code(), "MessageType {:?} 往返失败", mt);
    }
}

#[test]
fn test_encode_message_unicode_payload() {
    let payload = "{\"name\":\"工作区🚀\"}".as_bytes();
    let msg = encode_message(1, payload);

    let header: [u8; 14] = msg[0..14].try_into().unwrap();
    let (payload_len, _) = decode_header(&header).unwrap();
    assert_eq!(payload_len as usize, payload.len());
    assert_eq!(&msg[14..], payload);
}

#[test]
fn test_encode_message_max_u32_type() {
    let msg = encode_message(u32::MAX, b"");
    let stored = u32::from_le_bytes(msg[10..14].try_into().unwrap());
    assert_eq!(stored, u32::MAX);
}

#[test]
fn test_magic_bytes_content() {
    assert_eq!(&MAGIC, b"i3-ipc");
    assert_eq!(MAGIC.len(), 6);
}

#[test]
fn test_header_size_constant() {
    assert_eq!(HEADER_SIZE, 14);
    assert_eq!(HEADER_SIZE, MAGIC.len() + 4 + 4);
}
