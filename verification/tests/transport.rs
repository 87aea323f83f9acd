use vaultkey::error::VkError;
use vaultkey::protocol::VkMessage;
use vaultkey::transport::{
    begin_command, finish_command, plan_exchange, request_envelope, BAUD_RATE, IO_TIMEOUT_MS,
    RESPONSE_BUFFER_LEN,
};
use vaultkey::usb::DeviceTransport;

#[test]
fn line_parameters() {
    assert_eq!(BAUD_RATE, 115_200);
    assert_eq!(IO_TIMEOUT_MS, 1000);
    assert_eq!(RESPONSE_BUFFER_LEN, 256);
}

#[test]
fn request_envelope_has_version_and_id() {
    let msg = request_envelope(20, vec![1, 2, 3], 77);
    assert_eq!(msg.version, 1);
    assert_eq!(msg.msg_type, 20);
    assert_eq!(msg.payload, vec![1, 2, 3]);
    assert_eq!(msg.id, Some(77));
}

#[test]
fn no_device_no_exchange() {
    match plan_exchange(None, 16, vec![], 1) {
        Err(VkError::DeviceNotFound) => {}
        other => panic!("{:?}", other),
    }
    match begin_command(None, 16, vec![]) {
        Err(VkError::DeviceNotFound) => {}
        other => panic!("{:?}", other),
    }
}

#[test]
fn hid_is_not_supported() {
    let transport = Some(DeviceTransport::Hid("/dev/hidraw1".to_string()));
    match plan_exchange(transport, 16, vec![], 1) {
        Err(VkError::TransportUnsupported) => {}
        other => panic!("{:?}", other),
    }
    let transport = Some(DeviceTransport::Hid("/dev/hidraw1".to_string()));
    match begin_command(transport, 16, vec![]) {
        Err(VkError::TransportUnsupported) => {}
        other => panic!("{:?}", other),
    }
}

#[test]
fn serial_exchange_is_planned() {
    let transport = Some(DeviceTransport::Serial("/dev/ttyACM0".to_string()));
    let exchange = plan_exchange(transport, 22, vec![3, b'f', b'o', b'o'], 0x0102_0304).unwrap();
    assert_eq!(exchange.port_name, "/dev/ttyACM0");
    assert_eq!(exchange.baud_rate, 115_200);
    assert_eq!(exchange.timeout_ms, 1000);
    assert_eq!(exchange.response_capacity, 256);
    let expected: Vec<u8> = vec![
        0xa4, 0x61, 0x76, 0x01, 0x64, 0x74, 0x79, 0x70, 0x65, 0x16, 0x67, 0x70, 0x61, 0x79, 0x6c,
        0x6f, 0x61, 0x64, 0x84, 0x03, 0x18, 0x66, 0x18, 0x6f, 0x18, 0x6f, 0x62, 0x69, 0x64, 0x1a,
        0x01, 0x02, 0x03, 0x04,
    ];
    assert_eq!(exchange.frame, expected);
}

#[test]
fn a_command_carries_a_fresh_id() {
    let transport = Some(DeviceTransport::Serial("COM3".to_string()));
    let exchange = begin_command(transport, 16, vec![5, 6]).unwrap();
    assert_eq!(exchange.port_name, "COM3");
    assert_eq!(exchange.baud_rate, 115_200);
    assert_eq!(exchange.timeout_ms, 1000);
    assert_eq!(exchange.response_capacity, 256);
    let sent = VkMessage::from_cbor(&exchange.frame).unwrap();
    assert_eq!(sent.version, 1);
    assert_eq!(sent.msg_type, 16);
    assert_eq!(sent.payload, vec![5, 6]);
    assert!(sent.id.is_some());
}

#[test]
fn ids_are_drawn_anew() {
    let mut seen = std::collections::BTreeSet::new();
    for _ in 0..16 {
        let transport = Some(DeviceTransport::Serial("COM3".to_string()));
        let exchange = begin_command(transport, 0, vec![]).unwrap();
        seen.insert(VkMessage::from_cbor(&exchange.frame).unwrap().id.unwrap());
    }
    assert!(seen.len() > 1);
}

#[test]
fn the_reply_gives_its_payload() {
    let reply = VkMessage { version: 1, msg_type: 17, payload: vec![3, 0, 0, 0, 1], id: Some(5) };
    let bytes = reply.to_cbor().unwrap();
    assert!(bytes.len() <= RESPONSE_BUFFER_LEN);
    assert_eq!(finish_command(&bytes).unwrap(), vec![3, 0, 0, 0, 1]);
    let reply = VkMessage { version: 1, msg_type: 21, payload: vec![], id: None };
    assert_eq!(finish_command(&reply.to_cbor().unwrap()).unwrap(), Vec::<u8>::new());
}

#[test]
fn a_malformed_reply_is_a_decode_failure() {
    match finish_command(&[0xff, 0x00, 0x01]) {
        Err(VkError::DecodeFailure) => {}
        other => panic!("{:?}", other),
    }
    match finish_command(&[]) {
        Err(VkError::DecodeFailure) => {}
        other => panic!("{:?}", other),
    }
    let mut bytes = VkMessage::new_ping(1).to_cbor().unwrap();
    bytes.pop();
    assert!(finish_command(&bytes).is_err());
}

#[test]
fn failure_messages() {
    assert_eq!(VkError::DeviceNotFound.message(), "Device not found");
    assert_eq!(
        VkError::TransportUnsupported.message(),
        "HID transport not yet fully implemented for commands"
    );
    assert_eq!(VkError::IoFailure("Operation timed out".to_string()).message(), "Operation timed out");
    assert_eq!(VkError::DecodeFailure.message(), "Malformed response envelope");
    assert_eq!(VkError::ApplicationError.message(), "Invalid security status response");
    assert_eq!(VkError::FieldTooLong.message(), "Field longer than 255 bytes");
}
