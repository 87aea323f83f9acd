use vaultkey::commands::{
    add_vault_entry_request, delete_vault_entry_request, entry_names, get_security_status_request,
    get_totp_request, get_vault_secret_request, list_vault_request, parse_security_status,
    parse_text_reply, parse_vault_list, push_length_prefixed, split_vault_list,
    type_text_request, MAX_FIELD_LEN, SECURITY_STATUS_LEN, VK_MSG_GET_SECURITY_REQ, VK_MSG_KEYB_TYPE_REQ,
    VK_MSG_TOTP_REQ, VK_MSG_VAULT_ADD_REQ, VK_MSG_VAULT_DEL_REQ, VK_MSG_VAULT_GET_REQ,
    VK_MSG_VAULT_LIST_REQ,
};
use vaultkey::error::VkError;

#[test]
fn command_codes() {
    assert_eq!(VK_MSG_TOTP_REQ, 12);
    assert_eq!(VK_MSG_KEYB_TYPE_REQ, 14);
    assert_eq!(VK_MSG_GET_SECURITY_REQ, 16);
    assert_eq!(VK_MSG_VAULT_LIST_REQ, 20);
    assert_eq!(VK_MSG_VAULT_GET_REQ, 22);
    assert_eq!(VK_MSG_VAULT_ADD_REQ, 24);
    assert_eq!(VK_MSG_VAULT_DEL_REQ, 26);
    assert_eq!(SECURITY_STATUS_LEN, 5);
}

#[test]
fn security_status_of_five_bytes() {
    let parsed = parse_security_status(&[0x03, 0, 0, 0, 0x01]).unwrap();
    assert_eq!(parsed, (3, true));
}

#[test]
fn security_status_count_is_little_endian() {
    assert_eq!(parse_security_status(&[0x78, 0x56, 0x34, 0x12, 0x00]).unwrap(), (0x1234_5678, false));
    assert_eq!(parse_security_status(&[0xff, 0xff, 0xff, 0xff, 0x02]).unwrap(), (u32::MAX, true));
    assert_eq!(parse_security_status(&[0, 1, 0, 0, 0]).unwrap(), (256, false));
    assert_eq!(parse_security_status(&[0, 0, 1, 0, 0xff]).unwrap(), (65536, true));
    assert_eq!(parse_security_status(&[0, 0, 0, 1, 0]).unwrap(), (16_777_216, false));
}

#[test]
fn security_status_ignores_what_follows() {
    assert_eq!(parse_security_status(&[1, 0, 0, 0, 0, 9, 9, 9]).unwrap(), (1, false));
}

#[test]
fn security_status_too_short() {
    for len in 0..5usize {
        let reply = vec![1u8; len];
        match parse_security_status(&reply) {
            Err(VkError::ApplicationError) => {}
            other => panic!("length {}: {:?}", len, other),
        }
    }
    let e = parse_security_status(&[]).unwrap_err();
    assert_eq!(e.message(), "Invalid security status response");
}

#[test]
fn security_status_request_is_empty() {
    let request = get_security_status_request();
    assert_eq!(request.msg_type, 16);
    assert!(request.payload.is_empty());
}

#[test]
fn vault_list_of_two_entries() {
    let names = parse_vault_list(&[3, b'f', b'o', b'o', 2, b'h', b'i']);
    assert_eq!(names, vec!["foo".to_string(), "hi".to_string()]);
}

#[test]
fn vault_list_truncated() {
    let names = parse_vault_list(&[3, b'f', b'o']);
    assert_eq!(names, Vec::<String>::new());
}

#[test]
fn vault_list_keeps_what_came_before_the_cut() {
    assert_eq!(parse_vault_list(&[2, b'h', b'i', 3, b'f']), vec!["hi".to_string()]);
    assert_eq!(parse_vault_list(&[2, b'h', b'i', 3]), vec!["hi".to_string()]);
    assert_eq!(parse_vault_list(&[1, b'a', 1, b'b', 200, 1, 2, 3]), vec!["a".to_string(), "b".to_string()]);
}

#[test]
fn vault_list_edge_cases() {
    assert_eq!(parse_vault_list(&[]), Vec::<String>::new());
    assert_eq!(parse_vault_list(&[0]), vec![String::new()]);
    assert_eq!(parse_vault_list(&[0, 0, 1, b'x']), vec![String::new(), String::new(), "x".to_string()]);
    let mut long = vec![255u8];
    long.extend_from_slice(&[b'a'; 255]);
    assert_eq!(parse_vault_list(&long), vec!["a".repeat(255)]);
    long.pop();
    assert_eq!(parse_vault_list(&long), Vec::<String>::new());
}

#[test]
fn vault_list_replaces_invalid_utf8() {
    let names = parse_vault_list(&[2, 0xff, b'a', 2, 0xc3, 0xa9]);
    assert_eq!(names, vec!["\u{fffd}a".to_string(), "\u{e9}".to_string()]);
}

#[test]
fn vault_list_split_gives_the_bytes() {
    let entries = split_vault_list(&[2, 0xff, b'a', 0, 1, 7, 9]);
    assert_eq!(entries, vec![vec![0xff, b'a'], vec![], vec![7]]);
    let names = entry_names(&entries);
    assert_eq!(names, vec!["\u{fffd}a".to_string(), String::new(), "\u{7}".to_string()]);
}

#[test]
fn list_vault_request_is_empty() {
    let request = list_vault_request();
    assert_eq!(request.msg_type, 20);
    assert!(request.payload.is_empty());
}

#[test]
fn length_prefixed_field() {
    let mut payload = vec![9u8];
    push_length_prefixed(&mut payload, b"abc").unwrap();
    assert_eq!(payload, vec![9, 3, b'a', b'b', b'c']);
    push_length_prefixed(&mut payload, b"").unwrap();
    assert_eq!(payload, vec![9, 3, b'a', b'b', b'c', 0]);
}

#[test]
fn length_prefixed_field_of_255_bytes() {
    assert_eq!(MAX_FIELD_LEN, 255);
    let mut payload = Vec::new();
    push_length_prefixed(&mut payload, &[1u8; 255]).unwrap();
    assert_eq!(payload.len(), 256);
    assert_eq!(payload[0], 255);
    assert_eq!(&payload[1..], &[1u8; 255][..]);
}

#[test]
fn longer_fields_are_refused() {
    let mut payload = vec![4u8, 2];
    match push_length_prefixed(&mut payload, &[1u8; 256]) {
        Err(VkError::FieldTooLong) => {}
        other => panic!("{:?}", other),
    }
    assert_eq!(payload, vec![4, 2]);
    match push_length_prefixed(&mut payload, &[7u8; 300]) {
        Err(VkError::FieldTooLong) => {}
        other => panic!("{:?}", other),
    }
    assert_eq!(payload, vec![4, 2]);
    assert_eq!(VkError::FieldTooLong.message(), "Field longer than 255 bytes");
}

#[test]
fn add_vault_entry_payload() {
    let request = add_vault_entry_request("foo", "s3cret").unwrap();
    assert_eq!(request.msg_type, 24);
    assert_eq!(request.payload, vec![3, b'f', b'o', b'o', 6, b's', b'3', b'c', b'r', b'e', b't']);
    let request = add_vault_entry_request("", "").unwrap();
    assert_eq!(request.payload, vec![0, 0]);
    let request = add_vault_entry_request("\u{e9}", "x").unwrap();
    assert_eq!(request.payload, vec![2, 0xc3, 0xa9, 1, b'x']);
}

#[test]
fn add_vault_entry_at_the_limit() {
    let name = "n".repeat(255);
    let secret = "s".repeat(255);
    let request = add_vault_entry_request(&name, &secret).unwrap();
    assert_eq!(request.payload.len(), 512);
    assert_eq!(request.payload[0], 255);
    assert_eq!(request.payload[256], 255);
    assert_eq!(parse_vault_list(&request.payload), vec![name, secret]);
}

#[test]
fn add_vault_entry_refuses_long_fields() {
    let long = "x".repeat(256);
    match add_vault_entry_request(&long, "s") {
        Err(VkError::FieldTooLong) => {}
        other => panic!("{:?}", other),
    }
    match add_vault_entry_request("n", &long) {
        Err(VkError::FieldTooLong) => {}
        other => panic!("{:?}", other),
    }
    match add_vault_entry_request(&long, &long) {
        Err(VkError::FieldTooLong) => {}
        other => panic!("{:?}", other),
    }
    // the limit counts bytes, not characters
    let accented = "\u{e9}".repeat(128);
    assert!(add_vault_entry_request(&accented, "s").is_err());
    assert!(add_vault_entry_request(&"\u{e9}".repeat(127), "s").is_ok());
}

#[test]
fn added_entries_read_back_as_a_list() {
    let request = add_vault_entry_request("mail", "hunter2").unwrap();
    assert_eq!(parse_vault_list(&request.payload), vec!["mail".to_string(), "hunter2".to_string()]);
}

#[test]
fn type_text_payload() {
    let request = type_text_request("hi \u{20ac}");
    assert_eq!(request.msg_type, 14);
    assert_eq!(request.payload, vec![b'h', b'i', b' ', 0xe2, 0x82, 0xac]);
    assert!(type_text_request("").payload.is_empty());
}

#[test]
fn get_vault_secret_payload() {
    let request = get_vault_secret_request("foo").unwrap();
    assert_eq!(request.msg_type, 22);
    assert_eq!(request.payload, vec![3, b'f', b'o', b'o']);
    assert!(get_vault_secret_request(&"a".repeat(255)).is_ok());
    match get_vault_secret_request(&"a".repeat(256)) {
        Err(VkError::FieldTooLong) => {}
        other => panic!("{:?}", other),
    }
}

#[test]
fn delete_vault_entry_payload() {
    let request = delete_vault_entry_request("foo").unwrap();
    assert_eq!(request.msg_type, 26);
    assert_eq!(request.payload, vec![3, b'f', b'o', b'o']);
    assert!(delete_vault_entry_request(&"a".repeat(255)).is_ok());
    match delete_vault_entry_request(&"a".repeat(256)) {
        Err(VkError::FieldTooLong) => {}
        other => panic!("{:?}", other),
    }
}

#[test]
fn totp_payload() {
    let request = get_totp_request(1_700_000_000);
    assert_eq!(request.msg_type, 12);
    assert_eq!(request.payload, vec![0x00, 0xf1, 0x53, 0x65, 0, 0, 0, 0]);
    assert_eq!(request.payload, 1_700_000_000u64.to_le_bytes().to_vec());
    assert_eq!(get_totp_request(0).payload, vec![0; 8]);
    assert_eq!(get_totp_request(u64::MAX).payload, vec![0xff; 8]);
    assert_eq!(
        get_totp_request(0x0102_0304_0506_0708).payload,
        vec![0x08, 0x07, 0x06, 0x05, 0x04, 0x03, 0x02, 0x01]
    );
}

#[test]
fn text_reply() {
    assert_eq!(parse_text_reply(b"123456"), "123456");
    assert_eq!(parse_text_reply(&[]), "");
    assert_eq!(parse_text_reply(&[b'a', 0xff, b'b']), "a\u{fffd}b");
    assert_eq!(parse_text_reply(&[0xe2, 0x82, 0xac]), "\u{20ac}");
    assert_eq!(parse_text_reply(&[0xe2, 0x82]), "\u{fffd}");
}
