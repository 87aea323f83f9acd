use std::fmt;

use serde::de::{Deserialize, Deserializer, Error, IgnoredAny, MapAccess, Visitor};
use serde::ser::{SerializeStruct, Serializer};
use vaultkey::protocol::VkMessage;

/// What serde_cbor writes for a struct with the fields `v`, `type`,
/// `payload` and `id`, the last one skipped where it is `None`.
fn written_by_serde(msg: &VkMessage) -> Vec<u8> {
    let mut out: Vec<u8> = Vec::new();
    {
        let mut serializer = serde_cbor::Serializer::new(&mut out);
        let len = if msg.id.is_some() { 4 } else { 3 };
        let mut state = (&mut serializer).serialize_struct("VkMessage", len).unwrap();
        state.serialize_field("v", &msg.version).unwrap();
        state.serialize_field("type", &msg.msg_type).unwrap();
        state.serialize_field("payload", &msg.payload).unwrap();
        if msg.id.is_some() {
            state.serialize_field("id", &msg.id).unwrap();
        } else {
            state.skip_field("id").unwrap();
        }
        state.end().unwrap();
    }
    out
}

/// The same struct as serde reads it from a map.
#[derive(Debug, PartialEq)]
struct Wire {
    version: u8,
    msg_type: u8,
    payload: Vec<u8>,
    id: Option<u32>,
}

struct WireVisitor;

impl<'de> Visitor<'de> for WireVisitor {
    type Value = Wire;

    fn expecting(&self, formatter: &mut fmt::Formatter) -> fmt::Result {
        formatter.write_str("an envelope")
    }

    fn visit_map<A: MapAccess<'de>>(self, mut map: A) -> Result<Wire, A::Error> {
        let mut version: Option<u8> = None;
        let mut msg_type: Option<u8> = None;
        let mut payload: Option<Vec<u8>> = None;
        let mut id: Option<Option<u32>> = None;
        while let Some(key) = map.next_key::<String>()? {
            match key.as_str() {
                "v" => {
                    if version.is_some() {
                        return Err(A::Error::duplicate_field("v"));
                    }
                    version = Some(map.next_value()?);
                }
                "type" => {
                    if msg_type.is_some() {
                        return Err(A::Error::duplicate_field("type"));
                    }
                    msg_type = Some(map.next_value()?);
                }
                "payload" => {
                    if payload.is_some() {
                        return Err(A::Error::duplicate_field("payload"));
                    }
                    payload = Some(map.next_value()?);
                }
                "id" => {
                    if id.is_some() {
                        return Err(A::Error::duplicate_field("id"));
                    }
                    id = Some(map.next_value()?);
                }
                _ => {
                    let _: IgnoredAny = map.next_value()?;
                }
            }
        }
        Ok(Wire {
            version: version.ok_or_else(|| A::Error::missing_field("v"))?,
            msg_type: msg_type.ok_or_else(|| A::Error::missing_field("type"))?,
            payload: payload.ok_or_else(|| A::Error::missing_field("payload"))?,
            id: id.unwrap_or(None),
        })
    }
}

impl<'de> Deserialize<'de> for Wire {
    fn deserialize<D: Deserializer<'de>>(deserializer: D) -> Result<Self, D::Error> {
        deserializer.deserialize_map(WireVisitor)
    }
}

fn read_by_serde(bytes: &[u8]) -> Option<Wire> {
    serde_cbor::from_slice::<Wire>(bytes).ok()
}

fn read_by_library(bytes: &[u8]) -> Option<Wire> {
    VkMessage::from_cbor(bytes).ok().map(|msg| Wire {
        version: msg.version,
        msg_type: msg.msg_type,
        payload: msg.payload,
        id: msg.id,
    })
}

fn samples() -> Vec<VkMessage> {
    let mut list = vec![
        VkMessage::new_ping(12345),
        VkMessage::new_ping(0),
        VkMessage::new_ping(u32::MAX),
        VkMessage { version: 1, msg_type: 16, payload: vec![], id: None },
        VkMessage { version: 255, msg_type: 255, payload: vec![255; 70], id: Some(23) },
        VkMessage { version: 24, msg_type: 23, payload: vec![0, 23, 24, 255], id: Some(24) },
        VkMessage { version: 0, msg_type: 0, payload: vec![1; 23], id: Some(255) },
        VkMessage { version: 0, msg_type: 0, payload: vec![1; 24], id: Some(256) },
        VkMessage { version: 0, msg_type: 0, payload: vec![1; 255], id: Some(65535) },
        VkMessage { version: 0, msg_type: 0, payload: vec![1; 256], id: Some(65536) },
        VkMessage { version: 0, msg_type: 0, payload: vec![200; 65536], id: None },
    ];
    for i in 0..=255u8 {
        list.push(VkMessage { version: i, msg_type: 255 - i, payload: vec![i, i / 2], id: Some(i as u32 * 0x0101_0101) });
    }
    list
}

#[test]
fn the_library_writes_what_serde_writes() {
    for msg in samples().iter() {
        assert_eq!(msg.to_cbor().unwrap(), written_by_serde(msg));
    }
}

#[test]
fn serde_reads_what_the_library_writes() {
    for msg in samples().iter() {
        let bytes = msg.to_cbor().unwrap();
        let read = read_by_serde(&bytes).unwrap();
        assert_eq!(read.version, msg.version);
        assert_eq!(read.msg_type, msg.msg_type);
        assert_eq!(read.payload, msg.payload);
        assert_eq!(read.id, msg.id);
    }
}

#[test]
fn the_library_reads_as_serde_reads() {
    let ping = VkMessage::new_ping(12345).to_cbor().unwrap();
    let mut inputs: Vec<Vec<u8>> = Vec::new();
    // every prefix of a good envelope, and the envelope with a byte behind it
    for cut in 0..=ping.len() {
        inputs.push(ping[..cut].to_vec());
    }
    let mut longer = ping.clone();
    longer.push(0);
    inputs.push(longer);
    // every single byte of a good envelope replaced by a few other values
    for at in 0..ping.len() {
        for other in [0x00u8, 0x01, 0x17, 0x18, 0x20, 0x40, 0x61, 0x80, 0xa0, 0xf6] {
            let mut changed = ping.clone();
            changed[at] = other;
            inputs.push(changed);
        }
    }
    // unknown values nested as deep as serde follows them, and one deeper
    for depth in [1usize, 125, 126, 127, 128] {
        let mut nested = ping.clone();
        nested[0] = 0xa5;
        nested.extend_from_slice(&[0x61, 0x78]);
        for _ in 0..depth {
            nested.push(0x81);
        }
        nested.push(0x00);
        inputs.push(nested);
    }
    // maps, arrays and strings of indefinite length
    inputs.push(vec![
        0xbf, 0x62, 0x69, 0x64, 0x07, 0x61, 0x76, 0x01, 0x64, 0x74, 0x79, 0x70, 0x65, 0x11, 0x67,
        0x70, 0x61, 0x79, 0x6c, 0x6f, 0x61, 0x64, 0x9f, 0x03, 0x18, 0xc8, 0xff, 0xff,
    ]);
    inputs.push(vec![
        0xbf, 0x61, 0x76, 0x01, 0x64, 0x74, 0x79, 0x70, 0x65, 0x00, 0x67, 0x70, 0x61, 0x79, 0x6c,
        0x6f, 0x61, 0x64, 0x80, 0x61, 0x61, 0x7f, 0x61, 0x78, 0x62, 0x79, 0x7a, 0xff, 0x61, 0x62,
        0x5f, 0x41, 0x00, 0x40, 0xff, 0x61, 0x63, 0x9f, 0x01, 0x82, 0x02, 0x03, 0x9f, 0xff, 0xff,
        0x61, 0x64, 0xbf, 0x01, 0x02, 0x61, 0x6b, 0xbf, 0xff, 0xff, 0xff,
    ]);
    inputs.push(vec![
        0xbf, 0x61, 0x76, 0x01, 0x64, 0x74, 0x79, 0x70, 0x65, 0x00, 0x67, 0x70, 0x61, 0x79, 0x6c,
        0x6f, 0x61, 0x64, 0x80,
    ]);
    inputs.push(vec![
        0xbf, 0x61, 0x76, 0x01, 0x64, 0x74, 0x79, 0x70, 0x65, 0x00, 0x67, 0x70, 0x61, 0x79, 0x6c,
        0x6f, 0x61, 0x64, 0x80, 0x61, 0x78, 0xff,
    ]);
    inputs.push(vec![0xff, 0x00, 0x01]);
    inputs.push(vec![0xa0]);
    // fields in another order, an unknown field, a null id, a repeated field
    inputs.push(vec![
        0xa4, 0x62, 0x69, 0x64, 0x05, 0x67, 0x70, 0x61, 0x79, 0x6c, 0x6f, 0x61, 0x64, 0x82, 0x01,
        0x02, 0x64, 0x74, 0x79, 0x70, 0x65, 0x03, 0x61, 0x76, 0x01,
    ]);
    inputs.push(vec![
        0xa4, 0x61, 0x76, 0x01, 0x64, 0x74, 0x79, 0x70, 0x65, 0x00, 0x67, 0x70, 0x61, 0x79, 0x6c,
        0x6f, 0x61, 0x64, 0x80, 0x61, 0x78, 0xa1, 0x01, 0x82, 0x20, 0xf5,
    ]);
    inputs.push(vec![
        0xa4, 0x61, 0x76, 0x01, 0x64, 0x74, 0x79, 0x70, 0x65, 0x00, 0x67, 0x70, 0x61, 0x79, 0x6c,
        0x6f, 0x61, 0x64, 0x80, 0x62, 0x69, 0x64, 0xf6,
    ]);
    inputs.push(vec![
        0xa4, 0x61, 0x76, 0x01, 0x61, 0x76, 0x01, 0x64, 0x74, 0x79, 0x70, 0x65, 0x00, 0x67, 0x70,
        0x61, 0x79, 0x6c, 0x6f, 0x61, 0x64, 0x80,
    ]);
    let mut agreed = 0;
    for bytes in inputs.iter() {
        assert_eq!(read_by_library(bytes), read_by_serde(bytes), "input {:02x?}", bytes);
        agreed += 1;
    }
    assert!(agreed > 300);
}

