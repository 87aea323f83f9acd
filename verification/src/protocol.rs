//! The message envelope exchanged with the device, and its wire form.
//!
//! On the wire an envelope is a CBOR map from field names to values: `v`
//! for the version, `type` for the operation code, `payload` for the
//! payload as an array of bytes, and `id` for the correlation identifier.
//! The writer puts the fields in this order, in the shortest form, and
//! leaves `id` out where there is none. The reader takes the fields in any
//! order and passes over fields that it does not know.

use crate::cbor::{
    byte_array_at, byte_array_bytes, byte_items, has_at, head_at, head_bytes, is_break, is_utf8,
    item_end, lemma_byte_items_round_trip, lemma_has_at_split, lemma_head_round_trip,
    lemma_text_round_trip, opens_indefinite, push_byte_array, push_head, push_text, range_equals,
    read_byte_array, read_head, read_text, read_uint, skip_item, text_at, text_bytes, uint_at,
    uint_bytes, Head, BREAK, INFO_INDEFINITE, MAJOR_ARRAY, MAJOR_MAP, MAJOR_UNSIGNED,
    MAX_NESTING,
};
use vstd::prelude::*;
use vstd::slice::slice_subrange;
use vstd::utf8::valid_utf8;

verus! {

/// Message type of a ping.
pub const MSG_PING: u8 = 0;

/// Message type of the reply to a ping.
pub const MSG_PONG: u8 = 1;

/// Message type of an authentication challenge.
pub const MSG_AUTH_CHALLENGE: u8 = 2;

/// Message type of the legacy vault listing request.
pub const MSG_VAULT_LIST_REQ: u8 = 4;

/// The protocol version that this driver speaks.
pub const PROTOCOL_VERSION: u8 = 1;

/// The unit of exchange with the device.
#[derive(Debug)]
pub struct VkMessage {
    /// Protocol version.
    pub version: u8,
    /// Operation code.
    pub msg_type: u8,
    /// Payload, whose meaning depends on the operation code.
    pub payload: Vec<u8>,
    /// Correlation identifier, present on requests.
    pub id: Option<u32>,
}

/// The mathematical content of a [`VkMessage`].
pub struct Envelope {
    pub version: u8,
    pub msg_type: u8,
    pub payload: Seq<u8>,
    pub id: Option<u32>,
}

impl View for VkMessage {
    type V = Envelope;

    open spec fn view(&self) -> Envelope {
        Envelope {
            version: self.version,
            msg_type: self.msg_type,
            payload: self.payload@,
            id: self.id,
        }
    }
}

/// Why an envelope could not be written. No envelope gives this error: it
/// stands in the signature for callers that treat encoding as fallible.
#[derive(Debug, Clone, Copy, PartialEq, Eq)]
pub struct EncodeError;

/// The input is not the wire form of an envelope: it is cut short, badly
/// structured, or holds a value of the wrong type for its field.
#[derive(Debug, Clone, Copy, PartialEq, Eq)]
pub struct DecodeError;

/// The payload of a ping: the ASCII letters `PING`.
pub open spec fn ping_payload() -> Seq<u8> {
    seq![0x50u8, 0x49u8, 0x4eu8, 0x47u8]
}

/// The initial byte of the null value, which stands for an absent
/// correlation identifier.
pub const NULL_BYTE: u8 = 0xf6;

/// The field name of the protocol version: `v`.
pub open spec fn key_version() -> Seq<u8> {
    seq![0x76u8]
}

/// The field name of the operation code: `type`.
pub open spec fn key_type() -> Seq<u8> {
    seq![0x74u8, 0x79u8, 0x70u8, 0x65u8]
}

/// The field name of the payload: `payload`.
pub open spec fn key_payload() -> Seq<u8> {
    seq![0x70u8, 0x61u8, 0x79u8, 0x6cu8, 0x6fu8, 0x61u8, 0x64u8]
}

/// The field name of the correlation identifier: `id`.
pub open spec fn key_id() -> Seq<u8> {
    seq![0x69u8, 0x64u8]
}

/// The wire form of the version field.
pub open spec fn version_field(version: u8) -> Seq<u8> {
    text_bytes(key_version()) + uint_bytes(version as u64)
}

/// The wire form of the operation code field.
pub open spec fn type_field(msg_type: u8) -> Seq<u8> {
    text_bytes(key_type()) + uint_bytes(msg_type as u64)
}

/// The wire form of the payload field.
pub open spec fn payload_field(payload: Seq<u8>) -> Seq<u8> {
    text_bytes(key_payload()) + byte_array_bytes(payload)
}

/// The wire form of the correlation identifier: the field where there is an
/// identifier, nothing at all where there is none.
pub open spec fn id_field(id: Option<u32>) -> Seq<u8> {
    match id {
        Some(id) => text_bytes(key_id()) + uint_bytes(id as u64),
        None => Seq::empty(),
    }
}

/// The number of fields that an envelope is written with.
pub open spec fn field_count(m: Envelope) -> u64 {
    if m.id is Some {
        4
    } else {
        3
    }
}

/// The wire form of an envelope: a map from field names to values, holding
/// version, operation code and payload, and after them the correlation
/// identifier where there is one.
pub open spec fn envelope_bytes(m: Envelope) -> Seq<u8> {
    head_bytes(MAJOR_MAP, field_count(m)) + (version_field(m.version) + (type_field(m.msg_type)
        + (payload_field(m.payload) + id_field(m.id))))
}

/// The fields met so far while reading an envelope.
pub struct Fields {
    pub version: Option<u8>,
    pub msg_type: Option<u8>,
    pub payload: Option<Seq<u8>>,
    pub id: Option<Option<u32>>,
}

/// No field met yet.
pub open spec fn no_fields() -> Fields {
    Fields { version: None, msg_type: None, payload: None, id: None }
}

/// The value of a correlation identifier at `pos`: null for none, else an
/// unsigned integer of at most 32 bits.
pub open spec fn id_at(s: Seq<u8>, pos: int) -> Option<(Option<u32>, int)> {
    if 0 <= pos < s.len() && s[pos] == NULL_BYTE {
        Some((None, pos + 1))
    } else {
        match uint_at(s, pos, 0xffff_ffff) {
            Some((v, next)) => Some((Some(v as u32), next)),
            None => None,
        }
    }
}

/// One field at `pos`, added to `acc`: a name, which is a text string, and
/// the value that belongs to it. A known name must not have been met
/// before and its value must have the type of the field; an unknown name
/// must be valid UTF-8, and the value under it is passed over.
pub open spec fn field_at(s: Seq<u8>, pos: int, acc: Fields) -> Option<(Fields, int)> {
    match text_at(s, pos) {
        None => None,
        Some((key, at)) => if key == key_version() {
            match uint_at(s, at, 0xff) {
                Some((v, next)) => if acc.version is None {
                    Some(
                        (
                            Fields {
                                version: Some(v as u8),
                                msg_type: acc.msg_type,
                                payload: acc.payload,
                                id: acc.id,
                            },
                            next,
                        ),
                    )
                } else {
                    None
                },
                None => None,
            }
        } else if key == key_type() {
            match uint_at(s, at, 0xff) {
                Some((v, next)) => if acc.msg_type is None {
                    Some(
                        (
                            Fields {
                                version: acc.version,
                                msg_type: Some(v as u8),
                                payload: acc.payload,
                                id: acc.id,
                            },
                            next,
                        ),
                    )
                } else {
                    None
                },
                None => None,
            }
        } else if key == key_payload() {
            match byte_array_at(s, at) {
                Some((bytes, next)) => if acc.payload is None {
                    Some(
                        (
                            Fields {
                                version: acc.version,
                                msg_type: acc.msg_type,
                                payload: Some(bytes),
                                id: acc.id,
                            },
                            next,
                        ),
                    )
                } else {
                    None
                },
                None => None,
            }
        } else if key == key_id() {
            match id_at(s, at) {
                Some((id, next)) => if acc.id is None {
                    Some(
                        (
                            Fields {
                                version: acc.version,
                                msg_type: acc.msg_type,
                                payload: acc.payload,
                                id: Some(id),
                            },
                            next,
                        ),
                    )
                } else {
                    None
                },
                None => None,
            }
        } else if valid_utf8(key) {
            match item_end(s, at, MAX_NESTING as nat) {
                Some(next) => Some((acc, next)),
                None => None,
            }
        } else {
            None
        },
    }
}

/// `count` fields from `pos` on, added to `acc`, and the offset after the
/// last of them.
pub open spec fn fields_at(s: Seq<u8>, pos: int, count: nat, acc: Fields) -> Option<(Fields, int)>
    decreases count,
{
    if count == 0 {
        Some((acc, pos))
    } else {
        match field_at(s, pos, acc) {
            Some((more, next)) => fields_at(s, next, (count - 1) as nat, more),
            None => None,
        }
    }
}

/// The envelope that the fields make up, if version, operation code and
/// payload were all met.
pub open spec fn envelope_of(f: Fields) -> Option<Envelope> {
    if f.version is Some && f.msg_type is Some && f.payload is Some {
        Some(
            Envelope {
                version: f.version.unwrap(),
                msg_type: f.msg_type.unwrap(),
                payload: f.payload.unwrap(),
                id: match f.id {
                    Some(id) => id,
                    None => None,
                },
            },
        )
    } else {
        None
    }
}

/// Fields from `pos` on up to the break, added to `acc`, and the offset
/// after the break.
pub open spec fn fields_to_break(s: Seq<u8>, pos: int, acc: Fields) -> Option<(Fields, int)>
    decreases s.len() - pos,
{
    if is_break(s, pos) {
        Some((acc, pos + 1))
    } else {
        match field_at(s, pos, acc) {
            Some((more, next)) => if pos < next <= s.len() {
                fields_to_break(s, next, more)
            } else {
                None
            },
            None => None,
        }
    }
}

/// The fields of the map with which `s` starts, of definite or of
/// indefinite length, and the offset after the map.
pub open spec fn fields_of(s: Seq<u8>) -> Option<(Fields, int)> {
    match head_at(s, 0) {
        Some(h) => if h.major == MAJOR_MAP {
            fields_at(s, h.next, h.arg as nat, no_fields())
        } else {
            None
        },
        None => if opens_indefinite(s, 0, MAJOR_MAP) {
            fields_to_break(s, 1, no_fields())
        } else {
            None
        },
    }
}

/// The envelope that `s` is a wire form of, if it is one: a map whose
/// fields, in any order, give version, operation code and payload once
/// each and the correlation identifier at most once, with nothing after
/// the map.
pub open spec fn decode(s: Seq<u8>) -> Option<Envelope> {
    match fields_of(s) {
        Some((f, end)) => if end == s.len() {
            envelope_of(f)
        } else {
            None
        },
        None => None,
    }
}

/// The fields read so far while reading an envelope.
struct Partial {
    version: Option<u8>,
    msg_type: Option<u8>,
    payload: Option<Vec<u8>>,
    id: Option<Option<u32>>,
}

impl View for Partial {
    type V = Fields;

    closed spec fn view(&self) -> Fields {
        Fields {
            version: self.version,
            msg_type: self.msg_type,
            payload: match self.payload {
                Some(bytes) => Some(bytes@),
                None => None,
            },
            id: self.id,
        }
    }
}

/// Reads the field at `at` and adds it to `partial`.
fn read_field(data: &[u8], at: usize, partial: Partial) -> (r: Option<(Partial, usize)>)
    ensures
        match r {
            Some((more, next)) => next <= data.len() && field_at(data@, at as int, partial@)
                == Some((more@, next as int)),
            None => field_at(data@, at as int, partial@) is None,
        },
{
    let key_v: [u8; 1] = [0x76];
    let key_t: [u8; 4] = [0x74, 0x79, 0x70, 0x65];
    let key_p: [u8; 7] = [0x70, 0x61, 0x79, 0x6c, 0x6f, 0x61, 0x64];
    let key_i: [u8; 2] = [0x69, 0x64];
    assert(key_v@ =~= key_version());
    assert(key_t@ =~= key_type());
    assert(key_p@ =~= key_payload());
    assert(key_i@ =~= key_id());
    let mut partial = partial;
    let (from, to) = match read_text(data, at) {
        Some(range) => range,
        None => {
            return None;
        },
    };
    if range_equals(data, from, to, key_v.as_slice()) {
        match read_uint(data, to, 0xff) {
            Some((v, next)) => {
                if partial.version.is_some() {
                    return None;
                }
                partial.version = Some(v as u8);
                Some((partial, next))
            },
            None => None,
        }
    } else if range_equals(data, from, to, key_t.as_slice()) {
        match read_uint(data, to, 0xff) {
            Some((v, next)) => {
                if partial.msg_type.is_some() {
                    return None;
                }
                partial.msg_type = Some(v as u8);
                Some((partial, next))
            },
            None => None,
        }
    } else if range_equals(data, from, to, key_p.as_slice()) {
        match read_byte_array(data, to) {
            Some((bytes, next)) => {
                if partial.payload.is_some() {
                    return None;
                }
                partial.payload = Some(bytes);
                Some((partial, next))
            },
            None => None,
        }
    } else if range_equals(data, from, to, key_i.as_slice()) {
        if to < data.len() && data[to] == NULL_BYTE {
            if partial.id.is_some() {
                return None;
            }
            partial.id = Some(None);
            Some((partial, to + 1))
        } else {
            match read_uint(data, to, 0xffff_ffff) {
                Some((v, next)) => {
                    if partial.id.is_some() {
                        return None;
                    }
                    partial.id = Some(Some(v as u32));
                    Some((partial, next))
                },
                None => None,
            }
        }
    } else {
        if !is_utf8(slice_subrange(data, from, to)) {
            return None;
        }
        match skip_item(data, to, MAX_NESTING) {
            Some(next) => Some((partial, next)),
            None => None,
        }
    }
}

/// Reads the fields of the map with which `data` starts.
fn read_fields(data: &[u8]) -> (r: Option<(Partial, usize)>)
    ensures
        match r {
            Some((fields, end)) => end <= data.len() && fields_of(data@) == Some(
                (fields@, end as int),
            ),
            None => fields_of(data@) is None,
        },
{
    let mut partial = Partial { version: None, msg_type: None, payload: None, id: None };
    match read_head(data, 0) {
        Some((major, count, start)) => {
            if major != MAJOR_MAP {
                return None;
            }
            let mut at: usize = start;
            let mut i: u64 = 0;
            while i < count
                invariant
                    i <= count,
                    at <= data.len(),
                    head_at(data@, 0) == Some(
                        Head { major: MAJOR_MAP, arg: count, next: start as int },
                    ),
                    fields_at(data@, start as int, count as nat, no_fields()) == fields_at(
                        data@,
                        at as int,
                        (count - i) as nat,
                        partial@,
                    ),
                decreases count - i,
            {
                match read_field(data, at, partial) {
                    Some((more, next)) => {
                        partial = more;
                        at = next;
                    },
                    None => {
                        return None;
                    },
                }
                i += 1;
            }
            Some((partial, at))
        },
        None => {
            if !(0 < data.len() && data[0] == MAJOR_MAP * 32 + INFO_INDEFINITE) {
                return None;
            }
            let mut at: usize = 1;
            loop
                invariant
                    at <= data.len(),
                    head_at(data@, 0) is None,
                    opens_indefinite(data@, 0, MAJOR_MAP),
                    fields_to_break(data@, 1, no_fields()) == fields_to_break(
                        data@,
                        at as int,
                        partial@,
                    ),
                decreases data.len() - at,
            {
                if at < data.len() && data[at] == BREAK {
                    return Some((partial, at + 1));
                }
                match read_field(data, at, partial) {
                    Some((more, next)) => {
                        if next <= at {
                            return None;
                        }
                        partial = more;
                        at = next;
                    },
                    None => {
                        return None;
                    },
                }
            }
        },
    }
}

impl VkMessage {
    /// A ping request with correlation identifier `id`.
    pub fn new_ping(id: u32) -> (msg: Self)
        ensures
            msg@ == (Envelope {
                version: PROTOCOL_VERSION,
                msg_type: MSG_PING,
                payload: ping_payload(),
                id: Some(id),
            }),
    {
        let mut payload: Vec<u8> = Vec::new();
        payload.push(0x50);
        payload.push(0x49);
        payload.push(0x4e);
        payload.push(0x47);
        assert(payload@ =~= ping_payload());
        VkMessage { version: PROTOCOL_VERSION, msg_type: MSG_PING, payload, id: Some(id) }
    }

    /// The wire form of the envelope. The correlation identifier is left
    /// out where there is none.
    pub fn encode(&self) -> (bytes: Vec<u8>)
        ensures
            bytes@ == envelope_bytes(self@),
    {
        let key_v: [u8; 1] = [0x76];
        let key_t: [u8; 4] = [0x74, 0x79, 0x70, 0x65];
        let key_p: [u8; 7] = [0x70, 0x61, 0x79, 0x6c, 0x6f, 0x61, 0x64];
        let key_i: [u8; 2] = [0x69, 0x64];
        assert(key_v@ =~= key_version());
        assert(key_t@ =~= key_type());
        assert(key_p@ =~= key_payload());
        assert(key_i@ =~= key_id());
        let mut out: Vec<u8> = Vec::new();
        let count: u64 = if self.id.is_some() {
            4
        } else {
            3
        };
        push_head(&mut out, MAJOR_MAP, count);
        push_text(&mut out, key_v.as_slice());
        push_head(&mut out, MAJOR_UNSIGNED, self.version as u64);
        push_text(&mut out, key_t.as_slice());
        push_head(&mut out, MAJOR_UNSIGNED, self.msg_type as u64);
        push_text(&mut out, key_p.as_slice());
        push_byte_array(&mut out, self.payload.as_slice());
        match self.id {
            Some(id) => {
                push_text(&mut out, key_i.as_slice());
                push_head(&mut out, MAJOR_UNSIGNED, id as u64);
            },
            None => {},
        }
        assert(out@ =~= envelope_bytes(self@));
        out
    }

    /// The wire form of the envelope, for callers that treat encoding as
    /// fallible. Every envelope has a wire form, so the result is always
    /// `Ok`.
    pub fn to_cbor(&self) -> (r: Result<Vec<u8>, EncodeError>)
        ensures
            r is Ok,
            r.unwrap()@ == envelope_bytes(self@),
    {
        Ok(self.encode())
    }

    /// Reads an envelope from its wire form.
    pub fn from_cbor(data: &[u8]) -> (r: Result<Self, DecodeError>)
        ensures
            match r {
                Ok(msg) => decode(data@) == Some(msg@),
                Err(_) => decode(data@) is None,
            },
    {
        let (fields, end) = match read_fields(data) {
            Some(read) => read,
            None => {
                return Err(DecodeError);
            },
        };
        if end != data.len() {
            return Err(DecodeError);
        }
        match (fields.version, fields.msg_type, fields.payload) {
            (Some(version), Some(msg_type), Some(payload)) => {
                let id: Option<u32> = match fields.id {
                    Some(id) => id,
                    None => None,
                };
                Ok(VkMessage { version, msg_type, payload, id })
            },
            _ => Err(DecodeError),
        }
    }
}

/// A field that holds one byte under `key` reads back as that name and
/// that byte.
proof fn lemma_byte_field(s: Seq<u8>, pos: int, key: Seq<u8>, v: u8)
    requires
        key.len() < 24,
        has_at(s, pos, text_bytes(key) + uint_bytes(v as u64)),
    ensures
        text_at(s, pos) == Some((key, pos + 1 + key.len())),
        uint_at(s, pos + 1 + key.len(), 0xff) == Some(
            (v as u64, pos + (text_bytes(key) + uint_bytes(v as u64)).len()),
        ),
{
    lemma_has_at_split(s, pos, text_bytes(key), uint_bytes(v as u64));
    lemma_text_round_trip(s, pos, key);
    lemma_head_round_trip(s, pos + text_bytes(key).len(), MAJOR_UNSIGNED, v as u64);
}

/// The four field names differ from one another.
proof fn lemma_keys_differ()
    ensures
        key_type() != key_version(),
        key_payload() != key_version(),
        key_payload() != key_type(),
        key_id() != key_version(),
        key_id() != key_type(),
        key_id() != key_payload(),
{
    assert(key_version().len() == 1);
    assert(key_id().len() == 2);
    assert(key_type().len() == 4);
    assert(key_payload().len() == 7);
}

/// The version field is read as such.
proof fn lemma_version_step(s: Seq<u8>, pos: int, version: u8, acc: Fields)
    requires
        acc.version is None,
        has_at(s, pos, version_field(version)),
    ensures
        field_at(s, pos, acc) == Some(
            (
                Fields {
                    version: Some(version),
                    msg_type: acc.msg_type,
                    payload: acc.payload,
                    id: acc.id,
                },
                pos + version_field(version).len(),
            ),
        ),
{
    lemma_byte_field(s, pos, key_version(), version);
}

/// The operation code field is read as such.
proof fn lemma_type_step(s: Seq<u8>, pos: int, msg_type: u8, acc: Fields)
    requires
        acc.msg_type is None,
        has_at(s, pos, type_field(msg_type)),
    ensures
        field_at(s, pos, acc) == Some(
            (
                Fields {
                    version: acc.version,
                    msg_type: Some(msg_type),
                    payload: acc.payload,
                    id: acc.id,
                },
                pos + type_field(msg_type).len(),
            ),
        ),
{
    lemma_keys_differ();
    lemma_byte_field(s, pos, key_type(), msg_type);
}

/// The payload field is read as such.
proof fn lemma_payload_step(s: Seq<u8>, pos: int, payload: Seq<u8>, acc: Fields)
    requires
        acc.payload is None,
        payload.len() <= u64::MAX,
        has_at(s, pos, payload_field(payload)),
    ensures
        field_at(s, pos, acc) == Some(
            (
                Fields {
                    version: acc.version,
                    msg_type: acc.msg_type,
                    payload: Some(payload),
                    id: acc.id,
                },
                pos + payload_field(payload).len(),
            ),
        ),
{
    lemma_keys_differ();
    let head = head_bytes(MAJOR_ARRAY, payload.len() as u64);
    lemma_has_at_split(s, pos, text_bytes(key_payload()), byte_array_bytes(payload));
    lemma_text_round_trip(s, pos, key_payload());
    lemma_has_at_split(s, pos + 8, head, byte_items(payload));
    lemma_head_round_trip(s, pos + 8, MAJOR_ARRAY, payload.len() as u64);
    lemma_byte_items_round_trip(s, pos + 8 + head.len(), payload, Seq::empty());
    assert(Seq::<u8>::empty() + payload =~= payload);
}

/// The identifier field is read as such.
proof fn lemma_id_step(s: Seq<u8>, pos: int, id: u32, acc: Fields)
    requires
        acc.id is None,
        has_at(s, pos, id_field(Some(id))),
    ensures
        field_at(s, pos, acc) == Some(
            (
                Fields {
                    version: acc.version,
                    msg_type: acc.msg_type,
                    payload: acc.payload,
                    id: Some(Some(id)),
                },
                pos + id_field(Some(id)).len(),
            ),
        ),
{
    lemma_keys_differ();
    lemma_has_at_split(s, pos, text_bytes(key_id()), uint_bytes(id as u64));
    lemma_text_round_trip(s, pos, key_id());
    lemma_head_round_trip(s, pos + 3, MAJOR_UNSIGNED, id as u64);
}

/// The fields of an envelope, as they are written, are read back one by
/// one.
proof fn lemma_fields_round_trip(s: Seq<u8>, pos: int, m: Envelope)
    requires
        m.payload.len() <= u64::MAX,
        has_at(
            s,
            pos,
            version_field(m.version) + (type_field(m.msg_type) + (payload_field(m.payload)
                + id_field(m.id))),
        ),
    ensures
        ({
            let total = version_field(m.version).len() + type_field(m.msg_type).len()
                + payload_field(m.payload).len() + id_field(m.id).len();
            match fields_at(s, pos, field_count(m) as nat, no_fields()) {
                Some((f, end)) => end == pos + total && envelope_of(f) == Some(m),
                None => false,
            }
        }),
{
    let f1 = version_field(m.version);
    let f2 = type_field(m.msg_type);
    let f3 = payload_field(m.payload);
    let f4 = id_field(m.id);
    let at_type = pos + f1.len();
    let at_payload = at_type + f2.len();
    let at_id = at_payload + f3.len();
    let a0 = no_fields();
    let a1 = Fields { version: Some(m.version), msg_type: None, payload: None, id: None };
    let a2 = Fields {
        version: Some(m.version),
        msg_type: Some(m.msg_type),
        payload: None,
        id: None,
    };
    let a3 = Fields {
        version: Some(m.version),
        msg_type: Some(m.msg_type),
        payload: Some(m.payload),
        id: None,
    };
    lemma_has_at_split(s, pos, f1, f2 + (f3 + f4));
    lemma_has_at_split(s, at_type, f2, f3 + f4);
    lemma_has_at_split(s, at_payload, f3, f4);
    lemma_version_step(s, pos, m.version, a0);
    lemma_type_step(s, at_type, m.msg_type, a1);
    lemma_payload_step(s, at_payload, m.payload, a2);
    match m.id {
        Some(id) => {
            let a4 = Fields {
                version: Some(m.version),
                msg_type: Some(m.msg_type),
                payload: Some(m.payload),
                id: Some(Some(id)),
            };
            let end = at_id + f4.len();
            lemma_id_step(s, at_id, id, a3);
            assert(fields_at(s, end, 0, a4) == Some((a4, end)));
            assert(fields_at(s, at_id, 1, a3) == Some((a4, end)));
            assert(fields_at(s, at_payload, 2, a2) == Some((a4, end)));
            assert(fields_at(s, at_type, 3, a1) == Some((a4, end)));
            assert(fields_at(s, pos, 4, a0) == Some((a4, end)));
        },
        None => {
            assert(fields_at(s, at_id, 0, a3) == Some((a3, at_id)));
            assert(fields_at(s, at_payload, 1, a2) == Some((a3, at_id)));
            assert(fields_at(s, at_type, 2, a1) == Some((a3, at_id)));
            assert(fields_at(s, pos, 3, a0) == Some((a3, at_id)));
        },
    }
}

/// Encoding and decoding are inverse to each other on every envelope:
/// the wire form of an envelope decodes to that envelope, so that encoding
/// what was decoded gives the same bytes again. This holds with and without
/// a correlation identifier; an absent identifier takes no byte of the
/// wire form, which then holds three fields.
pub proof fn lemma_round_trip(m: Envelope)
    requires
        m.payload.len() <= u64::MAX,
    ensures
        decode(envelope_bytes(m)) == Some(m),
        envelope_bytes(decode(envelope_bytes(m)).unwrap()) == envelope_bytes(m),
        m.id is None ==> id_field(m.id).len() == 0 && field_count(m) == 3,
{
    let s = envelope_bytes(m);
    let head = head_bytes(MAJOR_MAP, field_count(m));
    let rest = version_field(m.version) + (type_field(m.msg_type) + (payload_field(m.payload)
        + id_field(m.id)));
    assert(s.subrange(0, s.len() as int) =~= s);
    lemma_has_at_split(s, 0, head, rest);
    lemma_head_round_trip(s, 0, MAJOR_MAP, field_count(m));
    lemma_fields_round_trip(s, head.len() as int, m);
}


/// The wire form of an envelope stands alone: with anything behind it, it
/// is rejected.
pub proof fn lemma_trailing_bytes_are_rejected(m: Envelope, tail: Seq<u8>)
    requires
        m.payload.len() <= u64::MAX,
        tail.len() > 0,
    ensures
        decode(envelope_bytes(m) + tail) is None,
{
    let wire = envelope_bytes(m);
    let s = wire + tail;
    let head = head_bytes(MAJOR_MAP, field_count(m));
    let rest = version_field(m.version) + (type_field(m.msg_type) + (payload_field(m.payload)
        + id_field(m.id)));
    assert(s.subrange(0, wire.len() as int) =~= wire);
    lemma_has_at_split(s, 0, head, rest);
    lemma_head_round_trip(s, 0, MAJOR_MAP, field_count(m));
    lemma_fields_round_trip(s, head.len() as int, m);
}

/// Nothing but a map is the wire form of an envelope: whatever starts with
/// another byte than the opening of a map is rejected.
pub proof fn lemma_decode_needs_a_map(s: Seq<u8>)
    ensures
        decode(s) is Some ==> s.len() > 0 && s[0] / 32 == MAJOR_MAP,
{
}

} // verus!
