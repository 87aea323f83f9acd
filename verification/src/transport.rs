//! One exchange with the device: what is written to the transport and what
//! is made of the bytes read back.
//!
//! An exchange is one request and one reply. The caller opens the
//! transport, writes the frame, reads once and hands back what it read;
//! nothing is retried and nothing is put together from several reads.

use crate::error::{Failure, VkError};
use crate::protocol::{
    decode, envelope_bytes, lemma_round_trip, Envelope, VkMessage, PROTOCOL_VERSION,
};
use crate::usb::DeviceTransport;
use vstd::prelude::*;

verus! {

/// Speed of the serial line, in baud.
pub const BAUD_RATE: u32 = 115_200;

/// How long a write or a read may take, in milliseconds.
pub const IO_TIMEOUT_MS: u64 = 1000;

/// The size of the buffer that the one read of a reply fills at most.
pub const RESPONSE_BUFFER_LEN: usize = 256;

/// What the caller is to do for an exchange over a serial port: open
/// `port_name` at `baud_rate` with `timeout_ms` as the limit of each write
/// and read, write `frame`, and read once into a buffer of
/// `response_capacity` bytes.
#[derive(Debug)]
pub struct SerialExchange {
    /// Name of the serial port.
    pub port_name: String,
    /// Speed of the line.
    pub baud_rate: u32,
    /// Limit of each write and read, in milliseconds.
    pub timeout_ms: u64,
    /// The bytes to write.
    pub frame: Vec<u8>,
    /// The size of the read buffer.
    pub response_capacity: usize,
}

/// The envelope of a request.
pub open spec fn request_of(msg_type: u8, payload: Seq<u8>, id: u32) -> Envelope {
    Envelope { version: PROTOCOL_VERSION, msg_type, payload, id: Some(id) }
}

/// Whether `exchange` is the exchange that carries the request with the
/// given type, payload and correlation identifier over the serial port
/// `port_name`.
pub open spec fn is_exchange(
    exchange: SerialExchange,
    port_name: Seq<char>,
    msg_type: u8,
    payload: Seq<u8>,
    id: u32,
) -> bool {
    &&& exchange.port_name@ == port_name
    &&& exchange.baud_rate == BAUD_RATE
    &&& exchange.timeout_ms == IO_TIMEOUT_MS
    &&& exchange.response_capacity == RESPONSE_BUFFER_LEN
    &&& exchange.frame@ == envelope_bytes(request_of(msg_type, payload, id))
}

/// `rand::random` for `u32`: a number drawn from the generator of the
/// thread. Nothing is claimed of the number.
#[verifier::external_body]
fn random_id() -> u32 {
    rand::random()
}

/// The envelope of a request with the given correlation identifier.
pub fn request_envelope(msg_type: u8, payload: Vec<u8>, id: u32) -> (msg: VkMessage)
    ensures
        msg@ == request_of(msg_type, payload@, id),
{
    VkMessage { version: PROTOCOL_VERSION, msg_type, payload, id: Some(id) }
}

/// Plans the exchange that carries a request with the correlation
/// identifier `id`. Without a device there is nothing to plan, and over
/// HID no command can be sent yet.
pub fn plan_exchange(
    transport: Option<DeviceTransport>,
    msg_type: u8,
    payload: Vec<u8>,
    id: u32,
) -> (r: Result<SerialExchange, VkError>)
    ensures
        match transport {
            None => r is Err && r.unwrap_err()@ == Failure::DeviceNotFound,
            Some(DeviceTransport::Hid(_)) => r is Err && r.unwrap_err()@
                == Failure::TransportUnsupported,
            Some(DeviceTransport::Serial(name)) => r is Ok && is_exchange(
                r.unwrap(),
                name@,
                msg_type,
                payload@,
                id,
            ),
        },
{
    match transport {
        None => Err(VkError::DeviceNotFound),
        Some(DeviceTransport::Hid(_)) => Err(VkError::TransportUnsupported),
        Some(DeviceTransport::Serial(port_name)) => {
            let msg = request_envelope(msg_type, payload, id);
            Ok(
                SerialExchange {
                    port_name,
                    baud_rate: BAUD_RATE,
                    timeout_ms: IO_TIMEOUT_MS,
                    frame: msg.encode(),
                    response_capacity: RESPONSE_BUFFER_LEN,
                },
            )
        },
    }
}

/// Plans the exchange that carries a request, under a freshly drawn
/// correlation identifier.
pub fn begin_command(transport: Option<DeviceTransport>, msg_type: u8, payload: Vec<u8>) -> (r:
    Result<SerialExchange, VkError>)
    ensures
        match transport {
            None => r is Err && r.unwrap_err()@ == Failure::DeviceNotFound,
            Some(DeviceTransport::Hid(_)) => r is Err && r.unwrap_err()@
                == Failure::TransportUnsupported,
            Some(DeviceTransport::Serial(name)) => r is Ok && exists|id: u32|
                is_exchange(r.unwrap(), name@, msg_type, payload@, id),
        },
{
    let id = random_id();
    plan_exchange(transport, msg_type, payload, id)
}

/// Makes of the bytes that the one read gave the payload of the reply.
/// Whatever is not the wire form of one whole envelope is a failure.
pub fn finish_command(response: &[u8]) -> (r: Result<Vec<u8>, VkError>)
    ensures
        match r {
            Ok(payload) => decode(response@) is Some && payload@ == decode(
                response@,
            ).unwrap().payload,
            Err(e) => decode(response@) is None && e@ == Failure::DecodeFailure,
        },
{
    match VkMessage::from_cbor(response) {
        Ok(msg) => Ok(msg.payload),
        Err(_) => Err(VkError::DecodeFailure),
    }
}


/// What is written for a request reads back as that request: the frame of
/// a planned exchange is the wire form of an envelope with version 1, the
/// type and the payload of the request, and its correlation identifier.
pub proof fn lemma_frame_reads_back(
    exchange: SerialExchange,
    port_name: Seq<char>,
    msg_type: u8,
    payload: Seq<u8>,
    id: u32,
)
    requires
        payload.len() <= u64::MAX,
        is_exchange(exchange, port_name, msg_type, payload, id),
    ensures
        decode(exchange.frame@) == Some(request_of(msg_type, payload, id)),
{
    lemma_round_trip(request_of(msg_type, payload, id));
}

} // verus!
