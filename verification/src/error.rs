//! The ways in which a command can fail.

use vstd::prelude::*;

verus! {

/// Why a command failed. Every failure ends the call that met it: nothing
/// is retried.
#[derive(Debug)]
pub enum VkError {
    /// No attached device has the identifiers of the key.
    DeviceNotFound,
    /// The device was found behind a transport over which commands cannot
    /// be sent yet.
    TransportUnsupported,
    /// Opening the transport, writing to it or reading from it failed or
    /// timed out; the text says how.
    IoFailure(String),
    /// The reply is not the wire form of an envelope.
    DecodeFailure,
    /// The reply came, but its payload does not have the shape that the
    /// operation expects.
    ApplicationError,
    /// A name or a secret is longer than the 255 bytes that the length byte
    /// of a field can announce; nothing is sent.
    FieldTooLong,
}

/// The content of a [`VkError`].
pub enum Failure {
    DeviceNotFound,
    TransportUnsupported,
    IoFailure(Seq<char>),
    DecodeFailure,
    ApplicationError,
    FieldTooLong,
}

impl View for VkError {
    type V = Failure;

    open spec fn view(&self) -> Failure {
        match self {
            VkError::DeviceNotFound => Failure::DeviceNotFound,
            VkError::TransportUnsupported => Failure::TransportUnsupported,
            VkError::IoFailure(text) => Failure::IoFailure(text@),
            VkError::DecodeFailure => Failure::DecodeFailure,
            VkError::ApplicationError => Failure::ApplicationError,
            VkError::FieldTooLong => Failure::FieldTooLong,
        }
    }
}

/// The one message that a failure is reported with.
pub open spec fn failure_text(failure: Failure) -> Seq<char> {
    match failure {
        Failure::DeviceNotFound => "Device not found"@,
        Failure::TransportUnsupported => "HID transport not yet fully implemented for commands"@,
        Failure::IoFailure(text) => text,
        Failure::DecodeFailure => "Malformed response envelope"@,
        Failure::ApplicationError => "Invalid security status response"@,
        Failure::FieldTooLong => "Field longer than 255 bytes"@,
    }
}

impl VkError {
    /// The message to show for this failure.
    pub fn message(&self) -> (text: String)
        ensures
            text@ == failure_text(self@),
    {
        match self {
            VkError::DeviceNotFound => "Device not found".to_owned(),
            VkError::TransportUnsupported => {
                "HID transport not yet fully implemented for commands".to_owned()
            },
            VkError::IoFailure(text) => text.clone(),
            VkError::DecodeFailure => "Malformed response envelope".to_owned(),
            VkError::ApplicationError => "Invalid security status response".to_owned(),
            VkError::FieldTooLong => "Field longer than 255 bytes".to_owned(),
        }
    }
}

} // verus!
