//! Host-side driver logic for the VaultKey hardware security key.
//!
//! The crate holds everything the driver decides or computes: how a device is
//! picked among the attached USB endpoints, the wire form of the message
//! envelope, the payloads of the individual commands and the meaning of the
//! replies, and the derivation of key material from a PIN. Opening endpoints
//! and moving bytes is left to the caller.
//!
//! - [`usb`] picks the transport among what the enumerations report.
//! - [`protocol`] holds the envelope and its wire form, [`cbor`] the items
//!   that the wire form is made of.
//! - [`transport`] plans one exchange and reads its reply.
//! - [`commands`] builds the request of each command and reads its reply.
//! - [`kdf`] derives a key from a PIN.
//! - [`error`] names the ways in which a command fails.

pub mod cbor;
pub mod commands;
pub mod error;
pub mod kdf;
pub mod protocol;
pub mod transport;
pub mod usb;
