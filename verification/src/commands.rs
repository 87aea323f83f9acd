//! The commands of the device: what each one sends and what its reply
//! means.
//!
//! Payloads are positional and minimal, because the firmware reads them at
//! fixed places. A name or a secret travels as a length-prefixed field: one
//! byte that gives the length, then the bytes themselves.

use crate::error::{Failure, VkError};
use vstd::prelude::*;
use vstd::slice::{slice_subrange, slice_to_vec};
use vstd::string::StringSliceAdditionalSpecFns;
use vstd::utf8::{decode_utf8, valid_utf8};

verus! {

/// Message type of the request for a one-time code.
pub const VK_MSG_TOTP_REQ: u8 = 12;

/// Message type of the request to type a text as keystrokes.
pub const VK_MSG_KEYB_TYPE_REQ: u8 = 14;

/// Message type of the request for the security status.
pub const VK_MSG_GET_SECURITY_REQ: u8 = 16;

/// Message type of the request for the names of the vault entries.
pub const VK_MSG_VAULT_LIST_REQ: u8 = 20;

/// Message type of the request for the secret of a vault entry.
pub const VK_MSG_VAULT_GET_REQ: u8 = 22;

/// Message type of the request to add a vault entry.
pub const VK_MSG_VAULT_ADD_REQ: u8 = 24;

/// Message type of the request to delete a vault entry.
pub const VK_MSG_VAULT_DEL_REQ: u8 = 26;

/// The length of a security status reply that is read: four bytes of
/// failure count and one byte of lock flag.
pub const SECURITY_STATUS_LEN: usize = 5;

/// What a command sends: the message type and the payload of its request.
#[derive(Debug)]
pub struct Request {
    /// Message type.
    pub msg_type: u8,
    /// Payload.
    pub payload: Vec<u8>,
}

/// The most bytes that a length-prefixed field can hold: what one length
/// byte can announce.
pub const MAX_FIELD_LEN: usize = 255;

/// Whether `bytes` can travel as a length-prefixed field.
pub open spec fn fits_field(bytes: Seq<u8>) -> bool {
    bytes.len() <= MAX_FIELD_LEN
}

/// A length-prefixed field: the length of `bytes` in one byte, then
/// exactly that many bytes, those of `bytes`.
pub open spec fn length_prefixed(bytes: Seq<u8>) -> Seq<u8>
    recommends
        fits_field(bytes),
{
    seq![bytes.len() as u8] + bytes
}

/// The eight bytes of `value`, least significant byte first.
pub open spec fn le_bytes(value: u64) -> Seq<u8> {
    let r1 = value / 256;
    let r2 = r1 / 256;
    let r3 = r2 / 256;
    let r4 = r3 / 256;
    let r5 = r4 / 256;
    let r6 = r5 / 256;
    let r7 = r6 / 256;
    seq![
        (value % 256) as u8,
        (r1 % 256) as u8,
        (r2 % 256) as u8,
        (r3 % 256) as u8,
        (r4 % 256) as u8,
        (r5 % 256) as u8,
        (r6 % 256) as u8,
        (r7 % 256) as u8,
    ]
}

/// The failure count of a security status reply: its first four bytes,
/// least significant byte first.
pub open spec fn fail_count_of(reply: Seq<u8>) -> int {
    reply[0] + reply[1] * 0x100 + reply[2] * 0x1_0000 + reply[3] * 0x100_0000
}

/// The entries of a vault listing from offset `pos` on: length-prefixed
/// fields one after the other. The listing ends where the bytes end; an
/// entry that would reach beyond the end is dropped together with whatever
/// follows it.
pub open spec fn entries_from(reply: Seq<u8>, pos: int) -> Seq<Seq<u8>>
    decreases reply.len() - pos,
{
    if pos < 0 || pos >= reply.len() {
        Seq::empty()
    } else {
        let end = pos + 1 + reply[pos];
        if end > reply.len() {
            Seq::empty()
        } else {
            seq![reply.subrange(pos + 1, end)] + entries_from(reply, end)
        }
    }
}

/// The entries of a vault listing, as bytes.
pub open spec fn list_entries(reply: Seq<u8>) -> Seq<Seq<u8>> {
    entries_from(reply, 0)
}

/// The text that `bytes` stand for when read as UTF-8 with every invalid
/// sequence replaced by U+FFFD.
pub uninterp spec fn lossy_text(bytes: Seq<u8>) -> Seq<char>;

/// `String::from_utf8_lossy` of the standard library: reads bytes as UTF-8
/// and replaces what is not valid by U+FFFD. The result is named by
/// [`lossy_text`]; of valid UTF-8 it is the text that the bytes encode.
#[verifier::external_body]
fn utf8_lossy(bytes: &[u8]) -> (text: String)
    ensures
        text@ == lossy_text(bytes@),
        valid_utf8(bytes@) ==> text@ == decode_utf8(bytes@),
{
    String::from_utf8_lossy(bytes).into_owned()
}

/// Appends `bytes` as a length-prefixed field. More than 255 bytes do not
/// fit into a field: they are refused, and `payload` stays as it was.
pub fn push_length_prefixed(payload: &mut Vec<u8>, bytes: &[u8]) -> (r: Result<(), VkError>)
    ensures
        r is Ok <==> fits_field(bytes@),
        r is Ok ==> final(payload)@ == old(payload)@ + length_prefixed(bytes@),
        r matches Err(e) ==> e@ == Failure::FieldTooLong && final(payload)@ == old(payload)@,
{
    if bytes.len() > MAX_FIELD_LEN {
        return Err(VkError::FieldTooLong);
    }
    payload.push(bytes.len() as u8);
    payload.extend_from_slice(bytes);
    assert(final(payload)@ =~= old(payload)@ + length_prefixed(bytes@));
    Ok(())
}

/// The request of type `msg_type` whose payload is `name` as a
/// length-prefixed field.
fn name_request(msg_type: u8, name: &str) -> (r: Result<Request, VkError>)
    ensures
        r is Ok <==> fits_field(name.spec_bytes()),
        r matches Ok(request) ==> request.msg_type == msg_type && request.payload@
            == length_prefixed(name.spec_bytes()),
        r matches Err(e) ==> e@ == Failure::FieldTooLong,
{
    let mut payload: Vec<u8> = Vec::new();
    match push_length_prefixed(&mut payload, name.as_bytes()) {
        Ok(()) => {
            assert(payload@ =~= length_prefixed(name.spec_bytes()));
            Ok(Request { msg_type, payload })
        },
        Err(e) => Err(e),
    }
}

/// The request for the security status: no payload.
pub fn get_security_status_request() -> (request: Request)
    ensures
        request.msg_type == VK_MSG_GET_SECURITY_REQ,
        request.payload@ == Seq::<u8>::empty(),
{
    Request { msg_type: VK_MSG_GET_SECURITY_REQ, payload: Vec::new() }
}

/// Reads a security status reply: the count of failed attempts and whether
/// the device is locked. A reply of fewer than five bytes is rejected;
/// bytes after the fifth are not looked at.
pub fn parse_security_status(reply: &[u8]) -> (r: Result<(u32, bool), VkError>)
    ensures
        match r {
            Ok((fail_count, is_locked)) => reply.len() >= SECURITY_STATUS_LEN && fail_count
                == fail_count_of(reply@) && is_locked == (reply@[4] != 0),
            Err(e) => reply.len() < SECURITY_STATUS_LEN && e@ == Failure::ApplicationError,
        },
{
    if reply.len() < SECURITY_STATUS_LEN {
        return Err(VkError::ApplicationError);
    }
    let low: u32 = (reply[0] as u32) + (reply[1] as u32) * 0x100;
    let high: u32 = (reply[2] as u32) + (reply[3] as u32) * 0x100;
    let fail_count: u32 = low + high * 0x1_0000;
    let is_locked: bool = reply[4] != 0;
    Ok((fail_count, is_locked))
}

/// The request for the names of the vault entries: no payload.
pub fn list_vault_request() -> (request: Request)
    ensures
        request.msg_type == VK_MSG_VAULT_LIST_REQ,
        request.payload@ == Seq::<u8>::empty(),
{
    Request { msg_type: VK_MSG_VAULT_LIST_REQ, payload: Vec::new() }
}

/// Splits a vault listing into its entries. A cut-off last entry is
/// dropped; that is no error.
pub fn split_vault_list(reply: &[u8]) -> (entries: Vec<Vec<u8>>)
    ensures
        entries@.len() == list_entries(reply@).len(),
        forall|i: int| 0 <= i < entries@.len() ==> entries@[i]@ == list_entries(reply@)[i],
{
    let mut entries: Vec<Vec<u8>> = Vec::new();
    let mut offset: usize = 0;
    let ghost mut done: Seq<Seq<u8>> = Seq::empty();
    while offset < reply.len()
        invariant
            offset <= reply.len(),
            list_entries(reply@) == done + entries_from(reply@, offset as int),
            entries@.len() == done.len(),
            forall|i: int| 0 <= i < entries@.len() ==> entries@[i]@ == done[i],
        decreases reply.len() - offset,
    {
        let name_len: usize = reply[offset] as usize;
        if name_len > reply.len() - offset - 1 {
            assert(entries_from(reply@, offset as int) =~= Seq::<Seq<u8>>::empty());
            assert(done + Seq::<Seq<u8>>::empty() =~= done);
            return entries;
        }
        let start: usize = offset + 1;
        let end: usize = start + name_len;
        let entry: Vec<u8> = slice_to_vec(slice_subrange(reply, start, end));
        proof {
            let one = seq![reply@.subrange(start as int, end as int)];
            assert(done + (one + entries_from(reply@, end as int)) =~= done.push(one[0])
                + entries_from(reply@, end as int));
            done = done.push(one[0]);
        }
        entries.push(entry);
        offset = end;
    }
    assert(entries_from(reply@, offset as int) =~= Seq::<Seq<u8>>::empty());
    assert(done + Seq::<Seq<u8>>::empty() =~= done);
    entries
}

/// Reads each entry of a split vault listing as text.
pub fn entry_names(entries: &Vec<Vec<u8>>) -> (names: Vec<String>)
    ensures
        names@.len() == entries@.len(),
        forall|i: int| 0 <= i < names@.len() ==> names@[i]@ == lossy_text(entries@[i]@),
        forall|i: int|
            0 <= i < names@.len() && valid_utf8(entries@[i]@) ==> names@[i]@ == decode_utf8(
                entries@[i]@,
            ),
{
    let mut names: Vec<String> = Vec::new();
    let mut i: usize = 0;
    while i < entries.len()
        invariant
            i <= entries.len(),
            names@.len() == i,
            forall|j: int| 0 <= j < i ==> names@[j]@ == lossy_text(entries@[j]@),
            forall|j: int|
                0 <= j < i && valid_utf8(entries@[j]@) ==> names@[j]@ == decode_utf8(
                    entries@[j]@,
                ),
        decreases entries.len() - i,
    {
        names.push(utf8_lossy(entries[i].as_slice()));
        i += 1;
    }
    names
}

/// Reads a vault listing: the names of the entries, in the order of the
/// reply. A cut-off last entry is dropped; that is no error.
pub fn parse_vault_list(reply: &[u8]) -> (names: Vec<String>)
    ensures
        names@.len() == list_entries(reply@).len(),
        forall|i: int| 0 <= i < names@.len() ==> names@[i]@ == lossy_text(list_entries(reply@)[i]),
        forall|i: int|
            0 <= i < names@.len() && valid_utf8(list_entries(reply@)[i]) ==> names@[i]@
                == decode_utf8(list_entries(reply@)[i]),
{
    let entries = split_vault_list(reply);
    entry_names(&entries)
}

/// The request to add a vault entry: the name and the secret, each as a
/// length-prefixed field. A name or a secret of more than 255 bytes is
/// refused.
pub fn add_vault_entry_request(name: &str, secret: &str) -> (r: Result<Request, VkError>)
    ensures
        r is Ok <==> fits_field(name.spec_bytes()) && fits_field(secret.spec_bytes()),
        r matches Ok(request) ==> request.msg_type == VK_MSG_VAULT_ADD_REQ && request.payload@
            == length_prefixed(name.spec_bytes()) + length_prefixed(secret.spec_bytes()),
        r matches Err(e) ==> e@ == Failure::FieldTooLong,
{
    let mut payload: Vec<u8> = Vec::new();
    match push_length_prefixed(&mut payload, name.as_bytes()) {
        Ok(()) => {},
        Err(e) => {
            return Err(e);
        },
    }
    match push_length_prefixed(&mut payload, secret.as_bytes()) {
        Ok(()) => {},
        Err(e) => {
            return Err(e);
        },
    }
    assert(payload@ =~= length_prefixed(name.spec_bytes()) + length_prefixed(secret.spec_bytes()));
    Ok(Request { msg_type: VK_MSG_VAULT_ADD_REQ, payload })
}

/// The request to type `text` as keystrokes: the bytes of the text.
pub fn type_text_request(text: &str) -> (request: Request)
    ensures
        request.msg_type == VK_MSG_KEYB_TYPE_REQ,
        request.payload@ == text.spec_bytes(),
{
    Request { msg_type: VK_MSG_KEYB_TYPE_REQ, payload: slice_to_vec(text.as_bytes()) }
}

/// The request for the secret of the vault entry `name`: the name as a
/// length-prefixed field. A name of more than 255 bytes is refused.
pub fn get_vault_secret_request(name: &str) -> (r: Result<Request, VkError>)
    ensures
        r is Ok <==> fits_field(name.spec_bytes()),
        r matches Ok(request) ==> request.msg_type == VK_MSG_VAULT_GET_REQ && request.payload@
            == length_prefixed(name.spec_bytes()),
        r matches Err(e) ==> e@ == Failure::FieldTooLong,
{
    name_request(VK_MSG_VAULT_GET_REQ, name)
}

/// The request to delete the vault entry `name`: the name as a
/// length-prefixed field. A name of more than 255 bytes is refused.
pub fn delete_vault_entry_request(name: &str) -> (r: Result<Request, VkError>)
    ensures
        r is Ok <==> fits_field(name.spec_bytes()),
        r matches Ok(request) ==> request.msg_type == VK_MSG_VAULT_DEL_REQ && request.payload@
            == length_prefixed(name.spec_bytes()),
        r matches Err(e) ==> e@ == Failure::FieldTooLong,
{
    name_request(VK_MSG_VAULT_DEL_REQ, name)
}

/// The request for a one-time code at `unix_time`, the seconds since the
/// Unix epoch: the time in eight bytes, least significant byte first.
pub fn get_totp_request(unix_time: u64) -> (request: Request)
    ensures
        request.msg_type == VK_MSG_TOTP_REQ,
        request.payload@ == le_bytes(unix_time),
{
    let mut payload: Vec<u8> = Vec::new();
    payload.push((unix_time % 256) as u8);
    let r1: u64 = unix_time / 256;
    payload.push((r1 % 256) as u8);
    let r2: u64 = r1 / 256;
    payload.push((r2 % 256) as u8);
    let r3: u64 = r2 / 256;
    payload.push((r3 % 256) as u8);
    let r4: u64 = r3 / 256;
    payload.push((r4 % 256) as u8);
    let r5: u64 = r4 / 256;
    payload.push((r5 % 256) as u8);
    let r6: u64 = r5 / 256;
    payload.push((r6 % 256) as u8);
    let r7: u64 = r6 / 256;
    payload.push((r7 % 256) as u8);
    assert(payload@ =~= le_bytes(unix_time));
    Request { msg_type: VK_MSG_TOTP_REQ, payload }
}

/// Reads a reply that is text as a whole: the secret of a vault entry, or
/// a one-time code. Bytes that are not valid UTF-8 are replaced, not
/// rejected.
pub fn parse_text_reply(reply: &[u8]) -> (text: String)
    ensures
        text@ == lossy_text(reply@),
        valid_utf8(reply@) ==> text@ == decode_utf8(reply@),
{
    utf8_lossy(reply)
}


/// Length-prefixed fields one after the other.
pub open spec fn fields_bytes(fields: Seq<Seq<u8>>) -> Seq<u8>
    decreases fields.len(),
{
    if fields.len() == 0 {
        Seq::empty()
    } else {
        length_prefixed(fields[0]) + fields_bytes(fields.drop_first())
    }
}

/// Whether `tail` is nothing, or the start of an entry that is cut off
/// before its end.
pub open spec fn is_cut_off(tail: Seq<u8>) -> bool {
    tail.len() > 0 ==> 1 + tail[0] > tail.len()
}

/// Entries of at most 255 bytes each, written as length-prefixed fields
/// behind `before`, are read back from there as they were written, and a
/// cut-off entry behind them is dropped.
proof fn lemma_entries_behind(before: Seq<u8>, entries: Seq<Seq<u8>>, tail: Seq<u8>)
    requires
        forall|i: int| 0 <= i < entries.len() ==> fits_field(#[trigger] entries[i]),
        is_cut_off(tail),
    ensures
        entries_from(before + fields_bytes(entries) + tail, before.len() as int) == entries,
    decreases entries.len(),
{
    let s = before + fields_bytes(entries) + tail;
    let pos = before.len() as int;
    if entries.len() == 0 {
        assert(s =~= before + tail);
        if tail.len() > 0 {
            assert(s[pos] == tail[0]);
        }
        assert(entries_from(s, pos) =~= entries);
    } else {
        let first = entries[0];
        let rest = entries.drop_first();
        let field = length_prefixed(first);
        let end = pos + 1 + first.len();
        assert(fits_field(first));
        assert(s =~= (before + field) + fields_bytes(rest) + tail);
        assert(s[pos] == field[0]);
        assert(s.subrange(pos + 1, end) =~= first);
        assert forall|i: int| 0 <= i < rest.len() implies fits_field(#[trigger] rest[i]) by {
            assert(rest[i] == entries[i + 1]);
        }
        lemma_entries_behind(before + field, rest, tail);
        assert(seq![first] + rest =~= entries);
    }
}

/// A vault listing is read back as it was written: entries of at most 255
/// bytes each, written as length-prefixed fields, come out in their order,
/// and a cut-off entry behind them is dropped without an error.
pub proof fn lemma_list_round_trip(entries: Seq<Seq<u8>>, tail: Seq<u8>)
    requires
        forall|i: int| 0 <= i < entries.len() ==> fits_field(#[trigger] entries[i]),
        is_cut_off(tail),
    ensures
        list_entries(fields_bytes(entries) + tail) == entries,
{
    lemma_entries_behind(Seq::empty(), entries, tail);
    assert(Seq::<u8>::empty() + fields_bytes(entries) + tail =~= fields_bytes(entries) + tail);
}

} // verus!
