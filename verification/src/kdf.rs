//! Key material from a PIN.
//!
//! The key is the Argon2id hash of the PIN under a salt, with fixed work
//! parameters. Where the hash refuses its input, the caller gets the text
//! of the refusal. The PIN and the buffer that the hash is computed in are
//! wiped before the function returns, on every path.

use vstd::prelude::*;
use vstd::slice::slice_to_vec;
use vstd::utf8::encode_utf8;

verus! {

/// Memory cost of the derivation, in KiB.
pub const KDF_MEMORY_KIB: u32 = 2048;

/// Number of passes of the derivation.
pub const KDF_ITERATIONS: u32 = 3;

/// Degree of parallelism of the derivation.
pub const KDF_LANES: u32 = 1;

/// Length of the derived key, in bytes.
pub const KEY_LEN: usize = 32;

/// The shortest salt that the derivation takes, in bytes.
pub const MIN_SALT_LEN: usize = 8;

/// The longest password and the longest salt that the derivation takes, in
/// bytes.
pub const MAX_INPUT_LEN: usize = 0xffff_ffff;

/// The Argon2id hash (version 0x13, no secret, no associated data) of
/// `password` under `salt`, of `len` bytes, with memory cost `m_cost` KiB,
/// `t_cost` passes and `p_cost` lanes.
pub uninterp spec fn argon2id_hash(
    password: Seq<u8>,
    salt: Seq<u8>,
    m_cost: u32,
    t_cost: u32,
    p_cost: u32,
    len: nat,
) -> Seq<u8>;

/// Whether the hash takes `password` and `salt`: the salt has at least 8
/// bytes, and neither is longer than 2^32 - 1 bytes.
pub open spec fn hashable(password: Seq<u8>, salt: Seq<u8>) -> bool {
    password.len() <= MAX_INPUT_LEN && MIN_SALT_LEN <= salt.len() <= MAX_INPUT_LEN
}

/// The text with which the hash refuses `password` and `salt`, where it
/// does not take them: the password is looked at first, then the salt for
/// being too short, then for being too long.
pub open spec fn hash_refusal(password: Seq<u8>, salt: Seq<u8>) -> Seq<char> {
    if password.len() > MAX_INPUT_LEN {
        "password is too long"@
    } else if salt.len() < MIN_SALT_LEN {
        "salt is too short"@
    } else {
        "salt is too long"@
    }
}

/// `Argon2::hash_password_into` of the crate argon2, on a context made by
/// `Argon2::new` for Argon2id in version 0x13 from the parameters that
/// `Params::new` makes of the three costs and the length of `out`; an
/// error is handed back as the text that its `to_string` gives. The costs
/// asked for are those that `Params::new` accepts. The call fills `out`
/// with the hash, which [`argon2id_hash`] names, and fails exactly where
/// the password is longer than 2^32 - 1 bytes or the salt is shorter than
/// 8 or longer than 2^32 - 1 bytes, with the text that [`hash_refusal`]
/// gives for the first of these that holds.
#[verifier::external_body]
fn argon2id_into(
    password: &[u8],
    salt: &[u8],
    m_cost: u32,
    t_cost: u32,
    p_cost: u32,
    out: &mut Vec<u8>,
) -> (r: Result<(), String>)
    requires
        8 <= m_cost,
        8 * p_cost <= m_cost,
        1 <= t_cost,
        1 <= p_cost <= 0xff_ffff,
        4 <= old(out).len() <= 64,
    ensures
        r is Ok <==> hashable(password@, salt@),
        r is Ok ==> final(out)@.len() == old(out)@.len(),
        r is Ok ==> final(out)@ == argon2id_hash(
            password@,
            salt@,
            m_cost,
            t_cost,
            p_cost,
            old(out)@.len(),
        ),
        r matches Err(text) ==> text@ == hash_refusal(password@, salt@),
{
    let params = match argon2::Params::new(m_cost, t_cost, p_cost, Some(out.len())) {
        Ok(params) => params,
        Err(error) => return Err(error.to_string()),
    };
    let context = argon2::Argon2::new(argon2::Algorithm::Argon2id, argon2::Version::V0x13, params);
    match context.hash_password_into(password, salt, out.as_mut_slice()) {
        Ok(()) => Ok(()),
        Err(error) => Err(error.to_string()),
    }
}

/// `Zeroize::zeroize` of the crate zeroize on a `String`: overwrites the
/// bytes of the text with zeros and leaves the text empty.
#[verifier::external_body]
fn wipe_text(text: &mut String)
    ensures
        final(text)@ == Seq::<char>::empty(),
{
    zeroize::Zeroize::zeroize(text)
}

/// `Zeroize::zeroize` of the crate zeroize on a `Vec<u8>`: overwrites the
/// bytes with zeros and leaves the vector empty.
#[verifier::external_body]
fn wipe_bytes(bytes: &mut Vec<u8>)
    ensures
        final(bytes)@ == Seq::<u8>::empty(),
{
    zeroize::Zeroize::zeroize(bytes)
}

/// Whether a key can be derived from `pin` under `salt`: the hash takes
/// the UTF-8 bytes of the PIN and the salt.
pub open spec fn derivable(pin: Seq<char>, salt: Seq<u8>) -> bool {
    hashable(encode_utf8(pin), salt)
}

/// The key derived from `pin` under `salt`.
pub open spec fn derived_key(pin: Seq<char>, salt: Seq<u8>) -> Seq<u8> {
    argon2id_hash(
        encode_utf8(pin),
        salt,
        KDF_MEMORY_KIB,
        KDF_ITERATIONS,
        KDF_LANES,
        KEY_LEN as nat,
    )
}

/// The text with which the derivation refuses `pin` and `salt`, where no
/// key can be derived from them.
pub open spec fn derivation_refusal(pin: Seq<char>, salt: Seq<u8>) -> Seq<char> {
    hash_refusal(encode_utf8(pin), salt)
}

/// What the derivation gives for `pin` and `salt`: the key, or the text
/// of the refusal.
pub open spec fn derivation(pin: Seq<char>, salt: Seq<u8>) -> Result<Seq<u8>, Seq<char>> {
    if derivable(pin, salt) {
        Ok(derived_key(pin, salt))
    } else {
        Err(derivation_refusal(pin, salt))
    }
}

/// The content of what a derivation returned.
pub open spec fn outcome(r: Result<Vec<u8>, String>) -> Result<Seq<u8>, Seq<char>> {
    match r {
        Ok(key) => Ok(key@),
        Err(text) => Err(text@),
    }
}

/// Derives a key of 32 bytes from the PIN in `pin` under `salt`, working
/// in `scratch`. Both the PIN and the scratch buffer are wiped before the
/// function returns, on every path, and left empty. Where the derivation
/// refuses its input, the result is the text of the refusal.
pub fn derive_key_in_place(pin: &mut String, salt: &[u8], scratch: &mut Vec<u8>) -> (r: Result<
    Vec<u8>,
    String,
>)
    ensures
        final(pin)@ == Seq::<char>::empty(),
        final(scratch)@ == Seq::<u8>::empty(),
        outcome(r) == derivation(old(pin)@, salt@),
        r matches Ok(key) ==> key@.len() == KEY_LEN,
{
    scratch.clear();
    let mut i: usize = 0;
    while i < KEY_LEN
        invariant
            i <= KEY_LEN,
            scratch@.len() == i,
        decreases KEY_LEN - i,
    {
        scratch.push(0);
        i += 1;
    }
    let hashed = argon2id_into(
        pin.as_str().as_bytes(),
        salt,
        KDF_MEMORY_KIB,
        KDF_ITERATIONS,
        KDF_LANES,
        scratch,
    );
    let r = match hashed {
        Ok(()) => Ok(slice_to_vec(scratch.as_slice())),
        Err(text) => Err(text),
    };
    wipe_bytes(scratch);
    wipe_text(pin);
    r
}

/// Derives a key of 32 bytes from `pin` under `salt`. The PIN and the
/// buffer that the hash is computed in are wiped before the function
/// returns. Where the derivation refuses its input, the result is the text
/// of the refusal.
pub fn derive_key(pin: String, salt: Vec<u8>) -> (r: Result<Vec<u8>, String>)
    ensures
        outcome(r) == derivation(pin@, salt@),
        r matches Ok(key) ==> key@.len() == KEY_LEN,
{
    let mut pin = pin;
    let mut scratch: Vec<u8> = Vec::new();
    derive_key_in_place(&mut pin, salt.as_slice(), &mut scratch)
}

/// The derivation is a function of PIN and salt: the same PIN under the
/// same salt gives the same key, or is refused with the same text.
pub proof fn lemma_derivation_is_deterministic(
    pin_a: Seq<char>,
    salt_a: Seq<u8>,
    pin_b: Seq<char>,
    salt_b: Seq<u8>,
)
    requires
        pin_a == pin_b,
        salt_a == salt_b,
    ensures
        derivation(pin_a, salt_a) == derivation(pin_b, salt_b),
{
}

} // verus!
