//! The byte layout of the requests to the encryption service: the request
//! to encrypt a card value, the request to let a player decrypt a card, and
//! the handle that comes back.

use vstd::prelude::*;
use vstd::bytes::{
    spec_u128_from_le_bytes, spec_u128_to_le_bytes, u128_from_le_bytes, u128_to_le_bytes,
};

verus! {

/// Handle to an encrypted card value.
#[derive(Clone, Copy, Debug, PartialEq, Eq, Structural)]
pub struct EncryptedCard(pub u128);

impl Default for EncryptedCard {
    fn default() -> (card: Self)
        ensures
            card.0 == 0,
    {
        EncryptedCard(0)
    }
}

impl EncryptedCard {
    /// The handle as a number.
    pub fn unwrap(self) -> (value: u128)
        ensures
            value == self.0,
    {
        self.0
    }

    /// The handle of a number.
    pub fn wrap(value: u128) -> (card: Self)
        ensures
            card.0 == value,
    {
        EncryptedCard(value)
    }

    /// Whether the handle has been set: zero stands for no handle.
    pub fn is_initialized(&self) -> (r: bool)
        ensures
            r == (self.0 != 0),
    {
        self.0 != 0
    }
}

/// Tag of the request that encrypts a value.
pub const AS_EUINT128: [u8; 8] = [0x56, 0x3d, 0x17, 0xad, 0xbb, 0x02, 0xf7, 0x60];

/// Tag of the request that grants access to an encrypted value.
pub const ALLOW: [u8; 8] = [0x3c, 0x67, 0x8c, 0x41, 0x6e, 0x6d, 0x93, 0xa4];

/// The bytes of the request to encrypt a card value: the tag, then the
/// value as sixteen bytes, least significant first.
pub open spec fn encrypt_request(card_value: u8) -> Seq<u8> {
    AS_EUINT128@ + spec_u128_to_le_bytes(card_value as u128)
}

/// The bytes of the request to let `allowed_address` decrypt the value
/// behind `handle`: the tag, the handle as sixteen bytes, least significant
/// first, a byte 1 for "grant", and the address.
pub open spec fn allow_request(handle: u128, allowed_address: Seq<u8>) -> Seq<u8> {
    ALLOW@ + spec_u128_to_le_bytes(handle) + seq![1u8] + allowed_address
}

/// Appends all bytes of `bytes` to `out`.
fn append(out: &mut Vec<u8>, bytes: &[u8])
    ensures
        final(out)@ == old(out)@ + bytes@,
{
    let n = bytes.len();
    let mut i: usize = 0;
    while i < n
        invariant
            i <= n,
            n == bytes@.len(),
            out@ == old(out)@ + bytes@.subrange(0, i as int),
        decreases n - i,
    {
        out.push(bytes[i]);
        assert(out@ =~= old(out)@ + bytes@.subrange(0, i + 1));
        i += 1;
    }
    assert(bytes@.subrange(0, n as int) =~= bytes@);
}

/// Builds the request to encrypt a card value.
pub fn encrypt_card_data(card_value: u8) -> (data: Vec<u8>)
    ensures
        data@ == encrypt_request(card_value),
{
    let mut data: Vec<u8> = Vec::new();
    append(&mut data, &AS_EUINT128);
    let value = u128_to_le_bytes(card_value as u128);
    append(&mut data, value.as_slice());
    assert(data@ =~= encrypt_request(card_value));
    data
}

/// Builds the request to let a player decrypt an encrypted card.
pub fn grant_allowance_data(handle: u128, allowed_address: &[u8; 32]) -> (data: Vec<u8>)
    ensures
        data@ == allow_request(handle, allowed_address@),
{
    let mut data: Vec<u8> = Vec::new();
    append(&mut data, &ALLOW);
    let value = u128_to_le_bytes(handle);
    append(&mut data, value.as_slice());
    data.push(1);
    append(&mut data, allowed_address);
    assert(data@ =~= allow_request(handle, allowed_address@));
    data
}

/// Reads the handle that the encryption service returns: sixteen bytes,
/// least significant first. Anything else is no handle.
pub fn parse_handle(return_data: &[u8]) -> (r: Option<EncryptedCard>)
    ensures
        match r {
            Some(card) => return_data@.len() == 16 && card.0 == spec_u128_from_le_bytes(
                return_data@,
            ),
            None => return_data@.len() != 16,
        },
{
    if return_data.len() != 16 {
        return None;
    }
    Some(EncryptedCard(u128_from_le_bytes(return_data)))
}

} // verus!
