//! The reveal of hole cards at showdown, and the check of the attestation
//! that comes with a revealed card.

use vstd::prelude::*;
use sha2::{Digest, Sha256};
use crate::error::HiddenHandError;
use crate::state::hand::{GamePhase, HandState};
use crate::state::player::PlayerSeat;

verus! {

/// Public key of the party that attests decrypted card values.
pub const INCO_COVALIDATOR_PUBKEY: [u8; 32] = [
    0x68, 0x36, 0xe2, 0x3c, 0x91, 0xc4, 0x84, 0xbd, 0xce, 0x98, 0xdf, 0x49, 0x91, 0x30, 0x3b, 0x29,
    0xcb, 0x3e, 0xa1, 0x34, 0x77, 0x0e, 0xb6, 0xa9, 0x51, 0xed, 0xd3, 0x80, 0xd0, 0x82, 0xe4, 0xf3,
];

/// Length of the header of a signature record.
pub const SIGNATURE_OFFSET: usize = 16;

/// Position of the signer's public key in a signature record, after
/// header and signature.
pub const PUBKEY_OFFSET: usize = 80;

/// Position of the signed message in a signature record.
pub const MESSAGE_OFFSET: usize = 112;

/// Length of a signature record that carries a 32-byte message.
pub const RECORD_LEN: usize = 144;

/// The SHA-256 digest of a byte string.
pub uninterp spec fn sha256(data: Seq<u8>) -> Seq<u8>;

/// Computes the SHA-256 digest of `data` with `sha2::Sha256::digest`
/// (`Digest::digest`, "compute hash of data"). Nothing is proved of it:
/// the contract only names the result, the digest of exactly these bytes.
#[verifier::external_body]
fn sha256_digest(data: &Vec<u8>) -> (digest: [u8; 32])
    ensures
        digest@ == sha256(data@),
{
    Sha256::digest(data.as_slice()).into()
}

/// The ASCII code of the lower-case hexadecimal digit of a value below 16.
pub open spec fn hex_digit(value: nat) -> u8 {
    if value < 10 {
        (48 + value) as u8
    } else {
        (87 + value) as u8
    }
}

/// The lower-case hexadecimal digits of a number in ASCII, most
/// significant first and without leading zeros; "0" for zero.
pub open spec fn hex_digits(value: nat) -> Seq<u8>
    decreases value,
{
    if value < 16 {
        seq![hex_digit(value)]
    } else {
        hex_digits(value / 16).push(hex_digit(value % 16))
    }
}

/// The message that is signed to attest that the card behind `handle` has
/// the value `plaintext`: the hexadecimal digits of the handle in ASCII,
/// followed by the value as 16 bytes, least significant first.
pub open spec fn attested_message(handle: u128, plaintext: u8) -> Seq<u8> {
    hex_digits(handle as nat) + seq![
        plaintext,
        0u8,
        0u8,
        0u8,
        0u8,
        0u8,
        0u8,
        0u8,
        0u8,
        0u8,
        0u8,
        0u8,
        0u8,
        0u8,
        0u8,
        0u8,
    ]
}

/// A signature record attests the card: it is long enough, it names the
/// attesting party as the signer, and the message it carries is the digest
/// of the attested message for this handle and value.
pub open spec fn attests(data: Seq<u8>, handle: u128, plaintext: u8) -> bool {
    &&& data.len() >= RECORD_LEN
    &&& data.subrange(PUBKEY_OFFSET as int, PUBKEY_OFFSET + 32) == INCO_COVALIDATOR_PUBKEY@
    &&& data.subrange(MESSAGE_OFFSET as int, MESSAGE_OFFSET + 32) == sha256(
        attested_message(handle, plaintext),
    )
}

/// Appends the hexadecimal digits of `value` to `out`.
fn push_hex(value: u128, out: &mut Vec<u8>)
    ensures
        final(out)@ == old(out)@ + hex_digits(value as nat),
    decreases value,
{
    if value >= 16 {
        push_hex(value / 16, out);
    }
    let low = (value % 16) as u8;
    let digit = if low < 10 {
        48 + low
    } else {
        87 + low
    };
    out.push(digit);
    proof {
        if value >= 16 {
            assert(out@ =~= old(out)@ + hex_digits((value / 16) as nat).push(
                hex_digit((value % 16) as nat),
            ));
        } else {
            assert(out@ =~= old(out)@ + seq![hex_digit(value as nat)]);
        }
    }
}

/// Computes the digest that is signed for a handle and its card value.
pub fn create_inco_message_hash(handle: u128, plaintext: u8) -> (digest: [u8; 32])
    ensures
        digest@ == sha256(attested_message(handle, plaintext)),
{
    let mut message: Vec<u8> = Vec::new();
    push_hex(handle, &mut message);
    let ghost digits = message@;
    message.push(plaintext);
    let mut i: usize = 1;
    while i < 16
        invariant
            1 <= i <= 16,
            message@.len() == digits.len() + i,
            message@.subrange(0, digits.len() as int) == digits,
            message@[digits.len() as int] == plaintext,
            forall|k: int| digits.len() < k < message@.len() ==> message@[k] == 0,
        decreases 16 - i,
    {
        message.push(0);
        i += 1;
    }
    assert(message@ =~= attested_message(handle, plaintext));
    sha256_digest(&message)
}

/// Whether the 32 bytes of `data` from position `at` on are `expected`.
fn bytes_match(data: &[u8], at: usize, expected: &[u8; 32]) -> (r: bool)
    requires
        at + 32 <= data@.len(),
    ensures
        r == (data@.subrange(at as int, at + 32) == expected@),
{
    let n = data.len();
    let mut i: usize = 0;
    while i < 32
        invariant
            i <= 32,
            n == data@.len(),
            at + 32 <= n,
            forall|k: int| 0 <= k < i ==> data@[at + k] == expected@[k],
        decreases 32 - i,
    {
        if data[at + i] != expected[i] {
            assert(data@.subrange(at as int, at + 32)[i as int] != expected@[i as int]);
            return false;
        }
        i += 1;
    }
    assert(data@.subrange(at as int, at + 32) =~= expected@);
    true
}

/// Checks that a signature record attests the value `plaintext` of the
/// card behind `handle`.
pub fn verify_ed25519_for_handle(data: &[u8], handle: u128, plaintext: u8) -> (r: bool)
    ensures
        r == attests(data@, handle, plaintext),
{
    if data.len() < RECORD_LEN {
        return false;
    }
    // The signer has to be the attesting party.
    if !bytes_match(data, PUBKEY_OFFSET, &INCO_COVALIDATOR_PUBKEY) {
        return false;
    }
    let expected_hash = create_inco_message_hash(handle, plaintext);
    bytes_match(data, MESSAGE_OFFSET, &expected_hash)
}

/// Checks a signature record that stands before a reveal: it comes from
/// the signature check of the host, holds exactly one signature, and
/// attests the value of the card.
pub fn verify_ed25519_signature(from_signature_check: bool, data: &[u8], handle: u128, plaintext: u8)
    -> (r: bool)
    ensures
        r == (from_signature_check && data@.len() >= RECORD_LEN && data@[0] == 1 && data@[1] == 0
            && attests(data@, handle, plaintext)),
{
    if !from_signature_check {
        return false;
    }
    if data.len() < SIGNATURE_OFFSET + 64 + 32 + 32 {
        return false;
    }
    // The count of signatures, two bytes with the low byte first, is one.
    if data[0] != 1 || data[1] != 0 {
        return false;
    }
    verify_ed25519_for_handle(data, handle, plaintext)
}

/// Why a reveal is rejected, if it is. The checks are made in this order:
/// the hand is at showdown, the seat still contests the pot, it has not
/// shown its cards before, and both values are cards.
pub open spec fn rejection(hand: HandState, seat: PlayerSeat, card1: u8, card2: u8) -> Option<
    HiddenHandError,
> {
    if hand.phase != GamePhase::Showdown {
        Some(HiddenHandError::InvalidPhase)
    } else if !seat.contests() {
        Some(HiddenHandError::PlayerNotActive)
    } else if seat.cards_revealed {
        Some(HiddenHandError::CardsAlreadyRevealed)
    } else if card1 > 51 || card2 > 51 {
        Some(HiddenHandError::InvalidCard)
    } else {
        None
    }
}

/// Shows the hole cards of a seat at showdown. A rejected reveal changes
/// nothing.
pub fn handler(hand_state: &HandState, player_seat: &mut PlayerSeat, card1: u8, card2: u8) -> (r:
    Result<(), HiddenHandError>)
    ensures
        match r {
            Ok(()) => {
                &&& rejection(*hand_state, *old(player_seat), card1, card2) is None
                &&& *final(player_seat) == (PlayerSeat {
                    revealed_card_1: card1,
                    revealed_card_2: card2,
                    cards_revealed: true,
                    ..*old(player_seat)
                })
            },
            Err(e) => {
                &&& rejection(*hand_state, *old(player_seat), card1, card2) == Some(e)
                &&& *final(player_seat) == *old(player_seat)
            },
        },
{
    if hand_state.phase != GamePhase::Showdown {
        return Err(HiddenHandError::InvalidPhase);
    }
    if !(player_seat.status == crate::state::player::PlayerStatus::Playing || player_seat.status
        == crate::state::player::PlayerStatus::AllIn) {
        return Err(HiddenHandError::PlayerNotActive);
    }
    if player_seat.cards_revealed {
        return Err(HiddenHandError::CardsAlreadyRevealed);
    }
    if card1 > 51 || card2 > 51 {
        return Err(HiddenHandError::InvalidCard);
    }
    player_seat.revealed_card_1 = card1;
    player_seat.revealed_card_2 = card2;
    player_seat.cards_revealed = true;
    Ok(())
}

} // verus!
