use vstd::prelude::*;
use nostr_sdk::nips::nip19::{FromBech32, ToBech32};
use crate::text::{hex_lower, hex_text, hex_digit};

verus! {

/// A nostr public key: the 32 bytes of an x-only secp256k1 key.
#[derive(Clone, Copy, Debug, PartialEq, Eq, Hash)]
pub struct Pubkey {
    pub bytes: [u8; 32],
}

impl View for Pubkey {
    type V = Seq<u8>;

    open spec fn view(&self) -> Seq<u8> {
        self.bytes@
    }
}

/// The value of a hexadecimal digit in either case, or -1 for any other character.
pub open spec fn hex_value(c: char) -> int {
    if '0' <= c && c <= '9' {
        c as int - 48
    } else if 'a' <= c && c <= 'f' {
        c as int - 87
    } else if 'A' <= c && c <= 'F' {
        c as int - 55
    } else {
        -1
    }
}

/// Text that hex-decodes to a 32-byte key: exactly 64 hexadecimal digits.
pub open spec fn is_key_hex(text: Seq<char>) -> bool {
    &&& text.len() == 64
    &&& forall|i: int| 0 <= i < 64 ==> hex_value(#[trigger] text[i]) >= 0
}

/// The 32 bytes that 64 hexadecimal digits stand for, high nibble first.
pub open spec fn key_from_hex_text(text: Seq<char>) -> Seq<u8> {
    Seq::new(32, |i: int| (16 * hex_value(text[2 * i]) + hex_value(text[2 * i + 1])) as u8)
}

/// The nip19 `npub` bech32 text of a key.
pub uninterp spec fn npub_text(key: Seq<u8>) -> Seq<char>;

/// The key that a nip19 `npub` bech32 text decodes to, if it is one.
pub uninterp spec fn npub_key(text: Seq<char>) -> Option<Seq<u8>>;

/// `nostr::PublicKey::from_hex`: decodes the text with `hex::decode_to_slice` into
/// 32 bytes, which succeeds exactly on 64 hexadecimal digits of either case.
#[verifier::external_body]
pub(crate) fn nostr_key_from_hex(text: &str) -> (r: Option<Pubkey>)
    ensures
        r is Some <==> is_key_hex(text@),
        r matches Some(k) ==> k@ == key_from_hex_text(text@),
{
    match nostr_sdk::PublicKey::from_hex(text) {
        Ok(pk) => Some(Pubkey { bytes: pk.to_bytes() }),
        Err(_) => None,
    }
}

/// `nostr::PublicKey::from_bech32` (nip19): decodes a bech32 `npub` text; the result
/// is named, not stated.
#[verifier::external_body]
pub(crate) fn nostr_key_from_bech32(text: &str) -> (r: Option<Pubkey>)
    ensures
        r is Some <==> npub_key(text@) is Some,
        r matches Some(k) ==> npub_key(text@) == Some(k@),
{
    match nostr_sdk::PublicKey::from_bech32(text) {
        Ok(pk) => Some(Pubkey { bytes: pk.to_bytes() }),
        Err(_) => None,
    }
}

/// `nostr::PublicKey::to_bech32` (nip19), whose error type is `Infallible`; the text is
/// named, not stated.
#[verifier::external_body]
fn nostr_key_to_bech32(key: &Pubkey) -> (r: String)
    ensures
        r@ == npub_text(key@),
{
    match nostr_sdk::PublicKey::from_byte_array(key.bytes).to_bech32() {
        Ok(text) => text,
        Err(never) => match never {},
    }
}

impl Pubkey {
    /// Whether two keys are the same key.
    pub fn same(&self, other: &Pubkey) -> (r: bool)
        ensures
            r == (self@ == other@),
    {
        let mut i: usize = 0;
        while i < 32
            invariant
                i <= 32,
                forall|j: int| 0 <= j < i ==> self@[j] == other@[j],
            decreases 32 - i,
        {
            if self.bytes[i] != other.bytes[i] {
                return false;
            }
            i = i + 1;
        }
        assert(self@ =~= other@);
        true
    }

    /// The key as 64 lowercase hexadecimal digits.
    pub fn to_hex(&self) -> (r: String)
        ensures
            r@ == hex_text(self@),
            r@.len() == 64,
    {
        hex_lower(&self.bytes)
    }

    /// The key as nip19 `npub` text.
    pub fn to_bech32(&self) -> (r: String)
        ensures
            r@ == npub_text(self@),
    {
        nostr_key_to_bech32(self)
    }
}

/// Lowercase hex text decodes back to the bytes it encodes.
pub proof fn lemma_hex_text_decodes(bytes: Seq<u8>)
    requires
        bytes.len() == 32,
    ensures
        is_key_hex(hex_text(bytes)),
        key_from_hex_text(hex_text(bytes)) == bytes,
{
    let t = hex_text(bytes);
    assert forall|i: int| 0 <= i < 64 implies hex_value(#[trigger] t[i]) >= 0 by {
        let n: int = if i % 2 == 0 { bytes[i / 2] as int / 16 } else { bytes[i / 2] as int % 16 };
        assert(0 <= n < 16);
        assert(t[i] == hex_digit(n));
        assert(hex_value(hex_digit(n)) == n);
    }
    assert forall|i: int| 0 <= i < 32 implies #[trigger] key_from_hex_text(t)[i] == bytes[i] by {
        let hi: int = bytes[i] as int / 16;
        let lo: int = bytes[i] as int % 16;
        assert(t[2 * i] == hex_digit(hi));
        assert(t[2 * i + 1] == hex_digit(lo));
        assert(hex_value(hex_digit(hi)) == hi);
        assert(hex_value(hex_digit(lo)) == lo);
    }
    assert(key_from_hex_text(t) =~= bytes);
}

} // verus!
