use vstd::prelude::*;

use crate::crypto::{ed25519_pubkey_check, ed25519_pubkey_error, ed25519_verifies, ed25519_verify};
use vstd::utf8::{encode_utf8, is_char_boundary};

verus! {

/// Lower-case hexadecimal digit for a nibble value in `0..16`.
pub open spec fn hex_char(n: int) -> char {
    if n < 10 {
        (n + 48) as char
    } else {
        (n + 87) as char
    }
}

/// Lower-case hexadecimal rendering of a byte sequence, two digits per byte.
pub open spec fn hex_string(bytes: Seq<u8>) -> Seq<char>
    decreases bytes.len(),
{
    if bytes.len() == 0 {
        Seq::empty()
    } else {
        hex_string(bytes.drop_last()) + seq![
            hex_char(bytes.last() as int / 16),
            hex_char(bytes.last() as int % 16),
        ]
    }
}

fn hex_digit_str(n: u8) -> (r: &'static str)
    requires
        n < 16,
    ensures
        r@ == seq![hex_char(n as int)],
{
    proof {
        reveal_strlit("0");
        reveal_strlit("1");
        reveal_strlit("2");
        reveal_strlit("3");
        reveal_strlit("4");
        reveal_strlit("5");
        reveal_strlit("6");
        reveal_strlit("7");
        reveal_strlit("8");
        reveal_strlit("9");
        reveal_strlit("a");
        reveal_strlit("b");
        reveal_strlit("c");
        reveal_strlit("d");
        reveal_strlit("e");
        reveal_strlit("f");
    }
    match n {
        0 => "0",
        1 => "1",
        2 => "2",
        3 => "3",
        4 => "4",
        5 => "5",
        6 => "6",
        7 => "7",
        8 => "8",
        9 => "9",
        10 => "a",
        11 => "b",
        12 => "c",
        13 => "d",
        14 => "e",
        _ => "f",
    }
}

/// Identity of a mesh peer: its Ed25519 public key and a printable form of it.
#[derive(Clone, Debug)]
pub struct PeerIdentity {
    /// Ed25519 public key bytes
    pub pubkey: [u8; 32],
    /// Hex-encoded string representation for logging
    pub display_id: String,
}

impl PeerIdentity {
    /// Builds the identity for `pubkey`; `display_id` is its lower-case hex form.
    pub fn new(pubkey: [u8; 32]) -> (r: Self)
        ensures
            r.pubkey == pubkey,
            r.display_id@ == hex_string(pubkey@),
    {
        let mut display_id = String::new();
        let mut i: usize = 0;
        while i < 32
            invariant
                i <= 32,
                display_id@ == hex_string(pubkey@.take(i as int)),
            decreases 32 - i,
        {
            let b = pubkey[i];
            let hi = hex_digit_str(b / 16);
            let lo = hex_digit_str(b % 16);
            display_id.append(hi);
            display_id.append(lo);
            assert(pubkey@.take(i + 1).drop_last() =~= pubkey@.take(i as int));
            i = i + 1;
        }
        assert(pubkey@.take(32) =~= pubkey@);
        PeerIdentity { pubkey, display_id }
    }

    /// The identity as printed in logs: the first 16 bytes of its display id (for an
    /// identity built by `new`, the first eight key bytes in hex). Slicing there needs a
    /// character boundary at byte 16.
    pub fn to_display_string(&self) -> (r: String)
        requires
            is_char_boundary(encode_utf8(self.display_id@), 16),
        ensures
            encode_utf8(r@) == encode_utf8(self.display_id@).take(16),
    {
        let (head, _rest) = self.display_id.as_str().split_at(16);
        head.to_owned()
    }

    /// A field-for-field copy of this identity.
    pub fn copy(&self) -> (r: Self)
        ensures
            r == *self,
    {
        PeerIdentity { pubkey: self.pubkey, display_id: self.display_id.clone() }
    }

    /// Verify an Ed25519 signature over `message` using this peer's public key.
    /// Returns `false` on bad key or failed verification.
    pub fn verify_signature(&self, message: &[u8], signature: &[u8; 64]) -> (r: bool)
        ensures
            r == (ed25519_pubkey_error(self.pubkey@).is_none() && ed25519_verifies(
                self.pubkey@,
                message@,
                signature@,
            )),
    {
        if ed25519_pubkey_check(&self.pubkey).is_some() {
            return false;
        }
        ed25519_verify(&self.pubkey, message, signature)
    }
}

} // verus!
