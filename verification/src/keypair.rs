//! Key material for fleet wallets. A secret key is modelled as a 64-bit
//! identifier; it deterministically yields exactly one public key, and both
//! serialize to eight little-endian bytes or sixteen hexadecimal digits.
use vstd::prelude::*;

use crate::encoding::decode_hex;
use crate::encoding::append_hex;
use crate::encoding::append_le64;
use crate::encoding::hex_of;
use crate::encoding::le64;
use crate::encoding::le_value;
use crate::encoding::lemma_hex_of_injective;
use crate::encoding::lemma_hex_of_len;
use crate::encoding::lemma_le64_round_trip;
use crate::encoding::lemma_le_bytes_len;
use crate::encoding::pow256;

verus! {

#[derive(Clone, Copy, Debug, PartialEq, Eq, Structural)]
pub enum KeyPairError {
    FailedToGenerateKeyPair,
    InvalidBytes,
    InvalidHex,
    InvalidPublicKey,
    InvalidSecretKey,
    Custom,
}

/// A secret key. Generation is deterministic from a caller-supplied seed; the
/// wallet manager draws seeds from a monotone counter so that no two wallets
/// ever share key material.
#[derive(Clone, Copy, Debug, PartialEq, Eq, Structural)]
pub struct SecretKey {
    pub id: u64,
}

/// The public key derived from a secret key.
#[derive(Clone, Copy, Debug, PartialEq, Eq, Structural)]
pub struct PublicKey {
    pub id: u64,
}

/// Byte form of a secret key: eight little-endian bytes of its identifier.
pub open spec fn sk_bytes(k: SecretKey) -> Seq<u8> {
    le64(k.id)
}

/// Hexadecimal form of a secret key.
pub open spec fn sk_hex(k: SecretKey) -> Seq<char> {
    hex_of(sk_bytes(k))
}

/// The secret key read back from a byte sequence, if it has the right length.
pub open spec fn sk_of_bytes(b: Seq<u8>) -> Option<SecretKey> {
    if b.len() == 8 && b == le64(le_value(b) as u64) {
        Some(SecretKey { id: le_value(b) as u64 })
    } else {
        None
    }
}

pub open spec fn pk_bytes(k: PublicKey) -> Seq<u8> {
    le64(k.id)
}

pub open spec fn pk_hex(k: PublicKey) -> Seq<char> {
    hex_of(pk_bytes(k))
}

pub open spec fn pk_of_bytes(b: Seq<u8>) -> Option<PublicKey> {
    if b.len() == 8 && b == le64(le_value(b) as u64) {
        Some(PublicKey { id: le_value(b) as u64 })
    } else {
        None
    }
}

impl SecretKey {
    /// Deterministically generates the secret key for a seed.
    pub fn new(seed: u64) -> (k: SecretKey)
        ensures
            k.id == seed,
    {
        SecretKey { id: seed }
    }

    pub fn to_bytes(&self) -> (r: Vec<u8>)
        ensures
            r@ == sk_bytes(*self),
    {
        let mut out: Vec<u8> = Vec::new();
        append_le64(&mut out, self.id);
        out
    }

    /// Reads a secret key back from its byte form; exactly the eight-byte
    /// encodings are accepted.
    pub fn from_bytes(bytes: &[u8]) -> (r: Result<SecretKey, KeyPairError>)
        ensures
            match r {
                Ok(k) => sk_of_bytes(bytes@) == Some(k) && bytes@ == sk_bytes(k),
                Err(e) => sk_of_bytes(bytes@) is None && e == KeyPairError::InvalidBytes,
            },
    {
        if bytes.len() != 8 {
            proof {
                lemma_le_bytes_len(le_value(bytes@), 8);
            }
            return Err(KeyPairError::InvalidBytes);
        }
        let id = crate::encoding::read_le64(bytes, 0);
        proof {
            assert(bytes@.subrange(0, 8) =~= bytes@);
            lemma_le_bytes_of_value(bytes@);
        }
        Ok(SecretKey { id })
    }

    pub fn to_hex(&self) -> (r: String)
        ensures
            r@ == sk_hex(*self),
    {
        let bytes = self.to_bytes();
        let mut out = String::new();
        append_hex(&mut out, &bytes);
        out
    }

    /// Reads a secret key back from hexadecimal text; exactly the sixteen-digit
    /// encodings are accepted.
    pub fn from_hex(hex: &str) -> (r: Result<SecretKey, KeyPairError>)
        ensures
            match r {
                Ok(k) => hex@ == sk_hex(k),
                Err(e) => (forall|k: SecretKey| hex@ != sk_hex(k)) && e
                    == KeyPairError::InvalidHex,
            },
    {
        let bytes = match decode_hex(hex) {
            Some(b) => b,
            None => {
                return Err(KeyPairError::InvalidHex);
            },
        };
        match Self::from_bytes(bytes.as_slice()) {
            Ok(k) => Ok(k),
            Err(_) => {
                proof {
                    assert forall|k: SecretKey| hex@ != sk_hex(k) by {
                        lemma_le_bytes_len(k.id as nat, 8);
                        if hex@ == sk_hex(k) {
                            lemma_hex_of_injective(bytes@, sk_bytes(k));
                            lemma_le64_round_trip(k.id);
                        }
                    }
                }
                Err(KeyPairError::InvalidHex)
            },
        }
    }

    /// The public key that this secret key yields; the derivation is a pure
    /// function of the secret key.
    pub fn pubkey(&self) -> (r: PublicKey)
        ensures
            r.id == self.id,
    {
        PublicKey { id: self.id }
    }
}

impl PublicKey {
    pub fn from_secret_key(secret_key: &SecretKey) -> (r: PublicKey)
        ensures
            r.id == secret_key.id,
    {
        secret_key.pubkey()
    }

    pub fn to_bytes(&self) -> (r: Vec<u8>)
        ensures
            r@ == pk_bytes(*self),
    {
        let mut out: Vec<u8> = Vec::new();
        append_le64(&mut out, self.id);
        out
    }

    pub fn from_bytes(bytes: &[u8]) -> (r: Result<PublicKey, KeyPairError>)
        ensures
            match r {
                Ok(k) => pk_of_bytes(bytes@) == Some(k) && bytes@ == pk_bytes(k),
                Err(e) => pk_of_bytes(bytes@) is None && e == KeyPairError::InvalidBytes,
            },
    {
        match SecretKey::from_bytes(bytes) {
            Ok(k) => Ok(PublicKey { id: k.id }),
            Err(_) => Err(KeyPairError::InvalidBytes),
        }
    }

    pub fn to_hex(&self) -> (r: String)
        ensures
            r@ == pk_hex(*self),
    {
        let bytes = self.to_bytes();
        let mut out = String::new();
        append_hex(&mut out, &bytes);
        out
    }

    pub fn from_hex(hex: &str) -> (r: Result<PublicKey, KeyPairError>)
        ensures
            match r {
                Ok(k) => hex@ == pk_hex(k),
                Err(e) => (forall|k: PublicKey| hex@ != pk_hex(k)) && e
                    == KeyPairError::InvalidHex,
            },
    {
        match SecretKey::from_hex(hex) {
            Ok(k) => Ok(PublicKey { id: k.id }),
            Err(_) => {
                proof {
                    assert forall|k: PublicKey| hex@ != pk_hex(k) by {
                        if hex@ == pk_hex(k) {
                            assert(hex@ == sk_hex(SecretKey { id: k.id }));
                        }
                    }
                }
                Err(KeyPairError::InvalidHex)
            },
        }
    }
}

/// `le_value` is bounded by the sequence length's power of 256.
pub proof fn lemma_le_value_bound(s: Seq<u8>)
    ensures
        le_value(s) < pow256(s.len()),
    decreases s.len(),
{
    if s.len() > 0 {
        let rest = s.subrange(1, s.len() as int);
        lemma_le_value_bound(rest);
        assert(s[0] + 256 * le_value(rest) < 256 * pow256(rest.len())) by (nonlinear_arith)
            requires
                s[0] < 256,
                le_value(rest) < pow256(rest.len()),
        ;
    }
}

/// Re-encoding the value read from a byte sequence gives back that sequence.
pub proof fn lemma_le_bytes_of_value(s: Seq<u8>)
    ensures
        crate::encoding::le_bytes(le_value(s), s.len()) =~= s,
    decreases s.len(),
{
    if s.len() > 0 {
        let rest = s.subrange(1, s.len() as int);
        let v = le_value(s);
        assert(v == s[0] + 256 * le_value(rest));
        assert(v % 256 == s[0] && v / 256 == le_value(rest)) by (nonlinear_arith)
            requires
                v == s[0] + 256 * le_value(rest),
                s[0] < 256,
        ;
        lemma_le_bytes_of_value(rest);
        assert(crate::encoding::le_bytes(v, s.len()) =~= seq![(v % 256) as u8]
            + crate::encoding::le_bytes(v / 256, (s.len() - 1) as nat));
    }
}

/// Key serialization is lossless: two distinct secret keys never share a byte
/// or hexadecimal form, so reading an encoding back always recovers the key
/// that produced it.
pub proof fn lemma_key_round_trip(k: SecretKey)
    ensures
        sk_of_bytes(sk_bytes(k)) == Some(k),
        forall|k2: SecretKey| sk_hex(k) == sk_hex(k2) ==> k == k2,
{
    lemma_le64_round_trip(k.id);
    assert forall|k2: SecretKey| sk_hex(k) == sk_hex(k2) implies k == k2 by {
        lemma_hex_of_injective(sk_bytes(k), sk_bytes(k2));
        lemma_le64_round_trip(k2.id);
    }
}

} // verus!
