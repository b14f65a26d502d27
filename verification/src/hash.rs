//! Hashes as carried by transactions: an owned byte string with lossless
//! byte and hexadecimal serialization.
use vstd::prelude::*;

use crate::encoding::append_hex;
use crate::encoding::decode_hex;
use crate::encoding::hex_of;

verus! {

#[derive(Clone, Copy, Debug, PartialEq, Eq, Structural)]
pub enum HashError {
    InvalidBytes,
    InvalidHex,
    HashingError,
}

/// A hash value, held as its raw bytes.
#[derive(Clone, Debug)]
pub struct Hash {
    pub bytes: Vec<u8>,
}

impl Hash {
    /// Reads a hash from its byte form; every byte string is a valid hash.
    pub fn from_bytes(bytes: &[u8]) -> (r: Result<Hash, HashError>)
        ensures
            r is Ok && r.unwrap().bytes@ == bytes@,
    {
        Ok(Hash { bytes: vstd::slice::slice_to_vec(bytes) })
    }

    pub fn to_bytes(&self) -> (r: Vec<u8>)
        ensures
            r@ == self.bytes@,
    {
        vstd::slice::slice_to_vec(self.bytes.as_slice())
    }

    /// Reads a hash from hexadecimal text; exactly the two-digit-per-byte
    /// lowercase encodings are accepted.
    pub fn from_hex(hex: &str) -> (r: Result<Hash, HashError>)
        ensures
            match r {
                Ok(h) => hex@ == hex_of(h.bytes@),
                Err(e) => (forall|b: Seq<u8>| hex@ != hex_of(b)) && e == HashError::InvalidHex,
            },
    {
        match decode_hex(hex) {
            Some(b) => Ok(Hash { bytes: b }),
            None => Err(HashError::InvalidHex),
        }
    }

    pub fn to_hex(&self) -> (r: String)
        ensures
            r@ == hex_of(self.bytes@),
    {
        let mut out = String::new();
        append_hex(&mut out, &self.bytes);
        out
    }
}

} // verus!
