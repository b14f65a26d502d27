//! Wallet addresses. An address pairs a key identifier with a textual format
//! tag; its canonical text is `aq`, a one-digit format marker, and the sixteen
//! hexadecimal digits of the key identifier. Parsing and display round-trip.
use vstd::prelude::*;
use vstd::string::StrSliceExecFns;
use vstd::string::StringExecFns;

use crate::encoding::append_hex;
use crate::encoding::decode_hex;
use crate::encoding::hex_of;
use crate::encoding::le64;
use crate::encoding::lemma_hex_of_injective;
use crate::encoding::lemma_hex_of_len;
use crate::encoding::lemma_le64_round_trip;
use crate::keypair::lemma_le_bytes_of_value;
use crate::keypair::PublicKey;
use crate::keypair::SecretKey;

verus! {

#[derive(Clone, Copy, Debug, PartialEq, Eq, Structural)]
pub enum AddressError {
    InvalidFormat,
    ParseError,
    UnsupportedFormat,
    InvalidPublicKey,
    InvalidSecretKey,
}

/// The textual format an address is rendered in.
#[derive(Clone, Copy, Debug, PartialEq, Eq, Hash, Structural)]
pub enum Format {
    Standard,
    Legacy,
}

/// An address: the key identifier it was derived from plus its format.
#[derive(Clone, Copy, Debug, PartialEq, Eq, Hash, Structural)]
pub struct Address {
    pub id: u64,
    pub format: Format,
}

/// The one-character marker of a format in address text.
pub open spec fn format_char(f: Format) -> char {
    match f {
        Format::Standard => '1',
        Format::Legacy => '2',
    }
}

/// Canonical text of an address.
pub open spec fn addr_text(a: Address) -> Seq<char> {
    seq!['a', 'q', format_char(a.format)] + hex_of(le64(a.id))
}

impl Address {
    /// Derives the address of a secret key in the given format.
    pub fn from_secret_key(secret_key: &SecretKey, format: &Format) -> (r: Result<
        Address,
        AddressError,
    >)
        ensures
            r == Ok::<Address, AddressError>(Address { id: secret_key.id, format: *format }),
    {
        Ok(Address { id: secret_key.id, format: *format })
    }

    /// Derives the address of a public key in the given format; it equals the
    /// address derived from the matching secret key.
    pub fn from_public_key(public_key: &PublicKey, format: &Format) -> (r: Result<
        Address,
        AddressError,
    >)
        ensures
            r == Ok::<Address, AddressError>(Address { id: public_key.id, format: *format }),
    {
        Ok(Address { id: public_key.id, format: *format })
    }

    /// The canonical text of this address.
    pub fn display(&self) -> (r: String)
        ensures
            r@ == addr_text(*self),
    {
        let mut out = String::new();
        match self.format {
            Format::Standard => {
                proof {
                    reveal_strlit("aq1");
                    assert("aq1"@ =~= seq!['a', 'q', '1']);
                }
                out.append("aq1");
            },
            Format::Legacy => {
                proof {
                    reveal_strlit("aq2");
                    assert("aq2"@ =~= seq!['a', 'q', '2']);
                }
                out.append("aq2");
            },
        }
        let mut bytes: Vec<u8> = Vec::new();
        crate::encoding::append_le64(&mut bytes, self.id);
        append_hex(&mut out, &bytes);
        proof {
            assert(out@ =~= addr_text(*self));
        }
        out
    }

    /// Parses canonical address text; exactly the strings `display` produces
    /// are accepted.
    pub fn parse(address: &str) -> (r: Result<Address, AddressError>)
        ensures
            match r {
                Ok(a) => address@ == addr_text(a),
                Err(e) => (forall|a: Address| address@ != addr_text(a)) && e
                    == AddressError::ParseError,
            },
    {
        proof {
            lemma_addr_text_shape();
        }
        let n = address.unicode_len();
        if n != 19 {
            return Err(AddressError::ParseError);
        }
        if address.get_char(0) != 'a' || address.get_char(1) != 'q' {
            return Err(AddressError::ParseError);
        }
        let fc = address.get_char(2);
        let fmt = if fc == '1' {
            Format::Standard
        } else if fc == '2' {
            Format::Legacy
        } else {
            return Err(AddressError::ParseError);
        };
        let tail = address.substring_char(3, 19);
        let bytes = match decode_hex(tail) {
            Some(b) => b,
            None => {
                proof {
                    assert forall|a: Address| address@ != addr_text(a) by {
                        if address@ == addr_text(a) {
                            assert(tail@ =~= hex_of(le64(a.id)));
                        }
                    }
                }
                return Err(AddressError::ParseError);
            },
        };
        proof {
            lemma_hex_of_len(bytes@);
        }
        let id = crate::encoding::read_le64(bytes.as_slice(), 0);
        proof {
            assert(bytes@.subrange(0, 8) =~= bytes@);
            lemma_le_bytes_of_value(bytes@);
            let a = Address { id: id, format: fmt };
            assert(le64(id) =~= bytes@);
            assert(address@ =~= seq!['a', 'q', format_char(fmt)] + tail@);
            assert(address@ =~= addr_text(a));
        }
        Ok(Address { id, format: fmt })
    }

    /// Whether a string is valid address text.
    pub fn is_valid(address: &str) -> (r: bool)
        ensures
            r <==> exists|a: Address| address@ == addr_text(a),
    {
        match Self::parse(address) {
            Ok(a) => {
                proof {
                    let witness = a;
                    assert(address@ == addr_text(witness));
                }
                true
            },
            Err(_) => false,
        }
    }
}

/// Shape facts about address text: its length, and that the text determines
/// the address.
pub proof fn lemma_addr_text_shape()
    ensures
        forall|a: Address| (#[trigger] addr_text(a)).len() == 19,
        forall|a: Address| (#[trigger] addr_text(a))[0] == 'a' && addr_text(a)[1] == 'q'
            && addr_text(a)[2] == format_char(a.format),
        forall|a1: Address, a2: Address|
            addr_text(a1) == addr_text(a2) ==> a1 == a2,
{
    assert forall|a: Address| (#[trigger] addr_text(a)).len() == 19 by {
        lemma_le64_round_trip(a.id);
        lemma_hex_of_len(le64(a.id));
    }
    assert forall|a1: Address, a2: Address| addr_text(a1) == addr_text(a2) implies a1 == a2 by {
        lemma_le64_round_trip(a1.id);
        lemma_le64_round_trip(a2.id);
        lemma_hex_of_len(le64(a1.id));
        lemma_hex_of_len(le64(a2.id));
        assert(addr_text(a1)[2] == format_char(a1.format));
        assert(addr_text(a2)[2] == format_char(a2.format));
        assert(a1.format == a2.format);
        assert(hex_of(le64(a1.id)) =~= addr_text(a1).subrange(3, 19));
        assert(hex_of(le64(a2.id)) =~= addr_text(a2).subrange(3, 19));
        lemma_hex_of_injective(le64(a1.id), le64(a2.id));
    }
}

/// Displaying an address and parsing the text gives the address back: the text
/// form is canonical. Stated over the spec-level encoding; `parse`'s contract
/// ties the executable parser to it.
pub proof fn lemma_addr_round_trip(a: Address)
    ensures
        forall|a2: Address| addr_text(a) == addr_text(a2) ==> a == a2,
{
    lemma_addr_text_shape();
}

} // verus!
