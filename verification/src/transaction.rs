//! Transfers between addresses: the transaction value object, its identifier,
//! its model digest and signature, and lossless byte serialization.
use vstd::prelude::*;

use crate::address::Address;
use crate::address::Format;
use crate::encoding::append_hex;
use crate::encoding::append_le64;
use crate::encoding::hex_of;
use crate::encoding::le64;
use crate::encoding::lemma_le64_round_trip;
use crate::keypair::lemma_le_bytes_of_value;

verus! {

#[derive(Clone, Copy, Debug, PartialEq, Eq, Structural)]
pub enum TransactionError {
    InvalidTransactionId,
    InvalidBytes,
    Custom,
}

/// The parameters of a transfer beyond its endpoints.
#[derive(Clone, Copy, Debug, PartialEq, Eq, Structural)]
pub struct TransactionParameters {
    pub amount: u64,
    /// Position in the sending wallet's history; makes transactions from one
    /// wallet pairwise distinct.
    pub nonce: u64,
}

/// A transfer of `parameters.amount` from `from` to `to`.
#[derive(Clone, Copy, Debug, PartialEq, Eq, Structural)]
pub struct Transaction {
    pub from: Address,
    pub to: Address,
    pub parameters: TransactionParameters,
}

/// The identifier of a transaction: the hexadecimal text of its bytes.
#[derive(Clone, Debug, PartialEq, Eq, Hash)]
pub struct TransactionId {
    pub text: String,
}

/// A transaction together with the signature payload derived from it.
#[derive(Clone, Copy, Debug, PartialEq, Eq, Structural)]
pub struct TransactionSignature {
    pub transaction: Transaction,
}

/// A signed transaction: the transaction plus the identifier of the key that
/// signed it.
#[derive(Clone, Copy, Debug, PartialEq, Eq, Structural)]
pub struct SignedTransaction {
    pub transaction: Transaction,
    pub signer: u64,
}

pub open spec fn format_byte(f: Format) -> u8 {
    match f {
        Format::Standard => 1u8,
        Format::Legacy => 2u8,
    }
}

/// Canonical 34-byte form of a transaction.
pub open spec fn tx_bytes(t: Transaction) -> Seq<u8> {
    seq![format_byte(t.from.format)] + le64(t.from.id) + seq![format_byte(t.to.format)] + le64(
        t.to.id,
    ) + le64(t.parameters.amount) + le64(t.parameters.nonce)
}

/// Canonical text of a transaction identifier.
pub open spec fn txid_text(t: Transaction) -> Seq<char> {
    hex_of(tx_bytes(t))
}

/// Canonical 42-byte form of a signed transaction.
pub open spec fn signed_bytes(s: SignedTransaction) -> Seq<u8> {
    le64(s.signer) + tx_bytes(s.transaction)
}

pub proof fn lemma_tx_bytes_shape(t: Transaction)
    ensures
        tx_bytes(t).len() == 34,
        tx_bytes(t)[0] == format_byte(t.from.format),
        tx_bytes(t).subrange(1, 9) =~= le64(t.from.id),
        tx_bytes(t)[9] == format_byte(t.to.format),
        tx_bytes(t).subrange(10, 18) =~= le64(t.to.id),
        tx_bytes(t).subrange(18, 26) =~= le64(t.parameters.amount),
        tx_bytes(t).subrange(26, 34) =~= le64(t.parameters.nonce),
{
    lemma_le64_round_trip(t.from.id);
    lemma_le64_round_trip(t.to.id);
    lemma_le64_round_trip(t.parameters.amount);
    lemma_le64_round_trip(t.parameters.nonce);
}

/// The byte form determines the transaction.
pub proof fn lemma_tx_bytes_injective(t1: Transaction, t2: Transaction)
    requires
        tx_bytes(t1) == tx_bytes(t2),
    ensures
        t1 == t2,
{
    lemma_tx_bytes_shape(t1);
    lemma_tx_bytes_shape(t2);
    lemma_le64_round_trip(t1.from.id);
    lemma_le64_round_trip(t2.from.id);
    lemma_le64_round_trip(t1.to.id);
    lemma_le64_round_trip(t2.to.id);
    lemma_le64_round_trip(t1.parameters.amount);
    lemma_le64_round_trip(t2.parameters.amount);
    lemma_le64_round_trip(t1.parameters.nonce);
    lemma_le64_round_trip(t2.parameters.nonce);
}

fn append_format_byte(out: &mut Vec<u8>, f: &Format)
    ensures
        final(out)@ == old(out)@ + seq![format_byte(*f)],
{
    match f {
        Format::Standard => out.push(1u8),
        Format::Legacy => out.push(2u8),
    }
}

fn read_format(b: u8) -> (r: Option<Format>)
    ensures
        match r {
            Some(f) => format_byte(f) == b,
            None => forall|f: Format| format_byte(f) != b,
        },
{
    if b == 1 {
        Some(Format::Standard)
    } else if b == 2 {
        Some(Format::Legacy)
    } else {
        None
    }
}

impl Transaction {
    pub fn new(from: Address, to: Address, parameters: TransactionParameters) -> (t: Transaction)
        ensures
            t == (Transaction { from, to, parameters }),
    {
        Transaction { from, to, parameters }
    }

    /// The identifier of this transaction; derived from its bytes alone, so
    /// equal transactions always share it.
    pub fn transaction_id(&self) -> (r: Result<TransactionId, TransactionError>)
        ensures
            r is Ok && r.unwrap().text@ == txid_text(*self),
    {
        let bytes = self.to_bytes();
        let mut text = String::new();
        append_hex(&mut text, &bytes);
        Ok(TransactionId { text })
    }

    /// The model digest of this transaction: its canonical bytes. A concrete
    /// chain binding would replace this with a cryptographic hash.
    pub fn hash(&self) -> (r: crate::hash::Hash)
        ensures
            r.bytes@ == tx_bytes(*self),
    {
        crate::hash::Hash { bytes: self.to_bytes() }
    }

    pub fn to_bytes(&self) -> (r: Vec<u8>)
        ensures
            r@ == tx_bytes(*self),
    {
        let mut out: Vec<u8> = Vec::new();
        append_format_byte(&mut out, &self.from.format);
        append_le64(&mut out, self.from.id);
        append_format_byte(&mut out, &self.to.format);
        append_le64(&mut out, self.to.id);
        append_le64(&mut out, self.parameters.amount);
        append_le64(&mut out, self.parameters.nonce);
        proof {
            assert(out@ =~= tx_bytes(*self));
        }
        out
    }

    /// Reads a transaction back from its byte form; exactly the canonical
    /// encodings are accepted.
    pub fn from_bytes(bytes: &[u8]) -> (r: Result<Transaction, TransactionError>)
        ensures
            match r {
                Ok(t) => bytes@ == tx_bytes(t),
                Err(e) => (forall|t: Transaction| bytes@ != tx_bytes(t)) && e
                    == TransactionError::InvalidBytes,
            },
    {
        proof {
            assert forall|t: Transaction| (#[trigger] tx_bytes(t)).len() == 34 by {
                lemma_tx_bytes_shape(t);
            }
        }
        if bytes.len() != 34 {
            return Err(TransactionError::InvalidBytes);
        }
        let from_format = match read_format(bytes[0]) {
            Some(f) => f,
            None => {
                proof {
                    assert forall|t: Transaction| bytes@ != tx_bytes(t) by {
                        lemma_tx_bytes_shape(t);
                    }
                }
                return Err(TransactionError::InvalidBytes);
            },
        };
        let to_format = match read_format(bytes[9]) {
            Some(f) => f,
            None => {
                proof {
                    assert forall|t: Transaction| bytes@ != tx_bytes(t) by {
                        lemma_tx_bytes_shape(t);
                    }
                }
                return Err(TransactionError::InvalidBytes);
            },
        };
        let from_id = crate::encoding::read_le64(bytes, 1);
        let to_id = crate::encoding::read_le64(bytes, 10);
        let amount = crate::encoding::read_le64(bytes, 18);
        let nonce = crate::encoding::read_le64(bytes, 26);
        let t = Transaction {
            from: Address { id: from_id, format: from_format },
            to: Address { id: to_id, format: to_format },
            parameters: TransactionParameters { amount, nonce },
        };
        proof {
            lemma_tx_bytes_shape(t);
            lemma_le_bytes_of_value(bytes@.subrange(1, 9));
            lemma_le_bytes_of_value(bytes@.subrange(10, 18));
            lemma_le_bytes_of_value(bytes@.subrange(18, 26));
            lemma_le_bytes_of_value(bytes@.subrange(26, 34));
            assert(bytes@ =~= tx_bytes(t));
        }
        Ok(t)
    }
}

impl TransactionId {
    /// The identifier as text, for response payloads.
    pub fn to_text(&self) -> (r: String)
        ensures
            r@ == self.text@,
    {
        self.text.clone()
    }
}

impl TransactionSignature {
    /// Derives the signature payload carried for a transaction.
    pub fn from_transaction(transaction: &Transaction) -> (r: TransactionSignature)
        ensures
            r.transaction == *transaction,
    {
        TransactionSignature { transaction: *transaction }
    }

    /// The transaction this signature payload was derived from.
    pub fn to_transaction(&self) -> (r: Transaction)
        ensures
            r == self.transaction,
    {
        self.transaction
    }
}

impl SignedTransaction {
    /// The signature bytes: the signing key's identifier bound to the
    /// transaction's bytes, so a signature never matches another transaction.
    pub fn signature(&self) -> (r: Vec<u8>)
        ensures
            r@ == signed_bytes(*self),
    {
        let mut out: Vec<u8> = Vec::new();
        append_le64(&mut out, self.signer);
        let tx = self.transaction.to_bytes();
        let mut i: usize = 0;
        while i < tx.len()
            invariant
                i <= tx@.len(),
                out@ == le64(self.signer) + tx@.subrange(0, i as int),
            decreases tx@.len() - i,
        {
            out.push(tx[i]);
            proof {
                assert(tx@.subrange(0, i + 1) =~= tx@.subrange(0, i as int).push(tx@[i as int]));
            }
            i = i + 1;
        }
        proof {
            assert(tx@.subrange(0, tx@.len() as int) =~= tx@);
        }
        out
    }

    pub fn to_bytes(&self) -> (r: Vec<u8>)
        ensures
            r@ == signed_bytes(*self),
    {
        self.signature()
    }

    /// Reads a signed transaction back from its byte form; exactly the
    /// canonical encodings are accepted.
    pub fn from_bytes(bytes: &[u8]) -> (r: Result<SignedTransaction, TransactionError>)
        ensures
            match r {
                Ok(s) => bytes@ == signed_bytes(s),
                Err(e) => (forall|s: SignedTransaction| bytes@ != signed_bytes(s)) && e
                    == TransactionError::InvalidBytes,
            },
    {
        proof {
            assert forall|s: SignedTransaction| (#[trigger] signed_bytes(s)).len() == 42 by {
                lemma_le64_round_trip(s.signer);
                lemma_tx_bytes_shape(s.transaction);
            }
        }
        if bytes.len() != 42 {
            return Err(TransactionError::InvalidBytes);
        }
        let signer = crate::encoding::read_le64(bytes, 0);
        let tail = vstd::slice::slice_subrange(bytes, 8, 42);
        match Transaction::from_bytes(tail) {
            Ok(t) => {
                let s = SignedTransaction { transaction: t, signer };
                proof {
                    lemma_le_bytes_of_value(bytes@.subrange(0, 8));
                    assert(bytes@ =~= signed_bytes(s));
                }
                Ok(s)
            },
            Err(_) => {
                proof {
                    assert forall|s: SignedTransaction| bytes@ != signed_bytes(s) by {
                        if bytes@ == signed_bytes(s) {
                            lemma_le64_round_trip(s.signer);
                            lemma_tx_bytes_shape(s.transaction);
                            assert(tail@ =~= tx_bytes(s.transaction));
                        }
                    }
                }
                Err(TransactionError::InvalidBytes)
            },
        }
    }
}

} // verus!
