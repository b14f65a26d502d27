//! The aggregate error: every leaf error the core can raise, wrapped
//! uniformly for the dispatcher boundary, with the human-readable message
//! each one surfaces in an error frame.
use vstd::prelude::*;
use vstd::string::StringExecFns;

use crate::address::AddressError;
use crate::hash::HashError;
use crate::keypair::KeyPairError;
use crate::monitor::MonitorError;
use crate::transaction::TransactionError;
use crate::wallet::WalletError;
use crate::wallet::WalletManagerError;

verus! {

/// Any error raised by the core, each layer wrapping the one below without
/// losing the underlying cause.
#[derive(Clone, Copy, Debug, PartialEq, Eq, Structural)]
pub enum Error {
    AddressError(AddressError),
    TransactionError(TransactionError),
    KeypairError(KeyPairError),
    MonitorError(MonitorError),
    WalletManagerError(WalletManagerError),
    WalletError(WalletError),
    HashError(HashError),
}

pub open spec fn address_error_text(e: AddressError) -> Seq<char> {
    match e {
        AddressError::InvalidFormat => "Invalid address format"@,
        AddressError::ParseError => "Failed to parse address"@,
        AddressError::UnsupportedFormat => "Unsupported address format"@,
        AddressError::InvalidPublicKey => "Invalid public key"@,
        AddressError::InvalidSecretKey => "Invalid secret key"@,
    }
}

pub open spec fn transaction_error_text(e: TransactionError) -> Seq<char> {
    match e {
        TransactionError::InvalidTransactionId => "Invalid transaction ID"@,
        TransactionError::InvalidBytes => "Invalid transaction bytes"@,
        TransactionError::Custom => "Transaction failure"@,
    }
}

pub open spec fn keypair_error_text(e: KeyPairError) -> Seq<char> {
    match e {
        KeyPairError::FailedToGenerateKeyPair => "Failed to generate key pair"@,
        KeyPairError::InvalidBytes => "Invalid byte representation"@,
        KeyPairError::InvalidHex => "Invalid hexadecimal representation"@,
        KeyPairError::InvalidPublicKey => "Invalid public key"@,
        KeyPairError::InvalidSecretKey => "Invalid secret key"@,
        KeyPairError::Custom => "Key pair failure"@,
    }
}

pub open spec fn hash_error_text(e: HashError) -> Seq<char> {
    match e {
        HashError::InvalidBytes => "Invalid byte representation"@,
        HashError::InvalidHex => "Invalid hexadecimal representation"@,
        HashError::HashingError => "Hashing error"@,
    }
}

pub open spec fn wallet_error_text(e: WalletError) -> Seq<char> {
    match e {
        WalletError::InsufficientBalance => "Insufficient balance"@,
        WalletError::InvalidAddress => "Invalid address"@,
        WalletError::TransactionError(t) => "Transaction error: "@ + transaction_error_text(t),
    }
}

pub open spec fn wallet_manager_error_text(e: WalletManagerError) -> Seq<char> {
    match e {
        WalletManagerError::WalletError(w) => "Wallet error while scale: "@ + wallet_error_text(w),
    }
}

pub open spec fn monitor_error_text(e: MonitorError) -> Seq<char> {
    match e {
        MonitorError::WalletManagerError(w) => "Wallet manager error: "@
            + wallet_manager_error_text(w),
        MonitorError::Custom => "Monitor failure"@,
        MonitorError::NotRunning => "Monitor is not running"@,
        MonitorError::HealthCheckFailed => "Monitor health check failed"@,
    }
}

pub open spec fn error_text(e: Error) -> Seq<char> {
    match e {
        Error::AddressError(x) => address_error_text(x),
        Error::TransactionError(x) => transaction_error_text(x),
        Error::KeypairError(x) => keypair_error_text(x),
        Error::MonitorError(x) => monitor_error_text(x),
        Error::WalletManagerError(x) => wallet_manager_error_text(x),
        Error::WalletError(x) => wallet_error_text(x),
        Error::HashError(x) => hash_error_text(x),
    }
}

fn append_transaction_error(out: &mut String, e: &TransactionError)
    ensures
        final(out)@ == old(out)@ + transaction_error_text(*e),
{
    match e {
        TransactionError::InvalidTransactionId => out.append("Invalid transaction ID"),
        TransactionError::InvalidBytes => out.append("Invalid transaction bytes"),
        TransactionError::Custom => out.append("Transaction failure"),
    }
}

fn append_wallet_error(out: &mut String, e: &WalletError)
    ensures
        final(out)@ == old(out)@ + wallet_error_text(*e),
{
    match e {
        WalletError::InsufficientBalance => out.append("Insufficient balance"),
        WalletError::InvalidAddress => out.append("Invalid address"),
        WalletError::TransactionError(t) => {
            out.append("Transaction error: ");
            append_transaction_error(out, t);
        },
    }
}

fn append_wallet_manager_error(out: &mut String, e: &WalletManagerError)
    ensures
        final(out)@ == old(out)@ + wallet_manager_error_text(*e),
{
    match e {
        WalletManagerError::WalletError(w) => {
            out.append("Wallet error while scale: ");
            append_wallet_error(out, w);
        },
    }
}

fn append_monitor_error(out: &mut String, e: &MonitorError)
    ensures
        final(out)@ == old(out)@ + monitor_error_text(*e),
{
    match e {
        MonitorError::WalletManagerError(w) => {
            out.append("Wallet manager error: ");
            append_wallet_manager_error(out, w);
        },
        MonitorError::Custom => out.append("Monitor failure"),
        MonitorError::NotRunning => out.append("Monitor is not running"),
        MonitorError::HealthCheckFailed => out.append("Monitor health check failed"),
    }
}

impl Error {
    /// The human-readable message surfaced for this error.
    pub fn message(&self) -> (out: String)
        ensures
            out@ == error_text(*self),
    {
        let mut out = String::new();
        match self {
            Error::AddressError(x) => {
                match x {
                    AddressError::InvalidFormat => out.append("Invalid address format"),
                    AddressError::ParseError => out.append("Failed to parse address"),
                    AddressError::UnsupportedFormat => out.append("Unsupported address format"),
                    AddressError::InvalidPublicKey => out.append("Invalid public key"),
                    AddressError::InvalidSecretKey => out.append("Invalid secret key"),
                }
            },
            Error::TransactionError(x) => append_transaction_error(&mut out, x),
            Error::KeypairError(x) => {
                match x {
                    KeyPairError::FailedToGenerateKeyPair => out.append(
                        "Failed to generate key pair",
                    ),
                    KeyPairError::InvalidBytes => out.append("Invalid byte representation"),
                    KeyPairError::InvalidHex => out.append("Invalid hexadecimal representation"),
                    KeyPairError::InvalidPublicKey => out.append("Invalid public key"),
                    KeyPairError::InvalidSecretKey => out.append("Invalid secret key"),
                    KeyPairError::Custom => out.append("Key pair failure"),
                }
            },
            Error::MonitorError(x) => append_monitor_error(&mut out, x),
            Error::WalletManagerError(x) => append_wallet_manager_error(&mut out, x),
            Error::WalletError(x) => append_wallet_error(&mut out, x),
            Error::HashError(x) => {
                match x {
                    HashError::InvalidBytes => out.append("Invalid byte representation"),
                    HashError::InvalidHex => out.append("Invalid hexadecimal representation"),
                    HashError::HashingError => out.append("Hashing error"),
                }
            },
        }
        out
    }
}

} // verus!
