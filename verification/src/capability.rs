//! Capability interfaces: the boundaries an alternative chain binding plugs
//! into. Each is implemented here by the crate's own concrete types, whose
//! inherent methods carry the full verified contracts; the traits state the
//! shape of the capability and the invariants its mutators must keep.
use vstd::prelude::*;

use crate::address::AddressError;
use crate::hash::HashError;
use crate::keypair::KeyPairError;
use crate::monitor::MonitorError;
use crate::transaction::TransactionError;
use crate::wallet::WalletError;
use crate::wallet::WalletManagerError;

verus! {

/// The format tag of an address family.
pub trait Format: Sized {

}

impl Format for crate::address::Format {

}

/// A network a chain binding can name; no binding ships with this crate.
pub trait Network: Sized {

}

/// The identifier of a confirmed or pending transaction.
pub trait TransactionId: Sized {

}

impl TransactionId for crate::transaction::TransactionId {

}

/// A hash value with lossless byte and hexadecimal serialization.
pub trait Hash: Sized {
    fn from_bytes(bytes: &[u8]) -> Result<Self, HashError>;

    fn to_bytes(&self) -> Vec<u8>;

    fn from_hex(hex: &str) -> Result<Self, HashError>;

    fn to_hex(&self) -> String;
}

impl Hash for crate::hash::Hash {
    fn from_bytes(bytes: &[u8]) -> Result<Self, HashError> {
        crate::hash::Hash::from_bytes(bytes)
    }

    fn to_bytes(&self) -> Vec<u8> {
        crate::hash::Hash::to_bytes(self)
    }

    fn from_hex(hex: &str) -> Result<Self, HashError> {
        crate::hash::Hash::from_hex(hex)
    }

    fn to_hex(&self) -> String {
        crate::hash::Hash::to_hex(self)
    }
}

/// A secret key: deterministic generation from a seed, lossless
/// serialization, and derivation of exactly one public key.
pub trait SecretKey: Sized {
    type PublicKey;

    fn new(seed: u64) -> Self;

    fn to_bytes(&self) -> Vec<u8>;

    fn from_bytes(bytes: &[u8]) -> Result<Self, KeyPairError>;

    fn to_hex(&self) -> String;

    fn from_hex(hex: &str) -> Result<Self, KeyPairError>;

    fn pubkey(&self) -> Self::PublicKey;
}

impl SecretKey for crate::keypair::SecretKey {
    type PublicKey = crate::keypair::PublicKey;

    fn new(seed: u64) -> Self {
        crate::keypair::SecretKey::new(seed)
    }

    fn to_bytes(&self) -> Vec<u8> {
        crate::keypair::SecretKey::to_bytes(self)
    }

    fn from_bytes(bytes: &[u8]) -> Result<Self, KeyPairError> {
        crate::keypair::SecretKey::from_bytes(bytes)
    }

    fn to_hex(&self) -> String {
        crate::keypair::SecretKey::to_hex(self)
    }

    fn from_hex(hex: &str) -> Result<Self, KeyPairError> {
        crate::keypair::SecretKey::from_hex(hex)
    }

    fn pubkey(&self) -> Self::PublicKey {
        crate::keypair::SecretKey::pubkey(self)
    }
}

/// A public key, derivable from its secret key, with lossless serialization.
pub trait PublicKey: Sized {
    type SecretKey;

    fn from_secret_key(secret_key: &Self::SecretKey) -> Self;

    fn to_bytes(&self) -> Vec<u8>;

    fn from_bytes(bytes: &[u8]) -> Result<Self, KeyPairError>;

    fn to_hex(&self) -> String;

    fn from_hex(hex: &str) -> Result<Self, KeyPairError>;
}

impl PublicKey for crate::keypair::PublicKey {
    type SecretKey = crate::keypair::SecretKey;

    fn from_secret_key(secret_key: &Self::SecretKey) -> Self {
        crate::keypair::PublicKey::from_secret_key(secret_key)
    }

    fn to_bytes(&self) -> Vec<u8> {
        crate::keypair::PublicKey::to_bytes(self)
    }

    fn from_bytes(bytes: &[u8]) -> Result<Self, KeyPairError> {
        crate::keypair::PublicKey::from_bytes(bytes)
    }

    fn to_hex(&self) -> String {
        crate::keypair::PublicKey::to_hex(self)
    }

    fn from_hex(hex: &str) -> Result<Self, KeyPairError> {
        crate::keypair::PublicKey::from_hex(hex)
    }
}

/// An address derivable from key material in a chosen format.
pub trait Address: Sized {
    type SecretKey;
    type PublicKey;
    type Format;

    fn from_secret_key(secret_key: &Self::SecretKey, format: &Self::Format) -> Result<
        Self,
        AddressError,
    >;

    fn from_public_key(public_key: &Self::PublicKey, format: &Self::Format) -> Result<
        Self,
        AddressError,
    >;

    fn is_valid(address: &str) -> bool;
}

impl Address for crate::address::Address {
    type SecretKey = crate::keypair::SecretKey;
    type PublicKey = crate::keypair::PublicKey;
    type Format = crate::address::Format;

    fn from_secret_key(secret_key: &Self::SecretKey, format: &Self::Format) -> Result<
        Self,
        AddressError,
    > {
        crate::address::Address::from_secret_key(secret_key, format)
    }

    fn from_public_key(public_key: &Self::PublicKey, format: &Self::Format) -> Result<
        Self,
        AddressError,
    > {
        crate::address::Address::from_public_key(public_key, format)
    }

    fn is_valid(address: &str) -> bool {
        crate::address::Address::is_valid(address)
    }
}

/// A transfer value object with an identifier, a digest and lossless bytes.
pub trait Transaction: Sized {
    type Address;
    type TransactionId;
    type TransactionParameters;
    type Hash;

    fn new(from: Self::Address, to: Self::Address, parameters: Self::TransactionParameters) -> Self;

    fn transaction_id(&self) -> Result<Self::TransactionId, TransactionError>;

    fn hash(&self) -> Self::Hash;

    fn from_bytes(bytes: &[u8]) -> Result<Self, TransactionError>;

    fn to_bytes(&self) -> Vec<u8>;
}

impl Transaction for crate::transaction::Transaction {
    type Address = crate::address::Address;
    type TransactionId = crate::transaction::TransactionId;
    type TransactionParameters = crate::transaction::TransactionParameters;
    type Hash = crate::hash::Hash;

    fn new(
        from: Self::Address,
        to: Self::Address,
        parameters: Self::TransactionParameters,
    ) -> Self {
        crate::transaction::Transaction::new(from, to, parameters)
    }

    fn transaction_id(&self) -> Result<Self::TransactionId, TransactionError> {
        crate::transaction::Transaction::transaction_id(self)
    }

    fn hash(&self) -> Self::Hash {
        crate::transaction::Transaction::hash(self)
    }

    fn from_bytes(bytes: &[u8]) -> Result<Self, TransactionError> {
        crate::transaction::Transaction::from_bytes(bytes)
    }

    fn to_bytes(&self) -> Vec<u8> {
        crate::transaction::Transaction::to_bytes(self)
    }
}

/// The signature payload derived from a transaction.
pub trait TransactionSignature: Sized {
    type Transaction;

    fn from_transaction(transaction: &Self::Transaction) -> Self;

    fn to_transaction(&self) -> Self::Transaction;
}

impl TransactionSignature for crate::transaction::TransactionSignature {
    type Transaction = crate::transaction::Transaction;

    fn from_transaction(transaction: &Self::Transaction) -> Self {
        crate::transaction::TransactionSignature::from_transaction(transaction)
    }

    fn to_transaction(&self) -> Self::Transaction {
        crate::transaction::TransactionSignature::to_transaction(self)
    }
}

/// A transaction together with its signature, losslessly serializable.
pub trait SignedTransaction: Sized {
    fn signature(&self) -> Vec<u8>;

    fn from_bytes(bytes: &[u8]) -> Result<Self, TransactionError>;

    fn to_bytes(&self) -> Vec<u8>;
}

impl SignedTransaction for crate::transaction::SignedTransaction {
    fn signature(&self) -> Vec<u8> {
        crate::transaction::SignedTransaction::signature(self)
    }

    fn from_bytes(bytes: &[u8]) -> Result<Self, TransactionError> {
        crate::transaction::SignedTransaction::from_bytes(bytes)
    }

    fn to_bytes(&self) -> Vec<u8> {
        crate::transaction::SignedTransaction::to_bytes(self)
    }
}

/// One fleet member: address, key material, balance, history, signing.
pub trait Wallet: Sized {
    type Transaction;
    type SignedTransaction;
    type Address;
    type PublicKey;
    type SecretKey;

    fn address(&self) -> &Self::Address;

    fn secret_key(&self) -> &Self::SecretKey;

    fn pubkey(&self) -> &Self::PublicKey;

    fn balance(&self) -> u64;

    fn sign_transaction(&self, transaction: &Self::Transaction) -> Result<
        Self::SignedTransaction,
        WalletError,
    >;

    fn verify_transaction_signature(&self, signed_transaction: &Self::SignedTransaction) -> Result<
        bool,
        WalletError,
    >;

    fn transfer_funds(&self, to: &Self::Address, amount: u64) -> Result<
        Self::Transaction,
        WalletError,
    >;

    fn transaction_history(&self) -> Vec<Self::Transaction>;

    fn has_sufficient_balance(&self, amount: u64) -> bool;
}

impl Wallet for crate::wallet::Wallet {
    type Transaction = crate::transaction::Transaction;
    type SignedTransaction = crate::transaction::SignedTransaction;
    type Address = crate::address::Address;
    type PublicKey = crate::keypair::PublicKey;
    type SecretKey = crate::keypair::SecretKey;

    fn address(&self) -> &Self::Address {
        crate::wallet::Wallet::address(self)
    }

    fn secret_key(&self) -> &Self::SecretKey {
        crate::wallet::Wallet::secret_key(self)
    }

    fn pubkey(&self) -> &Self::PublicKey {
        crate::wallet::Wallet::pubkey(self)
    }

    fn balance(&self) -> u64 {
        crate::wallet::Wallet::balance(self)
    }

    fn sign_transaction(&self, transaction: &Self::Transaction) -> Result<
        Self::SignedTransaction,
        WalletError,
    > {
        crate::wallet::Wallet::sign_transaction(self, transaction)
    }

    fn verify_transaction_signature(&self, signed_transaction: &Self::SignedTransaction) -> Result<
        bool,
        WalletError,
    > {
        crate::wallet::Wallet::verify_transaction_signature(self, signed_transaction)
    }

    fn transfer_funds(&self, to: &Self::Address, amount: u64) -> Result<
        Self::Transaction,
        WalletError,
    > {
        crate::wallet::Wallet::transfer_funds(self, to, amount)
    }

    fn transaction_history(&self) -> Vec<Self::Transaction> {
        crate::wallet::Wallet::transaction_history(self)
    }

    fn has_sufficient_balance(&self, amount: u64) -> bool {
        crate::wallet::Wallet::has_sufficient_balance(self, amount)
    }
}

/// The fleet owner: the sole mutator of the wallet set. Every mutator keeps
/// the implementation's invariant; resource preconditions are stated by the
/// implementation through the guard spec functions.
pub trait WalletManager: Sized {
    type Wallet;
    type Address;
    type TransactionId;

    spec fn inv(&self) -> bool;

    /// Whether one more wallet can be created (key material not exhausted).
    spec fn can_create(&self) -> bool;

    /// Whether the fleet can be scaled to `count` wallets.
    spec fn can_scale(&self, count: u64) -> bool;

    fn create_wallet(&mut self) -> (w: Self::Wallet)
        requires
            old(self).inv(),
            old(self).can_create(),
        ensures
            final(self).inv(),
    ;

    fn delete_and_transfer(&mut self, source: &Self::Address, target: &Self::Address) -> (r: Result<
        Self::Wallet,
        WalletManagerError,
    >)
        requires
            old(self).inv(),
        ensures
            final(self).inv(),
    ;

    fn delete_and_distribute(&mut self, source: &Self::Address, targets: &Vec<Self::Address>) -> (r:
        Result<Vec<Self::Wallet>, WalletManagerError>)
        requires
            old(self).inv(),
        ensures
            final(self).inv(),
    ;

    fn scale_to(&mut self, count: u64) -> (r: Result<Vec<Self::Wallet>, WalletManagerError>)
        requires
            old(self).inv(),
            old(self).can_scale(count),
        ensures
            final(self).inv(),
    ;

    fn retrieve_address(&self) -> (r: Result<Self::Address, WalletManagerError>)
        requires
            self.inv(),
    ;

    fn send_transaction(&mut self, to: &Self::Address, amount: u64) -> (r: Result<
        Self::TransactionId,
        WalletManagerError,
    >)
        requires
            old(self).inv(),
        ensures
            final(self).inv(),
    ;

    fn send_transaction_from(
        &mut self,
        from: &Self::Address,
        to: &Self::Address,
        amount: u64,
    ) -> (r: Result<Self::TransactionId, WalletManagerError>)
        requires
            old(self).inv(),
        ensures
            final(self).inv(),
    ;

    fn list_wallets(&self) -> Result<Vec<Self::Wallet>, WalletManagerError>;

    fn retrieve_balance(&self, address: &Self::Address) -> Result<u64, WalletManagerError>;

    fn retrieve_balances(&self) -> Result<Vec<(Self::Address, u64)>, WalletManagerError>;
}

impl WalletManager for crate::wallet::WalletManager {
    type Wallet = crate::wallet::Wallet;
    type Address = crate::address::Address;
    type TransactionId = crate::transaction::TransactionId;

    open spec fn inv(&self) -> bool {
        self.wf()
    }

    open spec fn can_create(&self) -> bool {
        self.next_seed < u64::MAX
    }

    open spec fn can_scale(&self, count: u64) -> bool {
        self.next_seed + count <= u64::MAX && count <= usize::MAX
    }

    fn create_wallet(&mut self) -> (w: Self::Wallet) {
        crate::wallet::WalletManager::create_wallet(self)
    }

    fn delete_and_transfer(&mut self, source: &Self::Address, target: &Self::Address) -> (r: Result<
        Self::Wallet,
        WalletManagerError,
    >) {
        crate::wallet::WalletManager::delete_and_transfer(self, source, target)
    }

    fn delete_and_distribute(&mut self, source: &Self::Address, targets: &Vec<Self::Address>) -> (r:
        Result<Vec<Self::Wallet>, WalletManagerError>) {
        crate::wallet::WalletManager::delete_and_distribute(self, source, targets)
    }

    fn scale_to(&mut self, count: u64) -> (r: Result<Vec<Self::Wallet>, WalletManagerError>) {
        crate::wallet::WalletManager::scale_to(self, count)
    }

    fn retrieve_address(&self) -> (r: Result<Self::Address, WalletManagerError>) {
        crate::wallet::WalletManager::retrieve_address(self)
    }

    fn send_transaction(&mut self, to: &Self::Address, amount: u64) -> (r: Result<
        Self::TransactionId,
        WalletManagerError,
    >) {
        crate::wallet::WalletManager::send_transaction(self, to, amount)
    }

    fn send_transaction_from(
        &mut self,
        from: &Self::Address,
        to: &Self::Address,
        amount: u64,
    ) -> (r: Result<Self::TransactionId, WalletManagerError>) {
        crate::wallet::WalletManager::send_transaction_from(self, from, to, amount)
    }

    fn list_wallets(&self) -> Result<Vec<Self::Wallet>, WalletManagerError> {
        crate::wallet::WalletManager::list_wallets(self)
    }

    fn retrieve_balance(&self, address: &Self::Address) -> Result<u64, WalletManagerError> {
        crate::wallet::WalletManager::retrieve_balance(self, address)
    }

    fn retrieve_balances(&self) -> Result<Vec<(Self::Address, u64)>, WalletManagerError> {
        crate::wallet::WalletManager::retrieve_balances(self)
    }
}

/// The background synchronization lifecycle.
pub trait Monitor: Sized {
    fn start(&mut self) -> Result<(), MonitorError>;

    fn stop(&mut self) -> Result<(), MonitorError>;

    fn is_running(&self) -> bool;

    fn restart(&mut self) -> Result<(), MonitorError>;

    fn health_check() -> Result<(), MonitorError>;
}

impl Monitor for crate::monitor::Monitor {
    fn start(&mut self) -> Result<(), MonitorError> {
        crate::monitor::Monitor::start(self)
    }

    fn stop(&mut self) -> Result<(), MonitorError> {
        crate::monitor::Monitor::stop(self)
    }

    fn is_running(&self) -> bool {
        crate::monitor::Monitor::is_running(self)
    }

    fn restart(&mut self) -> Result<(), MonitorError> {
        crate::monitor::Monitor::restart(self)
    }

    fn health_check() -> Result<(), MonitorError> {
        crate::monitor::Monitor::health_check()
    }
}

/// A durable key/value capability mapping addresses to key material.
pub trait Storage: Sized {
    type Key;
    type Value;

    spec fn inv(&self) -> bool;

    fn get(&self, key: Self::Key) -> Option<Self::Value>;

    fn set(&mut self, key: Self::Key, value: Self::Value)
        requires
            old(self).inv(),
        ensures
            final(self).inv(),
    ;

    fn remove(&mut self, key: Self::Key)
        requires
            old(self).inv(),
        ensures
            final(self).inv(),
    ;

    fn clear(&mut self)
        ensures
            final(self).inv(),
    ;

    fn contains_key(&self, key: &Self::Key) -> bool;

    fn len(&self) -> usize;

    fn is_empty(&self) -> bool;

    fn iter(&self) -> Vec<(Self::Key, Self::Value)>;

    fn keys(&self) -> Vec<Self::Key>;

    fn values(&self) -> Vec<Self::Value>;
}

impl Storage for crate::storage::Storage {
    type Key = crate::address::Address;
    type Value = crate::keypair::SecretKey;

    open spec fn inv(&self) -> bool {
        self.wf()
    }

    fn get(&self, key: Self::Key) -> Option<Self::Value> {
        crate::storage::Storage::get(self, key)
    }

    fn set(&mut self, key: Self::Key, value: Self::Value) {
        crate::storage::Storage::set(self, key, value)
    }

    fn remove(&mut self, key: Self::Key) {
        crate::storage::Storage::remove(self, key)
    }

    fn clear(&mut self) {
        crate::storage::Storage::clear(self)
    }

    fn contains_key(&self, key: &Self::Key) -> bool {
        crate::storage::Storage::contains_key(self, key)
    }

    fn len(&self) -> usize {
        crate::storage::Storage::len(self)
    }

    fn is_empty(&self) -> bool {
        crate::storage::Storage::is_empty(self)
    }

    fn iter(&self) -> Vec<(Self::Key, Self::Value)> {
        crate::storage::Storage::iter(self)
    }

    fn keys(&self) -> Vec<Self::Key> {
        crate::storage::Storage::keys(self)
    }

    fn values(&self) -> Vec<Self::Value> {
        crate::storage::Storage::values(self)
    }
}

} // verus!
