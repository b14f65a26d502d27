//! The wallet fleet. A `Wallet` owns an address, its key material, a balance
//! and a transaction history; the `WalletManager` owns the fleet and is the
//! sole mutator, enforcing two invariants across every operation: no two live
//! wallets share an address, and internal operations move balance between
//! wallets without creating or destroying it.
use vstd::prelude::*;
use vstd::pervasive::VecAdditionalExecFns;

use crate::address::Address;
use crate::address::Format;
use crate::keypair::PublicKey;
use crate::keypair::SecretKey;
use crate::transaction::SignedTransaction;
use crate::transaction::Transaction;
use crate::transaction::TransactionError;
use crate::transaction::TransactionId;
use crate::transaction::TransactionParameters;

verus! {

#[derive(Clone, Copy, Debug, PartialEq, Eq, Structural)]
pub enum WalletError {
    InsufficientBalance,
    InvalidAddress,
    TransactionError(TransactionError),
}

#[derive(Clone, Copy, Debug, PartialEq, Eq, Structural)]
pub enum WalletManagerError {
    WalletError(WalletError),
}

/// One fleet member.
#[derive(Clone, Debug)]
pub struct Wallet {
    pub address: Address,
    pub secret_key: SecretKey,
    pub public_key: PublicKey,
    pub balance: u64,
    pub history: Vec<Transaction>,
}

impl Wallet {
    /// Key and address coherence: the public key and the address both derive
    /// from the wallet's secret key.
    pub open spec fn wf(self) -> bool {
        &&& self.public_key.id == self.secret_key.id
        &&& self.address.id == self.secret_key.id
    }

    pub fn address(&self) -> (r: &Address)
        ensures
            *r == self.address,
    {
        &self.address
    }

    pub fn secret_key(&self) -> (r: &SecretKey)
        ensures
            *r == self.secret_key,
    {
        &self.secret_key
    }

    pub fn pubkey(&self) -> (r: &PublicKey)
        ensures
            *r == self.public_key,
    {
        &self.public_key
    }

    pub fn balance(&self) -> (r: u64)
        ensures
            r == self.balance,
    {
        self.balance
    }

    pub fn has_sufficient_balance(&self, amount: u64) -> (r: bool)
        ensures
            r == (self.balance >= amount),
    {
        self.balance >= amount
    }

    /// Signs a transaction with this wallet's key; only transactions drawn on
    /// this wallet's own address can be signed here.
    pub fn sign_transaction(&self, transaction: &Transaction) -> (r: Result<
        SignedTransaction,
        WalletError,
    >)
        ensures
            match r {
                Ok(s) => transaction.from == self.address && s.transaction == *transaction
                    && s.signer == self.secret_key.id,
                Err(e) => transaction.from != self.address && e == WalletError::InvalidAddress,
            },
    {
        if self.address.id == transaction.from.id && self.address.format == transaction.from.format {
            Ok(SignedTransaction { transaction: *transaction, signer: self.secret_key.id })
        } else {
            Err(WalletError::InvalidAddress)
        }
    }

    /// Whether a signed transaction carries this wallet's own signature over
    /// its transaction; a pure function of the two values.
    pub fn verify_transaction_signature(&self, signed_transaction: &SignedTransaction) -> (r:
        Result<bool, WalletError>)
        ensures
            r == Ok::<bool, WalletError>(signed_transaction.signer == self.public_key.id),
    {
        Ok(signed_transaction.signer == self.public_key.id)
    }

    /// Builds (but does not record or debit) a transfer from this wallet. The
    /// manager performs the debit so that debit and transaction creation form
    /// one atomic step.
    pub fn transfer_funds(&self, to: &Address, amount: u64) -> (r: Result<Transaction, WalletError>)
        ensures
            match r {
                Ok(t) => amount <= self.balance && t == (Transaction {
                    from: self.address,
                    to: *to,
                    parameters: TransactionParameters { amount, nonce: self.history@.len() as u64 },
                }),
                Err(e) => amount > self.balance && e == WalletError::InsufficientBalance,
            },
        returns (if amount <= self.balance {
            Ok::<Transaction, WalletError>(Transaction {
                from: self.address,
                to: *to,
                parameters: TransactionParameters { amount, nonce: self.history@.len() as u64 },
            })
        } else {
            Err(WalletError::InsufficientBalance)
        }),
    {
        if amount > self.balance {
            return Err(WalletError::InsufficientBalance);
        }
        let nonce = self.history.len() as u64;
        Ok(Transaction {
            from: self.address,
            to: *to,
            parameters: TransactionParameters { amount, nonce },
        })
    }

    /// The ordered, append-only list of transactions this wallet has signed.
    pub fn transaction_history(&self) -> (r: Vec<Transaction>)
        ensures
            r@ == self.history@,
    {
        vstd::slice::slice_to_vec(self.history.as_slice())
    }

    /// An owned copy of this wallet, field for field.
    pub fn snapshot(&self) -> (r: Wallet)
        ensures
            r.address == self.address,
            r.secret_key == self.secret_key,
            r.public_key == self.public_key,
            r.balance == self.balance,
            r.history@ == self.history@,
    {
        Wallet {
            address: self.address,
            secret_key: self.secret_key,
            public_key: self.public_key,
            balance: self.balance,
            history: vstd::slice::slice_to_vec(self.history.as_slice()),
        }
    }
}

/// The sum of all balances in a fleet slice.
pub open spec fn sum_balances(s: Seq<Wallet>) -> nat
    decreases s.len(),
{
    if s.len() == 0 {
        0
    } else {
        (s[0].balance + sum_balances(s.subrange(1, s.len() as int))) as nat
    }
}

/// The first wallet with the given address, if any.
pub open spec fn find_wallet(s: Seq<Wallet>, a: Address) -> Option<Wallet>
    decreases s.len(),
{
    if s.len() == 0 {
        None
    } else if s[0].address == a {
        Some(s[0])
    } else {
        find_wallet(s.subrange(1, s.len() as int), a)
    }
}

/// Whether a wallet with this address is live in the fleet slice.
pub open spec fn is_live(s: Seq<Wallet>, a: Address) -> bool {
    find_wallet(s, a) is Some
}

pub proof fn lemma_sum_push(s: Seq<Wallet>, w: Wallet)
    ensures
        sum_balances(s.push(w)) == sum_balances(s) + w.balance,
    decreases s.len(),
{
    let p = s.push(w);
    assert(p.len() == s.len() + 1);
    assert(sum_balances(p) == (p[0].balance + sum_balances(p.subrange(1, p.len() as int))) as nat);
    if s.len() == 0 {
        assert(p[0] == w);
        assert(p.subrange(1, 1) =~= Seq::<Wallet>::empty());
    } else {
        assert(p[0] == s[0]);
        assert(p.subrange(1, s.len() as int + 1) =~= s.subrange(1, s.len() as int).push(w));
        lemma_sum_push(s.subrange(1, s.len() as int), w);
    }
}

pub proof fn lemma_sum_update(s: Seq<Wallet>, i: int, w: Wallet)
    requires
        0 <= i < s.len(),
    ensures
        sum_balances(s.update(i, w)) == sum_balances(s) - s[i].balance + w.balance,
    decreases s.len(),
{
    let rest = s.subrange(1, s.len() as int);
    if i == 0 {
        assert(s.update(0, w).subrange(1, s.len() as int) =~= rest);
    } else {
        assert(s.update(i, w).subrange(1, s.len() as int) =~= rest.update(i - 1, w));
        lemma_sum_update(rest, i - 1, w);
    }
}

pub proof fn lemma_sum_remove(s: Seq<Wallet>, i: int)
    requires
        0 <= i < s.len(),
    ensures
        sum_balances(s.remove(i)) == sum_balances(s) - s[i].balance,
    decreases s.len(),
{
    let rest = s.subrange(1, s.len() as int);
    if i == 0 {
        assert(s.remove(0) =~= rest);
    } else {
        assert(s.remove(i).subrange(1, s.len() as int - 1) =~= rest.remove(i - 1));
        assert(s.remove(i)[0] == s[0]);
        lemma_sum_remove(rest, i - 1);
    }
}

/// Every single balance is bounded by the fleet total.
pub proof fn lemma_sum_element(s: Seq<Wallet>, i: int)
    requires
        0 <= i < s.len(),
    ensures
        s[i].balance <= sum_balances(s),
    decreases s.len(),
{
    let rest = s.subrange(1, s.len() as int);
    if i > 0 {
        lemma_sum_element(rest, i - 1);
    }
}

/// Any two distinct balances are jointly bounded by the fleet total.
pub proof fn lemma_sum_pair(s: Seq<Wallet>, i: int, j: int)
    requires
        0 <= i < s.len(),
        0 <= j < s.len(),
        i != j,
    ensures
        s[i].balance + s[j].balance <= sum_balances(s),
{
    let j2 = if j > i {
        j - 1
    } else {
        j
    };
    lemma_sum_remove(s, i);
    assert(s.remove(i)[j2] == s[j]);
    lemma_sum_element(s.remove(i), j2);
}

pub proof fn lemma_find_index(s: Seq<Wallet>, a: Address, i: int)
    requires
        0 <= i < s.len(),
        s[i].address == a,
        forall|k: int| 0 <= k < i ==> (#[trigger] s[k]).address != a,
    ensures
        find_wallet(s, a) == Some(s[i]),
    decreases s.len(),
{
    if i > 0 {
        let rest = s.subrange(1, s.len() as int);
        lemma_find_index(rest, a, i - 1);
    }
}

pub proof fn lemma_find_is_at(s: Seq<Wallet>, a: Address)
    requires
        find_wallet(s, a) is Some,
    ensures
        exists|i: int|
            0 <= i < s.len() && #[trigger] s[i].address == a && find_wallet(s, a) == Some(s[i]),
    decreases s.len(),
{
    let rest = s.subrange(1, s.len() as int);
    if s[0].address == a {
        assert(s[0].address == a && find_wallet(s, a) == Some(s[0]));
    } else {
        lemma_find_is_at(rest, a);
        let i = choose|i: int|
            0 <= i < rest.len() && #[trigger] rest[i].address == a && find_wallet(rest, a)
                == Some(rest[i]);
        assert(s[i + 1].address == a && find_wallet(s, a) == Some(s[i + 1]));
    }
}

pub proof fn lemma_find_none(s: Seq<Wallet>, a: Address)
    requires
        forall|i: int| 0 <= i < s.len() ==> (#[trigger] s[i]).address != a,
    ensures
        find_wallet(s, a) is None,
    decreases s.len(),
{
    if s.len() > 0 {
        let rest = s.subrange(1, s.len() as int);
        lemma_find_none(rest, a);
    }
}

/// Removing one wallet leaves lookups of every other address unchanged.
pub proof fn lemma_find_remove(s: Seq<Wallet>, i: int, a: Address)
    requires
        0 <= i < s.len(),
        s[i].address != a,
    ensures
        find_wallet(s.remove(i), a) == find_wallet(s, a),
    decreases s.len(),
{
    let rest = s.subrange(1, s.len() as int);
    if i == 0 {
        assert(s.remove(0) =~= rest);
    } else {
        assert(s.remove(i)[0] == s[0]);
        assert(s.remove(i).subrange(1, s.len() as int - 1) =~= rest.remove(i - 1));
        if s[0].address != a {
            lemma_find_remove(rest, i - 1, a);
        }
    }
}

/// Updating one wallet in place changes only that address's lookup.
pub proof fn lemma_find_update(s: Seq<Wallet>, i: int, w: Wallet, a: Address)
    requires
        0 <= i < s.len(),
        w.address == s[i].address,
        forall|k: int| 0 <= k < s.len() && k != i ==> (#[trigger] s[k]).address != s[i].address,
    ensures
        find_wallet(s.update(i, w), a) == if a == s[i].address {
            Some(w)
        } else {
            find_wallet(s, a)
        },
    decreases s.len(),
{
    let rest = s.subrange(1, s.len() as int);
    if i == 0 {
        assert(s.update(0, w).subrange(1, s.len() as int) =~= rest);
        if a == s[0].address {
        } else {
            assert(find_wallet(s.update(0, w), a) == find_wallet(rest, a));
        }
    } else {
        assert(s.update(i, w).subrange(1, s.len() as int) =~= rest.update(i - 1, w));
        assert(s.update(i, w)[0] == s[0]);
        lemma_find_update(rest, i - 1, w, a);
    }
}

/// Appending a wallet leaves lookups of every other address unchanged.
pub proof fn lemma_find_push(s: Seq<Wallet>, w: Wallet, a: Address)
    ensures
        find_wallet(s.push(w), a) == if find_wallet(s, a) is Some {
            find_wallet(s, a)
        } else if w.address == a {
            Some(w)
        } else {
            None
        },
    decreases s.len(),
{
    let p = s.push(w);
    assert(p.len() == s.len() + 1);
    assert(find_wallet(p, a) == if p[0].address == a {
        Some(p[0])
    } else {
        find_wallet(p.subrange(1, p.len() as int), a)
    });
    if s.len() == 0 {
        assert(p[0] == w);
        assert(p.subrange(1, 1) =~= Seq::<Wallet>::empty());
    } else {
        assert(p[0] == s[0]);
        assert(p.subrange(1, s.len() as int + 1) =~= s.subrange(1, s.len() as int).push(w));
        lemma_find_push(s.subrange(1, s.len() as int), w, a);
    }
}


/// The address held at any index is live.
pub proof fn lemma_live_at(s: Seq<Wallet>, i: int)
    requires
        0 <= i < s.len(),
    ensures
        is_live(s, s[i].address),
    decreases s.len(),
{
    if s[0].address == s[i].address {
    } else {
        let rest = s.subrange(1, s.len() as int);
        lemma_live_at(rest, i - 1);
    }
}

/// The wallet fleet and its bookkeeping. All new wallets take their key
/// material from the monotone `next_seed` counter, which keeps addresses
/// pairwise distinct for the manager's whole lifetime.
#[derive(Debug)]
pub struct WalletManager {
    pub wallets: Vec<Wallet>,
    pub next_seed: u64,
    pub format: Format,
}

impl WalletManager {
    /// Fleet well-formedness: every wallet is coherent, all addresses are
    /// pairwise distinct, every key identifier is below the seed counter, and
    /// the fleet total fits a machine word.
    pub open spec fn wf(self) -> bool {
        &&& forall|i: int|
            0 <= i < self.wallets@.len() ==> (#[trigger] self.wallets@[i]).wf()
        &&& forall|i: int|
            0 <= i < self.wallets@.len() ==> (#[trigger] self.wallets@[i]).address.id
                < self.next_seed
        &&& forall|i: int, j: int|
            0 <= i < j < self.wallets@.len() ==> (#[trigger] self.wallets@[i]).address.id != (
            #[trigger] self.wallets@[j]).address.id
        &&& sum_balances(self.wallets@) <= u64::MAX
    }

    /// The fleet total, the quantity conserved by every internal operation.
    pub open spec fn total_balance(self) -> nat {
        sum_balances(self.wallets@)
    }

    pub open spec fn live(self, a: Address) -> bool {
        is_live(self.wallets@, a)
    }

    /// An empty fleet issuing addresses in the given format.
    pub fn new(format: Format) -> (r: WalletManager)
        ensures
            r.wf(),
            r.wallets@.len() == 0,
            r.next_seed == 0,
            r.format == format,
            r.total_balance() == 0,
    {
        WalletManager { wallets: Vec::new(), next_seed: 0, format }
    }

    /// Distinct indices hold distinct addresses: no two live wallets ever
    /// share an address.
    pub proof fn lemma_unique_addresses(self)
        requires
            self.wf(),
        ensures
            forall|i: int, j: int|
                0 <= i < self.wallets@.len() && 0 <= j < self.wallets@.len() && i != j ==> (
                #[trigger] self.wallets@[i]).address != (#[trigger] self.wallets@[j]).address,
    {
    }

    /// The index of the live wallet with this address, if any.
    fn find_index(&self, a: &Address) -> (r: Option<usize>)
        ensures
            match r {
                Some(i) => i < self.wallets@.len() && self.wallets@[i as int].address == *a
                    && find_wallet(self.wallets@, *a) == Some(self.wallets@[i as int]),
                None => find_wallet(self.wallets@, *a) is None,
            },
    {
        let n = self.wallets.len();
        let mut i: usize = 0;
        while i < n
            invariant
                i <= n,
                n == self.wallets@.len(),
                forall|k: int| 0 <= k < i ==> (#[trigger] self.wallets@[k]).address != *a,
            decreases n - i,
        {
            let w = &self.wallets[i];
            if w.address.id == a.id && w.address.format == a.format {
                proof {
                    lemma_find_index(self.wallets@, *a, i as int);
                }
                return Some(i);
            }
            i = i + 1;
        }
        proof {
            lemma_find_none(self.wallets@, *a);
        }
        None
    }

    /// Creates a wallet with fresh key material and zero balance and appends
    /// it to the fleet, returning an owned copy. The fleet total is unchanged.
    pub fn create_wallet(&mut self) -> (w: Wallet)
        requires
            old(self).wf(),
            old(self).next_seed < u64::MAX,
        ensures
            final(self).wf(),
            w.wf(),
            w.balance == 0,
            w.history@.len() == 0,
            w.address == (Address { id: old(self).next_seed, format: old(self).format }),
            !old(self).live(w.address),
            final(self).wallets@.len() == old(self).wallets@.len() + 1,
            forall|k: int|
                0 <= k < old(self).wallets@.len() ==> final(self).wallets@[k] == old(
                    self,
                ).wallets@[k],
            final(self).wallets@[old(self).wallets@.len() as int].address == w.address,
            final(self).wallets@[old(self).wallets@.len() as int].balance == 0,
            final(self).next_seed == old(self).next_seed + 1,
            final(self).format == old(self).format,
            final(self).total_balance() == old(self).total_balance(),
            forall|a: Address| a != w.address ==> final(self).live(a) == old(self).live(a),
            final(self).live(w.address),
    {
        let seed = self.next_seed;
        let secret_key = SecretKey::new(seed);
        let public_key = secret_key.pubkey();
        let address = Address { id: seed, format: self.format };
        let w = Wallet { address, secret_key, public_key, balance: 0, history: Vec::new() };
        let copy = w.snapshot();
        proof {
            lemma_sum_push(self.wallets@, w);
            assert forall|a: Address| #[trigger] find_wallet(self.wallets@.push(w), a) == (
            if find_wallet(self.wallets@, a) is Some {
                find_wallet(self.wallets@, a)
            } else if w.address == a {
                Some(w)
            } else {
                None
            }) by {
                lemma_find_push(self.wallets@, w, a);
            }
            if old(self).live(w.address) {
                lemma_find_is_at(self.wallets@, w.address);
            }
        }
        self.wallets.push(w);
        self.next_seed = seed + 1;
        proof {
            assert(final(self).wallets@ == old(self).wallets@.push(w));
        }
        copy
    }

    /// Read-only: the balance of the wallet at this address.
    pub fn retrieve_balance(&self, address: &Address) -> (r: Result<u64, WalletManagerError>)
        ensures
            match r {
                Ok(b) => find_wallet(self.wallets@, *address) matches Some(w) && w.balance == b,
                Err(e) => !self.live(*address) && e == WalletManagerError::WalletError(
                    WalletError::InvalidAddress,
                ),
            },
    {
        match self.find_index(address) {
            Some(i) => Ok(self.wallets[i].balance),
            None => Err(WalletManagerError::WalletError(WalletError::InvalidAddress)),
        }
    }

    /// Read-only: every live wallet's address and balance, in fleet order.
    pub fn retrieve_balances(&self) -> (r: Result<Vec<(Address, u64)>, WalletManagerError>)
        ensures
            r is Ok,
            r.unwrap()@.len() == self.wallets@.len(),
            forall|i: int|
                0 <= i < self.wallets@.len() ==> #[trigger] r.unwrap()@[i] == (
                self.wallets@[i].address, self.wallets@[i].balance),
    {
        let n = self.wallets.len();
        let mut out: Vec<(Address, u64)> = Vec::new();
        let mut i: usize = 0;
        while i < n
            invariant
                i <= n,
                n == self.wallets@.len(),
                out@.len() == i,
                forall|k: int|
                    0 <= k < i ==> #[trigger] out@[k] == (self.wallets@[k].address,
                    self.wallets@[k].balance),
            decreases n - i,
        {
            let w = &self.wallets[i];
            out.push((w.address, w.balance));
            i = i + 1;
        }
        Ok(out)
    }

    /// Read-only: owned copies of every live wallet, in fleet order.
    pub fn list_wallets(&self) -> (r: Result<Vec<Wallet>, WalletManagerError>)
        ensures
            r is Ok,
            r.unwrap()@.len() == self.wallets@.len(),
            forall|i: int|
                0 <= i < self.wallets@.len() ==> (#[trigger] r.unwrap()@[i]).address
                    == self.wallets@[i].address && r.unwrap()@[i].balance
                    == self.wallets@[i].balance && r.unwrap()@[i].history@
                    == self.wallets@[i].history@,
    {
        let n = self.wallets.len();
        let mut out: Vec<Wallet> = Vec::new();
        let mut i: usize = 0;
        while i < n
            invariant
                i <= n,
                n == self.wallets@.len(),
                out@.len() == i,
                forall|k: int|
                    0 <= k < i ==> (#[trigger] out@[k]).address == self.wallets@[k].address
                        && out@[k].balance == self.wallets@[k].balance && out@[k].history@
                        == self.wallets@[k].history@,
            decreases n - i,
        {
            let w = self.wallets[i].snapshot();
            out.push(w);
            i = i + 1;
        }
        Ok(out)
    }

    /// `i` is the poorest wallet's index: strictly lowest balance, ties broken
    /// by the smallest address identifier. Deterministic in the fleet state.
    pub open spec fn is_poorest(self, i: int) -> bool {
        &&& 0 <= i < self.wallets@.len()
        &&& forall|j: int|
            0 <= j < self.wallets@.len() && j != i ==> (self.wallets@[i].balance < (
            #[trigger] self.wallets@[j]).balance || (self.wallets@[i].balance
                == self.wallets@[j].balance && self.wallets@[i].address.id
                < self.wallets@[j].address.id))
    }

    /// `i` is the richest wallet's index: strictly highest balance, ties broken
    /// by the smallest address identifier. Deterministic in the fleet state.
    pub open spec fn is_richest(self, i: int) -> bool {
        &&& 0 <= i < self.wallets@.len()
        &&& forall|j: int|
            0 <= j < self.wallets@.len() && j != i ==> (self.wallets@[i].balance > (
            #[trigger] self.wallets@[j]).balance || (self.wallets@[i].balance
                == self.wallets@[j].balance && self.wallets@[i].address.id
                < self.wallets@[j].address.id))
    }

    fn poorest_index(&self) -> (r: usize)
        requires
            self.wf(),
            self.wallets@.len() > 0,
        ensures
            self.is_poorest(r as int),
    {
        let n = self.wallets.len();
        let mut best: usize = 0;
        let mut i: usize = 1;
        while i < n
            invariant
                1 <= i <= n,
                best < i,
                n == self.wallets@.len(),
                self.wf(),
                forall|j: int|
                    0 <= j < i && j != best ==> (self.wallets@[best as int].balance < (
                    #[trigger] self.wallets@[j]).balance || (self.wallets@[best as int].balance
                        == self.wallets@[j].balance && self.wallets@[best as int].address.id
                        < self.wallets@[j].address.id)),
            decreases n - i,
        {
            let wi = &self.wallets[i];
            let wb = &self.wallets[best];
            if wi.balance < wb.balance || (wi.balance == wb.balance && wi.address.id
                < wb.address.id) {
                best = i;
            }
            i = i + 1;
        }
        best
    }

    fn richest_index(&self) -> (r: usize)
        requires
            self.wf(),
            self.wallets@.len() > 0,
        ensures
            self.is_richest(r as int),
    {
        let n = self.wallets.len();
        let mut best: usize = 0;
        let mut i: usize = 1;
        while i < n
            invariant
                1 <= i <= n,
                best < i,
                n == self.wallets@.len(),
                self.wf(),
                forall|j: int|
                    0 <= j < i && j != best ==> (self.wallets@[best as int].balance > (
                    #[trigger] self.wallets@[j]).balance || (self.wallets@[best as int].balance
                        == self.wallets@[j].balance && self.wallets@[best as int].address.id
                        < self.wallets@[j].address.id)),
            decreases n - i,
        {
            let wi = &self.wallets[i];
            let wb = &self.wallets[best];
            if wi.balance > wb.balance || (wi.balance == wb.balance && wi.address.id
                < wb.address.id) {
                best = i;
            }
            i = i + 1;
        }
        best
    }

    /// The address best placed to receive inbound funds: the poorest wallet's.
    pub fn retrieve_address(&self) -> (r: Result<Address, WalletManagerError>)
        requires
            self.wf(),
        ensures
            match r {
                Ok(a) => exists|i: int| self.is_poorest(i) && a == self.wallets@[i].address,
                Err(e) => self.wallets@.len() == 0 && e == WalletManagerError::WalletError(
                    WalletError::InvalidAddress,
                ),
            },
            r is Ok <==> self.wallets@.len() > 0,
    {
        if self.wallets.len() == 0 {
            return Err(WalletManagerError::WalletError(WalletError::InvalidAddress));
        }
        let i = self.poorest_index();
        let a = self.wallets[i].address;
        proof {
            assert(self.is_poorest(i as int) && a == self.wallets@[i as int].address);
        }
        Ok(a)
    }

    /// Deletes the wallet at `source` and moves its entire balance to the
    /// live wallet at `target`, atomically: on any error the fleet is
    /// unchanged. Moving out is always legal, so insufficiency cannot occur.
    pub fn delete_and_transfer(&mut self, source: &Address, target: &Address) -> (r: Result<
        Wallet,
        WalletManagerError,
    >)
        requires
            old(self).wf(),
        ensures
            final(self).wf(),
            final(self).total_balance() == old(self).total_balance(),
            final(self).next_seed == old(self).next_seed,
            final(self).format == old(self).format,
            r is Ok <==> (old(self).live(*source) && old(self).live(*target) && *source
                != *target),
            match r {
                Ok(w) => {
                    &&& final(self).wallets@.len() + 1 == old(self).wallets@.len()
                    &&& !final(self).live(*source)
                    &&& w.address == *target
                    &&& (match (
                        find_wallet(old(self).wallets@, *source),
                        find_wallet(old(self).wallets@, *target),
                        find_wallet(final(self).wallets@, *target),
                    ) {
                        (Some(sw), Some(tw), Some(nw)) => {
                            &&& nw.balance == tw.balance + sw.balance
                            &&& w.balance == nw.balance
                            &&& nw.history@ == tw.history@
                            &&& w.history@ == tw.history@
                        },
                        _ => false,
                    })
                    &&& forall|a: Address|
                        a != *source && a != *target ==> find_wallet(final(self).wallets@, a)
                            == find_wallet(old(self).wallets@, a)
                },
                Err(e) => *final(self) == *old(self) && e == WalletManagerError::WalletError(
                    WalletError::InvalidAddress,
                ),
            },
    {
        let ghost s0 = self.wallets@;
        let si = match self.find_index(source) {
            Some(i) => i,
            None => {
                return Err(WalletManagerError::WalletError(WalletError::InvalidAddress));
            },
        };
        let ti = match self.find_index(target) {
            Some(i) => i,
            None => {
                return Err(WalletManagerError::WalletError(WalletError::InvalidAddress));
            },
        };
        if si == ti {
            return Err(WalletManagerError::WalletError(WalletError::InvalidAddress));
        }
        proof {
            self.lemma_unique_addresses();
            assert(*source != *target);
            lemma_sum_pair(s0, si as int, ti as int);
        }
        let b = self.wallets[si].balance;
        let old_target = &self.wallets[ti];
        let nw = Wallet {
            address: old_target.address,
            secret_key: old_target.secret_key,
            public_key: old_target.public_key,
            balance: old_target.balance + b,
            history: vstd::slice::slice_to_vec(old_target.history.as_slice()),
        };
        let copy = nw.snapshot();
        self.wallets.set(ti, nw);
        let ghost s1 = self.wallets@;
        self.wallets.remove(si);
        proof {
            let sif = si as int;
            let tif = ti as int;
            lemma_sum_update(s0, tif, s1[tif]);
            lemma_sum_remove(s1, sif);
            assert(s1[sif] == s0[sif]);
            assert(self.wallets@ =~= s1.remove(sif));
            // Lookups of untouched addresses are stable across update and removal.
            assert forall|a: Address| a != *source && a != *target implies find_wallet(
                self.wallets@,
                a,
            ) == find_wallet(s0, a) by {
                lemma_find_update(s0, tif, s1[tif], a);
                lemma_find_remove(s1, sif, a);
            }
            lemma_find_update(s0, tif, s1[tif], *target);
            lemma_find_remove(s1, sif, *target);
            lemma_find_update(s0, tif, s1[tif], *source);
            assert forall|i: int| 0 <= i < self.wallets@.len() implies (
            #[trigger] self.wallets@[i]).wf() && self.wallets@[i].address.id < self.next_seed by {
                let j = if i < sif {
                    i
                } else {
                    i + 1
                };
                assert(self.wallets@[i] == s1[j]);
            }
            assert forall|i: int, j: int|
                0 <= i < j < self.wallets@.len() implies (
            #[trigger] self.wallets@[i]).address.id != (
            #[trigger] self.wallets@[j]).address.id by {
                let i2 = if i < sif {
                    i
                } else {
                    i + 1
                };
                let j2 = if j < sif {
                    j
                } else {
                    j + 1
                };
                assert(self.wallets@[i] == s1[i2]);
                assert(self.wallets@[j] == s1[j2]);
            }
            if self.live(*source) {
                lemma_find_is_at(self.wallets@, *source);
            }
        }
        Ok(copy)
    }

    /// The preconditions under which a distribute-and-delete succeeds: at
    /// least one target, a live source, and live, pairwise-distinct targets
    /// none of which is the source itself.
    pub open spec fn distribute_ok(self, source: Address, targets: Seq<Address>) -> bool {
        &&& targets.len() > 0
        &&& self.live(source)
        &&& forall|j: int|
            0 <= j < targets.len() ==> self.live(#[trigger] targets[j]) && targets[j] != source
        &&& forall|j1: int, j2: int|
            0 <= j1 < j2 < targets.len() ==> targets[j1] != targets[j2]
    }

    /// Deletes the wallet at `source` and splits its balance evenly across
    /// `targets`: each target gains `balance / targets.len()`, and the
    /// remainder goes to the first target. Atomic: on any error the fleet is
    /// unchanged, and the fleet total is conserved in every case.
    #[verifier::loop_isolation(false)]
    pub fn delete_and_distribute(&mut self, source: &Address, targets: &Vec<Address>) -> (r: Result<
        Vec<Wallet>,
        WalletManagerError,
    >)
        requires
            old(self).wf(),
        ensures
            final(self).wf(),
            final(self).total_balance() == old(self).total_balance(),
            final(self).next_seed == old(self).next_seed,
            final(self).format == old(self).format,
            r is Ok <==> old(self).distribute_ok(*source, targets@),
            match r {
                Ok(ws) => {
                    &&& final(self).wallets@.len() + 1 == old(self).wallets@.len()
                    &&& !final(self).live(*source)
                    &&& (find_wallet(old(self).wallets@, *source) matches Some(sw) && {
                        let share = sw.balance as nat / targets@.len();
                        let remainder = sw.balance as nat % targets@.len();
                        &&& forall|j: int|
                            0 <= j < targets@.len() ==> match (
                                find_wallet(old(self).wallets@, #[trigger] targets@[j]),
                                find_wallet(final(self).wallets@, targets@[j]),
                            ) {
                                (Some(tw), Some(nw)) => nw.balance == tw.balance + share + (
                                if j == 0 {
                                    remainder
                                } else {
                                    0
                                }) && nw.history@ == tw.history@,
                                _ => false,
                            }
                        &&& ws@.len() == targets@.len()
                        &&& forall|j: int|
                            0 <= j < targets@.len() ==> (#[trigger] ws@[j]).address == targets@[j]
                                && (match find_wallet(final(self).wallets@, targets@[j]) {
                                Some(nw) => ws@[j].balance == nw.balance,
                                None => false,
                            })
                    })
                    &&& forall|a: Address|
                        a != *source && (forall|j: int| 0 <= j < targets@.len() ==> targets@[j] != a)
                            ==> find_wallet(final(self).wallets@, a) == find_wallet(
                            old(self).wallets@,
                            a,
                        )
                },
                Err(e) => *final(self) == *old(self) && e == WalletManagerError::WalletError(
                    WalletError::InvalidAddress,
                ),
            },
    {
        let ghost s0 = self.wallets@;
        let k = targets.len();
        if k == 0 {
            return Err(WalletManagerError::WalletError(WalletError::InvalidAddress));
        }
        let si = match self.find_index(source) {
            Some(i) => i,
            None => {
                return Err(WalletManagerError::WalletError(WalletError::InvalidAddress));
            },
        };
        // Validate every target before touching the fleet.
        let mut j: usize = 0;
        while j < k
            invariant
                j <= k,
                k == targets@.len(),
                *self == *old(self),
                self.wf(),
                forall|j2: int|
                    0 <= j2 < j ==> self.live(#[trigger] targets@[j2]) && targets@[j2] != *source,
            decreases k - j,
        {
            let t = &targets[j];
            match self.find_index(t) {
                Some(_) => {},
                None => {
                    return Err(WalletManagerError::WalletError(WalletError::InvalidAddress));
                },
            }
            if t.id == source.id && t.format == source.format {
                return Err(WalletManagerError::WalletError(WalletError::InvalidAddress));
            }
            j = j + 1;
        }
        let mut j1: usize = 0;
        while j1 < k
            invariant
                j1 <= k,
                k == targets@.len(),
                *self == *old(self),
                forall|a: int, b2: int| 0 <= a < b2 < k && a < j1 ==> targets@[a] != targets@[b2],
            decreases k - j1,
        {
            let mut j2: usize = j1 + 1;
            while j2 < k
                invariant
                    j1 < j2 <= k,
                    k == targets@.len(),
                    *self == *old(self),
                    forall|b2: int| j1 < b2 < j2 ==> targets@[j1 as int] != targets@[b2],
                decreases k - j2,
            {
                let a = &targets[j1];
                let b = &targets[j2];
                if a.id == b.id && a.format == b.format {
                    return Err(WalletManagerError::WalletError(WalletError::InvalidAddress));
                }
                j2 = j2 + 1;
            }
            j1 = j1 + 1;
        }
        proof {
            assert(old(self).distribute_ok(*source, targets@));
            self.lemma_unique_addresses();
        }
        let b = self.wallets[si].balance;
        let share: u64 = b / (k as u64);
        let remainder: u64 = b % (k as u64);
        proof {
            vstd::arithmetic::div_mod::lemma_fundamental_div_mod(b as int, k as int);
            lemma_sum_remove(s0, si as int);
            lemma_sum_element(s0, si as int);
        }
        self.wallets.remove(si);
        let ghost s1 = self.wallets@;
        proof {
            let sif = si as int;
            assert forall|a: Address| a != *source implies find_wallet(s1, a) == find_wallet(
                s0,
                a,
            ) by {
                lemma_find_remove(s0, sif, a);
            }
            lemma_find_index(s0, *source, sif);
            assert forall|i: int| 0 <= i < s1.len() implies (#[trigger] s1[i]).wf()
                && s1[i].address.id < self.next_seed by {
                let j3 = if i < sif {
                    i
                } else {
                    i + 1
                };
                assert(s1[i] == s0[j3]);
            }
            assert forall|i: int, j3: int| 0 <= i < j3 < s1.len() implies (
            #[trigger] s1[i]).address.id != (#[trigger] s1[j3]).address.id by {
                let i2 = if i < sif {
                    i
                } else {
                    i + 1
                };
                let j4 = if j3 < sif {
                    j3
                } else {
                    j3 + 1
                };
                assert(s1[i] == s0[i2] && s1[j3] == s0[j4]);
            }
            if self.live(*source) {
                lemma_find_is_at(s1, *source);
            }
        }
        // Credit each target; the first also receives the integer remainder.
        let mut jd: usize = 0;
        while jd < k
            invariant
                jd <= k,
                k == targets@.len(),
                k == k,
                share == b as nat / k as nat,
                remainder == b as nat % k as nat,
                b == k * share + remainder,
                self.wallets@.len() == s1.len(),
                self.next_seed == old(self).next_seed,
                self.format == old(self).format,
                sum_balances(s1) + b <= u64::MAX,
                sum_balances(self.wallets@) == sum_balances(s1) + jd * share + (
                if jd > 0 {
                    remainder as int
                } else {
                    0
                }),
                forall|i: int|
                    0 <= i < s1.len() ==> (#[trigger] self.wallets@[i]).address == s1[i].address
                        && self.wallets@[i].secret_key == s1[i].secret_key
                        && self.wallets@[i].public_key == s1[i].public_key
                        && self.wallets@[i].history@ == s1[i].history@ && self.wallets@[i].wf()
                        && self.wallets@[i].address.id < self.next_seed,
                forall|i: int, j3: int|
                    0 <= i < j3 < s1.len() ==> (#[trigger] self.wallets@[i]).address.id != (
                    #[trigger] self.wallets@[j3]).address.id,
                forall|j2: int|
                    0 <= j2 < jd ==> match (
                        find_wallet(s1, #[trigger] targets@[j2]),
                        find_wallet(self.wallets@, targets@[j2]),
                    ) {
                        (Some(tw), Some(nw)) => nw.balance == tw.balance + share as nat + (
                        if j2 == 0 {
                            remainder as nat
                        } else {
                            0
                        }) && nw.history@ == tw.history@,
                        _ => false,
                    },
                forall|a: Address|
                    (forall|j2: int| 0 <= j2 < jd ==> targets@[j2] != a) ==> find_wallet(
                        self.wallets@,
                        a,
                    ) == find_wallet(s1, a),
            decreases k - jd,
        {
            let ghost scur = self.wallets@;
            let t = &targets[jd];
            proof {
                assert(find_wallet(self.wallets@, *t) == find_wallet(s1, *t));
                assert(find_wallet(s1, *t) == find_wallet(s0, *t));
                assert(old(self).live(targets@[jd as int]));
            }
            let idx = match self.find_index(t) {
                Some(i) => i,
                None => {
                    proof {
                        assert(false);
                    }
                    return Err(WalletManagerError::WalletError(WalletError::InvalidAddress));
                },
            };
            let add: u64 = if jd == 0 {
                proof {
                    lemma_sum_element(scur, idx as int);
                    assert(share + remainder <= b) by (nonlinear_arith)
                        requires
                            b == k * share + remainder,
                            k >= 1,
                            share >= 0,
                            remainder >= 0,
                    ;
                }
                share + remainder
            } else {
                proof {
                    lemma_sum_element(scur, idx as int);
                    assert((jd + 1) * share + remainder <= k * share + remainder)
                        by (nonlinear_arith)
                        requires
                            jd + 1 <= k,
                            share >= 0,
                            remainder >= 0,
                    ;
                    assert(jd * share + share == (jd + 1) * share) by (nonlinear_arith);
                }
                share
            };
            let e = &self.wallets[idx];
            let nw = Wallet {
                address: e.address,
                secret_key: e.secret_key,
                public_key: e.public_key,
                balance: e.balance + add,
                history: vstd::slice::slice_to_vec(e.history.as_slice()),
            };
            proof {
                lemma_sum_update(scur, idx as int, nw);
                assert forall|a: Address| #[trigger] find_wallet(scur.update(idx as int, nw), a)
                    == if a == scur[idx as int].address {
                    Some(nw)
                } else {
                    find_wallet(scur, a)
                } by {
                    lemma_find_update(scur, idx as int, nw, a);
                }
                assert(jd * share + share == (jd + 1) * share) by (nonlinear_arith);
            }
            self.wallets.set(idx, nw);
            jd = jd + 1;
        }
        proof {
            assert(sum_balances(self.wallets@) == sum_balances(s1) + k * share + remainder);
            assert(sum_balances(self.wallets@) == sum_balances(s0));
        }
        // Owned copies of the credited targets, in order.
        let mut out: Vec<Wallet> = Vec::new();
        let mut jo: usize = 0;
        let ghost sfin = self.wallets@;
        while jo < k
            invariant
                jo <= k,
                k == targets@.len(),
                self.wallets@ == sfin,
                out@.len() == jo,
                forall|j2: int|
                    0 <= j2 < jo ==> (#[trigger] out@[j2]).address == targets@[j2] && (match
                        find_wallet(sfin, targets@[j2]) {
                        Some(nw) => out@[j2].balance == nw.balance,
                        None => false,
                    }),
                forall|j2: int|
                    0 <= j2 < k ==> find_wallet(sfin, #[trigger] targets@[j2]) is Some,
            decreases k - jo,
        {
            let t = &targets[jo];
            let idx = match self.find_index(t) {
                Some(i) => i,
                None => {
                    proof {
                        assert(false);
                    }
                    return Err(WalletManagerError::WalletError(WalletError::InvalidAddress));
                },
            };
            out.push(self.wallets[idx].snapshot());
            jo = jo + 1;
        }
        Ok(out)
    }

    /// Debits `amount` from the live wallet at `from`, records the signed
    /// transfer in its history, and returns the transaction's identifier.
    /// Atomic: on insufficiency or an unknown source the fleet is unchanged.
    #[verifier::loop_isolation(false)]
    pub fn send_transaction_from(&mut self, from: &Address, to: &Address, amount: u64) -> (r:
        Result<TransactionId, WalletManagerError>)
        requires
            old(self).wf(),
        ensures
            final(self).wf(),
            final(self).next_seed == old(self).next_seed,
            final(self).format == old(self).format,
            final(self).wallets@.len() == old(self).wallets@.len(),
            r is Ok <==> (match find_wallet(old(self).wallets@, *from) {
                Some(sw) => amount <= sw.balance,
                None => false,
            }),
            match r {
                Ok(txid) => (match (
                    find_wallet(old(self).wallets@, *from),
                    find_wallet(final(self).wallets@, *from),
                ) {
                    (Some(sw), Some(nw)) => {
                        let tx = Transaction {
                            from: *from,
                            to: *to,
                            parameters: TransactionParameters {
                                amount,
                                nonce: sw.history@.len() as u64,
                            },
                        };
                        &&& nw.balance == sw.balance - amount
                        &&& nw.history@ == sw.history@.push(tx)
                        &&& txid.text@ == crate::transaction::txid_text(tx)
                        &&& final(self).total_balance() + amount == old(self).total_balance()
                        &&& forall|a: Address|
                            a != *from ==> find_wallet(final(self).wallets@, a) == find_wallet(
                                old(self).wallets@,
                                a,
                            )
                    },
                    _ => false,
                }),
                Err(e) => {
                    &&& *final(self) == *old(self)
                    &&& e == (match find_wallet(old(self).wallets@, *from) {
                        Some(sw) => WalletManagerError::WalletError(
                            WalletError::InsufficientBalance,
                        ),
                        None => WalletManagerError::WalletError(WalletError::InvalidAddress),
                    })
                },
            },
    {
        let ghost s0 = self.wallets@;
        let si = match self.find_index(from) {
            Some(i) => i,
            None => {
                return Err(WalletManagerError::WalletError(WalletError::InvalidAddress));
            },
        };
        let w = &self.wallets[si];
        let tx = match w.transfer_funds(to, amount) {
            Ok(t) => t,
            Err(_) => {
                return Err(WalletManagerError::WalletError(WalletError::InsufficientBalance));
            },
        };
        let txid = match tx.transaction_id() {
            Ok(id) => id,
            Err(_) => {
                proof {
                    assert(false);
                }
                return Err(WalletManagerError::WalletError(WalletError::InvalidAddress));
            },
        };
        let mut history = vstd::slice::slice_to_vec(w.history.as_slice());
        history.push(tx);
        let nw = Wallet {
            address: w.address,
            secret_key: w.secret_key,
            public_key: w.public_key,
            balance: w.balance - amount,
            history,
        };
        proof {
            self.lemma_unique_addresses();
            lemma_sum_update(s0, si as int, nw);
            lemma_sum_element(s0, si as int);
            assert forall|a: Address| #[trigger] find_wallet(s0.update(si as int, nw), a) == (
            if a == s0[si as int].address {
                Some(nw)
            } else {
                find_wallet(s0, a)
            }) by {
                lemma_find_update(s0, si as int, nw, a);
            }
        }
        self.wallets.set(si, nw);
        Ok(txid)
    }

    /// Debits `amount` from the richest wallet (ties broken by smallest
    /// address identifier), records the signed transfer, and returns its
    /// identifier. Atomic: on failure the fleet is unchanged.
    pub fn send_transaction(&mut self, to: &Address, amount: u64) -> (r: Result<
        TransactionId,
        WalletManagerError,
    >)
        requires
            old(self).wf(),
        ensures
            final(self).wf(),
            final(self).next_seed == old(self).next_seed,
            final(self).format == old(self).format,
            final(self).wallets@.len() == old(self).wallets@.len(),
            old(self).wallets@.len() == 0 ==> (r matches Err(e) && *final(self) == *old(self) && e
                == WalletManagerError::WalletError(WalletError::InvalidAddress)),
            old(self).wallets@.len() > 0 ==> exists|i: int| old(self).is_richest(i),
            forall|i: int|
                old(self).is_richest(i) ==> {
                    let src = old(self).wallets@[i].address;
                    &&& (r is Ok <==> amount <= old(self).wallets@[i].balance)
                    &&& match r {
                        Ok(txid) => (match (
                            find_wallet(old(self).wallets@, src),
                            find_wallet(final(self).wallets@, src),
                        ) {
                            (Some(sw), Some(nw)) => {
                                let tx = Transaction {
                                    from: src,
                                    to: *to,
                                    parameters: TransactionParameters {
                                        amount,
                                        nonce: sw.history@.len() as u64,
                                    },
                                };
                                &&& nw.balance == sw.balance - amount
                                &&& nw.history@ == sw.history@.push(tx)
                                &&& txid.text@ == crate::transaction::txid_text(tx)
                                &&& final(self).total_balance() + amount == old(
                                    self,
                                ).total_balance()
                                &&& forall|a: Address|
                                    a != src ==> find_wallet(final(self).wallets@, a)
                                        == find_wallet(old(self).wallets@, a)
                            },
                            _ => false,
                        }),
                        Err(e) => *final(self) == *old(self) && e
                            == WalletManagerError::WalletError(WalletError::InsufficientBalance),
                    }
                },
    {
        if self.wallets.len() == 0 {
            return Err(WalletManagerError::WalletError(WalletError::InvalidAddress));
        }
        let ri = self.richest_index();
        let src = self.wallets[ri].address;
        proof {
            self.lemma_unique_addresses();
            let wits = ri as int;
            assert forall|k: int| 0 <= k < wits implies (#[trigger] self.wallets@[k]).address
                != src by {}
            lemma_find_index(self.wallets@, src, wits);
            assert forall|i: int| self.is_richest(i) implies i == wits by {}
        }
        self.send_transaction_from(&src, to, amount)
    }

    /// Adjusts the fleet to exactly `count` wallets. Scaling up creates
    /// zero-balance wallets; scaling down repeatedly removes the poorest
    /// wallet (ties broken by smallest address identifier) and distributes its
    /// balance across the survivors. Each removal is atomic; scaling to zero
    /// fails once one wallet remains, because a removal needs a survivor.
    /// The fleet total is conserved in every case, success or failure.
    #[verifier::loop_isolation(false)]
    pub fn scale_to(&mut self, count: u64) -> (r: Result<Vec<Wallet>, WalletManagerError>)
        requires
            old(self).wf(),
            old(self).next_seed + count <= u64::MAX,
            count <= usize::MAX,
        ensures
            final(self).wf(),
            final(self).total_balance() == old(self).total_balance(),
            final(self).format == old(self).format,
            r is Ok <==> (count > 0 || old(self).wallets@.len() == 0),
            match r {
                Ok(ws) => {
                    &&& final(self).wallets@.len() == count
                    &&& (old(self).wallets@.len() <= count ==> {
                        &&& ws@.len() + old(self).wallets@.len() == count
                        &&& forall|k: int|
                            0 <= k < old(self).wallets@.len() ==> final(self).wallets@[k] == old(
                                self,
                            ).wallets@[k]
                        &&& forall|k: int|
                            old(self).wallets@.len() <= k < count ==> (
                            #[trigger] final(self).wallets@[k]).balance == 0
                        &&& forall|j: int|
                            0 <= j < ws@.len() ==> (#[trigger] ws@[j]).balance == 0 && !old(
                                self,
                            ).live(ws@[j].address)
                    })
                    &&& (old(self).wallets@.len() > count ==> ws@.len() == 0 && (forall|a: Address|
                        final(self).live(a) ==> old(self).live(a)))
                },
                Err(e) => {
                    &&& count == 0 && old(self).wallets@.len() > 0
                    &&& final(self).wallets@.len() == 1
                    &&& e == WalletManagerError::WalletError(WalletError::InvalidAddress)
                    &&& forall|a: Address| final(self).live(a) ==> old(self).live(a)
                },
            },
    {
        let target = count as usize;
        let current = self.wallets.len();
        let mut out: Vec<Wallet> = Vec::new();
        if current < target {
            while self.wallets.len() < target
                invariant
                    self.wf(),
                    self.format == old(self).format,
                    old(self).wallets@.len() <= self.wallets@.len() <= target,
                    self.next_seed == old(self).next_seed + self.wallets@.len() - old(
                        self,
                    ).wallets@.len(),
                    self.total_balance() == old(self).total_balance(),
                    forall|k: int|
                        0 <= k < old(self).wallets@.len() ==> self.wallets@[k] == old(
                            self,
                        ).wallets@[k],
                    forall|k: int|
                        old(self).wallets@.len() <= k < self.wallets@.len() ==> (
                        #[trigger] self.wallets@[k]).balance == 0,
                    out@.len() + old(self).wallets@.len() == self.wallets@.len(),
                    forall|j: int|
                        0 <= j < out@.len() ==> (#[trigger] out@[j]).balance == 0 && !old(
                            self,
                        ).live(out@[j].address),
                decreases target - self.wallets@.len(),
            {
                let ghost pre = *self;
                let w = self.create_wallet();
                proof {
                    if old(self).live(w.address) {
                        lemma_find_is_at(old(self).wallets@, w.address);
                        lemma_live_at(pre.wallets@, choose|i: int|
                            0 <= i < old(self).wallets@.len() && old(self).wallets@[i].address
                                == w.address);
                    }
                }
                out.push(w);
            }
            return Ok(out);
        }
        if current == target {
            return Ok(out);
        }
        while self.wallets.len() > target
            invariant
                self.wf(),
                self.format == old(self).format,
                target <= self.wallets@.len() <= old(self).wallets@.len(),
                old(self).wallets@.len() > 0 ==> self.wallets@.len() >= 1,
                self.total_balance() == old(self).total_balance(),
                forall|a: Address| self.live(a) ==> old(self).live(a),
                out@.len() == 0,
            decreases self.wallets@.len(),
        {
            let ghost pre = *self;
            let n = self.wallets.len();
            let pi = self.poorest_index();
            let src = self.wallets[pi].address;
            let mut survivors: Vec<Address> = Vec::new();
            let mut i: usize = 0;
            while i < n
                invariant
                    i <= n,
                    n == self.wallets@.len(),
                    pi < n,
                    *self == pre,
                    survivors@.len() == if i <= pi as int {
                        i as int
                    } else {
                        i - 1
                    },
                    forall|j: int|
                        0 <= j < survivors@.len() ==> #[trigger] survivors@[j] == self.wallets@[
                            if j < pi as int {
                                j
                            } else {
                                j + 1
                            }
                        ].address,
                decreases n - i,
            {
                if i != pi {
                    let a = self.wallets[i].address;
                    survivors.push(a);
                }
                i = i + 1;
            }
            proof {
                self.lemma_unique_addresses();
                assert forall|j: int| 0 <= j < survivors@.len() implies self.live(
                    #[trigger] survivors@[j],
                ) && survivors@[j] != src by {
                    let widx = if j < pi as int {
                        j
                    } else {
                        j + 1
                    };
                    lemma_live_at(self.wallets@, widx);
                }
                assert forall|j1: int, j2: int| 0 <= j1 < j2 < survivors@.len() implies
                    survivors@[j1] != survivors@[j2] by {
                    let w1 = if j1 < pi as int {
                        j1
                    } else {
                        j1 + 1
                    };
                    let w2 = if j2 < pi as int {
                        j2
                    } else {
                        j2 + 1
                    };
                    assert(survivors@[j1] == self.wallets@[w1].address);
                    assert(survivors@[j2] == self.wallets@[w2].address);
                }
                lemma_live_at(self.wallets@, pi as int);
            }
            match self.delete_and_distribute(&src, &survivors) {
                Ok(_) => {
                    proof {
                        assert forall|a: Address| self.live(a) implies pre.live(a) by {
                            if a == src {
                            } else if exists|j: int|
                                0 <= j < survivors@.len() && survivors@[j] == a {
                            } else {
                                assert(find_wallet(self.wallets@, a) == find_wallet(
                                    pre.wallets@,
                                    a,
                                ));
                            }
                        }
                    }
                },
                Err(e) => {
                    proof {
                        assert(survivors@.len() == 0);
                        assert(n == 1);
                        assert(target == 0);
                        assert forall|a: Address| self.live(a) implies old(self).live(a) by {}
                    }
                    return Err(e);
                },
            }
        }
        Ok(out)
    }
}

/// One balance-moving fleet operation, for batch application.
#[derive(Clone, Debug)]
pub enum FleetOp {
    Create,
    ScaleTo(u64),
    DeleteAndTransfer(Address, Address),
    DeleteAndDistribute(Address, Vec<Address>),
}

impl WalletManager {
    /// The sequence-level statement of the conservation law, packaged as a
    /// runnable batch: applies create/scale/delete-and-transfer/
    /// delete-and-distribute operations in order, stopping at the first
    /// failure (a step's own error, or exhausted key-material headroom).
    ///
    /// Its contract deliberately states only what is invariant over every
    /// sequence — well-formedness, and that the sum of all wallet balances
    /// after equals the sum before, since these operations move balance
    /// between wallets but never create or destroy it. The fleet each step
    /// leaves is pinned by that operation's own contract, not restated here.
    #[verifier::loop_isolation(false)]
    pub fn apply_ops(&mut self, ops: &Vec<FleetOp>) -> (r: Result<(), WalletManagerError>)
        requires
            old(self).wf(),
        ensures
            final(self).wf(),
            final(self).total_balance() == old(self).total_balance(),
    {
        let n = ops.len();
        let mut i: usize = 0;
        while i < n
            invariant
                i <= n,
                self.wf(),
                self.total_balance() == old(self).total_balance(),
            decreases n - i,
        {
            match &ops[i] {
                FleetOp::Create => {
                    if self.next_seed == u64::MAX {
                        return Err(WalletManagerError::WalletError(
                            WalletError::TransactionError(TransactionError::Custom),
                        ));
                    }
                    let _ = self.create_wallet();
                },
                FleetOp::ScaleTo(count) => {
                    let c = *count;
                    if c > u64::MAX - self.next_seed || c > (usize::MAX as u64) {
                        return Err(WalletManagerError::WalletError(
                            WalletError::TransactionError(TransactionError::Custom),
                        ));
                    }
                    match self.scale_to(c) {
                        Ok(_) => {},
                        Err(e) => {
                            return Err(e);
                        },
                    }
                },
                FleetOp::DeleteAndTransfer(source, target) => {
                    match self.delete_and_transfer(source, target) {
                        Ok(_) => {},
                        Err(e) => {
                            return Err(e);
                        },
                    }
                },
                FleetOp::DeleteAndDistribute(source, targets) => {
                    match self.delete_and_distribute(source, targets) {
                        Ok(_) => {},
                        Err(e) => {
                            return Err(e);
                        },
                    }
                },
            }
            i = i + 1;
        }
        Ok(())
    }
}

} // verus!
