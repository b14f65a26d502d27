//! The background synchronization monitor: an explicit Stopped/Running state
//! machine with a single-pass guard, and the reconciliation step that aligns
//! the fleet's balances with externally observed ledger truth.
use vstd::prelude::*;

use crate::address::Address;
use crate::wallet::sum_balances;
use crate::wallet::Wallet;
use crate::wallet::WalletError;
use crate::wallet::WalletManager;
use crate::wallet::WalletManagerError;
use crate::transaction::TransactionError;

verus! {

#[derive(Clone, Copy, Debug, PartialEq, Eq, Structural)]
pub enum MonitorError {
    WalletManagerError(WalletManagerError),
    Custom,
    NotRunning,
    HealthCheckFailed,
}

/// Monitor lifecycle state: `Stopped -> start -> Running -> stop -> Stopped`,
/// with `syncing` set exactly while one reconciliation pass is open, so that
/// no two passes ever overlap.
#[derive(Clone, Copy, Debug, PartialEq, Eq, Structural)]
pub struct Monitor {
    pub running: bool,
    pub syncing: bool,
}

impl Monitor {
    /// Well-formedness: a pass can only be open while the monitor runs. Every
    /// constructor and transition keeps this, so every reachable monitor is
    /// well-formed.
    pub open spec fn wf(self) -> bool {
        self.syncing ==> self.running
    }
}

/// The balance the ledger reports for an address: the last observation in the
/// list, or the wallet's present balance where the ledger says nothing.
pub open spec fn observed_balance(obs: Seq<(Address, u64)>, a: Address, dflt: u64) -> u64
    decreases obs.len(),
{
    if obs.len() == 0 {
        dflt
    } else if obs.last().0 == a {
        obs.last().1
    } else {
        observed_balance(obs.drop_last(), a, dflt)
    }
}

/// The fleet total after reconciling every wallet against the observations.
pub open spec fn reconciled_total(s: Seq<Wallet>, obs: Seq<(Address, u64)>) -> nat
    decreases s.len(),
{
    if s.len() == 0 {
        0
    } else {
        (observed_balance(obs, s[0].address, s[0].balance) + reconciled_total(
            s.subrange(1, s.len() as int),
            obs,
        )) as nat
    }
}

proof fn lemma_reconciled_take(s: Seq<Wallet>, obs: Seq<(Address, u64)>, i: int)
    requires
        0 <= i < s.len(),
    ensures
        reconciled_total(s.take(i + 1), obs) == reconciled_total(s.take(i), obs)
            + observed_balance(obs, s[i].address, s[i].balance),
    decreases s.len(),
{
    let rest = s.subrange(1, s.len() as int);
    if i == 0 {
        assert(s.take(1) =~= seq![s[0]]);
        assert(s.take(1).subrange(1, 1) =~= Seq::<Wallet>::empty());
        assert(s.take(0) =~= Seq::<Wallet>::empty());
    } else {
        assert(s.take(i + 1).subrange(1, i + 1) =~= rest.take(i));
        assert(s.take(i).subrange(1, i) =~= rest.take(i - 1));
        assert(s.take(i + 1)[0] == s[0]);
        assert(s.take(i)[0] == s[0]);
        lemma_reconciled_take(rest, obs, i - 1);
    }
}

impl Monitor {
    /// A stopped monitor with no pass in flight.
    pub fn new() -> (m: Monitor)
        ensures
            !m.running,
            !m.syncing,
            m.wf(),
    {
        Monitor { running: false, syncing: false }
    }

    pub fn is_running(&self) -> (r: bool)
        ensures
            r == self.running,
    {
        self.running
    }

    /// Starts the monitor; fails if it is already running, changing nothing.
    pub fn start(&mut self) -> (r: Result<(), MonitorError>)
        ensures
            r is Ok <==> !old(self).running,
            old(self).wf() ==> final(self).wf(),
            match r {
                Ok(()) => final(self).running && !final(self).syncing,
                Err(e) => *final(self) == *old(self) && e == MonitorError::Custom,
            },
    {
        if self.running {
            return Err(MonitorError::Custom);
        }
        self.running = true;
        self.syncing = false;
        Ok(())
    }

    /// Stops the monitor. Stopping when already stopped fails with
    /// `NotRunning` and changes nothing, so repeated stops are idempotent
    /// beyond the first.
    pub fn stop(&mut self) -> (r: Result<(), MonitorError>)
        ensures
            r is Ok <==> old(self).running,
            !final(self).running,
            final(self).syncing == (if old(self).running {
                false
            } else {
                old(self).syncing
            }),
            old(self).wf() ==> *final(self) == after_stop(*old(self)),
            match r {
                Ok(()) => true,
                Err(e) => *final(self) == *old(self) && e == MonitorError::NotRunning,
            },
    {
        if !self.running {
            return Err(MonitorError::NotRunning);
        }
        self.running = false;
        self.syncing = false;
        Ok(())
    }

    /// Stops, then starts: fails with `NotRunning` when the monitor was not
    /// running, and otherwise leaves it freshly running.
    pub fn restart(&mut self) -> (r: Result<(), MonitorError>)
        ensures
            r is Ok <==> old(self).running,
            old(self).wf() ==> final(self).wf(),
            match r {
                Ok(()) => final(self).running && !final(self).syncing,
                Err(e) => *final(self) == *old(self) && e == MonitorError::NotRunning,
            },
    {
        match self.stop() {
            Ok(()) => {},
            Err(e) => {
                return Err(e);
            },
        }
        match self.start() {
            Ok(()) => Ok(()),
            Err(e) => {
                proof {
                    assert(false);
                }
                Err(e)
            },
        }
    }

    /// A side-effect-free diagnostic, independent of any running instance.
    pub fn health_check() -> (r: Result<(), MonitorError>)
        ensures
            r is Ok,
    {
        Ok(())
    }

    /// Opens a reconciliation pass; fails if the monitor is not running or a
    /// pass is already open, so no two passes overlap.
    pub fn begin_sync(&mut self) -> (r: Result<(), MonitorError>)
        ensures
            r is Ok <==> (old(self).running && !old(self).syncing),
            old(self).wf() ==> final(self).wf(),
            match r {
                Ok(()) => final(self).running && final(self).syncing,
                Err(e) => *final(self) == *old(self) && e == (if old(self).running {
                    MonitorError::Custom
                } else {
                    MonitorError::NotRunning
                }),
            },
    {
        if !self.running {
            return Err(MonitorError::NotRunning);
        }
        if self.syncing {
            return Err(MonitorError::Custom);
        }
        self.syncing = true;
        Ok(())
    }

    /// Closes the open reconciliation pass.
    pub fn finish_sync(&mut self)
        ensures
            final(self).running == old(self).running,
            !final(self).syncing,
            final(self).wf(),
    {
        self.syncing = false;
    }

    /// One full reconciliation pass: aligns every live wallet's balance with
    /// the last value the ledger observations report for its address, leaving
    /// unobserved wallets untouched. Atomic: if the observed totals cannot be
    /// held in the fleet (their sum overflows a machine word), or the monitor
    /// is not free to run a pass, the fleet is unchanged.
    #[verifier::loop_isolation(false)]
    pub fn sync(&mut self, manager: &mut WalletManager, observed: &Vec<(Address, u64)>) -> (r:
        Result<(), MonitorError>)
        requires
            old(manager).wf(),
        ensures
            final(manager).wf(),
            final(self).running == old(self).running,
            !final(self).syncing,
            r is Ok <==> (old(self).running && !old(self).syncing && reconciled_total(
                old(manager).wallets@,
                observed@,
            ) <= u64::MAX),
            match r {
                Ok(()) => {
                    &&& final(manager).wallets@.len() == old(manager).wallets@.len()
                    &&& forall|i: int|
                        0 <= i < old(manager).wallets@.len() ==> {
                            let w = old(manager).wallets@[i];
                            let nw = #[trigger] final(manager).wallets@[i];
                            nw.address == w.address && nw.secret_key == w.secret_key
                                && nw.public_key == w.public_key && nw.history@ == w.history@
                                && nw.balance == observed_balance(observed@, w.address, w.balance)
                        }
                    &&& final(manager).total_balance() == reconciled_total(
                        old(manager).wallets@,
                        observed@,
                    )
                    &&& final(manager).next_seed == old(manager).next_seed
                    &&& final(manager).format == old(manager).format
                },
                Err(e) => {
                    &&& *final(manager) == *old(manager)
                    &&& (!old(self).running ==> e == MonitorError::NotRunning)
                    &&& (old(self).running && old(self).syncing ==> e == MonitorError::Custom)
                    &&& (old(self).running && !old(self).syncing ==> e
                        == MonitorError::WalletManagerError(WalletManagerError::WalletError(
                        WalletError::TransactionError(TransactionError::Custom),
                    )))
                },
            },
    {
        match self.begin_sync() {
            Ok(()) => {},
            Err(e) => {
                self.finish_sync();
                return Err(e);
            },
        }
        let n = manager.wallets.len();
        let mut rebuilt: Vec<Wallet> = Vec::new();
        let mut acc: u64 = 0;
        let mut i: usize = 0;
        while i < n
            invariant
                i <= n,
                n == manager.wallets@.len(),
                *manager == *old(manager),
                old(self).running,
                !old(self).syncing,
                self.running,
                self.syncing,
                rebuilt@.len() == i,
                acc == reconciled_total(manager.wallets@.take(i as int), observed@),
                acc <= u64::MAX,
                forall|k: int|
                    0 <= k < i ==> {
                        let w = manager.wallets@[k];
                        let nw = #[trigger] rebuilt@[k];
                        nw.address == w.address && nw.secret_key == w.secret_key && nw.public_key
                            == w.public_key && nw.history@ == w.history@ && nw.balance
                            == observed_balance(observed@, w.address, w.balance)
                    },
                sum_balances(rebuilt@) == acc,
            decreases n - i,
        {
            let w = &manager.wallets[i];
            let mut cur: u64 = w.balance;
            let m = observed.len();
            let mut j: usize = 0;
            while j < m
                invariant
                    j <= m,
                    m == observed@.len(),
                    cur == observed_balance(observed@.take(j as int), w.address, w.balance),
                decreases m - j,
            {
                let pair = &observed[j];
                proof {
                    assert(observed@.take(j as int + 1).drop_last() =~= observed@.take(j as int));
                    assert(observed@.take(j as int + 1).last() == observed@[j as int]);
                }
                if pair.0.id == w.address.id && pair.0.format == w.address.format {
                    cur = pair.1;
                }
                j = j + 1;
            }
            proof {
                assert(observed@.take(m as int) =~= observed@);
                lemma_reconciled_take(manager.wallets@, observed@, i as int);
            }
            if cur > u64::MAX - acc {
                self.finish_sync();
                proof {
                    assert(reconciled_total(manager.wallets@.take(i as int + 1), observed@)
                        > u64::MAX);
                    lemma_reconciled_take_mono(manager.wallets@, observed@, i as int + 1);
                }
                return Err(MonitorError::WalletManagerError(WalletManagerError::WalletError(
                    WalletError::TransactionError(TransactionError::Custom),
                )));
            }
            acc = acc + cur;
            let nw = Wallet {
                address: w.address,
                secret_key: w.secret_key,
                public_key: w.public_key,
                balance: cur,
                history: vstd::slice::slice_to_vec(w.history.as_slice()),
            };
            proof {
                crate::wallet::lemma_sum_push(rebuilt@, nw);
            }
            rebuilt.push(nw);
            i = i + 1;
        }
        proof {
            assert(manager.wallets@.take(n as int) =~= manager.wallets@);
        }
        manager.wallets = rebuilt;
        self.finish_sync();
        Ok(())
    }
}

/// Once the reconciled total of some prefix of the fleet overflows, the whole
/// fleet's reconciled total overflows too: reconciled balances are
/// non-negative, so prefix totals only grow.
proof fn lemma_reconciled_take_mono(s: Seq<Wallet>, obs: Seq<(Address, u64)>, i: int)
    requires
        0 <= i <= s.len(),
    ensures
        reconciled_total(s.take(i), obs) <= reconciled_total(s, obs),
    decreases s.len() - i,
{
    if i < s.len() {
        lemma_reconciled_take(s, obs, i);
        lemma_reconciled_take_mono(s, obs, i + 1);
    } else {
        assert(s.take(i) =~= s);
    }
}

/// The observable state `stop` leaves behind from any well-formed monitor —
/// and every reachable monitor is well-formed, since the constructor and all
/// transitions keep `wf`. `stop`'s contract pins its post-state to this.
pub open spec fn after_stop(m: Monitor) -> Monitor {
    Monitor { running: false, syncing: false }
}

/// Stopping is idempotent: stopping twice in a row leaves the same observable
/// state as stopping once, and the second call reports `NotRunning` without
/// changing anything.
pub proof fn lemma_stop_idempotent(m: Monitor)
    ensures
        after_stop(after_stop(m)) == after_stop(m),
{
}

} // verus!
