//! The dispatcher: maps one typed request to exactly one fleet or monitor
//! operation and one response or error, never retrying and never batching.
//! The transport hands it frames; every frame gets a reply frame back, and
//! `dispatch_post` states, request by request, which reply and which state
//! change — with the exact error cause each failure surfaces.
use vstd::prelude::*;

use crate::address::addr_text;
use crate::address::Address;
use crate::address::AddressError;
use crate::errors::engine_error_text;
use crate::monitor::observed_balance;
use crate::monitor::reconciled_total;
use crate::monitor::Monitor;
use crate::reqres::req_text;
use crate::reqres::req_views_eq;
use crate::reqres::req_wf;
use crate::reqres::resp_text;
use crate::reqres::Request;
use crate::reqres::Response;
use crate::transaction::txid_text;
use crate::transaction::Transaction;
use crate::transaction::TransactionError;
use crate::transaction::TransactionParameters;
use crate::wallet::find_wallet;
use crate::wallet::WalletError;
use crate::wallet::WalletManager;
use crate::wallet::WalletManagerError;

verus! {

/// The stateless dispatcher. The fleet and monitor it drives are handed in by
/// the caller, which owns them behind its own exclusion discipline.
pub struct Executor;

/// The error surfacing a malformed address field of a request.
pub open spec fn parse_error_value() -> crate::errors::Error {
    crate::errors::Error::CoreError(
        crate::error::Error::AddressError(AddressError::ParseError),
    )
}

/// The error surfacing a fleet failure, the cause wrapped layer by layer.
pub open spec fn fleet_error_value(w: WalletError) -> crate::errors::Error {
    crate::errors::Error::CoreError(
        crate::error::Error::WalletManagerError(WalletManagerError::WalletError(w)),
    )
}

/// The error surfacing a monitor failure, the cause wrapped unchanged.
pub open spec fn monitor_error_value(m: crate::monitor::MonitorError) -> crate::errors::Error {
    crate::errors::Error::CoreError(crate::error::Error::MonitorError(m))
}

/// What dispatching `req` against a fleet in state `pre` and a monitor in
/// state `pre_mon` does: the state it leaves (`post`, `post_mon`) and the
/// response or the exact error it answers with, for every case.
pub open spec fn dispatch_post(
    req: Request,
    pre: WalletManager,
    post: WalletManager,
    pre_mon: Monitor,
    post_mon: Monitor,
    observed: Seq<(Address, u64)>,
    r: Result<Response, crate::errors::Error>,
) -> bool {
    match req {
        Request::RetrieveAddress => {
            &&& post == pre
            &&& post_mon == pre_mon
            &&& (r is Ok <==> pre.wallets@.len() > 0)
            &&& match r {
                Ok(resp) => resp matches Response::RetrieveAddress { address } && exists|i: int|
                    pre.is_poorest(i) && address@ == addr_text(pre.wallets@[i].address),
                Err(e) => e == fleet_error_value(WalletError::InvalidAddress),
            }
        },
        Request::SendTransaction { to, amount } => {
            &&& post_mon == pre_mon
            &&& (r is Err ==> post == pre)
            &&& (r is Ok ==> post.total_balance() + amount == pre.total_balance())
            &&& ((forall|a: Address| to@ != addr_text(a)) ==> (r matches Err(e) && e
                == parse_error_value()))
            &&& ((exists|a: Address| to@ == addr_text(a)) && pre.wallets@.len() == 0 ==> (
            r matches Err(e) && e == fleet_error_value(WalletError::InvalidAddress)))
            &&& (forall|i: int|
                (exists|a: Address| to@ == addr_text(a)) && #[trigger] pre.is_richest(i)
                    && pre.wallets@[i].balance < amount ==> (r matches Err(e) && e
                    == fleet_error_value(WalletError::InsufficientBalance)))
            &&& (r is Ok <==> (exists|a: Address| to@ == addr_text(a)) && exists|i: int|
                #[trigger] pre.is_richest(i) && amount <= pre.wallets@[i].balance)
            &&& match r {
                Ok(resp) => resp matches Response::SendTransaction { txid } && exists|
                    i: int,
                    ta: Address,
                |
                    #![trigger pre.is_richest(i), addr_text(ta)]
                    pre.is_richest(i) && amount <= pre.wallets@[i].balance && to@
                        == addr_text(ta) && txid@ == txid_text(
                        Transaction {
                            from: pre.wallets@[i].address,
                            to: ta,
                            parameters: TransactionParameters {
                                amount,
                                nonce: pre.wallets@[i].history@.len() as u64,
                            },
                        },
                    ),
                Err(_) => true,
            }
        },
        Request::SendTransactionFrom { from, to, amount } => {
            &&& post_mon == pre_mon
            &&& (r is Err ==> post == pre)
            &&& (r is Ok ==> post.total_balance() + amount == pre.total_balance())
            &&& (((forall|a: Address| from@ != addr_text(a)) || (forall|a: Address|
                to@ != addr_text(a))) ==> (r matches Err(e) && e == parse_error_value()))
            &&& (forall|fa: Address|
                from@ == addr_text(fa) && (exists|ta: Address| to@ == addr_text(ta))
                    && find_wallet(pre.wallets@, fa) is None ==> (r matches Err(e) && e
                    == fleet_error_value(WalletError::InvalidAddress)))
            &&& (forall|fa: Address|
                from@ == addr_text(fa) && (exists|ta: Address| to@ == addr_text(ta)) && (match
                    find_wallet(pre.wallets@, fa) {
                    Some(sw) => sw.balance < amount,
                    None => false,
                }) ==> (r matches Err(e) && e == fleet_error_value(
                    WalletError::InsufficientBalance,
                )))
            &&& (r is Ok <==> exists|fa: Address, ta: Address|
                #![trigger addr_text(fa), addr_text(ta)]
                from@ == addr_text(fa) && to@ == addr_text(ta) && (match find_wallet(
                    pre.wallets@,
                    fa,
                ) {
                    Some(sw) => amount <= sw.balance,
                    None => false,
                }))
            &&& match r {
                Ok(resp) => resp matches Response::SendTransactionFrom { from: from_echo, txid }
                    && from_echo@ == from@ && exists|fa: Address, ta: Address|
                    #![trigger addr_text(fa), addr_text(ta)]
                    from@ == addr_text(fa) && to@ == addr_text(ta) && (match find_wallet(
                        pre.wallets@,
                        fa,
                    ) {
                        Some(sw) => amount <= sw.balance && txid@ == txid_text(
                            Transaction {
                                from: fa,
                                to: ta,
                                parameters: TransactionParameters {
                                    amount,
                                    nonce: sw.history@.len() as u64,
                                },
                            },
                        ),
                        None => false,
                    }),
                Err(_) => true,
            }
        },
        Request::RetrieveBalance { address } => {
            &&& post == pre
            &&& post_mon == pre_mon
            &&& ((forall|a: Address| address@ != addr_text(a)) ==> (r matches Err(e) && e
                == parse_error_value()))
            &&& (forall|a: Address|
                address@ == addr_text(a) && find_wallet(pre.wallets@, a) is None ==> (
                r matches Err(e) && e == fleet_error_value(WalletError::InvalidAddress)))
            &&& (r is Ok <==> exists|a: Address|
                address@ == addr_text(a) && find_wallet(pre.wallets@, a) is Some)
            &&& match r {
                Ok(resp) => resp matches Response::RetrieveBalance { address: addr_echo, balance }
                    && exists|a: Address|
                    address@ == addr_text(a) && addr_echo@ == addr_text(a) && (match find_wallet(
                        pre.wallets@,
                        a,
                    ) {
                        Some(w) => balance == w.balance,
                        None => false,
                    }),
                Err(_) => true,
            }
        },
        Request::RetrieveBalances => {
            &&& post == pre
            &&& post_mon == pre_mon
            &&& match r {
                Ok(resp) => resp matches Response::RetrieveBalances { balances } && balances@.len()
                    == pre.wallets@.len() && forall|i: int|
                    0 <= i < balances@.len() ==> (#[trigger] balances@[i]).0@ == addr_text(
                        pre.wallets@[i].address,
                    ) && balances@[i].1 == pre.wallets@[i].balance,
                Err(_) => false,
            }
        },
        Request::ListWallets => {
            &&& post == pre
            &&& post_mon == pre_mon
            &&& match r {
                Ok(resp) => resp matches Response::ListWallets { wallets } && wallets@.len()
                    == pre.wallets@.len() && forall|i: int|
                    0 <= i < wallets@.len() ==> (#[trigger] wallets@[i])@ == addr_text(
                        pre.wallets@[i].address,
                    ),
                Err(_) => false,
            }
        },
        Request::Sync => {
            &&& post_mon.running == pre_mon.running
            &&& !post_mon.syncing
            &&& (r is Ok <==> (pre_mon.running && !pre_mon.syncing && reconciled_total(
                pre.wallets@,
                observed,
            ) <= u64::MAX))
            &&& (!pre_mon.running ==> (r matches Err(e) && e == monitor_error_value(
                crate::monitor::MonitorError::NotRunning,
            )))
            &&& (pre_mon.running && pre_mon.syncing ==> (r matches Err(e) && e
                == monitor_error_value(crate::monitor::MonitorError::Custom)))
            &&& (pre_mon.running && !pre_mon.syncing && reconciled_total(pre.wallets@, observed)
                > u64::MAX ==> (r matches Err(e) && e == monitor_error_value(
                crate::monitor::MonitorError::WalletManagerError(
                    WalletManagerError::WalletError(
                        WalletError::TransactionError(TransactionError::Custom),
                    ),
                ),
            )))
            &&& match r {
                Ok(resp) => {
                    &&& resp matches Response::Sync { success } && success
                    &&& post.wallets@.len() == pre.wallets@.len()
                    &&& forall|i: int|
                        0 <= i < pre.wallets@.len() ==> {
                            let w = pre.wallets@[i];
                            let nw = #[trigger] post.wallets@[i];
                            nw.address == w.address && nw.secret_key == w.secret_key
                                && nw.public_key == w.public_key && nw.history@ == w.history@
                                && nw.balance == observed_balance(observed, w.address, w.balance)
                        }
                    &&& post.total_balance() == reconciled_total(pre.wallets@, observed)
                    &&& post.next_seed == pre.next_seed
                    &&& post.format == pre.format
                },
                Err(_) => post == pre,
            }
        },
    }
}

/// Two requests whose texts agree behave alike under `dispatch_post`: the
/// postcondition reads a request only through its variant and field contents.
pub proof fn lemma_dispatch_post_views(
    r1: Request,
    r2: Request,
    pre: WalletManager,
    post: WalletManager,
    pre_mon: Monitor,
    post_mon: Monitor,
    observed: Seq<(Address, u64)>,
    r: Result<Response, crate::errors::Error>,
)
    requires
        req_views_eq(r1, r2),
        dispatch_post(r1, pre, post, pre_mon, post_mon, observed, r),
    ensures
        dispatch_post(r2, pre, post, pre_mon, post_mon, observed, r),
{
}

impl Executor {
    pub fn new() -> (r: Executor) {
        Executor
    }

    /// Parses an address field of a request; a malformed one surfaces as an
    /// address parse error.
    pub fn parse_address(&self, address_str: &str) -> (r: Result<Address, crate::error::Error>)
        ensures
            match r {
                Ok(a) => address_str@ == addr_text(a),
                Err(e) => (forall|a: Address| address_str@ != addr_text(a)) && e
                    == crate::error::Error::AddressError(AddressError::ParseError),
            },
    {
        match Address::parse(address_str) {
            Ok(a) => Ok(a),
            Err(_) => Err(crate::error::Error::AddressError(AddressError::ParseError)),
        }
    }

    /// Dispatches one request against the shared fleet and monitor: exactly
    /// one operation runs, and `dispatch_post` ties the outcome — response,
    /// state change, or exact error cause — to the request. `observed` is the
    /// ledger snapshot a `Sync` request reconciles against; other requests
    /// ignore it.
    pub fn execute(
        &self,
        req: &Request,
        manager: &mut WalletManager,
        monitor: &mut Monitor,
        observed: &Vec<(Address, u64)>,
    ) -> (r: Result<Response, crate::errors::Error>)
        requires
            old(manager).wf(),
        ensures
            final(manager).wf(),
            final(manager).format == old(manager).format,
            dispatch_post(
                *req,
                *old(manager),
                *final(manager),
                *old(monitor),
                *final(monitor),
                observed@,
                r,
            ),
    {
        match req {
            Request::RetrieveAddress => {
                match manager.retrieve_address() {
                    Ok(a) => {
                        let text = a.display();
                        proof {
                            let i = choose|i: int|
                                manager.is_poorest(i) && a == manager.wallets@[i].address;
                            assert(manager.is_poorest(i) && text@ == addr_text(
                                manager.wallets@[i].address,
                            ));
                        }
                        Ok(Response::RetrieveAddress { address: text })
                    },
                    Err(e) => Err(
                        crate::errors::Error::CoreError(crate::error::Error::WalletManagerError(e)),
                    ),
                }
            },
            Request::SendTransaction { to, amount } => {
                let to_addr = match self.parse_address(to.as_str()) {
                    Ok(a) => a,
                    Err(e) => {
                        return Err(crate::errors::Error::CoreError(e));
                    },
                };
                let ghost pre = *manager;
                proof {
                    lemma_richest_unique(pre);
                }
                match manager.send_transaction(&to_addr, *amount) {
                    Ok(txid) => {
                        let text = txid.to_text();
                        proof {
                            let i = choose|i: int| pre.is_richest(i);
                            pre.lemma_unique_addresses();
                            assert forall|k: int| 0 <= k < i implies (
                            #[trigger] pre.wallets@[k]).address != pre.wallets@[i].address by {}
                            crate::wallet::lemma_find_index(
                                pre.wallets@,
                                pre.wallets@[i].address,
                                i,
                            );
                            assert(pre.is_richest(i) && *amount <= pre.wallets@[i].balance && to@
                                == addr_text(to_addr) && text@ == txid_text(
                                Transaction {
                                    from: pre.wallets@[i].address,
                                    to: to_addr,
                                    parameters: TransactionParameters {
                                        amount: *amount,
                                        nonce: pre.wallets@[i].history@.len() as u64,
                                    },
                                },
                            ));
                        }
                        Ok(Response::SendTransaction { txid: text })
                    },
                    Err(e) => {
                        proof {
                            assert(to@ == addr_text(to_addr));
                        }
                        Err(
                            crate::errors::Error::CoreError(
                                crate::error::Error::WalletManagerError(e),
                            ),
                        )
                    },
                }
            },
            Request::SendTransactionFrom { from, to, amount } => {
                let from_addr = match self.parse_address(from.as_str()) {
                    Ok(a) => a,
                    Err(e) => {
                        return Err(crate::errors::Error::CoreError(e));
                    },
                };
                let to_addr = match self.parse_address(to.as_str()) {
                    Ok(a) => a,
                    Err(e) => {
                        return Err(crate::errors::Error::CoreError(e));
                    },
                };
                let ghost pre = *manager;
                proof {
                    crate::address::lemma_addr_text_shape();
                    assert forall|fa: Address| from@ == addr_text(fa) implies fa == from_addr by {
                        assert(addr_text(fa) == addr_text(from_addr));
                    }
                }
                match manager.send_transaction_from(&from_addr, &to_addr, *amount) {
                    Ok(txid) => {
                        let from_echo = from_addr.display();
                        let text = txid.to_text();
                        proof {
                            assert(from@ == addr_text(from_addr) && to@ == addr_text(to_addr));
                        }
                        Ok(Response::SendTransactionFrom { from: from_echo, txid: text })
                    },
                    Err(e) => {
                        proof {
                            assert(from@ == addr_text(from_addr) && to@ == addr_text(to_addr));
                        }
                        Err(
                            crate::errors::Error::CoreError(
                                crate::error::Error::WalletManagerError(e),
                            ),
                        )
                    },
                }
            },
            Request::RetrieveBalance { address } => {
                let addr = match self.parse_address(address.as_str()) {
                    Ok(a) => a,
                    Err(e) => {
                        return Err(crate::errors::Error::CoreError(e));
                    },
                };
                proof {
                    crate::address::lemma_addr_text_shape();
                    assert forall|a: Address| address@ == addr_text(a) implies a == addr by {
                        assert(addr_text(a) == addr_text(addr));
                    }
                }
                match manager.retrieve_balance(&addr) {
                    Ok(balance) => Ok(
                        Response::RetrieveBalance { address: addr.display(), balance },
                    ),
                    Err(e) => Err(
                        crate::errors::Error::CoreError(crate::error::Error::WalletManagerError(e)),
                    ),
                }
            },
            Request::RetrieveBalances => {
                let pairs = match manager.retrieve_balances() {
                    Ok(p) => p,
                    Err(e) => {
                        return Err(
                            crate::errors::Error::CoreError(
                                crate::error::Error::WalletManagerError(e),
                            ),
                        );
                    },
                };
                let m = pairs.len();
                let mut balances: Vec<(String, u64)> = Vec::new();
                let mut i: usize = 0;
                while i < m
                    invariant
                        i <= m,
                        m == pairs@.len(),
                        pairs@.len() == manager.wallets@.len(),
                        forall|k: int|
                            0 <= k < m ==> #[trigger] pairs@[k] == (manager.wallets@[k].address,
                            manager.wallets@[k].balance),
                        balances@.len() == i,
                        forall|k: int|
                            0 <= k < i ==> (#[trigger] balances@[k]).0@ == addr_text(
                                manager.wallets@[k].address,
                            ) && balances@[k].1 == manager.wallets@[k].balance,
                    decreases m - i,
                {
                    let p = &pairs[i];
                    balances.push((p.0.display(), p.1));
                    i = i + 1;
                }
                Ok(Response::RetrieveBalances { balances })
            },
            Request::ListWallets => {
                let wallets_full = match manager.list_wallets() {
                    Ok(w) => w,
                    Err(e) => {
                        return Err(
                            crate::errors::Error::CoreError(
                                crate::error::Error::WalletManagerError(e),
                            ),
                        );
                    },
                };
                let m = wallets_full.len();
                let mut wallets: Vec<String> = Vec::new();
                let mut i: usize = 0;
                while i < m
                    invariant
                        i <= m,
                        m == wallets_full@.len(),
                        wallets_full@.len() == manager.wallets@.len(),
                        forall|k: int|
                            0 <= k < m ==> (#[trigger] wallets_full@[k]).address
                                == manager.wallets@[k].address,
                        wallets@.len() == i,
                        forall|k: int|
                            0 <= k < i ==> (#[trigger] wallets@[k])@ == addr_text(
                                manager.wallets@[k].address,
                            ),
                    decreases m - i,
                {
                    let a = wallets_full[i].address();
                    wallets.push(a.display());
                    i = i + 1;
                }
                Ok(Response::ListWallets { wallets })
            },
            Request::Sync => {
                match monitor.sync(manager, observed) {
                    Ok(()) => Ok(Response::Sync { success: true }),
                    Err(e) => Err(
                        crate::errors::Error::CoreError(crate::error::Error::MonitorError(e)),
                    ),
                }
            },
        }
    }

    /// Turns one inbound frame into exactly one outbound frame. A malformed
    /// frame yields the wrong-request error message and changes nothing; a
    /// well-formed request frame is dispatched, and the reply is the encoded
    /// response or the error's message, with the state change `dispatch_post`
    /// states for that request. Every frame gets a reply.
    pub fn handle_frame(
        &self,
        frame: &str,
        manager: &mut WalletManager,
        monitor: &mut Monitor,
        observed: &Vec<(Address, u64)>,
    ) -> (out: String)
        requires
            old(manager).wf(),
        ensures
            final(manager).wf(),
            (forall|req: Request| req_wf(req) ==> frame@ != req_text(req)) ==> out@
                == engine_error_text(crate::errors::Error::WrongRequest) && *final(manager) == *old(
                manager,
            ) && *final(monitor) == *old(monitor),
            forall|req: Request|
                req_wf(req) && frame@ == req_text(req) ==> exists|
                    r: Result<Response, crate::errors::Error>,
                |
                    dispatch_post(
                        req,
                        *old(manager),
                        *final(manager),
                        *old(monitor),
                        *final(monitor),
                        observed@,
                        r,
                    ) && out@ == (match r {
                        Ok(resp) => resp_text(resp),
                        Err(e) => engine_error_text(e),
                    }),
            (exists|resp: Response| out@ == resp_text(resp)) || (exists|e: crate::errors::Error|
                out@ == engine_error_text(e)),
    {
        let req = match crate::reqres::parse_request(frame) {
            Some(r) => r,
            None => {
                let e = crate::errors::Error::WrongRequest;
                let out = e.message();
                proof {
                    assert(out@ == engine_error_text(crate::errors::Error::WrongRequest));
                }
                return out;
            },
        };
        let result = self.execute(&req, manager, monitor, observed);
        let ghost outcome = result;
        match result {
            Ok(resp) => {
                let out = crate::reqres::encode_response(&resp);
                proof {
                    assert(outcome matches Ok(resp2) && out@ == resp_text(resp2));
                    lemma_handle_frame_outcome(
                        req,
                        *old(manager),
                        *manager,
                        *old(monitor),
                        *monitor,
                        observed@,
                        outcome,
                    );
                }
                out
            },
            Err(e) => {
                let out = e.message();
                proof {
                    assert(outcome matches Err(e2) && out@ == engine_error_text(e2));
                    lemma_handle_frame_outcome(
                        req,
                        *old(manager),
                        *manager,
                        *old(monitor),
                        *monitor,
                        observed@,
                        outcome,
                    );
                }
                out
            },
        }
    }
}

/// Lifts one dispatch outcome for the parsed request to every request that
/// shares the frame's text: the text determines the request's contents, and
/// `dispatch_post` reads nothing else.
proof fn lemma_handle_frame_outcome(
    parsed: Request,
    pre: WalletManager,
    post: WalletManager,
    pre_mon: Monitor,
    post_mon: Monitor,
    observed: Seq<(Address, u64)>,
    outcome: Result<Response, crate::errors::Error>,
)
    requires
        req_wf(parsed),
        dispatch_post(parsed, pre, post, pre_mon, post_mon, observed, outcome),
    ensures
        forall|req: Request|
            req_wf(req) && req_text(req) == req_text(parsed) ==> dispatch_post(
                req,
                pre,
                post,
                pre_mon,
                post_mon,
                observed,
                outcome,
            ),
{
    assert forall|req: Request|
        req_wf(req) && req_text(req) == req_text(parsed) implies dispatch_post(
        req,
        pre,
        post,
        pre_mon,
        post_mon,
        observed,
        outcome,
    ) by {
        crate::reqres::lemma_req_text_determines_views(parsed, req);
        lemma_dispatch_post_views(parsed, req, pre, post, pre_mon, post_mon, observed, outcome);
    }
}

/// At most one index is the richest: ties are broken by the strictly smaller
/// address identifier.
proof fn lemma_richest_unique(m: WalletManager)
    ensures
        forall|i: int, j: int| m.is_richest(i) && m.is_richest(j) ==> i == j,
{
    assert forall|i: int, j: int| m.is_richest(i) && m.is_richest(j) implies i == j by {
        if i != j {
            assert(m.wallets@[i].balance > m.wallets@[j].balance || (m.wallets@[i].balance
                == m.wallets@[j].balance && m.wallets@[i].address.id < m.wallets@[j].address.id));
            assert(m.wallets@[j].balance > m.wallets@[i].balance || (m.wallets@[j].balance
                == m.wallets@[i].balance && m.wallets@[j].address.id < m.wallets@[i].address.id));
        }
    }
}

} // verus!
