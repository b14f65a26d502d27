//! The request/response payload contract: one self-contained JSON message per
//! frame, a discriminant naming the variant, the same schema family in both
//! directions. The encoder emits one canonical compact text per value and the
//! request parser accepts exactly those texts, so a malformed frame is always
//! recognized.
//!
//! The canonical form is the wire contract: clients must send the compact,
//! externally tagged text `encode_request` produces. Insignificant JSON
//! whitespace, reordered fields or string escapes are answered with a
//! wrong-request error, not tolerated.
use vstd::prelude::*;
use vstd::string::StrSliceExecFns;
use vstd::string::StringExecFns;

use crate::encoding::dec_text;
use crate::encoding::append_dec;
use crate::encoding::expect_lit;
use crate::encoding::is_plain_char;
use crate::encoding::parse_dec;
use crate::encoding::plain_text;
use crate::encoding::scan_plain;
use crate::encoding::text_eq;

verus! {

/// A request a client can make of the fleet.
#[derive(Clone, Debug)]
pub enum Request {
    /// The address of the best wallet to receive funds.
    RetrieveAddress,
    /// Send `amount` to `to` from the manager's chosen wallet.
    SendTransaction { to: String, amount: u64 },
    /// Send `amount` from `from` to `to`.
    SendTransactionFrom { from: String, to: String, amount: u64 },
    /// The balance of one wallet.
    RetrieveBalance { address: String },
    /// The balances of all wallets.
    RetrieveBalances,
    /// The addresses of all wallets.
    ListWallets,
    /// Run one reconciliation pass.
    Sync,
}

/// The response paired with each request variant.
#[derive(Clone, Debug)]
pub enum Response {
    RetrieveAddress { address: String },
    RetrieveBalance { address: String, balance: u64 },
    RetrieveBalances { balances: Vec<(String, u64)> },
    ListWallets { wallets: Vec<String> },
    Sync { success: bool },
    SendTransaction { txid: String },
    SendTransactionFrom { from: String, txid: String },
}

/// Whether a request's text fields can stand raw inside quotes.
pub open spec fn req_wf(r: Request) -> bool {
    match r {
        Request::RetrieveAddress => true,
        Request::SendTransaction { to, amount } => plain_text(to@),
        Request::SendTransactionFrom { from, to, amount } => plain_text(from@) && plain_text(to@),
        Request::RetrieveBalance { address } => plain_text(address@),
        Request::RetrieveBalances => true,
        Request::ListWallets => true,
        Request::Sync => true,
    }
}

/// The canonical frame text of a request.
pub open spec fn req_text(r: Request) -> Seq<char> {
    match r {
        Request::RetrieveAddress => "\"RetrieveAddress\""@,
        Request::SendTransaction { to, amount } => "{\"SendTransaction\":{\"to\":\""@ + to@
            + "\",\"amount\":"@ + dec_text(amount as nat) + "}}"@,
        Request::SendTransactionFrom { from, to, amount } => "{\"SendTransactionFrom\":{\"from\":\""@
            + from@ + "\",\"to\":\""@ + to@ + "\",\"amount\":"@ + dec_text(amount as nat) + "}}"@,
        Request::RetrieveBalance { address } => "{\"RetrieveBalance\":{\"address\":\""@ + address@
            + "\"}}"@,
        Request::RetrieveBalances => "\"RetrieveBalances\""@,
        Request::ListWallets => "\"ListWallets\""@,
        Request::Sync => "\"Sync\""@,
    }
}

/// Writes the canonical frame text of a request.
pub fn encode_request(r: &Request) -> (out: String)
    ensures
        out@ == req_text(*r),
{
    let mut out = String::new();
    match r {
        Request::RetrieveAddress => {
            out.append("\"RetrieveAddress\"");
        },
        Request::SendTransaction { to, amount } => {
            out.append("{\"SendTransaction\":{\"to\":\"");
            out.append(to.as_str());
            out.append("\",\"amount\":");
            append_dec(&mut out, *amount);
            out.append("}}");
        },
        Request::SendTransactionFrom { from, to, amount } => {
            out.append("{\"SendTransactionFrom\":{\"from\":\"");
            out.append(from.as_str());
            out.append("\",\"to\":\"");
            out.append(to.as_str());
            out.append("\",\"amount\":");
            append_dec(&mut out, *amount);
            out.append("}}");
        },
        Request::RetrieveBalance { address } => {
            out.append("{\"RetrieveBalance\":{\"address\":\"");
            out.append(address.as_str());
            out.append("\"}}");
        },
        Request::RetrieveBalances => {
            out.append("\"RetrieveBalances\"");
        },
        Request::ListWallets => {
            out.append("\"ListWallets\"");
        },
        Request::Sync => {
            out.append("\"Sync\"");
        },
    }
    out
}

/// Reads a request frame. Exactly the canonical texts of well-formed requests
/// are accepted: parsing returns the one request whose encoding is the input,
/// and fails on every other text.
#[verifier::rlimit(100)]
#[verifier::loop_isolation(false)]
pub fn parse_request(s: &str) -> (r: Option<Request>)
    ensures
        match r {
            Some(req) => req_wf(req) && s@ == req_text(req),
            None => forall|req: Request| req_wf(req) ==> s@ != req_text(req),
        },
{
    proof {
        reveal_strlit("\"RetrieveAddress\"");
        reveal_strlit("\"RetrieveBalances\"");
        reveal_strlit("\"ListWallets\"");
        reveal_strlit("\"Sync\"");
        reveal_strlit("{\"SendTransaction\":{\"to\":\"");
        reveal_strlit("{\"SendTransactionFrom\":{\"from\":\"");
        reveal_strlit("{\"RetrieveBalance\":{\"address\":\"");
        reveal_strlit("\",\"amount\":");
        reveal_strlit("\",\"to\":\"");
        reveal_strlit("\"}}");
        reveal_strlit("}}");
    }
    if text_eq(s, "\"RetrieveAddress\"") {
        return Some(Request::RetrieveAddress);
    }
    if text_eq(s, "\"RetrieveBalances\"") {
        return Some(Request::RetrieveBalances);
    }
    if text_eq(s, "\"ListWallets\"") {
        return Some(Request::ListWallets);
    }
    if text_eq(s, "\"Sync\"") {
        return Some(Request::Sync);
    }
    if expect_lit(s, 0, "{\"SendTransactionFrom\":{\"from\":\"") {
        parse_req_stf(s)
    } else if expect_lit(s, 0, "{\"SendTransaction\":{\"to\":\"") {
        parse_req_st(s)
    } else if expect_lit(s, 0, "{\"RetrieveBalance\":{\"address\":\"") {
        parse_req_rb(s)
    } else {
        proof {
            assert forall|req: Request| req_wf(req) implies s@ != req_text(req) by {
                if s@ == req_text(req) {
                    match req {
                        Request::RetrieveAddress => {},
                        Request::RetrieveBalances => {},
                        Request::ListWallets => {},
                        Request::Sync => {},
                        Request::SendTransactionFrom { from, to, amount } => {
                            lemma_stf_facts(s@, from@, to@, amount);
                            assert(s@.subrange(0, 32)
                                == "{\"SendTransactionFrom\":{\"from\":\""@);
                            assert(false);
                        },
                        Request::SendTransaction { to, amount } => {
                            lemma_st_facts(s@, to@, amount);
                            assert(s@.subrange(0, 26) == "{\"SendTransaction\":{\"to\":\""@);
                            assert(false);
                        },
                        Request::RetrieveBalance { address } => {
                            lemma_rb_facts(s@, address@);
                            assert(s@.subrange(0, 31)
                                == "{\"RetrieveBalance\":{\"address\":\""@);
                            assert(false);
                        },
                    }
                }
            }
        }
        None
    }
}

/// A text that opens with the `SendTransactionFrom` discriminant is no other
/// variant's canonical text.
proof fn lemma_not_other_than_stf(s: Seq<char>, req: Request)
    requires
        s.len() >= 32,
        s.subrange(0, 32) == "{\"SendTransactionFrom\":{\"from\":\""@,
        s == req_text(req),
        req_wf(req),
    ensures
        req is SendTransactionFrom,
{
    reveal_strlit("{\"SendTransactionFrom\":{\"from\":\"");
    reveal_strlit("\"RetrieveAddress\"");
    reveal_strlit("\"RetrieveBalances\"");
    reveal_strlit("\"ListWallets\"");
    reveal_strlit("\"Sync\"");
    assert(s[17] == s.subrange(0, 32)[17]);
    assert(s[2] == s.subrange(0, 32)[2]);
    assert(s[17] == 'F');
    assert(s[2] == 'S');
    match req {
        Request::RetrieveAddress => {
            assert(s.len() == 17);
        },
        Request::RetrieveBalances => {
            assert(s.len() == 18 && s[2] == 'e');
        },
        Request::ListWallets => {
            assert(s.len() == 13);
        },
        Request::Sync => {
            assert(s.len() == 6);
        },
        Request::SendTransaction { to, amount } => {
            lemma_st_facts(s, to@, amount);
        },
        Request::RetrieveBalance { address } => {
            lemma_rb_facts(s, address@);
        },
        Request::SendTransactionFrom { .. } => {},
    }
}

/// A text that opens with the `SendTransaction` discriminant and is not a
/// `SendTransactionFrom` text is no other variant's canonical text.
proof fn lemma_not_other_than_st(s: Seq<char>, req: Request)
    requires
        s.len() >= 26,
        s.subrange(0, 26) == "{\"SendTransaction\":{\"to\":\""@,
        s == req_text(req),
        req_wf(req),
    ensures
        req is SendTransaction,
{
    reveal_strlit("{\"SendTransaction\":{\"to\":\"");
    reveal_strlit("\"RetrieveAddress\"");
    reveal_strlit("\"RetrieveBalances\"");
    reveal_strlit("\"ListWallets\"");
    reveal_strlit("\"Sync\"");
    assert(s[17] == s.subrange(0, 26)[17]);
    assert(s[2] == s.subrange(0, 26)[2]);
    assert(s[0] == s.subrange(0, 26)[0]);
    assert(s[17] == '"');
    assert(s[2] == 'S');
    assert(s[0] == '{');
    match req {
        Request::RetrieveAddress => {
            assert(s[0] == '"');
        },
        Request::RetrieveBalances => {
            assert(s[0] == '"');
        },
        Request::ListWallets => {
            assert(s[0] == '"');
        },
        Request::Sync => {
            assert(s[0] == '"');
        },
        Request::SendTransactionFrom { from, to, amount } => {
            lemma_stf_facts(s, from@, to@, amount);
        },
        Request::RetrieveBalance { address } => {
            lemma_rb_facts(s, address@);
        },
        Request::SendTransaction { .. } => {},
    }
}

/// A text that opens with the `RetrieveBalance` discriminant is no other
/// variant's canonical text.
proof fn lemma_not_other_than_rb(s: Seq<char>, req: Request)
    requires
        s.len() >= 31,
        s.subrange(0, 31) == "{\"RetrieveBalance\":{\"address\":\""@,
        s == req_text(req),
        req_wf(req),
    ensures
        req is RetrieveBalance,
{
    reveal_strlit("{\"RetrieveBalance\":{\"address\":\"");
    reveal_strlit("\"RetrieveAddress\"");
    reveal_strlit("\"RetrieveBalances\"");
    reveal_strlit("\"ListWallets\"");
    reveal_strlit("\"Sync\"");
    assert(s[2] == s.subrange(0, 31)[2]);
    assert(s[0] == s.subrange(0, 31)[0]);
    assert(s[2] == 'R');
    assert(s[0] == '{');
    match req {
        Request::RetrieveAddress => {
            assert(s[0] == '"');
        },
        Request::RetrieveBalances => {
            assert(s[0] == '"');
        },
        Request::ListWallets => {
            assert(s[0] == '"');
        },
        Request::Sync => {
            assert(s[0] == '"');
        },
        Request::SendTransactionFrom { from, to, amount } => {
            lemma_stf_facts(s, from@, to@, amount);
            assert(s[2] == 'S');
        },
        Request::SendTransaction { to, amount } => {
            lemma_st_facts(s, to@, amount);
            assert(s[2] == 'S');
        },
        Request::RetrieveBalance { .. } => {},
    }
}

/// The scan for a field's closing quote lands exactly on the quote that ends
/// the field: nothing inside the field is a quote, and the next character is.
proof fn lemma_pin_end(s: Seq<char>, start: int, flen: int, end: int)
    requires
        0 <= start,
        0 <= flen,
        start + flen < s.len(),
        forall|k: int| start <= k < start + flen ==> s[k] != '"',
        s[start + flen] == '"',
        start <= end < s.len(),
        s[end] == '"',
        forall|k: int| start <= k < end ==> s[k] != '"',
    ensures
        end == start + flen,
{
    if end < start + flen {
        assert(s[end] != '"');
    }
    if end > start + flen {
        assert(s[start + flen] != '"');
    }
}

/// The digit scan lands exactly on the end of the canonical decimal span:
/// everything in the span is a digit and the next character is not.
proof fn lemma_pin_dec(s: Seq<char>, start: int, dlen: int, end: int)
    requires
        0 <= start,
        1 <= dlen,
        start + dlen < s.len(),
        forall|k: int| start <= k < start + dlen ==> crate::encoding::is_dec_char(s[k]),
        !crate::encoding::is_dec_char(s[start + dlen]),
        start <= end <= s.len(),
        forall|k: int| start <= k < end ==> crate::encoding::is_dec_char(s[k]),
        end == s.len() || !crate::encoding::is_dec_char(s[end]),
    ensures
        end == start + dlen,
{
    if end < start + dlen {
        assert(crate::encoding::is_dec_char(s[end]));
    }
    if end > start + dlen {
        assert(crate::encoding::is_dec_char(s[start + dlen]));
    }
}


/// The `SendTransactionFrom` branch of `parse_request`.
#[verifier::rlimit(100)]
#[verifier::loop_isolation(false)]
fn parse_req_stf(s: &str) -> (r: Option<Request>)
    requires
        s@.len() >= 32,
        s@.subrange(0, 32) == "{\"SendTransactionFrom\":{\"from\":\""@,
    ensures
        match r {
            Some(req) => req_wf(req) && s@ == req_text(req),
            None => forall|req: Request| req_wf(req) ==> s@ != req_text(req),
        },
{
    proof {
        reveal_strlit("{\"SendTransactionFrom\":{\"from\":\"");
        reveal_strlit("\",\"to\":\"");
        reveal_strlit("\",\"amount\":");
        reveal_strlit("}}");
    }
    let n = s.unicode_len();
    match parse_string_field(s, 32) {
        Some(from_end) => {
            let from_field = s.substring_char(32, from_end);
            if expect_lit(s, from_end, "\",\"to\":\"") {
                let to_start = from_end + 8;
                match parse_string_field(s, to_start) {
                    Some(to_end) => {
                        let to_field = s.substring_char(to_start, to_end);
                        if expect_lit(s, to_end, "\",\"amount\":") {
                            let amt_start = to_end + 11;
                            match parse_dec(s, amt_start) {
                                Some((amount, amt_end)) => {
                                    if n - amt_end == 2 && expect_lit(s, amt_end, "}}") {
                                        let req = Request::SendTransactionFrom {
                                            from: String::from_str(from_field),
                                            to: String::from_str(to_field),
                                            amount,
                                        };
                                        proof {
                                            assert(s@ =~= req_text(req));
                                        }
                                        return Some(req);
                                    }
                                    proof {
                                        assert forall|req: Request| req_wf(req) implies s@
                                            != req_text(req) by {
                                            if s@ == req_text(req) {
                                                lemma_not_other_than_stf(s@, req);
                                                if let Request::SendTransactionFrom {
                                                    from,
                                                    to,
                                                    amount: a2,
                                                } = req {
                                                    lemma_stf_facts(s@, from@, to@, a2);
                                                    lemma_pin_end(s@, 32, from@.len() as int, from_end as int);
                                                    lemma_pin_end(s@, 40 + from@.len() as int, to@.len() as int, to_end as int);
                                                    crate::encoding::lemma_dec_text_len(a2 as nat);
                                                    crate::encoding::lemma_dec_text_len(amount as nat);
                                                    let dstart: int = 51 + from@.len() as int + to@.len() as int;
                                                    let dl: int = dec_text(a2 as nat).len() as int;
                                                    assert forall|k: int| dstart <= k < dstart + dl implies crate::encoding::is_dec_char(s@[k]) by {
                                                        assert(s@.subrange(dstart, dstart + dl)[k - dstart] == s@[k]);
                                                    }
                                                    assert forall|k: int| amt_start <= k < amt_end implies crate::encoding::is_dec_char(s@[k]) by {
                                                        assert(s@.subrange(amt_start as int, amt_end as int)[k - amt_start] == s@[k]);
                                                    }
                                                    lemma_pin_dec(s@, dstart, dl, amt_end as int);
                                                    assert(amt_end + 2 == s@.len());
                                                    assert(s@.subrange(amt_end as int, amt_end + 2) == "}}"@);
                                                    assert(false);
                                                }
                                            }
                                        }
                                    }
                                    None
                                },
                                None => {
                                    proof {
                                        assert forall|req: Request| req_wf(req) implies s@
                                            != req_text(req) by {
                                            if s@ == req_text(req) {
                                                lemma_not_other_than_stf(s@, req);
                                                if let Request::SendTransactionFrom {
                                                    from,
                                                    to,
                                                    amount: a2,
                                                } = req {
                                                    lemma_stf_facts(s@, from@, to@, a2);
                                                    lemma_pin_end(s@, 32, from@.len() as int, from_end as int);
                                                    lemma_pin_end(s@, 40 + from@.len() as int, to@.len() as int, to_end as int);
                                                    crate::encoding::lemma_dec_text_len(a2 as nat);
                                                    let e: int = 51 + from@.len() as int + to@.len() as int + dec_text(a2 as nat).len() as int;
                                                    assert(s@.subrange(amt_start as int, e as int) == dec_text(a2 as nat));
                                                    assert(!crate::encoding::is_dec_char(s@[e as int]));
                                                    assert(false);
                                                }
                                            }
                                        }
                                    }
                                    None
                                },
                            }
                        } else {
                            proof {
                                assert forall|req: Request| req_wf(req) implies s@
                                    != req_text(req) by {
                                    if s@ == req_text(req) {
                                        lemma_not_other_than_stf(s@, req);
                                        if let Request::SendTransactionFrom { from, to, amount } =
                                            req {
                                            lemma_stf_facts(s@, from@, to@, amount);
                                            lemma_pin_end(s@, 32, from@.len() as int, from_end as int);
                                            lemma_pin_end(s@, 40 + from@.len() as int, to@.len() as int, to_end as int);
                                            assert(s@.subrange(to_end as int, to_end + 11)
                                                == "\",\"amount\":"@);
                                            assert(false);
                                        }
                                    }
                                }
                            }
                            None
                        }
                    },
                    None => {
                        proof {
                            assert forall|req: Request| req_wf(req) implies s@ != req_text(
                                req,
                            ) by {
                                if s@ == req_text(req) {
                                    lemma_not_other_than_stf(s@, req);
                                    if let Request::SendTransactionFrom { from, to, amount } =
                                        req {
                                        lemma_stf_facts(s@, from@, to@, amount);
                                        lemma_pin_end(s@, 32, from@.len() as int, from_end as int);
                                        let e: int = 40 + from@.len() as int + to@.len() as int;
                                        assert(s@[e as int] == '"');
                                        assert(plain_text(s@.subrange(to_start as int, e as int)));
                                        assert(false);
                                    }
                                }
                            }
                        }
                        None
                    },
                }
            } else {
                proof {
                    assert forall|req: Request| req_wf(req) implies s@ != req_text(req) by {
                        if s@ == req_text(req) {
                            lemma_not_other_than_stf(s@, req);
                            if let Request::SendTransactionFrom { from, to, amount } = req {
                                lemma_stf_facts(s@, from@, to@, amount);
                                lemma_pin_end(s@, 32, from@.len() as int, from_end as int);
                                assert(s@.subrange(from_end as int, from_end + 8)
                                    == "\",\"to\":\""@);
                                assert(false);
                            }
                        }
                    }
                }
                None
            }
        },
        None => {
            proof {
                assert forall|req: Request| req_wf(req) implies s@ != req_text(req) by {
                    if s@ == req_text(req) {
                        lemma_not_other_than_stf(s@, req);
                        if let Request::SendTransactionFrom { from, to, amount } = req {
                            lemma_stf_facts(s@, from@, to@, amount);
                            let e: int = 32 + from@.len() as int;
                            assert(s@[e as int] == '"');
                            assert(plain_text(s@.subrange(32, e as int)));
                            assert(false);
                        }
                    }
                }
            }
            None
        },
    }
}

/// The `SendTransaction` branch of `parse_request`.
#[verifier::rlimit(100)]
#[verifier::loop_isolation(false)]
fn parse_req_st(s: &str) -> (r: Option<Request>)
    requires
        s@.len() >= 26,
        s@.subrange(0, 26) == "{\"SendTransaction\":{\"to\":\""@,
    ensures
        match r {
            Some(req) => req_wf(req) && s@ == req_text(req),
            None => forall|req: Request| req_wf(req) ==> s@ != req_text(req),
        },
{
    proof {
        reveal_strlit("{\"SendTransaction\":{\"to\":\"");
        reveal_strlit("\",\"amount\":");
        reveal_strlit("}}");
    }
    let n = s.unicode_len();
    match parse_string_field(s, 26) {
        Some(to_end) => {
            let to_field = s.substring_char(26, to_end);
            if expect_lit(s, to_end, "\",\"amount\":") {
                let amt_start = to_end + 11;
                match parse_dec(s, amt_start) {
                    Some((amount, amt_end)) => {
                        if n - amt_end == 2 && expect_lit(s, amt_end, "}}") {
                            let req = Request::SendTransaction {
                                to: String::from_str(to_field),
                                amount,
                            };
                            proof {
                                assert(s@ =~= req_text(req));
                            }
                            return Some(req);
                        }
                        proof {
                            assert forall|req: Request| req_wf(req) implies s@ != req_text(
                                req,
                            ) by {
                                if s@ == req_text(req) {
                                    lemma_not_other_than_st(s@, req);
                                    if let Request::SendTransaction { to, amount: a2 } = req {
                                        lemma_st_facts(s@, to@, a2);
                                        lemma_pin_end(s@, 26, to@.len() as int, to_end as int);
                                        crate::encoding::lemma_dec_text_len(a2 as nat);
                                        crate::encoding::lemma_dec_text_len(amount as nat);
                                        let dstart: int = 37 + to@.len() as int;
                                        let dl: int = dec_text(a2 as nat).len() as int;
                                        assert forall|k: int| dstart <= k < dstart + dl implies crate::encoding::is_dec_char(s@[k]) by {
                                            assert(s@.subrange(dstart, dstart + dl)[k - dstart] == s@[k]);
                                        }
                                        assert forall|k: int| amt_start <= k < amt_end implies crate::encoding::is_dec_char(s@[k]) by {
                                            assert(s@.subrange(amt_start as int, amt_end as int)[k - amt_start] == s@[k]);
                                        }
                                        lemma_pin_dec(s@, dstart, dl, amt_end as int);
                                        assert(amt_end + 2 == s@.len());
                                        assert(s@.subrange(amt_end as int, amt_end + 2) == "}}"@);
                                        assert(false);
                                    }
                                }
                            }
                        }
                        None
                    },
                    None => {
                        proof {
                            assert forall|req: Request| req_wf(req) implies s@ != req_text(
                                req,
                            ) by {
                                if s@ == req_text(req) {
                                    lemma_not_other_than_st(s@, req);
                                    if let Request::SendTransaction { to, amount: a2 } = req {
                                        lemma_st_facts(s@, to@, a2);
                                        lemma_pin_end(s@, 26, to@.len() as int, to_end as int);
                                        crate::encoding::lemma_dec_text_len(a2 as nat);
                                        let e: int = 37 + to@.len() as int + dec_text(a2 as nat).len() as int;
                                        assert(s@.subrange(amt_start as int, e as int) == dec_text(a2 as nat));
                                        assert(!crate::encoding::is_dec_char(s@[e as int]));
                                        assert(false);
                                    }
                                }
                            }
                        }
                        None
                    },
                }
            } else {
                proof {
                    assert forall|req: Request| req_wf(req) implies s@ != req_text(req) by {
                        if s@ == req_text(req) {
                            lemma_not_other_than_st(s@, req);
                            if let Request::SendTransaction { to, amount } = req {
                                lemma_st_facts(s@, to@, amount);
                                lemma_pin_end(s@, 26, to@.len() as int, to_end as int);
                                assert(s@.subrange(to_end as int, to_end + 11)
                                    == "\",\"amount\":"@);
                                assert(false);
                            }
                        }
                    }
                }
                None
            }
        },
        None => {
            proof {
                assert forall|req: Request| req_wf(req) implies s@ != req_text(req) by {
                    if s@ == req_text(req) {
                        lemma_not_other_than_st(s@, req);
                        if let Request::SendTransaction { to, amount } = req {
                            lemma_st_facts(s@, to@, amount);
                            let e: int = 26 + to@.len() as int;
                            assert(s@[e as int] == '"');
                            assert(plain_text(s@.subrange(26, e as int)));
                            assert(false);
                        }
                    }
                }
            }
            None
        },
    }
}

/// The `RetrieveBalance` branch of `parse_request`.
#[verifier::rlimit(100)]
#[verifier::loop_isolation(false)]
fn parse_req_rb(s: &str) -> (r: Option<Request>)
    requires
        s@.len() >= 31,
        s@.subrange(0, 31) == "{\"RetrieveBalance\":{\"address\":\""@,
    ensures
        match r {
            Some(req) => req_wf(req) && s@ == req_text(req),
            None => forall|req: Request| req_wf(req) ==> s@ != req_text(req),
        },
{
    proof {
        reveal_strlit("{\"RetrieveBalance\":{\"address\":\"");
        reveal_strlit("\"}}");
    }
    let n = s.unicode_len();
    match parse_string_field(s, 31) {
        Some(addr_end) => {
            let addr_field = s.substring_char(31, addr_end);
            if n - addr_end == 3 && expect_lit(s, addr_end, "\"}}") {
                let req = Request::RetrieveBalance { address: String::from_str(addr_field) };
                proof {
                    assert(s@ =~= req_text(req));
                }
                return Some(req);
            }
            proof {
                assert forall|req: Request| req_wf(req) implies s@ != req_text(req) by {
                    if s@ == req_text(req) {
                        lemma_not_other_than_rb(s@, req);
                        if let Request::RetrieveBalance { address } = req {
                            lemma_rb_facts(s@, address@);
                            lemma_pin_end(s@, 31, address@.len() as int, addr_end as int);
                            assert(addr_end + 3 == s@.len());
                            assert(s@.subrange(addr_end as int, addr_end + 3) == "\"}}"@);
                            assert(false);
                        }
                    }
                }
            }
            None
        },
        None => {
            proof {
                assert forall|req: Request| req_wf(req) implies s@ != req_text(req) by {
                    if s@ == req_text(req) {
                        lemma_not_other_than_rb(s@, req);
                        if let Request::RetrieveBalance { address } = req {
                            lemma_rb_facts(s@, address@);
                            let e: int = 31 + address@.len() as int;
                            assert(s@[e as int] == '"');
                            assert(plain_text(s@.subrange(31, e as int)));
                            assert(false);
                        }
                    }
                }
            }
            None
        },
    }
}


/// The canonical text of one address/balance pair in a balances list.
pub open spec fn pair_item_text(p: (String, u64)) -> Seq<char> {
    "[\""@ + p.0@ + "\","@ + dec_text(p.1 as nat) + "]"@
}

/// The canonical text of the items of a balances list; `first` says whether a
/// separating comma is still owed.
pub open spec fn balances_items_text(s: Seq<(String, u64)>, first: bool) -> Seq<char>
    decreases s.len(),
{
    if s.len() == 0 {
        Seq::empty()
    } else {
        (if first {
            pair_item_text(s[0])
        } else {
            seq![','] + pair_item_text(s[0])
        }) + balances_items_text(s.subrange(1, s.len() as int), false)
    }
}

/// The canonical text of one quoted string item in a wallets list.
pub open spec fn wallet_item_text(w: String) -> Seq<char> {
    "\""@ + w@ + "\""@
}

/// The canonical text of the items of a wallets list.
pub open spec fn wallets_items_text(s: Seq<String>, first: bool) -> Seq<char>
    decreases s.len(),
{
    if s.len() == 0 {
        Seq::empty()
    } else {
        (if first {
            wallet_item_text(s[0])
        } else {
            seq![','] + wallet_item_text(s[0])
        }) + wallets_items_text(s.subrange(1, s.len() as int), false)
    }
}

/// The canonical frame text of a response.
pub open spec fn resp_text(r: Response) -> Seq<char> {
    match r {
        Response::RetrieveAddress { address } => "{\"RetrieveAddress\":{\"address\":\""@ + address@
            + "\"}}"@,
        Response::RetrieveBalance { address, balance } => "{\"RetrieveBalance\":{\"address\":\""@
            + address@ + "\",\"balance\":"@ + dec_text(balance as nat) + "}}"@,
        Response::RetrieveBalances { balances } => "{\"RetrieveBalances\":{\"balances\":["@
            + balances_items_text(balances@, true) + "]}}"@,
        Response::ListWallets { wallets } => "{\"ListWallets\":{\"wallets\":["@
            + wallets_items_text(wallets@, true) + "]}}"@,
        Response::Sync { success } => if success {
            "{\"Sync\":{\"success\":true}}"@
        } else {
            "{\"Sync\":{\"success\":false}}"@
        },
        Response::SendTransaction { txid } => "{\"SendTransaction\":{\"txid\":\""@ + txid@
            + "\"}}"@,
        Response::SendTransactionFrom { from, txid } => "{\"SendTransactionFrom\":{\"from\":\""@
            + from@ + "\",\"txid\":\""@ + txid@ + "\"}}"@,
    }
}

proof fn lemma_balances_items_take(s: Seq<(String, u64)>, i: int, first: bool)
    requires
        0 <= i < s.len(),
    ensures
        balances_items_text(s.take(i + 1), first) == balances_items_text(s.take(i), first) + (
        if i == 0 && first {
            pair_item_text(s[i])
        } else {
            seq![','] + pair_item_text(s[i])
        }),
    decreases s.len(),
{
    let rest = s.subrange(1, s.len() as int);
    if i == 0 {
        assert(s.take(1) =~= seq![s[0]]);
        assert(s.take(1).subrange(1, 1) =~= Seq::<(String, u64)>::empty());
        assert(s.take(0) =~= Seq::<(String, u64)>::empty());
        assert(s.take(1)[0] == s[0]);
        assert(balances_items_text(s.take(1).subrange(1, 1), false) =~= Seq::<char>::empty());
        assert(balances_items_text(s.take(1), first) =~= (if first {
            pair_item_text(s.take(1)[0])
        } else {
            seq![','] + pair_item_text(s.take(1)[0])
        }) + balances_items_text(s.take(1).subrange(1, 1), false));
        assert(balances_items_text(s.take(1), first) =~= (if first {
            pair_item_text(s[0])
        } else {
            seq![','] + pair_item_text(s[0])
        }));
    } else {
        assert(s.take(i + 1)[0] == s[0]);
        assert(s.take(i)[0] == s[0]);
        assert(s.take(i + 1).subrange(1, i + 1) =~= rest.take(i));
        assert(s.take(i).subrange(1, i) =~= rest.take(i - 1));
        lemma_balances_items_take(rest, i - 1, false);
    }
}

proof fn lemma_wallets_items_take(s: Seq<String>, i: int, first: bool)
    requires
        0 <= i < s.len(),
    ensures
        wallets_items_text(s.take(i + 1), first) == wallets_items_text(s.take(i), first) + (
        if i == 0 && first {
            wallet_item_text(s[i])
        } else {
            seq![','] + wallet_item_text(s[i])
        }),
    decreases s.len(),
{
    let rest = s.subrange(1, s.len() as int);
    if i == 0 {
        assert(s.take(1) =~= seq![s[0]]);
        assert(s.take(1).subrange(1, 1) =~= Seq::<String>::empty());
        assert(s.take(0) =~= Seq::<String>::empty());
        assert(s.take(1)[0] == s[0]);
        assert(wallets_items_text(s.take(1).subrange(1, 1), false) =~= Seq::<char>::empty());
        assert(wallets_items_text(s.take(1), first) =~= (if first {
            wallet_item_text(s.take(1)[0])
        } else {
            seq![','] + wallet_item_text(s.take(1)[0])
        }) + wallets_items_text(s.take(1).subrange(1, 1), false));
        assert(wallets_items_text(s.take(1), first) =~= (if first {
            wallet_item_text(s[0])
        } else {
            seq![','] + wallet_item_text(s[0])
        }));
    } else {
        assert(s.take(i + 1)[0] == s[0]);
        assert(s.take(i)[0] == s[0]);
        assert(s.take(i + 1).subrange(1, i + 1) =~= rest.take(i));
        assert(s.take(i).subrange(1, i) =~= rest.take(i - 1));
        lemma_wallets_items_take(rest, i - 1, false);
    }
}

/// Writes the canonical frame text of a response.
#[verifier::loop_isolation(false)]
pub fn encode_response(r: &Response) -> (out: String)
    ensures
        out@ == resp_text(*r),
{
    let mut out = String::new();
    match r {
        Response::RetrieveAddress { address } => {
            out.append("{\"RetrieveAddress\":{\"address\":\"");
            out.append(address.as_str());
            out.append("\"}}");
        },
        Response::RetrieveBalance { address, balance } => {
            out.append("{\"RetrieveBalance\":{\"address\":\"");
            out.append(address.as_str());
            out.append("\",\"balance\":");
            append_dec(&mut out, *balance);
            out.append("}}");
        },
        Response::RetrieveBalances { balances } => {
            out.append("{\"RetrieveBalances\":{\"balances\":[");
            let ghost prefix = out@;
            let m = balances.len();
            let mut j: usize = 0;
            while j < m
                invariant
                    j <= m,
                    m == balances@.len(),
                    out@ == prefix + balances_items_text(balances@.take(j as int), true),
                decreases m - j,
            {
                proof {
                    lemma_balances_items_take(balances@, j as int, true);
                }
                if j > 0 {
                    out.append(",");
                    proof {
                        reveal_strlit(",");
                        assert(","@ =~= seq![',']);
                    }
                }
                let p = &balances[j];
                out.append("[\"");
                out.append(p.0.as_str());
                out.append("\",");
                append_dec(&mut out, p.1);
                out.append("]");
                proof {
                    assert(out@ =~= prefix + balances_items_text(
                        balances@.take(j as int + 1),
                        true,
                    ));
                }
                j = j + 1;
            }
            proof {
                assert(balances@.take(m as int) =~= balances@);
            }
            out.append("]}}");
        },
        Response::ListWallets { wallets } => {
            out.append("{\"ListWallets\":{\"wallets\":[");
            let ghost prefix = out@;
            let m = wallets.len();
            let mut j: usize = 0;
            while j < m
                invariant
                    j <= m,
                    m == wallets@.len(),
                    out@ == prefix + wallets_items_text(wallets@.take(j as int), true),
                decreases m - j,
            {
                proof {
                    lemma_wallets_items_take(wallets@, j as int, true);
                }
                if j > 0 {
                    out.append(",");
                    proof {
                        reveal_strlit(",");
                        assert(","@ =~= seq![',']);
                    }
                }
                out.append("\"");
                out.append(wallets[j].as_str());
                out.append("\"");
                proof {
                    assert(out@ =~= prefix + wallets_items_text(
                        wallets@.take(j as int + 1),
                        true,
                    ));
                }
                j = j + 1;
            }
            proof {
                assert(wallets@.take(m as int) =~= wallets@);
            }
            out.append("]}}");
        },
        Response::Sync { success } => {
            if *success {
                out.append("{\"Sync\":{\"success\":true}}");
            } else {
                out.append("{\"Sync\":{\"success\":false}}");
            }
        },
        Response::SendTransaction { txid } => {
            out.append("{\"SendTransaction\":{\"txid\":\"");
            out.append(txid.as_str());
            out.append("\"}}");
        },
        Response::SendTransactionFrom { from, txid } => {
            out.append("{\"SendTransactionFrom\":{\"from\":\"");
            out.append(from.as_str());
            out.append("\",\"txid\":\"");
            out.append(txid.as_str());
            out.append("\"}}");
        },
    }
    out
}

impl Response {
    /// The canonical frame text of this response.
    pub fn to_string(&self) -> (out: String)
        ensures
            out@ == resp_text(*self),
    {
        encode_response(self)
    }
}



/// Whether two requests carry the same variant and the same field contents.
pub open spec fn req_views_eq(r1: Request, r2: Request) -> bool {
    match (r1, r2) {
        (Request::RetrieveAddress, Request::RetrieveAddress) => true,
        (Request::RetrieveBalances, Request::RetrieveBalances) => true,
        (Request::ListWallets, Request::ListWallets) => true,
        (Request::Sync, Request::Sync) => true,
        (
            Request::SendTransaction { to: t1, amount: a1 },
            Request::SendTransaction { to: t2, amount: a2 },
        ) => t1@ == t2@ && a1 == a2,
        (
            Request::SendTransactionFrom { from: f1, to: t1, amount: a1 },
            Request::SendTransactionFrom { from: f2, to: t2, amount: a2 },
        ) => f1@ == f2@ && t1@ == t2@ && a1 == a2,
        (
            Request::RetrieveBalance { address: d1 },
            Request::RetrieveBalance { address: d2 },
        ) => d1@ == d2@,
        _ => false,
    }
}

/// The variant-discriminating facts of a request's canonical text: its length
/// class and the characters that name the variant.
proof fn lemma_req_text_discriminants(r: Request)
    requires
        req_wf(r),
    ensures
        match r {
            Request::RetrieveAddress => req_text(r).len() == 17 && req_text(r)[0] == '"',
            Request::RetrieveBalances => req_text(r).len() == 18 && req_text(r)[0] == '"',
            Request::ListWallets => req_text(r).len() == 13 && req_text(r)[0] == '"',
            Request::Sync => req_text(r).len() == 6 && req_text(r)[0] == '"',
            Request::SendTransaction { to, amount } => req_text(r).len() >= 40 && req_text(r)[0]
                == '{' && req_text(r)[2] == 'S' && req_text(r)[17] == '"',
            Request::SendTransactionFrom { from, to, amount } => req_text(r).len() >= 54
                && req_text(r)[0] == '{' && req_text(r)[2] == 'S' && req_text(r)[17] == 'F',
            Request::RetrieveBalance { address } => req_text(r).len() >= 34 && req_text(r)[0]
                == '{' && req_text(r)[2] == 'R',
        },
{
    reveal_strlit("\"RetrieveAddress\"");
    reveal_strlit("\"RetrieveBalances\"");
    reveal_strlit("\"ListWallets\"");
    reveal_strlit("\"Sync\"");
    match r {
        Request::SendTransaction { to, amount } => {
            crate::encoding::lemma_dec_text_len(amount as nat);
            lemma_st_facts(req_text(r), to@, amount);
        },
        Request::SendTransactionFrom { from, to, amount } => {
            crate::encoding::lemma_dec_text_len(amount as nat);
            lemma_stf_facts(req_text(r), from@, to@, amount);
        },
        Request::RetrieveBalance { address } => {
            lemma_rb_facts(req_text(r), address@);
        },
        _ => {},
    }
}

/// Inside a request's canonical text, no character of a quoted field is a
/// quote, and every character of the amount is a digit.
proof fn lemma_field_chars(s: Seq<char>, start: int, f: Seq<char>)
    requires
        0 <= start,
        start + f.len() <= s.len(),
        s.subrange(start, start + f.len() as int) == f,
        plain_text(f),
    ensures
        forall|k: int| start <= k < start + f.len() ==> s[k] != '"',
{
    assert forall|k: int| start <= k < start + f.len() implies s[k] != '"' by {
        assert(s.subrange(start, start + f.len() as int)[k - start] == s[k]);
        assert(is_plain_char(f[k - start]));
    }
}

proof fn lemma_dec_chars(s: Seq<char>, start: int, n: nat)
    requires
        0 <= start,
        start + dec_text(n).len() <= s.len(),
        s.subrange(start, start + dec_text(n).len() as int) == dec_text(n),
    ensures
        forall|k: int|
            start <= k < start + dec_text(n).len() ==> crate::encoding::is_dec_char(s[k]),
{
    crate::encoding::lemma_dec_text_len(n);
    assert forall|k: int| start <= k < start + dec_text(n).len() implies
        crate::encoding::is_dec_char(s[k]) by {
        assert(s.subrange(start, start + dec_text(n).len() as int)[k - start] == s[k]);
    }
}

/// The canonical text determines the request's contents: two well-formed
/// requests with the same text share the variant and every field. With
/// `parse_request`'s contract, this makes the text form canonical: one text,
/// one request.
pub proof fn lemma_req_text_determines_views(r1: Request, r2: Request)
    requires
        req_wf(r1),
        req_wf(r2),
        req_text(r1) == req_text(r2),
    ensures
        req_views_eq(r1, r2),
{
    lemma_req_text_discriminants(r1);
    lemma_req_text_discriminants(r2);
    let s = req_text(r1);
    match (r1, r2) {
        (
            Request::SendTransaction { to: t1, amount: a1 },
            Request::SendTransaction { to: t2, amount: a2 },
        ) => {
            crate::encoding::lemma_dec_text_len(a1 as nat);
            crate::encoding::lemma_dec_text_len(a2 as nat);
            lemma_st_facts(s, t1@, a1);
            lemma_st_facts(s, t2@, a2);
            lemma_field_chars(s, 26, t1@);
            lemma_field_chars(s, 26, t2@);
            lemma_pin_end(s, 26, t1@.len() as int, 26 + t2@.len() as int);
            assert(t1@ == t2@);
            let dstart: int = 37 + t1@.len() as int;
            lemma_dec_chars(s, dstart, a1 as nat);
            lemma_dec_chars(s, dstart, a2 as nat);
            assert(!crate::encoding::is_dec_char(s[dstart + dec_text(a1 as nat).len() as int]));
            assert(!crate::encoding::is_dec_char(s[dstart + dec_text(a2 as nat).len() as int]));
            lemma_pin_dec(
                s,
                dstart,
                dec_text(a1 as nat).len() as int,
                dstart + dec_text(a2 as nat).len() as int,
            );
            assert(dec_text(a1 as nat) == dec_text(a2 as nat));
            crate::encoding::lemma_dec_round_trip(a1 as nat);
            crate::encoding::lemma_dec_round_trip(a2 as nat);
        },
        (
            Request::SendTransactionFrom { from: f1, to: t1, amount: a1 },
            Request::SendTransactionFrom { from: f2, to: t2, amount: a2 },
        ) => {
            crate::encoding::lemma_dec_text_len(a1 as nat);
            crate::encoding::lemma_dec_text_len(a2 as nat);
            lemma_stf_facts(s, f1@, t1@, a1);
            lemma_stf_facts(s, f2@, t2@, a2);
            lemma_field_chars(s, 32, f1@);
            lemma_field_chars(s, 32, f2@);
            lemma_pin_end(s, 32, f1@.len() as int, 32 + f2@.len() as int);
            assert(f1@ == f2@);
            let tstart: int = 40 + f1@.len() as int;
            lemma_field_chars(s, tstart, t1@);
            lemma_field_chars(s, tstart, t2@);
            lemma_pin_end(s, tstart, t1@.len() as int, tstart + t2@.len() as int);
            assert(t1@ == t2@);
            let dstart: int = 51 + f1@.len() as int + t1@.len() as int;
            lemma_dec_chars(s, dstart, a1 as nat);
            lemma_dec_chars(s, dstart, a2 as nat);
            assert(!crate::encoding::is_dec_char(s[dstart + dec_text(a1 as nat).len() as int]));
            assert(!crate::encoding::is_dec_char(s[dstart + dec_text(a2 as nat).len() as int]));
            lemma_pin_dec(
                s,
                dstart,
                dec_text(a1 as nat).len() as int,
                dstart + dec_text(a2 as nat).len() as int,
            );
            assert(dec_text(a1 as nat) == dec_text(a2 as nat));
            crate::encoding::lemma_dec_round_trip(a1 as nat);
            crate::encoding::lemma_dec_round_trip(a2 as nat);
        },
        (
            Request::RetrieveBalance { address: d1 },
            Request::RetrieveBalance { address: d2 },
        ) => {
            lemma_rb_facts(s, d1@);
            lemma_rb_facts(s, d2@);
            lemma_field_chars(s, 31, d1@);
            lemma_field_chars(s, 31, d2@);
            lemma_pin_end(s, 31, d1@.len() as int, 31 + d2@.len() as int);
            assert(d1@ == d2@);
        },
        (Request::RetrieveAddress, Request::RetrieveAddress) => {},
        (Request::RetrieveBalances, Request::RetrieveBalances) => {},
        (Request::ListWallets, Request::ListWallets) => {},
        (Request::Sync, Request::Sync) => {},
        _ => {},
    }
}

/// Finds the end of the quoted text field that starts at `pos`: the first
/// quote at or after `pos`, with only plain characters before it.
fn parse_string_field(s: &str, pos: usize) -> (r: Option<usize>)
    requires
        pos <= s@.len(),
    ensures
        match r {
            Some(end) => pos <= end < s@.len() && s@[end as int] == '"' && plain_text(
                s@.subrange(pos as int, end as int),
            ) && (forall|k: int| pos <= k < end ==> #[trigger] s@[k] != '"'),
            None => forall|e: int|
                pos <= e < s@.len() && s@[e] == '"' ==> !plain_text(s@.subrange(pos as int, e)),
        },
{
    match scan_plain(s, pos) {
        Some(end) => {
            proof {
                assert forall|k: int| pos <= k < end implies #[trigger] s@[k] != '"' by {
                    assert(is_plain_char(s@[k]));
                }
                assert(plain_text(s@.subrange(pos as int, end as int)));
            }
            Some(end)
        },
        None => {
            proof {
                assert forall|e: int| pos <= e < s@.len() && s@[e] == '"' implies !plain_text(
                    s@.subrange(pos as int, e),
                ) by {
                    if plain_text(s@.subrange(pos as int, e)) {
                        assert forall|k: int| pos <= k < e implies is_plain_char(
                            #[trigger] s@[k],
                        ) by {
                            assert(s@.subrange(pos as int, e)[k - pos] == s@[k]);
                        }
                        assert(false);
                    }
                }
            }
            None
        },
    }
}


/// Index-level facts about the canonical text of a `SendTransactionFrom`
/// frame: where each fragment sits and what character opens each separator.
proof fn lemma_stf_facts(s: Seq<char>, f: Seq<char>, t: Seq<char>, a: u64)
    requires
        s == "{\"SendTransactionFrom\":{\"from\":\""@ + f + "\",\"to\":\""@ + t
            + "\",\"amount\":"@ + dec_text(a as nat) + "}}"@,
    ensures
        s.len() == 53 + f.len() + t.len() + dec_text(a as nat).len(),
        s.subrange(0, 32) == "{\"SendTransactionFrom\":{\"from\":\""@,
        s.subrange(32, 32 + f.len() as int) == f,
        s[32 + f.len() as int] == '"',
        s.subrange(32 + f.len() as int, 40 + f.len() as int) == "\",\"to\":\""@,
        s.subrange(40 + f.len() as int, 40 + f.len() as int + t.len() as int) == t,
        s[40 + f.len() as int + t.len() as int] == '"',
        s.subrange(
            40 + f.len() as int + t.len() as int,
            51 + f.len() as int + t.len() as int,
        ) == "\",\"amount\":"@,
        s.subrange(
            51 + f.len() as int + t.len() as int,
            51 + f.len() as int + t.len() as int + dec_text(a as nat).len() as int,
        ) == dec_text(a as nat),
        s[51 + f.len() as int + t.len() as int + dec_text(a as nat).len() as int] == '}',
        s.subrange(
            51 + f.len() as int + t.len() as int + dec_text(a as nat).len() as int,
            s.len() as int,
        ) == "}}"@,
        s[17] == 'F',
        s[2] == 'S',
        s[0] == '{',
{
    reveal_strlit("{\"SendTransactionFrom\":{\"from\":\"");
    reveal_strlit("\",\"to\":\"");
    reveal_strlit("\",\"amount\":");
    reveal_strlit("}}");
    crate::encoding::lemma_dec_text_len(a as nat);
    let fl = f.len() as int;
    let tl = t.len() as int;
    let dl = dec_text(a as nat).len() as int;
    assert(s.subrange(0, 32) =~= "{\"SendTransactionFrom\":{\"from\":\""@);
    assert(s.subrange(32, 32 + fl) =~= f);
    assert(s.subrange(32 + fl, 40 + fl) =~= "\",\"to\":\""@);
    assert(s.subrange(40 + fl, 40 + fl + tl) =~= t);
    assert(s.subrange(40 + fl + tl, 51 + fl + tl) =~= "\",\"amount\":"@);
    assert(s.subrange(51 + fl + tl, 51 + fl + tl + dl) =~= dec_text(a as nat));
    assert(s.subrange(51 + fl + tl + dl, s.len() as int) =~= "}}"@);
    assert(s[32 + fl] == s.subrange(32 + fl, 40 + fl)[0]);
    assert(s[40 + fl + tl] == s.subrange(40 + fl + tl, 51 + fl + tl)[0]);
    assert(s[51 + fl + tl + dl] == s.subrange(51 + fl + tl + dl, s.len() as int)[0]);
    assert(s[17] == s.subrange(0, 32)[17]);
    assert(s[2] == s.subrange(0, 32)[2]);
    assert(s[0] == s.subrange(0, 32)[0]);
}

/// Index-level facts about the canonical text of a `SendTransaction` frame.
proof fn lemma_st_facts(s: Seq<char>, t: Seq<char>, a: u64)
    requires
        s == "{\"SendTransaction\":{\"to\":\""@ + t + "\",\"amount\":"@ + dec_text(a as nat)
            + "}}"@,
    ensures
        s.len() == 39 + t.len() + dec_text(a as nat).len(),
        s.subrange(0, 26) == "{\"SendTransaction\":{\"to\":\""@,
        s.subrange(26, 26 + t.len() as int) == t,
        s[26 + t.len() as int] == '"',
        s.subrange(26 + t.len() as int, 37 + t.len() as int) == "\",\"amount\":"@,
        s.subrange(
            37 + t.len() as int,
            37 + t.len() as int + dec_text(a as nat).len() as int,
        ) == dec_text(a as nat),
        s[37 + t.len() as int + dec_text(a as nat).len() as int] == '}',
        s.subrange(
            37 + t.len() as int + dec_text(a as nat).len() as int,
            s.len() as int,
        ) == "}}"@,
        s[17] == '"',
        s[2] == 'S',
        s[0] == '{',
{
    reveal_strlit("{\"SendTransaction\":{\"to\":\"");
    reveal_strlit("\",\"amount\":");
    reveal_strlit("}}");
    crate::encoding::lemma_dec_text_len(a as nat);
    let tl = t.len() as int;
    let dl = dec_text(a as nat).len() as int;
    assert(s.subrange(0, 26) =~= "{\"SendTransaction\":{\"to\":\""@);
    assert(s.subrange(26, 26 + tl) =~= t);
    assert(s.subrange(26 + tl, 37 + tl) =~= "\",\"amount\":"@);
    assert(s.subrange(37 + tl, 37 + tl + dl) =~= dec_text(a as nat));
    assert(s.subrange(37 + tl + dl, s.len() as int) =~= "}}"@);
    assert(s[26 + tl] == s.subrange(26 + tl, 37 + tl)[0]);
    assert(s[37 + tl + dl] == s.subrange(37 + tl + dl, s.len() as int)[0]);
    assert(s[17] == s.subrange(0, 26)[17]);
    assert(s[2] == s.subrange(0, 26)[2]);
    assert(s[0] == s.subrange(0, 26)[0]);
}

/// Index-level facts about the canonical text of a `RetrieveBalance` frame.
proof fn lemma_rb_facts(s: Seq<char>, t: Seq<char>)
    requires
        s == "{\"RetrieveBalance\":{\"address\":\""@ + t + "\"}}"@,
    ensures
        s.len() == 34 + t.len(),
        s.subrange(0, 31) == "{\"RetrieveBalance\":{\"address\":\""@,
        s.subrange(31, 31 + t.len() as int) == t,
        s[31 + t.len() as int] == '"',
        s.subrange(31 + t.len() as int, s.len() as int) == "\"}}"@,
        s[2] == 'R',
        s[0] == '{',
{
    reveal_strlit("{\"RetrieveBalance\":{\"address\":\"");
    reveal_strlit("\"}}");
    let tl = t.len() as int;
    assert(s.subrange(0, 31) =~= "{\"RetrieveBalance\":{\"address\":\""@);
    assert(s.subrange(31, 31 + tl) =~= t);
    assert(s.subrange(31 + tl, s.len() as int) =~= "\"}}"@);
    assert(s[31 + tl] == s.subrange(31 + tl, s.len() as int)[0]);
    assert(s[2] == s.subrange(0, 31)[2]);
    assert(s[0] == s.subrange(0, 31)[0]);
}

} // verus!
