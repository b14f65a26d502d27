use aum::address::Format;
use aum::executor::Executor;
use aum::monitor::Monitor;
use aum::reqres::encode_request;
use aum::reqres::encode_response;
use aum::reqres::parse_request;
use aum::reqres::Request;
use aum::reqres::Response;
use aum::wallet::WalletManager;

#[test]
fn unit_requests_encode_to_bare_discriminants() {
    assert_eq!(encode_request(&Request::RetrieveAddress), "\"RetrieveAddress\"");
    assert_eq!(encode_request(&Request::RetrieveBalances), "\"RetrieveBalances\"");
    assert_eq!(encode_request(&Request::ListWallets), "\"ListWallets\"");
    assert_eq!(encode_request(&Request::Sync), "\"Sync\"");
}

#[test]
fn struct_requests_encode_with_fields() {
    let r = Request::SendTransaction { to: "aq1ab".to_string(), amount: 5 };
    assert_eq!(
        encode_request(&r),
        "{\"SendTransaction\":{\"to\":\"aq1ab\",\"amount\":5}}"
    );
    let r = Request::SendTransactionFrom {
        from: "x".to_string(),
        to: "y".to_string(),
        amount: 12034,
    };
    assert_eq!(
        encode_request(&r),
        "{\"SendTransactionFrom\":{\"from\":\"x\",\"to\":\"y\",\"amount\":12034}}"
    );
    let r = Request::RetrieveBalance { address: "addr".to_string() };
    assert_eq!(
        encode_request(&r),
        "{\"RetrieveBalance\":{\"address\":\"addr\"}}"
    );
}

#[test]
fn requests_round_trip_through_the_codec() {
    let cases = vec![
        Request::RetrieveAddress,
        Request::RetrieveBalances,
        Request::ListWallets,
        Request::Sync,
        Request::SendTransaction { to: "aq10000000000000000".to_string(), amount: 0 },
        Request::SendTransaction { to: String::new(), amount: u64::MAX },
        Request::SendTransactionFrom {
            from: "a".to_string(),
            to: "b".to_string(),
            amount: 10,
        },
        Request::RetrieveBalance { address: "zzz".to_string() },
    ];
    for case in cases {
        let text = encode_request(&case);
        let back = parse_request(&text).expect("canonical text must parse");
        assert_eq!(encode_request(&back), text);
    }
}

#[test]
fn malformed_frames_are_rejected() {
    for bad in [
        "{not json",
        "",
        "\"Unknown\"",
        "\"ListWallets\" ",
        " \"ListWallets\"",
        "{\"SendTransaction\":{\"to\":\"x\",\"amount\":01}}",
        "{\"SendTransaction\":{\"to\":\"x\",\"amount\":}}",
        "{\"SendTransaction\":{\"to\":\"x\",\"amount\":5}",
        "{\"SendTransaction\":{\"to\":\"x\",\"amount\":5}}}",
        "{\"SendTransaction\":{\"to\":\"x\\\"\",\"amount\":5}}",
        "{\"SendTransaction\":{\"to\":\"x\",\"amount\":99999999999999999999}}",
        "{\"RetrieveBalance\":{\"address\":\"x\"}",
        "{\"RetrieveBalance\":{\"address\":x}}",
    ] {
        assert!(parse_request(bad).is_none(), "accepted: {}", bad);
    }
}

#[test]
fn responses_encode_canonically() {
    let r = Response::RetrieveAddress { address: "aq1ab".to_string() };
    assert_eq!(
        encode_response(&r),
        "{\"RetrieveAddress\":{\"address\":\"aq1ab\"}}"
    );
    let r = Response::RetrieveBalance { address: "a".to_string(), balance: 7 };
    assert_eq!(
        encode_response(&r),
        "{\"RetrieveBalance\":{\"address\":\"a\",\"balance\":7}}"
    );
    let r = Response::RetrieveBalances {
        balances: vec![("a".to_string(), 1), ("b".to_string(), 2)],
    };
    assert_eq!(
        encode_response(&r),
        "{\"RetrieveBalances\":{\"balances\":[[\"a\",1],[\"b\",2]]}}"
    );
    let r = Response::ListWallets { wallets: vec!["a".to_string(), "b".to_string()] };
    assert_eq!(
        encode_response(&r),
        "{\"ListWallets\":{\"wallets\":[\"a\",\"b\"]}}"
    );
    let r = Response::ListWallets { wallets: Vec::new() };
    assert_eq!(encode_response(&r), "{\"ListWallets\":{\"wallets\":[]}}");
    let r = Response::Sync { success: true };
    assert_eq!(encode_response(&r), "{\"Sync\":{\"success\":true}}");
    let r = Response::Sync { success: false };
    assert_eq!(r.to_string(), "{\"Sync\":{\"success\":false}}");
    let r = Response::SendTransaction { txid: "cafe".to_string() };
    assert_eq!(encode_response(&r), "{\"SendTransaction\":{\"txid\":\"cafe\"}}");
    let r = Response::SendTransactionFrom { from: "f".to_string(), txid: "t".to_string() };
    assert_eq!(
        encode_response(&r),
        "{\"SendTransactionFrom\":{\"from\":\"f\",\"txid\":\"t\"}}"
    );
}

#[test]
fn response_text_matches_serde_json_schema() {
    // The canonical encoder emits exactly the externally tagged compact form
    // that serde_json produces for the transport copies in the application
    // layer, so both sides of a connection agree on the schema.
    let value: serde_json::Value = serde_json::from_str(&encode_response(
        &Response::RetrieveBalances {
            balances: vec![("a".to_string(), 1), ("b".to_string(), 2)],
        },
    ))
    .expect("encoder output must be valid JSON");
    assert_eq!(value["RetrieveBalances"]["balances"][0][0], "a");
    assert_eq!(value["RetrieveBalances"]["balances"][1][1], 2);
}

#[test]
fn malformed_frame_gets_error_reply_and_connection_continues() {
    let exec = Executor::new();
    let mut mgr = WalletManager::new(Format::Standard);
    let mut mon = Monitor::new();
    let observed = Vec::new();
    let reply = exec.handle_frame("{not json", &mut mgr, &mut mon, &observed);
    assert_eq!(reply, "Wrong request.");
    // The next well-formed request on the same state is still answered.
    let reply = exec.handle_frame("\"ListWallets\"", &mut mgr, &mut mon, &observed);
    assert_eq!(reply, "{\"ListWallets\":{\"wallets\":[]}}");
}

#[test]
fn every_frame_gets_exactly_one_reply() {
    let exec = Executor::new();
    let mut mgr = WalletManager::new(Format::Standard);
    let mut mon = Monitor::new();
    let observed = Vec::new();
    for frame in ["\"RetrieveAddress\"", "\"Sync\"", "garbage", "\"ListWallets\""] {
        let reply = exec.handle_frame(frame, &mut mgr, &mut mon, &observed);
        assert!(!reply.is_empty());
    }
}
