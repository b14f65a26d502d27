use aum::address::Format;
use aum::error::Error as CoreError;
use aum::errors::Error;
use aum::executor::Executor;
use aum::monitor::Monitor;
use aum::reqres::Request;
use aum::reqres::Response;
use aum::wallet::WalletManager;

fn funded_fleet(balances: &[u64]) -> (WalletManager, Monitor) {
    let mut mgr = WalletManager::new(Format::Standard);
    let mut mon = Monitor::new();
    mon.start().unwrap();
    let mut observed = Vec::new();
    for b in balances {
        let w = mgr.create_wallet();
        observed.push((w.address, *b));
    }
    mon.sync(&mut mgr, &observed).unwrap();
    (mgr, mon)
}

#[test]
fn retrieve_balances_lists_every_pair_once() {
    let (mut mgr, mut mon) = funded_fleet(&[10, 20, 30]);
    let exec = Executor::new();
    let resp = exec
        .execute(&Request::RetrieveBalances, &mut mgr, &mut mon, &Vec::new())
        .unwrap();
    match resp {
        Response::RetrieveBalances { balances } => {
            assert_eq!(balances.len(), 3);
            let total: u64 = balances.iter().map(|(_, b)| *b).sum();
            assert_eq!(total, 60);
            let mut seen: Vec<u64> = balances.iter().map(|(_, b)| *b).collect();
            seen.sort();
            assert_eq!(seen, vec![10, 20, 30]);
        },
        other => panic!("unexpected response: {:?}", other),
    }
}

#[test]
fn retrieve_address_returns_display_text_of_poorest() {
    let (mut mgr, mut mon) = funded_fleet(&[10, 3, 30]);
    let poorest = mgr.list_wallets().unwrap()[1].address;
    let exec = Executor::new();
    let resp = exec
        .execute(&Request::RetrieveAddress, &mut mgr, &mut mon, &Vec::new())
        .unwrap();
    match resp {
        Response::RetrieveAddress { address } => {
            assert_eq!(address, poorest.display());
        },
        other => panic!("unexpected response: {:?}", other),
    }
}

#[test]
fn malformed_address_field_surfaces_parse_error() {
    let (mut mgr, mut mon) = funded_fleet(&[10]);
    let exec = Executor::new();
    let r = exec.execute(
        &Request::RetrieveBalance { address: "not-an-address".to_string() },
        &mut mgr,
        &mut mon,
        &Vec::new(),
    );
    assert!(matches!(
        r,
        Err(Error::CoreError(CoreError::AddressError(
            aum::address::AddressError::ParseError
        )))
    ));
}

#[test]
fn send_transaction_via_dispatcher_debits_and_answers_txid() {
    let (mut mgr, mut mon) = funded_fleet(&[100]);
    let src = mgr.list_wallets().unwrap()[0].address;
    let exec = Executor::new();
    let to_text = aum::address::Address { id: 900, format: Format::Standard }.display();
    let resp = exec
        .execute(
            &Request::SendTransaction { to: to_text, amount: 25 },
            &mut mgr,
            &mut mon,
            &Vec::new(),
        )
        .unwrap();
    match resp {
        Response::SendTransaction { txid } => assert_eq!(txid.len(), 68),
        other => panic!("unexpected response: {:?}", other),
    }
    assert_eq!(mgr.retrieve_balance(&src).unwrap(), 75);
}

#[test]
fn send_transaction_from_insufficiency_is_atomic() {
    let (mut mgr, mut mon) = funded_fleet(&[10]);
    let src = mgr.list_wallets().unwrap()[0].address;
    let exec = Executor::new();
    let to_text = aum::address::Address { id: 900, format: Format::Standard }.display();
    let r = exec.execute(
        &Request::SendTransactionFrom { from: src.display(), to: to_text, amount: 50 },
        &mut mgr,
        &mut mon,
        &Vec::new(),
    );
    assert!(matches!(
        r,
        Err(Error::CoreError(CoreError::WalletManagerError(
            aum::wallet::WalletManagerError::WalletError(
                aum::wallet::WalletError::InsufficientBalance
            )
        )))
    ));
    assert_eq!(mgr.retrieve_balance(&src).unwrap(), 10);
}

#[test]
fn sync_request_reconciles_against_observations() {
    let (mut mgr, mut mon) = funded_fleet(&[5]);
    let addr = mgr.list_wallets().unwrap()[0].address;
    let exec = Executor::new();
    let observed = vec![(addr, 123)];
    let resp = exec
        .execute(&Request::Sync, &mut mgr, &mut mon, &observed)
        .unwrap();
    assert!(matches!(resp, Response::Sync { success: true }));
    assert_eq!(mgr.retrieve_balance(&addr).unwrap(), 123);
}

#[test]
fn sync_request_fails_when_monitor_stopped() {
    let mut mgr = WalletManager::new(Format::Standard);
    let mut mon = Monitor::new();
    let exec = Executor::new();
    let r = exec.execute(&Request::Sync, &mut mgr, &mut mon, &Vec::new());
    assert!(matches!(
        r,
        Err(Error::CoreError(CoreError::MonitorError(
            aum::monitor::MonitorError::NotRunning
        )))
    ));
}

#[test]
fn list_wallets_answers_display_texts() {
    let (mut mgr, mut mon) = funded_fleet(&[1, 2]);
    let addrs: Vec<String> = mgr
        .list_wallets()
        .unwrap()
        .iter()
        .map(|w| w.address().display())
        .collect();
    let exec = Executor::new();
    let resp = exec
        .execute(&Request::ListWallets, &mut mgr, &mut mon, &Vec::new())
        .unwrap();
    match resp {
        Response::ListWallets { wallets } => assert_eq!(wallets, addrs),
        other => panic!("unexpected response: {:?}", other),
    }
}

#[test]
fn error_messages_are_human_readable() {
    assert_eq!(Error::WrongRequest.message(), "Wrong request.");
    assert_eq!(
        Error::CoreError(CoreError::WalletError(aum::wallet::WalletError::InsufficientBalance))
            .message(),
        "Insufficient balance"
    );
    assert_eq!(
        Error::CoreError(CoreError::MonitorError(aum::monitor::MonitorError::NotRunning)).message(),
        "Monitor is not running"
    );
    assert_eq!(
        Error::CoreError(CoreError::WalletManagerError(
            aum::wallet::WalletManagerError::WalletError(aum::wallet::WalletError::InvalidAddress)
        ))
        .message(),
        "Wallet error while scale: Invalid address"
    );
    assert_eq!(
        Error::CoreError(CoreError::AddressError(aum::address::AddressError::ParseError)).message(),
        "Failed to parse address"
    );
    assert_eq!(
        Error::CoreError(CoreError::HashError(aum::hash::HashError::HashingError)).message(),
        "Hashing error"
    );
    assert_eq!(
        Error::CoreError(CoreError::KeypairError(aum::keypair::KeyPairError::InvalidHex)).message(),
        "Invalid hexadecimal representation"
    );
    assert_eq!(
        Error::CoreError(CoreError::TransactionError(
            aum::transaction::TransactionError::InvalidBytes
        ))
        .message(),
        "Invalid transaction bytes"
    );
}

#[test]
fn send_transaction_insufficiency_pins_cause_and_balance() {
    let (mut mgr, mut mon) = funded_fleet(&[10]);
    let src = mgr.list_wallets().unwrap()[0].address;
    let exec = Executor::new();
    let to_text = aum::address::Address { id: 900, format: Format::Standard }.display();
    let r = exec.execute(
        &Request::SendTransaction { to: to_text, amount: 50 },
        &mut mgr,
        &mut mon,
        &Vec::new(),
    );
    assert!(matches!(
        r,
        Err(Error::CoreError(CoreError::WalletManagerError(
            aum::wallet::WalletManagerError::WalletError(
                aum::wallet::WalletError::InsufficientBalance
            )
        )))
    ));
    assert_eq!(mgr.retrieve_balance(&src).unwrap(), 10);
}

#[test]
fn malformed_addresses_surface_parse_errors_in_every_arm() {
    let (mut mgr, mut mon) = funded_fleet(&[10]);
    let good = mgr.list_wallets().unwrap()[0].address.display();
    let exec = Executor::new();
    let parse_err = |r: Result<aum::reqres::Response, Error>| {
        assert!(matches!(
            r,
            Err(Error::CoreError(CoreError::AddressError(
                aum::address::AddressError::ParseError
            )))
        ));
    };
    parse_err(exec.execute(
        &Request::SendTransaction { to: "bogus".to_string(), amount: 1 },
        &mut mgr,
        &mut mon,
        &Vec::new(),
    ));
    parse_err(exec.execute(
        &Request::SendTransactionFrom {
            from: "bogus".to_string(),
            to: good.clone(),
            amount: 1,
        },
        &mut mgr,
        &mut mon,
        &Vec::new(),
    ));
    parse_err(exec.execute(
        &Request::SendTransactionFrom { from: good, to: "bogus".to_string(), amount: 1 },
        &mut mgr,
        &mut mon,
        &Vec::new(),
    ));
}

#[test]
fn unknown_source_wallet_surfaces_invalid_address() {
    let (mut mgr, mut mon) = funded_fleet(&[10]);
    let exec = Executor::new();
    let ghost_src = aum::address::Address { id: 555, format: Format::Standard }.display();
    let to = aum::address::Address { id: 900, format: Format::Standard }.display();
    let r = exec.execute(
        &Request::SendTransactionFrom { from: ghost_src, to, amount: 1 },
        &mut mgr,
        &mut mon,
        &Vec::new(),
    );
    assert!(matches!(
        r,
        Err(Error::CoreError(CoreError::WalletManagerError(
            aum::wallet::WalletManagerError::WalletError(
                aum::wallet::WalletError::InvalidAddress
            )
        )))
    ));
}
