use aum::address::Address;
use aum::address::Format;
use aum::monitor::Monitor;
use aum::wallet::FleetOp;
use aum::wallet::WalletError;
use aum::wallet::WalletManager;
use aum::wallet::WalletManagerError;

fn fleet_total(mgr: &WalletManager) -> u64 {
    let mut total: u64 = 0;
    for (_, b) in mgr.retrieve_balances().unwrap() {
        total += b;
    }
    total
}

fn fund(mgr: &mut WalletManager, balances: &[(Address, u64)]) {
    let mut mon = Monitor::new();
    mon.start().unwrap();
    let observed: Vec<(Address, u64)> = balances.to_vec();
    mon.sync(mgr, &observed).unwrap();
}

#[test]
fn create_wallet_grows_fleet_with_zero_balance() {
    let mut mgr = WalletManager::new(Format::Standard);
    let w = mgr.create_wallet();
    assert_eq!(w.balance, 0);
    assert_eq!(mgr.list_wallets().unwrap().len(), 1);
    assert_eq!(fleet_total(&mgr), 0);
}

#[test]
fn two_creates_add_two_wallets_with_distinct_addresses() {
    let mut mgr = WalletManager::new(Format::Standard);
    let before = mgr.list_wallets().unwrap().len();
    let a = mgr.create_wallet();
    let b = mgr.create_wallet();
    assert_eq!(mgr.list_wallets().unwrap().len(), before + 2);
    assert_ne!(a.address, b.address);
}

#[test]
fn scale_up_from_empty_makes_distinct_zero_balance_wallets() {
    let mut mgr = WalletManager::new(Format::Standard);
    let created = mgr.scale_to(5).unwrap();
    assert_eq!(created.len(), 5);
    let wallets = mgr.list_wallets().unwrap();
    assert_eq!(wallets.len(), 5);
    for w in &wallets {
        assert_eq!(w.balance, 0);
    }
    for i in 0..wallets.len() {
        for j in (i + 1)..wallets.len() {
            assert_ne!(wallets[i].address, wallets[j].address);
        }
    }
    assert_eq!(fleet_total(&mgr), 0);
}

#[test]
fn delete_and_transfer_moves_whole_balance() {
    let mut mgr = WalletManager::new(Format::Standard);
    let a = mgr.create_wallet();
    let b = mgr.create_wallet();
    fund(&mut mgr, &[(a.address, 50), (b.address, 20)]);
    assert_eq!(fleet_total(&mgr), 70);
    let target = mgr.delete_and_transfer(&a.address, &b.address).unwrap();
    assert_eq!(target.balance, 70);
    assert_eq!(mgr.list_wallets().unwrap().len(), 1);
    assert_eq!(mgr.retrieve_balance(&b.address).unwrap(), 70);
    assert!(mgr.retrieve_balance(&a.address).is_err());
    assert_eq!(fleet_total(&mgr), 70);
}

#[test]
fn delete_and_transfer_rejects_unknown_target() {
    let mut mgr = WalletManager::new(Format::Standard);
    let a = mgr.create_wallet();
    let ghost_addr = Address { id: 999, format: Format::Standard };
    let r = mgr.delete_and_transfer(&a.address, &ghost_addr);
    assert!(matches!(
        r,
        Err(WalletManagerError::WalletError(WalletError::InvalidAddress))
    ));
    assert_eq!(mgr.list_wallets().unwrap().len(), 1);
}

#[test]
fn delete_and_distribute_splits_evenly_with_remainder_to_first() {
    let mut mgr = WalletManager::new(Format::Standard);
    let src = mgr.create_wallet();
    let t1 = mgr.create_wallet();
    let t2 = mgr.create_wallet();
    let t3 = mgr.create_wallet();
    fund(&mut mgr, &[(src.address, 11)]);
    let targets = vec![t1.address, t2.address, t3.address];
    let updated = mgr.delete_and_distribute(&src.address, &targets).unwrap();
    assert_eq!(updated.len(), 3);
    // 11 = 3 * 3 + 2: each target gains 3, the first also takes the remainder 2.
    assert_eq!(mgr.retrieve_balance(&t1.address).unwrap(), 5);
    assert_eq!(mgr.retrieve_balance(&t2.address).unwrap(), 3);
    assert_eq!(mgr.retrieve_balance(&t3.address).unwrap(), 3);
    assert_eq!(fleet_total(&mgr), 11);
    assert_eq!(mgr.list_wallets().unwrap().len(), 3);
}

#[test]
fn delete_and_distribute_rejects_empty_targets() {
    let mut mgr = WalletManager::new(Format::Standard);
    let src = mgr.create_wallet();
    let r = mgr.delete_and_distribute(&src.address, &Vec::new());
    assert!(matches!(
        r,
        Err(WalletManagerError::WalletError(WalletError::InvalidAddress))
    ));
    assert_eq!(mgr.list_wallets().unwrap().len(), 1);
}

#[test]
fn scale_down_conserves_total() {
    let mut mgr = WalletManager::new(Format::Standard);
    let mut addrs = Vec::new();
    for _ in 0..5 {
        addrs.push(mgr.create_wallet().address);
    }
    fund(
        &mut mgr,
        &[
            (addrs[0], 10),
            (addrs[1], 20),
            (addrs[2], 30),
            (addrs[3], 40),
            (addrs[4], 0),
        ],
    );
    assert_eq!(fleet_total(&mgr), 100);
    mgr.scale_to(2).unwrap();
    assert_eq!(mgr.list_wallets().unwrap().len(), 2);
    assert_eq!(fleet_total(&mgr), 100);
}

#[test]
fn scale_to_zero_fails_on_last_wallet() {
    let mut mgr = WalletManager::new(Format::Standard);
    mgr.scale_to(3).unwrap();
    let r = mgr.scale_to(0);
    assert!(r.is_err());
    // Each removal is atomic; the failing step leaves the final wallet live.
    assert_eq!(mgr.list_wallets().unwrap().len(), 1);
}

#[test]
fn conservation_across_operation_sequences() {
    let mut mgr = WalletManager::new(Format::Standard);
    let a = mgr.create_wallet();
    let b = mgr.create_wallet();
    let c = mgr.create_wallet();
    fund(&mut mgr, &[(a.address, 33), (b.address, 44), (c.address, 23)]);
    assert_eq!(fleet_total(&mgr), 100);
    let ops = vec![
        FleetOp::Create,
        FleetOp::DeleteAndTransfer(a.address, b.address),
        FleetOp::ScaleTo(2),
        FleetOp::ScaleTo(6),
    ];
    mgr.apply_ops(&ops).unwrap();
    assert_eq!(fleet_total(&mgr), 100);
    assert_eq!(mgr.list_wallets().unwrap().len(), 6);
}

#[test]
fn insufficient_send_leaves_balance_unchanged() {
    let mut mgr = WalletManager::new(Format::Standard);
    let w = mgr.create_wallet();
    fund(&mut mgr, &[(w.address, 10)]);
    let outside = Address { id: 4242, format: Format::Standard };
    let r = mgr.send_transaction_from(&w.address, &outside, 50);
    assert!(matches!(
        r,
        Err(WalletManagerError::WalletError(WalletError::InsufficientBalance))
    ));
    assert_eq!(mgr.retrieve_balance(&w.address).unwrap(), 10);
    assert_eq!(fleet_total(&mgr), 10);
}

#[test]
fn send_debits_source_and_records_history() {
    let mut mgr = WalletManager::new(Format::Standard);
    let w = mgr.create_wallet();
    fund(&mut mgr, &[(w.address, 100)]);
    let outside = Address { id: 4242, format: Format::Standard };
    let txid = mgr.send_transaction_from(&w.address, &outside, 30).unwrap();
    assert!(!txid.to_text().is_empty());
    assert_eq!(mgr.retrieve_balance(&w.address).unwrap(), 70);
    let wallets = mgr.list_wallets().unwrap();
    let hist = wallets[0].transaction_history();
    assert_eq!(hist.len(), 1);
    assert_eq!(hist[0].to, outside);
    assert_eq!(hist[0].parameters.amount, 30);
}

#[test]
fn send_transaction_picks_richest_wallet() {
    let mut mgr = WalletManager::new(Format::Standard);
    let a = mgr.create_wallet();
    let b = mgr.create_wallet();
    fund(&mut mgr, &[(a.address, 10), (b.address, 90)]);
    let outside = Address { id: 4242, format: Format::Standard };
    mgr.send_transaction(&outside, 50).unwrap();
    assert_eq!(mgr.retrieve_balance(&a.address).unwrap(), 10);
    assert_eq!(mgr.retrieve_balance(&b.address).unwrap(), 40);
}

#[test]
fn retrieve_address_prefers_poorest_wallet() {
    let mut mgr = WalletManager::new(Format::Standard);
    let a = mgr.create_wallet();
    let b = mgr.create_wallet();
    fund(&mut mgr, &[(a.address, 10), (b.address, 5)]);
    assert_eq!(mgr.retrieve_address().unwrap(), b.address);
}

#[test]
fn retrieve_address_fails_on_empty_fleet() {
    let mgr = WalletManager::new(Format::Standard);
    assert!(mgr.retrieve_address().is_err());
}
