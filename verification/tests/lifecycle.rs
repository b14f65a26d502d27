use aum::address::Address;
use aum::address::Format;
use aum::api::AumAPI;
use aum::monitor::Monitor;
use aum::monitor::MonitorError;
use aum::wallet::Wallet;
use aum::wallet::WalletError;
use aum::wallet::WalletManager;
use aum::keypair::SecretKey;
use aum::transaction::Transaction;
use aum::transaction::TransactionParameters;

#[test]
fn monitor_lifecycle_follows_the_state_machine() {
    let mut mon = Monitor::new();
    assert!(!mon.is_running());
    mon.start().unwrap();
    assert!(mon.is_running());
    assert!(matches!(mon.start(), Err(MonitorError::Custom)));
    mon.stop().unwrap();
    assert!(!mon.is_running());
}

#[test]
fn stop_twice_changes_nothing_after_the_first() {
    let mut mon = Monitor::new();
    mon.start().unwrap();
    mon.stop().unwrap();
    let snapshot = mon;
    let r = mon.stop();
    assert!(matches!(r, Err(MonitorError::NotRunning)));
    assert_eq!(mon, snapshot);
}

#[test]
fn health_check_is_repeatable_without_side_effects() {
    assert!(Monitor::health_check().is_ok());
    assert!(Monitor::health_check().is_ok());
    assert!(Monitor::health_check().is_ok());
}

#[test]
fn restart_requires_a_running_monitor() {
    let mut mon = Monitor::new();
    assert!(matches!(mon.restart(), Err(MonitorError::NotRunning)));
    mon.start().unwrap();
    mon.restart().unwrap();
    assert!(mon.is_running());
}

#[test]
fn sync_requires_a_running_monitor() {
    let mut mon = Monitor::new();
    let mut mgr = WalletManager::new(Format::Standard);
    let r = mon.sync(&mut mgr, &Vec::new());
    assert!(matches!(r, Err(MonitorError::NotRunning)));
}

#[test]
fn overlapping_sync_passes_are_refused() {
    let mut mon = Monitor::new();
    mon.start().unwrap();
    mon.begin_sync().unwrap();
    assert!(matches!(mon.begin_sync(), Err(MonitorError::Custom)));
    let mut mgr = WalletManager::new(Format::Standard);
    assert!(mon.sync(&mut mgr, &Vec::new()).is_err());
    mon.finish_sync();
    assert!(mon.sync(&mut mgr, &Vec::new()).is_ok());
}

#[test]
fn sync_applies_last_observation_per_address() {
    let mut mon = Monitor::new();
    mon.start().unwrap();
    let mut mgr = WalletManager::new(Format::Standard);
    let a = mgr.create_wallet();
    let b = mgr.create_wallet();
    let observed = vec![(a.address, 5), (a.address, 9), (b.address, 3)];
    mon.sync(&mut mgr, &observed).unwrap();
    assert_eq!(mgr.retrieve_balance(&a.address).unwrap(), 9);
    assert_eq!(mgr.retrieve_balance(&b.address).unwrap(), 3);
}

#[test]
fn sync_ignores_unknown_addresses_and_keeps_unobserved_balances() {
    let mut mon = Monitor::new();
    mon.start().unwrap();
    let mut mgr = WalletManager::new(Format::Standard);
    let a = mgr.create_wallet();
    let b = mgr.create_wallet();
    mon.sync(&mut mgr, &vec![(a.address, 50)]).unwrap();
    let stranger = Address { id: 777, format: Format::Standard };
    mon.sync(&mut mgr, &vec![(stranger, 1000)]).unwrap();
    assert_eq!(mgr.retrieve_balance(&a.address).unwrap(), 50);
    assert_eq!(mgr.retrieve_balance(&b.address).unwrap(), 0);
}

#[test]
fn sync_rejects_totals_beyond_the_machine_word() {
    let mut mon = Monitor::new();
    mon.start().unwrap();
    let mut mgr = WalletManager::new(Format::Standard);
    let a = mgr.create_wallet();
    let b = mgr.create_wallet();
    let observed = vec![(a.address, u64::MAX), (b.address, 1)];
    assert!(mon.sync(&mut mgr, &observed).is_err());
    assert_eq!(mgr.retrieve_balance(&a.address).unwrap(), 0);
    assert_eq!(mgr.retrieve_balance(&b.address).unwrap(), 0);
}

fn sample_wallet() -> Wallet {
    let sk = SecretKey::new(5);
    Wallet {
        address: Address { id: 5, format: Format::Standard },
        secret_key: sk,
        public_key: sk.pubkey(),
        balance: 40,
        history: Vec::new(),
    }
}

#[test]
fn wallet_signs_only_its_own_transactions() {
    let w = sample_wallet();
    let own = Transaction::new(
        w.address,
        Address { id: 9, format: Format::Standard },
        TransactionParameters { amount: 1, nonce: 0 },
    );
    let signed = w.sign_transaction(&own).unwrap();
    assert!(w.verify_transaction_signature(&signed).unwrap());
    let foreign = Transaction::new(
        Address { id: 8, format: Format::Standard },
        w.address,
        TransactionParameters { amount: 1, nonce: 0 },
    );
    assert!(matches!(
        w.sign_transaction(&foreign),
        Err(WalletError::InvalidAddress)
    ));
}

#[test]
fn transfer_funds_checks_balance_without_mutating() {
    let w = sample_wallet();
    let to = Address { id: 9, format: Format::Standard };
    assert!(matches!(
        w.transfer_funds(&to, 41),
        Err(WalletError::InsufficientBalance)
    ));
    let tx = w.transfer_funds(&to, 40).unwrap();
    assert_eq!(tx.parameters.amount, 40);
    assert_eq!(w.balance(), 40);
    assert!(w.has_sufficient_balance(40));
    assert!(!w.has_sufficient_balance(41));
}

#[test]
fn api_handle_keeps_its_endpoint() {
    let api = AumAPI::new("127.0.0.1:9000");
    assert_eq!(api.bind().as_str(), "127.0.0.1:9000");
}
