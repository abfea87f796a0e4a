use defi_analytics::{dedup_wallets, initialize, ErrorCode, ProtocolConfig, Pubkey};

fn key(n: u64) -> Pubkey {
    Pubkey::new(n, 0, 0, 0)
}

fn keys(ns: &[u64]) -> Vec<Pubkey> {
    ns.iter().map(|&n| key(n)).collect()
}

fn fresh_config(wallet_ids: &[u64]) -> ProtocolConfig {
    initialize(key(42), keys(wallet_ids), 3600, 1000).unwrap()
}

#[test]
fn dedup_wallets_first_seen_wins() {
    assert_eq!(dedup_wallets(&keys(&[1, 2, 1, 3])), keys(&[1, 2, 3]));
}

#[test]
fn dedup_wallets_twice_is_once() {
    let once = dedup_wallets(&keys(&[7, 7, 2, 9, 2, 7]));
    let twice = dedup_wallets(&once);
    assert_eq!(twice, once);
}

#[test]
fn dedup_wallets_keeps_unique_list() {
    let input = keys(&[4, 3, 2, 1]);
    assert_eq!(dedup_wallets(&input), input);
}

#[test]
fn add_wallet_appends() {
    let mut config = fresh_config(&[1, 2]);
    config.add_wallet(key(42), key(3)).unwrap();
    assert_eq!(config.wallets, keys(&[1, 2, 3]));
}

#[test]
fn add_wallet_rejects_other_callers() {
    let mut config = fresh_config(&[1, 2]);
    let result = config.add_wallet(key(7), key(3));
    assert_eq!(result.unwrap_err(), ErrorCode::Unauthorized);
    assert_eq!(config.wallets, keys(&[1, 2]));
}

#[test]
fn add_wallet_rejects_duplicate() {
    let mut config = fresh_config(&[1, 2]);
    let result = config.add_wallet(key(42), key(2));
    assert_eq!(result.unwrap_err(), ErrorCode::WalletAlreadyExists);
    assert_eq!(config.wallets, keys(&[1, 2]));
}

#[test]
fn add_wallet_rejects_eleventh() {
    let mut config = fresh_config(&[1, 2, 3, 4, 5, 6, 7, 8, 9, 10]);
    let result = config.add_wallet(key(42), key(11));
    assert_eq!(result.unwrap_err(), ErrorCode::TooManyWallets);
    assert_eq!(config.wallets.len(), 10);
}

#[test]
fn remove_wallet_keeps_order_of_rest() {
    let mut config = fresh_config(&[1, 2, 3]);
    config.remove_wallet(key(42), key(2)).unwrap();
    assert_eq!(config.wallets, keys(&[1, 3]));
}

#[test]
fn remove_wallet_rejects_absent() {
    let mut config = fresh_config(&[1, 2]);
    let result = config.remove_wallet(key(42), key(5));
    assert_eq!(result.unwrap_err(), ErrorCode::WalletNotFound);
    assert_eq!(config.wallets, keys(&[1, 2]));
}

#[test]
fn remove_wallet_rejects_other_callers() {
    let mut config = fresh_config(&[1, 2]);
    let result = config.remove_wallet(key(7), key(1));
    assert_eq!(result.unwrap_err(), ErrorCode::Unauthorized);
    assert_eq!(config.wallets, keys(&[1, 2]));
}

#[test]
fn check_authority_accepts_only_the_authority() {
    let config = fresh_config(&[]);
    assert!(config.check_authority(key(42)).is_ok());
    assert_eq!(config.check_authority(key(41)).unwrap_err(), ErrorCode::Unauthorized);
}

#[test]
fn check_update_due_gate() {
    // last_updated == 1000, update_interval == 3600.
    let config = fresh_config(&[]);
    assert_eq!(config.check_update_due(1000).unwrap_err(), ErrorCode::UpdateNotDue);
    assert_eq!(config.check_update_due(4599).unwrap_err(), ErrorCode::UpdateNotDue);
    assert!(config.check_update_due(4600).is_ok());
}

#[test]
fn record_refresh_moves_timestamp() {
    let mut config = fresh_config(&[1]);
    config.record_refresh(key(42), 4600).unwrap();
    assert_eq!(config.last_updated, 4600);
    assert_eq!(config.wallets, keys(&[1]));
    assert_eq!(config.update_interval, 3600);
}

#[test]
fn record_refresh_rejects_early_request() {
    let mut config = fresh_config(&[]);
    let result = config.record_refresh(key(42), 4599);
    assert_eq!(result.unwrap_err(), ErrorCode::UpdateNotDue);
    assert_eq!(config.last_updated, 1000);
}

#[test]
fn record_refresh_rejects_other_callers() {
    let mut config = fresh_config(&[]);
    let result = config.record_refresh(key(7), 999999);
    assert_eq!(result.unwrap_err(), ErrorCode::Unauthorized);
    assert_eq!(config.last_updated, 1000);
}

#[test]
fn revenue_amount_must_be_positive() {
    assert_eq!(
        defi_analytics::validate_revenue_amount(0).unwrap_err(),
        ErrorCode::InvalidRevenueAmount
    );
    assert!(defi_analytics::validate_revenue_amount(1).is_ok());
    assert!(defi_analytics::validate_revenue_amount(u64::MAX).is_ok());
}

#[test]
fn distinct_words_make_distinct_keys() {
    // Keys differing in any single word compare unequal.
    let base = Pubkey::new(1, 2, 3, 4);
    assert_ne!(base, Pubkey::new(0, 2, 3, 4));
    assert_ne!(base, Pubkey::new(1, 0, 3, 4));
    assert_ne!(base, Pubkey::new(1, 2, 0, 4));
    assert_ne!(base, Pubkey::new(1, 2, 3, 0));
    assert_eq!(base, Pubkey::new(1, 2, 3, 4));
}

#[test]
fn wallet_list_scans() {
    let list = keys(&[4, 5, 6, 5]);
    assert!(defi_analytics::wallet_list_contains(&list, key(5)));
    assert!(!defi_analytics::wallet_list_contains(&list, key(7)));
    assert_eq!(defi_analytics::find_wallet(&list, key(5)), Some(1));
    assert_eq!(defi_analytics::find_wallet(&list, key(7)), None);
}
