use swap_backend::address::{
    account_to_derivation_path, account_to_p2pkh_address, generate_subaccount_for_pool, keyname,
    principal_to_subaccount, u128_be_bytes, u64_be_bytes, BitcoinNetwork,
};
use swap_backend::ledger::ledger_transfer_amount;
use swap_backend::records::{txid_to_string, MemoryIds, OrdError};
use swap_backend::sync::TargetType;
use swap_backend::types::{OutPoint, RuneBalance, RuneId, RunicUtxo, Utxo};
use swap_backend::utxo_manager::UtxoManager;

fn utxo(tag: u8, vout: u32, value: u64) -> Utxo {
    Utxo { outpoint: OutPoint { txid: [tag; 32], vout }, value, height: 1 }
}

fn rune(tx: u32) -> RuneId {
    RuneId { block: 840000, tx }
}

#[test]
fn recording_is_idempotent() {
    let mut m = UtxoManager::new();
    m.record_btc_utxos("a", vec![utxo(1, 0, 100), utxo(2, 0, 200)]);
    m.record_btc_utxos("a", vec![utxo(1, 0, 100), utxo(1, 0, 999)]);
    assert_eq!(m.btc_count("a"), 2);
    assert_eq!(m.get_bitcoin_balance("a"), 300);
    assert_eq!(m.get_bitcoin_balance("b"), 0);
}

#[test]
fn selection_takes_least_value_first() {
    let mut m = UtxoManager::new();
    m.record_btc_utxos("a", vec![utxo(3, 0, 50), utxo(1, 0, 10), utxo(2, 0, 30)]);
    let mut values = vec![];
    while let Some(u) = m.get_bitcoin_utxo("a") {
        values.push(u.value);
    }
    assert_eq!(values, vec![10, 30, 50]);
    assert_eq!(m.get_bitcoin_utxo("a").map(|u| u.value), None);
}

#[test]
fn ties_are_broken_by_outpoint() {
    let mut m = UtxoManager::new();
    m.record_btc_utxos("a", vec![utxo(9, 0, 10), utxo(2, 5, 10), utxo(2, 1, 10)]);
    let first = m.get_bitcoin_utxo("a").unwrap();
    assert_eq!((first.outpoint.txid[0], first.outpoint.vout), (2, 1));
    let second = m.get_bitcoin_utxo("a").unwrap();
    assert_eq!((second.outpoint.txid[0], second.outpoint.vout), (2, 5));
}

#[test]
fn take_and_return_keeps_the_balance() {
    let mut m = UtxoManager::new();
    m.record_btc_utxos("a", vec![utxo(1, 0, 10), utxo(2, 0, 20)]);
    m.record_runic_utxos("a", rune(1), vec![RunicUtxo { utxo: utxo(3, 0, 546), balance: 40 }]);
    let before = (m.get_bitcoin_balance("a"), m.get_runestone_balance("a", &rune(1)));
    let u = m.get_bitcoin_utxo("a").unwrap();
    let r = m.get_runic_utxo("a", rune(1)).unwrap();
    assert_eq!(m.get_bitcoin_balance("a"), 20);
    m.record_runic_utxos("a", rune(1), vec![r]);
    m.record_btc_utxos("a", vec![u]);
    assert_eq!((m.get_bitcoin_balance("a"), m.get_runestone_balance("a", &rune(1))), before);
}

#[test]
fn runic_selection_takes_least_balance_first() {
    let mut m = UtxoManager::new();
    m.record_runic_utxos(
        "a",
        rune(1),
        vec![RunicUtxo { utxo: utxo(1, 0, 546), balance: 800 }, RunicUtxo { utxo: utxo(2, 0, 546), balance: 500 }],
    );
    assert_eq!(m.get_runic_utxo("a", rune(1)).unwrap().balance, 500);
    assert_eq!(m.get_runic_utxo("a", rune(2)).map(|r| r.balance), None);
    assert_eq!(m.get_runestone_balance("a", &rune(1)), 800);
}

#[test]
fn balances_per_rune() {
    let mut m = UtxoManager::new();
    m.record_runic_utxos("a", rune(1), vec![RunicUtxo { utxo: utxo(1, 0, 546), balance: 7 }]);
    m.record_runic_utxos("a", rune(2), vec![RunicUtxo { utxo: utxo(2, 0, 546), balance: 5 }, RunicUtxo { utxo: utxo(3, 0, 546), balance: 6 }]);
    m.record_runic_utxos("b", rune(1), vec![RunicUtxo { utxo: utxo(4, 0, 546), balance: 100 }]);
    let mut all = m.all_rune_with_balances("a");
    all.sort();
    assert_eq!(all, vec![(rune(1), 7), (rune(2), 11)]);
    assert!(m.is_recorded_as_runic("a", &utxo(3, 0, 0)));
    assert!(!m.is_recorded_as_runic("a", &utxo(4, 0, 0)));
}

#[test]
fn remove_takes_one_outpoint() {
    let mut m = UtxoManager::new();
    m.record_btc_utxos("a", vec![utxo(1, 0, 10), utxo(2, 0, 20)]);
    m.remove_btc_utxo("a", &utxo(1, 0, 0));
    assert_eq!(m.get_bitcoin_balance("a"), 20);
    m.remove_btc_utxo("a", &utxo(7, 0, 0));
    assert_eq!(m.get_bitcoin_balance("a"), 20);
}

#[test]
fn classification_keeps_plain_and_runic_apart() {
    let mut m = UtxoManager::new();
    let u = utxo(1, 0, 546);
    m.record_btc_utxos("a", vec![u]);
    let runes = Ok(vec![RuneBalance { id: rune(1), balance: 10 }, RuneBalance { id: rune(2), balance: 3 }]);
    m.apply_classification("a", u, &runes);
    assert_eq!(m.get_bitcoin_balance("a"), 0);
    assert_eq!(m.get_runestone_balance("a", &rune(1)), 10);
    assert_eq!(m.get_runestone_balance("a", &rune(2)), 3);
    assert!(m.is_recorded_as_runic("a", &u));
    // already runic: left alone
    m.apply_classification("a", u, &Ok(vec![]));
    assert_eq!(m.get_bitcoin_balance("a"), 0);
    let p = utxo(2, 0, 1000);
    m.apply_classification("a", p, &Err(OrdError::Overflow));
    let q = utxo(3, 0, 2000);
    m.apply_classification("a", q, &Ok(vec![]));
    assert_eq!(m.get_bitcoin_balance("a"), 3000);
    assert!(!m.is_recorded_as_runic("a", &p));
}

#[test]
fn sync_continues_only_below_target_with_pages_left() {
    let mut m = UtxoManager::new();
    m.record_btc_utxos("a", vec![utxo(1, 0, 100)]);
    assert!(m.sync_should_continue("a", &TargetType::Bitcoin { target: 101 }, true));
    assert!(!m.sync_should_continue("a", &TargetType::Bitcoin { target: 100 }, true));
    assert!(!m.sync_should_continue("a", &TargetType::Bitcoin { target: 101 }, false));
    assert!(m.sync_should_continue("a", &TargetType::Runic { runeid: rune(1), target: 1 }, true));
}

#[test]
fn p2pkh_address_of_a_known_key() {
    let pk: Vec<u8> = (0..33)
        .map(|i| u8::from_str_radix(&"0250863ad64a87ae8a2fe83c1af1a8403cb53f53e486d8511dad8a04887e5b2352"[2 * i..2 * i + 2], 16).unwrap())
        .collect();
    assert_eq!(account_to_p2pkh_address(BitcoinNetwork::Mainnet, &pk), "1PMycacnJaSqwwJqjawXBErnLsZ7RkXUAs");
    let test = account_to_p2pkh_address(BitcoinNetwork::Regtest, &pk);
    assert!(test.starts_with('m') || test.starts_with('n'));
    assert_eq!(test, account_to_p2pkh_address(BitcoinNetwork::Testnet, &pk));
}

#[test]
fn subaccounts_hash_with_sha3() {
    let empty = principal_to_subaccount(&vec![]);
    let hex: String = empty.iter().map(|b| format!("{:02x}", b)).collect();
    assert_eq!(hex, "a7ffc6f8bf1ed76651c14756a061d662f580ff4de43b49fa82d80a4b80f8434a");
    let a = generate_subaccount_for_pool(0, 1, &vec![1]);
    let b = generate_subaccount_for_pool(1, 0, &vec![1]);
    assert_eq!(a.len(), 32);
    assert_ne!(a, b);
    assert_eq!(a, generate_subaccount_for_pool(0, 1, &vec![1]));
}

#[test]
fn big_endian_bytes() {
    assert_eq!(u64_be_bytes(0x0102_0304_0506_0708), vec![1, 2, 3, 4, 5, 6, 7, 8]);
    let mut v = vec![0u8; 15];
    v.push(0xff);
    assert_eq!(u128_be_bytes(255), v);
}

#[test]
fn derivation_path_and_key_names() {
    let p = account_to_derivation_path(&vec![1, 2], &vec![3]);
    assert_eq!(p, vec![vec![1, 2], vec![3]]);
    assert_eq!(keyname(BitcoinNetwork::Mainnet), "key_1");
    assert_eq!(keyname(BitcoinNetwork::Testnet), "test_key_1");
    assert_eq!(keyname(BitcoinNetwork::Regtest), "dfx_test_key");
    assert_eq!(MemoryIds::RuneEntries.id(), 6);
}

#[test]
fn txid_is_shown_reversed() {
    let mut t = [0u8; 32];
    t[0] = 0xab;
    t[31] = 0x01;
    let s = txid_to_string(&t);
    assert!(s.starts_with("01"));
    assert!(s.ends_with("ab"));
    assert_eq!(s.len(), 64);
}

#[test]
fn ledger_amount_accounts_for_the_fee() {
    assert_eq!(ledger_transfer_amount(50_000, true), Some(50_000));
    assert_eq!(ledger_transfer_amount(50_000, false), Some(40_000));
    assert_eq!(ledger_transfer_amount(9_999, false), None);
}

#[test]
fn classification_purges_a_plain_copy_of_a_runic_output() {
    let mut m = UtxoManager::new();
    let u = utxo(5, 0, 546);
    m.record_btc_utxos("a", vec![u, utxo(6, 0, 700)]);
    m.record_runic_utxos("a", rune(1), vec![RunicUtxo { utxo: u, balance: 9 }]);
    m.apply_classification("a", u, &Ok(vec![]));
    assert_eq!(m.get_bitcoin_balance("a"), 700);
    assert_eq!(m.get_runestone_balance("a", &rune(1)), 9);
}

#[test]
fn recording_order_does_not_change_the_balance() {
    let mut m1 = UtxoManager::new();
    let mut m2 = UtxoManager::new();
    let xs = vec![utxo(1, 0, 10), utxo(2, 0, 20)];
    let ys = vec![utxo(3, 0, 30), utxo(1, 0, 10)];
    m1.record_btc_utxos("a", xs.clone());
    m1.record_btc_utxos("a", ys.clone());
    m2.record_btc_utxos("a", ys);
    m2.record_btc_utxos("a", xs);
    assert_eq!(m1.get_bitcoin_balance("a"), 60);
    assert_eq!(m2.get_bitcoin_balance("a"), 60);
    assert_eq!(m1.btc_count("a"), m2.btc_count("a"));
}
