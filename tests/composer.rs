use swap_backend::btc_transfer::{transfer as transfer_btc, BtcTransferArgs};
use swap_backend::combined_transfer::{transfer as transfer_combined, CombinedTransactionArgs};
use swap_backend::composer::{Signer, TransactionType, TransferError};
use swap_backend::rune_transfer::{transfer as transfer_rune, RuneTransferArgs};
use swap_backend::tx::{mock_signature, sec1_to_der, Transaction, TxIn, TxOut, SEQUENCE_MAX, SEQUENCE_RBF};
use swap_backend::types::{OutPoint, RuneId, RunicUtxo, Utxo};
use swap_backend::utxo_manager::UtxoManager;

fn utxo(tag: u8, value: u64) -> Utxo {
    Utxo { outpoint: OutPoint { txid: [tag; 32], vout: 0 }, value, height: 1 }
}

fn p2pkh(tag: u8) -> Vec<u8> {
    let mut s = vec![0x76, 0xa9, 0x14];
    s.extend(vec![tag; 20]);
    s.extend(vec![0x88, 0xac]);
    s
}

fn pubkey() -> Vec<u8> {
    let mut k = vec![0x02];
    k.extend(vec![0x11; 32]);
    k
}

fn rune() -> RuneId {
    RuneId { block: 840000, tx: 1 }
}

fn btc_args(amount: u64, paid_by_sender: bool) -> BtcTransferArgs {
    BtcTransferArgs {
        sender: "sender".to_string(),
        sender_script: p2pkh(1),
        receiver_script: p2pkh(2),
        amount,
        paid_by_sender,
        fee_per_vbytes: 5000,
        sender_pubkey: pubkey(),
    }
}

#[test]
fn fee_loop_converges_on_two_inputs() {
    let mut m = UtxoManager::new();
    m.record_btc_utxos("sender", vec![utxo(1, 10_000), utxo(2, 20_000), utxo(3, 50_000)]);
    let t = transfer_btc(&mut m, &btc_args(25_000, true)).unwrap();
    match t {
        TransactionType::Bitcoin { txn, utxos, fee, .. } => {
            // 2 inputs of 149 bytes, 2 outputs of 34 bytes: 376 vbytes at 5 sat/vbyte
            assert_eq!(fee, 1880);
            assert_eq!(utxos.iter().map(|u| u.value).collect::<Vec<_>>(), vec![10_000, 20_000]);
            assert_eq!(txn.input.len(), 2);
            assert_eq!(txn.version, 2);
            assert_eq!(txn.input[0].sequence, SEQUENCE_MAX);
            assert_eq!(txn.output.len(), 2);
            assert_eq!(txn.output[0].value, 25_000);
            assert_eq!(txn.output[0].script_pubkey, p2pkh(2));
            assert_eq!(txn.output[1].value, 30_000 - 25_000 - 1880);
            assert_eq!(txn.output[1].script_pubkey, p2pkh(1));
        }
        _ => panic!("expected a bitcoin transfer"),
    }
    assert_eq!(m.get_bitcoin_balance("sender"), 50_000);
}

#[test]
fn fee_paid_by_receiver_and_dust_change() {
    let mut m = UtxoManager::new();
    m.record_btc_utxos("sender", vec![utxo(1, 25_500)]);
    let t = transfer_btc(&mut m, &btc_args(25_000, false)).unwrap();
    match t {
        TransactionType::Bitcoin { txn, fee, .. } => {
            // 1 input, 1 output: 4 + 1 + 149 + 1 + 34 + 4 = 193 vbytes
            assert_eq!(fee, 965);
            assert_eq!(txn.output.len(), 1);
            assert_eq!(txn.output[0].value, 25_000 - 965);
        }
        _ => panic!("expected a bitcoin transfer"),
    }
}

#[test]
fn insufficient_bitcoin_returns_outputs() {
    let mut m = UtxoManager::new();
    m.record_btc_utxos("sender", vec![utxo(1, 10_000), utxo(2, 20_000)]);
    let r = transfer_btc(&mut m, &btc_args(40_000, true));
    assert_eq!(r.err(), Some(TransferError::InsufficientBitcoin { required: 40_000 }));
    assert_eq!(m.get_bitcoin_balance("sender"), 30_000);
    assert_eq!(m.btc_count("sender"), 2);
    let z = transfer_btc(&mut m, &btc_args(0, true));
    assert_eq!(z.err(), Some(TransferError::ZeroAmount));
}

#[test]
fn receiver_paid_fee_above_amount_is_refused() {
    let mut m = UtxoManager::new();
    m.record_btc_utxos("sender", vec![utxo(1, 10_000)]);
    let r = transfer_btc(&mut m, &btc_args(500, false));
    assert_eq!(r.err(), Some(TransferError::AmountBelowFee { fee: 1135 }));
    assert_eq!(m.get_bitcoin_balance("sender"), 10_000);
}

fn rune_args() -> RuneTransferArgs {
    RuneTransferArgs {
        runeid: rune(),
        amount: 600,
        sender: "sender".to_string(),
        sender_script: p2pkh(1),
        receiver_script: p2pkh(2),
        fee_payer: "payer".to_string(),
        fee_payer_script: p2pkh(3),
        postage: None,
        fee_per_vbytes: 5000,
        signer_pubkey: pubkey(),
    }
}

fn runic(tag: u8, value: u64, balance: u128) -> RunicUtxo {
    RunicUtxo { utxo: utxo(tag, value), balance }
}

#[test]
fn rune_transfer_with_change_places_the_runestone_first() {
    let mut m = UtxoManager::new();
    m.record_runic_utxos("sender", rune(), vec![runic(1, 546, 500), runic(2, 546, 800)]);
    m.record_btc_utxos("payer", vec![utxo(3, 100_000)]);
    let t = transfer_rune(&mut m, &rune_args()).unwrap();
    let signers = t.input_signers();
    match t {
        TransactionType::Rune { txn, runic_utxos, fee_utxos, fee, postage, .. } => {
            assert_eq!(postage, 10_000);
            assert_eq!(runic_utxos.len(), 2);
            assert_eq!(fee_utxos.len(), 1);
            assert_eq!(txn.input.len(), 3);
            assert_eq!(txn.output.len(), 4);
            assert_eq!(txn.output[0].value, 0);
            // OP_RETURN OP_13, then the edict 840000:1 amount 600 to output 2
            assert_eq!(
                txn.output[0].script_pubkey,
                vec![0x6a, 0x5d, 0x08, 0x00, 0xc0, 0xa2, 0x33, 0x01, 0xd8, 0x04, 0x02]
            );
            assert_eq!(txn.output[1].script_pubkey, p2pkh(1));
            assert_eq!(txn.output[1].value, 10_000);
            assert_eq!(txn.output[2].script_pubkey, p2pkh(2));
            assert_eq!(txn.output[2].value, 10_000);
            assert_eq!(txn.output[3].script_pubkey, p2pkh(3));
            // postage still owed: 20_000 - 2 * 546 = 18_908
            assert_eq!(txn.output[3].value, 100_000 - fee - 18_908);
        }
        _ => panic!("expected a rune transfer"),
    }
    assert_eq!(signers, vec![Signer::RuneSender, Signer::RuneSender, Signer::FeePayer]);
    assert_eq!(m.get_runestone_balance("sender", &rune()), 0);
}

#[test]
fn rune_transfer_without_change_pays_the_receiver_only() {
    let mut m = UtxoManager::new();
    m.record_runic_utxos("sender", rune(), vec![runic(1, 546, 600)]);
    m.record_btc_utxos("payer", vec![utxo(3, 100_000)]);
    let t = transfer_rune(&mut m, &rune_args()).unwrap();
    match t {
        TransactionType::Rune { txn, .. } => {
            assert_eq!(txn.output[0].script_pubkey, p2pkh(2));
            assert_eq!(txn.output[0].value, 10_000);
            assert_eq!(txn.output.len(), 2);
        }
        _ => panic!("expected a rune transfer"),
    }
}

#[test]
fn rune_transfer_failures_return_outputs() {
    let mut m = UtxoManager::new();
    m.record_runic_utxos("sender", rune(), vec![runic(1, 546, 500)]);
    m.record_btc_utxos("payer", vec![utxo(3, 100_000)]);
    let r = transfer_rune(&mut m, &rune_args());
    assert_eq!(r.err(), Some(TransferError::InsufficientRune { required: 600 }));
    assert_eq!(m.get_runestone_balance("sender", &rune()), 500);
    m.record_runic_utxos("sender", rune(), vec![runic(2, 546, 800)]);
    let mut poor = UtxoManager::new();
    poor.record_runic_utxos("sender", rune(), vec![runic(1, 546, 700)]);
    poor.record_btc_utxos("payer", vec![utxo(3, 5_000)]);
    match transfer_rune(&mut poor, &rune_args()).err() {
        Some(TransferError::InsufficientBitcoin { .. }) => {}
        other => panic!("unexpected {:?}", other),
    }
    assert_eq!(poor.get_runestone_balance("sender", &rune()), 700);
    assert_eq!(poor.get_bitcoin_balance("payer"), 5_000);
}

#[test]
fn combined_transfer_with_same_payer_draws_one_pool() {
    let mut m = UtxoManager::new();
    m.record_runic_utxos("user", rune(), vec![runic(1, 546, 600)]);
    m.record_btc_utxos("user", vec![utxo(2, 30_000), utxo(3, 40_000)]);
    let args = CombinedTransactionArgs {
        runeid: rune(),
        rune_amount: 600,
        rune_sender: "user".to_string(),
        rune_sender_script: p2pkh(1),
        rune_receiver_script: p2pkh(2),
        btc_amount: 20_000,
        bitcoin_sender: "user".to_string(),
        bitcoin_sender_script: p2pkh(1),
        bitcoin_receiver_script: p2pkh(2),
        fee_payer: "user".to_string(),
        fee_payer_script: p2pkh(1),
        postage: None,
        fee_per_vbytes: 2000,
        signer_pubkey: pubkey(),
    };
    let t = transfer_combined(&mut m, &args).unwrap();
    let signers = t.input_signers();
    match t {
        TransactionType::Combined { txn, btc_utxos, fee_utxos, fee, .. } => {
            assert!(fee_utxos.is_empty());
            let spent: u64 = btc_utxos.iter().map(|u| u.value).sum();
            // the bitcoin inputs cover amount, fee and the postage not carried by the rune input
            assert!(spent >= 20_000 + fee + (10_000 - 546));
            assert_eq!(txn.output[0].script_pubkey, p2pkh(2));
            assert_eq!(txn.output[0].value, 10_000);
            assert_eq!(txn.output[1].script_pubkey, p2pkh(2));
            assert_eq!(txn.output[1].value, 20_000);
            assert_eq!(txn.input.len(), 1 + btc_utxos.len());
        }
        _ => panic!("expected a combined transfer"),
    }
    assert_eq!(signers[0], Signer::RuneSender);
    assert!(signers[1..].iter().all(|s| *s == Signer::BitcoinSender));
}

#[test]
fn cancel_returns_every_output() {
    let mut m = UtxoManager::new();
    m.record_btc_utxos("sender", vec![utxo(1, 10_000), utxo(2, 20_000), utxo(3, 50_000)]);
    let t = transfer_btc(&mut m, &btc_args(25_000, true)).unwrap();
    assert_eq!(m.get_bitcoin_balance("sender"), 50_000);
    t.cancel(&mut m);
    assert_eq!(m.get_bitcoin_balance("sender"), 80_000);
    assert_eq!(m.btc_count("sender"), 3);
}

#[test]
fn mock_signature_uses_a_fixed_size_script() {
    let txn = Transaction {
        version: 2,
        lock_time: 0,
        input: vec![TxIn { previous_output: OutPoint { txid: [4; 32], vout: 1 }, script_sig: vec![], sequence: SEQUENCE_MAX }],
        output: vec![TxOut { value: 7, script_pubkey: p2pkh(5) }],
    };
    let m = mock_signature(&txn, &pubkey());
    assert_eq!(m.input[0].sequence, SEQUENCE_RBF);
    assert_eq!(m.input[0].script_sig.len(), 108);
    assert_eq!(m.input[0].script_sig[0], 73);
    assert_eq!(m.input[0].script_sig[1], 0x30);
    assert_eq!(m.input[0].script_sig[73], 0x01);
    assert_eq!(m.input[0].script_sig[74], 33);
    assert_eq!(m.output[0].value, 7);
}

#[test]
fn der_pads_high_halves() {
    let mut sig = vec![0x7f; 32];
    sig.extend(vec![0x80; 32]);
    let der = sec1_to_der(&sig);
    assert_eq!(der.len(), 2 + 2 + 32 + 2 + 33);
    assert_eq!(&der[..4], &[0x30, 69, 0x02, 32]);
    assert_eq!(der[36], 0x02);
    assert_eq!(der[37], 33);
    assert_eq!(der[38], 0x00);
}
