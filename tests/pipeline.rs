use fusion_engine::event::{AccTx, Stream};
use fusion_engine::plugin::FusionEnginePlugin;
use fusion_engine::record::{decode_stream, Record};
use solana_geyser_plugin_interface::geyser_plugin_interface::{
    ReplicaAccountInfo, ReplicaAccountInfoV2, ReplicaAccountInfoVersions, ReplicaTransactionInfo,
    ReplicaTransactionInfoV2, ReplicaTransactionInfoVersions,
};
use solana_sdk::pubkey::Pubkey;
use solana_sdk::signature::Signature;
use solana_sdk::transaction::{SanitizedTransaction, Transaction};
use solana_transaction_status::TransactionStatusMeta;

fn sample_transaction() -> SanitizedTransaction {
    let payer = Pubkey::new_unique();
    SanitizedTransaction::from_transaction_for_tests(Transaction::new_with_payer(&[], Some(&payer)))
}

/// Drains the receiver the way the writer does: each event to the stream of its kind.
fn drain(rx: &smol::channel::Receiver<AccTx>) -> (Vec<u8>, Vec<u8>) {
    let mut accs = Vec::new();
    let mut txs = Vec::new();
    while let Ok(ev) = rx.try_recv() {
        match ev.stream() {
            Stream::Accounts => accs.extend_from_slice(&ev.into_bytes()),
            Stream::Transactions => txs.extend_from_slice(&ev.into_bytes()),
        }
    }
    (accs, txs)
}

fn account_v1<'a>(pubkey: &'a [u8], lamports: u64) -> ReplicaAccountInfo<'a> {
    ReplicaAccountInfo {
        pubkey,
        lamports,
        owner: &[9, 9],
        executable: false,
        rent_epoch: 4,
        data: &[0xab, 0xcd],
        write_version: 2,
    }
}

#[test]
fn account_scenario_single_record() {
    let (tx, rx) = smol::channel::unbounded::<AccTx>();
    let mut plugin = FusionEnginePlugin::new();
    plugin.attach(tx);
    let info = account_v1(&[1, 2, 3], 500);
    assert!(plugin.update_account(&ReplicaAccountInfoVersions::V0_0_1(&info), 10, true).is_none());
    let (accs, txs) = drain(&rx);
    assert!(txs.is_empty());
    let recs = decode_stream(&accs).unwrap();
    assert_eq!(recs.len(), 1);
    match &recs[0] {
        Record::Acc { pubkey, lamports, slot, is_startup, txn_signature, owner, data, .. } => {
            assert_eq!(pubkey, &vec![1, 2, 3]);
            assert_eq!(*lamports, 500);
            assert_eq!(*slot, 10);
            assert!(*is_startup);
            assert!(txn_signature.is_none());
            assert_eq!(owner, &vec![9, 9]);
            assert_eq!(data, &vec![0xab, 0xcd]);
        }
        _ => panic!("expected an account record"),
    }
}

#[test]
fn transaction_scenario_single_record() {
    let (tx, rx) = smol::channel::unbounded::<AccTx>();
    let mut plugin = FusionEnginePlugin::new();
    plugin.attach(tx);
    let sig = Signature::default();
    let t = sample_transaction();
    let meta = TransactionStatusMeta::default();
    let info = ReplicaTransactionInfoV2 {
        signature: &sig,
        is_vote: false,
        transaction: &t,
        transaction_status_meta: &meta,
        index: 3,
    };
    assert!(plugin.notify_transaction(&ReplicaTransactionInfoVersions::V0_0_2(&info), 7).is_none());
    let (accs, txs) = drain(&rx);
    assert!(accs.is_empty());
    let recs = decode_stream(&txs).unwrap();
    assert_eq!(recs.len(), 1);
    match &recs[0] {
        Record::Tx { slot, signature, is_vote, index, transaction, transaction_status_meta } => {
            assert_eq!(*slot, 7);
            assert_eq!(signature, &vec![0u8; 64]);
            assert!(!*is_vote);
            assert_eq!(*index, Some(3));
            assert_eq!(transaction, &format!("{:?}", t).into_bytes());
            assert_eq!(transaction_status_meta, &format!("{:?}", meta).into_bytes());
        }
        _ => panic!("expected a transaction record"),
    }
}

#[test]
fn many_events_keep_their_order_per_stream() {
    let (tx, rx) = smol::channel::unbounded::<AccTx>();
    let mut plugin = FusionEnginePlugin::new();
    plugin.attach(tx);
    let keys: Vec<Vec<u8>> = (0u8..5).map(|i| vec![i, i]).collect();
    let sig = Signature::new(&[5u8; 64]);
    let t = sample_transaction();
    let meta = TransactionStatusMeta::default();
    for (i, k) in keys.iter().enumerate() {
        let info = account_v1(k, i as u64);
        assert!(plugin
            .update_account(&ReplicaAccountInfoVersions::V0_0_1(&info), 100 + i as u64, false)
            .is_none());
        let tinfo = ReplicaTransactionInfo {
            signature: &sig,
            is_vote: true,
            transaction: &t,
            transaction_status_meta: &meta,
        };
        assert!(plugin
            .notify_transaction(&ReplicaTransactionInfoVersions::V0_0_1(&tinfo), 200 + i as u64)
            .is_none());
    }
    let (accs, txs) = drain(&rx);
    let a = decode_stream(&accs).unwrap();
    let t = decode_stream(&txs).unwrap();
    assert_eq!(a.len(), 5);
    assert_eq!(t.len(), 5);
    for i in 0..5 {
        match &a[i] {
            Record::Acc { pubkey, lamports, slot, .. } => {
                assert_eq!(pubkey, &keys[i]);
                assert_eq!(*lamports, i as u64);
                assert_eq!(*slot, 100 + i as u64);
            }
            _ => panic!("expected an account record"),
        }
        match &t[i] {
            Record::Tx { slot, signature, is_vote, index, .. } => {
                assert_eq!(*slot, 200 + i as u64);
                assert_eq!(signature, &vec![5u8; 64]);
                assert!(*is_vote);
                assert_eq!(*index, None);
            }
            _ => panic!("expected a transaction record"),
        }
    }
}

#[test]
fn account_v2_keeps_origin_signature() {
    let sig = Signature::new(&[7u8; 64]);
    let info = ReplicaAccountInfoV2 {
        pubkey: &[1],
        lamports: 1,
        owner: &[2],
        executable: true,
        rent_epoch: 3,
        data: &[],
        write_version: 9,
        txn_signature: Some(&sig),
    };
    let ev = AccTx::into_acc(5, false, &ReplicaAccountInfoVersions::V0_0_2(&info));
    match &ev {
        AccTx::Acc { txn_signature, executable, write_version, data, .. } => {
            assert_eq!(*txn_signature, Some(sig));
            assert!(*executable);
            assert_eq!(*write_version, 9);
            assert!(data.is_empty());
        }
        _ => panic!("expected an account event"),
    }
    match ev.to_record() {
        Record::Acc { txn_signature, .. } => assert_eq!(txn_signature, Some(vec![7u8; 64])),
        _ => panic!("expected an account record"),
    }
    let none = ReplicaAccountInfoV2 { txn_signature: None, ..info };
    match AccTx::into_acc(5, false, &ReplicaAccountInfoVersions::V0_0_2(&none)) {
        AccTx::Acc { txn_signature, .. } => assert_eq!(txn_signature, None),
        _ => panic!("expected an account event"),
    }
}

#[test]
fn transaction_v1_has_no_index() {
    let sig = Signature::new(&[1u8; 64]);
    let t = sample_transaction();
    let meta = TransactionStatusMeta::default();
    let info = ReplicaTransactionInfo {
        signature: &sig,
        is_vote: true,
        transaction: &t,
        transaction_status_meta: &meta,
    };
    match AccTx::into_tx(42, &ReplicaTransactionInfoVersions::V0_0_1(&info)) {
        AccTx::Tx { slot, signature, is_vote, index, .. } => {
            assert_eq!(slot, 42);
            assert_eq!(signature, sig);
            assert!(is_vote);
            assert_eq!(index, None);
        }
        _ => panic!("expected a transaction event"),
    }
}

#[test]
fn account_record_text_is_exact() {
    let info = account_v1(&[1, 2, 3], 500);
    let ev = AccTx::into_acc(10, true, &ReplicaAccountInfoVersions::V0_0_1(&info));
    assert_eq!(ev.to_string(), "acc 010203 500 0909 false 4 abcd 2 - 10 true\n");
    assert_eq!(ev.into_bytes(), b"acc 010203 500 0909 false 4 abcd 2 - 10 true\n".to_vec());
    assert_eq!(ev.stream(), Stream::Accounts);
}

#[test]
fn default_event_is_empty_account() {
    let ev = AccTx::default();
    assert_eq!(ev.to_string(), "acc  0  false 0  0 - 0 false\n");
}

#[test]
fn record_round_trip_both_kinds() {
    let recs = vec![
        Record::Acc {
            pubkey: vec![0, 255, 16],
            lamports: u64::MAX,
            owner: vec![],
            executable: true,
            rent_epoch: 0,
            data: vec![10, 32, 45],
            write_version: 18446744073709551614,
            txn_signature: Some(vec![]),
            slot: 1,
            is_startup: false,
        },
        Record::Tx {
            slot: 99,
            signature: vec![3; 64],
            is_vote: false,
            transaction: b"a b\nc".to_vec(),
            transaction_status_meta: vec![],
            index: Some(0),
        },
    ];
    let mut bytes = Vec::new();
    for r in &recs {
        let line = r.encode_line();
        match Record::decode_line(&line) {
            Some(back) => assert_eq!(back.encode(), r.encode()),
            None => panic!("a written record must read back"),
        }
        bytes.extend_from_slice(&r.encode());
    }
    let back = decode_stream(&bytes).unwrap();
    assert_eq!(back.len(), 2);
    match &back[0] {
        Record::Acc { lamports, write_version, txn_signature, data, .. } => {
            assert_eq!(*lamports, u64::MAX);
            assert_eq!(*write_version, 18446744073709551614);
            assert_eq!(*txn_signature, Some(vec![]));
            assert_eq!(data, &vec![10, 32, 45]);
        }
        _ => panic!("expected an account record"),
    }
    match &back[1] {
        Record::Tx { transaction, index, .. } => {
            assert_eq!(transaction, &b"a b\nc".to_vec());
            assert_eq!(*index, Some(0));
        }
        _ => panic!("expected a transaction record"),
    }
}

#[test]
fn empty_stream_has_no_records() {
    assert_eq!(decode_stream(&[]).unwrap().len(), 0);
}

#[test]
fn malformed_input_is_rejected() {
    assert!(Record::decode_line(b"acc 01 5").is_none());
    assert!(Record::decode_line(b"tx 1 00 maybe  -").is_none());
    assert!(Record::decode_line(b"tx 01 00 true   -").is_none());
    assert!(Record::decode_line(b"tx 1 0 true   -").is_none());
    assert!(Record::decode_line(b"tx 18446744073709551616 00 true   -").is_none());
    assert!(Record::decode_line(b"tx 1 00 true   -").is_some());
    assert!(decode_stream(b"tx 1 00 true   -").is_none());
    assert!(decode_stream(b"tx 1 00 true   -\n").is_some());
    assert!(decode_stream(b"\n").is_none());
}

#[test]
fn plugin_without_channel_hands_event_back() {
    let plugin = FusionEnginePlugin::new();
    let info = account_v1(&[1], 1);
    let back = plugin.update_account(&ReplicaAccountInfoVersions::V0_0_1(&info), 3, false);
    match back {
        Some(AccTx::Acc { slot, .. }) => assert_eq!(slot, 3),
        _ => panic!("the event must come back"),
    }
}

#[test]
fn closed_channel_hands_event_back() {
    let (tx, rx) = smol::channel::unbounded::<AccTx>();
    drop(rx);
    let mut plugin = FusionEnginePlugin::new();
    plugin.attach(tx);
    let info = account_v1(&[1], 1);
    let back = plugin.update_account(&ReplicaAccountInfoVersions::V0_0_1(&info), 4, false);
    match back {
        Some(AccTx::Acc { slot, .. }) => assert_eq!(slot, 4),
        _ => panic!("the event must come back"),
    }
}

#[test]
fn capabilities_and_name() {
    let plugin = FusionEnginePlugin::new();
    assert_eq!(plugin.name(), "FusionEnginePlugin");
    assert!(plugin.account_data_notifications_enabled());
    assert!(plugin.transaction_notifications_enabled());
}
