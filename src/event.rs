//! The event model: one value per account write or processed transaction,
//! whatever version of the host's payload it came from.
use crate::record::{encoding, lemma_encoding_ascii, Record, RecordView};
use crate::upstream::{
    ascii_text, clone_status_meta, clone_transaction, signature_bytes, status_meta_text, transaction_text,
};
use solana_geyser_plugin_interface::geyser_plugin_interface::{
    ReplicaAccountInfoVersions, ReplicaTransactionInfoVersions,
};
use solana_sdk::signature::Signature;
use solana_sdk::transaction::SanitizedTransaction;
use solana_transaction_status::TransactionStatusMeta;
use vstd::prelude::*;

verus! {

/// An account snapshot or a transaction record.
pub enum AccTx {
    Acc {
        pubkey: Vec<u8>,
        lamports: u64,
        owner: Vec<u8>,
        executable: bool,
        rent_epoch: u64,
        data: Vec<u8>,
        write_version: u64,
        txn_signature: Option<Signature>,
        slot: u64,
        is_startup: bool,
    },
    Tx {
        slot: u64,
        signature: Signature,
        is_vote: bool,
        transaction: SanitizedTransaction,
        transaction_status_meta: TransactionStatusMeta,
        index: Option<usize>,
    },
}

/// The output stream that receives an event.
#[derive(PartialEq, Eq, Structural, Clone, Copy, Debug)]
pub enum Stream {
    Accounts,
    Transactions,
}

pub open spec fn deref_signature(o: Option<&Signature>) -> Option<Signature> {
    match o {
        Some(s) => Some(*s),
        None => None,
    }
}

/// `e` is the account event for this payload: every field copied as it is, and
/// no origin signature where the payload's version has none.
pub open spec fn is_account_event(
    e: AccTx,
    slot: u64,
    is_startup: bool,
    v: ReplicaAccountInfoVersions,
) -> bool {
    &&& e matches AccTx::Acc {
        pubkey,
        lamports,
        owner,
        executable,
        rent_epoch,
        data,
        write_version,
        txn_signature,
        slot: s,
        is_startup: st,
    }
    &&& s == slot
    &&& st == is_startup
    &&& match v {
        ReplicaAccountInfoVersions::V0_0_1(a) => {
            &&& pubkey@ == a.pubkey@
            &&& lamports == a.lamports
            &&& owner@ == a.owner@
            &&& executable == a.executable
            &&& rent_epoch == a.rent_epoch
            &&& data@ == a.data@
            &&& write_version == a.write_version
            &&& txn_signature is None
        },
        ReplicaAccountInfoVersions::V0_0_2(a) => {
            &&& pubkey@ == a.pubkey@
            &&& lamports == a.lamports
            &&& owner@ == a.owner@
            &&& executable == a.executable
            &&& rent_epoch == a.rent_epoch
            &&& data@ == a.data@
            &&& write_version == a.write_version
            &&& txn_signature == deref_signature(a.txn_signature)
        },
    }
}

/// `e` is the transaction event for this payload: slot, signature and vote flag
/// copied as they are, and the index present exactly where the payload has one.
pub open spec fn is_transaction_event(e: AccTx, slot: u64, v: ReplicaTransactionInfoVersions) -> bool {
    &&& e matches AccTx::Tx { slot: s, signature, is_vote, index, .. }
    &&& s == slot
    &&& match v {
        ReplicaTransactionInfoVersions::V0_0_1(t) => {
            &&& signature == *t.signature
            &&& is_vote == t.is_vote
            &&& index is None
        },
        ReplicaTransactionInfoVersions::V0_0_2(t) => {
            &&& signature == *t.signature
            &&& is_vote == t.is_vote
            &&& index == Some(t.index)
        },
    }
}

/// `rec` is what is written for `e`: every plain field as it is. Signatures
/// are 64 bytes; the opaque payloads stand as some text.
pub open spec fn describes(e: AccTx, rec: RecordView) -> bool {
    match e {
        AccTx::Acc {
            pubkey,
            lamports,
            owner,
            executable,
            rent_epoch,
            data,
            write_version,
            txn_signature,
            slot,
            is_startup,
        } => rec matches RecordView::Acc {
            pubkey: p,
            lamports: l,
            owner: o,
            executable: x,
            rent_epoch: re,
            data: d,
            write_version: w,
            txn_signature: sig,
            slot: s,
            is_startup: st,
        } && p == pubkey@ && l == lamports && o == owner@ && x == executable && re == rent_epoch
            && d == data@ && w == write_version && s == slot && st == is_startup && (
        sig is Some <==> txn_signature is Some) && (sig matches Some(b) ==> b.len() == 64),
        AccTx::Tx { slot, is_vote, index, .. } => rec matches RecordView::Tx {
            slot: s,
            signature: b,
            is_vote: v,
            index: i,
            ..
        } && s == slot && v == is_vote && b.len() == 64 && match index {
            Some(n) => i == Some(n as u64),
            None => i is None,
        },
    }
}

impl AccTx {
    /// The account event for an account-update payload of either version.
    pub fn into_acc(slot: u64, is_startup: bool, value: &ReplicaAccountInfoVersions) -> (r: Self)
        ensures
            is_account_event(r, slot, is_startup, *value),
    {
        match value {
            ReplicaAccountInfoVersions::V0_0_1(inner_account) => AccTx::Acc {
                pubkey: vstd::slice::slice_to_vec(inner_account.pubkey),
                lamports: inner_account.lamports,
                owner: vstd::slice::slice_to_vec(inner_account.owner),
                executable: inner_account.executable,
                rent_epoch: inner_account.rent_epoch,
                data: vstd::slice::slice_to_vec(inner_account.data),
                write_version: inner_account.write_version,
                txn_signature: None,
                slot,
                is_startup,
            },
            ReplicaAccountInfoVersions::V0_0_2(inner_account) => AccTx::Acc {
                pubkey: vstd::slice::slice_to_vec(inner_account.pubkey),
                lamports: inner_account.lamports,
                owner: vstd::slice::slice_to_vec(inner_account.owner),
                executable: inner_account.executable,
                rent_epoch: inner_account.rent_epoch,
                data: vstd::slice::slice_to_vec(inner_account.data),
                write_version: inner_account.write_version,
                txn_signature: match inner_account.txn_signature {
                    Some(s) => Some(*s),
                    None => None,
                },
                slot,
                is_startup,
            },
        }
    }

    /// The transaction event for a transaction payload of either version.
    pub fn into_tx(slot: u64, value: &ReplicaTransactionInfoVersions) -> (r: Self)
        ensures
            is_transaction_event(r, slot, *value),
    {
        match value {
            ReplicaTransactionInfoVersions::V0_0_1(inner_tx) => AccTx::Tx {
                slot,
                signature: *inner_tx.signature,
                is_vote: inner_tx.is_vote,
                transaction: clone_transaction(inner_tx.transaction),
                transaction_status_meta: clone_status_meta(inner_tx.transaction_status_meta),
                index: None,
            },
            ReplicaTransactionInfoVersions::V0_0_2(inner_tx) => AccTx::Tx {
                slot,
                signature: *inner_tx.signature,
                is_vote: inner_tx.is_vote,
                transaction: clone_transaction(inner_tx.transaction),
                transaction_status_meta: clone_status_meta(inner_tx.transaction_status_meta),
                index: Some(inner_tx.index),
            },
        }
    }

    /// The stream that an event is written to: one per kind.
    pub fn stream(&self) -> (r: Stream)
        ensures
            r == Stream::Accounts <==> self is Acc,
            r == Stream::Transactions <==> self is Tx,
    {
        match self {
            AccTx::Acc { .. } => Stream::Accounts,
            AccTx::Tx { .. } => Stream::Transactions,
        }
    }

    /// The plain values that are written for this event.
    pub fn to_record(&self) -> (r: Record)
        ensures
            describes(*self, r@),
    {
        match self {
            AccTx::Acc {
                pubkey,
                lamports,
                owner,
                executable,
                rent_epoch,
                data,
                write_version,
                txn_signature,
                slot,
                is_startup,
            } => Record::Acc {
                pubkey: pubkey.clone(),
                lamports: *lamports,
                owner: owner.clone(),
                executable: *executable,
                rent_epoch: *rent_epoch,
                data: data.clone(),
                write_version: *write_version,
                txn_signature: match txn_signature {
                    Some(s) => Some(signature_bytes(s)),
                    None => None,
                },
                slot: *slot,
                is_startup: *is_startup,
            },
            AccTx::Tx { slot, signature, is_vote, transaction, transaction_status_meta, index } =>
                Record::Tx {
                slot: *slot,
                signature: signature_bytes(signature),
                is_vote: *is_vote,
                transaction: transaction_text(transaction),
                transaction_status_meta: status_meta_text(transaction_status_meta),
                index: match index {
                    Some(n) => Some(*n as u64),
                    None => None,
                },
            },
        }
    }

    /// The bytes appended to the event's stream: one newline-ended record.
    pub fn into_bytes(&self) -> (r: Vec<u8>)
        ensures
            exists|rec: RecordView| describes(*self, rec) && r@ == encoding(rec),
    {
        let rec = self.to_record();
        rec.encode()
    }

    /// The record of this event as text.
    pub fn to_string(&self) -> (r: String)
        ensures
            exists|rec: RecordView|
                describes(*self, rec) && r@ == encoding(rec).map_values(|x: u8| x as char),
    {
        let rec = self.to_record();
        let bytes = rec.encode();
        proof {
            lemma_encoding_ascii(rec@);
        }
        ascii_text(bytes)
    }
}

impl Default for AccTx {
    /// An account event with every field empty or zero.
    fn default() -> (r: Self)
        ensures
            r matches AccTx::Acc {
                pubkey,
                lamports,
                owner,
                executable,
                rent_epoch,
                data,
                write_version,
                txn_signature,
                slot,
                is_startup,
            } && pubkey@.len() == 0 && lamports == 0 && owner@.len() == 0 && !executable
                && rent_epoch == 0 && data@.len() == 0 && write_version == 0 && txn_signature is None
                && slot == 0 && !is_startup,
    {
        AccTx::Acc {
            pubkey: Vec::new(),
            lamports: 0,
            owner: Vec::new(),
            executable: false,
            rent_epoch: 0,
            data: Vec::new(),
            write_version: 0,
            txn_signature: None,
            slot: 0,
            is_startup: false,
        }
    }
}

} // verus!
