//! The host's callback payload types, declared so that verified code can read
//! their fields, and the outside calls that the library relies on.
use solana_geyser_plugin_interface::geyser_plugin_interface::{
    ReplicaAccountInfo, ReplicaAccountInfoV2, ReplicaAccountInfoVersions, ReplicaTransactionInfo,
    ReplicaTransactionInfoV2, ReplicaTransactionInfoVersions,
};
use crate::event::AccTx;
use smol::channel::Sender;
use solana_sdk::signature::Signature;
use solana_sdk::transaction::SanitizedTransaction;
use solana_transaction_status::TransactionStatusMeta;
use vstd::prelude::*;

verus! {

#[verifier::external_type_specification]
#[verifier::external_body]
pub struct ExSignature(Signature);

#[verifier::external_type_specification]
#[verifier::external_body]
pub struct ExSanitizedTransaction(SanitizedTransaction);

#[verifier::external_type_specification]
#[verifier::external_body]
pub struct ExTransactionStatusMeta(TransactionStatusMeta);

#[verifier::external_type_specification]
pub struct ExReplicaAccountInfo<'a>(ReplicaAccountInfo<'a>);

#[verifier::external_type_specification]
pub struct ExReplicaAccountInfoV2<'a>(ReplicaAccountInfoV2<'a>);

#[verifier::external_type_specification]
pub struct ExReplicaAccountInfoVersions<'a>(ReplicaAccountInfoVersions<'a>);

#[verifier::external_type_specification]
pub struct ExReplicaTransactionInfo<'a>(ReplicaTransactionInfo<'a>);

#[verifier::external_type_specification]
pub struct ExReplicaTransactionInfoV2<'a>(ReplicaTransactionInfoV2<'a>);

#[verifier::external_type_specification]
pub struct ExReplicaTransactionInfoVersions<'a>(ReplicaTransactionInfoVersions<'a>);

#[verifier::external_type_specification]
#[verifier::external_body]
#[verifier::reject_recursive_types(T)]
pub struct ExSender<T>(Sender<T>);

/// Relies on `Signature::as_ref`: a signature is 64 bytes.
#[verifier::external_body]
pub(crate) fn signature_bytes(s: &Signature) -> (r: Vec<u8>)
    ensures
        r@.len() == 64,
{
    s.as_ref().to_vec()
}

/// Relies on the derived `Clone` of `SanitizedTransaction`.
#[verifier::external_body]
pub(crate) fn clone_transaction(t: &SanitizedTransaction) -> SanitizedTransaction {
    t.clone()
}

/// Relies on the derived `Clone` of `TransactionStatusMeta`.
#[verifier::external_body]
pub(crate) fn clone_status_meta(m: &TransactionStatusMeta) -> TransactionStatusMeta {
    m.clone()
}

/// Relies on the derived `Debug` of `SanitizedTransaction`, as text for the record.
#[verifier::external_body]
pub(crate) fn transaction_text(t: &SanitizedTransaction) -> Vec<u8> {
    format!("{:?}", t).into_bytes()
}

/// Relies on the derived `Debug` of `TransactionStatusMeta`, as text for the record.
#[verifier::external_body]
pub(crate) fn status_meta_text(m: &TransactionStatusMeta) -> Vec<u8> {
    format!("{:?}", m).into_bytes()
}

/// Relies on async-channel's `Sender::try_send`: it never waits, and when the
/// message is not taken (the channel is closed) it is handed back unchanged.
#[verifier::external_body]
pub(crate) fn hand_off(s: &Sender<AccTx>, e: AccTx) -> (r: Option<AccTx>)
    ensures
        r matches Some(back) ==> back == e,
{
    match s.try_send(e) {
        Ok(()) => None,
        Err(err) => Some(err.into_inner()),
    }
}

/// Relies on std's `String::from_utf8`: ASCII bytes are valid UTF-8, one character each.
#[verifier::external_body]
pub(crate) fn ascii_text(b: Vec<u8>) -> (r: String)
    requires
        forall|i: int| 0 <= i < b@.len() ==> b@[i] < 128,
    ensures
        r@ == b@.map_values(|x: u8| x as char),
{
    String::from_utf8(b).unwrap_or_default()
}

} // verus!
