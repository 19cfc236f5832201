//! The callback surface: each account or transaction callback builds its
//! event and hands it to the writer's channel without waiting for the write.
use crate::event::{is_account_event, is_transaction_event, AccTx};
use crate::upstream::hand_off;
use smol::channel::Sender;
use solana_geyser_plugin_interface::geyser_plugin_interface::{
    ReplicaAccountInfoVersions, ReplicaTransactionInfoVersions,
};
use vstd::prelude::*;

verus! {

/// The plugin: it holds the sending end of the channel that the writer drains,
/// once the host has loaded it.
pub struct FusionEnginePlugin {
    pub sink: Option<Sender<AccTx>>,
}

impl FusionEnginePlugin {
    /// A plugin with no channel yet.
    pub fn new() -> (r: Self)
        ensures
            r.sink is None,
    {
        FusionEnginePlugin { sink: None }
    }

    /// The name under which the host knows the plugin.
    pub fn name(&self) -> (r: &'static str)
        ensures
            r@ == "FusionEnginePlugin"@,
    {
        "FusionEnginePlugin"
    }

    /// Gives the plugin the channel that its events go to.
    pub fn attach(&mut self, sink: Sender<AccTx>)
        ensures
            final(self).sink == Some(sink),
    {
        self.sink = Some(sink);
    }

    /// Hands an event to the channel. `None` when it was taken; else the event
    /// comes back (no channel yet, or the channel is closed).
    pub fn dispatch(&self, event: AccTx) -> (r: Option<AccTx>)
        ensures
            r matches Some(back) ==> back == event,
            self.sink is None ==> r == Some(event),
    {
        match &self.sink {
            Some(s) => hand_off(s, event),
            None => Some(event),
        }
    }

    /// The account-update callback: the event for this payload goes to the
    /// channel; if it cannot, it is returned.
    pub fn update_account(
        &self,
        account: &ReplicaAccountInfoVersions,
        slot: u64,
        is_startup: bool,
    ) -> (r: Option<AccTx>)
        ensures
            r matches Some(e) ==> is_account_event(e, slot, is_startup, *account),
            self.sink is None ==> r is Some,
    {
        let outcome = AccTx::into_acc(slot, is_startup, account);
        self.dispatch(outcome)
    }

    /// The transaction callback: the event for this payload goes to the
    /// channel; if it cannot, it is returned.
    pub fn notify_transaction(
        &self,
        transaction: &ReplicaTransactionInfoVersions,
        slot: u64,
    ) -> (r: Option<AccTx>)
        ensures
            r matches Some(e) ==> is_transaction_event(e, slot, *transaction),
            self.sink is None ==> r is Some,
    {
        let outcome = AccTx::into_tx(slot, transaction);
        self.dispatch(outcome)
    }

    /// The plugin asks for account notifications.
    pub fn account_data_notifications_enabled(&self) -> (r: bool)
        ensures
            r,
    {
        true
    }

    /// The plugin asks for transaction notifications.
    pub fn transaction_notifications_enabled(&self) -> (r: bool)
        ensures
            r,
    {
        true
    }
}

} // verus!
