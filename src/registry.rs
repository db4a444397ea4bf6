//! The watch registry: transactions and outputs that observers asked to have
//! watched. It only grows; nothing is deduplicated or removed.
use vstd::prelude::*;
use crate::chain::TxId;

verus! {

/// Watched transactions (id and script) and watched outputs, in order of
/// registration.
pub struct TxFilter<S, O> {
    watched_transactions: Vec<(TxId, S)>,
    watched_outputs: Vec<O>,
}

impl<S, O> TxFilter<S, O> {
    pub closed spec fn watched_txs(&self) -> Seq<(TxId, S)> {
        self.watched_transactions@
    }

    pub closed spec fn watched_outs(&self) -> Seq<O> {
        self.watched_outputs@
    }

    /// An empty registry.
    pub fn new() -> (r: Self)
        ensures
            r.watched_txs() == Seq::<(TxId, S)>::empty(),
            r.watched_outs() == Seq::<O>::empty(),
    {
        TxFilter { watched_transactions: Vec::new(), watched_outputs: Vec::new() }
    }

    /// Appends a transaction to watch, with the script it pays to.
    pub fn register_tx(&mut self, txid: TxId, script: S)
        ensures
            final(self).watched_txs() == old(self).watched_txs().push((txid, script)),
            final(self).watched_outs() == old(self).watched_outs(),
    {
        self.watched_transactions.push((txid, script));
    }

    /// Appends an output to watch. Nothing is looked up at registration: the
    /// output's confirmed activity is found by the next sync pass, so the
    /// result is always absent.
    pub fn register_output<T>(&mut self, output: O) -> (r: Option<(usize, T)>)
        ensures
            r.is_none(),
            final(self).watched_outs() == old(self).watched_outs().push(output),
            final(self).watched_txs() == old(self).watched_txs(),
    {
        self.watched_outputs.push(output);
        None
    }

    /// The watched transactions, in order of registration.
    pub fn watched_transactions(&self) -> (r: &Vec<(TxId, S)>)
        ensures
            r@ == self.watched_txs(),
    {
        &self.watched_transactions
    }

    /// The watched outputs, in order of registration.
    pub fn watched_outputs(&self) -> (r: &Vec<O>)
        ensures
            r@ == self.watched_outs(),
    {
        &self.watched_outputs
    }
}

impl<S, O> Default for TxFilter<S, O> {
    fn default() -> (r: Self)
        ensures
            r.watched_txs() == Seq::<(TxId, S)>::empty(),
            r.watched_outs() == Seq::<O>::empty(),
    {
        Self::new()
    }
}

} // verus!
