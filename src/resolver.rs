//! Confirmation-status resolution: which relevant ids left the chain, and
//! which confirmed transactions a script's history holds.
use vstd::prelude::*;
use crate::chain::{
    confirmed_height, confirmed_height_of, is_confirmed, status_confirmed, ConfirmedTx,
    HistoryEntry, TxId, TxStatus,
};

verus! {

broadcast use vstd::seq_lib::group_seq_properties;

/// The ids of `s` with later repetitions removed, first occurrences kept in
/// order.
pub open spec fn dedup(s: Seq<TxId>) -> Seq<TxId>
    decreases s.len(),
{
    if s.len() == 0 {
        Seq::empty()
    } else {
        let d = dedup(s.drop_last());
        if d.contains(s.last()) {
            d
        } else {
            d.push(s.last())
        }
    }
}

/// The ids of `ids` whose status lookup (same index in `statuses`) is not
/// confirmed, in order.
pub open spec fn unconfirmed_of(ids: Seq<TxId>, statuses: Seq<Option<TxStatus>>) -> Seq<TxId>
    decreases ids.len(),
{
    if ids.len() == 0 || statuses.len() != ids.len() {
        Seq::empty()
    } else {
        let rest = unconfirmed_of(ids.drop_last(), statuses.drop_last());
        if is_confirmed(statuses.last()) {
            rest
        } else {
            rest.push(ids.last())
        }
    }
}

/// The first entry of `h` that is confirmed at a known height and whose id is
/// `txid`, with that height.
pub open spec fn first_confirmed_match<T>(txid: TxId, h: Seq<HistoryEntry<T>>) -> Option<ConfirmedTx<T>>
    decreases h.len(),
{
    if h.len() == 0 {
        None
    } else if h[0].txid == txid && confirmed_height_of(h[0].status).is_some() {
        Some(ConfirmedTx { height: confirmed_height_of(h[0].status).unwrap(), tx: h[0].tx })
    } else {
        first_confirmed_match(txid, h.drop_first())
    }
}

/// Every entry of `h` confirmed at a known height, with that height, in order.
pub open spec fn all_confirmed<T>(h: Seq<HistoryEntry<T>>) -> Seq<ConfirmedTx<T>>
    decreases h.len(),
{
    if h.len() == 0 {
        Seq::empty()
    } else {
        let rest = all_confirmed(h.drop_last());
        match confirmed_height_of(h.last().status) {
            Some(height) => rest.push(ConfirmedTx { height, tx: h.last().tx }),
            None => rest,
        }
    }
}

fn contains_txid(v: &Vec<TxId>, x: &TxId) -> (r: bool)
    ensures
        r == v@.contains(*x),
{
    let mut i: usize = 0;
    while i < v.len()
        invariant
            i <= v.len(),
            forall|j: int| 0 <= j < i ==> v@[j] != *x,
        decreases v.len() - i,
    {
        if v[i].same_as(x) {
            assert(v@[i as int] == *x);
            return true;
        }
        i = i + 1;
    }
    false
}

/// Merges the relevant ids reported by two observers into one list without
/// repetitions: the ids of `a` then of `b`, each kept at its first occurrence.
pub fn merge_relevant_txids(a: Vec<TxId>, b: Vec<TxId>) -> (r: Vec<TxId>)
    ensures
        r@ == dedup(a@ + b@),
        r@.no_duplicates(),
        r@.to_set() == (a@ + b@).to_set(),
{
    let mut all = a;
    let mut b = b;
    all.append(&mut b);
    let ghost s = all@;
    let mut out: Vec<TxId> = Vec::new();
    let mut i: usize = 0;
    while i < all.len()
        invariant
            i <= all.len(),
            all@ == s,
            out@ == dedup(s.take(i as int)),
        decreases all.len() - i,
    {
        assert(s.take(i as int + 1).drop_last() =~= s.take(i as int));
        if !contains_txid(&out, &all[i]) {
            out.push(all[i].clone());
        }
        i = i + 1;
    }
    assert(s.take(s.len() as int) =~= s);
    proof {
        lemma_dedup_no_duplicates(s);
        lemma_dedup_same_set(s);
    }
    out
}

/// A deduplicated list holds each id once.
pub proof fn lemma_dedup_no_duplicates(s: Seq<TxId>)
    ensures
        dedup(s).no_duplicates(),
    decreases s.len(),
{
    if s.len() > 0 {
        lemma_dedup_no_duplicates(s.drop_last());
    }
}

/// A deduplicated list holds exactly the ids of the original.
pub proof fn lemma_dedup_same_set(s: Seq<TxId>)
    ensures
        dedup(s).to_set() == s.to_set(),
{
    lemma_dedup_contains(s);
    assert(dedup(s).to_set() =~= s.to_set());
}

pub(crate) proof fn lemma_dedup_contains(s: Seq<TxId>)
    ensures
        forall|x: TxId| dedup(s).contains(x) <==> s.contains(x),
    decreases s.len(),
{
    if s.len() > 0 {
        let p = s.drop_last();
        lemma_dedup_contains(p);
        assert(s =~= p.push(s.last()));
        assert forall|x: TxId| dedup(s).contains(x) <==> s.contains(x) by {
            if s.contains(x) && !p.contains(x) {
                let k = choose|k: int| 0 <= k < s.len() && s[k] == x;
                if k < p.len() {
                    assert(p[k] == x);
                }
            }
            if p.contains(x) {
                let k = choose|k: int| 0 <= k < p.len() && p[k] == x;
                assert(s[k] == x);
            }
        }
    }
}

/// The ids among `txids` that are not currently confirmed, in order, given
/// the status lookup of each (`statuses[i]` for `txids[i]`; a missing status
/// counts as unconfirmed).
pub fn get_unconfirmed(txids: &Vec<TxId>, statuses: &Vec<Option<TxStatus>>) -> (r: Vec<TxId>)
    requires
        statuses.len() == txids.len(),
    ensures
        r@ == unconfirmed_of(txids@, statuses@),
        forall|x: TxId|
            r@.contains(x) <==> exists|i: int|
                0 <= i < txids.len() && txids@[i] == x && !is_confirmed(statuses@[i]),
        txids@.no_duplicates() ==> r@.no_duplicates(),
{
    let mut out: Vec<TxId> = Vec::new();
    let mut i: usize = 0;
    while i < txids.len()
        invariant
            i <= txids.len(),
            statuses.len() == txids.len(),
            out@ == unconfirmed_of(txids@.take(i as int), statuses@.take(i as int)),
        decreases txids.len() - i,
    {
        assert(txids@.take(i as int + 1).drop_last() =~= txids@.take(i as int));
        assert(statuses@.take(i as int + 1).drop_last() =~= statuses@.take(i as int));
        if !status_confirmed(&statuses[i]) {
            out.push(txids[i].clone());
        }
        i = i + 1;
    }
    assert(txids@.take(txids.len() as int) =~= txids@);
    assert(statuses@.take(statuses.len() as int) =~= statuses@);
    proof {
        lemma_unconfirmed_members(txids@, statuses@);
    }
    out
}

/// An id is reported unconfirmed exactly when some occurrence of it has a
/// status that is not confirmed; over ids without repetitions, the report
/// holds each id at most once.
pub proof fn lemma_unconfirmed_members(ids: Seq<TxId>, statuses: Seq<Option<TxStatus>>)
    requires
        statuses.len() == ids.len(),
    ensures
        forall|x: TxId|
            unconfirmed_of(ids, statuses).contains(x) <==> exists|i: int|
                0 <= i < ids.len() && ids[i] == x && !is_confirmed(statuses[i]),
        ids.no_duplicates() ==> unconfirmed_of(ids, statuses).no_duplicates(),
    decreases ids.len(),
{
    if ids.len() > 0 {
        let p = ids.drop_last();
        let q = statuses.drop_last();
        lemma_unconfirmed_members(p, q);
        let n = ids.len() - 1;
        assert forall|x: TxId|
            unconfirmed_of(ids, statuses).contains(x) <==> exists|i: int|
                0 <= i < ids.len() && ids[i] == x && !is_confirmed(statuses[i]) by {
            if unconfirmed_of(p, q).contains(x) {
                let i = choose|i: int| 0 <= i < p.len() && p[i] == x && !is_confirmed(q[i]);
                assert(ids[i] == x && !is_confirmed(statuses[i]));
            }
            if exists|i: int| 0 <= i < ids.len() && ids[i] == x && !is_confirmed(statuses[i]) {
                let i = choose|i: int| 0 <= i < ids.len() && ids[i] == x && !is_confirmed(statuses[i]);
                if i < n {
                    assert(p[i] == x && !is_confirmed(q[i]));
                    assert(unconfirmed_of(p, q).contains(x));
                } else {
                    assert(unconfirmed_of(ids, statuses).last() == x);
                }
            }
        }
        if ids.no_duplicates() {
            assert(p.no_duplicates());
            if !is_confirmed(statuses.last()) {
                assert(!unconfirmed_of(p, q).contains(ids.last())) by {
                    if unconfirmed_of(p, q).contains(ids.last()) {
                        let i = choose|i: int| 0 <= i < p.len() && p[i] == ids.last() && !is_confirmed(q[i]);
                        assert(ids[i] == ids[n]);
                    }
                }
            }
        }
    }
}

/// The first entry of a script's history that is the transaction `txid`,
/// confirmed at a known height; entries of other transactions on the same
/// script are passed over.
pub fn get_confirmed_tx<T>(txid: &TxId, history: Vec<HistoryEntry<T>>) -> (r: Option<ConfirmedTx<T>>)
    ensures
        r == first_confirmed_match(*txid, history@),
{
    let mut h = history;
    while h.len() > 0
        invariant
            first_confirmed_match(*txid, h@) == first_confirmed_match(*txid, history@),
        decreases h.len(),
    {
        let ghost before = h@;
        let e = h.remove(0);
        assert(h@ =~= before.drop_first());
        if e.txid.same_as(txid) {
            match confirmed_height(&e.status) {
                Some(height) => {
                    return Some(ConfirmedTx { height, tx: e.tx });
                },
                None => {},
            }
        }
    }
    None
}

/// Every entry of a script's history confirmed at a known height, in order,
/// whatever its transaction.
pub fn get_confirmed_txs_from_script_history<T>(history: Vec<HistoryEntry<T>>) -> (r: Vec<ConfirmedTx<T>>)
    ensures
        r@ == all_confirmed(history@),
{
    let mut h = history;
    let mut out: Vec<ConfirmedTx<T>> = Vec::new();
    let ghost k: int = 0;
    while h.len() > 0
        invariant
            0 <= k <= history.len(),
            h@ == history@.skip(k),
            out@ == all_confirmed(history@.take(k)),
        decreases h.len(),
    {
        let e = h.remove(0);
        assert(history@.take(k + 1).drop_last() =~= history@.take(k));
        assert(history@[k] == e);
        match confirmed_height(&e.status) {
            Some(height) => {
                out.push(ConfirmedTx { height, tx: e.tx });
            },
            None => {},
        }
        proof {
            k = k + 1;
        }
        assert(h@ =~= history@.skip(k));
    }
    assert(history@.take(k) =~= history@);
    out
}

} // verus!
