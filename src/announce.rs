//! The order in which observers hear of one sync pass: retractions first, then
//! confirmed blocks by ascending height, then the new best block.
use vstd::prelude::*;
use crate::chain::{is_confirmed, ConfirmedTx, TxId, TxStatus};
use crate::grouper::{
    flatten, lemma_block_entry_in_flatten, lemma_flatten_members, lemma_resolved_members, lemma_sort_records, resolved,
    sort_records, BlockTxs, PositionedTx,
};
use crate::resolver::{dedup, lemma_dedup_contains, lemma_dedup_no_duplicates, lemma_unconfirmed_members, unconfirmed_of};

verus! {

broadcast use vstd::seq_lib::group_seq_properties;

/// One call to make on every observer.
#[derive(PartialEq, Eq, Debug)]
pub enum Announcement<H, T> {
    /// The transaction is no longer confirmed.
    Unconfirmed { txid: TxId },
    /// The block at `height` holds these (position, transaction) pairs.
    Confirmed { header: H, height: u32, txs: Vec<(usize, T)> },
    /// The chain's best block is now this one.
    BestBlock { header: H, height: u32 },
}

pub open spec fn unconfirmed_announcements<H, T>(ids: Seq<TxId>) -> Seq<Announcement<H, T>> {
    ids.map_values(|id: TxId| Announcement::Unconfirmed { txid: id })
}

pub open spec fn confirmed_announcements<H, T>(blocks: Seq<BlockTxs<T>>, headers: Seq<H>) -> Seq<Announcement<H, T>> {
    Seq::new(
        blocks.len(),
        |i: int| Announcement::Confirmed { header: headers[i], height: blocks[i].height, txs: blocks[i].txs },
    )
}

/// The announcements of a pass: each unconfirmed id, then each block with its
/// header, then the tip.
pub open spec fn plan_of<H, T>(
    unconfirmed: Seq<TxId>,
    blocks: Seq<BlockTxs<T>>,
    headers: Seq<H>,
    tip_height: u32,
    tip_header: H,
) -> Seq<Announcement<H, T>> {
    unconfirmed_announcements(unconfirmed) + confirmed_announcements(blocks, headers) + seq![
        Announcement::BestBlock { header: tip_header, height: tip_height },
    ]
}

/// Lays out the announcements of one pass in the order the observers must
/// receive them: every retraction before any confirmation, every
/// confirmation before the tip. `headers[i]` is the header of `blocks[i]`.
pub fn plan_announcements<H, T>(
    unconfirmed: Vec<TxId>,
    blocks: Vec<BlockTxs<T>>,
    headers: Vec<H>,
    tip_height: u32,
    tip_header: H,
) -> (r: Vec<Announcement<H, T>>)
    requires
        headers.len() == blocks.len(),
    ensures
        r@ == plan_of(unconfirmed@, blocks@, headers@, tip_height, tip_header),
{
    let mut out: Vec<Announcement<H, T>> = Vec::new();
    let mut u = unconfirmed;
    let ghost k: int = 0;
    while u.len() > 0
        invariant
            0 <= k <= unconfirmed.len(),
            u@ == unconfirmed@.skip(k),
            out@ == unconfirmed_announcements::<H, T>(unconfirmed@.take(k)),
        decreases u.len(),
    {
        let id = u.remove(0);
        assert(unconfirmed@[k] == id);
        out.push(Announcement::Unconfirmed { txid: id });
        proof {
            k = k + 1;
        }
        assert(out@ =~= unconfirmed_announcements::<H, T>(unconfirmed@.take(k)));
        assert(u@ =~= unconfirmed@.skip(k));
    }
    assert(unconfirmed@.take(k) =~= unconfirmed@);
    let ghost first = out@;
    let mut b = blocks;
    let mut h = headers;
    let ghost m: int = 0;
    while b.len() > 0
        invariant
            0 <= m <= blocks.len(),
            headers.len() == blocks.len(),
            b@ == blocks@.skip(m),
            h@ == headers@.skip(m),
            out@ == first + confirmed_announcements(blocks@.take(m), headers@.take(m)),
        decreases b.len(),
    {
        let block = b.remove(0);
        let header = h.remove(0);
        assert(blocks@[m] == block);
        assert(headers@[m] == header);
        out.push(Announcement::Confirmed { header, height: block.height, txs: block.txs });
        proof {
            m = m + 1;
        }
        assert(out@ =~= first + confirmed_announcements(blocks@.take(m), headers@.take(m)));
        assert(b@ =~= blocks@.skip(m));
        assert(h@ =~= headers@.skip(m));
    }
    assert(blocks@.take(m) =~= blocks@);
    assert(headers@.take(m) =~= headers@);
    out.push(Announcement::BestBlock { header: tip_header, height: tip_height });
    assert(out@ =~= plan_of(unconfirmed@, blocks@, headers@, tip_height, tip_header));
    out
}

/// Within one pass no id is retracted twice: the relevant ids of the two
/// observers are merged without repetition, so the retractions name distinct
/// ids.
pub proof fn lemma_retractions_distinct<H, T>(
    a: Seq<TxId>,
    b: Seq<TxId>,
    statuses: Seq<Option<TxStatus>>,
    blocks: Seq<BlockTxs<T>>,
    headers: Seq<H>,
    tip_height: u32,
    tip_header: H,
)
    requires
        statuses.len() == dedup(a + b).len(),
        headers.len() == blocks.len(),
    ensures
        ({
            let plan = plan_of(unconfirmed_of(dedup(a + b), statuses), blocks, headers, tip_height, tip_header);
            forall|i: int, j: int|
                0 <= i < j < plan.len() && (#[trigger] plan[i]) is Unconfirmed && (#[trigger] plan[j]) is Unconfirmed
                    ==> plan[i]->txid != plan[j]->txid
        }),
{
    let u = unconfirmed_of(dedup(a + b), statuses);
    lemma_dedup_no_duplicates(a + b);
    lemma_unconfirmed_members(dedup(a + b), statuses);
    let plan = plan_of(u, blocks, headers, tip_height, tip_header);
    assert forall|i: int, j: int|
        0 <= i < j < plan.len() && (#[trigger] plan[i]) is Unconfirmed && (#[trigger] plan[j]) is Unconfirmed
            implies plan[i]->txid != plan[j]->txid by {
        if j >= u.len() {
            assert(!(plan[j] is Unconfirmed));
        }
        assert(plan[i] == Announcement::<H, T>::Unconfirmed { txid: u[i] });
        assert(plan[j] == Announcement::<H, T>::Unconfirmed { txid: u[j] });
    }
}

/// A relevant id whose status lookup is not confirmed is retracted in the
/// pass, whatever earlier passes announced of it.
pub proof fn lemma_unconfirmed_is_retracted<H, T>(
    a: Seq<TxId>,
    b: Seq<TxId>,
    statuses: Seq<Option<TxStatus>>,
    blocks: Seq<BlockTxs<T>>,
    headers: Seq<H>,
    tip_height: u32,
    tip_header: H,
    i: int,
)
    requires
        statuses.len() == dedup(a + b).len(),
        headers.len() == blocks.len(),
        0 <= i < statuses.len(),
        !is_confirmed(statuses[i]),
    ensures
        plan_of(unconfirmed_of(dedup(a + b), statuses), blocks, headers, tip_height, tip_header).contains(
            Announcement::Unconfirmed { txid: dedup(a + b)[i] },
        ),
{
    let ids = dedup(a + b);
    let u = unconfirmed_of(ids, statuses);
    lemma_unconfirmed_members(ids, statuses);
    assert(u.contains(ids[i]));
    let k = choose|k: int| 0 <= k < u.len() && u[k] == ids[i];
    let plan = plan_of(u, blocks, headers, tip_height, tip_header);
    assert(plan[k] == Announcement::<H, T>::Unconfirmed { txid: ids[i] });
}

/// A watched transaction found confirmed whose position lookup succeeds is
/// announced in the pass, in the block of its height, with that position,
/// whatever earlier passes announced of it.
pub proof fn lemma_confirmed_is_announced<H, T>(
    unconfirmed: Seq<TxId>,
    records: Seq<ConfirmedTx<T>>,
    positions: Seq<Option<usize>>,
    blocks: Seq<BlockTxs<T>>,
    headers: Seq<H>,
    tip_height: u32,
    tip_header: H,
    i: int,
)
    requires
        positions.len() == records.len(),
        flatten(blocks) == sort_records(resolved(records, positions)),
        headers.len() == blocks.len(),
        0 <= i < records.len(),
        positions[i] is Some,
    ensures
        exists|k: int|
            #![trigger plan_of(unconfirmed, blocks, headers, tip_height, tip_header)[k]]
            0 <= k < plan_of(unconfirmed, blocks, headers, tip_height, tip_header).len()
                && plan_of(unconfirmed, blocks, headers, tip_height, tip_header)[k] is Confirmed
                && plan_of(unconfirmed, blocks, headers, tip_height, tip_header)[k]->Confirmed_height
                == records[i].height
                && plan_of(unconfirmed, blocks, headers, tip_height, tip_header)[k]->Confirmed_txs@.contains(
                (positions[i]->Some_0, records[i].tx),
            ),
{
    let x = PositionedTx { height: records[i].height, position: positions[i]->Some_0, tx: records[i].tx };
    let rs = resolved(records, positions);
    lemma_resolved_members(records, positions);
    assert(rs.contains(x));
    lemma_sort_records(rs);
    assert(rs.to_multiset().count(x) > 0);
    assert(sort_records(rs).to_multiset().count(x) > 0);
    assert(flatten(blocks).contains(x));
    lemma_flatten_members(blocks, x);
    let (bi, j) = choose|bi: int, j: int|
        0 <= bi < blocks.len() && 0 <= j < blocks[bi].txs.len() && blocks[bi].height == x.height
            && #[trigger] blocks[bi].txs@[j] == (x.position, x.tx);
    let plan = plan_of(unconfirmed, blocks, headers, tip_height, tip_header);
    let k = unconfirmed.len() + bi;
    assert(plan[k] == Announcement::<H, T>::Confirmed { header: headers[bi], height: blocks[bi].height, txs: blocks[bi].txs });
    assert(plan[k]->Confirmed_txs@[j] == (x.position, x.tx));
}

/// Each pass announces every resolved record, as often as it was found:
/// nothing is held back for having been announced before.
pub proof fn lemma_every_record_announced_each_pass<T>(
    records: Seq<ConfirmedTx<T>>,
    positions: Seq<Option<usize>>,
    blocks: Seq<BlockTxs<T>>,
)
    requires
        positions.len() == records.len(),
        flatten(blocks) == sort_records(resolved(records, positions)),
    ensures
        flatten(blocks).to_multiset() == resolved(records, positions).to_multiset(),
{
    lemma_sort_records(resolved(records, positions));
}

/// Over a whole pass, with the backend's status answer `status(id)` for each
/// merged id: an id is retracted exactly when one of the observers reported
/// it and its status is missing or not confirmed, and no id is retracted
/// twice.
pub proof fn lemma_pass_retractions<H, T>(
    a: Seq<TxId>,
    b: Seq<TxId>,
    status: spec_fn(TxId) -> Option<TxStatus>,
    blocks: Seq<BlockTxs<T>>,
    headers: Seq<H>,
    tip_height: u32,
    tip_header: H,
)
    requires
        headers.len() == blocks.len(),
    ensures
        ({
            let ids = dedup(a + b);
            let plan = plan_of(unconfirmed_of(ids, ids.map_values(status)), blocks, headers, tip_height, tip_header);
            &&& forall|x: TxId|
                plan.contains(Announcement::Unconfirmed { txid: x }) <==> ((a + b).contains(x)
                    && !is_confirmed(status(x)))
            &&& forall|i: int, j: int|
                0 <= i < j < plan.len() && (#[trigger] plan[i]) is Unconfirmed && (#[trigger] plan[j]) is Unconfirmed
                    ==> plan[i]->txid != plan[j]->txid
        }),
{
    let ids = dedup(a + b);
    let statuses = ids.map_values(status);
    let u = unconfirmed_of(ids, statuses);
    let plan = plan_of(u, blocks, headers, tip_height, tip_header);
    lemma_dedup_contains(a + b);
    lemma_unconfirmed_members(ids, statuses);
    lemma_retractions_distinct(a, b, statuses, blocks, headers, tip_height, tip_header);
    assert forall|x: TxId|
        plan.contains(Announcement::Unconfirmed { txid: x }) <==> ((a + b).contains(x) && !is_confirmed(
            status(x),
        )) by {
        if plan.contains(Announcement::Unconfirmed { txid: x }) {
            let k = choose|k: int| 0 <= k < plan.len() && plan[k] == Announcement::<H, T>::Unconfirmed { txid: x };
            assert(k < u.len());
            assert(plan[k] == Announcement::<H, T>::Unconfirmed { txid: u[k] });
            assert(u.contains(x));
            let i = choose|i: int| 0 <= i < ids.len() && ids[i] == x && !is_confirmed(statuses[i]);
            assert(ids.contains(x));
        }
        if (a + b).contains(x) && !is_confirmed(status(x)) {
            assert(ids.contains(x));
            let i = choose|i: int| 0 <= i < ids.len() && ids[i] == x;
            assert(statuses[i] == status(x));
            assert(u.contains(x));
            let k = choose|k: int| 0 <= k < u.len() && u[k] == x;
            assert(plan[k] == Announcement::<H, T>::Unconfirmed { txid: x });
        }
    }
}

/// A transaction none of whose confirmed records has a resolved position in
/// this pass is listed in no confirmed block of the pass.
pub proof fn lemma_unresolved_not_announced<H, T>(
    unconfirmed: Seq<TxId>,
    records: Seq<ConfirmedTx<T>>,
    positions: Seq<Option<usize>>,
    blocks: Seq<BlockTxs<T>>,
    headers: Seq<H>,
    tip_height: u32,
    tip_header: H,
    t: T,
)
    requires
        positions.len() == records.len(),
        flatten(blocks) == sort_records(resolved(records, positions)),
        headers.len() == blocks.len(),
        forall|i: int| 0 <= i < records.len() && (#[trigger] records[i]).tx == t ==> positions[i] is None,
    ensures
        ({
            let plan = plan_of(unconfirmed, blocks, headers, tip_height, tip_header);
            forall|k: int, j: int|
                0 <= k < plan.len() && (#[trigger] plan[k]) is Confirmed && 0 <= j < plan[k]->Confirmed_txs.len()
                    ==> (#[trigger] plan[k]->Confirmed_txs@[j]).1 != t
        }),
{
    let plan = plan_of(unconfirmed, blocks, headers, tip_height, tip_header);
    let rs = resolved(records, positions);
    lemma_resolved_members(records, positions);
    lemma_sort_records(rs);
    assert forall|k: int, j: int|
        0 <= k < plan.len() && (#[trigger] plan[k]) is Confirmed && 0 <= j < plan[k]->Confirmed_txs.len()
            implies (#[trigger] plan[k]->Confirmed_txs@[j]).1 != t by {
        let bi = k - unconfirmed.len();
        assert(0 <= bi < blocks.len());
        assert(plan[k] == Announcement::<H, T>::Confirmed { header: headers[bi], height: blocks[bi].height, txs: blocks[bi].txs });
        lemma_block_entry_in_flatten(blocks, bi, j);
        let x = PositionedTx { height: blocks[bi].height, position: blocks[bi].txs@[j].0, tx: blocks[bi].txs@[j].1 };
        assert(sort_records(rs).to_multiset().count(x) > 0);
        assert(rs.contains(x));
        let i = choose|i: int|
            0 <= i < records.len() && positions[i] == Some(x.position) && records[i].height == x.height
                && records[i].tx == x.tx;
        if x.tx == t {
            assert(positions[i] is None);
        }
    }
}

} // verus!
