//! Block grouping: confirmed transactions with a resolved in-block position,
//! ordered by height then position and gathered into one list per block.
use vstd::prelude::*;
use crate::chain::ConfirmedTx;

verus! {

broadcast use vstd::seq_lib::group_seq_properties;

/// A confirmed transaction with its height and its position inside its block.
#[derive(PartialEq, Eq, Debug)]
pub struct PositionedTx<T> {
    pub height: u32,
    pub position: usize,
    pub tx: T,
}

/// The transactions of one block, as (position, transaction) pairs.
#[derive(PartialEq, Eq, Debug)]
pub struct BlockTxs<T> {
    pub height: u32,
    pub txs: Vec<(usize, T)>,
}

/// Order of delivery: by height, then by position in the block.
pub open spec fn precedes<T>(a: PositionedTx<T>, b: PositionedTx<T>) -> bool {
    a.height < b.height || (a.height == b.height && a.position <= b.position)
}

pub open spec fn is_ordered<T>(s: Seq<PositionedTx<T>>) -> bool {
    forall|i: int, j: int| 0 <= i < j < s.len() ==> precedes(#[trigger] s[i], #[trigger] s[j])
}

/// Positions that never decrease along a block's list.
pub open spec fn positions_ascending<T>(txs: Seq<(usize, T)>) -> bool {
    forall|a: int, b: int| 0 <= a < b < txs.len() ==> (#[trigger] txs[a]).0 <= (#[trigger] txs[b]).0
}

/// The records whose position lookup (same index in `positions`) succeeded,
/// each with its position, in order.
pub open spec fn resolved<T>(records: Seq<ConfirmedTx<T>>, positions: Seq<Option<usize>>) -> Seq<PositionedTx<T>>
    decreases records.len(),
{
    if records.len() == 0 || positions.len() != records.len() {
        Seq::empty()
    } else {
        let rest = resolved(records.drop_last(), positions.drop_last());
        match positions.last() {
            Some(p) => rest.push(PositionedTx { height: records.last().height, position: p, tx: records.last().tx }),
            None => rest,
        }
    }
}

/// `x` placed after every element of `s` that does not come after it.
pub open spec fn insert_ordered<T>(s: Seq<PositionedTx<T>>, x: PositionedTx<T>) -> Seq<PositionedTx<T>>
    decreases s.len(),
{
    if s.len() == 0 {
        seq![x]
    } else if precedes(s.last(), x) {
        s.push(x)
    } else {
        insert_ordered(s.drop_last(), x).push(s.last())
    }
}

/// Stable insertion order of `s` by height, then position.
pub open spec fn sort_records<T>(s: Seq<PositionedTx<T>>) -> Seq<PositionedTx<T>>
    decreases s.len(),
{
    if s.len() == 0 {
        Seq::empty()
    } else {
        insert_ordered(sort_records(s.drop_last()), s.last())
    }
}

/// The (position, transaction) pairs of one block as records at `height`.
pub open spec fn entries_at<T>(height: u32, txs: Seq<(usize, T)>) -> Seq<PositionedTx<T>> {
    txs.map_values(|p: (usize, T)| PositionedTx { height, position: p.0, tx: p.1 })
}

/// All records of a list of blocks, block after block.
pub open spec fn flatten<T>(blocks: Seq<BlockTxs<T>>) -> Seq<PositionedTx<T>>
    decreases blocks.len(),
{
    if blocks.len() == 0 {
        Seq::empty()
    } else {
        flatten(blocks.drop_last()) + entries_at(blocks.last().height, blocks.last().txs@)
    }
}

proof fn lemma_insert_at<T>(s: Seq<PositionedTx<T>>, x: PositionedTx<T>, j: int)
    requires
        0 <= j <= s.len(),
        j == 0 || precedes(s[j - 1], x),
        forall|k: int| j <= k < s.len() ==> !precedes(#[trigger] s[k], x),
    ensures
        insert_ordered(s, x) == s.take(j).push(x) + s.skip(j),
    decreases s.len(),
{
    if s.len() == 0 {
        assert(s.take(j).push(x) + s.skip(j) =~= seq![x]);
    } else if precedes(s.last(), x) {
        assert(j == s.len()) by {
            if j < s.len() {
                assert(!precedes(s[s.len() - 1], x));
            }
        }
        assert(s.take(j).push(x) + s.skip(j) =~= s.push(x));
    } else {
        let d = s.drop_last();
        assert(j < s.len());
        lemma_insert_at(d, x, j);
        assert(d.take(j).push(x) + d.skip(j) + seq![s.last()] =~= s.take(j).push(x) + s.skip(j));
        assert(insert_ordered(s, x) =~= insert_ordered(d, x).push(s.last()));
    }
}

proof fn lemma_insert_ordered_facts<T>(s: Seq<PositionedTx<T>>, x: PositionedTx<T>)
    ensures
        insert_ordered(s, x).to_multiset() == s.to_multiset().insert(x),
        is_ordered(s) ==> is_ordered(insert_ordered(s, x)),
    decreases s.len(),
{
    if s.len() == 0 {
        assert(seq![x] =~= Seq::<PositionedTx<T>>::empty().push(x));
    } else {
        let d = s.drop_last();
        assert(s =~= d.push(s.last()));
        if !precedes(s.last(), x) {
            lemma_insert_ordered_facts(d, x);
            let r = insert_ordered(d, x);
            assert(insert_ordered(s, x).to_multiset() =~= s.to_multiset().insert(x));
            if is_ordered(s) {
                assert forall|i: int, j: int| 0 <= i < j < r.len() + 1 implies precedes(
                    #[trigger] r.push(s.last())[i],
                    #[trigger] r.push(s.last())[j],
                ) by {
                    if j == r.len() {
                        assert(r.to_multiset().count(r[i]) > 0);
                        assert(r.contains(r[i]));
                        if r[i] != x {
                            assert(d.to_multiset().count(r[i]) > 0);
                            let k = choose|k: int| 0 <= k < d.len() && d[k] == r[i];
                            assert(precedes(s[k], s[s.len() - 1]));
                        }
                    }
                }
            }
        } else if is_ordered(s) {
            assert forall|i: int, j: int| 0 <= i < j < s.len() + 1 implies precedes(
                #[trigger] s.push(x)[i],
                #[trigger] s.push(x)[j],
            ) by {
                if j == s.len() && i < s.len() - 1 {
                    assert(precedes(s[i], s[s.len() - 1]));
                }
            }
        }
    }
}

/// Sorting keeps every record, as often as it occurs, and orders them by
/// height, then position.
pub proof fn lemma_sort_records<T>(s: Seq<PositionedTx<T>>)
    ensures
        sort_records(s).to_multiset() == s.to_multiset(),
        is_ordered(sort_records(s)),
    decreases s.len(),
{
    if s.len() > 0 {
        let d = s.drop_last();
        lemma_sort_records(d);
        lemma_insert_ordered_facts(sort_records(d), s.last());
        assert(s =~= d.push(s.last()));
    }
}

/// Keeps the records whose position lookup succeeded (`positions[i]` for
/// `records[i]`), each with its position; the others are left out of this
/// pass.
pub fn augment_with_position<T>(records: Vec<ConfirmedTx<T>>, positions: &Vec<Option<usize>>) -> (r: Vec<PositionedTx<T>>)
    requires
        positions.len() == records.len(),
    ensures
        r@ == resolved(records@, positions@),
{
    let n = records.len();
    let mut h = records;
    let mut out: Vec<PositionedTx<T>> = Vec::new();
    let ghost k: int = 0;
    while h.len() > 0
        invariant
            0 <= k <= records.len(),
            n == records.len(),
            positions.len() == records.len(),
            h@ == records@.skip(k),
            out@ == resolved(records@.take(k), positions@.take(k)),
        decreases h.len(),
    {
        let e = h.remove(0);
        let i = n - h.len() - 1;
        assert(i == k);
        assert(records@.take(k + 1).drop_last() =~= records@.take(k));
        assert(positions@.take(k + 1).drop_last() =~= positions@.take(k));
        assert(records@[k] == e);
        match positions[i] {
            Some(position) => {
                out.push(PositionedTx { height: e.height, position, tx: e.tx });
            },
            None => {},
        }
        proof {
            k = k + 1;
        }
        assert(h@ =~= records@.skip(k));
    }
    assert(records@.take(k) =~= records@);
    assert(positions@.take(k) =~= positions@);
    out
}

fn ordered_before<T>(a: &PositionedTx<T>, b: &PositionedTx<T>) -> (r: bool)
    ensures
        r == precedes(*a, *b),
{
    a.height < b.height || (a.height == b.height && a.position <= b.position)
}

/// Orders records by height, then position; records with equal height and
/// position keep their order.
pub fn sort_by_block_position<T>(records: Vec<PositionedTx<T>>) -> (r: Vec<PositionedTx<T>>)
    ensures
        r@ == sort_records(records@),
        is_ordered(r@),
        r@.to_multiset() == records@.to_multiset(),
{
    let mut h = records;
    let mut out: Vec<PositionedTx<T>> = Vec::new();
    let ghost k: int = 0;
    while h.len() > 0
        invariant
            0 <= k <= records.len(),
            h@ == records@.skip(k),
            out@ == sort_records(records@.take(k)),
        decreases h.len(),
    {
        let x = h.remove(0);
        assert(records@.take(k + 1).drop_last() =~= records@.take(k));
        assert(records@[k] == x);
        let mut j: usize = out.len();
        while j > 0 && !ordered_before(&out[j - 1], &x)
            invariant
                j <= out.len(),
                forall|m: int| j <= m < out.len() ==> !precedes(#[trigger] out@[m], x),
            decreases j,
        {
            j = j - 1;
        }
        proof {
            lemma_insert_at(out@, x, j as int);
        }
        let ghost before = out@;
        out.insert(j, x);
        assert(out@ =~= before.take(j as int).push(x) + before.skip(j as int));
        proof {
            k = k + 1;
        }
        assert(h@ =~= records@.skip(k));
    }
    assert(records@.take(k) =~= records@);
    proof {
        lemma_sort_records(records@);
    }
    out
}

/// Gathers records already in delivery order into one list per block: blocks
/// by strictly ascending height, none empty, each in ascending position.
pub fn group_sorted<T>(records: Vec<PositionedTx<T>>) -> (r: Vec<BlockTxs<T>>)
    requires
        is_ordered(records@),
    ensures
        flatten(r@) == records@,
        forall|i: int, j: int| 0 <= i < j < r.len() ==> r@[i].height < r@[j].height,
        forall|i: int| 0 <= i < r.len() ==> (#[trigger] r@[i]).txs.len() > 0,
        forall|i: int| 0 <= i < r.len() ==> positions_ascending(#[trigger] r@[i].txs@),
{
    let mut h = records;
    let mut blocks: Vec<BlockTxs<T>> = Vec::new();
    let mut cur: Vec<(usize, T)> = Vec::new();
    let mut cur_height: u32 = 0;
    let ghost k: int = 0;
    while h.len() > 0
        invariant
            0 <= k <= records.len(),
            is_ordered(records@),
            h@ == records@.skip(k),
            flatten(blocks@) + entries_at(cur_height, cur@) == records@.take(k),
            k == 0 <==> cur.len() == 0,
            k > 0 ==> cur_height == records@[k - 1].height && cur@.last().0 == records@[k - 1].position,
            forall|i: int, j: int| 0 <= i < j < blocks.len() ==> blocks@[i].height < blocks@[j].height,
            forall|i: int| 0 <= i < blocks.len() ==> blocks@[i].height < cur_height,
            forall|i: int| 0 <= i < blocks.len() ==> (#[trigger] blocks@[i]).txs.len() > 0,
            forall|i: int| 0 <= i < blocks.len() ==> positions_ascending(#[trigger] blocks@[i].txs@),
            positions_ascending(cur@),
        decreases h.len(),
    {
        let x = h.remove(0);
        assert(records@[k] == x);
        assert(records@.take(k + 1) =~= records@.take(k).push(x));
        proof {
            if k > 0 {
                assert(precedes(records@[k - 1], records@[k]));
            }
        }
        if cur.len() == 0 || x.height == cur_height {
            let ghost before = cur@;
            let ghost old_height = cur_height;
            cur.push((x.position, x.tx));
            cur_height = x.height;
            assert(entries_at(old_height, before) =~= entries_at(cur_height, before));
            assert(entries_at(cur_height, cur@) =~= entries_at(cur_height, before).push(x));
        } else {
            let ghost old_blocks = blocks@;
            let ghost old_cur = cur@;
            let ghost old_height = cur_height;
            let mut full: Vec<(usize, T)> = Vec::new();
            std::mem::swap(&mut cur, &mut full);
            blocks.push(BlockTxs { height: cur_height, txs: full });
            assert(blocks@.drop_last() =~= old_blocks);
            assert(flatten(blocks@) == flatten(old_blocks) + entries_at(old_height, old_cur));
            cur.push((x.position, x.tx));
            cur_height = x.height;
            assert(entries_at(cur_height, cur@) =~= seq![x]);
            assert(flatten(blocks@) + entries_at(cur_height, cur@) =~= records@.take(k).push(x));
        }
        proof {
            k = k + 1;
        }
        assert(h@ =~= records@.skip(k));
    }
    if cur.len() > 0 {
        let ghost old_blocks = blocks@;
        blocks.push(BlockTxs { height: cur_height, txs: cur });
        assert(blocks@.drop_last() =~= old_blocks);
    }
    assert(records@.take(k) =~= records@);
    blocks
}

/// Groups the records of one pass into per-block announcements: blocks by
/// strictly ascending height, none empty, each in ascending position, every
/// record delivered once, records of equal height and position in the order
/// given.
pub fn group_by_block<T>(records: Vec<PositionedTx<T>>) -> (r: Vec<BlockTxs<T>>)
    ensures
        flatten(r@) == sort_records(records@),
        flatten(r@).to_multiset() == records@.to_multiset(),
        forall|i: int, j: int| 0 <= i < j < r.len() ==> r@[i].height < r@[j].height,
        forall|i: int| 0 <= i < r.len() ==> (#[trigger] r@[i]).txs.len() > 0,
        forall|i: int| 0 <= i < r.len() ==> positions_ascending(#[trigger] r@[i].txs@),
{
    let sorted = sort_by_block_position(records);
    group_sorted(sorted)
}

/// A record is resolved exactly when its own position lookup succeeded:
/// a record whose lookup fails is left out, one whose lookup succeeds is in.
pub proof fn lemma_resolved_members<T>(records: Seq<ConfirmedTx<T>>, positions: Seq<Option<usize>>)
    requires
        positions.len() == records.len(),
    ensures
        forall|x: PositionedTx<T>|
            resolved(records, positions).contains(x) <==> exists|i: int|
                0 <= i < records.len() && positions[i] == Some(x.position) && records[i].height
                    == x.height && records[i].tx == x.tx,
    decreases records.len(),
{
    if records.len() > 0 {
        let p = records.drop_last();
        let q = positions.drop_last();
        let n = records.len() - 1;
        lemma_resolved_members(p, q);
        assert forall|x: PositionedTx<T>|
            resolved(records, positions).contains(x) <==> exists|i: int|
                0 <= i < records.len() && positions[i] == Some(x.position) && records[i].height
                    == x.height && records[i].tx == x.tx by {
            if resolved(p, q).contains(x) {
                let i = choose|i: int|
                    0 <= i < p.len() && q[i] == Some(x.position) && p[i].height == x.height
                        && p[i].tx == x.tx;
                assert(positions[i] == Some(x.position) && records[i] == p[i]);
            }
            if exists|i: int|
                0 <= i < records.len() && positions[i] == Some(x.position) && records[i].height
                    == x.height && records[i].tx == x.tx {
                let i = choose|i: int|
                    0 <= i < records.len() && positions[i] == Some(x.position) && records[i].height
                        == x.height && records[i].tx == x.tx;
                if i < n {
                    assert(q[i] == Some(x.position) && p[i] == records[i]);
                    assert(resolved(p, q).contains(x));
                } else {
                    assert(resolved(records, positions).last() == x);
                }
            }
        }
    }
}

/// Every record of a list of blocks stands, with its position, in the block
/// of its height.
pub proof fn lemma_flatten_members<T>(blocks: Seq<BlockTxs<T>>, x: PositionedTx<T>)
    requires
        flatten(blocks).contains(x),
    ensures
        exists|i: int, j: int|
            0 <= i < blocks.len() && 0 <= j < blocks[i].txs.len() && blocks[i].height == x.height
                && #[trigger] blocks[i].txs@[j] == (x.position, x.tx),
    decreases blocks.len(),
{
    let d = blocks.drop_last();
    let last = blocks.last();
    let e = entries_at(last.height, last.txs@);
    let k = choose|k: int| 0 <= k < flatten(blocks).len() && flatten(blocks)[k] == x;
    if k < flatten(d).len() {
        assert(flatten(d)[k] == x);
        lemma_flatten_members(d, x);
        let (i, j) = choose|i: int, j: int|
            0 <= i < d.len() && 0 <= j < d[i].txs.len() && d[i].height == x.height
                && #[trigger] d[i].txs@[j] == (x.position, x.tx);
        assert(blocks[i] == d[i]);
    } else {
        let j = k - flatten(d).len();
        assert(e[j] == x);
        let n = blocks.len() - 1;
        assert(blocks[n].txs@[j] == (x.position, x.tx));
    }
}

/// Every (position, transaction) pair of a block stands among the records of
/// the list of blocks, at that block's height.
pub proof fn lemma_block_entry_in_flatten<T>(blocks: Seq<BlockTxs<T>>, bi: int, j: int)
    requires
        0 <= bi < blocks.len(),
        0 <= j < blocks[bi].txs.len(),
    ensures
        flatten(blocks).contains(
            PositionedTx { height: blocks[bi].height, position: blocks[bi].txs@[j].0, tx: blocks[bi].txs@[j].1 },
        ),
    decreases blocks.len(),
{
    let d = blocks.drop_last();
    let x = PositionedTx { height: blocks[bi].height, position: blocks[bi].txs@[j].0, tx: blocks[bi].txs@[j].1 };
    if bi < d.len() {
        assert(d[bi] == blocks[bi]);
        lemma_block_entry_in_flatten(d, bi, j);
        let k = choose|k: int| 0 <= k < flatten(d).len() && flatten(d)[k] == x;
        assert(flatten(blocks)[k] == x);
    } else {
        let e = entries_at(blocks.last().height, blocks.last().txs@);
        assert(e[j] == x);
        assert(flatten(blocks)[flatten(d).len() + j] == x);
    }
}

/// Confirmed matches of the watched transactions (one lookup each, absent
/// where none), then all confirmed entries of the watched outputs' scripts,
/// in order and without deduplication.
pub open spec fn collected<T>(tx_matches: Seq<Option<ConfirmedTx<T>>>, output_matches: Seq<Vec<ConfirmedTx<T>>>) -> Seq<ConfirmedTx<T>> {
    present(tx_matches) + concat(output_matches)
}

pub open spec fn present<T>(s: Seq<Option<ConfirmedTx<T>>>) -> Seq<ConfirmedTx<T>>
    decreases s.len(),
{
    if s.len() == 0 {
        Seq::empty()
    } else {
        match s.last() {
            Some(c) => present(s.drop_last()).push(c),
            None => present(s.drop_last()),
        }
    }
}

pub open spec fn concat<T>(s: Seq<Vec<ConfirmedTx<T>>>) -> Seq<ConfirmedTx<T>>
    decreases s.len(),
{
    if s.len() == 0 {
        Seq::empty()
    } else {
        concat(s.drop_last()) + s.last()@
    }
}

/// Unites the confirmed findings of the transaction watches and of the output
/// watches into one list; a transaction found by both stays twice.
pub fn collect_confirmed<T>(tx_matches: Vec<Option<ConfirmedTx<T>>>, output_matches: Vec<Vec<ConfirmedTx<T>>>) -> (r: Vec<ConfirmedTx<T>>)
    ensures
        r@ == collected(tx_matches@, output_matches@),
{
    let mut out: Vec<ConfirmedTx<T>> = Vec::new();
    let mut h = tx_matches;
    let ghost k: int = 0;
    while h.len() > 0
        invariant
            0 <= k <= tx_matches.len(),
            h@ == tx_matches@.skip(k),
            out@ == present(tx_matches@.take(k)),
        decreases h.len(),
    {
        let e = h.remove(0);
        assert(tx_matches@.take(k + 1).drop_last() =~= tx_matches@.take(k));
        assert(tx_matches@[k] == e);
        match e {
            Some(c) => {
                out.push(c);
            },
            None => {},
        }
        proof {
            k = k + 1;
        }
        assert(h@ =~= tx_matches@.skip(k));
    }
    assert(tx_matches@.take(k) =~= tx_matches@);
    let ghost first = out@;
    let mut g = output_matches;
    let ghost m: int = 0;
    while g.len() > 0
        invariant
            0 <= m <= output_matches.len(),
            g@ == output_matches@.skip(m),
            out@ == first + concat(output_matches@.take(m)),
        decreases g.len(),
    {
        let mut e = g.remove(0);
        assert(output_matches@.take(m + 1).drop_last() =~= output_matches@.take(m));
        assert(output_matches@[m] == e);
        out.append(&mut e);
        assert(out@ =~= first + concat(output_matches@.take(m + 1)));
        proof {
            m = m + 1;
        }
        assert(g@ =~= output_matches@.skip(m));
    }
    assert(output_matches@.take(m) =~= output_matches@);
    out
}

/// Blocks by strictly ascending height, none empty.
pub open spec fn well_grouped<T>(b: Seq<BlockTxs<T>>) -> bool {
    &&& forall|i: int, j: int| 0 <= i < j < b.len() ==> b[i].height < b[j].height
    &&& forall|i: int| 0 <= i < b.len() ==> (#[trigger] b[i]).txs.len() > 0
}

proof fn lemma_flatten_heights_below<T>(b: Seq<BlockTxs<T>>, bound: u32)
    requires
        forall|i: int| 0 <= i < b.len() ==> (#[trigger] b[i]).height < bound,
    ensures
        forall|k: int| 0 <= k < flatten(b).len() ==> (#[trigger] flatten(b)[k]).height < bound,
    decreases b.len(),
{
    if b.len() > 0 {
        let d = b.drop_last();
        lemma_flatten_heights_below(d, bound);
        let f = flatten(b);
        assert forall|k: int| 0 <= k < f.len() implies (#[trigger] f[k]).height < bound by {
            if k < flatten(d).len() {
                assert(f[k] == flatten(d)[k]);
            } else {
                assert(b[b.len() - 1].height < bound);
            }
        }
    }
}

/// The grouping of a sequence of records is unique: two lists of blocks by
/// strictly ascending height, none empty, that hold the same records in the
/// same order are the same blocks. So two passes over an unchanged chain
/// announce the same blocks with the same contents.
pub proof fn lemma_grouping_unique<T>(b1: Seq<BlockTxs<T>>, b2: Seq<BlockTxs<T>>)
    requires
        well_grouped(b1),
        well_grouped(b2),
        flatten(b1) == flatten(b2),
    ensures
        b1.len() == b2.len(),
        forall|i: int| 0 <= i < b1.len() ==> b1[i].height == b2[i].height && b1[i].txs@ == b2[i].txs@,
    decreases b1.len() + b2.len(),
{
    let s = flatten(b1);
    if b1.len() == 0 || b2.len() == 0 {
        if b1.len() > 0 {
            assert(flatten(b1).len() > 0);
        }
        if b2.len() > 0 {
            assert(flatten(b2).len() > 0);
        }
    } else {
        let d1 = b1.drop_last();
        let d2 = b2.drop_last();
        let l1 = b1.last();
        let l2 = b2.last();
        let e1 = entries_at(l1.height, l1.txs@);
        let e2 = entries_at(l2.height, l2.txs@);
        let n1 = l1.txs.len() as int;
        let n2 = l2.txs.len() as int;
        assert(l1.txs.len() > 0 && l2.txs.len() > 0);
        assert(s.last() == e1.last() && s.last() == e2.last());
        let h = l1.height;
        assert(l2.height == h);
        lemma_flatten_heights_below(d1, h);
        lemma_flatten_heights_below(d2, h);
        assert(flatten(d1).len() == s.len() - n1);
        assert(flatten(d2).len() == s.len() - n2);
        if n1 < n2 {
            let k = s.len() - n1 - 1;
            assert(s[k] == flatten(d1)[k]);
            assert(s[k] == e2[k - (s.len() - n2)]);
        }
        if n2 < n1 {
            let k = s.len() - n2 - 1;
            assert(s[k] == flatten(d2)[k]);
            assert(s[k] == e1[k - (s.len() - n1)]);
        }
        assert(n1 == n2);
        assert(l1.txs@ =~= l2.txs@) by {
            assert forall|k: int| 0 <= k < n1 implies l1.txs@[k] == l2.txs@[k] by {
                assert(s[s.len() - n1 + k] == e1[k]);
                assert(s[s.len() - n1 + k] == e2[k]);
            }
        }
        assert(flatten(d1) =~= s.take(s.len() - n1));
        assert(flatten(d2) =~= s.take(s.len() - n1));
        lemma_grouping_unique(d1, d2);
        assert forall|i: int| 0 <= i < b1.len() implies b1[i].height == b2[i].height && b1[i].txs@ == b2[i].txs@ by {
            if i < d1.len() {
                assert(b1[i] == d1[i] && b2[i] == d2[i]);
            }
        }
    }
}

} // verus!
