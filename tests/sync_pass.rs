use bdk_ldk::announce::{plan_announcements, Announcement};
use bdk_ldk::chain::{status_confirmed, ConfirmedTx, HistoryEntry, TxId, TxStatus};
use bdk_ldk::fee::{fee_per_kw, target_blocks, ConfirmationPriority};
use bdk_ldk::grouper::{augment_with_position, collect_confirmed, group_by_block, BlockTxs, PositionedTx};
use bdk_ldk::registry::TxFilter;
use bdk_ldk::resolver::{
    get_confirmed_tx, get_confirmed_txs_from_script_history, get_unconfirmed, merge_relevant_txids,
};

fn id(n: u8) -> TxId {
    TxId { bytes: [n; 32] }
}

fn confirmed_at(h: u32) -> TxStatus {
    TxStatus { confirmed: true, block_height: Some(h) }
}

fn pending() -> TxStatus {
    TxStatus { confirmed: false, block_height: None }
}

fn header(h: u32) -> String {
    format!("header{}", h)
}

/// A backend model: transactions are named by one byte, their id is that byte
/// repeated.
struct Chain {
    statuses: Vec<(u8, TxStatus)>,
    histories: Vec<(&'static str, Vec<(TxStatus, u8)>)>,
    positions: Vec<(u8, u32, usize)>,
    tip: u32,
}

impl Chain {
    fn status(&self, txid: &TxId) -> Option<TxStatus> {
        self.statuses.iter().find(|(t, _)| id(*t) == *txid).map(|(_, s)| *s)
    }

    fn history(&self, script: &str) -> Vec<HistoryEntry<u8>> {
        self.histories
            .iter()
            .filter(|(s, _)| *s == script)
            .flat_map(|(_, h)| h.iter())
            .map(|(status, tx)| HistoryEntry { status: *status, txid: id(*tx), tx: *tx })
            .collect()
    }

    fn position(&self, tx: u8, height: u32) -> Option<usize> {
        self.positions.iter().find(|(t, h, _)| *t == tx && *h == height).map(|(_, _, p)| *p)
    }
}

type Filter = TxFilter<&'static str, &'static str>;

fn run_pass(chain: &Chain, filter: &Filter, a: Vec<TxId>, b: Vec<TxId>) -> Vec<Announcement<String, u8>> {
    let merged = merge_relevant_txids(a, b);
    let statuses: Vec<Option<TxStatus>> = merged.iter().map(|t| chain.status(t)).collect();
    let unconfirmed = get_unconfirmed(&merged, &statuses);
    let tx_matches: Vec<Option<ConfirmedTx<u8>>> = filter
        .watched_transactions()
        .iter()
        .map(|(t, s)| get_confirmed_tx(t, chain.history(s)))
        .collect();
    let output_matches: Vec<Vec<ConfirmedTx<u8>>> = filter
        .watched_outputs()
        .iter()
        .map(|s| get_confirmed_txs_from_script_history(chain.history(s)))
        .collect();
    let records = collect_confirmed(tx_matches, output_matches);
    let positions: Vec<Option<usize>> = records.iter().map(|r| chain.position(r.tx, r.height)).collect();
    let blocks = group_by_block(augment_with_position(records, &positions));
    let headers: Vec<String> = blocks.iter().map(|b| header(b.height)).collect();
    plan_announcements(unconfirmed, blocks, headers, chain.tip, header(chain.tip))
}

#[test]
fn it_works() {
    let result = 2 + 2;
    assert_eq!(result, 4);
}

#[test]
fn end_to_end_single_confirmed_transaction() {
    let chain = Chain {
        statuses: vec![(7, confirmed_at(100))],
        histories: vec![("S", vec![(confirmed_at(100), 7)])],
        positions: vec![(7, 100, 2)],
        tip: 101,
    };
    let mut filter: Filter = TxFilter::new();
    filter.register_tx(id(7), "S");
    let plan = run_pass(&chain, &filter, vec![], vec![]);
    assert_eq!(
        plan,
        vec![
            Announcement::Confirmed { header: header(100), height: 100, txs: vec![(2, 7)] },
            Announcement::BestBlock { header: header(101), height: 101 },
        ]
    );
}

#[test]
fn unconfirmed_ids_are_retracted_once() {
    let chain = Chain { statuses: vec![], histories: vec![], positions: vec![], tip: 5 };
    let filter: Filter = TxFilter::new();
    let plan = run_pass(&chain, &filter, vec![id(1), id(2), id(2)], vec![id(2), id(3), id(1)]);
    assert_eq!(
        plan,
        vec![
            Announcement::Unconfirmed { txid: id(1) },
            Announcement::Unconfirmed { txid: id(2) },
            Announcement::Unconfirmed { txid: id(3) },
            Announcement::BestBlock { header: header(5), height: 5 },
        ]
    );
}

#[test]
fn unchanged_chain_is_announced_again() {
    let chain = Chain {
        statuses: vec![(4, confirmed_at(50))],
        histories: vec![("A", vec![(confirmed_at(50), 4)])],
        positions: vec![(4, 50, 0)],
        tip: 60,
    };
    let mut filter: Filter = TxFilter::new();
    filter.register_tx(id(4), "A");
    let first = run_pass(&chain, &filter, vec![id(4)], vec![]);
    let second = run_pass(&chain, &filter, vec![id(4)], vec![]);
    let expected = Announcement::Confirmed { header: header(50), height: 50, txs: vec![(0, 4)] };
    assert_eq!(first[0], expected);
    assert_eq!(first, second);
    assert_eq!(first.len(), 2);
}

#[test]
fn reorganised_transaction_is_retracted_then_confirmed_again() {
    let mut filter: Filter = TxFilter::new();
    filter.register_tx(id(9), "R");
    let confirmed = Chain {
        statuses: vec![(9, confirmed_at(10))],
        histories: vec![("R", vec![(confirmed_at(10), 9)])],
        positions: vec![(9, 10, 1)],
        tip: 10,
    };
    let dropped = Chain {
        statuses: vec![(9, pending())],
        histories: vec![("R", vec![(pending(), 9)])],
        positions: vec![],
        tip: 10,
    };
    let again = Chain {
        statuses: vec![(9, confirmed_at(11))],
        histories: vec![("R", vec![(confirmed_at(11), 9)])],
        positions: vec![(9, 11, 3)],
        tip: 11,
    };
    let p1 = run_pass(&confirmed, &filter, vec![], vec![]);
    assert_eq!(p1[0], Announcement::Confirmed { header: header(10), height: 10, txs: vec![(1, 9)] });
    let p2 = run_pass(&dropped, &filter, vec![id(9)], vec![id(9)]);
    assert_eq!(
        p2,
        vec![
            Announcement::Unconfirmed { txid: id(9) },
            Announcement::BestBlock { header: header(10), height: 10 },
        ]
    );
    let p3 = run_pass(&again, &filter, vec![id(9)], vec![]);
    assert_eq!(
        p3,
        vec![
            Announcement::Confirmed { header: header(11), height: 11, txs: vec![(3, 9)] },
            Announcement::BestBlock { header: header(11), height: 11 },
        ]
    );
}

#[test]
fn unresolved_position_waits_for_a_later_pass() {
    let mut filter: Filter = TxFilter::new();
    filter.register_tx(id(3), "P");
    let mut chain = Chain {
        statuses: vec![(3, confirmed_at(20))],
        histories: vec![("P", vec![(confirmed_at(20), 3)])],
        positions: vec![],
        tip: 21,
    };
    let first = run_pass(&chain, &filter, vec![], vec![]);
    assert_eq!(first, vec![Announcement::BestBlock { header: header(21), height: 21 }]);
    chain.positions.push((3, 20, 4));
    let second = run_pass(&chain, &filter, vec![], vec![]);
    assert_eq!(second[0], Announcement::Confirmed { header: header(20), height: 20, txs: vec![(4, 3)] });
}

#[test]
fn register_output_returns_nothing_even_with_history() {
    let chain = Chain {
        statuses: vec![(5, confirmed_at(30))],
        histories: vec![("O", vec![(confirmed_at(30), 5)])],
        positions: vec![(5, 30, 0)],
        tip: 30,
    };
    let mut filter: Filter = TxFilter::new();
    let r: Option<(usize, u8)> = filter.register_output("O");
    assert!(r.is_none());
    assert_eq!(filter.watched_outputs(), &vec!["O"]);
    let plan = run_pass(&chain, &filter, vec![], vec![]);
    assert_eq!(plan[0], Announcement::Confirmed { header: header(30), height: 30, txs: vec![(0, 5)] });
}

#[test]
fn empty_pass_announces_only_the_tip() {
    let chain = Chain { statuses: vec![], histories: vec![], positions: vec![], tip: 0 };
    let filter: Filter = TxFilter::default();
    assert!(filter.watched_transactions().is_empty());
    let plan = run_pass(&chain, &filter, vec![], vec![]);
    assert_eq!(plan, vec![Announcement::BestBlock { header: header(0), height: 0 }]);
}

#[test]
fn transaction_found_by_both_watches_is_kept_twice() {
    let chain = Chain {
        statuses: vec![(6, confirmed_at(40))],
        histories: vec![("D", vec![(confirmed_at(40), 6)])],
        positions: vec![(6, 40, 1)],
        tip: 40,
    };
    let mut filter: Filter = TxFilter::new();
    filter.register_tx(id(6), "D");
    let _: Option<(usize, u8)> = filter.register_output("D");
    let plan = run_pass(&chain, &filter, vec![], vec![]);
    assert_eq!(plan[0], Announcement::Confirmed { header: header(40), height: 40, txs: vec![(1, 6), (1, 6)] });
}

#[test]
fn blocks_ascend_by_height_and_position() {
    let records = vec![
        PositionedTx { height: 200, position: 5, tx: 'a' },
        PositionedTx { height: 100, position: 1, tx: 'b' },
        PositionedTx { height: 200, position: 3, tx: 'c' },
        PositionedTx { height: 200, position: 3, tx: 'd' },
        PositionedTx { height: 150, position: 0, tx: 'e' },
    ];
    let blocks = group_by_block(records);
    assert_eq!(
        blocks,
        vec![
            BlockTxs { height: 100, txs: vec![(1, 'b')] },
            BlockTxs { height: 150, txs: vec![(0, 'e')] },
            BlockTxs { height: 200, txs: vec![(3, 'c'), (3, 'd'), (5, 'a')] },
        ]
    );
}

#[test]
fn announcements_keep_protocol_order() {
    let blocks = vec![BlockTxs { height: 3, txs: vec![(0, 'x')] }, BlockTxs { height: 4, txs: vec![(2, 'y')] }];
    let plan = plan_announcements(vec![id(1)], blocks, vec!["h3", "h4"], 4, "h4");
    assert_eq!(
        plan,
        vec![
            Announcement::Unconfirmed { txid: id(1) },
            Announcement::Confirmed { header: "h3", height: 3, txs: vec![(0, 'x')] },
            Announcement::Confirmed { header: "h4", height: 4, txs: vec![(2, 'y')] },
            Announcement::BestBlock { header: "h4", height: 4 },
        ]
    );
}

#[test]
fn confirmed_match_needs_the_same_id() {
    let history = vec![
        HistoryEntry { status: confirmed_at(7), txid: id(2), tx: 2u8 },
        HistoryEntry { status: pending(), txid: id(1), tx: 1u8 },
        HistoryEntry { status: confirmed_at(8), txid: id(1), tx: 11u8 },
        HistoryEntry { status: confirmed_at(9), txid: id(1), tx: 12u8 },
    ];
    assert_eq!(get_confirmed_tx(&id(1), history), Some(ConfirmedTx { height: 8, tx: 11u8 }));
    let none: Vec<HistoryEntry<u8>> = vec![HistoryEntry { status: confirmed_at(7), txid: id(2), tx: 2 }];
    assert_eq!(get_confirmed_tx(&id(1), none), None);
}

#[test]
fn confirmed_without_height_is_left_out() {
    let odd = TxStatus { confirmed: true, block_height: None };
    let history = vec![
        HistoryEntry { status: odd, txid: id(1), tx: 1u8 },
        HistoryEntry { status: pending(), txid: id(2), tx: 2u8 },
        HistoryEntry { status: confirmed_at(3), txid: id(3), tx: 3u8 },
    ];
    assert_eq!(get_confirmed_txs_from_script_history(history), vec![ConfirmedTx { height: 3, tx: 3u8 }]);
}

#[test]
fn missing_status_counts_as_unconfirmed() {
    assert!(!status_confirmed(&None));
    assert!(status_confirmed(&Some(confirmed_at(1))));
    let ids = vec![id(1), id(2), id(3)];
    let statuses = vec![None, Some(confirmed_at(4)), Some(pending())];
    assert_eq!(get_unconfirmed(&ids, &statuses), vec![id(1), id(3)]);
}

#[test]
fn positions_drop_unresolved_records() {
    let records = vec![ConfirmedTx { height: 1, tx: 'a' }, ConfirmedTx { height: 2, tx: 'b' }];
    let out = augment_with_position(records, &vec![None, Some(7)]);
    assert_eq!(out, vec![PositionedTx { height: 2, position: 7, tx: 'b' }]);
}

#[test]
fn txids_compare_by_every_byte() {
    let mut other = [3u8; 32];
    other[31] = 4;
    assert!(id(3).same_as(&id(3)));
    assert!(!id(3).same_as(&TxId { bytes: other }));
}

#[test]
fn fee_tiers_map_to_target_blocks() {
    assert_eq!(target_blocks(ConfirmationPriority::Background), 6);
    assert_eq!(target_blocks(ConfirmationPriority::Normal), 3);
    assert_eq!(target_blocks(ConfirmationPriority::HighPriority), 1);
}

#[test]
fn fee_rate_scales_by_two_hundred_fifty() {
    assert_eq!(fee_per_kw(Some(4)), 1000);
    assert_eq!(fee_per_kw(Some(0)), 0);
    assert_eq!(fee_per_kw(None), 250);
    assert_eq!(fee_per_kw(Some(u32::MAX)), u32::MAX);
    assert_eq!(fee_per_kw(Some(17179869)), 4294967250);
}
