use bitcoin_dashboard::mempool::{
    mempool_sample_size, mempool_transactions_page, sort_plan, sort_transactions,
    summarize_fee_rates, FeeRate, MempoolTxRecord, MempoolTxsParams, SortPlan,
};

fn tx(txid: &str, vsize: u64, weight: u64, time: u64, height: u64, fee_sat: u64) -> MempoolTxRecord {
    MempoolTxRecord::from_entry(txid.to_string(), vsize, Some(weight), time, height, fee_sat, 0, 0, false)
}

fn sample() -> Vec<MempoolTxRecord> {
    vec![
        tx("c1", 200, 800, 30, 101, 400),  // rate 2
        tx("a2", 100, 400, 10, 100, 500),  // rate 5
        tx("b3", 300, 1200, 20, 102, 300), // rate 1
        tx("a1", 100, 400, 40, 100, 200),  // rate 2
    ]
}

fn ids(v: &[MempoolTxRecord]) -> Vec<&str> {
    v.iter().map(|t| t.txid.as_str()).collect()
}

fn order(col: &str, dir: &str) -> Option<Vec<Vec<String>>> {
    Some(vec![vec![col.to_string(), dir.to_string()]])
}

#[test]
fn unknown_weight_reads_as_zero() {
    let t = MempoolTxRecord::from_entry("x".to_string(), 1, None, 2, 3, 4, 5, 6, true);
    assert_eq!(t.weight, 0);
    assert_eq!(t.ancestor_count, 5);
    assert_eq!(t.descendant_count, 6);
    assert!(t.bip125_replaceable);
}

#[test]
fn plans() {
    assert!(matches!(sort_plan(&None), SortPlan::By { column: 5, descending: true }));
    assert!(matches!(sort_plan(&order("0", "asc")), SortPlan::By { column: 0, descending: false }));
    assert!(matches!(sort_plan(&order("3", "desc")), SortPlan::By { column: 3, descending: true }));
    assert!(matches!(sort_plan(&order("3", "ASC")), SortPlan::By { column: 3, descending: true }));
    assert!(matches!(sort_plan(&order("x", "asc")), SortPlan::By { column: 5, descending: false }));
    assert!(matches!(sort_plan(&order("9", "asc")), SortPlan::By { column: 5, descending: true }));
    assert!(matches!(sort_plan(&Some(vec![])), SortPlan::Keep));
    assert!(matches!(sort_plan(&Some(vec![vec!["1".to_string()]])), SortPlan::Keep));
}

#[test]
fn default_order_is_fee_rate_highest_first_and_stable() {
    let out = sort_transactions(sample(), SortPlan::By { column: 5, descending: true });
    assert_eq!(ids(&out), vec!["a2", "c1", "a1", "b3"]);
}

#[test]
fn fee_rate_ascending_keeps_ties_in_order() {
    let out = sort_transactions(sample(), SortPlan::By { column: 5, descending: false });
    assert_eq!(ids(&out), vec!["b3", "c1", "a1", "a2"]);
}

#[test]
fn txid_order() {
    let asc = sort_transactions(sample(), SortPlan::By { column: 0, descending: false });
    assert_eq!(ids(&asc), vec!["a1", "a2", "b3", "c1"]);
    let desc = sort_transactions(sample(), SortPlan::By { column: 0, descending: true });
    assert_eq!(ids(&desc), vec!["c1", "b3", "a2", "a1"]);
}

#[test]
fn numeric_columns() {
    let by_vsize = sort_transactions(sample(), SortPlan::By { column: 1, descending: false });
    assert_eq!(ids(&by_vsize), vec!["a2", "a1", "c1", "b3"]);
    let by_weight = sort_transactions(sample(), SortPlan::By { column: 2, descending: true });
    assert_eq!(ids(&by_weight), vec!["b3", "c1", "a2", "a1"]);
    let by_time = sort_transactions(sample(), SortPlan::By { column: 3, descending: false });
    assert_eq!(ids(&by_time), vec!["a2", "b3", "c1", "a1"]);
    let by_height = sort_transactions(sample(), SortPlan::By { column: 4, descending: true });
    assert_eq!(ids(&by_height), vec!["b3", "c1", "a2", "a1"]);
}

#[test]
fn keep_plan_keeps_order() {
    let out = sort_transactions(sample(), SortPlan::Keep);
    assert_eq!(ids(&out), vec!["c1", "a2", "b3", "a1"]);
}

#[test]
fn empty_size_rates_as_zero() {
    let txs = vec![tx("z", 0, 0, 0, 0, 1000), tx("p", 10, 40, 0, 0, 1)];
    let out = sort_transactions(txs, SortPlan::By { column: 5, descending: true });
    assert_eq!(ids(&out), vec!["p", "z"]);
}

#[test]
fn fee_rates_compare_exactly() {
    // 1/3 and 333/1000 differ by less than a thousandth
    let txs = vec![tx("third", 3, 12, 0, 0, 1), tx("p333", 1000, 4000, 0, 0, 333)];
    let out = sort_transactions(txs, SortPlan::By { column: 5, descending: true });
    assert_eq!(ids(&out), vec!["third", "p333"]);
}

#[test]
fn page_of_sorted_rows() {
    let params = MempoolTxsParams { draw: 3, start: Some(1), length: Some(2), order: None };
    let r = mempool_transactions_page(sample(), &params);
    assert_eq!(r.draw, 3);
    assert_eq!(r.records_total, 4);
    assert_eq!(r.records_filtered, 4);
    assert_eq!(ids(&r.data), vec!["c1", "a1"]);
}

#[test]
fn page_past_end_of_rows() {
    let params = MempoolTxsParams { draw: 1, start: Some(10), length: None, order: order("0", "asc") };
    let r = mempool_transactions_page(sample(), &params);
    assert_eq!(r.records_total, 4);
    assert!(r.data.is_empty());
}

#[test]
fn sample_size_is_at_most_a_thousand() {
    assert_eq!(mempool_sample_size(0), 0);
    assert_eq!(mempool_sample_size(999), 999);
    assert_eq!(mempool_sample_size(1000), 1000);
    assert_eq!(mempool_sample_size(50000), 1000);
}

#[test]
fn fee_rate_summary() {
    let entries = vec![
        Some(FeeRate { fee_sat: 400, vsize: 200 }),
        None,
        Some(FeeRate { fee_sat: 9, vsize: 0 }),
        Some(FeeRate { fee_sat: 1000, vsize: 100 }),
        Some(FeeRate { fee_sat: 100, vsize: 100 }),
    ];
    let s = summarize_fee_rates(&entries);
    assert_eq!(s.rated.len(), 3);
    assert_eq!(s.rated[0].fee_sat, 400);
    assert_eq!(s.rated[2].fee_sat, 100);
    let min = s.min.unwrap();
    assert_eq!((min.fee_sat, min.vsize), (100, 100));
    let max = s.max.unwrap();
    assert_eq!((max.fee_sat, max.vsize), (1000, 100));
}

#[test]
fn fee_rate_summary_of_nothing() {
    let s = summarize_fee_rates(&vec![None, Some(FeeRate { fee_sat: 5, vsize: 0 })]);
    assert!(s.rated.is_empty());
    assert!(s.min.is_none());
    assert!(s.max.is_none());
}

#[test]
fn fee_rate_summary_keeps_first_of_equal_rates() {
    let entries = vec![
        Some(FeeRate { fee_sat: 300, vsize: 100 }),
        Some(FeeRate { fee_sat: 100, vsize: 100 }),
        Some(FeeRate { fee_sat: 200, vsize: 200 }),
        Some(FeeRate { fee_sat: 900, vsize: 300 }),
    ];
    let s = summarize_fee_rates(&entries);
    let min = s.min.unwrap();
    assert_eq!((min.fee_sat, min.vsize), (100, 100));
    let max = s.max.unwrap();
    assert_eq!((max.fee_sat, max.vsize), (300, 100));
}
