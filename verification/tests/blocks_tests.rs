use bitcoin_dashboard::blocks::{
    block_window, newest_first, order_clause, plan_blocks_query, BlocksParams, BlocksPlan, Order,
};

fn params(mode: Option<&str>, order: Option<Vec<(usize, &str)>>) -> BlocksParams {
    BlocksParams {
        draw: 1,
        start: Some(50),
        length: Some(10),
        order: order.map(|o| {
            o.into_iter().map(|(column, dir)| Order { column, dir: dir.to_string() }).collect()
        }),
        mode: mode.map(|m| m.to_string()),
    }
}

#[test]
fn live_is_the_default_mode() {
    match plan_blocks_query(&params(None, None)) {
        BlocksPlan::Live { length } => assert_eq!(length, 10),
        _ => panic!("expected live"),
    }
    match plan_blocks_query(&params(Some("live"), None)) {
        BlocksPlan::Live { length } => assert_eq!(length, 10),
        _ => panic!("expected live"),
    }
    let p = BlocksParams { draw: 1, start: None, length: None, order: None, mode: Some("other".to_string()) };
    match plan_blocks_query(&p) {
        BlocksPlan::Live { length } => assert_eq!(length, 25),
        _ => panic!("expected live"),
    }
}

#[test]
fn index_mode_without_order() {
    match plan_blocks_query(&params(Some("index"), None)) {
        BlocksPlan::Index { limit, offset, order_by } => {
            assert_eq!(limit, 10);
            assert_eq!(offset, 50);
            assert_eq!(order_by, "height DESC");
        }
        _ => panic!("expected index"),
    }
}

#[test]
fn index_mode_with_orders() {
    let cases = [
        (0, "ASC", "height ASC"),
        (1, "desc", "hash desc"),
        (2, "DESC", "time DESC"),
        (3, "ASC", "tx_count ASC"),
        (4, "ASC", "avg_fee_sat ASC"),
        (5, "ASC", "avg_feerate ASC"),
        (6, "DESC", "total_fees_sat DESC"),
        (7, "ASC", "difficulty ASC"),
        (8, "ASC", "height ASC"),
    ];
    for (col, dir, expected) in cases {
        match plan_blocks_query(&params(Some("index"), Some(vec![(col, dir), (2, "ASC")]))) {
            BlocksPlan::Index { order_by, .. } => assert_eq!(order_by, expected),
            _ => panic!("expected index"),
        }
    }
}

#[test]
fn index_mode_defaults() {
    let p = BlocksParams { draw: 1, start: None, length: None, order: None, mode: Some("index".to_string()) };
    match plan_blocks_query(&p) {
        BlocksPlan::Index { limit, offset, .. } => {
            assert_eq!(limit, 25);
            assert_eq!(offset, 0);
        }
        _ => panic!("expected index"),
    }
}

#[test]
fn whitelist_passes_accepted_orders() {
    for c in ["height ASC", "height DESC", "time ASC", "time DESC", "tx_count ASC", "tx_count DESC"] {
        assert_eq!(order_clause(c), c);
    }
}

#[test]
fn whitelist_replaces_everything_else() {
    for c in ["height asc", "hash ASC", "", "height DESC; DROP TABLE block_info", "difficulty DESC"] {
        assert_eq!(order_clause(c), "height DESC");
    }
}

#[test]
fn whitelist_is_idempotent() {
    for c in ["time ASC", "bogus"] {
        assert_eq!(order_clause(order_clause(c)), order_clause(c));
    }
}

#[test]
fn windows() {
    assert_eq!(block_window(1000, None), (976, 1000));
    assert_eq!(block_window(1000, Some(500)), (501, 1000));
    assert_eq!(block_window(10, Some(25)), (0, 10));
    assert_eq!(block_window(24, None), (0, 24));
    assert_eq!(block_window(25, None), (1, 25));
    assert_eq!(block_window(0, Some(1)), (0, 0));
    // a window of no blocks ends before it starts
    assert_eq!(block_window(7, Some(0)), (8, 7));
}

#[test]
fn blocks_newest_first() {
    let blocks = vec!["b100", "b101", "b103", "b102"];
    let heights = vec![100, 101, 103, 102];
    assert_eq!(newest_first(blocks, &heights), vec!["b103", "b102", "b101", "b100"]);
}

#[test]
fn equal_heights_keep_their_order() {
    let blocks = vec!["x", "y", "z"];
    let heights = vec![5, 7, 5];
    assert_eq!(newest_first(blocks, &heights), vec!["y", "x", "z"]);
}
