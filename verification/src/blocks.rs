//! The block table: which blocks a request asks for, from the node or from
//! the index, and in what order.

use vstd::prelude::*;
use crate::ordering::{ColumnKey, KeyValue, is_stable_order, arranged, stable_order, arrange, key_values, goes_before};
use crate::text::{text_eq, owned};

verus! {

/// One ordering instruction of the block table: a column number and a
/// direction word.
pub struct Order {
    pub column: usize,
    pub dir: String,
}

/// The query of the block table.
pub struct BlocksParams {
    pub draw: i32,
    pub start: Option<i32>,
    pub length: Option<i32>,
    pub order: Option<Vec<Order>>,
    pub mode: Option<String>,
}

/// A time range in Unix seconds.
pub struct TimeRange {
    pub from: i64,
    pub to: i64,
}

/// Where the block table's rows come from.
pub enum BlocksPlan {
    /// From the index: `limit` rows from row `offset`, ordered by `order_by`.
    Index { limit: i64, offset: i64, order_by: String },
    /// From the node: the newest `length` blocks.
    Live { length: u64 },
}

/// The column name of a block-table column number; unknown numbers name
/// the height.
pub open spec fn column_name(column: usize) -> Seq<char> {
    if column == 0 {
        "height"@
    } else if column == 1 {
        "hash"@
    } else if column == 2 {
        "time"@
    } else if column == 3 {
        "tx_count"@
    } else if column == 4 {
        "avg_fee_sat"@
    } else if column == 5 {
        "avg_feerate"@
    } else if column == 6 {
        "total_fees_sat"@
    } else if column == 7 {
        "difficulty"@
    } else {
        "height"@
    }
}

/// The requested ordering of the index: the first instruction's column name
/// and direction word, separated by a space; the height, descending, when
/// the request gives none.
pub open spec fn requested_order_by(order: Option<Vec<Order>>) -> Seq<char> {
    match order {
        Some(o) => column_name(o@[0].column) + " "@ + o@[0].dir@,
        None => "height DESC"@,
    }
}

/// Whether a request reads the index (mode `index`) rather than the node.
pub open spec fn reads_index(mode: Option<String>) -> bool {
    match mode {
        Some(m) => m@ == "index"@,
        None => false,
    }
}

/// A request's row count as the node query takes it: `length` read as an
/// unsigned count (same bits), 25 when absent.
pub open spec fn live_length(length: Option<i32>) -> u64 {
    match length {
        Some(l) => l as u64,
        None => 25,
    }
}

/// A request's first row as an unsigned index (same bits), 0 when absent.
pub open spec fn start_index(start: Option<i32>) -> u64 {
    match start {
        Some(s) => s as u64,
        None => 0,
    }
}

/// Whether `plan` is what a block-table request asks for: from the index
/// (mode `index`), `length` rows from `start` in the requested order;
/// otherwise the newest `length` blocks from the node.
pub open spec fn is_plan_for(params: BlocksParams, plan: BlocksPlan) -> bool {
    if reads_index(params.mode) {
        match plan {
            BlocksPlan::Index { limit, offset, order_by } => {
                &&& limit == live_length(params.length) as i64
                &&& offset == start_index(params.start) as i64
                &&& order_by@ == requested_order_by(params.order)
            },
            BlocksPlan::Live { .. } => false,
        }
    } else {
        match plan {
            BlocksPlan::Live { length } => length == live_length(params.length),
            BlocksPlan::Index { .. } => false,
        }
    }
}

fn column_name_of(column: usize) -> (r: String)
    ensures
        r@ == column_name(column),
{
    if column == 0 {
        owned("height")
    } else if column == 1 {
        owned("hash")
    } else if column == 2 {
        owned("time")
    } else if column == 3 {
        owned("tx_count")
    } else if column == 4 {
        owned("avg_fee_sat")
    } else if column == 5 {
        owned("avg_feerate")
    } else if column == 6 {
        owned("total_fees_sat")
    } else if column == 7 {
        owned("difficulty")
    } else {
        owned("height")
    }
}

/// The order instructions a request gives, if it gives a list.
pub open spec fn given_orders(order: Option<Vec<Order>>) -> Seq<Order> {
    match order {
        Some(o) => o@,
        None => Seq::empty(),
    }
}

/// Plans a block-table request (see [`is_plan_for`]). A request for the
/// index with an ordering must give at least one instruction.
pub fn plan_blocks_query(params: &BlocksParams) -> (r: BlocksPlan)
    requires
        reads_index(params.mode) && params.order is Some ==> given_orders(params.order).len() > 0,
    ensures
        is_plan_for(*params, r),
{
    let length: u64 = match params.length {
        Some(l) => l as u64,
        None => 25,
    };
    let start: u64 = match params.start {
        Some(s) => s as u64,
        None => 0,
    };
    let index = match &params.mode {
        Some(m) => text_eq(m.as_str(), "index"),
        None => false,
    };
    if index {
        let order_by = match &params.order {
            Some(o) => {
                let mut s = column_name_of(o[0].column);
                s.append(" ");
                s.append(o[0].dir.as_str());
                s
            },
            None => owned("height DESC"),
        };
        BlocksPlan::Index { limit: length as i64, offset: start as i64, order_by }
    } else {
        BlocksPlan::Live { length }
    }
}

/// The orderings the index accepts.
pub open spec fn is_whitelisted(clause: Seq<char>) -> bool {
    ||| clause == "height ASC"@
    ||| clause == "height DESC"@
    ||| clause == "time ASC"@
    ||| clause == "time DESC"@
    ||| clause == "tx_count ASC"@
    ||| clause == "tx_count DESC"@
}

/// The ordering the index uses for a requested one: the requested one when
/// it is accepted, the height descending otherwise.
pub open spec fn whitelisted(order_by: Seq<char>) -> Seq<char> {
    if is_whitelisted(order_by) {
        order_by
    } else {
        "height DESC"@
    }
}

/// The ordering the index uses for a requested one (see [`whitelisted`]);
/// no other text ever reaches the query.
pub fn order_clause(order_by: &str) -> (r: &'static str)
    ensures
        r@ == whitelisted(order_by@),
{
    if text_eq(order_by, "height ASC") {
        "height ASC"
    } else if text_eq(order_by, "height DESC") {
        "height DESC"
    } else if text_eq(order_by, "time ASC") {
        "time ASC"
    } else if text_eq(order_by, "time DESC") {
        "time DESC"
    } else if text_eq(order_by, "tx_count ASC") {
        "tx_count ASC"
    } else if text_eq(order_by, "tx_count DESC") {
        "tx_count DESC"
    } else {
        "height DESC"
    }
}

/// Whatever a request asks, the index is ordered by an accepted clause, and
/// an accepted clause is used as it is.
pub proof fn lemma_order_clause_whitelisted(order_by: Seq<char>)
    ensures
        is_whitelisted(whitelisted(order_by)),
        whitelisted(whitelisted(order_by)) == whitelisted(order_by),
        is_whitelisted(order_by) ==> whitelisted(order_by) == order_by,
{
}

/// The first height of the newest `length` blocks (25 when not given) up to
/// `current_height`: the window runs from it to `current_height`.
pub open spec fn window_start(current_height: u64, length: Option<u64>) -> int {
    let l = match length {
        Some(l) => l,
        None => 25,
    };
    if current_height >= l {
        current_height - l + 1
    } else {
        0
    }
}

/// The first and last height of the newest `length` blocks (25 when not
/// given) up to `current_height`. A window of length zero ends before it
/// starts.
pub fn block_window(current_height: u64, length: Option<u64>) -> (r: (u64, u64))
    requires
        !(length == Some(0u64) && current_height == u64::MAX),
    ensures
        r.0 == window_start(current_height, length),
        r.1 == current_height,
{
    let l: u64 = match length {
        Some(l) => l,
        None => 25,
    };
    let start = if current_height >= l {
        current_height - l + 1
    } else {
        0
    };
    (start, current_height)
}

/// The window holds `length` heights, or all heights from zero when the
/// chain is shorter.
pub proof fn lemma_window_size(current_height: u64, l: u64)
    requires
        !(l == 0 && current_height == u64::MAX),
    ensures
        current_height + 1 - window_start(current_height, Some(l)) == (if l < current_height + 1 {
            l as int
        } else {
            current_height + 1
        }),
{
}

/// The height keys of a list of blocks.
pub open spec fn height_keys(heights: Seq<i64>) -> Seq<KeyValue> {
    heights.map_values(|h: i64| KeyValue::Number(h as i128))
}

/// Blocks put newest first go by height, highest first, and blocks of the
/// same height keep their given order: for any two positions of the
/// result, the earlier block is at least as high as the later one.
pub proof fn lemma_newest_first_by_height<T>(
    blocks: Seq<T>,
    heights: Seq<i64>,
    order: Seq<usize>,
    out: Seq<T>,
    a: int,
    b: int,
)
    requires
        is_stable_order(height_keys(heights), true, order),
        arranged(blocks, order, out),
        0 <= a < b < out.len(),
    ensures
        heights[order[a] as int] >= heights[order[b] as int],
        heights[order[a] as int] == heights[order[b] as int] ==> order[a] < order[b],
{
    let keys = height_keys(heights);
    assert(goes_before(keys, true, order[a] as int, order[b] as int));
    assert(keys[order[a] as int] == KeyValue::Number(heights[order[a] as int] as i128));
    assert(keys[order[b] as int] == KeyValue::Number(heights[order[b] as int] as i128));
}

/// Puts blocks newest first: by height, highest first, blocks of equal
/// height in their given order. `heights[i]` is the height of `blocks[i]`.
pub fn newest_first<T>(blocks: Vec<T>, heights: &Vec<i64>) -> (r: Vec<T>)
    requires
        heights.len() == blocks.len(),
    ensures
        exists|order: Seq<usize>|
            is_stable_order(height_keys(heights@), true, order) && arranged(blocks@, order, r@) && (forall|a: int, b: int|
                0 <= a < b < order.len() ==> heights@[#[trigger] order[a] as int] >= heights@[#[trigger] order[b] as int]),
{
    let mut keys: Vec<ColumnKey> = Vec::new();
    let mut i: usize = 0;
    while i < heights.len()
        invariant
            i <= heights.len(),
            keys.len() == i,
            forall|k: int| 0 <= k < i ==> #[trigger] keys@[k]@ == KeyValue::Number(heights@[k] as i128),
        decreases heights.len() - i,
    {
        keys.push(ColumnKey::Number(heights[i] as i128));
        i = i + 1;
    }
    let order = stable_order(&keys, true);
    assert(key_values(keys@) =~= height_keys(heights@));
    proof {
        assert forall|a: int, b: int| 0 <= a < b < order.len() implies #[trigger] order@[a] != #[trigger] order@[b] by {
            crate::ordering::lemma_goes_before_total_order(
                height_keys(heights@),
                true,
                order@[a] as int,
                order@[a] as int,
                order@[a] as int,
            );
        }
    }
    let ghost before = blocks@;
    let out = arrange(blocks, &order);
    assert(is_stable_order(height_keys(heights@), true, order@) && arranged(before, order@, out@));
    assert forall|a: int, b: int| 0 <= a < b < order@.len() implies heights@[#[trigger] order@[a] as int]
        >= heights@[#[trigger] order@[b] as int] by {
        lemma_newest_first_by_height(before, heights@, order@, out@, a, b);
    }
    out
}

} // verus!
