//! Mempool transactions: their table (ordering by a chosen column, paging)
//! and the fee-rate summary recorded with each mempool snapshot.

use vstd::prelude::*;
use crate::ordering::{
    ColumnKey, KeyValue, key_order, is_stable_order, arranged, stable_order, arrange,
    lemma_key_order_antisym, lemma_key_order_trans, code_point_less, lemma_text_order_is_code_point_order,
    lemma_stable_order_sorted,
};
use crate::paging::{DataTableResponse, page_of, paginate, requested_start, requested_length, requested_window};
use crate::text::{parsed_usize, parse_usize, text_eq, chars_of, decimal_text, lemma_parse_decimal_text};

verus! {

/// One transaction of the node's mempool, as the transaction table shows
/// it. Fees are in satoshis; the fee rate is `fee_sat / vsize`, or zero for
/// an empty size.
pub struct MempoolTxRecord {
    pub txid: String,
    pub vsize: u64,
    pub weight: u64,
    pub time: u64,
    pub height: u64,
    pub fee_sat: u64,
    pub ancestor_count: u64,
    pub descendant_count: u64,
    pub bip125_replaceable: bool,
}

impl MempoolTxRecord {
    /// A table row from a mempool entry; an unknown weight shows as zero.
    pub fn from_entry(
        txid: String,
        vsize: u64,
        weight: Option<u64>,
        time: u64,
        height: u64,
        fee_sat: u64,
        ancestor_count: u64,
        descendant_count: u64,
        bip125_replaceable: bool,
    ) -> (r: MempoolTxRecord)
        ensures
            r.txid@ == txid@,
            r.vsize == vsize,
            r.weight == (match weight {
                Some(w) => w,
                None => 0,
            }),
            r.time == time,
            r.height == height,
            r.fee_sat == fee_sat,
            r.ancestor_count == ancestor_count,
            r.descendant_count == descendant_count,
            r.bip125_replaceable == bip125_replaceable,
    {
        let w = match weight {
            Some(w) => w,
            None => 0,
        };
        MempoolTxRecord {
            txid,
            vsize,
            weight: w,
            time,
            height,
            fee_sat,
            ancestor_count,
            descendant_count,
            bip125_replaceable,
        }
    }
}

/// The query of the mempool-transactions table: draw counter, first row,
/// number of rows and the requested ordering (a list of `[column,
/// direction]` pairs, of which the first counts).
pub struct MempoolTxsParams {
    pub draw: i32,
    pub start: Option<i32>,
    pub length: Option<i32>,
    pub order: Option<Vec<Vec<String>>>,
}

/// The query of the mempool snapshot table.
pub struct MempoolParams {
    pub draw: i32,
    pub start: Option<i32>,
    pub length: Option<i32>,
}

/// How the transaction table is ordered before paging.
pub enum SortPlan {
    /// Rows stay in the order the node listed them.
    Keep,
    /// Rows are ordered by column `column` (0 txid, 1 vsize, 2 weight, 3
    /// time, 4 height, 5 fee rate).
    By { column: usize, descending: bool },
}

/// The ordering a request asks for. Without an ordering, rows go by fee
/// rate, highest first. With one, its first pair counts when it has at
/// least two entries: the column number (5 when it does not parse) and the
/// direction (`asc` ascending, anything else descending); an unknown column
/// number orders by fee rate, highest first. An empty ordering, or a first
/// pair with fewer than two entries, leaves the rows as listed.
pub open spec fn plan_for(order: Option<Vec<Vec<String>>>) -> SortPlan {
    match order {
        None => SortPlan::By { column: 5, descending: true },
        Some(o) => {
            if o@.len() == 0 || o@[0]@.len() < 2 {
                SortPlan::Keep
            } else {
                let column = match parsed_usize(o@[0]@[0]@) {
                    Some(c) => c,
                    None => 5,
                };
                if column <= 5 {
                    SortPlan::By { column, descending: o@[0]@[1]@ != "asc"@ }
                } else {
                    SortPlan::By { column: 5, descending: true }
                }
            }
        },
    }
}

/// The ordering a request asks for (see [`plan_for`]).
pub fn sort_plan(order: &Option<Vec<Vec<String>>>) -> (r: SortPlan)
    ensures
        r == plan_for(*order),
{
    match order {
        None => SortPlan::By { column: 5, descending: true },
        Some(o) => {
            if o.len() == 0 || o[0].len() < 2 {
                SortPlan::Keep
            } else {
                let first = &o[0];
                let column = match parse_usize(first[0].as_str()) {
                    Some(c) => c,
                    None => 5,
                };
                if column <= 5 {
                    let asc = text_eq(first[1].as_str(), "asc");
                    SortPlan::By { column, descending: !asc }
                } else {
                    SortPlan::By { column: 5, descending: true }
                }
            }
        },
    }
}

/// A request whose first ordering pair names a column from 0 to 5 orders
/// by that column, lowest first exactly when the direction is `asc`; a
/// larger column number orders by fee rate, highest first.
pub proof fn lemma_plan_for_named_column(o: Vec<Vec<String>>, c: usize)
    requires
        o@.len() > 0,
        o@[0]@.len() >= 2,
        parsed_usize(o@[0]@[0]@) == Some(c),
    ensures
        c <= 5 ==> plan_for(Some(o)) == (SortPlan::By { column: c, descending: o@[0]@[1]@ != "asc"@ }),
        c > 5 ==> plan_for(Some(o)) == (SortPlan::By { column: 5, descending: true }),
{
}

/// A request that writes the column number `c` (0 to 5) in decimal orders
/// by column `c`, ascending exactly for the direction `asc`.
pub proof fn lemma_plan_for_decimal_column(o: Vec<Vec<String>>, c: usize)
    requires
        o@.len() > 0,
        o@[0]@.len() >= 2,
        o@[0]@[0]@ == decimal_text(c as nat),
        c <= 5,
    ensures
        plan_for(Some(o)) == (SortPlan::By { column: c, descending: o@[0]@[1]@ != "asc"@ }),
{
    lemma_parse_decimal_text(c);
}

/// Ordered by transaction id, the rows follow code-point order, as
/// `String` compares ids: ascending, no row's id comes before that of an
/// earlier row; descending, none comes after it.
pub proof fn lemma_txid_order(
    txs: Seq<MempoolTxRecord>,
    descending: bool,
    out: Seq<MempoolTxRecord>,
    a: int,
    b: int,
)
    requires
        sorted_by_plan(txs, (SortPlan::By { column: 0, descending }), out),
        0 <= a < b < out.len(),
    ensures
        !descending ==> !code_point_less(out[b].txid@, out[a].txid@),
        descending ==> !code_point_less(out[a].txid@, out[b].txid@),
{
    let keys = tx_keys(txs, 0);
    let order = choose|order: Seq<usize>| is_stable_order(keys, descending, order) && arranged(txs, order, out);
    lemma_stable_order_sorted(keys, descending, order, a, b);
    let ta = out[a].txid@;
    let tb = out[b].txid@;
    assert(out[a] == txs[order[a] as int]);
    assert(out[b] == txs[order[b] as int]);
    assert(keys[order[a] as int] == KeyValue::Text(ta));
    assert(keys[order[b] as int] == KeyValue::Text(tb));
    lemma_text_order_is_code_point_order(ta, tb);
}

/// The value of column `column` of a transaction row.
pub open spec fn tx_key(tx: MempoolTxRecord, column: usize) -> KeyValue {
    if column == 0 {
        KeyValue::Text(tx.txid@)
    } else if column == 1 {
        KeyValue::Number(tx.vsize as i128)
    } else if column == 2 {
        KeyValue::Number(tx.weight as i128)
    } else if column == 3 {
        KeyValue::Number(tx.time as i128)
    } else if column == 4 {
        KeyValue::Number(tx.height as i128)
    } else {
        KeyValue::Rate(tx.fee_sat, tx.vsize)
    }
}

/// The values of column `column` of all rows.
pub open spec fn tx_keys(txs: Seq<MempoolTxRecord>, column: usize) -> Seq<KeyValue> {
    txs.map_values(|t: MempoolTxRecord| tx_key(t, column))
}

/// `out` is `txs` ordered as `plan` says, equal rows keeping their order.
pub open spec fn sorted_by_plan(txs: Seq<MempoolTxRecord>, plan: SortPlan, out: Seq<MempoolTxRecord>) -> bool {
    match plan {
        SortPlan::Keep => out == txs,
        SortPlan::By { column, descending } => exists|order: Seq<usize>|
            is_stable_order(tx_keys(txs, column), descending, order) && arranged(txs, order, out),
    }
}

/// The value of column `column` of a transaction row.
pub fn transaction_key(tx: &MempoolTxRecord, column: usize) -> (r: ColumnKey)
    ensures
        r@ == tx_key(*tx, column),
{
    if column == 0 {
        ColumnKey::Text(chars_of(tx.txid.as_str()))
    } else if column == 1 {
        ColumnKey::Number(tx.vsize as i128)
    } else if column == 2 {
        ColumnKey::Number(tx.weight as i128)
    } else if column == 3 {
        ColumnKey::Number(tx.time as i128)
    } else if column == 4 {
        ColumnKey::Number(tx.height as i128)
    } else {
        ColumnKey::Rate(tx.fee_sat, tx.vsize)
    }
}

/// Orders the rows as `plan` says; rows with equal values keep their order.
pub fn sort_transactions(txs: Vec<MempoolTxRecord>, plan: SortPlan) -> (r: Vec<MempoolTxRecord>)
    ensures
        sorted_by_plan(txs@, plan, r@),
{
    match plan {
        SortPlan::Keep => txs,
        SortPlan::By { column, descending } => {
            let mut keys: Vec<ColumnKey> = Vec::new();
            let mut i: usize = 0;
            while i < txs.len()
                invariant
                    i <= txs.len(),
                    keys.len() == i,
                    forall|k: int| 0 <= k < i ==> #[trigger] keys@[k]@ == tx_key(txs@[k], column),
                decreases txs.len() - i,
            {
                keys.push(transaction_key(&txs[i], column));
                i = i + 1;
            }
            let order = stable_order(&keys, descending);
            assert(crate::ordering::key_values(keys@) =~= tx_keys(txs@, column));
            proof {
                assert forall|a: int, b: int| 0 <= a < b < order.len() implies #[trigger] order@[a] != #[trigger] order@[b] by {
                    crate::ordering::lemma_goes_before_total_order(
                        tx_keys(txs@, column),
                        descending,
                        order@[a] as int,
                        order@[a] as int,
                        order@[a] as int,
                    );
                }
            }
            let ghost before = txs@;
            let out = arrange(txs, &order);
            assert(is_stable_order(tx_keys(before, column), descending, order@) && arranged(before, order@, out@));
            out
        },
    }
}

/// The transaction table for a request: all rows are counted, ordered as
/// the request asks (see [`plan_for`]) and then paged (see
/// [`requested_start`], [`requested_length`]).
pub fn mempool_transactions_page(txs: Vec<MempoolTxRecord>, params: &MempoolTxsParams) -> (r:
    DataTableResponse<MempoolTxRecord>)
    requires
        requested_start(params.start) + requested_length(params.length) <= usize::MAX,
    ensures
        r.draw == params.draw,
        r.records_total == txs.len(),
        r.records_filtered == txs.len(),
        exists|sorted: Seq<MempoolTxRecord>|
            sorted_by_plan(txs@, plan_for(params.order), sorted) && r.data@ == page_of(
                sorted,
                requested_start(params.start) as int,
                requested_length(params.length) as int,
            ),
{
    let n = txs.len();
    let plan = sort_plan(&params.order);
    let sorted = sort_transactions(txs, plan);
    let (start, length) = requested_window(params.start, params.length);
    let ghost s = sorted@;
    let data = paginate(sorted, start, length);
    DataTableResponse { draw: params.draw, records_total: n, records_filtered: n, data }
}

/// The number of mempool transactions whose fee rates are sampled: the
/// first thousand at most.
pub fn mempool_sample_size(n: usize) -> (r: usize)
    ensures
        r == (if n < 1000 {
            n
        } else {
            1000
        }),
{
    if n < 1000 {
        n
    } else {
        1000
    }
}

/// A fee rate as a fee in satoshis over a size in virtual bytes.
pub struct FeeRate {
    pub fee_sat: u64,
    pub vsize: u64,
}

/// The fee rate as a column value.
pub open spec fn rate_key(r: FeeRate) -> KeyValue {
    KeyValue::Rate(r.fee_sat, r.vsize)
}

/// The fee rates of a mempool sample: which entries count (those that were
/// read and have a non-empty size, in sample order), and the lowest and
/// highest of their rates.
pub struct FeeRateSummary {
    pub rated: Vec<FeeRate>,
    pub min: Option<FeeRate>,
    pub max: Option<FeeRate>,
}

/// The entries of a sample that count for the fee-rate summary: those that
/// were read and have a non-empty size, in order.
pub open spec fn rated_entries(entries: Seq<Option<FeeRate>>) -> Seq<FeeRate>
    decreases entries.len(),
{
    if entries.len() == 0 {
        Seq::empty()
    } else {
        let prev = rated_entries(entries.drop_last());
        match entries.last() {
            Some(r) => if r.vsize > 0 {
                prev.push(r)
            } else {
                prev
            },
            None => prev,
        }
    }
}

/// `m` is a lowest rate of `rs` (`highest` false) or a highest one
/// (`highest` true).
pub open spec fn is_extreme_rate(rs: Seq<FeeRate>, m: FeeRate, highest: bool) -> bool {
    &&& rs.contains(m)
    &&& forall|k: int|
        0 <= k < rs.len() ==> if highest {
            key_order(rate_key(#[trigger] rs[k]), rate_key(m)) <= 0
        } else {
            key_order(rate_key(m), rate_key(#[trigger] rs[k])) <= 0
        }
}

/// `m` is the first lowest rate of `rs` (`highest` false) or its first
/// highest one (`highest` true): an extreme rate that occurs in `rs` at a
/// position before which every rate is strictly less extreme.
pub open spec fn is_first_extreme_rate(rs: Seq<FeeRate>, m: FeeRate, highest: bool) -> bool {
    &&& is_extreme_rate(rs, m, highest)
    &&& exists|j: int|
        0 <= j < rs.len() && rs[j] == m && forall|k: int|
            0 <= k < j ==> if highest {
                key_order(rate_key(#[trigger] rs[k]), rate_key(m)) < 0
            } else {
                key_order(rate_key(m), rate_key(#[trigger] rs[k])) < 0
            }
}

/// Whether a new rate `r` replaces the current extreme `m`: it is strictly
/// lower (`highest` false) or strictly higher (`highest` true).
pub open spec fn replaces_extreme(r: FeeRate, m: FeeRate, highest: bool) -> bool {
    if highest {
        key_order(rate_key(r), rate_key(m)) > 0
    } else {
        key_order(rate_key(r), rate_key(m)) < 0
    }
}

/// The extreme of a sample after a new rate `r`, given the extreme `old` of
/// the rates before it.
pub open spec fn next_extreme(old: Option<FeeRate>, r: FeeRate, highest: bool) -> FeeRate {
    match old {
        None => r,
        Some(m) => if replaces_extreme(r, m, highest) {
            r
        } else {
            m
        },
    }
}

proof fn lemma_next_extreme(prev: Seq<FeeRate>, old: Option<FeeRate>, r: FeeRate, highest: bool)
    requires
        old is Some <==> prev.len() > 0,
        old matches Some(m) ==> is_first_extreme_rate(prev, m, highest),
    ensures
        is_first_extreme_rate(prev.push(r), next_extreme(old, r, highest), highest),
{
    let cur = prev.push(r);
    let n = next_extreme(old, r, highest);
    lemma_key_order_antisym(rate_key(n), rate_key(n));
    assert(cur[cur.len() - 1] == r);
    match old {
        None => {
            assert(cur.len() == 1);
            assert(cur[0] == n);
        },
        Some(m) => {
            lemma_key_order_antisym(rate_key(r), rate_key(m));
            let j = choose|j: int|
                0 <= j < prev.len() && prev[j] == m && forall|k: int|
                    0 <= k < j ==> if highest {
                        key_order(rate_key(#[trigger] prev[k]), rate_key(m)) < 0
                    } else {
                        key_order(rate_key(m), rate_key(#[trigger] prev[k])) < 0
                    };
            assert forall|k: int| 0 <= k < cur.len() implies if highest {
                key_order(rate_key(#[trigger] cur[k]), rate_key(n)) <= 0
            } else {
                key_order(rate_key(n), rate_key(#[trigger] cur[k])) <= 0
            } by {
                lemma_key_order_antisym(rate_key(n), rate_key(cur[k]));
                if k < prev.len() {
                    assert(cur[k] == prev[k]);
                    if n != m {
                        if highest {
                            lemma_key_order_trans(rate_key(cur[k]), rate_key(m), rate_key(n));
                        } else {
                            lemma_key_order_trans(rate_key(n), rate_key(m), rate_key(cur[k]));
                        }
                    }
                }
            }
            if replaces_extreme(r, m, highest) {
                let w = cur.len() - 1;
                assert forall|k: int| 0 <= k < w implies if highest {
                    key_order(rate_key(#[trigger] cur[k]), rate_key(n)) < 0
                } else {
                    key_order(rate_key(n), rate_key(#[trigger] cur[k])) < 0
                } by {
                    assert(cur[k] == prev[k]);
                    lemma_key_order_antisym(rate_key(n), rate_key(cur[k]));
                    lemma_key_order_antisym(rate_key(m), rate_key(cur[k]));
                    if highest {
                        if key_order(rate_key(cur[k]), rate_key(n)) >= 0 {
                            lemma_key_order_trans(rate_key(n), rate_key(cur[k]), rate_key(m));
                        }
                    } else {
                        if key_order(rate_key(n), rate_key(cur[k])) >= 0 {
                            lemma_key_order_trans(rate_key(m), rate_key(cur[k]), rate_key(n));
                        }
                    }
                }
                assert(cur[w] == n);
            } else {
                assert forall|k: int| 0 <= k < j implies if highest {
                    key_order(rate_key(#[trigger] cur[k]), rate_key(n)) < 0
                } else {
                    key_order(rate_key(n), rate_key(#[trigger] cur[k])) < 0
                } by {
                    assert(cur[k] == prev[k]);
                }
                assert(cur[j] == n);
            }
        },
    }
}

/// Summarises the fee rates of a mempool sample: `entries` holds, per
/// sampled transaction, its fee and size when it could be read. The lowest
/// and highest rates are the first of their value in sample order.
pub fn summarize_fee_rates(entries: &Vec<Option<FeeRate>>) -> (s: FeeRateSummary)
    ensures
        s.rated@ == rated_entries(entries@),
        s.min is Some <==> s.rated.len() > 0,
        s.max is Some <==> s.rated.len() > 0,
        s.min matches Some(m) ==> is_first_extreme_rate(s.rated@, m, false),
        s.max matches Some(m) ==> is_first_extreme_rate(s.rated@, m, true),
{
    let mut rated: Vec<FeeRate> = Vec::new();
    let mut min: Option<FeeRate> = None;
    let mut max: Option<FeeRate> = None;
    let mut i: usize = 0;
    while i < entries.len()
        invariant
            i <= entries.len(),
            rated@ == rated_entries(entries@.take(i as int)),
            min is Some <==> rated.len() > 0,
            max is Some <==> rated.len() > 0,
            min matches Some(m) ==> is_first_extreme_rate(rated@, m, false),
            max matches Some(m) ==> is_first_extreme_rate(rated@, m, true),
        decreases entries.len() - i,
    {
        assert(entries@.take(i + 1).drop_last() =~= entries@.take(i as int));
        match &entries[i] {
            Some(e) => {
                if e.vsize > 0 {
                    let r = FeeRate { fee_sat: e.fee_sat, vsize: e.vsize };
                    let new_min = match &min {
                        Some(m) => {
                            let c = crate::ordering::compare_keys(
                                &ColumnKey::Rate(r.fee_sat, r.vsize),
                                &ColumnKey::Rate(m.fee_sat, m.vsize),
                            );
                            if c < 0 {
                                FeeRate { fee_sat: r.fee_sat, vsize: r.vsize }
                            } else {
                                FeeRate { fee_sat: m.fee_sat, vsize: m.vsize }
                            }
                        },
                        None => FeeRate { fee_sat: r.fee_sat, vsize: r.vsize },
                    };
                    let new_max = match &max {
                        Some(m) => {
                            let c = crate::ordering::compare_keys(
                                &ColumnKey::Rate(r.fee_sat, r.vsize),
                                &ColumnKey::Rate(m.fee_sat, m.vsize),
                            );
                            if c > 0 {
                                FeeRate { fee_sat: r.fee_sat, vsize: r.vsize }
                            } else {
                                FeeRate { fee_sat: m.fee_sat, vsize: m.vsize }
                            }
                        },
                        None => FeeRate { fee_sat: r.fee_sat, vsize: r.vsize },
                    };
                    proof {
                        assert(new_min == next_extreme(min, r, false));
                        assert(new_max == next_extreme(max, r, true));
                        lemma_next_extreme(rated@, min, r, false);
                        lemma_next_extreme(rated@, max, r, true);
                    }
                    rated.push(r);
                    min = Some(new_min);
                    max = Some(new_max);
                }
            },
            None => {},
        }
        i = i + 1;
    }
    assert(entries@.take(entries.len() as int) =~= entries@);
    FeeRateSummary { rated, min, max }
}

/// The lowest fee rate of a summary is never above its highest one.
pub proof fn lemma_min_rate_not_above_max(rs: Seq<FeeRate>, lo: FeeRate, hi: FeeRate)
    requires
        is_extreme_rate(rs, lo, false),
        is_extreme_rate(rs, hi, true),
    ensures
        key_order(rate_key(lo), rate_key(hi)) <= 0,
{
    let j = choose|j: int| 0 <= j < rs.len() && rs[j] == hi;
    assert(key_order(rate_key(lo), rate_key(rs[j])) <= 0);
}

} // verus!
