//! Table responses in the shape the dashboard's data tables expect, and
//! paging of rows.

use vstd::prelude::*;

verus! {

/// A page of rows for a data table: the request's draw counter, the number
/// of rows in total and after filtering, and the rows of the page.
pub struct DataTableResponse<T> {
    pub draw: i32,
    pub records_total: usize,
    pub records_filtered: usize,
    pub data: Vec<T>,
}

impl<T> DataTableResponse<T> {
    /// A response that shows all of `data`: both counts are its length.
    pub fn whole(draw: i32, data: Vec<T>) -> (r: DataTableResponse<T>)
        ensures
            r.draw == draw,
            r.records_total == data.len(),
            r.records_filtered == data.len(),
            r.data@ == data@,
    {
        let n = data.len();
        DataTableResponse { draw, records_total: n, records_filtered: n, data }
    }
}

/// The rows from `start` on, at most `length` of them; none when `start` is
/// past the end.
pub open spec fn page_of<T>(items: Seq<T>, start: int, length: int) -> Seq<T> {
    if start < items.len() {
        let end = if start + length < items.len() {
            start + length
        } else {
            items.len() as int
        };
        items.subrange(start, end)
    } else {
        Seq::empty()
    }
}

/// Keeps the rows from `start` on, at most `length` of them.
pub fn paginate<T>(items: Vec<T>, start: usize, length: usize) -> (r: Vec<T>)
    requires
        start + length <= usize::MAX,
    ensures
        r@ == page_of(items@, start as int, length as int),
{
    let n = items.len();
    let end = if start + length < n {
        start + length
    } else {
        n
    };
    if start < n {
        let mut items = items;
        let ghost orig = items@;
        items.truncate(end);
        assert(items@ =~= orig.subrange(0, end as int));
        let tail = items.split_off(start);
        assert(tail@ =~= orig.subrange(start as int, end as int));
        tail
    } else {
        Vec::new()
    }
}

/// The first row a request asks for: `start` read as an index, zero when
/// absent. A negative value reads as the index with the same bits.
pub open spec fn requested_start(start: Option<i32>) -> usize {
    match start {
        Some(s) => s as usize,
        None => 0,
    }
}

/// The number of rows a request asks for: `length` read as a count, 25 when
/// absent. A negative value reads as the count with the same bits.
pub open spec fn requested_length(length: Option<i32>) -> usize {
    match length {
        Some(l) => l as usize,
        None => 25,
    }
}

/// The first row and the number of rows a data-table request asks for.
pub fn requested_window(start: Option<i32>, length: Option<i32>) -> (r: (usize, usize))
    ensures
        r.0 == requested_start(start),
        r.1 == requested_length(length),
{
    let s: usize = match start {
        Some(s) => s as usize,
        None => 0,
    };
    let l: usize = match length {
        Some(l) => l as usize,
        None => 25,
    };
    (s, l)
}

/// A page never holds more rows than were asked for, and every row of it is
/// the row at the same offset from `start`.
pub proof fn lemma_page_within_request<T>(items: Seq<T>, start: int, length: int)
    requires
        0 <= start,
        0 <= length,
    ensures
        page_of(items, start, length).len() <= length,
        forall|k: int|
            0 <= k < page_of(items, start, length).len() ==> #[trigger] page_of(items, start, length)[k]
                == items[start + k],
{
}

/// Consecutive pages tile the rows: the page at `start` of `a + b` rows is
/// the page at `start` of `a` rows followed by the page at `start + a` of
/// `b` rows, whenever the first of those is full.
pub proof fn lemma_pages_tile<T>(items: Seq<T>, start: int, a: int, b: int)
    requires
        0 <= start,
        0 <= a,
        0 <= b,
        start + a <= items.len(),
    ensures
        page_of(items, start, a + b) == page_of(items, start, a) + page_of(items, start + a, b),
{
    if start < items.len() {
        if start + a < items.len() {
            assert(page_of(items, start, a + b) =~= page_of(items, start, a) + page_of(
                items,
                start + a,
                b,
            ));
        } else {
            assert(page_of(items, start, a + b) =~= page_of(items, start, a) + page_of(
                items,
                start + a,
                b,
            ));
        }
    } else {
        assert(page_of(items, start, a + b) =~= page_of(items, start, a) + page_of(
            items,
            start + a,
            b,
        ));
    }
}

} // verus!
