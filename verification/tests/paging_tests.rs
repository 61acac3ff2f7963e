use bitcoin_dashboard::paging::{paginate, requested_window, DataTableResponse};

#[test]
fn page_in_the_middle() {
    let v: Vec<u32> = (0..10).collect();
    assert_eq!(paginate(v, 3, 4), vec![3, 4, 5, 6]);
}

#[test]
fn page_cut_at_the_end() {
    let v: Vec<u32> = (0..10).collect();
    assert_eq!(paginate(v, 8, 25), vec![8, 9]);
}

#[test]
fn page_past_the_end_is_empty() {
    let v: Vec<u32> = (0..10).collect();
    assert!(paginate(v.clone(), 10, 5).is_empty());
    assert!(paginate(v, 50, 5).is_empty());
}

#[test]
fn empty_page_length() {
    let v: Vec<u32> = (0..10).collect();
    assert!(paginate(v, 2, 0).is_empty());
}

#[test]
fn consecutive_pages_tile() {
    let v: Vec<u32> = (0..10).collect();
    let mut joined = paginate(v.clone(), 2, 3);
    joined.extend(paginate(v.clone(), 5, 4));
    assert_eq!(joined, paginate(v, 2, 7));
}

#[test]
fn window_defaults() {
    assert_eq!(requested_window(None, None), (0, 25));
    assert_eq!(requested_window(Some(50), Some(10)), (50, 10));
}

#[test]
fn negative_window_values_keep_their_bits() {
    let (s, l) = requested_window(Some(-1), Some(-2));
    assert_eq!(s, (-1i32) as usize);
    assert_eq!(l, (-2i32) as usize);
}

#[test]
fn whole_response_counts_all_rows() {
    let r = DataTableResponse::whole(7, vec!["a", "b", "c"]);
    assert_eq!(r.draw, 7);
    assert_eq!(r.records_total, 3);
    assert_eq!(r.records_filtered, 3);
    assert_eq!(r.data, vec!["a", "b", "c"]);
}
