use bitcoin_dashboard::sync::{BlockSync, SyncAction, SyncEvent, SyncPhase};

fn hashes(n: usize) -> Vec<String> {
    (0..n).map(|i| format!("h{}", i)).collect()
}

#[test]
fn run_with_new_and_known_blocks() {
    let (mut s, a) = BlockSync::start();
    assert_eq!(a, SyncAction::FetchBlocks);
    assert_eq!(s.step(SyncEvent::BlocksFetched(hashes(3))), SyncAction::LookUp(0));
    assert_eq!(s.step(SyncEvent::Found), SyncAction::LookUp(1));
    assert_eq!(s.step(SyncEvent::NotFound), SyncAction::Save(1));
    assert_eq!(s.step(SyncEvent::Saved), SyncAction::LookUp(2));
    assert_eq!(s.step(SyncEvent::NotFound), SyncAction::Save(2));
    assert_eq!(s.step(SyncEvent::Saved), SyncAction::RecordSuccess);
    assert_eq!(s.phase, SyncPhase::Finished);
    assert_eq!(s.result.saved, 2);
    assert_eq!(s.result.saved_blocks, vec!["h1", "h2"]);
    assert_eq!(s.result.skipped, 1);
    assert_eq!(s.result.skipped_blocks, vec!["h0"]);
    assert!(s.result.error.is_none());
}

#[test]
fn run_without_blocks_succeeds_at_once() {
    let (mut s, _) = BlockSync::start();
    assert_eq!(s.step(SyncEvent::BlocksFetched(vec![])), SyncAction::RecordSuccess);
    assert_eq!(s.result.saved + s.result.skipped, 0);
}

#[test]
fn node_failure_ends_the_run() {
    let (mut s, _) = BlockSync::start();
    assert_eq!(s.step(SyncEvent::FetchFailed("connection refused".to_string())), SyncAction::RecordFailure);
    assert_eq!(s.result.error.as_deref(), Some("connection refused"));
    assert_eq!(s.phase, SyncPhase::Finished);
}

#[test]
fn failed_write_keeps_earlier_counts() {
    let (mut s, _) = BlockSync::start();
    s.step(SyncEvent::BlocksFetched(hashes(3)));
    s.step(SyncEvent::NotFound);
    s.step(SyncEvent::Saved);
    s.step(SyncEvent::NotFound);
    assert_eq!(s.step(SyncEvent::SaveFailed("disk full".to_string())), SyncAction::RecordFailure);
    assert_eq!(s.result.saved, 1);
    assert_eq!(s.result.saved_blocks, vec!["h0"]);
    assert_eq!(s.result.skipped, 0);
    assert_eq!(s.result.error.as_deref(), Some("disk full"));
}

#[test]
fn failed_lookup_ends_the_run() {
    let (mut s, _) = BlockSync::start();
    s.step(SyncEvent::BlocksFetched(hashes(2)));
    assert_eq!(s.step(SyncEvent::LookupFailed("timeout".to_string())), SyncAction::RecordFailure);
    assert_eq!(s.result.saved + s.result.skipped, 0);
}

#[test]
fn unexpected_events_are_ignored() {
    let (mut s, _) = BlockSync::start();
    assert_eq!(s.step(SyncEvent::Saved), SyncAction::Nothing);
    assert_eq!(s.phase, SyncPhase::Fetching);
    s.step(SyncEvent::BlocksFetched(hashes(1)));
    assert_eq!(s.step(SyncEvent::Saved), SyncAction::Nothing);
    s.step(SyncEvent::Found);
    assert_eq!(s.step(SyncEvent::Found), SyncAction::Nothing);
    assert_eq!(s.result.skipped, 1);
}

#[test]
fn counts_add_up_to_blocks_processed() {
    let (mut s, _) = BlockSync::start();
    s.step(SyncEvent::BlocksFetched(hashes(6)));
    for i in 0..6 {
        if i % 3 == 0 {
            s.step(SyncEvent::Found);
        } else {
            s.step(SyncEvent::NotFound);
            s.step(SyncEvent::Saved);
        }
    }
    assert_eq!(s.result.saved + s.result.skipped, 6);
    assert_eq!(s.result.saved, s.result.saved_blocks.len());
    assert_eq!(s.result.skipped, s.result.skipped_blocks.len());
    assert_eq!(s.result.skipped_blocks, vec!["h0", "h3"]);
}
