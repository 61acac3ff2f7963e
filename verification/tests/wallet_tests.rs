use bitcoin_dashboard::wallet::{collect_descriptors, descriptor_from_fields, group_by_address, DescriptorFields};
use bitcoin_dashboard::wallet_setup::{SetupAction, SetupEvent, SetupOutcome, SetupStep, WalletSetup};

fn fields(desc: Option<&str>) -> DescriptorFields {
    DescriptorFields { desc: desc.map(|s| s.to_string()), active: None, timestamp: None, range: None }
}

#[test]
fn descriptor_defaults() {
    let d = descriptor_from_fields(&fields(Some("wpkh(abc)"))).unwrap();
    assert_eq!(d.descriptor, "wpkh(abc)");
    assert!(!d.active);
    assert_eq!(d.timestamp, 0);
    assert!(d.range.is_none());
}

#[test]
fn descriptor_fields_kept() {
    let f = DescriptorFields {
        desc: Some("tr(xyz)".to_string()),
        active: Some(true),
        timestamp: Some(1700000000),
        range: Some(vec![Some(0), None, Some(999)]),
    };
    let d = descriptor_from_fields(&f).unwrap();
    assert!(d.active);
    assert_eq!(d.timestamp, 1700000000);
    assert_eq!(d.range, Some(vec![0, 999]));
}

#[test]
fn entries_without_descriptor_are_skipped() {
    assert!(descriptor_from_fields(&fields(None)).is_none());
    assert!(descriptor_from_fields(&fields(Some(""))).is_none());
    let all = collect_descriptors(&vec![fields(Some("a")), fields(None), fields(Some("")), fields(Some("b"))]);
    let names: Vec<&str> = all.iter().map(|d| d.descriptor.as_str()).collect();
    assert_eq!(names, vec!["a", "b"]);
}

#[test]
fn outputs_grouped_by_address() {
    let addrs = vec![
        Some("bcrt1qa".to_string()),
        Some("bcrt1qb".to_string()),
        None,
        Some("bcrt1qa".to_string()),
        Some("bcrt1qc".to_string()),
        Some("bcrt1qb".to_string()),
    ];
    let g = group_by_address(&addrs);
    assert_eq!(g.len(), 3);
    assert_eq!(g[0].address, "bcrt1qa");
    assert_eq!(g[0].members, vec![0, 3]);
    assert_eq!(g[1].address, "bcrt1qb");
    assert_eq!(g[1].members, vec![1, 5]);
    assert_eq!(g[2].address, "bcrt1qc");
    assert_eq!(g[2].members, vec![4]);
}

#[test]
fn no_outputs_no_groups() {
    assert!(group_by_address(&vec![]).is_empty());
    assert!(group_by_address(&vec![None, None]).is_empty());
}

fn names(v: &[&str]) -> Vec<String> {
    v.iter().map(|s| s.to_string()).collect()
}

#[test]
fn setup_of_loaded_wallet() {
    let (mut s, a) = WalletSetup::start("student".to_string());
    assert_eq!(a, SetupAction::ListWallets);
    assert_eq!(
        s.step(SetupEvent::Listed(names(&["student"]))),
        SetupAction::Finish(SetupOutcome::AlreadyLoaded)
    );
}

#[test]
fn setup_loads_existing_wallet() {
    let (mut s, _) = WalletSetup::start("student".to_string());
    assert_eq!(s.step(SetupEvent::Listed(names(&["other"]))), SetupAction::LoadWallet);
    assert_eq!(s.step(SetupEvent::Succeeded), SetupAction::Finish(SetupOutcome::LoadedExisting));
}

#[test]
fn setup_creates_missing_wallet_and_polls_four_times() {
    let (mut s, _) = WalletSetup::start("student".to_string());
    s.step(SetupEvent::Listed(vec![]));
    let msg = "Wallet file verification failed. Failed to load database path '/x'. Path does not exist.";
    assert_eq!(s.step(SetupEvent::Failed(msg.to_string())), SetupAction::CreateWallet);
    assert_eq!(s.step(SetupEvent::Succeeded), SetupAction::PauseThenList(500));
    assert_eq!(s.step(SetupEvent::Listed(vec![])), SetupAction::PauseThenList(500));
    assert_eq!(s.step(SetupEvent::Listed(vec![])), SetupAction::PauseThenList(500));
    assert_eq!(s.step(SetupEvent::Listed(vec![])), SetupAction::PauseThenList(500));
    assert_eq!(s.step(SetupEvent::Listed(vec![])), SetupAction::LoadWallet);
    assert_eq!(s.step, SetupStep::ManualLoad);
    assert_eq!(s.step(SetupEvent::Succeeded), SetupAction::Finish(SetupOutcome::ManuallyLoaded));
}

#[test]
fn setup_sees_auto_loaded_wallet() {
    let (mut s, _) = WalletSetup::start("student".to_string());
    s.step(SetupEvent::Listed(vec![]));
    s.step(SetupEvent::Failed("Path does not exist".to_string()));
    s.step(SetupEvent::Succeeded);
    assert_eq!(
        s.step(SetupEvent::Listed(names(&["student"]))),
        SetupAction::Finish(SetupOutcome::AutoLoaded)
    );
}

#[test]
fn setup_waits_once_for_locked_wallet() {
    let (mut s, _) = WalletSetup::start("student".to_string());
    s.step(SetupEvent::Listed(vec![]));
    assert_eq!(
        s.step(SetupEvent::Failed("Unable to obtain an exclusive lock on the database".to_string())),
        SetupAction::PauseThenList(1000)
    );
    assert_eq!(s.step(SetupEvent::Listed(vec![])), SetupAction::Finish(SetupOutcome::StillLocked));

    let (mut t, _) = WalletSetup::start("student".to_string());
    t.step(SetupEvent::Listed(vec![]));
    t.step(SetupEvent::Failed("wallet is locked".to_string()));
    assert_eq!(t.step(SetupEvent::Listed(names(&["student"]))), SetupAction::Finish(SetupOutcome::NowLoaded));
}

#[test]
fn setup_fails_on_other_errors() {
    let (mut s, _) = WalletSetup::start("student".to_string());
    s.step(SetupEvent::Listed(vec![]));
    assert_eq!(s.step(SetupEvent::Failed("RPC timeout".to_string())), SetupAction::Finish(SetupOutcome::Failed));
    assert_eq!(s.step(SetupEvent::Succeeded), SetupAction::Nothing);

    let (mut t, _) = WalletSetup::start("student".to_string());
    assert_eq!(t.step(SetupEvent::Failed("no node".to_string())), SetupAction::Finish(SetupOutcome::Failed));
}
