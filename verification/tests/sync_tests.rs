use remoteio::message::{Field, Message};
use remoteio::sync::{
    delete_target, endpoint_to_rsync_path, finish_sync, handle_message, initiate_sync, launch_failure,
    preview_entries, preview_files, preview_plan, save_target, stamp_last_synced, sync_outcome, sync_paths,
    Direction, SyncAction, SyncEndpoint, SyncStart, SyncTarget, Syncing,
};

fn msg(fields: &[(&str, &str)]) -> Message {
    let mut m = Message::empty();
    for (k, v) in fields {
        m.fields.push((k.to_string(), Field::Text(v.to_string())));
    }
    m
}

fn make_target(name: &str) -> SyncTarget {
    SyncTarget {
        name: name.into(),
        local: SyncEndpoint { host: String::new(), path: "/local/".into(), user: String::new() },
        remote: SyncEndpoint { host: "remote.local".into(), path: "/remote/".into(), user: "user".into() },
        last_synced: None,
    }
}

fn syncing_with(names: &[&str]) -> Syncing {
    let mut s = Syncing::new();
    for n in names {
        s.insert(n.to_string());
    }
    s
}

#[test]
fn test_sync_push_broadcasts_status() {
    let mut syncing = Syncing::new();
    let targets = vec![make_target("MyLaptop")];
    let start = initiate_sync(&msg(&[("type", "sync_push"), ("name", "MyLaptop")]), &mut syncing, &targets);
    match start {
        SyncStart::Started { direction, target } => {
            assert_eq!(direction.as_text(), "push");
            assert_eq!(target.name, "MyLaptop");
        }
        _ => panic!("sync should start"),
    }
    assert!(syncing.contains("MyLaptop"));
}

#[test]
fn test_sync_unknown_target() {
    let mut syncing = Syncing::new();
    let targets = vec![make_target("Existing")];
    let start = initiate_sync(&msg(&[("type", "sync_pull"), ("name", "NonExistent")]), &mut syncing, &targets);
    match start {
        SyncStart::UnknownTarget { direction, message } => {
            assert_eq!(direction.as_text(), "pull");
            assert!(message.contains("Unknown target"));
            assert_eq!(message, "Unknown target: NonExistent");
        }
        _ => panic!("target should be unknown"),
    }
    assert_eq!(syncing.len(), 0);
}

#[test]
fn test_sync_push_missing_name() {
    let mut syncing = Syncing::new();
    let start = initiate_sync(&msg(&[("type", "sync_push")]), &mut syncing, &vec![]);
    assert!(matches!(start, SyncStart::Ignored));
    assert_eq!(syncing.len(), 0);
}

#[test]
fn test_ignore_concurrent_same_target() {
    let mut syncing = syncing_with(&["Old"]);
    let targets = vec![make_target("Old"), make_target("Other")];
    let start = initiate_sync(&msg(&[("type", "sync_push"), ("name", "Old")]), &mut syncing, &targets);
    assert!(matches!(start, SyncStart::AlreadyRunning));
    assert!(syncing.contains("Old"));
    assert_eq!(syncing.len(), 1);
}

#[test]
fn test_concurrent_different_targets_allowed() {
    let mut syncing = syncing_with(&["Existing"]);
    let targets = vec![make_target("Existing"), make_target("Other")];
    let start = initiate_sync(&msg(&[("type", "sync_pull"), ("name", "Other")]), &mut syncing, &targets);
    match start {
        SyncStart::Started { target, .. } => assert_eq!(target.name, "Other"),
        _ => panic!("sync should start"),
    }
    assert!(syncing.contains("Existing"));
    assert!(syncing.contains("Other"));
    assert_eq!(syncing.len(), 2);
}

#[test]
fn test_save_new_target_updates_file() {
    let mut targets: Vec<SyncTarget> = Vec::new();
    save_target(&mut targets, make_target("NewTarget"));
    assert_eq!(targets.len(), 1);
    assert_eq!(targets[0].name, "NewTarget");
}

#[test]
fn test_delete_target() {
    let mut targets = vec![make_target("Keep"), make_target("Remove")];
    delete_target(&mut targets, "Remove");
    assert_eq!(targets.len(), 1);
    assert_eq!(targets[0].name, "Keep");
}

#[test]
fn test_endpoint_to_rsync_path() {
    let local = SyncEndpoint { host: String::new(), path: "/local/path/".into(), user: String::new() };
    assert_eq!(endpoint_to_rsync_path(&local), "/local/path/");

    let remote = SyncEndpoint { host: "example.com".into(), path: "~/remote/".into(), user: "alice".into() };
    assert_eq!(endpoint_to_rsync_path(&remote), "alice@example.com:~/remote/");

    let no_user = SyncEndpoint { host: "backup.local".into(), path: "/backups/".into(), user: String::new() };
    assert_eq!(endpoint_to_rsync_path(&no_user), "backup.local:/backups/");
}

#[test]
fn test_load_save_targets() {
    let mut targets: Vec<SyncTarget> = Vec::new();
    save_target(&mut targets, make_target("Test"));
    assert_eq!(targets.len(), 1);
    assert_eq!(targets[0].name, "Test");
    assert_eq!(targets[0].remote.host, "remote.local");
}

// ---- further cases ----

#[test]
fn save_replaces_target_of_same_name() {
    let mut targets = vec![make_target("A"), make_target("B")];
    let mut changed = make_target("A");
    changed.local.path = "/elsewhere/".into();
    save_target(&mut targets, changed);
    assert_eq!(targets.len(), 2);
    assert_eq!(targets[0].local.path, "/elsewhere/");
    assert_eq!(targets[1].name, "B");
}

#[test]
fn delete_drops_every_target_of_that_name() {
    let mut targets = vec![make_target("X"), make_target("Y"), make_target("X")];
    delete_target(&mut targets, "X");
    assert_eq!(targets.len(), 1);
    assert_eq!(targets[0].name, "Y");
}

#[test]
fn finish_frees_target() {
    let mut syncing = Syncing::new();
    let targets = vec![make_target("T")];
    let request = msg(&[("type", "sync_push"), ("name", "T")]);
    assert!(matches!(initiate_sync(&request, &mut syncing, &targets), SyncStart::Started { .. }));
    assert!(matches!(initiate_sync(&request, &mut syncing, &targets), SyncStart::AlreadyRunning));
    assert!(!finish_sync(&mut syncing, "T", &Err("failed".to_string())));
    assert_eq!(syncing.len(), 0);
    assert!(matches!(initiate_sync(&request, &mut syncing, &targets), SyncStart::Started { .. }));
    assert!(finish_sync(&mut syncing, "T", &Ok("done".to_string())));
    assert_eq!(syncing.len(), 0);
    assert!(matches!(initiate_sync(&request, &mut syncing, &targets), SyncStart::Started { .. }));
}

#[test]
fn paths_follow_direction() {
    let t = make_target("T");
    let (src, dst) = sync_paths(&t, Direction::Push);
    assert_eq!(src, "/local/");
    assert_eq!(dst, "user@remote.local:/remote/");
    let (src, dst) = sync_paths(&t, Direction::Pull);
    assert_eq!(src, "user@remote.local:/remote/");
    assert_eq!(dst, "/local/");
}

#[test]
fn outcome_reports_last_line() {
    let ok = sync_outcome(true, b"sending incremental file list\r\nsent 10 bytes\ntotal size is 5\n", b"");
    assert_eq!(ok, Ok("total size is 5".to_string()));
    assert_eq!(sync_outcome(true, b"", b"ignored"), Ok("done".to_string()));
    assert_eq!(sync_outcome(false, b"out", b"rsync: failed"), Err("rsync: failed".to_string()));
    assert_eq!(sync_outcome(false, b"", b"bad \xff byte"), Err("bad \u{fffd} byte".to_string()));
}

#[test]
fn launch_failure_text() {
    assert_eq!(launch_failure("not found"), "Failed to execute rsync: not found");
}

#[test]
fn preview_lists_files() {
    let out = "sending incremental file list\ndeleting old.txt\nnew.txt\r\n\nsent 100 bytes  received 20 bytes\ntotal size is 0  speedup\nsub/\n";
    let files = preview_entries(out);
    assert_eq!(files.len(), 3);
    assert_eq!(files[0].path, "old.txt");
    assert!(files[0].deleted);
    assert_eq!(files[1].path, "new.txt");
    assert!(!files[1].deleted);
    assert_eq!(files[2].path, "sub/");
    assert!(preview_files(false, out.as_bytes()).is_empty());
    assert_eq!(preview_files(true, b"receiving file list\nx\n").len(), 1);
}

#[test]
fn preview_plan_needs_known_target() {
    let targets = vec![make_target("T")];
    let plan = preview_plan(&msg(&[("type", "sync_push_preview"), ("name", "T")]), &targets).unwrap();
    assert_eq!(plan.name, "T");
    assert!(plan.direction == Direction::Push);
    assert_eq!(plan.source, "/local/");
    assert_eq!(plan.destination, "user@remote.local:/remote/");
    let plan = preview_plan(&msg(&[("type", "sync_pull_preview"), ("name", "T")]), &targets).unwrap();
    assert!(plan.direction == Direction::Pull);
    assert!(preview_plan(&msg(&[("type", "sync_pull_preview"), ("name", "U")]), &targets).is_none());
    assert!(preview_plan(&msg(&[("type", "sync_pull_preview")]), &targets).is_none());
}

#[test]
fn stamp_records_time() {
    let mut targets = vec![make_target("A"), make_target("B")];
    assert!(stamp_last_synced(&mut targets, "B", "2024-08-30 14:57:49".to_string()));
    assert_eq!(targets[1].last_synced.as_deref(), Some("2024-08-30 14:57:49"));
    assert!(targets[0].last_synced.is_none());
    assert!(!stamp_last_synced(&mut targets, "C", "x".to_string()));
}

#[test]
fn handler_routes_each_type() {
    let mut targets = vec![make_target("A")];
    let mut syncing = Syncing::new();
    assert!(matches!(handle_message(&msg(&[("type", "sync_list")]), &mut targets, &mut syncing), SyncAction::SendList));
    let mut save = msg(&[("type", "sync_save")]);
    assert!(matches!(handle_message(&save, &mut targets, &mut syncing), SyncAction::Nothing));
    save.target = Some(make_target("B"));
    assert!(matches!(handle_message(&save, &mut targets, &mut syncing), SyncAction::StoreList));
    assert_eq!(targets.len(), 2);
    assert!(matches!(
        handle_message(&msg(&[("type", "sync_delete"), ("name", "A")]), &mut targets, &mut syncing),
        SyncAction::StoreList
    ));
    assert_eq!(targets.len(), 1);
    assert!(matches!(handle_message(&msg(&[("type", "sync_delete")]), &mut targets, &mut syncing), SyncAction::Nothing));
    assert!(matches!(
        handle_message(&msg(&[("type", "sync_push_preview"), ("name", "B")]), &mut targets, &mut syncing),
        SyncAction::Preview(_)
    ));
    assert!(matches!(
        handle_message(&msg(&[("type", "sync_pull"), ("name", "B")]), &mut targets, &mut syncing),
        SyncAction::Start(SyncStart::Started { .. })
    ));
    assert!(matches!(handle_message(&msg(&[("type", "other")]), &mut targets, &mut syncing), SyncAction::Nothing));
}
