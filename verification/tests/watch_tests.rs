use agent_codemap::watch::{
    should_process_event, ChangeKind, FileObservation, OutputCommand, WatchState,
};

fn obs(path: &str, exists: bool, meta: Option<(u64, u64)>, source: Option<&str>) -> FileObservation {
    FileObservation {
        path: path.to_string(),
        exists,
        meta,
        source: source.map(|s| s.to_string()),
    }
}

fn new_state() -> WatchState {
    WatchState::new("/in".to_string(), "/in/out".to_string())
}

#[test]
fn test_watch_state_new() {
    let state = new_state();
    assert!(state.cache_is_empty());
}

#[test]
fn test_needs_reparse_not_in_cache() {
    let state = new_state();
    assert!(state.needs_reparse("/in/test.rs", Some((100, 12))));
}

#[test]
fn test_needs_reparse_in_cache_unchanged() {
    let mut state = new_state();
    let mut cmds: Vec<OutputCommand> = Vec::new();
    let ok = state.parse_and_write(
        &obs("/in/test.rs", true, Some((100, 12)), Some("fn main() {}")),
        &mut cmds,
    );
    assert!(ok);
    assert!(!state.needs_reparse("/in/test.rs", Some((100, 12))));
}

#[test]
fn test_needs_reparse_size_changed() {
    let mut state = new_state();
    let mut cmds: Vec<OutputCommand> = Vec::new();
    state.parse_and_write(
        &obs("/in/test.rs", true, Some((100, 999)), Some("fn main() {}")),
        &mut cmds,
    );
    assert!(state.needs_reparse("/in/test.rs", Some((100, 12))));
}

#[test]
fn test_needs_reparse_same_second_size_change() {
    // cached (mtime=100, size=10); rewritten to size 12 within the second
    let mut state = new_state();
    let mut cmds: Vec<OutputCommand> = Vec::new();
    let ok = state.parse_and_write(&obs("/in/a.rs", true, Some((100, 10)), Some("fn a() {}")), &mut cmds);
    assert!(ok);
    assert!(!state.needs_reparse("/in/a.rs", Some((100, 10))));
    assert!(state.needs_reparse("/in/a.rs", Some((100, 12))));
}

#[test]
fn test_parse_and_write_success() {
    let mut state = new_state();
    let mut cmds: Vec<OutputCommand> = Vec::new();
    let ok = state.parse_and_write(
        &obs("/in/test.rs", true, Some((100, 13)), Some("fn hello() {}")),
        &mut cmds,
    );
    assert!(ok);
    assert!(state.contains_path("/in/test.rs"));
    assert_eq!(cmds.len(), 1);
    match &cmds[0] {
        OutputCommand::Write { path, content } => {
            assert_eq!(path, "/in/out/test.rs.md");
            assert!(content.contains("# OUTLINE"));
            assert!(content.contains("`hello`"));
        },
        OutputCommand::Remove { .. } => panic!("expected a write"),
    }
}

#[test]
fn test_parse_and_write_unsupported() {
    let mut state = new_state();
    let mut cmds: Vec<OutputCommand> = Vec::new();
    let ok = state.parse_and_write(&obs("/in/test.txt", true, Some((1, 5)), Some("hello")), &mut cmds);
    assert!(!ok);
    assert!(cmds.is_empty());
    assert!(!state.contains_path("/in/test.txt"));
}

#[test]
fn test_parse_and_write_unreadable_source() {
    let mut state = new_state();
    let mut cmds: Vec<OutputCommand> = Vec::new();
    let ok = state.parse_and_write(&obs("/in/test.rs", true, Some((1, 5)), None), &mut cmds);
    assert!(!ok);
    assert!(cmds.is_empty());
}

#[test]
fn test_remove() {
    let mut state = new_state();
    let mut cmds: Vec<OutputCommand> = Vec::new();
    state.parse_and_write(&obs("/in/test.rs", true, Some((1, 13)), Some("fn hello() {}")), &mut cmds);
    assert!(state.contains_path("/in/test.rs"));

    let removed = state.incremental_update(
        &vec![obs("/in/test.rs", false, None, None)],
        &vec![],
        &mut cmds,
    );
    assert_eq!(removed, 1);
    assert!(!state.contains_path("/in/test.rs"));
}

#[test]
fn test_full_scan() {
    let mut state = new_state();
    let mut cmds: Vec<OutputCommand> = Vec::new();
    let files = vec![
        obs("/in/a.rs", true, Some((1, 9)), Some("fn a() {}")),
        obs("/in/b.rs", true, Some((1, 9)), Some("fn b() {}")),
    ];
    let parsed = state.full_scan(&files, &mut cmds);
    assert_eq!(parsed, 2);
    assert!(state.contains_path("/in/a.rs"));
    assert!(state.contains_path("/in/b.rs"));
    assert_eq!(cmds.len(), 2);
}

#[test]
fn test_incremental_update_new_file() {
    let mut state = new_state();
    let mut cmds: Vec<OutputCommand> = Vec::new();
    let updated = state.incremental_update(
        &vec![obs("/in/new.rs", true, Some((5, 11)), Some("fn new() {}"))],
        &vec![],
        &mut cmds,
    );
    assert_eq!(updated, 1);
    assert!(state.contains_path("/in/new.rs"));
}

#[test]
fn test_incremental_update_modified_file() {
    let mut state = new_state();
    let mut cmds: Vec<OutputCommand> = Vec::new();
    state.parse_and_write(&obs("/in/test.rs", true, Some((1, 11)), Some("fn old() {}")), &mut cmds);

    let updated = state.incremental_update(
        &vec![obs("/in/test.rs", true, Some((2, 18)), Some("fn new_longer() {}"))],
        &vec![],
        &mut cmds,
    );
    assert_eq!(updated, 1);
    assert!(!state.needs_reparse("/in/test.rs", Some((2, 18))));
}

#[test]
fn test_incremental_update_deleted_file() {
    let mut state = new_state();
    let mut cmds: Vec<OutputCommand> = Vec::new();
    state.parse_and_write(&obs("/in/test.rs", true, Some((1, 13)), Some("fn hello() {}")), &mut cmds);

    cmds.clear();
    let updated = state.incremental_update(
        &vec![obs("/in/test.rs", false, None, None)],
        &vec![],
        &mut cmds,
    );
    assert_eq!(updated, 1);
    assert!(!state.contains_path("/in/test.rs"));
    assert!(cmds.iter().any(|c| matches!(c, OutputCommand::Remove { path } if path == "/in/out/test.rs.md")));
    assert!(!cmds.iter().any(|c| matches!(c, OutputCommand::Write { .. })));
}

#[test]
fn test_incremental_update_skip_output_dir() {
    let mut state = new_state();
    let mut cmds: Vec<OutputCommand> = Vec::new();
    let updated = state.incremental_update(
        &vec![obs("/in/out/test.md", true, Some((1, 6)), Some("# test"))],
        &vec![],
        &mut cmds,
    );
    assert_eq!(updated, 0);
    assert!(cmds.is_empty());
}

#[test]
fn test_incremental_update_skip_unsupported() {
    let mut state = new_state();
    let mut cmds: Vec<OutputCommand> = Vec::new();
    let updated = state.incremental_update(
        &vec![obs("/in/readme.txt", true, Some((1, 5)), Some("hello"))],
        &vec![],
        &mut cmds,
    );
    assert_eq!(updated, 0);
    assert!(cmds.is_empty());
}

#[test]
fn test_incremental_update_unchanged_batch_is_idempotent() {
    let mut state = new_state();
    let mut cmds: Vec<OutputCommand> = Vec::new();
    let batch = vec![obs("/in/test.rs", true, Some((7, 13)), Some("fn hello() {}"))];
    let first = state.incremental_update(&batch, &vec![], &mut cmds);
    assert_eq!(first, 1);
    let second = state.incremental_update(&batch, &vec![], &mut cmds);
    assert_eq!(second, 0);
}

#[test]
fn test_incremental_update_rescan_discovers_untracked() {
    // a file that appeared with no explicit event is picked up by the rescan
    let mut state = new_state();
    let mut cmds: Vec<OutputCommand> = Vec::new();
    let updated = state.incremental_update(
        &vec![],
        &vec![obs("/in/quiet.rs", true, Some((3, 11)), Some("fn q() {}"))],
        &mut cmds,
    );
    assert_eq!(updated, 1);
    assert!(state.contains_path("/in/quiet.rs"));
}

#[test]
fn test_incremental_update_rescan_skips_tracked() {
    let mut state = new_state();
    let mut cmds: Vec<OutputCommand> = Vec::new();
    let listing = vec![obs("/in/seen.rs", true, Some((3, 11)), Some("fn s() {}"))];
    state.incremental_update(&vec![], &listing, &mut cmds);
    let again = state.incremental_update(&vec![], &listing, &mut cmds);
    assert_eq!(again, 0);
}

#[test]
fn test_incremental_update_rescan_skips_output_root() {
    let mut state = new_state();
    let mut cmds: Vec<OutputCommand> = Vec::new();
    let updated = state.incremental_update(
        &vec![],
        &vec![obs("/in/out/gen.md", true, Some((3, 6)), Some("# gen"))],
        &mut cmds,
    );
    assert_eq!(updated, 0);
    assert!(cmds.is_empty());
    assert!(!state.contains_path("/in/out/gen.md"));
}

#[test]
fn test_should_process_event_create() {
    let paths = vec!["/test.rs".to_string()];
    assert!(should_process_event(&ChangeKind::Create, &paths, "/out"));
}

#[test]
fn test_should_process_event_output_ignored() {
    let paths = vec!["/out/test.md".to_string()];
    assert!(!should_process_event(&ChangeKind::Modify, &paths, "/out"));
}

#[test]
fn test_should_process_event_access_ignored() {
    let paths = vec!["/test.rs".to_string()];
    assert!(!should_process_event(&ChangeKind::Access, &paths, "/out"));
}

#[test]
fn test_should_process_event_remove() {
    let paths = vec!["/test.rs".to_string()];
    assert!(should_process_event(&ChangeKind::Remove, &paths, "/out"));
}
