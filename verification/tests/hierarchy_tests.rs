use fstprof::hierarchy::{collect_signals, HierarchyEntry, HierarchyError};

fn scope(name: &str) -> HierarchyEntry {
    HierarchyEntry::Scope { name: name.to_string() }
}

fn var(name: &str, handle: u64) -> HierarchyEntry {
    HierarchyEntry::Var { name: name.to_string(), handle }
}

fn names(list: &[&str]) -> Vec<String> {
    list.iter().map(|s| s.to_string()).collect()
}

#[test]
fn resolves_requested_names_with_paths() {
    let entries = vec![
        scope("top"),
        var("clk", 0),
        scope("sub"),
        var("valid", 1),
        HierarchyEntry::UpScope,
        HierarchyEntry::UpScope,
    ];
    let md = collect_signals(&entries, &names(&["clk", "valid"])).unwrap();
    assert_eq!(md.names, vec!["clk".to_string(), "valid".to_string()]);
    assert_eq!(md.handle, vec![0, 1]);
    assert_eq!(md.module_paths[0], vec!["top".to_string()]);
    assert_eq!(md.module_paths[1], vec!["top".to_string(), "sub".to_string()]);
}

#[test]
fn duplicate_request_yields_single_entry() {
    let entries = vec![scope("top"), var("clk", 7), HierarchyEntry::UpScope];
    let md = collect_signals(&entries, &names(&["clk", "clk"])).unwrap();
    assert_eq!(md.names.len(), 1);
    assert_eq!(md.handle, vec![7]);
}

#[test]
fn aliased_handle_yields_single_entry() {
    let entries = vec![
        scope("top"),
        var("clk", 3),
        var("clk_alias", 3),
        HierarchyEntry::UpScope,
    ];
    let md = collect_signals(&entries, &names(&["clk", "clk_alias"])).unwrap();
    assert_eq!(md.handle, vec![3]);
    assert_eq!(md.names, vec!["clk".to_string()]);
}

#[test]
fn absent_name_produces_no_entries() {
    let entries = vec![scope("top"), var("clk", 0), HierarchyEntry::UpScope];
    let md = collect_signals(&entries, &names(&["missing"])).unwrap();
    assert!(md.names.is_empty());
    assert!(md.handle.is_empty());
    assert!(md.module_paths.is_empty());
}

#[test]
fn empty_request_produces_empty_metadata() {
    let entries = vec![scope("top"), var("clk", 0), HierarchyEntry::UpScope];
    let md = collect_signals(&entries, &Vec::new()).unwrap();
    assert!(md.names.is_empty());
    assert!(md.handle.is_empty());
}

#[test]
fn ignored_entry_kinds_do_not_abort() {
    let entries = vec![
        HierarchyEntry::Other,
        scope("top"),
        HierarchyEntry::Other,
        var("clk", 0),
        HierarchyEntry::Other,
        HierarchyEntry::UpScope,
        HierarchyEntry::Other,
    ];
    let md = collect_signals(&entries, &names(&["clk"])).unwrap();
    assert_eq!(md.handle, vec![0]);
}

#[test]
fn unbalanced_scope_close_is_rejected() {
    let entries = vec![scope("top"), HierarchyEntry::UpScope, HierarchyEntry::UpScope];
    let err = collect_signals(&entries, &names(&["clk"])).unwrap_err();
    assert_eq!(err, HierarchyError::UnbalancedScope);
}

#[test]
fn deep_nesting_balances_back_to_empty() {
    let mut entries = Vec::new();
    for depth in 0..64u64 {
        entries.push(scope(&format!("s{depth}")));
    }
    entries.push(var("leaf", 42));
    for _ in 0..64 {
        entries.push(HierarchyEntry::UpScope);
    }
    let md = collect_signals(&entries, &names(&["leaf"])).unwrap();
    assert_eq!(md.handle, vec![42]);
    assert_eq!(md.module_paths[0].len(), 64);
    assert_eq!(md.module_paths[0][0], "s0");
    assert_eq!(md.module_paths[0][63], "s63");
}

#[test]
fn snapshot_path_is_independent_of_later_traversal() {
    let entries = vec![
        scope("a"),
        var("x", 1),
        HierarchyEntry::UpScope,
        scope("b"),
        var("y", 2),
        HierarchyEntry::UpScope,
    ];
    let md = collect_signals(&entries, &names(&["x", "y"])).unwrap();
    assert_eq!(md.module_paths[0], vec!["a".to_string()]);
    assert_eq!(md.module_paths[1], vec!["b".to_string()]);
}
