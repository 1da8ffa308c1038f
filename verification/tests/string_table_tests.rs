use fstprof::string_table::StringTable;

#[test]
fn empty_string_reserved_at_zero() {
    let t = StringTable::new();
    let table = t.to_string_table();
    assert_eq!(table.len(), 1);
    assert_eq!(table[0], "");
}

#[test]
fn same_string_same_id() {
    let mut t = StringTable::new();
    let a = t.id("clk");
    let b = t.id("clk");
    assert_eq!(a, b);
    assert_eq!(t.to_string_table().len(), 2);
}

#[test]
fn distinct_strings_strictly_increasing_from_one() {
    let mut t = StringTable::new();
    let a = t.id("alpha");
    let b = t.id("beta");
    let c = t.id("gamma");
    assert_eq!(a, 1);
    assert_eq!(b, 2);
    assert_eq!(c, 3);
}

#[test]
fn empty_string_keeps_id_zero() {
    let mut t = StringTable::new();
    assert_eq!(t.id(""), 0);
    t.id("x");
    assert_eq!(t.id(""), 0);
}

#[test]
fn known_string_does_not_disturb_table() {
    let mut t = StringTable::new();
    t.id("a");
    t.id("b");
    let before = t.to_string_table();
    let id_again = t.id("a");
    assert_eq!(id_again, 1);
    assert_eq!(t.to_string_table(), before);
}

#[test]
fn table_projection_ordered_by_id() {
    let mut t = StringTable::new();
    t.id("b");
    t.id("a");
    let table = t.to_string_table();
    assert_eq!(table, vec!["".to_string(), "b".to_string(), "a".to_string()]);
}
