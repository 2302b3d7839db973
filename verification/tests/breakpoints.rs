use syslab::breakpoints::BreakpointTable;

#[test]
fn a_new_table_is_empty() {
    let table = BreakpointTable::new();
    assert_eq!(table.len(), 0);
    assert!(!table.contains(0x1000));
    assert_eq!(table.get(0x1000), None);
}

#[test]
fn insert_records_the_byte_and_keeps_the_order() {
    let mut table = BreakpointTable::new();
    assert!(table.insert(0x1000, 0x55));
    assert!(table.insert(0x2000, 0x48));
    assert_eq!(table.len(), 2);
    assert_eq!(table.get(0x1000), Some(0x55));
    assert_eq!(table.get(0x2000), Some(0x48));
    assert_eq!(table.entry(0).addr, 0x1000);
    assert_eq!(table.entry(1).addr, 0x2000);
    assert_eq!(table.entry(1).orig_byte, 0x48);
}

#[test]
fn a_second_insert_keeps_the_entry() {
    let mut table = BreakpointTable::new();
    assert!(table.insert(0x1000, 0x55));
    assert!(!table.insert(0x1000, 0xcc));
    assert_eq!(table.len(), 1);
    assert_eq!(table.get(0x1000), Some(0x55));
}

#[test]
fn remove_hands_out_the_byte_and_deletes_the_entry() {
    let mut table = BreakpointTable::new();
    table.insert(0x1000, 0x55);
    table.insert(0x2000, 0x48);
    table.insert(0x3000, 0x90);
    assert_eq!(table.remove(0x2000), Some(0x48));
    assert_eq!(table.len(), 2);
    assert!(!table.contains(0x2000));
    assert_eq!(table.entry(0).addr, 0x1000);
    assert_eq!(table.entry(1).addr, 0x3000);
    assert_eq!(table.remove(0x2000), None);
    assert_eq!(table.len(), 2);
}
