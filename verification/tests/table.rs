use anita::jit::table::Table;

#[test]
fn a_new_table_has_no_name() {
    let table: Table<u32> = Table::new();
    assert_eq!(table.len(), 0);
    assert_eq!(table.get(&"x".to_string()), None);
}

#[test]
fn a_table_has_the_value_of_each_name() {
    let mut table: Table<u32> = Table::new();
    table.insert("x".to_string(), 7);
    table.insert("y".to_string(), 9);
    table.insert("".to_string(), 1);
    assert_eq!(table.len(), 3);
    assert_eq!(table.get(&"x".to_string()), Some(7));
    assert_eq!(table.get(&"y".to_string()), Some(9));
    assert_eq!(table.get(&"".to_string()), Some(1));
    assert_eq!(table.get(&"z".to_string()), None);
    assert_eq!(table.get(&"X".to_string()), None);
}

#[test]
fn a_name_gets_a_new_value() {
    let mut table: Table<u32> = Table::new();
    table.put("x".to_string(), 7);
    table.put("y".to_string(), 9);
    table.put("x".to_string(), 8);
    assert_eq!(table.len(), 2);
    assert_eq!(table.get(&"x".to_string()), Some(8));
    assert_eq!(table.get(&"y".to_string()), Some(9));
    assert_eq!(table.get(&"z".to_string()), None);
}
