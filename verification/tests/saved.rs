use syzygy::saved::{
    array_at, i32_at, pop_array, pop_table, same_text, table_at, to_array, to_i32, to_table,
};

#[test]
fn integers_are_brought_into_range() {
    assert_eq!(to_i32(&toml::Value::Integer(5)), 5);
    assert_eq!(to_i32(&toml::Value::Integer(-7)), -7);
    assert_eq!(to_i32(&toml::Value::Integer(i64::MAX)), i32::MAX);
    assert_eq!(to_i32(&toml::Value::Integer(i64::MIN)), i32::MIN);
    assert_eq!(to_i32(&toml::Value::Integer(i32::MAX as i64 + 1)), i32::MAX);
    assert_eq!(to_i32(&toml::Value::String("5".to_string())), 0);
    assert_eq!(to_i32(&toml::Value::Boolean(true)), 0);
}

#[test]
fn lists_and_tables() {
    let list = vec![toml::Value::Integer(1), toml::Value::Boolean(true)];
    assert_eq!(to_array(toml::Value::Array(list.clone())), list);
    assert_eq!(to_array(toml::Value::Integer(1)), Vec::<toml::Value>::new());
    let mut inner = toml::value::Table::new();
    inner.insert("n".to_string(), toml::Value::Integer(9));
    assert_eq!(to_table(toml::Value::Table(inner.clone())), inner);
    assert!(to_table(toml::Value::Boolean(false)).is_empty());

    let mut table = toml::value::Table::new();
    table.insert("list".to_string(), toml::Value::Array(list.clone()));
    table.insert("table".to_string(), toml::Value::Table(inner.clone()));
    table.insert("n".to_string(), toml::Value::Integer(-3));
    assert_eq!(i32_at(&table, "n"), -3);
    assert_eq!(i32_at(&table, "m"), 0);
    assert_eq!(i32_at(&table, "list"), 0);
    assert_eq!(array_at(&table, "list"), Some(&list));
    assert_eq!(array_at(&table, "table"), None);
    assert_eq!(array_at(&table, "nothing"), None);
    assert_eq!(table_at(&table, "table"), Some(&inner));
    assert_eq!(table_at(&table, "n"), None);

    assert_eq!(pop_array(&mut table, "n"), Vec::<toml::Value>::new());
    assert!(!table.contains_key("n"));
    assert_eq!(pop_array(&mut table, "list"), list);
    assert!(!table.contains_key("list"));
    assert_eq!(pop_array(&mut table, "list"), Vec::<toml::Value>::new());
    assert_eq!(pop_table(&mut table, "table"), inner);
    assert!(pop_table(&mut table, "table").is_empty());
    assert!(table.is_empty());
}

#[test]
fn texts_compare_by_characters() {
    assert!(same_text("east", "east"));
    assert!(!same_text("east", "west"));
    assert!(!same_text("east", "eas"));
    assert!(same_text("", ""));
}
