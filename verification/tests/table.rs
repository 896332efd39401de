use bum::table::{bytes_precede, Table};

#[test]
fn bytes_precede_is_the_order_of_strings() {
    let texts = ["", "a", "ab", "b", "B", "10", "9", "a\u{e9}", "a\u{0}", "\u{10ffff}"];
    for a in texts {
        for b in texts {
            assert_eq!(bytes_precede(a.as_bytes(), b.as_bytes()), a < b, "{:?} {:?}", a, b);
        }
    }
}

#[test]
fn table_keeps_its_keys_in_order() {
    let mut table: Table<u32> = Table::new();
    for (key, value) in [("m", 1), ("a", 2), ("z", 3), ("b", 4), ("", 5)] {
        table.insert(key.to_string(), value);
    }
    assert_eq!(table.len(), 5);
    let keys: Vec<&str> = (0..table.len()).map(|i| table.key_at(i)).collect();
    assert_eq!(keys, vec!["", "a", "b", "m", "z"]);
    let values: Vec<u32> = (0..table.len()).map(|i| *table.value_at(i)).collect();
    assert_eq!(values, vec![5, 2, 4, 1, 3]);
}

#[test]
fn table_insert_replaces_the_value_of_a_key() {
    let mut table: Table<&str> = Table::new();
    table.insert("k".to_string(), "old");
    table.insert("j".to_string(), "other");
    table.insert("k".to_string(), "new");
    assert_eq!(table.len(), 2);
    assert_eq!(table.get("k"), Some(&"new"));
    assert_eq!(table.get("j"), Some(&"other"));
}

#[test]
fn table_get_of_a_key_that_is_not_there() {
    let mut table: Table<u8> = Table::new();
    assert_eq!(table.get("a"), None);
    table.insert("b".to_string(), 1);
    table.insert("d".to_string(), 2);
    assert_eq!(table.get("a"), None);
    assert_eq!(table.get("c"), None);
    assert_eq!(table.get("e"), None);
    assert_eq!(table.get("bb"), None);
    assert_eq!(table.get("b"), Some(&1));
    assert_eq!(table.get("d"), Some(&2));
}

#[test]
fn table_finds_every_key_among_many() {
    let mut table: Table<usize> = Table::new();
    for i in 0..200usize {
        table.insert(format!("{}", (i * 37) % 200), i);
    }
    assert_eq!(table.len(), 200);
    for i in 0..200usize {
        assert_eq!(table.get(&format!("{}", (i * 37) % 200)), Some(&i));
    }
    for i in 1..table.len() {
        assert!(table.key_at(i - 1) < table.key_at(i));
    }
}
