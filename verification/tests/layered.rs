use fact_rule_event::{FactKey, FactReader, FactValue, LayeredFactDatabase};

#[test]
fn test_layered_read_priority() {
    let mut db = LayeredFactDatabase::new();

    db.set_global("shared_key", 100i64.into());
    assert_eq!(db.get_int("shared_key"), Some(100));

    db.set_local("shared_key", 200i64.into());
    assert_eq!(db.get_int("shared_key"), Some(200));

    db.clear_local();
    assert_eq!(db.get_int("shared_key"), Some(100));
}

#[test]
fn test_layer_isolation() {
    let mut db = LayeredFactDatabase::new();

    db.set_local("local_only", "local_value".into());
    db.set_global("global_only", "global_value".into());

    assert!(db.contains_local("local_only"));
    assert!(!db.contains_global("local_only"));

    assert!(db.contains_global("global_only"));
    assert!(!db.contains_local("global_only"));
}

#[test]
fn test_promote_to_global() {
    let mut db = LayeredFactDatabase::new();

    db.set_local("temp_score", 42i64.into());
    assert!(db.contains_local("temp_score"));
    assert!(!db.contains_global("temp_score"));

    db.promote_to_global("temp_score");
    assert!(!db.contains_local("temp_score"));
    assert!(db.contains_global("temp_score"));
    assert_eq!(db.get_int("temp_score"), Some(42));
}

#[test]
fn test_increment_across_layers() {
    let mut db = LayeredFactDatabase::new();

    db.set_global("counter", 10i64.into());
    db.increment("counter", 5);

    assert_eq!(db.get_int("counter"), Some(15));
    assert_eq!(db.global().get_int("counter"), Some(10));
}

#[test]
fn test_copy_to_global() {
    let mut db = LayeredFactDatabase::new();

    db.set_local("data", "important".into());
    assert!(db.copy_to_global("data"));

    assert!(db.contains_local("data"));
    assert!(db.contains_global("data"));
    assert_eq!(db.local().get_string("data"), Some("important"));
    assert_eq!(db.global().get_string("data"), Some("important"));
}

#[test]
fn test_copy_to_global_nonexistent() {
    let mut db = LayeredFactDatabase::new();
    assert!(!db.copy_to_global("nonexistent"));
}

#[test]
fn test_demote_to_local() {
    let mut db = LayeredFactDatabase::new();

    db.set_global("global_data", 100i64.into());
    assert!(db.demote_to_local("global_data"));

    assert!(!db.contains_global("global_data"));
    assert!(db.contains_local("global_data"));
    assert_eq!(db.get_int("global_data"), Some(100));
}

#[test]
fn test_demote_to_local_nonexistent() {
    let mut db = LayeredFactDatabase::new();
    assert!(!db.demote_to_local("nonexistent"));
}

#[test]
fn test_promote_to_global_nonexistent() {
    let mut db = LayeredFactDatabase::new();
    assert!(!db.promote_to_global("nonexistent"));
}

#[test]
fn test_remove_operations() {
    let mut db = LayeredFactDatabase::new();

    db.set_local("local_key", 1i64.into());
    db.set_global("global_key", 2i64.into());

    let removed_local = db.remove("local_key");
    assert_eq!(removed_local, Some(FactValue::Int(1)));
    assert!(!db.contains_local("local_key"));

    let removed_global = db.remove_global("global_key");
    assert_eq!(removed_global, Some(FactValue::Int(2)));
    assert!(!db.contains_global("global_key"));
}

#[test]
fn test_clear_all() {
    let mut db = LayeredFactDatabase::new();

    db.set_local("local", 1i64.into());
    db.set_global("global", 2i64.into());
    assert!(!db.is_empty());

    db.clear_all();
    assert!(db.is_empty());
    assert_eq!(db.len(), 0);
    assert_eq!(db.local_len(), 0);
    assert_eq!(db.global_len(), 0);
}

#[test]
fn test_len_operations() {
    let mut db = LayeredFactDatabase::new();
    assert_eq!(db.len(), 0);
    assert_eq!(db.local_len(), 0);
    assert_eq!(db.global_len(), 0);
    assert!(db.is_empty());

    db.set_local("l1", 1i64.into());
    db.set_local("l2", 2i64.into());
    db.set_global("g1", 3i64.into());

    assert_eq!(db.local_len(), 2);
    assert_eq!(db.global_len(), 1);
    assert_eq!(db.len(), 3);
    assert!(!db.is_empty());
}

#[test]
fn test_get_typed_values() {
    let mut db = LayeredFactDatabase::new();

    db.set_local("int_val", 42i64.into());
    db.set_local("float_val", FactValue::Float(2.71f64.to_bits()));
    db.set_local("bool_val", true.into());
    db.set_local("str_val", "hello".into());

    assert_eq!(db.get_int("int_val"), Some(42));
    assert_eq!(db.get_float("float_val").map(f64::from_bits), Some(2.71));
    assert_eq!(db.get_bool("bool_val"), Some(true));
    assert_eq!(db.get_string("str_val"), Some("hello"));

    assert_eq!(db.get_int_or("int_val", 0), 42);
    assert_eq!(db.get_int_or("missing", 100), 100);
}

#[test]
fn test_contains_both_layers() {
    let mut db = LayeredFactDatabase::new();

    db.set_local("local", 1i64.into());
    db.set_global("global", 2i64.into());

    assert!(db.contains("local"));
    assert!(db.contains("global"));
    assert!(!db.contains("missing"));
}

#[test]
fn test_get_by_fact_key() {
    let mut db = LayeredFactDatabase::new();

    db.set_local("test_key", 42i64.into());
    let key = FactKey::new("test_key");

    assert_eq!(db.get(&key), Some(&FactValue::Int(42)));
}

#[test]
fn test_increment_global() {
    let mut db = LayeredFactDatabase::new();

    db.set_global("global_counter", 10i64.into());
    db.increment_global("global_counter", 5);

    assert_eq!(db.global().get_int("global_counter"), Some(15));
}

#[test]
fn test_increment_creates_if_missing() {
    let mut db = LayeredFactDatabase::new();

    db.increment("new_counter", 10);
    assert_eq!(db.get_int("new_counter"), Some(10));

    db.increment_global("new_global_counter", 20);
    assert_eq!(db.global().get_int("new_global_counter"), Some(20));
}

#[test]
fn test_direct_layer_access() {
    let mut db = LayeredFactDatabase::new();

    db.local_mut().set("direct_local", 1i64.into());
    assert_eq!(db.local().get_int("direct_local"), Some(1));

    db.global_mut().set("direct_global", 2i64.into());
    assert_eq!(db.global().get_int("direct_global"), Some(2));
}

fn check_reader(reader: &impl FactReader) {
    assert!(reader.contains("global_fact"));
    assert!(reader.contains("local_fact"));
    assert!(!reader.contains("missing"));
    assert_eq!(reader.get_int("global_fact"), Some(100));
    assert_eq!(reader.get_int("local_fact"), Some(200));
}

#[test]
fn test_fact_reader_trait_impl() {
    let mut db = LayeredFactDatabase::new();
    db.set_global("global_fact", 100i64.into());
    db.set_local("local_fact", 200i64.into());

    check_reader(&db);
}

#[test]
fn test_string_fallback_to_global() {
    let mut db = LayeredFactDatabase::new();

    db.set_global("player_name", "GlobalPlayer".into());
    assert_eq!(db.get_string("player_name"), Some("GlobalPlayer"));

    db.set_local("player_name", "LocalPlayer".into());
    assert_eq!(db.get_string("player_name"), Some("LocalPlayer"));

    db.clear_local();
    assert_eq!(db.get_string("player_name"), Some("GlobalPlayer"));
}

#[test]
fn local_write_shadows_until_removed() {
    let mut db = LayeredFactDatabase::new();
    db.set_global("k", 1i64.into());
    db.set_local("k", 2i64.into());
    assert_eq!(db.get_int("k"), Some(2));
    assert_eq!(db.remove("k"), Some(FactValue::Int(2)));
    assert_eq!(db.get_int("k"), Some(1));
}

#[test]
fn clear_local_leaves_global_alone() {
    let mut db = LayeredFactDatabase::new();
    db.set_global("g", 1i64.into());
    db.set_local("l", 2i64.into());
    db.clear_local();
    assert_eq!(db.global_len(), 1);
    assert_eq!(db.local_len(), 0);
    db.set_local("l", 2i64.into());
    db.clear_global();
    assert_eq!(db.global_len(), 0);
    assert_eq!(db.local_len(), 1);
}

#[test]
fn wrap_brings_a_value_into_the_range() {
    let mut db = LayeredFactDatabase::new();
    db.set("k", 13i64.into());
    db.wrap("k", 0, 10);
    assert_eq!(db.get_int("k"), Some(3));
    db.set("k", (-3i64).into());
    db.wrap("k", 0, 10);
    assert_eq!(db.get_int("k"), Some(7));
    db.set("k", 10i64.into());
    db.wrap("k", 0, 10);
    assert_eq!(db.get_int("k"), Some(0));
    db.set("k", 4i64.into());
    db.wrap("k", 5, 8);
    assert_eq!(db.get_int("k"), Some(7));
}

#[test]
fn wrap_does_nothing_on_an_empty_range() {
    let mut db = LayeredFactDatabase::new();
    db.set("k", 13i64.into());
    db.wrap("k", 10, 10);
    assert_eq!(db.get_int("k"), Some(13));
    db.wrap("k", 10, 0);
    assert_eq!(db.get_int("k"), Some(13));
    db.wrap("missing", 0, 10);
    assert!(!db.contains("missing"));
}

#[test]
fn wrap_stands_the_widest_range() {
    let mut db = LayeredFactDatabase::new();
    db.set("k", i64::MAX.into());
    db.wrap("k", i64::MIN, i64::MAX);
    assert_eq!(db.get_int("k"), Some(i64::MIN));
    db.set("k", 5i64.into());
    db.wrap("k", i64::MIN, i64::MAX);
    assert_eq!(db.get_int("k"), Some(5));
}

#[test]
fn modulo_keeps_the_sign_of_the_value() {
    let mut db = LayeredFactDatabase::new();
    db.set("k", 10i64.into());
    db.modulo("k", 3);
    assert_eq!(db.get_int("k"), Some(1));
    db.set("k", (-10i64).into());
    db.modulo("k", 3);
    assert_eq!(db.get_int("k"), Some(-1));
    db.set("k", 10i64.into());
    db.modulo("k", -3);
    assert_eq!(db.get_int("k"), Some(1));
    db.set("k", i64::MIN.into());
    db.modulo("k", -1);
    assert_eq!(db.get_int("k"), Some(0));
}

#[test]
fn modulo_by_zero_changes_nothing() {
    let mut db = LayeredFactDatabase::new();
    db.set("k", 10i64.into());
    db.modulo("k", 0);
    assert_eq!(db.get_int("k"), Some(10));
    db.modulo("missing", 3);
    assert!(!db.contains("missing"));
}

#[test]
fn modulo_writes_to_the_local_layer() {
    let mut db = LayeredFactDatabase::new();
    db.set_global("k", 10i64.into());
    db.modulo("k", 4);
    assert_eq!(db.local().get_int("k"), Some(2));
    assert_eq!(db.global().get_int("k"), Some(10));
}

#[test]
fn typed_read_of_another_variant_gives_nothing() {
    let mut db = LayeredFactDatabase::new();
    db.set_global("k", "text".into());
    db.set_local("k", 1i64.into());
    assert_eq!(db.get_string("k"), None);
    assert_eq!(db.get_int("k"), Some(1));
    assert_eq!(db.get_bool("k"), None);
    assert_eq!(db.get_float("k"), None);
}

#[test]
fn iter_layers_lists_each_fact_once() {
    let mut db = LayeredFactDatabase::new();
    db.set_local("a", 1i64.into());
    db.set_local("a", 2i64.into());
    db.set_local("b", 3i64.into());
    db.set_global("c", 4i64.into());
    let mut local: Vec<(String, Option<i64>)> =
        db.iter_local().iter().map(|(k, v)| (k.to_string(), v.as_int())).collect();
    local.sort();
    assert_eq!(local, vec![("a".to_string(), Some(2)), ("b".to_string(), Some(3))]);
    assert_eq!(db.iter_global().len(), 1);
}
