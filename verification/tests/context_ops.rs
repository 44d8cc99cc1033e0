use oxidex::Context;
use oxidex::Dynamic;

#[test]
fn test_insert() {
    let mut ctx = Context::new();
    ctx.insert("foo".to_string(), Dynamic::Text("foo".to_string()));
    assert!(matches!(ctx.get("foo"), Some(Dynamic::Text(s)) if s == "foo"));
}

#[test]
fn test_extend() {
    let mut ctx = Context::new();
    let data = vec![("bar".to_string(), Dynamic::Text("baz".to_string()))];
    ctx.extend(data);
    assert!(matches!(ctx.get("bar"), Some(Dynamic::Text(s)) if s == "baz"));
}

#[test]
fn keys_iterate_sorted_regardless_of_insertion_order() {
    let mut ctx = Context::new();
    ctx.insert("b".to_string(), Dynamic::U64(2));
    ctx.insert("a".to_string(), Dynamic::U64(1));
    let entries = ctx.into_entries();
    let keys: Vec<&str> = entries.iter().map(|p| p.0.as_str()).collect();
    assert_eq!(keys, vec!["a", "b"]);
}

#[test]
fn insert_twice_keeps_second_value_only() {
    let mut ctx = Context::new();
    ctx.insert("k".to_string(), Dynamic::U64(1));
    ctx.insert("k".to_string(), Dynamic::U64(2));
    assert!(matches!(ctx.get("k"), Some(Dynamic::U64(2))));
    let entries = ctx.into_entries();
    assert_eq!(entries.len(), 1);
}

#[test]
fn extend_wins_over_earlier_insert() {
    let mut ctx = Context::new();
    ctx.insert("k".to_string(), Dynamic::U64(1));
    ctx.extend(vec![("k".to_string(), Dynamic::U64(2))]);
    assert!(matches!(ctx.get("k"), Some(Dynamic::U64(2))));
    let entries = ctx.into_entries();
    assert_eq!(entries.len(), 1);
}

#[test]
fn get_absent_key_is_none() {
    let mut ctx = Context::new();
    ctx.insert("a".to_string(), Dynamic::Null);
    assert!(ctx.get("b").is_none());
    assert!(matches!(ctx.get("a"), Some(Dynamic::Null)));
}

#[test]
fn extend_later_duplicate_wins() {
    let mut ctx = Context::new();
    ctx.extend(vec![
        ("k".to_string(), Dynamic::U64(1)),
        ("k".to_string(), Dynamic::U64(2)),
    ]);
    assert!(matches!(ctx.get("k"), Some(Dynamic::U64(2))));
}

#[test]
fn entries_borrows_in_key_order() {
    let mut ctx = Context::new();
    ctx.insert("z".to_string(), Dynamic::Bool(true));
    ctx.insert("m".to_string(), Dynamic::Bool(false));
    ctx.insert("a".to_string(), Dynamic::Unit);
    let keys: Vec<&str> = ctx.entries().iter().map(|p| p.0.as_str()).collect();
    assert_eq!(keys, vec!["a", "m", "z"]);
}

#[test]
fn deep_cmp_orders_within_a_variant() {
    assert_eq!(Dynamic::U64(1).deep_cmp(&Dynamic::U64(2)), -1);
    assert_eq!(Dynamic::U64(2).deep_cmp(&Dynamic::U64(1)), 1);
    assert_eq!(Dynamic::U64(2).deep_cmp(&Dynamic::U64(2)), 0);
    assert_eq!(Dynamic::I64(-3).deep_cmp(&Dynamic::I64(2)), -1);
    assert_eq!(
        Dynamic::Text("ab".to_string()).deep_cmp(&Dynamic::Text("b".to_string())),
        -1
    );
    assert_eq!(Dynamic::Bytes(vec![1, 2]).deep_cmp(&Dynamic::Bytes(vec![1, 2, 0])), -1);
    assert_eq!(
        Dynamic::List(vec![Dynamic::U64(1), Dynamic::U64(5)])
            .deep_cmp(&Dynamic::List(vec![Dynamic::U64(1), Dynamic::U64(4)])),
        1
    );
}

#[test]
fn deep_cmp_orders_across_variants_by_rank() {
    assert_eq!(Dynamic::Null.deep_cmp(&Dynamic::Bool(false)), -1);
    assert_eq!(Dynamic::Bool(true).deep_cmp(&Dynamic::U8(0)), -1);
    assert_eq!(Dynamic::U64(u64::MAX).deep_cmp(&Dynamic::I8(-1)), -1);
    assert_eq!(Dynamic::Unit.deep_cmp(&Dynamic::Text("a".to_string())), 1);
    let e = Dynamic::Opt(None);
    assert_eq!(e.deep_cmp(&Dynamic::Opt(Some(Box::new(Dynamic::Null)))), -1);
}
