use oxidex::Context;
use oxidex::Dynamic;
use oxidex::Error;

#[test]
fn json_scenario_name_and_age() {
    let ctx = Context::from_json(r#"{"name": "Alice", "age": 30}"#).unwrap();
    assert!(matches!(ctx.get("name"), Some(Dynamic::Text(s)) if s == "Alice"));
    assert!(matches!(ctx.get("age"), Some(Dynamic::U64(30))));
}

#[test]
fn toml_scenario_integer_is_signed() {
    let ctx = Context::from_toml("name = \"Alice\"\nage = 30").unwrap();
    assert!(matches!(ctx.get("name"), Some(Dynamic::Text(s)) if s == "Alice"));
    assert!(matches!(ctx.get("age"), Some(Dynamic::I64(30))));
}

#[test]
fn yaml_scenario_matches_json() {
    let ctx = Context::from_yaml("name: Alice\nage: 30").unwrap();
    assert!(matches!(ctx.get("name"), Some(Dynamic::Text(s)) if s == "Alice"));
    assert!(matches!(ctx.get("age"), Some(Dynamic::U64(30))));
}

#[test]
fn xml_scenario_element_content_under_reserved_key() {
    let ctx = Context::from_xml("<root><name>Alice</name><age>30</age></root>").unwrap();
    match ctx.get("name") {
        Some(Dynamic::Dict(pairs)) => {
            assert!(pairs.iter().any(|p| {
                matches!(&p.0, Dynamic::Text(k) if k == "$value")
                    && matches!(&p.1, Dynamic::Text(v) if v == "Alice")
            }));
        }
        other => panic!("expected a mapping for the element, got {:?}", other),
    }
}

#[test]
fn malformed_json_gives_json_error() {
    let r = Context::from_json("{ invalid_json }");
    assert!(matches!(r, Err(Error::Json(_))));
}

#[test]
fn malformed_toml_gives_toml_error() {
    assert!(matches!(Context::from_toml("= ="), Err(Error::Toml(_))));
}

#[test]
fn malformed_yaml_gives_yaml_error() {
    assert!(matches!(Context::from_yaml("a: [unclosed"), Err(Error::Yaml(_))));
}

#[test]
fn malformed_xml_gives_xml_error() {
    assert!(matches!(Context::from_xml("<a><b></a>"), Err(Error::Xml(_))));
}

#[test]
fn json_float_is_rejected() {
    assert!(matches!(Context::from_json(r#"{"x": 1.5}"#), Err(Error::Json(_))));
}

#[test]
fn toml_float_is_rejected() {
    assert!(matches!(Context::from_toml("x = 1.5"), Err(Error::Toml(_))));
}

#[test]
fn json_output_is_sorted_and_compact() {
    let mut ctx = Context::new();
    ctx.insert("name".to_string(), Dynamic::Text("Alice".to_string()));
    ctx.insert("age".to_string(), Dynamic::U64(30));
    assert_eq!(ctx.to_json(false).unwrap(), r#"{"age":30,"name":"Alice"}"#);
}

#[test]
fn json_round_trip_compact_and_pretty() {
    let mut ctx = Context::new();
    ctx.insert("name".to_string(), Dynamic::Text("Alice".to_string()));
    ctx.insert("age".to_string(), Dynamic::U64(30));
    ctx.insert("ok".to_string(), Dynamic::Bool(true));
    ctx.insert("none".to_string(), Dynamic::Null);
    ctx.insert(
        "list".to_string(),
        Dynamic::List(vec![Dynamic::U64(1), Dynamic::I64(-2)]),
    );
    let compact = ctx.to_json(false).unwrap();
    let again = Context::from_json(&compact).unwrap();
    assert_eq!(again.to_json(false).unwrap(), compact);
    assert!(matches!(again.get("age"), Some(Dynamic::U64(30))));
    assert!(matches!(again.get("ok"), Some(Dynamic::Bool(true))));
    assert!(matches!(again.get("none"), Some(Dynamic::Null)));

    let pretty = ctx.to_json(true).unwrap();
    let again2 = Context::from_json(&pretty).unwrap();
    assert_eq!(again2.to_json(false).unwrap(), compact);
}

#[test]
fn toml_round_trip() {
    let mut ctx = Context::new();
    ctx.insert("name".to_string(), Dynamic::Text("Alice".to_string()));
    ctx.insert("age".to_string(), Dynamic::I64(30));
    let text = ctx.to_toml(false).unwrap();
    let again = Context::from_toml(&text).unwrap();
    assert!(matches!(again.get("name"), Some(Dynamic::Text(s)) if s == "Alice"));
    assert!(matches!(again.get("age"), Some(Dynamic::I64(30))));
    let pretty = ctx.to_toml(true).unwrap();
    let again2 = Context::from_toml(&pretty).unwrap();
    assert!(matches!(again2.get("age"), Some(Dynamic::I64(30))));
}

#[test]
fn yaml_round_trip() {
    let mut ctx = Context::new();
    ctx.insert("name".to_string(), Dynamic::Text("Alice".to_string()));
    ctx.insert("age".to_string(), Dynamic::U64(30));
    let text = ctx.to_yaml().unwrap();
    let again = Context::from_yaml(&text).unwrap();
    assert!(matches!(again.get("name"), Some(Dynamic::Text(s)) if s == "Alice"));
    assert!(matches!(again.get("age"), Some(Dynamic::U64(30))));
}

#[test]
fn empty_context_round_trips_where_the_engine_prints_it() {
    let empty = Context::new();
    let j = empty.to_json(false).unwrap();
    assert_eq!(j, "{}");
    assert_eq!(Context::from_json(&j).unwrap().into_entries().len(), 0);
    let j2 = empty.to_json(true).unwrap();
    assert_eq!(Context::from_json(&j2).unwrap().into_entries().len(), 0);

    let t = empty.to_toml(false).unwrap();
    assert_eq!(Context::from_toml(&t).unwrap().into_entries().len(), 0);

    let y = empty.to_yaml().unwrap();
    assert_eq!(Context::from_yaml(&y).unwrap().into_entries().len(), 0);
}

#[test]
fn non_text_dict_key_fails_to_serialize() {
    let mut ctx = Context::new();
    ctx.insert(
        "m".to_string(),
        Dynamic::Dict(vec![(Dynamic::U64(1), Dynamic::Bool(true))]),
    );
    assert!(matches!(ctx.to_json(false), Err(Error::Json(_))));
}

#[test]
fn scalar_widening_in_json_output() {
    let mut ctx = Context::new();
    ctx.insert("small".to_string(), Dynamic::U8(7));
    ctx.insert("neg".to_string(), Dynamic::I8(-7));
    ctx.insert("ch".to_string(), Dynamic::Char('x'));
    ctx.insert("bytes".to_string(), Dynamic::Bytes(vec![1, 2]));
    ctx.insert("unit".to_string(), Dynamic::Unit);
    ctx.insert(
        "opt".to_string(),
        Dynamic::Opt(Some(Box::new(Dynamic::U64(5)))),
    );
    ctx.insert(
        "wrapped".to_string(),
        Dynamic::Newtype(Box::new(Dynamic::Bool(false))),
    );
    assert_eq!(
        ctx.to_json(false).unwrap(),
        r#"{"bytes":[1,2],"ch":"x","neg":-7,"opt":5,"small":7,"unit":null,"wrapped":false}"#
    );
}

#[test]
fn nested_dict_round_trips_through_json() {
    let mut ctx = Context::new();
    ctx.insert(
        "outer".to_string(),
        Dynamic::Dict(vec![(
            Dynamic::Text("inner".to_string()),
            Dynamic::U64(3),
        )]),
    );
    let text = ctx.to_json(false).unwrap();
    assert_eq!(text, r#"{"outer":{"inner":3}}"#);
    let again = Context::from_json(&text).unwrap();
    match again.get("outer") {
        Some(Dynamic::Dict(pairs)) => {
            assert_eq!(pairs.len(), 1);
            assert!(matches!(&pairs[0].0, Dynamic::Text(k) if k == "inner"));
            assert!(matches!(pairs[0].1, Dynamic::U64(3)));
        }
        other => panic!("expected a dict, got {:?}", other),
    }
}

#[test]
fn error_message_is_kept() {
    let e = Error::Generic("something went wrong".to_string());
    assert_eq!(e.message(), "something went wrong");
}

#[test]
fn xml_serializes_entries_as_elements() {
    let mut ctx = Context::new();
    ctx.insert("name".to_string(), Dynamic::Text("Alice".to_string()));
    assert_eq!(
        ctx.to_xml().unwrap(),
        "<?xml version=\"1.0\" encoding=\"UTF-8\"?><name>Alice</name>"
    );
    // The engine prints an empty mapping as empty text, which is not a
    // well-formed document, so an empty context does not round-trip here.
    assert_eq!(Context::new().to_xml().unwrap(), "");
    assert!(Context::from_xml("").is_err());
}

#[test]
fn json_round_trip_preserves_every_entry() {
    let mut ctx = Context::new();
    ctx.insert("text".to_string(), Dynamic::Text("hi".to_string()));
    ctx.insert("num".to_string(), Dynamic::U64(9));
    ctx.insert("flag".to_string(), Dynamic::Bool(false));
    ctx.insert(
        "seq".to_string(),
        Dynamic::List(vec![Dynamic::Null, Dynamic::I64(-1)]),
    );
    let text = ctx.to_json(false).unwrap();
    let again = Context::from_json(&text).unwrap();
    let a = ctx.into_entries();
    let b = again.into_entries();
    assert_eq!(a.len(), b.len());
    for (pa, pb) in a.iter().zip(b.iter()) {
        assert_eq!(pa.0, pb.0);
        assert!(pa.1.deep_eq(&pb.1));
        assert!(pb.1.deep_eq(&pa.1));
    }
}

#[test]
fn deep_eq_tells_values_apart() {
    let a = Dynamic::Dict(vec![(
        Dynamic::Text("k".to_string()),
        Dynamic::List(vec![Dynamic::U64(1), Dynamic::Char('x')]),
    )]);
    let b = Dynamic::Dict(vec![(
        Dynamic::Text("k".to_string()),
        Dynamic::List(vec![Dynamic::U64(1), Dynamic::Char('x')]),
    )]);
    let c = Dynamic::Dict(vec![(
        Dynamic::Text("k".to_string()),
        Dynamic::List(vec![Dynamic::U64(1), Dynamic::Char('y')]),
    )]);
    assert!(a.deep_eq(&b));
    assert!(!a.deep_eq(&c));
    assert!(!Dynamic::U64(1).deep_eq(&Dynamic::I64(1)));
    assert!(!Dynamic::U8(1).deep_eq(&Dynamic::U64(1)));
}
