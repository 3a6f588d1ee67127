use shararam_profiler::amf::{
    amf_list_to_json, amf_to_json, reference_number, Double, Element, Entry, Value, MAX_AMF_JSON_BYTES,
};
use shararam_profiler::ieee;

fn double(n: f64) -> Double {
    Double {
        bits: n.to_bits(),
        text: format!("{n}"),
    }
}

fn number(n: f64) -> Value {
    Value::Number(double(n))
}

fn text(s: &str) -> Value {
    Value::Text(s.to_string())
}

fn element(name: &str, value: Value) -> Element {
    Element {
        name: name.to_string(),
        value,
    }
}

#[test]
fn amf_values_render_as_readable_json() {
    let value = Value::Object(
        vec![
            element("name", text("Ёжик \"1\"")),
            element("x", number(12.0)),
            element("y", number(1.5)),
            element("ok", Value::Bool(true)),
            element("nothing", Value::Null),
            element(
                "list",
                Value::StrictArray(vec![number(1.0), Value::Undefined]),
            ),
        ],
        None,
    );
    let json = amf_to_json(&value);
    let parsed: serde_json::Value = serde_json::from_str(&json).unwrap();
    assert_eq!(parsed["name"], "Ёжик \"1\"");
    assert_eq!(parsed["x"], 12);
    assert_eq!(parsed["y"], 1.5);
    assert_eq!(parsed["ok"], true);
    assert!(parsed["nothing"].is_null());
    assert_eq!(parsed["list"][1], "undefined");
}

#[test]
fn huge_amf_payloads_are_truncated() {
    let values: Vec<Value> = (0..100_000).map(|index| number(index as f64)).collect();
    let json = amf_list_to_json(&values);
    assert!(json.len() < MAX_AMF_JSON_BYTES + 64, "{}", json.len());
    assert!(json.ends_with(",\"…truncated\"]"));
    let parsed: serde_json::Value = serde_json::from_str(&json).unwrap();
    assert!(parsed.as_array().unwrap().len() > 1000);

    let nested = Value::Object(vec![element("items", Value::StrictArray(values))], None);
    let json = amf_to_json(&nested);
    let parsed: serde_json::Value = serde_json::from_str(&json).unwrap();
    assert_eq!(parsed["$truncated"], true);
    assert!(parsed["value"]["items"].as_array().unwrap().len() > 1000);
}

#[test]
fn scalars_are_written_exactly() {
    let cases = vec![
        (number(0.0), "0"),
        (number(-0.0), "0"),
        (number(-3.0), "-3"),
        (number(1.5), "1.5"),
        (number(-0.25), "-0.25"),
        (number(999_999_999_999_999.0), "999999999999999"),
        (number(1e15), "1000000000000000"),
        (number(f64::INFINITY), "null"),
        (number(f64::NEG_INFINITY), "null"),
        (number(f64::NAN), "null"),
        (Value::Integer(-7), "-7"),
        (Value::Integer(i32::MIN), "-2147483648"),
        (Value::Bool(true), "true"),
        (Value::Bool(false), "false"),
        (text("a\"b"), "\"a\\\"b\""),
        (Value::Xml("<a/>".into()), "\"<a/>\""),
        (Value::Null, "null"),
        (Value::Undefined, "\"undefined\""),
        (Value::Unsupported, "\"<unsupported>\""),
        (Value::Date(double(12.5)), "{\"$date\":12.5}"),
        (Value::Date(double(f64::NAN)), "{\"$date\":null}"),
        (Value::Date(double(f64::INFINITY)), "{\"$date\":null}"),
        (Value::Reference(3), "{\"$ref\":3}"),
        (Value::Reference(u16::MAX), "{\"$ref\":65535}"),
        (Value::Amf3ObjectReference(-1), "{\"$ref\":-1}"),
        (Value::ByteArray(vec![1, 2, 3]), "{\"$bytes\":3}"),
        (Value::VectorInt(vec![1, -2]), "[1, -2]"),
        (Value::VectorInt(vec![]), "[]"),
        (Value::VectorUInt(vec![4_000_000_000]), "[4000000000]"),
        (
            Value::VectorDouble(vec![
                Double {
                    bits: 1.0f64.to_bits(),
                    text: format!("{:?}", 1.0),
                },
                double(2.5),
                double(f64::NAN),
                double(f64::NEG_INFINITY),
            ]),
            "[1.0, 2.5, null, null]",
        ),
    ];
    for (value, json) in cases {
        assert_eq!(amf_to_json(&value), json);
    }
    assert_eq!(amf_to_json(&number(1e300)), format!("{}", 1e300));
    assert_eq!(amf_to_json(&number(5e-324)), format!("{}", 5e-324));
}

#[test]
fn containers_are_written_exactly() {
    let cases = vec![
        (Value::StrictArray(vec![]), "[]"),
        (
            Value::StrictArray(vec![Value::Integer(1), Value::Null]),
            "[1,null]",
        ),
        (
            Value::VectorObject(vec![Value::Integer(1), Value::Integer(2)]),
            "[1,2]",
        ),
        (
            Value::EcmaArray(vec![Value::Integer(1)], vec![]),
            "[1]",
        ),
        (
            Value::EcmaArray(
                vec![Value::Integer(1), Value::Integer(2)],
                vec![element("k", Value::Integer(3))],
            ),
            "{\"0\":1,\"1\":2,\"k\":3}",
        ),
        (
            Value::EcmaArray(vec![], vec![element("k", Value::Integer(3))]),
            "{\"k\":3}",
        ),
        (Value::Object(vec![], None), "{}"),
        (Value::Object(vec![], Some(String::new())), "{}"),
        (
            Value::Object(
                vec![element("a\"", Value::Null), element("b", Value::Null)],
                Some("C".into()),
            ),
            "{\"$class\":\"C\",\"a\\\"\":null,\"b\":null}",
        ),
        (
            Value::Custom(vec![], vec![], Some(String::new())),
            "{\"$class\":\"\"}",
        ),
        (
            Value::Custom(
                vec![element("x", Value::Integer(1))],
                vec![element("y", Value::Integer(2))],
                Some("C".into()),
            ),
            "{\"$class\":\"C\",\"x\":1,\"y\":2}",
        ),
        (
            Value::Custom(vec![], vec![element("y", Value::Integer(2))], None),
            "{\"y\":2}",
        ),
        (Value::Amf3(Box::new(Value::Integer(4))), "4"),
        (Value::Dictionary(vec![]), "[]"),
        (
            Value::Dictionary(vec![
                Entry {
                    key: text("a"),
                    value: Value::Integer(1),
                },
                Entry {
                    key: Value::Integer(2),
                    value: Value::Null,
                },
            ]),
            "[[\"a\",1],[2,null]]",
        ),
    ];
    for (value, json) in cases {
        assert_eq!(amf_to_json(&value), json);
    }
    assert_eq!(amf_list_to_json(&vec![]), "[]");
    assert_eq!(
        amf_list_to_json(&vec![Value::Integer(1), text("b")]),
        "[1,\"b\"]"
    );
}

#[test]
fn deep_values_are_marked() {
    let mut value = Value::Integer(1);
    for _ in 0..24 {
        value = Value::StrictArray(vec![value]);
    }
    assert_eq!(
        amf_to_json(&value),
        format!("{}1{}", "[".repeat(24), "]".repeat(24))
    );
    let value = Value::StrictArray(vec![value]);
    assert_eq!(
        amf_to_json(&value),
        format!("{}\"…depth\"{}", "[".repeat(25), "]".repeat(25))
    );
}

#[test]
fn long_texts_are_cut() {
    let json = amf_to_json(&text(&"я".repeat(5000)));
    assert_eq!(json, format!("\"{}…\"", "я".repeat(4096)));
}

#[test]
fn a_payload_at_the_limit_is_complete() {
    // Twelve strings of 4096 characters, without their quotes and commas.
    let fill = |last: usize| {
        let mut values: Vec<Value> = (0..11).map(|_| text(&"a".repeat(4096))).collect();
        values.push(text(&"a".repeat(last)));
        Value::StrictArray(values)
    };
    let spare = 4096 - 2 * 12 - 11 - 2;
    let json = amf_to_json(&fill(spare));
    assert_eq!(json.len(), MAX_AMF_JSON_BYTES);
    assert!(json.starts_with("[\"a"));
    let json = amf_to_json(&fill(spare + 1));
    assert!(json.starts_with("{\"$truncated\":true,\"value\":[\"a"));
    assert!(json.ends_with("\"]}"));
}

#[test]
fn cut_dictionaries_and_objects_are_closed() {
    let big = || text(&"a".repeat(4096));
    let entries = (0..20)
        .map(|_| Entry {
            key: big(),
            value: big(),
        })
        .collect::<Vec<Entry>>();
    let members = (0..20).map(|_| element("k", big())).collect::<Vec<Element>>();
    let mixed = Value::EcmaArray(
        (0..20).map(|_| big()).collect(),
        vec![element("k", Value::Null)],
    );
    let custom = Value::Custom(
        (0..20).map(|_| element("k", big())).collect(),
        vec![element("k", Value::Null)],
        Some("C".into()),
    );
    for value in [
        Value::Dictionary(entries),
        Value::Object(members, Some("C".into())),
        mixed,
        custom,
    ] {
        let json = amf_to_json(&value);
        assert!(json.len() < MAX_AMF_JSON_BYTES + 2 * 4096);
        let parsed: serde_json::Value = serde_json::from_str(&json).unwrap();
        assert_eq!(parsed["$truncated"], true);
    }
}

#[test]
fn huge_vectors_are_truncated() {
    let vectors = [
        Value::VectorInt(vec![0; 100_000]),
        Value::VectorUInt(vec![0; 100_000]),
        Value::VectorDouble((0..100_000).map(|_| double(f64::NAN)).collect()),
    ];
    for vector in vectors {
        let json = amf_to_json(&vector);
        assert!(json.len() < MAX_AMF_JSON_BYTES + 64, "{}", json.len());
        assert!(json.starts_with("{\"$truncated\":true,\"value\":["));
        assert!(json.ends_with("]}"));
        let parsed: serde_json::Value = serde_json::from_str(&json).unwrap();
        assert!(parsed["value"].as_array().unwrap().len() > 1000);
    }
    // The limit is kept to the byte: 16384 items and their separators.
    let fits = |last: i32| {
        let mut items = vec![0; 16_383];
        items.push(last);
        amf_to_json(&Value::VectorInt(items))
    };
    assert_eq!(fits(0).len(), 3 * 16_384);
    assert!(fits(0).starts_with("[0, 0"));
    let json = fits(10);
    assert!(json.starts_with("{\"$truncated\":true,\"value\":[0, 0"));
    assert!(json.ends_with(", 10]}"));
}

#[test]
fn wide_values_at_the_greatest_depth_are_truncated() {
    let mut value = Value::StrictArray((0..100_000).map(|_| Value::Null).collect());
    for _ in 0..24 {
        value = Value::StrictArray(vec![value]);
    }
    let json = amf_to_json(&value);
    assert!(json.len() < MAX_AMF_JSON_BYTES + 128, "{}", json.len());
    assert!(json.starts_with("{\"$truncated\":true,\"value\":[[[["));
    assert!(json.ends_with(&format!("\"…depth\"{}}}", "]".repeat(25))));
}

#[test]
fn references_are_numbered() {
    for n in [0, 3, 10, 9_999, 65_535] {
        assert_eq!(reference_number(&format!("Reference({n})")), Some(n));
    }
    for text in [
        "",
        "Reference()",
        "Reference(65536)",
        "Reference(03)",
        "Reference(-1)",
        "Reference(3",
        "Reference(3))",
        "reference(3)",
        "Reference(99999999999999999999)",
        "Referenzen(3)",
    ] {
        assert_eq!(reference_number(text), None, "{text}");
    }
}

#[test]
fn doubles_are_read_from_their_bits() {
    for n in [
        0.0,
        1.0,
        -1.0,
        0.5,
        1e15,
        999_999_999_999_999.0,
        999_999_999_999_999.9,
        -123456.0,
        4503599627370497.5,
        f64::MAX,
        f64::MIN_POSITIVE,
    ] {
        let whole = if n % 1.0 == 0.0 && f64::abs(n) < 1e15 {
            Some(n as i64)
        } else {
            None
        };
        assert_eq!(ieee::whole(f64::to_bits(n)), whole, "{n}");
        assert!(ieee::is_finite(f64::to_bits(n)));
    }
    assert!(!ieee::is_finite(f64::INFINITY.to_bits()));
    assert!(!ieee::is_finite(f64::NAN.to_bits()));
    assert_eq!(ieee::whole(f64::NAN.to_bits()), None);
    let numbers = [f64::NEG_INFINITY, -2.0, -0.0, 0.0, 1e-310, 3.5, f64::INFINITY, f64::NAN];
    for a in numbers {
        for b in numbers {
            assert_eq!(ieee::less(a.to_bits(), b.to_bits()), a < b, "{a} {b}");
        }
    }
}

#[test]
fn ranks_order_singles() {
    let numbers = [
        f32::NEG_INFINITY,
        -2.5,
        -1e-40,
        0.0,
        1e-40,
        1.0,
        f32::MAX,
        f32::INFINITY,
    ];
    for a in numbers {
        for b in numbers {
            let (ra, rb) = (ieee::rank_of(a.to_bits()), ieee::rank_of(b.to_bits()));
            assert_eq!(ra < rb, a < b);
            assert_eq!(ieee::bits_of(ra), a.to_bits());
        }
    }
    assert_eq!(ieee::rank_of((-0.0f32).to_bits()), 0);
}
