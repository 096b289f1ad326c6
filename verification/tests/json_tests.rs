use ws_gateway::json::{Json, JsonNumber, JsonObject};

#[test]
fn parse_reads_an_object() {
    let value = Json::parse("{\"b\":[1,-2,1.5,null,true],\"a\":\"x\"}").unwrap();
    let mut expected = JsonObject::new();
    expected.insert("a".to_string(), Json::String("x".to_string()));
    expected.insert(
        "b".to_string(),
        Json::Array(vec![
            Json::Number(JsonNumber::PosInt(1)),
            Json::Number(JsonNumber::NegInt(-2)),
            Json::Number(JsonNumber::Float("1.5".to_string())),
            Json::Null,
            Json::Bool(true),
        ]),
    );
    assert_eq!(value, Json::Object(expected));
    assert_eq!(value.to_text(), "{\"a\":\"x\",\"b\":[1,-2,1.5,null,true]}");
}

#[test]
fn parse_refuses_what_is_no_json() {
    assert!(Json::parse("{\"a\":").is_none());
    assert!(Json::parse("").is_none());
}

#[test]
fn text_is_compact_and_sorted_by_name() {
    let mut object = JsonObject::new();
    object.insert("b".to_string(), Json::Number(JsonNumber::PosInt(u64::MAX)));
    object.insert("a".to_string(), Json::Number(JsonNumber::NegInt(i64::MIN)));
    object.insert("c".to_string(), Json::String("q\"uote".to_string()));
    assert_eq!(
        Json::Object(object).to_text(),
        "{\"a\":-9223372036854775808,\"b\":18446744073709551615,\"c\":\"q\\\"uote\"}"
    );
    assert_eq!(Json::empty_object().to_text(), "{}");
}

#[test]
fn numbers_keep_their_text() {
    for text in ["0", "-1", "1.5", "-0.0", "1e+100", "2.5e-7", "18446744073709551615"] {
        let value = Json::parse(text).unwrap();
        assert_eq!(value.to_text(), text);
        assert_eq!(Json::parse(&value.to_text()).unwrap(), value);
    }
    assert_eq!(
        Json::parse("1.50").unwrap(),
        Json::Number(JsonNumber::Float("1.5".to_string()))
    );
}

#[test]
fn the_order_of_members_does_not_count() {
    let first = Json::parse("{\"a\":1,\"b\":{\"x\":[1,2],\"y\":null}}").unwrap();
    let second = Json::parse("{\"b\":{\"y\":null,\"x\":[1,2]},\"a\":1}").unwrap();
    assert_eq!(first, second);
    let third = Json::parse("{\"b\":{\"y\":null,\"x\":[2,1]},\"a\":1}").unwrap();
    assert_ne!(first, third);
    let fourth = Json::parse("{\"a\":1}").unwrap();
    assert_ne!(first, fourth);
    assert_ne!(fourth, first);
}

#[test]
fn values_of_different_kinds_differ() {
    let values = vec![
        Json::Null,
        Json::Bool(false),
        Json::Bool(true),
        Json::Number(JsonNumber::PosInt(0)),
        Json::Number(JsonNumber::NegInt(-1)),
        Json::Number(JsonNumber::Float("0.0".to_string())),
        Json::String(String::new()),
        Json::String("0".to_string()),
        Json::Array(vec![]),
        Json::Array(vec![Json::Null]),
        Json::empty_object(),
    ];
    for (i, a) in values.iter().enumerate() {
        for (j, b) in values.iter().enumerate() {
            assert_eq!(a == b, i == j);
        }
    }
}

#[test]
fn a_later_member_replaces_an_earlier_one() {
    let mut object = JsonObject::new();
    object.insert("k".to_string(), Json::Bool(false));
    object.insert("other".to_string(), Json::Null);
    object.insert("k".to_string(), Json::Bool(true));
    assert_eq!(object.len(), 2);
    assert_eq!(object.get("k"), Some(&Json::Bool(true)));
    assert_eq!(object.position("k"), Some(0));
    assert!(object.contains_key("other"));
    assert!(!object.contains_key("none"));
    assert_eq!(object.get("none"), None);

    let repeated = JsonObject {
        members: vec![
            ("k".to_string(), Json::Bool(false)),
            ("k".to_string(), Json::Bool(true)),
        ],
    };
    assert_eq!(repeated.get("k"), Some(&Json::Bool(true)));
    assert_eq!(Json::Object(repeated).to_text(), "{\"k\":true}");
}

#[test]
fn remove_takes_every_member_of_the_name() {
    let mut object = JsonObject {
        members: vec![
            ("k".to_string(), Json::Bool(false)),
            ("j".to_string(), Json::Null),
            ("k".to_string(), Json::Bool(true)),
        ],
    };
    object.remove("k");
    assert!(!object.contains_key("k"));
    assert_eq!(object.get("j"), Some(&Json::Null));
    object.remove("k");
    assert_eq!(object.len(), 1);
}

#[test]
fn a_clone_is_equal() {
    let value = Json::parse("{\"a\":[1,{\"b\":\"c\"},-3.25],\"d\":{}}").unwrap();
    assert_eq!(value.clone(), value);
}

#[test]
fn covered_by_and_keys_within() {
    let small = match Json::parse("{\"a\":1}").unwrap() {
        Json::Object(object) => object,
        _ => unreachable!(),
    };
    let large = match Json::parse("{\"a\":1,\"b\":2}").unwrap() {
        Json::Object(object) => object,
        _ => unreachable!(),
    };
    assert!(small.covered_by(&large));
    assert!(!large.covered_by(&small));
    assert!(small.keys_within(&large));
    assert!(!large.keys_within(&small));
    assert!(!small.same(&large));
    assert!(small.same(&small.clone()));
}

#[test]
fn the_two_zeros_with_a_fraction_are_the_same_number() {
    let plus = Json::parse("0.0").unwrap();
    let minus = Json::parse("-0.0").unwrap();
    assert_eq!(plus, Json::Number(JsonNumber::Float("0.0".to_string())));
    assert_eq!(minus.to_text(), "-0.0");
    assert_eq!(plus, minus);
    assert_eq!(minus, plus);
    assert_eq!(Json::parse("-0").unwrap(), plus);
    assert_eq!(
        Json::parse("{\"a\":[0.0,{\"b\":-0.0}]}").unwrap(),
        Json::parse("{\"a\":[-0.0,{\"b\":0.0}]}").unwrap()
    );
    // the integer zero is another number
    assert_ne!(Json::parse("0").unwrap(), plus);
    assert_ne!(Json::parse("0").unwrap(), Json::parse("-0").unwrap());
    assert_ne!(Json::parse("0.5").unwrap(), plus);
}

#[test]
fn a_number_is_an_unsigned_integer_before_it_is_a_signed_one() {
    assert_eq!(
        Json::Number(JsonNumber::from_parts(Some(7), Some(7), "7".to_string())),
        Json::Number(JsonNumber::PosInt(7))
    );
    assert_eq!(
        Json::Number(JsonNumber::from_parts(None, Some(-7), "-7".to_string())),
        Json::Number(JsonNumber::NegInt(-7))
    );
    assert_eq!(
        Json::Number(JsonNumber::from_parts(None, None, "7.5".to_string())),
        Json::Number(JsonNumber::Float("7.5".to_string()))
    );
    assert_ne!(
        Json::Number(JsonNumber::PosInt(7)),
        Json::Number(JsonNumber::Float("7".to_string()))
    );
}

#[test]
fn a_decimal_text_that_is_no_number_is_written_as_null() {
    assert_eq!(Json::Number(JsonNumber::Float("seven".to_string())).to_text(), "null");
    assert_eq!(Json::Number(JsonNumber::Float("1e999".to_string())).to_text(), "null");
    assert_eq!(Json::Number(JsonNumber::Float("2.50".to_string())).to_text(), "2.5");
    assert_eq!(Json::Number(JsonNumber::NegInt(3)).to_text(), "3");
}
