use ws_gateway::json::{Json, JsonNumber, JsonObject};
use ws_gateway::utils::{create_json_snapshot, json_snapshot};

fn object(members: Vec<(&str, Json)>) -> Json {
    let mut object = JsonObject::new();
    for (name, value) in members {
        object.insert(name.to_string(), value);
    }
    Json::Object(object)
}

fn text(s: &str) -> Json {
    Json::String(s.to_string())
}

fn number(n: u64) -> Json {
    Json::Number(JsonNumber::PosInt(n))
}

#[test]
fn test_patch() {
    let mut json1 = object(vec![("a", text("xyz"))]);
    let json2 = json1.clone();
    create_json_snapshot(&mut json1, &json2);
    assert_eq!(json1, object(vec![]));

    let mut json1 = object(vec![("channel", object(vec![("a", text("xyz"))]))]);
    let json2 = object(vec![("channel", object(vec![("a", text("abc"))]))]);
    create_json_snapshot(&mut json1, &json2);
    assert_eq!(json1, json2);

    let mut json1 = object(vec![(
        "channel",
        object(vec![("a", text("xyz")), ("b", text("notchangedwillberemoved"))]),
    )]);
    let json2 = object(vec![(
        "channel",
        object(vec![("a", text("abc")), ("b", text("notchangedwillberemoved"))]),
    )]);
    create_json_snapshot(&mut json1, &json2);
    assert_eq!(json1, object(vec![("channel", object(vec![("a", text("abc"))]))]));

    let mut json1 = object(vec![("channel", text("usedtobeastring"))]);
    let json2 = object(vec![(
        "channel",
        object(vec![("a", text("abc")), ("b", text("nowiamadict"))]),
    )]);
    create_json_snapshot(&mut json1, &json2);
    assert_eq!(json1, json2);

    let mut json1 = object(vec![("channel", object(vec![("a", text("iusedtobeadict"))]))]);
    let json2 = object(vec![("channel", text("nowiamastring"))]);
    create_json_snapshot(&mut json1, &json2);
    assert_eq!(json1, json2);

    let mut json1 = object(vec![("channel_a", object(vec![("a", text("xyz"))]))]);
    let json2 = object(vec![("channel_b", object(vec![("a", text("xyz"))]))]);
    create_json_snapshot(&mut json1, &json2);
    assert_eq!(json1, json2);
}

#[test]
fn equal_snapshots_give_the_empty_object() {
    let held = object(vec![
        ("x", object(vec![("b", number(2)), ("a", number(1))])),
        ("y", Json::Array(vec![Json::Null, Json::Bool(true)])),
    ]);
    let fresh = object(vec![
        ("y", Json::Array(vec![Json::Null, Json::Bool(true)])),
        ("x", object(vec![("a", number(1)), ("b", number(2))])),
    ]);
    assert_eq!(json_snapshot(&held, &fresh), Json::empty_object());
    assert_eq!(json_snapshot(&held, &held), Json::empty_object());
    // equal values that are no objects count as equal too
    assert_eq!(json_snapshot(&number(1), &number(1)), Json::empty_object());
}

#[test]
fn unchanged_inner_members_are_left_out() {
    let held = object(vec![("reward", object(vec![("version", text("alpha"))]))]);
    let fresh = object(vec![(
        "reward",
        object(vec![("version", text("alpha")), ("bonus", text("5"))]),
    )]);
    assert_eq!(
        json_snapshot(&held, &fresh),
        object(vec![("reward", object(vec![("bonus", text("5"))]))])
    );
}

#[test]
fn a_channel_that_is_gone_leaves_the_delta() {
    let held = object(vec![("reward", object(vec![("version", text("alpha"))]))]);
    let fresh = object(vec![("q", object(vec![("x", number(1))]))]);
    assert_eq!(json_snapshot(&held, &fresh), fresh);
}

#[test]
fn inner_members_that_are_gone_stay_in_the_delta() {
    let held = object(vec![("c", object(vec![("old", number(1)), ("same", number(2))]))]);
    let fresh = object(vec![("c", object(vec![("same", number(2)), ("new", number(3))]))]);
    assert_eq!(
        json_snapshot(&held, &fresh),
        object(vec![("c", object(vec![("old", number(1)), ("new", number(3))]))])
    );
}

#[test]
fn an_unchanged_channel_beside_a_changed_one_gives_an_empty_member() {
    let held = object(vec![
        ("a", object(vec![("k", number(1))])),
        ("b", object(vec![("k", number(1))])),
    ]);
    let fresh = object(vec![
        ("a", object(vec![("k", number(1))])),
        ("b", object(vec![("k", number(2))])),
    ]);
    assert_eq!(
        json_snapshot(&held, &fresh),
        object(vec![("a", object(vec![])), ("b", object(vec![("k", number(2))]))])
    );
}

#[test]
fn only_one_level_is_compared_member_by_member() {
    let held = object(vec![("c", object(vec![("deep", object(vec![("x", number(1)), ("y", number(2))]))]))]);
    let fresh = object(vec![("c", object(vec![("deep", object(vec![("x", number(1)), ("y", number(3))]))]))]);
    assert_eq!(json_snapshot(&held, &fresh), fresh);
}

fn merge(held: &Json, delta: &Json) -> Json {
    let (held, delta) = match (held, delta) {
        (Json::Object(held), Json::Object(delta)) => (held, delta),
        _ => panic!("objects expected"),
    };
    let mut merged = held.clone();
    for (name, change) in delta.members.iter() {
        let value = match (held.get(name), change) {
            (Some(Json::Object(before)), Json::Object(changes)) => {
                let mut channel = before.clone();
                for (key, value) in changes.members.iter() {
                    channel.insert(key.clone(), value.clone());
                }
                Json::Object(channel)
            }
            _ => change.clone(),
        };
        merged.insert(name.clone(), value);
    }
    Json::Object(merged)
}

#[test]
fn a_client_that_merges_the_delta_holds_the_new_channels() {
    let held = object(vec![
        ("gone", object(vec![("a", number(1))])),
        ("kept", object(vec![("a", number(1)), ("b", text("x"))])),
        ("changed", object(vec![("a", number(1)), ("b", text("x"))])),
    ]);
    let fresh = object(vec![
        ("kept", object(vec![("a", number(1)), ("b", text("x"))])),
        ("changed", object(vec![("a", number(2)), ("b", text("x")), ("c", Json::Null)])),
        ("new", object(vec![("z", Json::Bool(false))])),
    ]);
    let delta = json_snapshot(&held, &fresh);
    let merged = merge(&held, &delta);
    let (merged, fresh) = match (&merged, &fresh) {
        (Json::Object(merged), Json::Object(fresh)) => (merged, fresh),
        _ => panic!("objects expected"),
    };
    for (name, value) in fresh.members.iter() {
        assert_eq!(merged.get(name), Some(value));
    }
}

#[test]
fn a_zero_that_changes_its_sign_is_no_change() {
    let held = Json::parse("{\"c\":{\"z\":0.0,\"n\":1}}").unwrap();
    let fresh = Json::parse("{\"c\":{\"z\":-0.0,\"n\":1}}").unwrap();
    assert_eq!(json_snapshot(&held, &fresh).to_text(), "{}");
    let fresh = Json::parse("{\"c\":{\"z\":-0.0,\"n\":2}}").unwrap();
    assert_eq!(json_snapshot(&held, &fresh).to_text(), "{\"c\":{\"n\":2}}");
}
