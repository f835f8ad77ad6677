use drift_engine::document::{load_store, save_store};
use drift_engine::event::Event;
use drift_engine::json::{Json, Member, Number};
use drift_engine::risk::Risk;
use drift_engine::store::Store;
use serde_json::Value;

fn from_number(number: &serde_json::Number) -> Number {
    if let Some(n) = number.as_u64() {
        Number::PosInt(n)
    } else if let Some(n) = number.as_i64() {
        Number::NegInt(n)
    } else {
        Number::Float(number.as_f64().expect("a number is one of the three").to_bits())
    }
}

fn from_value(value: &Value) -> Json {
    match value {
        Value::Null => Json::Null,
        Value::Bool(flag) => Json::Bool(*flag),
        Value::Number(number) => Json::Number(from_number(number)),
        Value::String(text) => Json::Text(text.clone()),
        Value::Array(items) => Json::List(items.iter().map(from_value).collect()),
        Value::Object(fields) => Json::Object(
            fields
                .iter()
                .map(|(key, value)| Member { key: key.clone(), value: from_value(value) })
                .collect(),
        ),
    }
}

fn to_value(json: &Json) -> Value {
    match json {
        Json::Null => Value::Null,
        Json::Bool(flag) => Value::Bool(*flag),
        Json::Number(Number::PosInt(n)) => Value::from(*n),
        Json::Number(Number::NegInt(n)) => Value::from(*n),
        Json::Number(Number::Float(bits)) => Value::from(f64::from_bits(*bits)),
        Json::Text(text) => Value::String(text.clone()),
        Json::List(items) => Value::Array(items.iter().map(to_value).collect()),
        Json::Object(members) => Value::Object(
            members.iter().map(|member| (member.key.clone(), to_value(&member.value))).collect(),
        ),
    }
}

fn parse(text: &str) -> Option<Json> {
    serde_json::from_str::<Value>(text).ok().map(|value| from_value(&value))
}

fn render(json: &Json) -> String {
    serde_json::to_string_pretty(&to_value(json)).expect("a value tree can be written")
}

fn event(user: &str, meta_text: &str, ts: Option<&str>) -> Event {
    Event {
        user_id: user.to_string(),
        kind: "login".to_string(),
        meta: parse(meta_text).expect("the metadata is JSON"),
        ts: ts.map(|t| t.to_string()),
    }
}

#[test]
fn value_trees_agree_with_parsed_text_on_equality() {
    let pairs = [
        (r#"{"a": 1, "b": [true, null]}"#, r#"{"b": [true, null], "a": 1}"#, true),
        (r#"{"a": 1}"#, r#"{"a": 1.0}"#, false),
        (r#"{"a": 0.0}"#, r#"{"a": -0.0}"#, true),
        (r#"{"a": -5}"#, r#"{"a": -5}"#, true),
        (r#"[1, 2]"#, r#"[2, 1]"#, false),
        (r#"{"a": null}"#, r#"{}"#, false),
        (r#""x""#, r#""x""#, true),
        (r#"1.50"#, r#"1.5"#, true),
        (r#"18446744073709551615"#, r#"-1"#, false),
    ];
    for (left, right, same) in pairs {
        let a: Value = serde_json::from_str(left).expect("left is JSON");
        let b: Value = serde_json::from_str(right).expect("right is JSON");
        assert_eq!(a == b, same);
        assert_eq!(from_value(&a) == from_value(&b), same);
    }
}

#[test]
fn value_trees_agree_with_parsed_text_on_lookup() {
    let text = r#"{"ip": "1.1.1.1", "os": null, "n": 3, "nested": {"ip": "inner"}}"#;
    let value: Value = serde_json::from_str(text).expect("the text is JSON");
    let json = from_value(&value);
    for key in ["ip", "os", "n", "nested", "browser", ""] {
        match (value.get(key), json.get(key)) {
            (Some(a), Some(b)) => {
                assert!(&from_value(a) == b);
                assert_eq!(a.as_str(), b.as_text().map(|s| s.as_str()));
            }
            (None, None) => {}
            _ => panic!("lookups disagree on {key}"),
        }
    }
    let list: Value = serde_json::from_str(r#"["ip"]"#).expect("the text is JSON");
    assert!(list.get("ip").is_none());
    assert!(from_value(&list).get("ip").is_none());
}

#[test]
fn store_text_round_trip() {
    let mut store = Store::new();
    store.ingest(event("u1", r#"{"ip": "1.1.1.1", "browser": "chrome", "n": 1.25}"#, Some("t1")));
    store.ingest(event("u2", r#"{"tags": ["a", -3, 7, true, null], "deep": {"k": {"l": []}}}"#, None));
    store.ingest(event("u1", r#"{"ip": "2.2.2.2", "browser": "chrome", "n": 1.25}"#, Some("t2")));
    let text = render(&save_store(&store));
    let back = load_store(parse(&text).as_ref());
    let mut users: Vec<String> = back.profiles().into_iter().map(|p| p.user_id).collect();
    users.sort();
    assert_eq!(users, vec!["u1", "u2"]);
    for user in users {
        let before = store.timeline(&user).expect("the user was stored");
        let after = back.timeline(&user).expect("the user was loaded");
        assert!(before == after);
    }
    assert_eq!(back.drift("u1").expect("u1 is known").score, 20);
    assert_eq!(render(&save_store(&back)), text);
}

#[test]
fn store_file_text_is_read_as_written_by_hand() {
    let text = r#"{
        "u1": [
            {"user_id": "u1", "kind": "login", "meta": {"ip": "1.1.1.1", "os": "mac"}, "ts": "2024-01-01T00:00:00+00:00"},
            {"user_id": "u1", "kind": "login", "meta": {"ip": "2.2.2.2", "os": "linux", "browser": "chrome"}, "ts": null}
        ],
        "u2": []
    }"#;
    let store = load_store(parse(text).as_ref());
    assert_eq!(store.profiles().len(), 2);
    let events = store.timeline("u1").expect("u1 is known");
    assert_eq!(events.len(), 2);
    assert_eq!(events[0].ts.as_deref(), Some("2024-01-01T00:00:00+00:00"));
    assert_eq!(events[1].ts, None);
    let report = store.drift("u1").expect("u1 is known");
    assert_eq!(report.score, 60);
    assert_eq!(report.risk, Risk::High);
    let profile = store.fingerprint("u1").expect("u1 is known");
    assert_eq!(profile.tokens, vec!["ip:2.2.2.2", "browser:chrome", "os:linux"]);
    assert_eq!(profile.stability, 40);
    assert_eq!(store.drift("u2").expect("u2 is known").score, 0);
}

#[test]
fn corrupt_store_text_gives_an_empty_store() {
    let texts = [
        "",
        "not json",
        "{",
        "[]",
        "42",
        r#"{"u1": {"user_id": "u1"}}"#,
        r#"{"u1": [{"user_id": "u1", "kind": "login"}]}"#,
        r#"{"u1": [{"user_id": "u1", "kind": "login", "meta": {}, "ts": 5}]}"#,
        r#"{"u1": [{"user_id": 1, "kind": "login", "meta": {}}]}"#,
    ];
    for text in texts {
        let store = load_store(parse(text).as_ref());
        assert!(store.profiles().is_empty());
    }
}
