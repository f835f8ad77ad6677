use drift_engine::drift::assess;
use drift_engine::event::{count_changed_fields, field_differs, Event, FIELD_WEIGHT};
use drift_engine::fingerprint::{extract_tokens, metadata_history, profile, stability};
use drift_engine::json::{Json, Member, Number};
use drift_engine::risk::Risk;

fn text(s: &str) -> Json {
    Json::Text(s.to_string())
}

fn object(fields: Vec<(&str, Json)>) -> Json {
    Json::Object(
        fields.into_iter().map(|(key, value)| Member { key: key.to_string(), value }).collect(),
    )
}

fn device(ip: &str, browser: &str, os: &str, dev_type: &str) -> Json {
    object(vec![
        ("ip", text(ip)),
        ("browser", text(browser)),
        ("os", text(os)),
        ("dev_type", text(dev_type)),
    ])
}

fn event(meta: Json) -> Event {
    Event { user_id: "u".to_string(), kind: "login".to_string(), meta, ts: None }
}

fn history(metas: Vec<Json>) -> Vec<Event> {
    metas.into_iter().map(event).collect()
}

#[test]
fn field_weight_is_twenty() {
    assert_eq!(FIELD_WEIGHT, 20);
}

#[test]
fn risk_thresholds_are_inclusive() {
    assert_eq!(Risk::from_score(0), Risk::Low);
    assert_eq!(Risk::from_score(20), Risk::Low);
    assert_eq!(Risk::from_score(29), Risk::Low);
    assert_eq!(Risk::from_score(30), Risk::Medium);
    assert_eq!(Risk::from_score(40), Risk::Medium);
    assert_eq!(Risk::from_score(59), Risk::Medium);
    assert_eq!(Risk::from_score(60), Risk::High);
    assert_eq!(Risk::from_score(80), Risk::High);
}

#[test]
fn risk_labels() {
    assert_eq!(Risk::Low.label(), "Low");
    assert_eq!(Risk::Medium.label(), "Medium");
    assert_eq!(Risk::High.label(), "High");
}

#[test]
fn score_grows_by_twenty_per_changed_field() {
    let base = device("1.1.1.1", "chrome", "mac", "desktop");
    let cases = vec![
        (device("1.1.1.1", "chrome", "mac", "desktop"), 0, Risk::Low),
        (device("2.2.2.2", "chrome", "mac", "desktop"), 20, Risk::Low),
        (device("2.2.2.2", "firefox", "mac", "desktop"), 40, Risk::Medium),
        (device("2.2.2.2", "firefox", "linux", "desktop"), 60, Risk::High),
        (device("2.2.2.2", "firefox", "linux", "phone"), 80, Risk::High),
    ];
    for (last, score, risk) in cases {
        let report = assess(&history(vec![base.clone(), last]));
        assert_eq!(report.score, score);
        assert_eq!(report.risk, risk);
        assert!(report.reasons.is_empty());
        assert_eq!(report.score % 20, 0);
        assert!(report.score <= 80);
    }
}

#[test]
fn short_histories_score_zero() {
    let none = assess(&Vec::new());
    assert_eq!(none.score, 0);
    assert_eq!(none.risk, Risk::Low);
    let one = assess(&history(vec![device("1.1.1.1", "chrome", "mac", "desktop")]));
    assert_eq!(one.score, 0);
    assert_eq!(one.risk, Risk::Low);
}

#[test]
fn missing_field_differs_from_null() {
    let absent = object(vec![("browser", text("chrome"))]);
    let null = object(vec![("browser", text("chrome")), ("ip", Json::Null)]);
    assert!(field_differs(&absent, &null, "ip"));
    assert!(!field_differs(&absent, &absent, "ip"));
    assert!(!field_differs(&null, &null, "ip"));
    assert!(!field_differs(&absent, &null, "browser"));
    assert_eq!(count_changed_fields(&absent, &null), 1);
}

#[test]
fn untracked_fields_do_not_count() {
    let a = object(vec![("ip", text("1.1.1.1")), ("city", text("Oslo"))]);
    let b = object(vec![("ip", text("1.1.1.1")), ("city", text("Rome"))]);
    assert_eq!(count_changed_fields(&a, &b), 0);
    assert_eq!(assess(&history(vec![a, b])).score, 0);
}

#[test]
fn values_are_compared_structurally() {
    let nested_a = object(vec![("ip", object(vec![("v4", text("1.1.1.1")), ("v6", Json::Null)]))]);
    let nested_b = object(vec![("ip", object(vec![("v6", Json::Null), ("v4", text("1.1.1.1"))]))]);
    let nested_c = object(vec![("ip", object(vec![("v4", text("1.1.1.2")), ("v6", Json::Null)]))]);
    assert_eq!(count_changed_fields(&nested_a, &nested_b), 0);
    assert_eq!(count_changed_fields(&nested_a, &nested_c), 1);
    let as_number = object(vec![("os", Json::Number(Number::PosInt(7)))]);
    let as_text = object(vec![("os", text("7"))]);
    assert_eq!(count_changed_fields(&as_number, &as_text), 1);
}

#[test]
fn metadata_that_is_no_object_has_no_fields() {
    let scalar = text("ip");
    let list = Json::List(vec![text("ip")]);
    assert_eq!(count_changed_fields(&scalar, &list), 0);
    assert_eq!(count_changed_fields(&Json::Null, &device("1.1.1.1", "chrome", "mac", "desktop")), 4);
    assert!(extract_tokens(&scalar).is_empty());
    assert!(extract_tokens(&list).is_empty());
}

#[test]
fn tokens_follow_the_fixed_field_order() {
    let shuffled = object(vec![
        ("dev_type", text("desktop")),
        ("os", text("mac")),
        ("browser", text("chrome")),
        ("ip", text("1.1.1.1")),
    ]);
    assert_eq!(
        extract_tokens(&shuffled),
        vec!["ip:1.1.1.1", "browser:chrome", "os:mac", "dev:desktop"]
    );
}

#[test]
fn absent_and_non_string_fields_give_no_token() {
    let meta = object(vec![
        ("ip", Json::Number(Number::PosInt(5))),
        ("browser", Json::Null),
        ("os", text("mac")),
        ("extra", text("ignored")),
    ]);
    assert_eq!(extract_tokens(&meta), vec!["os:mac"]);
    assert!(extract_tokens(&object(vec![])).is_empty());
    let empty_text = object(vec![("ip", text(""))]);
    assert_eq!(extract_tokens(&empty_text), vec!["ip:"]);
}

#[test]
fn stability_starts_at_one_hundred() {
    assert_eq!(stability(&Vec::new()), 100);
    assert_eq!(stability(&history(vec![device("1.1.1.1", "chrome", "mac", "desktop")])), 100);
}

#[test]
fn stability_loses_twenty_per_change() {
    let h = history(vec![
        device("1.1.1.1", "chrome", "mac", "desktop"),
        device("2.2.2.2", "chrome", "mac", "desktop"),
        device("2.2.2.2", "firefox", "linux", "desktop"),
    ]);
    assert_eq!(stability(&h), 40);
}

#[test]
fn several_changes_in_one_step_all_count() {
    let h = history(vec![
        device("1.1.1.1", "chrome", "mac", "desktop"),
        device("2.2.2.2", "firefox", "linux", "phone"),
    ]);
    assert_eq!(stability(&h), 20);
}

#[test]
fn stability_stops_at_zero() {
    let mut metas = Vec::new();
    for round in 0..50 {
        if round % 2 == 0 {
            metas.push(device("1.1.1.1", "chrome", "mac", "desktop"));
        } else {
            metas.push(device("2.2.2.2", "firefox", "linux", "phone"));
        }
    }
    assert_eq!(stability(&history(metas)), 0);
    let exactly_five = history(vec![
        device("1", "a", "x", "p"),
        device("2", "b", "y", "q"),
        device("3", "b", "y", "q"),
    ]);
    assert_eq!(stability(&exactly_five), 0);
}

#[test]
fn stability_never_rises_as_events_arrive() {
    let metas = vec![
        device("1.1.1.1", "chrome", "mac", "desktop"),
        device("1.1.1.1", "chrome", "mac", "desktop"),
        device("2.2.2.2", "chrome", "mac", "desktop"),
        device("2.2.2.2", "chrome", "linux", "desktop"),
        device("2.2.2.2", "chrome", "linux", "desktop"),
        device("3.3.3.3", "firefox", "linux", "desktop"),
        device("4.4.4.4", "firefox", "linux", "desktop"),
    ];
    let expected = [100, 100, 80, 60, 60, 20, 0];
    let mut seen: Vec<Event> = Vec::new();
    let mut before = 100;
    for (meta, want) in metas.into_iter().zip(expected) {
        seen.push(event(meta));
        let now = stability(&seen);
        assert_eq!(now, want);
        assert!(now <= before);
        assert!(now <= 100);
        before = now;
    }
}

#[test]
fn history_lists_every_metadata_in_order() {
    let metas = vec![
        device("1.1.1.1", "chrome", "mac", "desktop"),
        object(vec![("note", Json::List(vec![Json::Bool(true), Json::Null]))]),
        Json::Null,
    ];
    let copies = metadata_history(&history(metas.clone()));
    assert!(copies == metas);
}

#[test]
fn profile_collects_all_parts() {
    let h = history(vec![
        device("1.1.1.1", "chrome", "mac", "desktop"),
        object(vec![("ip", text("2.2.2.2")), ("browser", text("chrome"))]),
    ]);
    let p = profile("someone", &h);
    assert_eq!(p.user_id, "someone");
    assert_eq!(p.tokens, vec!["ip:2.2.2.2", "browser:chrome"]);
    assert_eq!(p.stability, 40);
    assert_eq!(p.history.len(), 2);
    assert_eq!(p.fingerprint.len(), 64);
}
