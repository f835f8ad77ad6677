use drift_engine::digest::{fingerprint_tokens, to_hex_lower};
use drift_engine::event::Event;
use drift_engine::json::{Json, Member};
use drift_engine::store::Store;

fn strings(items: &[&str]) -> Vec<String> {
    items.iter().map(|s| s.to_string()).collect()
}

fn meta(fields: &[(&str, &str)]) -> Json {
    Json::Object(
        fields
            .iter()
            .map(|(key, value)| Member { key: key.to_string(), value: Json::Text(value.to_string()) })
            .collect(),
    )
}

fn event(user: &str, meta: Json) -> Event {
    Event { user_id: user.to_string(), kind: "login".to_string(), meta, ts: None }
}

#[test]
fn hex_digits_are_lowercase() {
    assert_eq!(to_hex_lower(&[0x01, 0x23, 0x45, 0x67, 0x89, 0xab, 0xcd, 0xef]), "0123456789abcdef");
    assert_eq!(to_hex_lower(&[0x10, 0x32, 0x54, 0x76, 0x98, 0xba, 0xdc, 0xfe]), "1032547698badcfe");
}

#[test]
fn hex_writes_two_digits_per_byte_high_half_first() {
    assert_eq!(to_hex_lower(&[]), "");
    assert_eq!(to_hex_lower(&[0x00]), "00");
    assert_eq!(to_hex_lower(&[0x0f, 0xf0]), "0ff0");
    assert_eq!(to_hex_lower(&[0x1a, 0xb2, 0xff, 0x09]), "1ab2ff09");
    assert_eq!(to_hex_lower(&[0xde, 0xad, 0xbe, 0xef]), "deadbeef");
}

#[test]
fn hex_agrees_with_the_digest_of_the_empty_input() {
    assert_eq!(
        to_hex_lower(blake3::hash(b"").as_bytes()),
        "af1349b9f5f9a1a6a0404dea36dcc9499bcb25c9adc112b7cc9a93cae41f3262"
    );
}

#[test]
fn hex_agrees_with_the_hash_type() {
    for input in [&b"a"[..], &b"session"[..], &[0u8, 255, 16, 1][..]] {
        let hash = blake3::hash(input);
        assert_eq!(to_hex_lower(hash.as_bytes()), hash.to_hex().to_string());
    }
}

#[test]
fn fingerprint_of_known_token_lists() {
    assert_eq!(
        fingerprint_tokens(&Vec::new()),
        "d53d18c23212ea7b6300594bb89bce60218f6eff2b9d628b8cc42d3e79bbd5ab"
    );
    assert_eq!(
        fingerprint_tokens(&strings(&["ip:1.1.1.1", "browser:chrome", "os:mac", "dev:desktop"])),
        "dd517310de0a7572dfbb6fc1eac517a2e69e0ffcd9c5e524110d85f3f20e9a90"
    );
    assert_eq!(
        fingerprint_tokens(&strings(&["ip:a\"b\\c", "os:\u{e9}\n"])),
        "a670d4333df8fb3bf2ff183b3b1bdaccc9a9898cce800418b6733f362644502f"
    );
}

#[test]
fn fingerprint_hashes_the_rendered_list() {
    let lists = vec![
        strings(&[]),
        strings(&["ip:1.1.1.1"]),
        strings(&["ip:1.1.1.1", "browser:chrome", "os:mac", "dev:desktop"]),
        strings(&["os:\"quoted\"", "dev:tab\there"]),
    ];
    for tokens in lists {
        let rendered = format!("{:?}", tokens);
        let expected = blake3::hash(rendered.as_bytes()).to_hex().to_string();
        let got = fingerprint_tokens(&tokens);
        assert_eq!(got, expected);
        assert_eq!(got.len(), 64);
        assert!(got.chars().all(|c| c.is_ascii_digit() || ('a'..='f').contains(&c)));
        assert_ne!(got, rendered);
    }
}

#[test]
fn fingerprint_depends_on_tokens_and_their_order() {
    let a = fingerprint_tokens(&strings(&["ip:1.1.1.1", "os:mac"]));
    let b = fingerprint_tokens(&strings(&["os:mac", "ip:1.1.1.1"]));
    let c = fingerprint_tokens(&strings(&["ip:1.1.1.2", "os:mac"]));
    let d = fingerprint_tokens(&strings(&["ip:1.1.1.1"]));
    assert_ne!(a, b);
    assert_ne!(a, c);
    assert_ne!(a, d);
    assert_eq!(a, fingerprint_tokens(&strings(&["ip:1.1.1.1", "os:mac"])));
}

#[test]
fn fingerprint_ignores_history_and_untracked_fields() {
    let latest = [("ip", "1.1.1.1"), ("browser", "chrome"), ("os", "mac"), ("dev_type", "desktop")];
    let mut short = Store::new();
    short.ingest(event("a", meta(&latest)));
    let mut long = Store::new();
    long.ingest(event("b", meta(&[("ip", "9.9.9.9"), ("os", "linux")])));
    long.ingest(event("b", meta(&[("browser", "safari")])));
    let mut with_extras = latest.to_vec();
    with_extras.push(("city", "Oslo"));
    long.ingest(event("b", meta(&with_extras)));
    let first = short.fingerprint("a").expect("a is known");
    let second = long.fingerprint("b").expect("b is known");
    assert_eq!(first.tokens, second.tokens);
    assert_eq!(first.fingerprint, second.fingerprint);
    assert_eq!(
        first.fingerprint,
        "dd517310de0a7572dfbb6fc1eac517a2e69e0ffcd9c5e524110d85f3f20e9a90"
    );
    assert_ne!(first.stability, second.stability);
}

#[test]
fn fingerprint_of_a_user_without_tokens() {
    let mut store = Store::new();
    store.ingest(event("quiet", Json::Null));
    let profile = store.fingerprint("quiet").expect("quiet is known");
    assert!(profile.tokens.is_empty());
    assert_eq!(
        profile.fingerprint,
        "d53d18c23212ea7b6300594bb89bce60218f6eff2b9d628b8cc42d3e79bbd5ab"
    );
}
