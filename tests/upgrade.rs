use wsserver::upgrade::{find_header, upgrade_key};

fn headers(pairs: &[(&str, &str)]) -> Vec<(String, String)> {
    pairs.iter().map(|(n, v)| (n.to_string(), v.to_string())).collect()
}

fn good() -> Vec<(String, String)> {
    headers(&[
        ("Host", "localhost"),
        ("Connection", "Upgrade"),
        ("Upgrade", "WebSocket"),
        ("Sec-WebSocket-Version", "13"),
        ("Sec-WebSocket-Key", "dGhlIHNhbXBsZSBub25jZQ=="),
    ])
}

#[test]
fn accepts_valid_upgrade() {
    assert_eq!(
        upgrade_key("GET", "/", "HTTP/1.1", &good()),
        Some("dGhlIHNhbXBsZSBub25jZQ==".to_owned()),
    );
}

#[test]
fn refuses_wrong_request_line() {
    assert_eq!(upgrade_key("POST", "/", "HTTP/1.1", &good()), None);
    assert_eq!(upgrade_key("GET", "/chat", "HTTP/1.1", &good()), None);
    assert_eq!(upgrade_key("GET", "/", "HTTP/1.0", &good()), None);
}

#[test]
fn refuses_missing_or_wrong_headers() {
    let mut h = good();
    h.retain(|(n, _)| n != "Sec-WebSocket-Key");
    assert_eq!(upgrade_key("GET", "/", "HTTP/1.1", &h), None);
    let mut h = good();
    h[3].1 = "8".to_owned();
    assert_eq!(upgrade_key("GET", "/", "HTTP/1.1", &h), None);
    let mut h = good();
    h[1].1 = "keep-alive".to_owned();
    assert_eq!(upgrade_key("GET", "/", "HTTP/1.1", &h), None);
}

#[test]
fn last_header_wins() {
    let h = headers(&[("A", "1"), ("B", "2"), ("A", "3")]);
    assert_eq!(find_header(&h, "A"), Some("3".to_owned()));
    assert_eq!(find_header(&h, "a"), None);
}
