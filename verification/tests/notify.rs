//! Alerts.
use medienzeit::notify::{greeting, message, request_head, verdict, Endpoint, Health};

#[test]
fn health_counts() {
    let mut h = Health::default();
    assert_eq!(h.failed("dns"), "notify: send failed (dns), 1 in a row");
    assert_eq!(h.failed("tls handshake"), "notify: send failed (tls handshake), 2 in a row");
    h.succeeded(42);
    assert_eq!(h, Health { sent: 1, failed_in_a_row: 0, last_ok_ms: Some(42) });
}

#[test]
fn a_message_is_cut_to_its_room() {
    assert_eq!(message("kurz").as_str(), "kurz");
    assert_eq!(message(&"x".repeat(200)).len(), 160);
    assert_eq!(message(&"ü".repeat(80)).as_str(), "ü".repeat(80));
}

const HERE: Endpoint = Endpoint { host_header: "ntfy.lan", port: 80, topic: "secret", tls: false };

#[test]
fn only_a_prefix_of_the_topic_is_logged() {
    assert_eq!(greeting(&HERE), "notify: sender up, posting to http://ntfy.lan:80/secr… ");
    let tls = Endpoint { host_header: "ntfy.sh", port: 443, topic: "ab", tls: true };
    assert_eq!(greeting(&tls), "notify: sender up, posting to https://ntfy.sh:443/ab… ");
}

#[test]
fn an_alert_is_a_post() {
    assert_eq!(
        request_head(&HERE, "Gerät").unwrap().as_str(),
        "POST /secret HTTP/1.1\r\nHost: ntfy.lan\r\nContent-Type: text/plain; charset=utf-8\r\nTitle: Medienzeit\r\nContent-Length: 6\r\nConnection: close\r\n\r\n"
    );
    let long = "x".repeat(600);
    let e = Endpoint { host_header: &long, port: 80, topic: "t", tls: false };
    assert_eq!(request_head(&e, ""), Err("request too long"));
}

#[test]
fn the_status_decides() {
    assert_eq!(verdict(Some("HTTP/1.1 200 OK")), Ok(()));
    assert_eq!(verdict(Some("HTTP/1.1 299")), Ok(()));
    assert_eq!(verdict(Some("HTTP/1.1 403 Forbidden")), Err("http error"));
    assert_eq!(verdict(Some("HTTP/1.1")), Err("no status line"));
    assert_eq!(verdict(None), Err("not utf-8"));
}
