//! The admin page.
use medienzeit::balance::{Ledger, Policy, Snapshot};
use medienzeit::notify::Health;
use medienzeit::settings::Settings;
use medienzeit::sim::berlin;
use medienzeit::web::{
    authorized, base64_into, blocked, expected_auth, fits, grant_minutes, handle, page,
    parse_settings, put_back, route, stylesheet_head, yes_no, Handled, Route,
};

const NAMES: [&str; 2] = ["Handy", "Tablet"];

fn base64(s: &str) -> heapless::String<128> {
    let mut out = heapless::String::new();
    base64_into(s.as_bytes(), &mut out);
    out
}

#[test]
fn base64_matches_the_usual_vectors() {
    for (plain, coded) in [
        ("", ""),
        ("f", "Zg=="),
        ("fo", "Zm8="),
        ("foo", "Zm9v"),
        ("foob", "Zm9vYg=="),
        ("fooba", "Zm9vYmE="),
        ("foobar", "Zm9vYmFy"),
    ] {
        assert_eq!(base64(plain), coded);
    }
    let mut out = heapless::String::try_from("x").unwrap();
    base64_into(&[0xfb, 0xff], &mut out);
    assert_eq!(out, "x+/8=");
    // Characters that no longer fit are left out.
    let mut out = heapless::String::try_from("x".repeat(125).as_str()).unwrap();
    base64_into(&[0xfb, 0xff], &mut out);
    assert_eq!(out.as_str(), "x".repeat(125) + "+/8");
}

#[test]
fn credentials_are_compared_whole() {
    assert_eq!(expected_auth("papa", "geheim"), "Basic cGFwYTpnZWhlaW0=");
    let auth = expected_auth("papa", "geheim");
    assert!(authorized("GET / HTTP/1.1\r\nauthorization:  Basic cGFwYTpnZWhlaW0= \r\n\r\n", &auth));
    assert!(!authorized("GET / HTTP/1.1\r\nAuthorization: Basic cGFwYTpnZWhlaW0\r\n\r\n", &auth));
    assert!(!authorized("GET / HTTP/1.1\r\n\r\n", &auth));
    // What does not fit into the buffers is left out.
    assert_eq!(expected_auth(&"u".repeat(97), "p"), "Basic ");
    assert_eq!(expected_auth(&"u".repeat(96), "p").len(), 128);
    assert_eq!(expected_auth("u", &"p".repeat(95)), "Basic dTo=");
    assert_eq!(expected_auth("u", &"p".repeat(94)).len(), 128);
}

fn post(body: &str) -> String {
    format!("POST / HTTP/1.1\r\nAuthorization: secret\r\n\r\n{body}")
}

fn current() -> Settings {
    Settings::from_policy(&Policy::default(), 7)
}

/// The page in a buffer of its own.
fn shown(
    snap: Option<&Snapshot<2>>,
    saved: Option<bool>,
    health: &Health,
    rules: Option<Settings>,
    names: &[&str; 2],
) -> String {
    let mut out = heapless::String::new();
    page(&mut out, snap, 0, saved, health, rules, names);
    out.as_str().to_owned()
}

fn snapshot() -> Snapshot<2> {
    Ledger::<2>::with_balance(-3_599)
        .tick(berlin(2026, 8, 3, 22, 5), [false, true], [true, true], &Policy::default())
        .0
}

fn answer(request: &str) -> Handled {
    handle(request, "secret", Some(&snapshot()), &Health::default(), Some(current()), &NAMES)
}

#[test]
fn a_grant_is_read_from_the_form() {
    assert_eq!(grant_minutes(&post("grant=10")), 10);
    assert_eq!(grant_minutes(&post("a=1&grant=30\0\0")), 30);
    assert_eq!(grant_minutes(&post("grant=x")), 0);
    assert_eq!(grant_minutes(&post("agrant=10")), 0);
    assert_eq!(grant_minutes("POST / HTTP/1.1"), 0);
}

#[test]
fn without_credentials_nothing_happens() {
    let r = answer("POST / HTTP/1.1\r\n\r\ngrant=10");
    assert_eq!(
        r.response,
        "HTTP/1.1 401 Unauthorized\r\nWWW-Authenticate: Basic realm=\"Medienzeit\"\r\nContent-Length: 0\r\nConnection: close\r\n\r\n"
    );
    assert!(r.bonus_secs.is_none() && r.pending.is_none() && r.lines.is_empty());
}

#[test]
fn a_grant_is_capped_at_an_hour() {
    let r = answer(&post("grant=10"));
    assert_eq!(r.bonus_secs, Some(600));
    assert_eq!(r.lines, vec!["web: granted 10 bonus minutes"]);
    assert!(r.response.contains("+10 Min gewährt"));
    assert_eq!(answer(&post("grant=999")).bonus_secs, Some(3_600));
    assert_eq!(answer(&post("grant=0")).bonus_secs, None);
    let get = "GET / HTTP/1.1\r\nAuthorization: secret\r\n\r\ngrant=10";
    assert_eq!(answer(get).bonus_secs, None);
}

#[test]
fn rules_are_read_from_the_form() {
    let body = "rn=2&rd=5&cap=90&floor=10&pre=20&grace=60&ns=20%3A15&ne=07:05";
    let s = parse_settings(&post(body), Some(current())).unwrap();
    assert_eq!(
        s,
        Settings {
            seq: 7,
            refill_num: 2,
            refill_den: 5,
            cap_secs: 5_400,
            floor_secs: 600,
            prefill_secs: 1_200,
            grace_secs: 60,
            night_start_minute: 20 * 60 + 15,
            night_end_minute: 7 * 60 + 5,
        }
    );
    assert_eq!(parse_settings(&post(body), None), None);
    assert_eq!(parse_settings(&post("rn=2"), Some(current())), None);
}

#[test]
fn a_partial_form_keeps_the_rest() {
    let s = parse_settings(&post("cap=1&ns=25:00&ne=xx"), Some(current())).unwrap();
    let mut want = current();
    want.cap_secs = 60;
    assert_eq!(s, want);
}

#[test]
fn minutes_that_overflow_are_noticed() {
    assert!(fits(&post("cap=71582788"), Some(current())));
    assert!(!fits(&post("cap=71582789"), Some(current())));
    assert!(fits(&post("cap=71582789"), None));
    assert!(fits(&post("floor=71582789"), Some(current())));
}

#[test]
fn a_change_is_queued_or_refused() {
    let r = answer(&post("cap=60"));
    assert_eq!(r.pending.unwrap().cap_secs, 3_600);
    assert_eq!(r.lines, vec!["web: settings change queued"]);
    assert!(r.response.contains("Gespeichert."));
    let r = answer(&post("cap=60&rd=0"));
    assert!(r.pending.is_none());
    assert_eq!(r.lines, vec!["web: settings change refused as invalid"]);
    assert!(r.response.contains("Abgelehnt"));
}

#[test]
fn the_page_shows_the_state() {
    let p = shown(Some(&snapshot()), None, &Health::default(), Some(current()), &NAMES);
    for part in [
        "<strong>-59</strong>",
        "<td colspan=2>gehalten</td>",
        "<td colspan=2>22:05</td>",
        "<th scope=row>Nacht</th><td colspan=2>ja</td>",
        "<th scope=row>Handy</th><td>weggenommen</td><td data-state=blocked>blockiert</td>",
        "<th scope=row>Tablet</th><td>zurückgelegt</td><td>erlaubt</td>",
        "noch keine gesendet",
        "name=cap value=180 ",
        "value=\"21:00\"",
        "value=\"06:30\"",
    ] {
        assert!(p.contains(part), "{part}");
    }
    assert!(p.starts_with("<!doctype html>") && p.ends_with("</html>"));
    let sent = Health { sent: 3, failed_in_a_row: 0, last_ok_ms: Some(1) };
    let empty = shown(None, None, &sent, None, &NAMES);
    assert!(empty.contains("Startet — noch kein Stand."));
    assert!(empty.contains("in Ordnung · 3 gesendet"));
    assert!(!empty.contains("Regeln"));
    let failing = Health { sent: 3, failed_in_a_row: 2, last_ok_ms: Some(1) };
    assert!(shown(None, None, &failing, None, &NAMES).contains("2 Fehlversuche"));
}

#[test]
fn the_length_counts_bytes() {
    let r = answer("GET / HTTP/1.1\r\nAuthorization: secret\r\n\r\n");
    let (head, body) = r.response.split_once("\r\n\r\n").unwrap();
    assert!(head.contains(&format!("Content-Length: {}", body.len())));
    let long = "x".repeat(2_500);
    let r = handle(
        "GET / HTTP/1.1\r\nAuthorization: secret",
        "secret",
        Some(&snapshot()),
        &Health::default(),
        Some(current()),
        &[long.as_str(), "b"],
    );
    let (_, body) = r.response.split_once("\r\n\r\n").unwrap();
    assert_eq!(r.lines, vec![format!("web: page is {} bytes, buffer is 6144", body.len())]);
    assert!(body.ends_with("</html>"));
}

#[test]
fn what_does_not_fit_the_page_is_dropped() {
    let plain = shown(Some(&snapshot()), Some(true), &Health::default(), Some(current()), &NAMES);
    let spare = 6_144 - plain.len();
    let filled = |n: usize| {
        let name = "x".repeat("Tablet".len() + n);
        shown(
            Some(&snapshot()),
            Some(true),
            &Health::default(),
            Some(current()),
            &["Handy", name.as_str()],
        )
    };
    // To the last byte.
    let p = filled(spare);
    assert_eq!(p.len(), 6_144);
    assert!(p.ends_with("</html>"));
    // One more, and the last piece is left out whole.
    let p = filled(spare + 1);
    assert!(p.ends_with("name=ne value=\"06:30"), "{}", &p[p.len() - 40..]);
    // A write that is cut short does not keep the next from being tried.
    let p = filled(6_144);
    assert!(p.contains("<tr><th scope=row></tbody></table></div>"));
    assert!(p.ends_with("</html>"));
    // A sign is a piece of its own.
    let before = 6_144 - plain.find("-59</strong>").unwrap();
    for (left, end) in [(0, "<strong>"), (1, "<strong>-"), (2, "<strong>-"), (3, "<strong>-59")] {
        let full = "y".repeat(before - left);
        let mut out = heapless::String::try_from(full.as_str()).unwrap();
        page(&mut out, Some(&snapshot()), 0, None, &Health::default(), None, &NAMES);
        assert!(out.ends_with(end), "{left}");
    }
}

#[test]
fn the_stylesheet_needs_no_credentials() {
    assert_eq!(route("GET /s.css HTTP/1.1"), Route::Stylesheet);
    assert_eq!(route("GET / HTTP/1.1"), Route::Page);
    assert!(stylesheet_head(1_234).unwrap().contains("Content-Length: 1234\r\n"));
    assert_eq!(stylesheet_head(usize::MAX), None);
}

#[test]
fn words() {
    assert_eq!((yes_no(true), yes_no(false)), ("ja", "nein"));
    assert_eq!((put_back(true), put_back(false)), ("zurückgelegt", "weggenommen"));
    assert_eq!((blocked(true), blocked(false)), ("blockiert", "erlaubt"));
}
