//! Digest authentication.
use heapless::String;
use medienzeit::tr064::digest::{md5_hex, Challenge};
use medienzeit::tr064::Error;

/// What a FRITZ!Box actually sends back on the first POST.
const FRITZ: &str = r#"Digest realm="F!Box SOAP-Auth", nonce="3E1D5C7B9A0F2846", qop="auth", charset="utf-8", algorithm="MD5""#;

#[test]
fn parses_a_fritzbox_challenge() {
    let c = Challenge::parse(FRITZ).unwrap();
    assert_eq!(c.realm.as_str(), "F!Box SOAP-Auth");
    assert_eq!(c.nonce.as_str(), "3E1D5C7B9A0F2846");
    assert!(c.qop_auth);
    assert_eq!(c.opaque, None);
}

#[test]
fn parses_unquoted_and_opaque_variants() {
    let c = Challenge::parse(r#"Digest realm="r", nonce="n", qop=auth, opaque="xyz""#).unwrap();
    assert!(c.qop_auth);
    assert_eq!(c.opaque.as_deref(), Some("xyz"));
}

#[test]
fn rejects_non_digest_and_incomplete_challenges() {
    assert_eq!(Challenge::parse("Basic realm=\"x\""), Err(Error::BadChallenge));
    assert_eq!(Challenge::parse("Digest realm=\"r\""), Err(Error::BadChallenge));
    assert_eq!(Challenge::parse(""), Err(Error::BadChallenge));
}

/// The RFC 2617 section 3.5 worked example, which pins the whole MD5 chain.
#[test]
fn matches_the_rfc2617_reference_vector() {
    let c = Challenge::parse(
        r#"Digest realm="testrealm@host.com", qop="auth,auth-int", nonce="dcd98b7102dd2f0e8b11d0f600bfb0c093", opaque="5ccc069c403ebaf9f0171e9517f40e41""#,
    )
    .unwrap();
    let auth: String<512> = c
        .authorization("Mufasa", "Circle Of Life", "GET", "/dir/index.html", 1, "0a4f113b")
        .unwrap();
    assert!(
        auth.contains("response=\"6629fae49393a05397450978507c4ef1\""),
        "got: {auth}"
    );
    assert!(auth.contains("nc=00000001"));
    assert!(auth.contains("qop=auth"));
}

#[test]
fn without_qop_the_short_formula_is_used() {
    let c = Challenge::parse(r#"Digest realm="r", nonce="n""#).unwrap();
    let auth: String<512> = c.authorization("u", "p", "POST", "/x", 1, "cn").unwrap();
    assert!(!auth.contains("qop"));
    assert!(!auth.contains("cnonce"));
    // HA1=md5(u:r:p), HA2=md5(POST:/x), response=md5(HA1:n:HA2)
    let ha1 = md5_hex(&["u", "r", "p"]);
    let ha2 = md5_hex(&["POST", "/x"]);
    let expect = md5_hex(&[&ha1, "n", &ha2]);
    assert!(auth.contains(expect.as_str()));
}

#[test]
fn nonce_count_is_zero_padded_to_eight_digits() {
    let c = Challenge::parse(FRITZ).unwrap();
    let auth: String<512> = c.authorization("u", "p", "POST", "/x", 42, "cn").unwrap();
    assert!(auth.contains("nc=0000002a"), "got: {auth}");
}

#[test]
fn overflow_is_reported_not_truncated() {
    let c = Challenge::parse(FRITZ).unwrap();
    let r: Result<String<32>, _> = c.authorization("u", "p", "POST", "/x", 1, "cn");
    assert_eq!(r.unwrap_err(), Error::BufferFull);
}

#[test]
fn the_length_of_the_header_is_known_beforehand() {
    assert_eq!(md5_hex(&["a", "b"]).len(), 32);
    // 106 and 34 bytes of wording and digits, and what is carried: 1, 15, 16, 2 and 2.
    let c = Challenge::parse(FRITZ).unwrap();
    let r: Result<String<176>, _> = c.authorization("u", "p", "POST", "/x", 1, "cn");
    assert_eq!(r.unwrap().len(), 176);
    let r: Result<String<175>, _> = c.authorization("u", "p", "POST", "/x", 1, "cn");
    assert_eq!(r, Err(Error::BufferFull));
    let c = Challenge::parse(r#"Digest realm="r", nonce="n", opaque="xyz""#).unwrap();
    let r: Result<String<512>, _> = c.authorization("u", "p", "POST", "/x", 1, "cn");
    assert_eq!(r.unwrap().len(), 106 + 1 + 1 + 1 + 2 + 11 + 3);
}

#[test]
fn a_challenge_can_be_kept() {
    let c = Challenge::parse(r#"Digest realm="r", nonce="n", qop=auth, opaque="xyz""#).unwrap();
    assert_eq!(c.clone(), c);
    let c = Challenge::parse(r#"Digest realm="r", nonce="n""#).unwrap();
    assert_eq!(c.clone(), c);
}
