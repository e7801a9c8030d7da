//! The conversation with the box.
use medienzeit::fritzbox::{
    client_nonce, finish, finish_authenticated, request_head, Client, Error, Next,
};
use medienzeit::http::{header, parse_response, Malformed};
use medienzeit::tr064;

const CHALLENGE: &str = "HTTP/1.1 401 Unauthorized\r\nWWW-Authenticate: Digest realm=\"r\", nonce=\"n\", qop=\"auth\"\r\nContent-Length: 0";

#[test]
fn a_response_is_taken_apart() {
    let r = parse_response("HTTP/1.1 200 OK\r\nA: b\r\n\r\nbody\r\n\r\nmore").unwrap();
    assert_eq!((r.status, r.head, r.body), (200, "HTTP/1.1 200 OK\r\nA: b", "body\r\n\r\nmore"));
    assert_eq!(parse_response("HTTP/1.1 200 OK").err(), Some(Malformed::NoHead));
    assert_eq!(parse_response("nonsense\r\n\r\n").err(), Some(Malformed::NoStatus));
    assert_eq!(parse_response("HTTP/1.1 99999 OK\r\n\r\n").err(), Some(Malformed::NoStatus));
}

#[test]
fn headers_are_found_whatever_their_case() {
    let head = "HTTP/1.1 200 OK\nContent-Length:  5 \r\nX:y:z";
    assert_eq!(header(head, "content-length"), Some("5"));
    assert_eq!(header(head, "x"), Some("y:z"));
    assert_eq!(header(head, "y"), None);
}

#[test]
fn a_challenge_is_answered_and_counted() {
    let mut c = Client::new();
    for n in 1..=2 {
        match c.after_first(401, CHALLENGE, "", "u", "p", "/x", "cn") {
            Ok(Next::Authorize(a)) => {
                assert!(a.contains(&format!("nc=0000000{n}")));
                assert!(a.starts_with("Digest username=\"u\", realm=\"r\", nonce=\"n\", uri=\"/x\""));
            }
            _ => panic!("a challenge wants an answer"),
        }
    }
    assert_eq!(c.nc, 2);
    assert!(matches!(
        c.after_first(401, "HTTP/1.1 401 Unauthorized", "", "u", "p", "/x", "cn"),
        Err(Error::Http)
    ));
    assert!(matches!(
        c.answer("A: b\r\nWWW-Authenticate: Basic x", "u", "p", "/x", "cn"),
        Err(Error::Codec(tr064::Error::BadChallenge))
    ));
    assert_eq!(c.nc, 2);
}

#[test]
fn anything_but_a_challenge_is_final() {
    let mut c = Client::new();
    assert!(matches!(c.after_first(200, "", "ok", "u", "p", "/x", "cn"), Ok(Next::Done("ok"))));
    assert!(matches!(c.after_first(500, "", "fault", "u", "p", "/x", "cn"), Ok(Next::Done("fault"))));
    assert!(matches!(c.after_first(404, "", "", "u", "p", "/x", "cn"), Err(Error::Http)));
    assert_eq!(finish(200, "x"), Ok("x"));
    assert_eq!(finish(301, "x"), Err(Error::Http));
    assert_eq!(finish_authenticated(401, "x"), Err(Error::Unauthorized));
    assert_eq!(finish_authenticated(500, "x"), Ok("x"));
    assert_eq!(finish_authenticated(302, "x"), Err(Error::Http));
}

#[test]
fn the_request_head_counts_bytes() {
    let head = request_head("/p", "192.168.178.1", "s#a", "ü", Some("Digest x")).unwrap();
    assert_eq!(
        head.as_str(),
        "POST /p HTTP/1.1\r\nHost: 192.168.178.1\r\nContent-Type: text/xml; charset=\"utf-8\"\r\nSOAPAction: s#a\r\nContent-Length: 2\r\nConnection: close\r\nAuthorization: Digest x\r\n\r\n"
    );
    assert_eq!(request_head(&"x".repeat(800), "h", "s", "", None), Err(Error::Io));
    assert_eq!(client_nonce(0xab), "000000ab");
}

#[test]
fn questions_and_answers_belong_together() {
    assert!(Client::ask_host_entry("aa:bb").unwrap().contains("<NewMACAddress>aa:bb</NewMACAddress>"));
    assert!(Client::ask_set_blocked("1.2.3.4", true).unwrap().contains("<NewDisallow>1</NewDisallow>"));
    assert!(Client::ask_is_blocked("1.2.3.4").unwrap().contains("GetWANAccessByIP"));
    assert_eq!(
        Client::ask_is_blocked(&"9".repeat(700)),
        Err(Error::Codec(tr064::Error::BufferFull))
    );

    let h = Client::host_entry("<NewIPAddress>1.2.3.4</NewIPAddress><NewActive>1</NewActive>").unwrap();
    assert_eq!((h.ip.as_str(), h.active), ("1.2.3.4", true));
    assert_eq!(
        Client::host_entry("").err(),
        Some(Error::Codec(tr064::Error::MissingField("NewIPAddress")))
    );
    assert_eq!(Client::set_blocked("<ok/>"), Ok(()));
    let fault = "<s:Fault><errorCode>606</errorCode></s:Fault>";
    assert_eq!(Client::set_blocked(fault), Err(Error::Codec(tr064::Error::SoapFault(606))));
    assert_eq!(Client::is_blocked("<NewDisallow>0</NewDisallow>"), Ok(false));
    assert_eq!(
        Client::is_blocked("<NewDisallow>x</NewDisallow>"),
        Err(Error::Codec(tr064::Error::InvalidBool))
    );
}

#[test]
fn codec_errors_are_explained() {
    assert_eq!(tr064::Error::BufferFull.message(), "buffer too small");
    assert_eq!(tr064::Error::MissingField("X").message(), "response missing <X>");
    assert_eq!(tr064::Error::SoapFault(401).message(), "SOAP fault 401: TR-064 user lacks permission");
    assert_eq!(tr064::Error::SoapFault(714).message(), "SOAP fault 714: no such device known to the box");
    assert_eq!(tr064::Error::SoapFault(5).message(), "SOAP fault 5");
    assert_eq!(tr064::Error::BadChallenge.message(), "unparseable WWW-Authenticate challenge");
    assert_eq!(tr064::Error::InvalidBool.message(), "expected 0/1 boolean");
}
