//! The command line.
use medienzeit::cli::{
    after_first, begin, check_readback, cnonce, describe_change, describe_host, describe_status,
    finish, finish_authenticated, next, parse_args, usage, Command, Errand, Next, Step,
};
use medienzeit::http::Response;
use medienzeit::tr064::hosts::parse_host_entry;

fn args(a: &[&str]) -> Vec<String> {
    a.iter().map(|s| s.to_string()).collect()
}

#[test]
fn one_command_takes_one_argument() {
    for (word, command) in [
        ("host", Command::Host),
        ("block", Command::Block),
        ("unblock", Command::Unblock),
        ("status", Command::Status),
    ] {
        assert_eq!(parse_args(&args(&[word, "x"])), Ok((command, "x")));
    }
    for bad in [&["host"][..], &[], &["nope", "x"], &["host", "a", "b"]] {
        assert_eq!(parse_args(&args(bad)), Err(usage()));
    }
    assert!(usage().starts_with("usage: tr064-cli <command>\n\n  host <MAC>"));
}

#[test]
fn a_challenge_is_answered_once() {
    let r = Response {
        status: 401,
        head: "HTTP/1.1 401 Unauthorized\r\nWWW-Authenticate: Digest realm=\"r\", nonce=\"n\"",
        body: "",
    };
    match after_first(&r, "u", "p", "/x", "cn") {
        Next::Authorize(a) => assert!(a.contains("response=\"")),
        Next::Finish(_) => panic!("a challenge wants an answer"),
    }
    let bare = Response { status: 401, head: "WWW-Authenticate: Digest x", body: "" };
    assert!(matches!(
        after_first(&bare, "u", "p", "/x", "cn"),
        Next::Finish(Err(e)) if e == "FRITZ!Box returned 401 without a WWW-Authenticate header"
    ));
    let basic = Response { status: 401, head: "x\r\nWWW-Authenticate: Basic", body: "" };
    assert!(matches!(
        after_first(&basic, "u", "p", "/x", "cn"),
        Next::Finish(Err(e)) if e == "unparseable WWW-Authenticate challenge"
    ));
    let ok = Response { status: 200, head: "", body: "b" };
    assert!(matches!(after_first(&ok, "u", "p", "/x", "cn"), Next::Finish(Ok(b)) if b == "b"));
}

#[test]
fn responses_end_in_a_body_or_a_reason() {
    assert_eq!(finish(500, "fault"), Ok("fault".to_string()));
    assert_eq!(finish(404, ""), Err("unexpected HTTP 404".to_string()));
    assert!(finish_authenticated(401, "").unwrap_err().starts_with("authentication rejected"));
    assert_eq!(finish_authenticated(200, "x"), Ok("x".to_string()));
}

#[test]
fn results_are_printed() {
    let h = parse_host_entry("<NewIPAddress>10.0.0.9</NewIPAddress><NewActive>0</NewActive>").unwrap();
    assert_eq!(
        describe_host(&h),
        ("ip       10.0.0.9".to_string(), "online   no".to_string(), "hostname -".to_string())
    );
    assert_eq!(describe_change("1.2.3.4", true), "1.2.3.4 blocked");
    assert_eq!(describe_change("1.2.3.4", false), "1.2.3.4 unblocked");
    assert_eq!(describe_status("1.2.3.4", false), "1.2.3.4 allowed");
    assert_eq!(check_readback(true, true), ("readback blocked".to_string(), Ok(())));
    let (line, r) = check_readback(false, true);
    assert_eq!(line, "readback allowed");
    assert_eq!(r, Err("the box did not apply the change — check user permissions".to_string()));
    assert_eq!(cnonce(0xabc), "0000000000000abc");
}

fn asked<'a>(step: Step<'a>) -> (Vec<String>, String, String, Errand<'a>) {
    match step {
        Step::Ask { lines, request, then } => {
            (lines, request.action.name.to_string(), request.body, then)
        }
        Step::Done { .. } => panic!("nothing was asked"),
    }
}

fn ended(step: Step) -> (Vec<String>, Result<(), String>) {
    match step {
        Step::Done { lines, outcome } => (lines, outcome),
        Step::Ask { .. } => panic!("this is not the end"),
    }
}

const FAULT: &str = "<s:Fault><detail><UPnPError><errorCode>401</errorCode></UPnPError></detail></s:Fault>";

#[test]
fn a_change_counts_once_it_is_read_back() {
    for (command, disallow, word) in
        [(Command::Block, "1", "blocked"), (Command::Unblock, "0", "unblocked")]
    {
        let (lines, name, body, then) = asked(begin(command, "10.0.0.9"));
        assert!(lines.is_empty());
        assert_eq!(name, "DisallowWANAccessByIP");
        assert!(body.contains("<NewIPv4Address>10.0.0.9</NewIPv4Address>"));
        assert!(body.contains(&format!("<NewDisallow>{disallow}</NewDisallow>")));

        let (lines, name, body, then) = asked(next(then, "<s:Body></s:Body>"));
        assert_eq!(lines, [format!("10.0.0.9 {word}")]);
        assert_eq!(name, "GetWANAccessByIP");
        assert!(body.contains("<NewIPv4Address>10.0.0.9</NewIPv4Address>"));

        for (answer, state) in [("1", "blocked"), ("0", "allowed")] {
            let xml = format!("<NewDisallow>{answer}</NewDisallow>");
            let (lines, outcome) = ended(next(then, &xml));
            assert_eq!(lines, [format!("readback {state}")]);
            if answer == disallow {
                assert_eq!(outcome, Ok(()));
            } else {
                assert_eq!(
                    outcome.unwrap_err(),
                    "the box did not apply the change — check user permissions"
                );
            }
        }
        let (lines, outcome) = ended(next(then, "<x/>"));
        assert!(lines.is_empty());
        assert_eq!(outcome.unwrap_err(), "response missing <NewDisallow>");
    }
}

#[test]
fn a_fault_ends_a_change() {
    let (_, _, _, then) = asked(begin(Command::Block, "10.0.0.9"));
    let (lines, outcome) = ended(next(then, FAULT));
    assert!(lines.is_empty());
    assert_eq!(outcome.unwrap_err(), "SOAP fault 401: TR-064 user lacks permission");
}

#[test]
fn a_state_and_a_host_are_reported() {
    let (_, name, _, then) = asked(begin(Command::Status, "10.0.0.9"));
    assert_eq!(name, "GetWANAccessByIP");
    let (lines, outcome) = ended(next(then, "<NewDisallow>1</NewDisallow>"));
    assert_eq!((lines, outcome), (vec!["10.0.0.9 blocked".to_string()], Ok(())));

    let (_, name, body, then) = asked(begin(Command::Host, "AA:BB:CC:DD:EE:FF"));
    assert_eq!(name, "GetSpecificHostEntry");
    assert!(body.contains("<NewMACAddress>AA:BB:CC:DD:EE:FF</NewMACAddress>"));
    let xml = "<NewIPAddress>10.0.0.9</NewIPAddress><NewActive>1</NewActive>";
    let (lines, outcome) = ended(next(then, xml));
    assert_eq!(lines, ["ip       10.0.0.9", "online   yes", "hostname -"]);
    assert_eq!(outcome, Ok(()));
    let (_, outcome) = ended(next(then, FAULT));
    assert_eq!(outcome.unwrap_err(), "SOAP fault 401: TR-064 user lacks permission");

    let long = "1".repeat(700);
    let (_, outcome) = ended(begin(Command::Status, &long));
    assert_eq!(outcome.unwrap_err(), "buffer too small");
}
