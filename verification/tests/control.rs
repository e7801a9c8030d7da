//! Enforcement.
use medienzeit::control::{
    describe_change, describe_start, label, parse_ipv4, outage_line, report_outage, Control,
};
use medienzeit::fritzbox;
use medienzeit::tr064;
use medienzeit::tr064::hosts::{parse_host_entry, HostEntry};

fn entry(ip: &str, active: bool) -> HostEntry {
    let xml = format!(
        "<NewIPAddress>{ip}</NewIPAddress><NewActive>{}</NewActive>",
        if active { 1 } else { 0 }
    );
    parse_host_entry(&xml).unwrap()
}

#[test]
fn the_box_is_told_once() {
    let mut c = Control::new();
    assert!(!c.to_tell(0, true), "no address yet");
    assert_eq!(c.note_presence(0, "Handy", entry("1.2.3.4", true)), vec!["presence: Handy at home"]);
    assert!(c.to_tell(0, true));
    c.told(0, true);
    assert!(!c.to_tell(0, true));
    assert!(c.to_tell(0, false));
    assert!(c.note_presence(0, "Handy", entry("1.2.3.4", true)).is_empty());
    assert!(!c.to_tell(0, true));
    assert_eq!(c.applied, [Some(true), None]);
}

#[test]
fn a_moved_lease_forgets_what_was_applied() {
    let mut c = Control::new();
    c.note_presence(1, "Tablet", entry("1.2.3.4", true));
    c.told(1, true);
    assert_eq!(
        c.note_presence(1, "Tablet", entry("1.2.3.5", false)),
        vec!["presence: Tablet away", "presence: Tablet ip changed to 1.2.3.5"]
    );
    assert!(c.to_tell(1, true));
    assert_eq!(c.present, [false, false]);
    assert_eq!(c.ips[1].as_deref(), Some("1.2.3.5"));
}

#[test]
fn changes_are_logged() {
    assert_eq!(label(true), "blocked");
    assert_eq!(label(false), "allowed");
    assert_eq!(describe_change("Handy", true), "enforce: Handy -> blocked");
    assert_eq!(describe_start("Handy", false), "enforce: Handy starts allowed");
}

#[test]
fn addresses_are_dotted_quads() {
    assert_eq!(parse_ipv4("192.168.178.20"), Some([192, 168, 178, 20]));
    assert_eq!(parse_ipv4("1.2.3.4.5"), Some([1, 2, 3, 4]));
    for bad in ["", "1.2.3", "1.2.3.256", "ntfy.sh", "1..2.3"] {
        assert_eq!(parse_ipv4(bad), None, "{bad:?}");
    }
}

#[test]
fn an_outage_is_told_in_the_right_unit() {
    assert_eq!(report_outage(0, 299), None);
    assert_eq!(report_outage(0, 300).as_deref(), Some("Gerät war 5 min aus"));
    assert_eq!(report_outage(100, 100 + 7_259).as_deref(), Some("Gerät war 120 min aus"));
    assert_eq!(report_outage(500, 100), None);
    assert_eq!(outage_line(0, 299), None);
    assert_eq!(outage_line(0, 359).as_deref(), Some("  [alert] unit was off for 5 min"));
}

#[test]
fn what_failed_is_not_recorded() {
    let mut c = Control::new();
    let fault = fritzbox::Error::Codec(tr064::Error::SoapFault(714));
    assert_eq!(
        c.looked_up(0, "Handy", Err(fault)),
        vec!["presence: Handy lookup failed (Codec(SoapFault(714)))"]
    );
    assert_eq!(c.ips[0], None);
    c.looked_up(0, "Handy", Ok(entry("1.2.3.4", true)));
    assert_eq!(
        c.found(0, "Handy", Err(fritzbox::Error::Unauthorized)),
        "enforce: Handy readback failed (Unauthorized)"
    );
    assert_eq!(c.applied[0], None);
    assert_eq!(c.found(0, "Handy", Ok(false)), "enforce: Handy starts allowed");
    assert!(c.to_tell(0, true));
    assert_eq!(
        c.changed(0, "Handy", true, Err(fritzbox::Error::Io)),
        "enforce: Handy FAILED (Io)"
    );
    assert!(c.to_tell(0, true), "the next pass tries again");
    assert_eq!(c.changed(0, "Handy", true, Ok(())), "enforce: Handy -> blocked");
    assert!(!c.to_tell(0, true));
}

#[test]
fn errors_have_their_names() {
    for e in [
        fritzbox::Error::Connect,
        fritzbox::Error::Http,
        fritzbox::Error::Codec(tr064::Error::BufferFull),
        fritzbox::Error::Codec(tr064::Error::MissingField("NewActive")),
        fritzbox::Error::Codec(tr064::Error::BadChallenge),
        fritzbox::Error::Codec(tr064::Error::InvalidBool),
    ] {
        assert_eq!(e.name(), format!("{e:?}"));
    }
}
