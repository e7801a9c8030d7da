//! SOAP requests and responses.
use heapless::String;
use medienzeit::tr064::soap::{envelope, extract, parse_bool, Action};
use medienzeit::tr064::Error;

const A: Action = Action {
    service: "urn:dslforum-org:service:Hosts:1",
    control_url: "/upnp/control/hosts",
    name: "GetSpecificHostEntry",
};

#[test]
fn soap_action_header() {
    let h: String<128> = A.soap_action().unwrap();
    assert_eq!(h.as_str(), "urn:dslforum-org:service:Hosts:1#GetSpecificHostEntry");
}

#[test]
fn envelope_contains_action_and_args() {
    let e: String<1024> = envelope(&A, &[("NewMACAddress", "AA:BB:CC:DD:EE:FF")]).unwrap();
    assert!(e.contains("<u:GetSpecificHostEntry xmlns:u=\"urn:dslforum-org:service:Hosts:1\">"));
    assert!(e.contains("<NewMACAddress>AA:BB:CC:DD:EE:FF</NewMACAddress>"));
    assert!(e.ends_with("</s:Body></s:Envelope>"));
}

#[test]
fn envelope_escapes_arguments() {
    let e: String<1024> = envelope(&A, &[("X", "a&b<c>\"d'")]).unwrap();
    assert!(e.contains("<X>a&amp;b&lt;c&gt;&quot;d&apos;</X>"));
}

#[test]
fn envelope_reports_overflow_instead_of_truncating() {
    // A silently truncated envelope would be a very confusing bug on the wire.
    let r: Result<String<64>, _> = envelope(&A, &[("NewMACAddress", "AA:BB:CC:DD:EE:FF")]);
    assert_eq!(r.unwrap_err(), Error::BufferFull);
}

#[test]
fn extract_ignores_namespace_prefixes_and_attributes() {
    assert_eq!(extract("<a><NewIPAddress>192.168.1.5</NewIPAddress></a>", "NewIPAddress"),
               Some("192.168.1.5"));
    assert_eq!(extract("<u:NewIPAddress>10.0.0.1</u:NewIPAddress>", "NewIPAddress"),
               Some("10.0.0.1"));
    assert_eq!(extract(r#"<NewIPAddress xsi:type="string">1.2.3.4</NewIPAddress>"#, "NewIPAddress"),
               Some("1.2.3.4"));
}

#[test]
fn extract_skips_the_xml_declaration_and_close_tags() {
    let xml = r#"<?xml version="1.0"?><s:Body><NewActive>1</NewActive></s:Body>"#;
    assert_eq!(extract(xml, "NewActive"), Some("1"));
}

#[test]
fn extract_returns_none_rather_than_panicking_on_junk() {
    for junk in ["", "<", "<<<", "<unclosed", "no tags at all", "<a></a>"] {
        assert_eq!(extract(junk, "NewIPAddress"), None, "junk: {junk:?}");
    }
}

#[test]
fn parse_bool_accepts_both_spellings() {
    assert_eq!(parse_bool("1"), Ok(true));
    assert_eq!(parse_bool("0"), Ok(false));
    assert_eq!(parse_bool("true"), Ok(true));
    assert_eq!(parse_bool(" 0 "), Ok(false));
    assert_eq!(parse_bool("maybe"), Err(Error::InvalidBool));
}
