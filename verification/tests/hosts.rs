//! Where the box says a device is.
use medienzeit::tr064::hosts::{get_specific_host_entry, parse_host_entry};
use medienzeit::tr064::Error;

const OK: &str = "<?xml version=\"1.0\"?>\n<s:Envelope xmlns:s=\"http://schemas.xmlsoap.org/soap/envelope/\" s:encodingStyle=\"http://schemas.xmlsoap.org/soap/encoding/\"><s:Body><u:GetSpecificHostEntryResponse xmlns:u=\"urn:dslforum-org:service:Hosts:1\"><NewIPAddress>192.168.178.42</NewIPAddress><NewAddressSource>DHCP</NewAddressSource><NewLeaseTimeRemaining>0</NewLeaseTimeRemaining><NewInterfaceType>802.11</NewInterfaceType><NewActive>1</NewActive><NewHostName>Pixel-8</NewHostName></u:GetSpecificHostEntryResponse></s:Body></s:Envelope>";
const UNKNOWN: &str = "<?xml version=\"1.0\"?>\n<s:Envelope xmlns:s=\"http://schemas.xmlsoap.org/soap/envelope/\" s:encodingStyle=\"http://schemas.xmlsoap.org/soap/encoding/\"><s:Body><s:Fault><faultcode>s:Client</faultcode><faultstring>UPnPError</faultstring><detail><UPnPError xmlns=\"urn:dslforum-org:control-1-0\"><errorCode>714</errorCode><errorDescription>NoSuchEntryInArray</errorDescription></UPnPError></detail></s:Fault></s:Body></s:Envelope>";

#[test]
fn builds_the_request() {
    let r = get_specific_host_entry("3C:22:FB:11:22:33").unwrap();
    assert!(r.contains("<NewMACAddress>3C:22:FB:11:22:33</NewMACAddress>"));
    assert!(r.contains("urn:dslforum-org:service:Hosts:1"));
}

#[test]
fn parses_an_active_host() {
    let h = parse_host_entry(OK).unwrap();
    assert_eq!(h.ip.as_str(), "192.168.178.42");
    assert!(h.active);
    assert_eq!(h.hostname.as_str(), "Pixel-8");
}

#[test]
fn a_host_can_be_kept() {
    let h = parse_host_entry(OK).unwrap();
    assert_eq!(h.clone(), h);
}

#[test]
fn an_unknown_mac_is_a_typed_fault_not_a_parse_error() {
    // 714 is UPnP's "no such entry in array". Distinguishing it from a transport
    // failure matters: it means the device has never been seen, not that the box
    // is unreachable.
    assert_eq!(parse_host_entry(UNKNOWN), Err(Error::SoapFault(714)));
}

#[test]
fn a_truncated_response_is_an_error_not_a_panic() {
    assert_eq!(parse_host_entry("<s:Envelope><s:Body>"), Err(Error::MissingField("NewIPAddress")));
    assert_eq!(parse_host_entry(""), Err(Error::MissingField("NewIPAddress")));
}

#[test]
fn a_missing_hostname_is_tolerated() {
    let xml = "<NewIPAddress>10.0.0.9</NewIPAddress><NewActive>0</NewActive>";
    let h = parse_host_entry(xml).unwrap();
    assert_eq!(h.hostname.as_str(), "");
    assert!(!h.active);
}
