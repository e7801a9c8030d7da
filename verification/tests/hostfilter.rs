//! Cutting devices off, and reading the state back.
use medienzeit::tr064::hostfilter::{
    disallow_wan_access_by_ip, parse_disallow_ack, parse_wan_access, DISALLOW_WAN_ACCESS_BY_IP,
    GET_WAN_ACCESS_BY_IP,
};
use medienzeit::tr064::Error;

const ACK: &str = "<?xml version=\"1.0\"?>\n<s:Envelope xmlns:s=\"http://schemas.xmlsoap.org/soap/envelope/\" s:encodingStyle=\"http://schemas.xmlsoap.org/soap/encoding/\"><s:Body><u:DisallowWANAccessByIPResponse xmlns:u=\"urn:dslforum-org:service:X_AVM-DE_HostFilter:1\"></u:DisallowWANAccessByIPResponse></s:Body></s:Envelope>";
const STATUS: &str = "<?xml version=\"1.0\"?>\n<s:Envelope xmlns:s=\"http://schemas.xmlsoap.org/soap/envelope/\" s:encodingStyle=\"http://schemas.xmlsoap.org/soap/encoding/\"><s:Body><u:GetWANAccessByIPResponse xmlns:u=\"urn:dslforum-org:service:X_AVM-DE_HostFilter:1\"><NewDisallow>1</NewDisallow><NewWANAccess>denied</NewWANAccess></u:GetWANAccessByIPResponse></s:Body></s:Envelope>";
const DENIED: &str = "<?xml version=\"1.0\"?>\n<s:Envelope xmlns:s=\"http://schemas.xmlsoap.org/soap/envelope/\" s:encodingStyle=\"http://schemas.xmlsoap.org/soap/encoding/\"><s:Body><s:Fault><faultcode>s:Client</faultcode><faultstring>UPnPError</faultstring><detail><UPnPError xmlns=\"urn:dslforum-org:control-1-0\"><errorCode>401</errorCode><errorDescription>Invalid Action</errorDescription></UPnPError></detail></s:Fault></s:Body></s:Envelope>";

#[test]
fn block_and_unblock_differ_only_in_the_flag() {
    let block = disallow_wan_access_by_ip("192.168.178.42", true).unwrap();
    let allow = disallow_wan_access_by_ip("192.168.178.42", false).unwrap();
    assert!(block.contains("<NewDisallow>1</NewDisallow>"));
    assert!(allow.contains("<NewDisallow>0</NewDisallow>"));
    assert!(block.contains("<NewIPv4Address>192.168.178.42</NewIPv4Address>"));
    assert!(block.contains("X_AVM-DE_HostFilter:1"));
}

#[test]
fn control_url_is_the_hostfilter_endpoint() {
    // Posting HostFilter actions to /upnp/control/hosts silently 401s or 500s,
    // which is a miserable thing to debug. Pin it.
    assert_eq!(DISALLOW_WAN_ACCESS_BY_IP().control_url, "/upnp/control/x_hostfilter");
    assert_eq!(GET_WAN_ACCESS_BY_IP().control_url, "/upnp/control/x_hostfilter");
}

#[test]
fn an_empty_ack_is_success() {
    assert_eq!(parse_disallow_ack(ACK), Ok(()));
}

#[test]
fn unauthorized_surfaces_as_a_fault() {
    // 401 here means the TR-064 user lacks box-settings permission — a
    // configuration mistake, and worth an alert rather than a silent retry.
    assert_eq!(parse_disallow_ack(DENIED), Err(Error::SoapFault(401)));
}

#[test]
fn reads_back_the_blocked_state() {
    assert_eq!(parse_wan_access(STATUS), Ok(true));
}
