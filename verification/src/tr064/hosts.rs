//! `urn:dslforum-org:service:Hosts:1`
//!
//! Maps a MAC to the device's current IP, and reports whether the device is currently
//! associated with the WLAN.
use crate::fixed;
use crate::tr064::soap;
use crate::tr064::soap::Action;
use crate::tr064::Error;
use vstd::prelude::*;

verus! {

/// The action that looks a device up by its MAC.
pub open spec fn host_entry_action() -> Action {
    Action {
        service: "urn:dslforum-org:service:Hosts:1",
        control_url: "/upnp/control/hosts",
        name: "GetSpecificHostEntry",
    }
}

/// The action that looks a device up by its MAC.
#[allow(non_snake_case)]
#[verifier::when_used_as_spec(host_entry_action)]
pub fn GET_SPECIFIC_HOST_ENTRY() -> (r: Action)
    ensures
        r == host_entry_action(),
{
    Action {
        service: "urn:dslforum-org:service:Hosts:1",
        control_url: "/upnp/control/hosts",
        name: "GetSpecificHostEntry",
    }
}

/// Longest envelope this module produces, with headroom.
pub const REQUEST_CAPACITY: usize = 640;

/// What the box knows of a device.
#[derive(Debug, PartialEq, Eq)]
pub struct HostEntry {
    pub ip: heapless::String<46>,
    /// Whether the FRITZ!Box currently sees the device on the network.
    pub active: bool,
    pub hostname: heapless::String<64>,
}

impl Clone for HostEntry {
    fn clone(&self) -> (r: Self)
        ensures
            fixed::same_text(r.ip, self.ip),
            r.active == self.active,
            fixed::same_text(r.hostname, self.hostname),
    {
        HostEntry {
            ip: fixed::copy(&self.ip),
            active: self.active,
            hostname: fixed::copy(&self.hostname),
        }
    }
}

/// The question where a MAC is.
pub open spec fn lookup_text(mac: &str) -> Seq<char> {
    soap::envelope_text(host_entry_action(), seq![("NewMACAddress", mac)])
}

/// Ask for the entry of a MAC.
pub fn get_specific_host_entry(mac: &str) -> (r: Result<
    heapless::String<REQUEST_CAPACITY>,
    Error,
>)
    ensures
        soap::fits(lookup_text(mac), r),
{
    let args: [(&str, &str); 1] = [("NewMACAddress", mac)];
    assert(args@ =~= seq![("NewMACAddress", mac)]);
    soap::envelope(&GET_SPECIFIC_HOST_ENTRY(), args.as_slice())
}

/// Whether `r` is what a response says of a host. The hostname is informational: one that is
/// missing, or too long to keep, is left empty.
pub open spec fn is_host_entry(xml: Seq<char>, r: Result<HostEntry, Error>) -> bool {
    match soap::required(xml, "NewIPAddress") {
        Err(e) => r == Err::<HostEntry, Error>(e),
        Ok(ip) => match soap::required(xml, "NewActive") {
            Err(e) => r == Err::<HostEntry, Error>(e),
            Ok(active) => match soap::truth(active) {
                None => r == Err::<HostEntry, Error>(Error::InvalidBool),
                Some(active) => if fixed::byte_len(ip) > 46 {
                    r == Err::<HostEntry, Error>(Error::BufferFull)
                } else {
                    let name = match soap::element(xml, "NewHostName"@) {
                        Some(t) => t,
                        None => ""@,
                    };
                    &&& r is Ok
                    &&& fixed::holds(r->Ok_0.ip, ip)
                    &&& r->Ok_0.active == active
                    &&& fixed::holds(
                        r->Ok_0.hostname,
                        if fixed::byte_len(name) <= 64 {
                            name
                        } else {
                            Seq::empty()
                        },
                    )
                },
            },
        },
    }
}

/// Read the entry of a MAC.
pub fn parse_host_entry(xml: &str) -> (r: Result<HostEntry, Error>)
    ensures
        is_host_entry(xml@, r),
{
    let ip: &str = match soap::require(xml, "NewIPAddress") {
        Ok(t) => t,
        Err(e) => {
            return Err(e);
        },
    };
    let active: &str = match soap::require(xml, "NewActive") {
        Ok(t) => t,
        Err(e) => {
            return Err(e);
        },
    };
    let active: bool = match soap::parse_bool(active) {
        Ok(b) => b,
        Err(e) => {
            return Err(e);
        },
    };
    let name: &str = match soap::extract(xml, "NewHostName") {
        Some(t) => t,
        None => "",
    };
    let ip: heapless::String<46> = match soap::fit(ip) {
        Ok(t) => t,
        Err(e) => {
            return Err(e);
        },
    };
    let hostname: heapless::String<64> = match fixed::fit(name) {
        Some(t) => t,
        None => fixed::empty(),
    };
    Ok(HostEntry { ip, active, hostname })
}

/// A lookup names the MAC that it is about.
pub proof fn a_lookup_names_the_device(mac: &str)
    ensures
        soap::element(lookup_text(mac), "NewMACAddress"@) == Some(soap::escaped(mac@)),
{
    reveal_strlit("NewMACAddress");
    reveal_strlit("GetSpecificHostEntry");
    reveal_strlit("Envelope");
    reveal_strlit("Body");
    reveal_strlit("urn:dslforum-org:service:Hosts:1");
    soap::an_envelope_carries_its_arguments(
        host_entry_action(),
        seq![("NewMACAddress", mac)],
        0,
    );
}

/// What is known of a host is what the box says: its address, and that it is at home where the box
/// sees it.
pub proof fn a_host_is_what_the_box_says(xml: Seq<char>, h: HostEntry)
    requires
        is_host_entry(xml, Ok(h)),
    ensures
        soap::fault_of(xml) is None,
        soap::element(xml, "NewIPAddress"@) is Some,
        fixed::holds(h.ip, soap::element(xml, "NewIPAddress"@)->0),
        soap::element(xml, "NewActive"@) is Some,
        soap::truth(soap::element(xml, "NewActive"@)->0) == Some(h.active),
        soap::element(xml, "NewHostName"@) is Some && fixed::byte_len(
            soap::element(xml, "NewHostName"@)->0,
        ) <= 64 ==> fixed::holds(h.hostname, soap::element(xml, "NewHostName"@)->0),
{
    reveal_strlit("");
}

} // verus!
