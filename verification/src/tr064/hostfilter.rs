//! `urn:dslforum-org:service:X_AVM-DE_HostFilter:1`: the actual enforcement.
//!
//! `DisallowWANAccessByIP` is what cuts a device off the internet. It is addressed by IP, not
//! MAC, so a device needs a static DHCP lease or the rule silently stops matching. Resolve the
//! current IP via [`crate::tr064::hosts`] before calling this.
use crate::tr064::soap;
use crate::tr064::soap::Action;
use crate::tr064::Error;
use vstd::prelude::*;

verus! {

/// The action that blocks an IP, or lets it through again.
pub open spec fn disallow_action() -> Action {
    Action {
        service: "urn:dslforum-org:service:X_AVM-DE_HostFilter:1",
        control_url: "/upnp/control/x_hostfilter",
        name: "DisallowWANAccessByIP",
    }
}

/// The action that blocks an IP, or lets it through again.
#[allow(non_snake_case)]
#[verifier::when_used_as_spec(disallow_action)]
pub fn DISALLOW_WAN_ACCESS_BY_IP() -> (r: Action)
    ensures
        r == disallow_action(),
{
    Action {
        service: "urn:dslforum-org:service:X_AVM-DE_HostFilter:1",
        control_url: "/upnp/control/x_hostfilter",
        name: "DisallowWANAccessByIP",
    }
}

/// The action that asks whether an IP is blocked.
pub open spec fn access_action() -> Action {
    Action {
        service: "urn:dslforum-org:service:X_AVM-DE_HostFilter:1",
        control_url: "/upnp/control/x_hostfilter",
        name: "GetWANAccessByIP",
    }
}

/// The action that asks whether an IP is blocked.
#[allow(non_snake_case)]
#[verifier::when_used_as_spec(access_action)]
pub fn GET_WAN_ACCESS_BY_IP() -> (r: Action)
    ensures
        r == access_action(),
{
    Action {
        service: "urn:dslforum-org:service:X_AVM-DE_HostFilter:1",
        control_url: "/upnp/control/x_hostfilter",
        name: "GetWANAccessByIP",
    }
}

pub const REQUEST_CAPACITY: usize = 640;

/// The order to block an IP, or to let it through again.
pub open spec fn order_text(ip: &str, disallow: bool) -> Seq<char> {
    soap::envelope_text(
        disallow_action(),
        seq![("NewIPv4Address", ip), ("NewDisallow", if disallow { "1" } else { "0" })],
    )
}

/// The question whether an IP is blocked.
pub open spec fn question_text(ip: &str) -> Seq<char> {
    soap::envelope_text(access_action(), seq![("NewIPv4Address", ip)])
}

/// Block (`disallow = true`) or restore (`false`) internet access for one IP.
pub fn disallow_wan_access_by_ip(ip: &str, disallow: bool) -> (r: Result<
    heapless::String<REQUEST_CAPACITY>,
    Error,
>)
    ensures
        soap::fits(order_text(ip, disallow), r),
{
    let flag: &str = if disallow {
        "1"
    } else {
        "0"
    };
    let args: [(&str, &str); 2] = [("NewIPv4Address", ip), ("NewDisallow", flag)];
    assert(args@ =~= seq![
        ("NewIPv4Address", ip),
        ("NewDisallow", if disallow { "1" } else { "0" }),
    ]);
    soap::envelope(&DISALLOW_WAN_ACCESS_BY_IP(), args.as_slice())
}

/// Ask whether an IP is blocked.
pub fn get_wan_access_by_ip(ip: &str) -> (r: Result<heapless::String<REQUEST_CAPACITY>, Error>)
    ensures
        soap::fits(question_text(ip), r),
{
    let args: [(&str, &str); 1] = [("NewIPv4Address", ip)];
    assert(args@ =~= seq![("NewIPv4Address", ip)]);
    soap::envelope(&GET_WAN_ACCESS_BY_IP(), args.as_slice())
}

/// `DisallowWANAccessByIP` returns an empty body on success: the only thing to check is that
/// it is not a Fault.
pub fn parse_disallow_ack(xml: &str) -> (r: Result<(), Error>)
    ensures
        match soap::fault_of(xml@) {
            Some(code) => r == Err::<(), Error>(Error::SoapFault(code as u16)),
            None => r is Ok,
        },
{
    match soap::fault_code(xml) {
        Some(code) => Err(Error::SoapFault(code)),
        None => Ok(()),
    }
}

/// What a response says of the blocked state.
pub open spec fn wan_access(xml: Seq<char>) -> Result<bool, Error> {
    match soap::required(xml, "NewDisallow") {
        Err(e) => Err(e),
        Ok(t) => match soap::truth(t) {
            Some(b) => Ok(b),
            None => Err(Error::InvalidBool),
        },
    }
}

/// Read back whether an IP is currently blocked.
pub fn parse_wan_access(xml: &str) -> (r: Result<bool, Error>)
    ensures
        r == wan_access(xml@),
{
    match soap::require(xml, "NewDisallow") {
        Err(e) => Err(e),
        Ok(t) => soap::parse_bool(t),
    }
}

proof fn lemma_names_of_the_filter()
    ensures
        soap::names_an_element("NewIPv4Address"@),
        soap::names_an_element("NewDisallow"@),
        soap::names_an_element("DisallowWANAccessByIP"@),
        soap::names_an_element("GetWANAccessByIP"@),
        "NewIPv4Address"@ != "NewDisallow"@,
        "NewIPv4Address"@.len() == 14,
        "NewDisallow"@.len() == 11,
        "DisallowWANAccessByIP"@.len() == 21,
        "GetWANAccessByIP"@.len() == 16,
        "Envelope"@.len() == 8,
        "Body"@.len() == 4,
        !"urn:dslforum-org:service:X_AVM-DE_HostFilter:1"@.contains('>'),
{
    reveal_strlit("NewIPv4Address");
    reveal_strlit("NewDisallow");
    reveal_strlit("DisallowWANAccessByIP");
    reveal_strlit("GetWANAccessByIP");
    reveal_strlit("Envelope");
    reveal_strlit("Body");
    reveal_strlit("urn:dslforum-org:service:X_AVM-DE_HostFilter:1");
    assert("NewIPv4Address"@.len() != "NewDisallow"@.len());
}

/// An order names the device that it is about and says what is to become of it: its flag, read as
/// the box's own answers are, is whether the device is to be blocked.
pub proof fn an_order_says_what_it_orders(ip: &str, disallow: bool)
    ensures
        soap::element(order_text(ip, disallow), "NewIPv4Address"@) == Some(soap::escaped(ip@)),
        soap::element(order_text(ip, disallow), "NewDisallow"@) is Some,
        soap::truth(soap::element(order_text(ip, disallow), "NewDisallow"@)->0) == Some(disallow),
{
    lemma_names_of_the_filter();
    let flag: &str = if disallow {
        "1"
    } else {
        "0"
    };
    let args = seq![("NewIPv4Address", ip), ("NewDisallow", flag)];
    soap::an_envelope_carries_its_arguments(disallow_action(), args, 0);
    soap::an_envelope_carries_its_arguments(disallow_action(), args, 1);
    reveal_strlit("1");
    reveal_strlit("0");
    let c = if disallow {
        '1'
    } else {
        '0'
    };
    let plain = soap::escaped(flag@);
    assert(flag@ =~= seq![c]);
    assert(flag@.drop_last() =~= Seq::<char>::empty());
    assert(soap::escaped(flag@.drop_last()) =~= Seq::<char>::empty());
    assert(plain =~= seq![c]);
    crate::text::trimming_takes_the_space_off(plain, 0, 1, 0, 1);
    assert(crate::text::trim(plain) =~= flag@);
    soap::a_boolean_is_one_of_six_words(plain);
}

/// A question names the device that it is about.
pub proof fn a_question_names_the_device(ip: &str)
    ensures
        soap::element(question_text(ip), "NewIPv4Address"@) == Some(soap::escaped(ip@)),
{
    lemma_names_of_the_filter();
    soap::an_envelope_carries_its_arguments(
        access_action(),
        seq![("NewIPv4Address", ip)],
        0,
    );
}

/// A device counts as blocked exactly where the box says so and tells of no fault.
pub proof fn a_device_is_blocked_where_the_box_says_so(xml: Seq<char>)
    ensures
        wan_access(xml) == Ok::<bool, Error>(true) <==> soap::fault_of(xml) is None
            && soap::element(xml, "NewDisallow"@) is Some && soap::truth(
            soap::element(xml, "NewDisallow"@)->0,
        ) == Some(true),
        wan_access(xml) == Ok::<bool, Error>(false) <==> soap::fault_of(xml) is None
            && soap::element(xml, "NewDisallow"@) is Some && soap::truth(
            soap::element(xml, "NewDisallow"@)->0,
        ) == Some(false),
{
}

} // verus!
