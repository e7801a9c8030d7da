//! The conversation with the FRITZ!Box: POST, answer the digest challenge, POST again.
//!
//! The box is addressed by its IP, the gateway, which keeps DNS out of the picture.
use crate::fixed;
use crate::http;
use crate::text;
use crate::tr064;
use crate::tr064::digest;
use crate::tr064::digest::Challenge;
use crate::tr064::hostfilter;
use crate::tr064::hosts;
use crate::tr064::hosts::HostEntry;
use crate::tr064::soap;
use vstd::prelude::*;

verus! {

/// Enough for the largest TR-064 response we ask for, with room to spare.
pub const RESPONSE_CAPACITY: usize = 2048;

#[derive(Debug, Clone, Copy, PartialEq, Eq)]
pub enum Error {
    Connect,
    Io,
    /// The box answered, but not with something we could parse as HTTP.
    Http,
    /// 401 twice: the credentials or the user's permissions are wrong. Retrying will not help.
    Unauthorized,
    Codec(tr064::Error),
}

impl Error {
    /// The name of an error, for a log.
    pub open spec fn word(self) -> Seq<char> {
        match self {
            Error::Connect => "Connect"@,
            Error::Io => "Io"@,
            Error::Http => "Http"@,
            Error::Unauthorized => "Unauthorized"@,
            Error::Codec(e) => "Codec("@ + e.word() + ")"@,
        }
    }

    /// The name of an error, for a log.
    pub fn name(&self) -> (r: String)
        ensures
            r@ == self.word(),
    {
        match self {
            Error::Connect => "Connect".to_owned(),
            Error::Io => "Io".to_owned(),
            Error::Http => "Http".to_owned(),
            Error::Unauthorized => "Unauthorized".to_owned(),
            Error::Codec(e) => {
                let mut out: String = "Codec(".to_owned();
                out.append(e.name().as_str());
                out.append(")");
                out
            },
        }
    }
}

/// The bookkeeping of the conversation.
pub struct Client {
    /// Digest nonce-count. Must increase for every request reusing a nonce.
    pub nc: u32,
}

/// A request head of at most 768 bytes, or an I/O error where it does not fit.
pub fn request_head(path: &str, host: &str, soap_action: &str, body: &str, auth: Option<&str>) -> (r:
    Result<heapless::String<768>, Error>)
    ensures
        ({
            let head = http::soap_request_head(
                path@,
                host@,
                soap_action@,
                fixed::byte_len(body@),
                match auth {
                    Some(a) => Some(a@),
                    None => None,
                },
            );
            if fixed::byte_len(head) <= 768 {
                r is Ok && fixed::holds(r->Ok_0, head)
            } else {
                r == Err::<heapless::String<768>, Error>(Error::Io)
            }
        }),
{
    let head = http::soap_head(path, host, soap_action, body, auth);
    match fixed::fit(head.as_str()) {
        Some(s) => Ok(s),
        None => Err(Error::Io),
    }
}

/// Whether the body of a response with that status is worth reading: it worked, or a fault is told
/// of.
pub open spec fn tells_something(status: u16) -> bool {
    status == 200 || status == 500
}

/// What to do with a response. A SOAP Fault arrives as HTTP 500 with a parseable body, so 500
/// is handed onward and the codec turns it into a typed error.
pub fn finish<'a>(status: u16, body: &'a str) -> (r: Result<&'a str, Error>)
    ensures
        tells_something(status) ==> r is Ok && r->Ok_0@ == body@,
        !tells_something(status) ==> r == Err::<&'a str, Error>(Error::Http),
{
    if status != 200 && status != 500 {
        return Err(Error::Http);
    }
    Ok(body)
}

/// What to do with the second response.
pub fn finish_authenticated<'a>(status: u16, body: &'a str) -> (r: Result<&'a str, Error>)
    ensures
        status == 401 ==> r == Err::<&'a str, Error>(Error::Unauthorized),
        status != 401 && tells_something(status) ==> r is Ok && r->Ok_0@ == body@,
        status != 401 && !tells_something(status) ==> r == Err::<&'a str, Error>(Error::Http),
{
    if status == 401 {
        return Err(Error::Unauthorized);
    }
    finish(status, body)
}

/// A client nonce of eight hexadecimal digits.
pub fn client_nonce(micros: u32) -> (r: String)
    ensures
        r@ == text::hex_word(micros),
{
    let mut out = String::new();
    text::push_hex_word(&mut out, micros);
    assert(out@ =~= text::hex_word(micros));
    out
}

impl Client {
    pub fn new() -> (r: Self)
        ensures
            r.nc == 0,
    {
        Client { nc: 0 }
    }

    /// Whether `r` is the right answer to the head of a 401 response, given the nonce-count before
    /// and after. The count goes up with every challenge that is answered.
    pub open spec fn answers(
        head: Seq<char>,
        user: Seq<char>,
        pass: Seq<char>,
        uri: Seq<char>,
        before: u32,
        after: u32,
        cnonce: Seq<char>,
        r: Result<heapless::String<512>, Error>,
    ) -> bool {
        let nc = ((before + 1) % 0x1_0000_0000) as u32;
        match http::header_in(head, "www-authenticate"@) {
            None => after == before && r == Err::<heapless::String<512>, Error>(Error::Http),
            Some(v) => exists|parsed: Result<Challenge, tr064::Error>|
                #[trigger] Challenge::is_parsed(v, parsed) && match parsed {
                    Err(e) => after == before && r == Err::<heapless::String<512>, Error>(
                        Error::Codec(e),
                    ),
                    Ok(c) => after == nc && exists|t: digest::Terms|
                        t.of(c) && t.qop_auth == c.qop_auth && {
                            let auth = #[trigger] t.authorization(
                                user,
                                pass,
                                "POST"@,
                                uri,
                                nc,
                                cnonce,
                            );
                            if t.size(user, uri, cnonce) <= 512 {
                                r is Ok && fixed::holds(r->Ok_0, auth)
                            } else {
                                r == Err::<heapless::String<512>, Error>(
                                    Error::Codec(tr064::Error::BufferFull),
                                )
                            }
                        },
                },
        }
    }

    /// Answer the challenge in the head of a 401 response: the `Authorization` header to send
    /// the request again with.
    pub fn answer(&mut self, head: &str, user: &str, pass: &str, uri: &str, cnonce: &str) -> (r:
        Result<heapless::String<512>, Error>)
        ensures
            Self::answers(
                head@,
                user@,
                pass@,
                uri@,
                old(self).nc,
                final(self).nc,
                cnonce@,
                r,
            ),
    {
        let ghost before = self.nc;
        let line: &str = match http::header(head, "www-authenticate") {
            Some(l) => l,
            None => {
                let r = Err(Error::Http);
                assert(Self::answers(head@, user@, pass@, uri@, before, self.nc, cnonce@, r));
                return r;
            },
        };
        let parsed = Challenge::parse(line);
        assert(Challenge::is_parsed(line@, parsed));
        match parsed {
            Err(e) => {
                let r = Err(Error::Codec(e));
                assert(Self::answers(head@, user@, pass@, uri@, before, self.nc, cnonce@, r));
                r
            },
            Ok(challenge) => {
                self.nc = self.nc.wrapping_add(1);
                let auth: Result<heapless::String<512>, tr064::Error> = challenge.authorization(
                    user,
                    pass,
                    "POST",
                    uri,
                    self.nc,
                    cnonce,
                );
                let r = match auth {
                    Ok(a) => Ok(a),
                    Err(e) => Err(Error::Codec(e)),
                };
                assert(Challenge::is_parsed(line@, Ok(challenge)));
                assert(Self::answers(head@, user@, pass@, uri@, before, self.nc, cnonce@, r));
                r
            },
        }
    }
}

/// What to do after the first response.
pub enum Next<'a> {
    /// Nothing more: this is the body to parse.
    Done(&'a str),
    /// Send the request again, with this `Authorization` header.
    Authorize(heapless::String<512>),
}

impl Client {
    /// What to do after the first response: a challenge is answered, anything else is final.
    pub fn after_first<'a>(
        &mut self,
        status: u16,
        head: &str,
        body: &'a str,
        user: &str,
        pass: &str,
        uri: &str,
        cnonce: &str,
    ) -> (r: Result<Next<'a>, Error>)
        ensures
            status != 401 ==> final(self).nc == old(self).nc,
            status == 200 || status == 500 ==> r is Ok && r->Ok_0 is Done && r->Ok_0->Done_0@
                == body@,
            status != 200 && status != 500 && status != 401 ==> r == Err::<Next<'a>, Error>(
                Error::Http,
            ),
            status == 401 ==> exists|answer: Result<heapless::String<512>, Error>|
                #[trigger] Self::answers(
                    head@,
                    user@,
                    pass@,
                    uri@,
                    old(self).nc,
                    final(self).nc,
                    cnonce@,
                    answer,
                ) && match answer {
                    Ok(auth) => r == Ok::<Next<'a>, Error>(Next::Authorize(auth)),
                    Err(e) => r == Err::<Next<'a>, Error>(e),
                },
    {
        if status != 401 {
            return match finish(status, body) {
                Ok(b) => Ok(Next::Done(b)),
                Err(e) => Err(e),
            };
        }
        let answer = self.answer(head, user, pass, uri, cnonce);
        assert(Self::answers(
            head@,
            user@,
            pass@,
            uri@,
            old(self).nc,
            self.nc,
            cnonce@,
            answer,
        ));
        match answer {
            Ok(auth) => Ok(Next::Authorize(auth)),
            Err(e) => Err(e),
        }
    }

    /// What to ask the box about a MAC.
    pub fn ask_host_entry(mac: &str) -> (r: Result<heapless::String<640>, Error>)
        ensures
            asked(hosts::lookup_text(mac), r),
    {
        match hosts::get_specific_host_entry(mac) {
            Ok(body) => Ok(body),
            Err(e) => Err(Error::Codec(e)),
        }
    }

    /// The current IP of a MAC and whether the box can see it, from what the box answered.
    pub fn host_entry(xml: &str) -> (r: Result<HostEntry, Error>)
        ensures
            exists|parsed: Result<HostEntry, tr064::Error>|
                #[trigger] hosts::is_host_entry(xml@, parsed) && match parsed {
                    Ok(h) => r == Ok::<HostEntry, Error>(h),
                    Err(e) => r == Err::<HostEntry, Error>(Error::Codec(e)),
                },
    {
        let parsed = hosts::parse_host_entry(xml);
        assert(hosts::is_host_entry(xml@, parsed));
        match parsed {
            Ok(h) => Ok(h),
            Err(e) => Err(Error::Codec(e)),
        }
    }

    /// What to tell the box to cut or restore internet access for one IP.
    pub fn ask_set_blocked(ip: &str, blocked: bool) -> (r: Result<heapless::String<640>, Error>)
        ensures
            asked(hostfilter::order_text(ip, blocked), r),
    {
        match hostfilter::disallow_wan_access_by_ip(ip, blocked) {
            Ok(body) => Ok(body),
            Err(e) => Err(Error::Codec(e)),
        }
    }

    /// Whether the box took the change, from what it answered.
    pub fn set_blocked(xml: &str) -> (r: Result<(), Error>)
        ensures
            match soap::fault_of(xml@) {
                Some(code) => r == Err::<(), Error>(
                    Error::Codec(tr064::Error::SoapFault(code as u16)),
                ),
                None => r is Ok,
            },
    {
        match hostfilter::parse_disallow_ack(xml) {
            Ok(_) => Ok(()),
            Err(e) => Err(Error::Codec(e)),
        }
    }

    /// What to ask the box about an IP.
    pub fn ask_is_blocked(ip: &str) -> (r: Result<heapless::String<640>, Error>)
        ensures
            asked(hostfilter::question_text(ip), r),
    {
        match hostfilter::get_wan_access_by_ip(ip) {
            Ok(body) => Ok(body),
            Err(e) => Err(Error::Codec(e)),
        }
    }

    /// Whether an IP is blocked, from what the box answered.
    pub fn is_blocked(xml: &str) -> (r: Result<bool, Error>)
        ensures
            r == match hostfilter::wan_access(xml@) {
                Ok(b) => Ok(b),
                Err(e) => Err(Error::Codec(e)),
            },
    {
        match hostfilter::parse_wan_access(xml) {
            Ok(b) => Ok(b),
            Err(e) => Err(Error::Codec(e)),
        }
    }
}

/// Whether `r` is a request body of at most 640 bytes, or says that it did not fit.
pub open spec fn asked(body: Seq<char>, r: Result<heapless::String<640>, Error>) -> bool {
    if fixed::byte_len(body) <= 640 {
        r is Ok && fixed::holds(r->Ok_0, body)
    } else {
        r == Err::<heapless::String<640>, Error>(Error::Codec(tr064::Error::BufferFull))
    }
}

/// Every challenge that is answered is answered under a higher count than the last, as the box asks
/// of one that uses a nonce again; one that is not answered does not use up a count.
pub proof fn the_count_goes_up_with_every_answer(
    head: Seq<char>,
    user: Seq<char>,
    pass: Seq<char>,
    uri: Seq<char>,
    before: u32,
    after: u32,
    cnonce: Seq<char>,
    r: Result<heapless::String<512>, Error>,
)
    requires
        Client::answers(head, user, pass, uri, before, after, cnonce, r),
        before < u32::MAX,
    ensures
        r is Ok ==> after == before + 1,
        after == before || after == before + 1,
        r is Ok ==> exists|t: digest::Terms|
            fixed::holds(
                r->Ok_0,
                #[trigger] t.authorization(user, pass, "POST"@, uri, (before + 1) as u32, cnonce),
            ),
        http::header_in(head, "www-authenticate"@) is None ==> r is Err,
{
}

/// Only two kinds of response are read on: one that worked and one that tells of a fault.
pub proof fn only_success_and_faults_are_read(status: u16)
    ensures
        tells_something(200),
        tells_something(500),
        tells_something(status) ==> status % 300 == 200,
        tells_something(status) ==> status <= 500,
{
}

} // verus!
