//! TR-064 codec for the FRITZ!Box: request building, digest auth, response parsing.
//!
//! Deliberately does no I/O. It turns arguments into bytes to send and bytes received into
//! typed values, and nothing else.
//!
//! 1. POST the envelope from e.g. [`hosts::get_specific_host_entry`] to the action's
//!    `control_url`, with `SOAPAction` set from [`soap::Action::soap_action`].
//! 2. The box answers `401` with a `WWW-Authenticate` header. Feed it to
//!    [`digest::Challenge::parse`].
//! 3. Re-POST with the `Authorization` header from [`digest::Challenge::authorization`].
//! 4. Parse the body with the matching `parse_*` function.
use crate::text;
use vstd::prelude::*;

pub mod digest;
pub mod hostfilter;
pub mod hosts;
pub mod soap;

verus! {

/// TR-064's plain-HTTP port.
pub const DEFAULT_PORT: u16 = 49000;

#[derive(Debug, Clone, Copy, PartialEq, Eq)]
pub enum Error {
    /// A fixed-capacity buffer was too small. Never a truncated result.
    BufferFull,
    /// The response parsed, but a field we require was absent.
    MissingField(&'static str),
    /// The box returned a SOAP Fault carrying this UPnP `errorCode`.
    ///
    /// Worth distinguishing: `401` is a permissions problem with the TR-064 user, `714` means
    /// the MAC has never been seen; retrying will not help with either.
    SoapFault(u16),
    /// A `WWW-Authenticate` header we could not make sense of.
    BadChallenge,
    /// A boolean field held something other than 0/1/true/false.
    InvalidBool,
}

impl Error {
    /// What to tell a human.
    pub open spec fn wording(self) -> Seq<char> {
        match self {
            Error::BufferFull => "buffer too small"@,
            Error::MissingField(t) => "response missing <"@ + t@ + ">"@,
            Error::SoapFault(c) => if c == 401 {
                "SOAP fault 401: TR-064 user lacks permission"@
            } else if c == 714 {
                "SOAP fault 714: no such device known to the box"@
            } else {
                "SOAP fault "@ + text::decimal(c as nat)
            },
            Error::BadChallenge => "unparseable WWW-Authenticate challenge"@,
            Error::InvalidBool => "expected 0/1 boolean"@,
        }
    }

    /// The name of an error, for a log.
    pub open spec fn word(self) -> Seq<char> {
        match self {
            Error::BufferFull => "BufferFull"@,
            Error::MissingField(t) => "MissingField(\""@ + t@ + "\")"@,
            Error::SoapFault(c) => "SoapFault("@ + text::decimal(c as nat) + ")"@,
            Error::BadChallenge => "BadChallenge"@,
            Error::InvalidBool => "InvalidBool"@,
        }
    }

    /// The name of an error, for a log.
    pub fn name(&self) -> (r: String)
        ensures
            r@ == self.word(),
    {
        match self {
            Error::BufferFull => "BufferFull".to_owned(),
            Error::MissingField(t) => {
                let mut out: String = "MissingField(\"".to_owned();
                out.append(t);
                out.append("\")");
                out
            },
            Error::SoapFault(c) => {
                let mut out: String = "SoapFault(".to_owned();
                text::push_decimal(&mut out, *c as u64);
                out.append(")");
                out
            },
            Error::BadChallenge => "BadChallenge".to_owned(),
            Error::InvalidBool => "InvalidBool".to_owned(),
        }
    }

    /// What to tell a human.
    pub fn message(&self) -> (r: String)
        ensures
            r@ == self.wording(),
    {
        let mut out = String::new();
        match self {
            Error::BufferFull => out.append("buffer too small"),
            Error::MissingField(t) => {
                out.append("response missing <");
                out.append(t);
                out.append(">");
            },
            Error::SoapFault(c) => {
                if *c == 401 {
                    out.append("SOAP fault 401: TR-064 user lacks permission");
                } else if *c == 714 {
                    out.append("SOAP fault 714: no such device known to the box");
                } else {
                    out.append("SOAP fault ");
                    text::push_decimal(&mut out, *c as u64);
                }
            },
            Error::BadChallenge => out.append("unparseable WWW-Authenticate challenge"),
            Error::InvalidBool => out.append("expected 0/1 boolean"),
        }
        assert(out@ =~= self.wording());
        out
    }
}

} // verus!
