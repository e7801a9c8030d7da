//! HTTP Digest authentication (RFC 2617, MD5 + qop=auth).
//!
//! The FRITZ!Box answers the first unauthenticated POST with a 401 and a
//! `WWW-Authenticate: Digest …` challenge, and accepts the retry. `cnonce` is passed in rather
//! than generated here, so everything is determined by its arguments.
use crate::fixed;
use crate::text;
use crate::tr064::soap;
use crate::tr064::Error;
use md5::Digest;
use vstd::prelude::*;

verus! {

pub const MAX_FIELD: usize = 96;

/// A challenge of the box.
#[derive(Debug, PartialEq, Eq)]
pub struct Challenge {
    pub realm: heapless::String<MAX_FIELD>,
    pub nonce: heapless::String<MAX_FIELD>,
    /// True when the server offered `qop="auth"`, which changes the response formula.
    pub qop_auth: bool,
    pub opaque: Option<heapless::String<MAX_FIELD>>,
}

impl Clone for Challenge {
    fn clone(&self) -> (r: Self)
        ensures
            fixed::same_text(r.realm, self.realm),
            fixed::same_text(r.nonce, self.nonce),
            r.qop_auth == self.qop_auth,
            r.opaque is Some == self.opaque is Some,
            r.opaque is Some ==> fixed::same_text(r.opaque->0, self.opaque->0),
    {
        Challenge {
            realm: fixed::copy(&self.realm),
            nonce: fixed::copy(&self.nonce),
            qop_auth: self.qop_auth,
            opaque: match &self.opaque {
                Some(o) => Some(fixed::copy(o)),
                None => None,
            },
        }
    }
}

/// The MD5 checksum of some bytes.
pub uninterp spec fn md5_of(data: Seq<u8>) -> Seq<u8>;

/// `md5::Md5::digest`: the MD5 checksum of the bytes, which depends on nothing else.
#[verifier::external_body]
fn md5(data: &[u8]) -> (r: [u8; 16])
    ensures
        r@ == md5_of(data@),
{
    md5::Md5::digest(data).into()
}

/// The parts joined by colons.
pub open spec fn joined(parts: Seq<Seq<char>>) -> Seq<char>
    decreases parts.len(),
{
    if parts.len() == 0 {
        Seq::empty()
    } else if parts.len() == 1 {
        parts[0]
    } else {
        joined(parts.drop_last()) + ":"@ + parts.last()
    }
}

/// The MD5 checksum of a text, in hexadecimal digits.
pub open spec fn md5_text(t: Seq<char>) -> Seq<char> {
    text::hex(md5_of(vstd::utf8::encode_utf8(t)))
}

/// The MD5 checksum of the parts joined by colons, in hexadecimal digits.
pub fn md5_hex(parts: &[&str]) -> (r: String)
    ensures
        r@ == md5_text(joined(text::slices(parts@))),
        r@.len() == 32,
        fixed::byte_len(r@) == 32,
{
    let mut whole = String::new();
    let mut i: usize = 0;
    assert(text::slices(parts@).take(0) =~= Seq::<Seq<char>>::empty());
    assert(whole@ =~= joined(text::slices(parts@).take(0)));
    while i < parts.len()
        invariant
            i <= parts@.len(),
            whole@ == joined(text::slices(parts@).take(i as int)),
        decreases parts@.len() - i,
    {
        let ghost upto = text::slices(parts@).take(i + 1);
        assert(upto.drop_last() =~= text::slices(parts@).take(i as int));
        assert(upto.last() == parts@[i as int]@);
        if i > 0 {
            whole.append(":");
        }
        whole.append(parts[i]);
        assert(whole@ =~= joined(upto));
        i += 1;
    }
    assert(text::slices(parts@).take(i as int) =~= text::slices(parts@));
    let sum: [u8; 16] = md5(whole.as_str().as_bytes());
    let mut out = String::new();
    text::push_hex(&mut out, sum.as_slice());
    assert(out@ =~= md5_text(joined(text::slices(parts@))));
    proof {
        text::hex_is_ascii(sum@);
        fixed::ascii_takes_one_byte_each(out@);
    }
    out
}

/// Where the value of `key` lies in a challenge, `key=value` or `key="value"`, looking from
/// `at` on. The key counts where the search begins and behind a blank or a comma.
pub open spec fn value_of(s: Seq<char>, key: Seq<char>, at: int) -> Option<(int, int)>
    decreases s.len() - at,
{
    let len = s.len() as int;
    let pos = text::next_text(s, key, at, len);
    if at < 0 || pos < at || pos >= len || pos + key.len() > len || key.len() == 0 {
        None
    } else {
        let set_off = pos == at || s[pos - 1] == ' ' || s[pos - 1] == ',';
        let eq = text::skip_space(s, pos + key.len(), len);
        if set_off && eq < len && s[eq] == '=' {
            let v = text::skip_space(s, eq + 1, len);
            if v < len && s[v] == '"' {
                let end = text::next(s, '"', v + 1, len);
                if end < len {
                    Some((v + 1, end))
                } else {
                    None
                }
            } else {
                Some(text::trimmed(s, v, text::next(s, ',', v, len)))
            }
        } else {
            value_of(s, key, pos + key.len())
        }
    }
}

/// The value of `key` in a challenge.
pub open spec fn param_of(s: Seq<char>, key: Seq<char>) -> Option<Seq<char>> {
    match value_of(s, key, 0) {
        Some((a, b)) => Some(s.subrange(a, b)),
        None => None,
    }
}

/// Pull a `key=value` / `key="value"` pair out of a challenge.
fn param(s: &[char], key: &str) -> (r: Option<(usize, usize)>)
    requires
        key@.len() > 0,
    ensures
        match value_of(s@, key@, 0) {
            Some((a, b)) => r is Some && (r->0).0 == a && (r->0).1 == b && a <= b <= s@.len(),
            None => r is None,
        },
{
    let len: usize = s.len();
    let word: Vec<char> = text::chars_of(key);
    let mut at: usize = 0;
    loop
        invariant
            at <= len == s@.len(),
            word@ == key@,
            key@.len() > 0,
            value_of(s@, key@, 0) == value_of(s@, key@, at as int),
        decreases len - at,
    {
        let pos: usize = text::find_text(s, word.as_slice(), at, len);
        if pos >= len {
            return None;
        }
        let set_off: bool = pos == at || s[pos - 1] == ' ' || s[pos - 1] == ',';
        let eq: usize = text::past_space(s, pos + word.len(), len);
        if set_off && eq < len && s[eq] == '=' {
            let v: usize = text::past_space(s, eq + 1, len);
            if v < len && s[v] == '"' {
                let end: usize = text::find(s, '"', v + 1, len);
                if end < len {
                    return Some((v + 1, end));
                }
                return None;
            }
            let end: usize = text::find(s, ',', v, len);
            return Some(text::trim_range(s, v, end));
        }
        at = pos + word.len();
    }
}

/// Whether a comma-separated list names `auth`.
pub open spec fn offers_auth(s: Seq<char>, i: int, end: int) -> bool
    decreases end - i,
{
    let comma = text::next(s, ',', i, end);
    let (a, b) = text::trimmed(s, i, comma);
    s.subrange(a, b) == "auth"@ || (i <= comma < end && offers_auth(s, comma + 1, end))
}

fn lists_auth(s: &[char], i: usize, end: usize) -> (r: bool)
    requires
        i <= end <= s@.len(),
    ensures
        r == offers_auth(s@, i as int, end as int),
{
    let word: Vec<char> = text::chars_of("auth");
    let mut from: usize = i;
    loop
        invariant
            i <= from <= end <= s@.len(),
            word@ == "auth"@,
            offers_auth(s@, i as int, end as int) == offers_auth(s@, from as int, end as int),
        decreases end - from,
    {
        let comma: usize = text::find(s, ',', from, end);
        let (a, b) = text::trim_range(s, from, comma);
        if text::is_text(s, word.as_slice(), a, b) {
            return true;
        }
        if comma >= end {
            return false;
        }
        from = comma + 1;
    }
}

/// Whether a challenge is one for digest authentication with what that needs.
pub open spec fn is_digest(h: Seq<char>) -> bool {
    h.len() >= 6 && text::same_letters(h.take(6), "digest"@) && param_of(h, "realm"@) is Some
        && param_of(h, "nonce"@) is Some
}

/// Whether a challenge offers `qop=auth`.
pub open spec fn qop_auth_of(h: Seq<char>) -> bool {
    match value_of(h, "qop"@, 0) {
        Some((a, b)) => offers_auth(h.subrange(a, b), 0, b - a),
        None => false,
    }
}

impl Challenge {
    /// Whether `r` is what a `WWW-Authenticate` header says.
    pub open spec fn is_parsed(header_value: Seq<char>, r: Result<Challenge, Error>) -> bool {
        let h = text::trim(header_value);
        if !is_digest(h) {
            r == Err::<Challenge, Error>(Error::BadChallenge)
        } else {
            let realm = param_of(h, "realm"@)->0;
            let nonce = param_of(h, "nonce"@)->0;
            let opaque = param_of(h, "opaque"@);
            if fixed::byte_len(realm) > MAX_FIELD || fixed::byte_len(nonce) > MAX_FIELD || (
            opaque is Some && fixed::byte_len(opaque->0) > MAX_FIELD) {
                r == Err::<Challenge, Error>(Error::BufferFull)
            } else {
                &&& r is Ok
                &&& fixed::holds(r->Ok_0.realm, realm)
                &&& fixed::holds(r->Ok_0.nonce, nonce)
                &&& r->Ok_0.qop_auth == qop_auth_of(h)
                &&& r->Ok_0.opaque is Some == opaque is Some
                &&& opaque is Some ==> fixed::holds(r->Ok_0.opaque->0, opaque->0)
            }
        }
    }

    /// Parse the value of a `WWW-Authenticate` header.
    pub fn parse(header_value: &str) -> (r: Result<Self, Error>)
        ensures
            Self::is_parsed(header_value@, r),
    {
        let all: Vec<char> = text::chars_of(header_value);
        let (from, to) = text::trim_range(all.as_slice(), 0, all.len());
        let trimmed: &str = header_value.substring_char(from, to);
        let h: Vec<char> = text::chars_of(trimmed);
        assert(h@ == text::trim(header_value@));
        let word: Vec<char> = text::chars_of("digest");
        proof {
            reveal_strlit("realm");
            reveal_strlit("nonce");
            reveal_strlit("qop");
            reveal_strlit("opaque");
            assert(h@.take(6) =~= h@.subrange(0, 6));
        }
        if h.len() < 6 || !text::is_word(h.as_slice(), word.as_slice(), 0, 6) {
            return Err(Error::BadChallenge);
        }
        let realm: (usize, usize) = match param(h.as_slice(), "realm") {
            Some(p) => p,
            None => {
                return Err(Error::BadChallenge);
            },
        };
        let nonce: (usize, usize) = match param(h.as_slice(), "nonce") {
            Some(p) => p,
            None => {
                return Err(Error::BadChallenge);
            },
        };
        let qop_auth: bool = match param(h.as_slice(), "qop") {
            Some((a, b)) => {
                let q: Vec<char> = text::chars_of(trimmed.substring_char(a, b));
                lists_auth(q.as_slice(), 0, q.len())
            },
            None => false,
        };
        let opaque: Option<heapless::String<MAX_FIELD>> = match param(h.as_slice(), "opaque") {
            Some((a, b)) => match soap::fit(trimmed.substring_char(a, b)) {
                Ok(t) => Some(t),
                Err(e) => {
                    return Err(e);
                },
            },
            None => None,
        };
        let realm: heapless::String<MAX_FIELD> = match soap::fit(
            trimmed.substring_char(realm.0, realm.1),
        ) {
            Ok(t) => t,
            Err(e) => {
                return Err(e);
            },
        };
        let nonce: heapless::String<MAX_FIELD> = match soap::fit(
            trimmed.substring_char(nonce.0, nonce.1),
        ) {
            Ok(t) => t,
            Err(e) => {
                return Err(e);
            },
        };
        Ok(Challenge { realm, nonce, qop_auth, opaque })
    }

    /// Build the `Authorization` header value for one request.
    ///
    /// `nc` must increase for every request reusing the same nonce.
    pub fn authorization<const N: usize>(
        &self,
        username: &str,
        password: &str,
        method: &str,
        uri: &str,
        nc: u32,
        cnonce: &str,
    ) -> (r: Result<heapless::String<N>, Error>)
        ensures
            exists|c: Terms|
                c.of(*self) && c.qop_auth == self.qop_auth && soap::fits(
                    #[trigger] c.authorization(
                        username@,
                        password@,
                        method@,
                        uri@,
                        nc,
                        cnonce@,
                    ),
                    r,
                ) && c.response(username@, password@, method@, uri@, nc, cnonce@).len() == 32
                    && fixed::byte_len(
                    c.authorization(username@, password@, method@, uri@, nc, cnonce@),
                ) == c.size(username@, uri@, cnonce@),
    {
        let realm: &str = fixed::read(&self.realm);
        let nonce: &str = fixed::read(&self.nonce);
        let opaque: Option<&str> = match &self.opaque {
            Some(o) => Some(fixed::read(o)),
            None => None,
        };
        let ghost c = Terms {
            realm: realm@,
            nonce: nonce@,
            qop_auth: self.qop_auth,
            opaque: match opaque {
                Some(o) => Some(o@),
                None => None,
            },
        };
        let t = authorization_text(
            realm,
            nonce,
            self.qop_auth,
            opaque,
            username,
            password,
            method,
            uri,
            nc,
            cnonce,
        );
        let r = soap::fit(t.as_str());
        assert(c.of(*self));
        r
    }
}

/// What a challenge says, as plain text.
pub struct Terms {
    pub realm: Seq<char>,
    pub nonce: Seq<char>,
    pub qop_auth: bool,
    pub opaque: Option<Seq<char>>,
}

impl Terms {
    /// Whether these are the terms of a challenge.
    pub open spec fn of(self, c: Challenge) -> bool {
        &&& fixed::holds(c.realm, self.realm)
        &&& fixed::holds(c.nonce, self.nonce)
        &&& c.opaque is Some == self.opaque is Some
        &&& c.opaque is Some ==> fixed::holds(c.opaque->0, self.opaque->0)
    }

    /// The proof of knowing the password: RFC 2617, with or without a quality of protection.
    pub open spec fn response(
        self,
        username: Seq<char>,
        password: Seq<char>,
        method: Seq<char>,
        uri: Seq<char>,
        nc: u32,
        cnonce: Seq<char>,
    ) -> Seq<char> {
        let ha1 = md5_text(joined(seq![username, self.realm, password]));
        let ha2 = md5_text(joined(seq![method, uri]));
        if self.qop_auth {
            md5_text(joined(seq![ha1, self.nonce, text::hex_word(nc), cnonce, "auth"@, ha2]))
        } else {
            md5_text(joined(seq![ha1, self.nonce, ha2]))
        }
    }

    /// How many bytes the `Authorization` header takes: its own wording, with 32 digits of
    /// response, and what it carries.
    pub open spec fn size(self, username: Seq<char>, uri: Seq<char>, cnonce: Seq<char>) -> nat {
        106 + fixed::byte_len(username) + fixed::byte_len(self.realm) + fixed::byte_len(self.nonce)
            + fixed::byte_len(uri) + (if self.qop_auth {
            34 + fixed::byte_len(cnonce)
        } else {
            0
        }) + (match self.opaque {
            Some(o) => 11 + fixed::byte_len(o),
            None => 0,
        })
    }

    /// The value of the `Authorization` header.
    pub open spec fn authorization(
        self,
        username: Seq<char>,
        password: Seq<char>,
        method: Seq<char>,
        uri: Seq<char>,
        nc: u32,
        cnonce: Seq<char>,
    ) -> Seq<char> {
        "Digest username=\""@ + username + "\", realm=\""@ + self.realm + "\", nonce=\""@
            + self.nonce + "\", uri=\""@ + uri + "\", algorithm=MD5, response=\""@ + self.response(
            username,
            password,
            method,
            uri,
            nc,
            cnonce,
        ) + "\""@ + (if self.qop_auth {
            ", qop=auth, nc="@ + text::hex_word(nc) + ", cnonce=\""@ + cnonce + "\""@
        } else {
            Seq::empty()
        }) + (match self.opaque {
            Some(o) => ", opaque=\""@ + o + "\""@,
            None => Seq::empty(),
        })
    }
}

proof fn lemma_wording_size()
    ensures
        fixed::byte_len("Digest username=\""@) == 17,
        fixed::byte_len("\", realm=\""@) == 10,
        fixed::byte_len("\", nonce=\""@) == 10,
        fixed::byte_len("\", uri=\""@) == 8,
        fixed::byte_len("\", algorithm=MD5, response=\""@) == 28,
        fixed::byte_len("\""@) == 1,
        fixed::byte_len(", qop=auth, nc="@) == 15,
        fixed::byte_len(", cnonce=\""@) == 10,
        fixed::byte_len(", opaque=\""@) == 10,
{
    reveal_strlit("Digest username=\"");
    reveal_strlit("\", realm=\"");
    reveal_strlit("\", nonce=\"");
    reveal_strlit("\", uri=\"");
    reveal_strlit("\", algorithm=MD5, response=\"");
    reveal_strlit("\"");
    reveal_strlit(", qop=auth, nc=");
    reveal_strlit(", cnonce=\"");
    reveal_strlit(", opaque=\"");
    fixed::ascii_takes_one_byte_each("Digest username=\""@);
    fixed::ascii_takes_one_byte_each("\", realm=\""@);
    fixed::ascii_takes_one_byte_each("\", nonce=\""@);
    fixed::ascii_takes_one_byte_each("\", uri=\""@);
    fixed::ascii_takes_one_byte_each("\", algorithm=MD5, response=\""@);
    fixed::ascii_takes_one_byte_each("\""@);
    fixed::ascii_takes_one_byte_each(", qop=auth, nc="@);
    fixed::ascii_takes_one_byte_each(", cnonce=\""@);
    fixed::ascii_takes_one_byte_each(", opaque=\""@);
}

proof fn lemma_authorization_size(
    c: Terms,
    username: Seq<char>,
    password: Seq<char>,
    method: Seq<char>,
    uri: Seq<char>,
    nc: u32,
    cnonce: Seq<char>,
)
    requires
        fixed::byte_len(c.response(username, password, method, uri, nc, cnonce)) == 32,
    ensures
        fixed::byte_len(c.authorization(username, password, method, uri, nc, cnonce)) == c.size(
            username,
            uri,
            cnonce,
        ),
{
    lemma_wording_size();
    let response = c.response(username, password, method, uri, nc, cnonce);
    let s1 = "Digest username=\""@ + username;
    let s2 = s1 + "\", realm=\""@;
    let s3 = s2 + c.realm;
    let s4 = s3 + "\", nonce=\""@;
    let s5 = s4 + c.nonce;
    let s6 = s5 + "\", uri=\""@;
    let s7 = s6 + uri;
    let s8 = s7 + "\", algorithm=MD5, response=\""@;
    let s9 = s8 + response;
    let s10 = s9 + "\""@;
    fixed::byte_len_adds("Digest username=\""@, username);
    fixed::byte_len_adds(s1, "\", realm=\""@);
    fixed::byte_len_adds(s2, c.realm);
    fixed::byte_len_adds(s3, "\", nonce=\""@);
    fixed::byte_len_adds(s4, c.nonce);
    fixed::byte_len_adds(s5, "\", uri=\""@);
    fixed::byte_len_adds(s6, uri);
    fixed::byte_len_adds(s7, "\", algorithm=MD5, response=\""@);
    fixed::byte_len_adds(s8, response);
    fixed::byte_len_adds(s9, "\""@);
    let word = text::hex_word(nc);
    let q1 = ", qop=auth, nc="@ + word;
    let q2 = q1 + ", cnonce=\""@;
    let q3 = q2 + cnonce;
    let qop = if c.qop_auth {
        q3 + "\""@
    } else {
        Seq::empty()
    };
    lemma_word_size(nc);
    fixed::byte_len_adds(", qop=auth, nc="@, word);
    fixed::byte_len_adds(q1, ", cnonce=\""@);
    fixed::byte_len_adds(q2, cnonce);
    fixed::byte_len_adds(q3, "\""@);
    let opaque = match c.opaque {
        Some(o) => ", opaque=\""@ + o + "\""@,
        None => Seq::empty(),
    };
    if let Some(o) = c.opaque {
        fixed::byte_len_adds(", opaque=\""@, o);
        fixed::byte_len_adds(", opaque=\""@ + o, "\""@);
    }
    assert(fixed::byte_len(Seq::<char>::empty()) == 0);
    fixed::byte_len_adds(s10, qop);
    fixed::byte_len_adds(s10 + qop, opaque);
}

proof fn lemma_word_size(nc: u32)
    ensures
        fixed::byte_len(text::hex_word(nc)) == 8,
{
    let b = seq![
        (nc / 0x100_0000) as u8,
        (nc / 0x1_0000 % 256) as u8,
        (nc / 0x100 % 256) as u8,
        (nc % 256) as u8,
    ];
    text::hex_is_ascii(b);
    fixed::ascii_takes_one_byte_each(text::hex(b));
}

/// The value of the `Authorization` header.
pub fn authorization_text(
    realm: &str,
    nonce: &str,
    qop_auth: bool,
    opaque: Option<&str>,
    username: &str,
    password: &str,
    method: &str,
    uri: &str,
    nc: u32,
    cnonce: &str,
) -> (r: String)
    ensures
        ({
            let c = Terms {
                realm: realm@,
                nonce: nonce@,
                qop_auth,
                opaque: match opaque {
                    Some(o) => Some(o@),
                    None => None,
                },
            };
            &&& r@ == c.authorization(username@, password@, method@, uri@, nc, cnonce@)
            &&& c.response(username@, password@, method@, uri@, nc, cnonce@).len() == 32
            &&& fixed::byte_len(r@) == c.size(username@, uri@, cnonce@)
        }),
{
    let ghost c = Terms {
        realm: realm@,
        nonce: nonce@,
        qop_auth,
        opaque: match opaque {
            Some(o) => Some(o@),
            None => None,
        },
    };
    let one: [&str; 3] = [username, realm, password];
    let two: [&str; 2] = [method, uri];
    assert(text::slices(one@) =~= seq![username@, realm@, password@]);
    assert(text::slices(two@) =~= seq![method@, uri@]);
    let ha1 = md5_hex(one.as_slice());
    let ha2 = md5_hex(two.as_slice());
    let mut nc_hex = String::new();
    text::push_hex_word(&mut nc_hex, nc);
    assert(nc_hex@ =~= text::hex_word(nc));
    let response: String = if qop_auth {
        let parts: [&str; 6] = [
            ha1.as_str(),
            nonce,
            nc_hex.as_str(),
            cnonce,
            "auth",
            ha2.as_str(),
        ];
        assert(text::slices(parts@) =~= seq![
            ha1@,
            nonce@,
            text::hex_word(nc),
            cnonce@,
            "auth"@,
            ha2@,
        ]);
        md5_hex(parts.as_slice())
    } else {
        let parts: [&str; 3] = [ha1.as_str(), nonce, ha2.as_str()];
        assert(text::slices(parts@) =~= seq![ha1@, nonce@, ha2@]);
        md5_hex(parts.as_slice())
    };
    assert(response@ == c.response(username@, password@, method@, uri@, nc, cnonce@));
    let mut out = String::new();
    out.append("Digest username=\"");
    out.append(username);
    out.append("\", realm=\"");
    out.append(realm);
    out.append("\", nonce=\"");
    out.append(nonce);
    out.append("\", uri=\"");
    out.append(uri);
    out.append("\", algorithm=MD5, response=\"");
    out.append(response.as_str());
    out.append("\"");
    if qop_auth {
        out.append(", qop=auth, nc=");
        out.append(nc_hex.as_str());
        out.append(", cnonce=\"");
        out.append(cnonce);
        out.append("\"");
    }
    if let Some(o) = opaque {
        out.append(", opaque=\"");
        out.append(o);
        out.append("\"");
    }
    assert(out@ =~= c.authorization(username@, password@, method@, uri@, nc, cnonce@));
    proof {
        lemma_authorization_size(c, username@, password@, method@, uri@, nc, cnonce@);
    }
    out
}

/// A quoted parameter of a challenge is read up to its closing quotation mark, commas and all: the
/// first place where its name stands by itself counts.
pub proof fn a_quoted_parameter_is_read_whole(
    before: Seq<char>,
    key: Seq<char>,
    value: Seq<char>,
    after: Seq<char>,
)
    requires
        key.len() > 0,
        before.len() == 0 || before.last() == ' ' || before.last() == ',',
        !value.contains('"'),
        ({
            let s = before + key + seq!['=', '"'] + value + seq!['"'] + after;
            forall|j: int|
                0 <= j < before.len() ==> !#[trigger] text::reads(s, key, j, s.len() as int)
        }),
    ensures
        param_of(before + key + seq!['=', '"'] + value + seq!['"'] + after, key) == Some(value),
{
    let s = before + key + seq!['=', '"'] + value + seq!['"'] + after;
    let len = s.len() as int;
    let pos = before.len() as int;
    let k = key.len() as int;
    let v = value.len() as int;
    assert(s.subrange(pos, pos + k) =~= key);
    text::next_text_is_there(s, key, 0, len, pos);
    assert(s[pos + k] == '=' && s[pos + k + 1] == '"');
    text::space_is_passed_over(s, pos + k, len, pos + k);
    text::space_is_passed_over(s, pos + k + 1, len, pos + k + 1);
    let from = pos + k + 2;
    assert forall|j: int| from <= j < from + v implies #[trigger] s[j] != '"' by {
        assert(s[j] == value[j - from]);
        assert(value.contains(value[j - from]));
    }
    assert(s[from + v] == '"');
    text::next_is_there(s, '"', from, len, from + v);
    if pos > 0 {
        assert(s[pos - 1] == before.last());
    }
    assert(s.subrange(from, from + v) =~= value);
}

/// A parameter without quotation marks is read up to the next comma.
pub proof fn a_plain_parameter_is_read_to_the_comma(
    before: Seq<char>,
    key: Seq<char>,
    value: Seq<char>,
    after: Seq<char>,
)
    requires
        key.len() > 0,
        before.len() == 0 || before.last() == ' ' || before.last() == ',',
        value.len() > 0,
        !value.contains(','),
        value[0] != '"',
        !text::is_space(value[0]),
        !text::is_space(value.last()),
        after.len() == 0 || after[0] == ',',
        ({
            let s = before + key + seq!['='] + value + after;
            forall|j: int|
                0 <= j < before.len() ==> !#[trigger] text::reads(s, key, j, s.len() as int)
        }),
    ensures
        param_of(before + key + seq!['='] + value + after, key) == Some(value),
{
    let s = before + key + seq!['='] + value + after;
    let len = s.len() as int;
    let pos = before.len() as int;
    let k = key.len() as int;
    let v = value.len() as int;
    assert(s.subrange(pos, pos + k) =~= key);
    text::next_text_is_there(s, key, 0, len, pos);
    assert(s[pos + k] == '=');
    text::space_is_passed_over(s, pos + k, len, pos + k);
    let from = pos + k + 1;
    assert(s[from] == value[0]);
    text::space_is_passed_over(s, from, len, from);
    assert forall|j: int| from <= j < from + v implies #[trigger] s[j] != ',' by {
        assert(s[j] == value[j - from]);
        assert(value.contains(value[j - from]));
    }
    if after.len() > 0 {
        assert(s[from + v] == after[0]);
    }
    text::next_is_there(s, ',', from, len, from + v);
    assert(s[from + v - 1] == value.last());
    text::trimming_takes_the_space_off(s, from, from + v, from, from + v);
    if pos > 0 {
        assert(s[pos - 1] == before.last());
    }
    assert(s.subrange(from, from + v) =~= value);
}

/// A list offers `auth` where one of its items is that word, white space aside, and not where it
/// only begins with it.
pub proof fn a_list_offers_auth_by_that_word(s: Seq<char>, i: int, end: int, comma: int)
    requires
        0 <= i <= comma <= end <= s.len(),
        forall|j: int| i <= j < comma ==> #[trigger] s[j] != ',',
        comma == end || s[comma] == ',',
    ensures
        ({
            let (a, b) = text::trimmed(s, i, comma);
            let here = s.subrange(a, b) == "auth"@;
            offers_auth(s, i, end) == (here || (comma < end && offers_auth(s, comma + 1, end)))
        }),
{
    text::next_is_there(s, ',', i, end, comma);
}

/// A challenge is taken as it is put: its realm, its nonce and what it wants handed back, and a
/// quality of protection only where it offers one by the name of `auth`.
pub proof fn a_challenge_is_taken_as_it_is_put(header_value: Seq<char>, c: Challenge)
    requires
        Challenge::is_parsed(header_value, Ok(c)),
    ensures
        ({
            let h = text::trim(header_value);
            &&& text::same_letters(h.take(6), "digest"@)
            &&& param_of(h, "realm"@) is Some && fixed::holds(c.realm, param_of(h, "realm"@)->0)
            &&& param_of(h, "nonce"@) is Some && fixed::holds(c.nonce, param_of(h, "nonce"@)->0)
            &&& c.opaque is Some <==> param_of(h, "opaque"@) is Some
            &&& c.opaque is Some ==> fixed::holds(c.opaque->0, param_of(h, "opaque"@)->0)
            &&& param_of(h, "qop"@) is None ==> !c.qop_auth
            &&& param_of(h, "qop"@) is Some ==> (c.qop_auth <==> offers_auth(
                param_of(h, "qop"@)->0,
                0,
                param_of(h, "qop"@)->0.len() as int,
            ))
        }),
{
    let h = text::trim(header_value);
    if let Some((a, b)) = value_of(h, "qop"@, 0) {
        lemma_value_lies_within(h, "qop"@, 0);
        assert(h.subrange(a, b).len() == b - a);
    }
}

proof fn lemma_value_lies_within(s: Seq<char>, key: Seq<char>, at: int)
    requires
        value_of(s, key, at) is Some,
    ensures
        0 <= (value_of(s, key, at)->0).0 <= (value_of(s, key, at)->0).1 <= s.len(),
    decreases s.len() - at,
{
    let len = s.len() as int;
    let pos = text::next_text(s, key, at, len);
    let set_off = pos == at || s[pos - 1] == ' ' || s[pos - 1] == ',';
    let eq = text::skip_space(s, pos + key.len(), len);
    text::space_ends_in_bounds(s, pos + key.len(), len);
    if set_off && eq < len && s[eq] == '=' {
        let v = text::skip_space(s, eq + 1, len);
        text::space_ends_in_bounds(s, eq + 1, len);
        if v < len && s[v] == '"' {
            text::next_stays_in_bounds(s, '"', v + 1, len);
        } else {
            text::next_stays_in_bounds(s, ',', v, len);
            text::trimming_stays_in_bounds(s, v, text::next(s, ',', v, len));
        }
    } else {
        lemma_value_lies_within(s, key, pos + key.len());
    }
}

/// The response proves the password by the formula of RFC 2617: the checksum of name, realm and
/// password, the nonce, the count, the client's nonce and the quality of protection where one is
/// offered, and the checksum of method and path, colons in between.
pub proof fn the_response_follows_the_formula(
    c: Terms,
    username: Seq<char>,
    password: Seq<char>,
    method: Seq<char>,
    uri: Seq<char>,
    nc: u32,
    cnonce: Seq<char>,
)
    ensures
        ({
            let colon = ":"@;
            let secret = md5_text(username + colon + c.realm + colon + password);
            let target = md5_text(method + colon + uri);
            c.response(username, password, method, uri, nc, cnonce) == if c.qop_auth {
                md5_text(
                    secret + colon + c.nonce + colon + text::hex_word(nc) + colon + cnonce + colon
                        + "auth"@ + colon + target,
                )
            } else {
                md5_text(secret + colon + c.nonce + colon + target)
            }
        }),
{
    reveal_with_fuel(joined, 7);
    let who = seq![username, c.realm, password];
    assert(who.drop_last() =~= seq![username, c.realm]);
    assert(seq![username, c.realm].drop_last() =~= seq![username]);
    let what = seq![method, uri];
    assert(what.drop_last() =~= seq![method]);
    let (secret, target) = (md5_text(joined(who)), md5_text(joined(what)));
    let word = text::hex_word(nc);
    let short = seq![secret, c.nonce, target];
    assert(short.drop_last() =~= seq![secret, c.nonce]);
    assert(seq![secret, c.nonce].drop_last() =~= seq![secret]);
    let long = seq![secret, c.nonce, word, cnonce, "auth"@, target];
    assert(long.drop_last() =~= seq![secret, c.nonce, word, cnonce, "auth"@]);
    assert(long.drop_last().drop_last() =~= seq![secret, c.nonce, word, cnonce]);
    assert(long.drop_last().drop_last().drop_last() =~= seq![secret, c.nonce, word]);
    assert(long.drop_last().drop_last().drop_last().drop_last() =~= seq![secret, c.nonce]);
}

} // verus!
