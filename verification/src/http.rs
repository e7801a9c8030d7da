//! The little HTTP that the unit speaks and understands.
use crate::fixed;
use crate::text;
use vstd::prelude::*;

verus! {

/// Where a line that begins at `i` ends, and where the next one begins. A line ends before its
/// line feed, and before a carriage return that comes with it.
pub open spec fn line_end(s: Seq<char>, i: int) -> (int, int) {
    let len = s.len() as int;
    let feed = text::next(s, '\n', i, len);
    if feed >= len {
        (len, len)
    } else if feed > i && s[feed - 1] == '\r' {
        (feed - 1, feed + 1)
    } else {
        (feed, feed + 1)
    }
}

/// Where the value of a header lies, looking at the lines from `i` on: what follows the first
/// colon of the first line whose name, but for case and white space, is the one asked for.
pub open spec fn header_value(s: Seq<char>, name: Seq<char>, i: int) -> Option<(int, int)>
    decreases s.len() - i,
{
    if i < 0 || i >= s.len() {
        None
    } else {
        let (end, after) = line_end(s, i);
        let colon = text::next(s, ':', i, end);
        let (a, b) = text::trimmed(s, i, colon);
        if colon < end && text::same_letters(s.subrange(a, b), name) {
            Some(text::trimmed(s, colon + 1, end))
        } else if after > i {
            header_value(s, name, after)
        } else {
            None
        }
    }
}

/// Where a line that begins at `i` ends, and where the next one begins.
pub fn end_of_line(s: &[char], i: usize) -> (r: (usize, usize))
    requires
        i <= s@.len(),
    ensures
        (r.0 as int, r.1 as int) == line_end(s@, i as int),
        i <= r.0 <= r.1 <= s@.len(),
        i < s@.len() ==> r.1 > i,
{
    let len: usize = s.len();
    let feed: usize = text::find(s, '\n', i, len);
    if feed >= len {
        (len, len)
    } else if feed > i && s[feed - 1] == '\r' {
        (feed - 1, feed + 1)
    } else {
        (feed, feed + 1)
    }
}

/// Where the value of a header lies, looking at the lines from `from` on.
pub fn find_header(s: &[char], name: &[char], from: usize) -> (r: Option<(usize, usize)>)
    requires
        from <= s@.len(),
    ensures
        match header_value(s@, name@, from as int) {
            Some((a, b)) => r is Some && (r->0).0 == a && (r->0).1 == b && a <= b <= s@.len(),
            None => r is None,
        },
{
    let mut i: usize = from;
    while i < s.len()
        invariant
            from <= i <= s@.len(),
            header_value(s@, name@, from as int) == header_value(s@, name@, i as int),
        decreases s@.len() - i,
    {
        let (end, after) = end_of_line(s, i);
        let colon: usize = text::find(s, ':', i, end);
        if colon < end {
            let (a, b) = text::trim_range(s, i, colon);
            if text::is_word(s, name, a, b) {
                return Some(text::trim_range(s, colon + 1, end));
            }
        }
        i = after;
    }
    None
}

/// The value of a header in the head of a message.
pub open spec fn header_in(head: Seq<char>, name: Seq<char>) -> Option<Seq<char>> {
    match header_value(head, name, 0) {
        Some((a, b)) => Some(head.subrange(a, b)),
        None => None,
    }
}

/// The value of a header in the head of a message.
pub fn header<'a>(head: &'a str, name: &str) -> (r: Option<&'a str>)
    ensures
        match header_in(head@, name@) {
            Some(v) => r is Some && r->0@ == v,
            None => r is None,
        },
{
    let chars: Vec<char> = text::chars_of(head);
    let word: Vec<char> = text::chars_of(name);
    match find_header(chars.as_slice(), word.as_slice(), 0) {
        Some((a, b)) => Some(head.substring_char(a, b)),
        None => None,
    }
}

/// The number that the second word between `i` and `end` spells, if it is a status.
pub open spec fn second_word_status(s: Seq<char>, i: int, end: int) -> Option<nat> {
    let a = text::skip_space(s, i, end);
    let b = text::next_space(s, a, end);
    let c = text::skip_space(s, b, end);
    let d = text::next_space(s, c, end);
    if c >= end {
        None
    } else {
        text::number(s.subrange(c, d), u16::MAX as nat)
    }
}

/// The status that the second word between `i` and `end` spells.
pub fn status_word(s: &[char], i: usize, end: usize) -> (r: Option<u16>)
    requires
        i <= end <= s@.len(),
    ensures
        match second_word_status(s@, i as int, end as int) {
            Some(n) => r is Some && r->0 == n,
            None => r is None,
        },
{
    let a: usize = text::past_space(s, i, end);
    let b: usize = text::find_space(s, a, end);
    let c: usize = text::past_space(s, b, end);
    let d: usize = text::find_space(s, c, end);
    if c >= end {
        return None;
    }
    match text::parse_number(s, c, d, 0xffff) {
        Some(n) => Some(n as u16),
        None => None,
    }
}

/// A response in its parts.
#[derive(Clone, Copy)]
pub struct Response<'a> {
    pub status: u16,
    /// Everything before the blank line.
    pub head: &'a str,
    /// Everything after it.
    pub body: &'a str,
}

/// Why something is not a response.
#[derive(Debug, Clone, Copy, PartialEq, Eq, Structural)]
pub enum Malformed {
    /// No blank line ends the head.
    NoHead,
    /// The first line has no status.
    NoStatus,
}

/// Where the blank line of a message begins, or its end.
pub open spec fn head_end(s: Seq<char>) -> int {
    text::next_text(s, "\r\n\r\n"@, 0, s.len() as int)
}

/// What a message says as a response.
pub open spec fn is_response(s: Seq<char>, r: Result<Response, Malformed>) -> bool {
    let sep = head_end(s);
    if sep >= s.len() {
        r == Err::<Response, Malformed>(Malformed::NoHead)
    } else {
        match second_word_status(s.take(sep), 0, line_end(s.take(sep), 0).0) {
            None => r == Err::<Response, Malformed>(Malformed::NoStatus),
            Some(n) => {
                &&& r is Ok
                &&& r->Ok_0.status == n
                &&& r->Ok_0.head@ == s.take(sep)
                &&& r->Ok_0.body@ == s.skip(sep + 4)
            },
        }
    }
}

/// Take a response apart. `Connection: close` means that everything up to the end of the
/// stream is the message, and that chunked encoding never appears.
pub fn parse_response<'a>(message: &'a str) -> (r: Result<Response<'a>, Malformed>)
    ensures
        is_response(message@, r),
{
    let s: Vec<char> = text::chars_of(message);
    let blank: Vec<char> = text::chars_of("\r\n\r\n");
    proof {
        reveal_strlit("\r\n\r\n");
    }
    let sep: usize = text::find_text(s.as_slice(), blank.as_slice(), 0, s.len());
    if sep >= s.len() {
        return Err(Malformed::NoHead);
    }
    let head: &str = message.substring_char(0, sep);
    assert(head@ =~= message@.take(sep as int));
    let body: &str = message.substring_char(sep + 4, s.len());
    assert(body@ =~= message@.skip(sep + 4));
    let h: Vec<char> = text::chars_of(head);
    let (end, _after) = end_of_line(h.as_slice(), 0);
    match status_word(h.as_slice(), 0, end) {
        Some(status) => Ok(Response { status, head, body }),
        None => Err(Malformed::NoStatus),
    }
}

/// The head of a TR-064 request.
pub open spec fn soap_request_head(
    path: Seq<char>,
    host: Seq<char>,
    soap_action: Seq<char>,
    body_bytes: nat,
    auth: Option<Seq<char>>,
) -> Seq<char> {
    "POST "@ + path + " HTTP/1.1\r\nHost: "@ + host
        + "\r\nContent-Type: text/xml; charset=\"utf-8\"\r\nSOAPAction: "@ + soap_action
        + "\r\nContent-Length: "@ + text::decimal(body_bytes) + "\r\nConnection: close\r\n"@ + (
    match auth {
        Some(a) => "Authorization: "@ + a + "\r\n"@,
        None => Seq::empty(),
    }) + "\r\n"@
}

/// The head of a TR-064 request for a body.
pub fn soap_head(path: &str, host: &str, soap_action: &str, body: &str, auth: Option<&str>) -> (r:
    String)
    ensures
        r@ == soap_request_head(
            path@,
            host@,
            soap_action@,
            fixed::byte_len(body@),
            match auth {
                Some(a) => Some(a@),
                None => None,
            },
        ),
{
    let mut out = String::new();
    out.append("POST ");
    out.append(path);
    out.append(" HTTP/1.1\r\nHost: ");
    out.append(host);
    out.append("\r\nContent-Type: text/xml; charset=\"utf-8\"\r\nSOAPAction: ");
    out.append(soap_action);
    out.append("\r\nContent-Length: ");
    text::push_decimal(&mut out, fixed::bytes_of(body) as u64);
    out.append("\r\nConnection: close\r\n");
    if let Some(a) = auth {
        out.append("Authorization: ");
        out.append(a);
        out.append("\r\n");
    }
    out.append("\r\n");
    assert(out@ =~= soap_request_head(
        path@,
        host@,
        soap_action@,
        fixed::byte_len(body@),
        match auth {
            Some(a) => Some(a@),
            None => None,
        },
    ));
    out
}

/// Whether a header can stand in the head of a message: its name has no colon, neither part has a
/// line feed, and there is no white space around either.
pub open spec fn well_formed(header: (Seq<char>, Seq<char>)) -> bool {
    let (name, value) = header;
    &&& name.len() > 0 && !text::is_space(name[0]) && !text::is_space(name.last())
    &&& value.len() > 0 && !text::is_space(value[0]) && !text::is_space(value.last())
    &&& !name.contains(':') && !name.contains('\n') && !value.contains('\n')
}

/// The lines of some headers.
pub open spec fn header_lines(headers: Seq<(Seq<char>, Seq<char>)>) -> Seq<char>
    decreases headers.len(),
{
    if headers.len() == 0 {
        Seq::empty()
    } else {
        headers[0].0 + seq![':', ' '] + headers[0].1 + seq!['\r', '\n'] + header_lines(
            headers.drop_first(),
        )
    }
}

/// The value of the first header of that name, but for case.
pub open spec fn first_header(headers: Seq<(Seq<char>, Seq<char>)>, name: Seq<char>) -> Option<
    Seq<char>,
>
    decreases headers.len(),
{
    if headers.len() == 0 {
        None
    } else if text::same_letters(headers[0].0, name) {
        Some(headers[0].1)
    } else {
        first_header(headers.drop_first(), name)
    }
}

/// Where the parts of a header line lie.
#[verifier::rlimit(60)]
pub(crate) proof fn lemma_header_line(s: Seq<char>, i: int, headers: Seq<(Seq<char>, Seq<char>)>)
    requires
        0 <= i <= s.len(),
        headers.len() > 0,
        well_formed(headers[0]),
        s.skip(i) == header_lines(headers),
    ensures
        ({
            let (name, value) = headers[0];
            let colon = i + name.len();
            let end = colon + 2 + value.len();
            &&& line_end(s, i) == (end, end + 2)
            &&& end + 2 <= s.len()
            &&& text::next(s, ':', i, end) == colon
            &&& text::trimmed(s, i, colon) == (i, colon)
            &&& text::trimmed(s, colon + 1, end) == (colon + 2, end)
            &&& s.subrange(i, colon) == name
            &&& s.subrange(colon + 2, end) == value
            &&& s.skip(end + 2) == header_lines(headers.drop_first())
        }),
{
    let (name, value) = headers[0];
    let rest = header_lines(headers.drop_first());
    let (n, v) = (name.len() as int, value.len() as int);
    let colon = i + n;
    let end = colon + 2 + v;
    let t = name + seq![':', ' '] + value + seq!['\r', '\n'] + rest;
    assert(s.skip(i) == t);
    assert(s.skip(i).len() == s.len() - i);
    assert(forall|j: int| 0 <= j < t.len() ==> s[i + j] == #[trigger] t[j]) by {
        assert forall|j: int| 0 <= j < t.len() implies s[i + j] == #[trigger] t[j] by {
            assert(s.skip(i)[j] == s[i + j]);
        }
    }
    assert forall|j: int| i <= j < colon implies s[j] == name[j - i] by {
        assert(t[j - i] == name[j - i]);
        assert(s[i + (j - i)] == t[j - i]);
    }
    assert(t[n] == ':' && t[n + 1] == ' ');
    assert(s[i + n] == t[n] && s[i + (n + 1)] == t[n + 1]);
    assert forall|j: int| colon + 2 <= j < end implies s[j] == value[j - colon - 2] by {
        assert(t[j - i] == value[j - colon - 2]);
        assert(s[i + (j - i)] == t[j - i]);
    }
    assert(t[n + 2 + v] == '\r' && t[n + 3 + v] == '\n');
    assert(s[i + (n + 2 + v)] == t[n + 2 + v] && s[i + (n + 3 + v)] == t[n + 3 + v]);
    assert forall|j: int| i <= j < end + 1 implies #[trigger] s[j] != '\n' by {
        if j < colon {
            assert(name.contains(name[j - i]));
        } else if colon + 2 <= j < end {
            assert(value.contains(value[j - colon - 2]));
        }
    }
    text::next_is_there(s, '\n', i, s.len() as int, end + 1);
    assert forall|j: int| i <= j < colon implies #[trigger] s[j] != ':' by {
        assert(name.contains(name[j - i]));
    }
    text::next_is_there(s, ':', i, end, colon);
    assert(s[i] == name[0] && s[colon - 1] == name.last());
    text::trimming_takes_the_space_off(s, i, colon, i, colon);
    assert(s[colon + 2] == value[0] && s[end - 1] == value.last());
    text::trimming_takes_the_space_off(s, colon + 1, end, colon + 2, end);
    assert(s.subrange(i, colon) =~= name);
    assert(s.subrange(colon + 2, end) =~= value);
    assert(s.skip(end + 2) =~= rest) by {
        assert forall|j: int| 0 <= j < rest.len() implies s[end + 2 + j] == rest[j] by {
            assert(s[i + (n + 4 + v + j)] == t[n + 4 + v + j]);
        }
    }
}

/// A header is found by its name, but for case, and its value is what stands behind the colon; the
/// first of that name counts.
pub proof fn a_header_is_found_by_its_name(
    s: Seq<char>,
    i: int,
    headers: Seq<(Seq<char>, Seq<char>)>,
    name: Seq<char>,
)
    requires
        0 <= i <= s.len(),
        forall|k: int| 0 <= k < headers.len() ==> well_formed(#[trigger] headers[k]),
        s.skip(i) == header_lines(headers),
    ensures
        match first_header(headers, name) {
            None => header_value(s, name, i) is None,
            Some(v) => {
                let at = header_value(s, name, i);
                at is Some && 0 <= (at->0).0 <= (at->0).1 <= s.len() && s.subrange(
                    (at->0).0,
                    (at->0).1,
                ) == v
            },
        },
    decreases headers.len(),
{
    if headers.len() > 0 {
        lemma_header_line(s, i, headers);
        let rest = headers.drop_first();
        assert forall|k: int| 0 <= k < rest.len() implies well_formed(#[trigger] rest[k]) by {
            assert(rest[k] == headers[k + 1]);
        }
        let next = line_end(s, i).1;
        a_header_is_found_by_its_name(s, next, rest, name);
    } else {
        assert(s.skip(i).len() == 0);
    }
}

/// A response is its head, a blank line and its body, and its status is the second word of the head:
/// nothing in the body counts, blank lines included.
#[verifier::rlimit(60)]
pub proof fn a_response_is_head_and_body(
    version: Seq<char>,
    code: Seq<char>,
    tail: Seq<char>,
    body: Seq<char>,
    r: Result<Response, Malformed>,
)
    requires
        version.len() > 0,
        forall|j: int| 0 <= j < version.len() ==> !text::is_space(#[trigger] version[j]),
        code.len() > 0,
        forall|j: int| 0 <= j < code.len() ==> !text::is_space(#[trigger] code[j]),
        tail.len() > 0,
        text::is_space(tail[0]),
        ({
            let head = version + seq![' '] + code + tail;
            &&& forall|j: int| #![trigger head[j]]
                0 <= j && j + 4 <= head.len() ==> !(head[j] == '\r' && head[j + 1] == '\n' && head[j
                    + 2] == '\r' && head[j + 3] == '\n')
            &&& !(head[head.len() - 2] == '\r' && head[head.len() - 1] == '\n')
        }),
        is_response(version + seq![' '] + code + tail + "\r\n\r\n"@ + body, r),
    ensures
        match text::number(code, 65_535) {
            None => r == Err::<Response, Malformed>(Malformed::NoStatus),
            Some(n) => {
                &&& r is Ok
                &&& r->Ok_0.status == n
                &&& r->Ok_0.head@ == version + seq![' '] + code + tail
                &&& r->Ok_0.body@ == body
            },
        },
{
    reveal_strlit("\r\n\r\n");
    let head = version + seq![' '] + code + tail;
    let blank = "\r\n\r\n"@;
    let s = head + blank + body;
    let n = head.len() as int;
    assert forall|j: int| 0 <= j < n implies !#[trigger] text::reads(s, blank, j, s.len() as int) by {
        if text::reads(s, blank, j, s.len() as int) {
            let x = s.subrange(j, j + 4);
            assert(x[0] == '\r' && x[1] == '\n' && x[2] == '\r' && x[3] == '\n');
            assert(s[j] == head[j]);
            if j + 4 <= n {
                assert(s[j + 1] == head[j + 1] && s[j + 2] == head[j + 2] && s[j + 3] == head[j + 3]);
            } else if j + 3 == n {
                assert(s[n] == blank[0]);
            } else if j + 2 == n {
                assert(s[j + 1] == head[j + 1]);
            } else {
                assert(s[n] == blank[0]);
            }
        }
    }
    assert(s.subrange(n, n + 4) =~= blank);
    text::next_text_is_there(s, blank, 0, s.len() as int, n);
    assert(s.take(n) =~= head);
    assert(s.skip(n + 4) =~= body);
    let (v, c) = (version.len() as int, code.len() as int);
    let at = v + 1;
    assert(forall|j: int| 0 <= j < v ==> head[j] == version[j]);
    assert(head[v] == ' ');
    assert(forall|j: int| at <= j < at + c ==> head[j] == code[j - at]);
    assert(head[at + c] == tail[0]);
    let end = line_end(head, 0).0;
    lemma_line_feed_behind(head, at + c);
    assert(end >= at + c);
    text::space_is_passed_over(head, 0, end, 0);
    text::a_word_ends_at_a_space(head, 0, end, v);
    text::space_is_passed_over(head, v, end, at);
    text::a_word_ends_at_a_space(head, at, end, at + c);
    assert(head.subrange(at, at + c) =~= code);
}

proof fn lemma_line_feed_behind(s: Seq<char>, at: int)
    requires
        0 < at <= s.len(),
        forall|j: int| 0 <= j < at ==> #[trigger] s[j] != '\n' && s[j] != '\r',
    ensures
        at <= line_end(s, 0).0 <= s.len(),
{
    lemma_next_not_before(s, '\n', 0, s.len() as int, at);
}

proof fn lemma_next_not_before(s: Seq<char>, c: char, i: int, end: int, at: int)
    requires
        0 <= i <= at <= end <= s.len(),
        forall|j: int| i <= j < at ==> #[trigger] s[j] != c,
    ensures
        at <= text::next(s, c, i, end) <= end,
    decreases end - i,
{
    if i < end && s[i] != c {
        if i < at {
            lemma_next_not_before(s, c, i + 1, end, at);
        } else {
            lemma_next_not_before(s, c, i + 1, end, i + 1);
        }
    }
}

/// A request carries its headers: whom it is for, what it asks, how long its body is, and the
/// credentials where there are some.
#[verifier::rlimit(60)]
pub proof fn a_request_carries_its_headers(
    path: Seq<char>,
    host: Seq<char>,
    soap_action: Seq<char>,
    body_bytes: nat,
    auth: Option<Seq<char>>,
)
    ensures
        soap_request_head(path, host, soap_action, body_bytes, auth) == "POST "@ + path
            + " HTTP/1.1\r\n"@ + header_lines(
            seq![
                ("Host"@, host),
                ("Content-Type"@, "text/xml; charset=\"utf-8\""@),
                ("SOAPAction"@, soap_action),
                ("Content-Length"@, text::decimal(body_bytes)),
                ("Connection"@, "close"@),
            ],
        ) + (match auth {
            Some(a) => header_lines(seq![("Authorization"@, a)]),
            None => Seq::empty(),
        }) + "\r\n"@,
{
    reveal_with_fuel(header_lines, 6);
    let size = text::decimal(body_bytes);
    let headers = seq![
        ("Host"@, host),
        ("Content-Type"@, "text/xml; charset=\"utf-8\""@),
        ("SOAPAction"@, soap_action),
        ("Content-Length"@, size),
        ("Connection"@, "close"@),
    ];
    let h1 = headers.drop_first();
    let h2 = h1.drop_first();
    let h3 = h2.drop_first();
    let h4 = h3.drop_first();
    assert(h1[0] == headers[1] && h2[0] == headers[2] && h3[0] == headers[3] && h4[0]
        == headers[4]);
    assert(h4.drop_first().len() == 0);
    reveal_strlit("POST ");
    reveal_strlit(" HTTP/1.1\r\n");
    reveal_strlit(" HTTP/1.1\r\nHost: ");
    reveal_strlit("Host");
    reveal_strlit("Content-Type");
    reveal_strlit("text/xml; charset=\"utf-8\"");
    reveal_strlit("SOAPAction");
    reveal_strlit("Content-Length");
    reveal_strlit("Connection");
    reveal_strlit("close");
    reveal_strlit("Authorization");
    reveal_strlit("Authorization: ");
    reveal_strlit("\r\n");
    reveal_strlit("\r\nContent-Type: text/xml; charset=\"utf-8\"\r\nSOAPAction: ");
    reveal_strlit("\r\nContent-Length: ");
    reveal_strlit("\r\nConnection: close\r\n");
    let feed = seq!['\r', '\n'];
    let colon = seq![':', ' '];
    let line_type = "Content-Type"@ + colon + "text/xml; charset=\"utf-8\""@ + feed;
    let line_end = "Connection"@ + colon + "close"@ + feed;
    assert(" HTTP/1.1\r\nHost: "@ =~= " HTTP/1.1\r\n"@ + "Host"@ + colon);
    assert("\r\nContent-Type: text/xml; charset=\"utf-8\"\r\nSOAPAction: "@ =~= feed + line_type
        + "SOAPAction"@ + colon);
    assert("\r\nContent-Length: "@ =~= feed + "Content-Length"@ + colon);
    assert("\r\nConnection: close\r\n"@ =~= feed + line_end);
    assert("Authorization: "@ =~= "Authorization"@ + colon);
    assert("\r\n"@ =~= feed);
    let lines = header_lines(headers);
    assert(lines =~= "Host"@ + colon + host + feed + (line_type + ("SOAPAction"@ + colon + soap_action
        + feed + ("Content-Length"@ + colon + size + feed + line_end))));
    let credentials = match auth {
        Some(a) => header_lines(seq![("Authorization"@, a)]),
        None => Seq::empty(),
    };
    if let Some(a) = auth {
        let one = seq![("Authorization"@, a)];
        assert(one.drop_first().len() == 0);
        assert(credentials =~= "Authorization: "@ + a + "\r\n"@);
    }
    assert(soap_request_head(path, host, soap_action, body_bytes, auth) =~= "POST "@ + path
        + " HTTP/1.1\r\n"@ + lines + credentials + "\r\n"@);
}

} // verus!
