//! Minimal SOAP envelope builder and response scraper for TR-064.
//!
//! TR-064 responses are flat, a single level of `<NewSomething>value</NewSomething>` inside the
//! action response, so a tag scraper is enough. Everything here is total: malformed input
//! returns an error, never a panic.
use crate::fixed;
use crate::text;
use crate::tr064::Error;
use vstd::prelude::*;

verus! {

/// A TR-064 action: which service, where to POST it, and what it is called.
#[derive(Debug, Clone, Copy, PartialEq, Eq)]
pub struct Action {
    /// e.g. `urn:dslforum-org:service:Hosts:1`
    pub service: &'static str,
    /// e.g. `/upnp/control/hosts`
    pub control_url: &'static str,
    /// e.g. `GetSpecificHostEntry`
    pub name: &'static str,
}

/// Whether `r` is a text in `N` bytes, or says that it did not fit.
pub open spec fn fits<const N: usize>(
    text: Seq<char>,
    r: Result<heapless::String<N>, Error>,
) -> bool {
    if fixed::byte_len(text) <= N {
        r is Ok && fixed::holds(r->Ok_0, text)
    } else {
        r == Err::<heapless::String<N>, Error>(Error::BufferFull)
    }
}

/// A text in `N` bytes, or an error where it does not fit: never a truncated result.
pub fn fit<const N: usize>(t: &str) -> (r: Result<heapless::String<N>, Error>)
    ensures
        fits(t@, r),
{
    match fixed::fit(t) {
        Some(s) => Ok(s),
        None => Err(Error::BufferFull),
    }
}

impl Action {
    /// The value for the `SOAPAction` HTTP header: `service#name`.
    pub open spec fn header_value(self) -> Seq<char> {
        self.service@ + "#"@ + self.name@
    }

    /// The value for the `SOAPAction` HTTP header: `service#name`.
    pub fn soap_action<const N: usize>(&self) -> (r: Result<heapless::String<N>, Error>)
        ensures
            fits(self.header_value(), r),
    {
        let mut s = String::new();
        s.append(self.service);
        s.append("#");
        s.append(self.name);
        assert(s@ =~= self.header_value());
        fit(s.as_str())
    }
}

/// A character as it may stand in XML text: the five predefined entities escaped.
pub open spec fn entity(c: char) -> Seq<char> {
    if c == '&' {
        "&amp;"@
    } else if c == '<' {
        "&lt;"@
    } else if c == '>' {
        "&gt;"@
    } else if c == '"' {
        "&quot;"@
    } else if c == '\'' {
        "&apos;"@
    } else {
        seq![c]
    }
}

/// A text as it may stand in XML text.
pub open spec fn escaped(s: Seq<char>) -> Seq<char>
    decreases s.len(),
{
    if s.len() == 0 {
        Seq::empty()
    } else {
        escaped(s.drop_last()) + entity(s.last())
    }
}

/// Escape the five XML predefined entities.
fn write_escaped(out: &mut String, value: &str)
    ensures
        final(out)@ == old(out)@ + escaped(value@),
{
    let chars: Vec<char> = text::chars_of(value);
    let mut i: usize = 0;
    assert(value@.take(0) =~= Seq::<char>::empty());
    assert(out@ =~= old(out)@ + escaped(value@.take(0)));
    while i < chars.len()
        invariant
            i <= chars@.len(),
            chars@ == value@,
            out@ == old(out)@ + escaped(value@.take(i as int)),
        decreases chars@.len() - i,
    {
        let c: char = chars[i];
        let ghost so_far = out@;
        if c == '&' {
            out.append("&amp;");
        } else if c == '<' {
            out.append("&lt;");
        } else if c == '>' {
            out.append("&gt;");
        } else if c == '"' {
            out.append("&quot;");
        } else if c == '\'' {
            out.append("&apos;");
        } else {
            out.append(value.substring_char(i, i + 1));
            assert(value@.subrange(i as int, i + 1) =~= seq![c]);
        }
        proof {
            assert(out@ == so_far + entity(c));
            assert(value@.take(i + 1).drop_last() =~= value@.take(i as int));
            assert(value@.take(i + 1).last() == c);
            assert(out@ =~= old(out)@ + escaped(value@.take(i + 1)));
        }
        i += 1;
    }
    assert(value@.take(i as int) =~= value@);
}

/// What escaping leaves behind cannot open or close a tag or an attribute.
pub proof fn escaping_leaves_no_markup(s: Seq<char>, i: int)
    requires
        0 <= i < escaped(s).len(),
    ensures
        escaped(s)[i] != '<',
        escaped(s)[i] != '>',
        escaped(s)[i] != '"',
        escaped(s)[i] != '\'',
    decreases s.len(),
{
    let rest = escaped(s.drop_last());
    let c = s.last();
    reveal_strlit("&amp;");
    reveal_strlit("&lt;");
    reveal_strlit("&gt;");
    reveal_strlit("&quot;");
    reveal_strlit("&apos;");
    if i < rest.len() {
        escaping_leaves_no_markup(s.drop_last(), i);
    } else {
        assert(escaped(s)[i] == entity(c)[i - rest.len()]);
    }
}

/// One argument of an action.
pub open spec fn argument(key: Seq<char>, value: Seq<char>) -> Seq<char> {
    "<"@ + key + ">"@ + escaped(value) + "</"@ + key + ">"@
}

/// The first `n` arguments of an action.
pub open spec fn arguments(args: Seq<(&str, &str)>, n: nat) -> Seq<char>
    decreases n,
{
    if n == 0 {
        Seq::empty()
    } else {
        arguments(args, (n - 1) as nat) + argument(args[n - 1].0@, args[n - 1].1@)
    }
}

/// A complete SOAP envelope.
pub open spec fn envelope_text(action: Action, args: Seq<(&str, &str)>) -> Seq<char> {
    "<?xml version=\"1.0\" encoding=\"utf-8\"?>"@
        + "<s:Envelope xmlns:s=\"http://schemas.xmlsoap.org/soap/envelope/\" s:encodingStyle=\"http://schemas.xmlsoap.org/soap/encoding/\"><s:Body>"@
        + "<u:"@ + action.name@ + " xmlns:u=\""@ + action.service@ + "\">"@ + arguments(
        args,
        args.len(),
    ) + "</u:"@ + action.name@ + ">"@ + "</s:Body></s:Envelope>"@
}

/// Build a complete SOAP envelope for `action` with the given arguments.
pub fn envelope<const N: usize>(action: &Action, args: &[(&str, &str)]) -> (r: Result<
    heapless::String<N>,
    Error,
>)
    ensures
        fits(envelope_text(*action, args@), r),
{
    let mut s = String::new();
    s.append("<?xml version=\"1.0\" encoding=\"utf-8\"?>");
    s.append(
        "<s:Envelope xmlns:s=\"http://schemas.xmlsoap.org/soap/envelope/\" s:encodingStyle=\"http://schemas.xmlsoap.org/soap/encoding/\"><s:Body>",
    );
    s.append("<u:");
    s.append(action.name);
    s.append(" xmlns:u=\"");
    s.append(action.service);
    s.append("\">");
    let ghost head = s@;
    let mut i: usize = 0;
    assert(s@ =~= head + arguments(args@, 0));
    while i < args.len()
        invariant
            i <= args@.len(),
            s@ == head + arguments(args@, i as nat),
        decreases args@.len() - i,
    {
        let (k, v): (&str, &str) = args[i];
        s.append("<");
        s.append(k);
        s.append(">");
        write_escaped(&mut s, v);
        s.append("</");
        s.append(k);
        s.append(">");
        assert(s@ =~= head + (arguments(args@, i as nat) + argument(k@, v@)));
        i += 1;
    }
    s.append("</u:");
    s.append(action.name);
    s.append(">");
    s.append("</s:Body></s:Envelope>");
    assert(s@ =~= envelope_text(*action, args@));
    fit(s.as_str())
}

/// Where the first word between `i` and `end` lies, or everything where there is none.
pub open spec fn first_word(s: Seq<char>, i: int, end: int) -> (int, int) {
    let a = text::skip_space(s, i, end);
    if a >= end {
        (i, end)
    } else {
        (a, text::next_space(s, a, end))
    }
}

/// The position behind the last colon between `i` and `end`, or `i` where there is none.
pub open spec fn after_last_colon(s: Seq<char>, i: int, end: int) -> int
    decreases end - i,
{
    if end <= i {
        i
    } else if s[end - 1] == ':' {
        end
    } else {
        after_last_colon(s, i, end - 1)
    }
}

/// Where the name of an element lies in its opening tag: the first word, without the slash of
/// an empty element and without a namespace prefix.
pub open spec fn local_name(s: Seq<char>, i: int, end: int) -> (int, int) {
    let (a, b) = first_word(s, i, end);
    let b = if b > a && s[b - 1] == '/' {
        b - 1
    } else {
        b
    };
    (after_last_colon(s, a, b), b)
}

/// Whether what stands between `<` and `>` opens the element `tag`, rather than closing one or
/// being a declaration or a comment.
pub open spec fn opens(s: Seq<char>, i: int, end: int, tag: Seq<char>) -> bool {
    &&& !(i < end && (s[i] == '/' || s[i] == '?' || s[i] == '!'))
    &&& s.subrange(local_name(s, i, end).0, local_name(s, i, end).1) == tag
}

/// Where the content of the first element `tag` from `at` on lies: from behind the tag that
/// opens it to the next closing tag.
pub open spec fn content(s: Seq<char>, tag: Seq<char>, at: int) -> Option<(int, int)>
    decreases s.len() - at,
{
    let len = s.len() as int;
    let open = text::next(s, '<', at, len);
    let close = text::next(s, '>', open + 1, len);
    if at < 0 || open < at || open >= len || close <= open || close >= len {
        None
    } else if !opens(s, open + 1, close, tag) {
        content(s, tag, close + 1)
    } else {
        let end = text::next_text(s, "</"@, close + 1, len);
        if end < len {
            Some((close + 1, end))
        } else {
            None
        }
    }
}

/// The content of the first element `tag` in a response.
pub open spec fn element(xml: Seq<char>, tag: Seq<char>) -> Option<Seq<char>> {
    match content(xml, tag, 0) {
        Some((a, b)) => Some(xml.subrange(a, b)),
        None => None,
    }
}

fn past_last_colon(s: &[char], i: usize, end: usize) -> (r: usize)
    requires
        i <= end <= s@.len(),
    ensures
        r == after_last_colon(s@, i as int, end as int),
        i <= r <= end,
{
    let mut k: usize = end;
    while k > i
        invariant
            i <= k <= end <= s@.len(),
            after_last_colon(s@, i as int, end as int) == after_last_colon(s@, i as int, k as int),
        decreases k,
    {
        if s[k - 1] == ':' {
            return k;
        }
        k -= 1;
    }
    i
}

fn names(s: &[char], i: usize, end: usize, tag: &[char]) -> (r: bool)
    requires
        i <= end <= s@.len(),
    ensures
        r == opens(s@, i as int, end as int, tag@),
{
    if i < end && (s[i] == '/' || s[i] == '?' || s[i] == '!') {
        return false;
    }
    let a: usize = text::past_space(s, i, end);
    let (a, b): (usize, usize) = if a >= end {
        (i, end)
    } else {
        (a, text::find_space(s, a, end))
    };
    let b: usize = if b > a && s[b - 1] == '/' {
        b - 1
    } else {
        b
    };
    let from: usize = past_last_colon(s, a, b);
    text::is_text(s, tag, from, b)
}

/// Where the content of the first element `tag` lies.
fn locate(s: &[char], tag: &[char]) -> (r: Option<(usize, usize)>)
    ensures
        match content(s@, tag@, 0) {
            Some((a, b)) => r is Some && (r->0).0 == a && (r->0).1 == b && a <= b <= s@.len(),
            None => r is None,
        },
{
    let len: usize = s.len();
    let closing: Vec<char> = text::chars_of("</");
    let mut at: usize = 0;
    loop
        invariant
            at <= len == s@.len(),
            closing@ == "</"@,
            content(s@, tag@, 0) == content(s@, tag@, at as int),
        decreases len - at,
    {
        let open: usize = text::find(s, '<', at, len);
        if open >= len {
            return None;
        }
        let close: usize = text::find(s, '>', open + 1, len);
        if close >= len {
            return None;
        }
        if names(s, open + 1, close, tag) {
            let end: usize = text::find_text(s, closing.as_slice(), close + 1, len);
            if end < len {
                return Some((close + 1, end));
            }
            return None;
        }
        at = close + 1;
    }
}

/// Pull the text content of the first `<tag>…</tag>` out of a response.
///
/// Namespace prefixes are ignored: `<NewIPAddress>` and `<u:NewIPAddress>` both match.
pub fn extract<'a>(xml: &'a str, tag: &str) -> (r: Option<&'a str>)
    ensures
        match element(xml@, tag@) {
            Some(t) => r is Some && r->0@ == t,
            None => r is None,
        },
{
    let chars: Vec<char> = text::chars_of(xml);
    let name: Vec<char> = text::chars_of(tag);
    match locate(chars.as_slice(), name.as_slice()) {
        None => None,
        Some((a, b)) => Some(xml.substring_char(a, b)),
    }
}

/// Whether a text reads `word` somewhere.
pub open spec fn mentions(s: Seq<char>, word: Seq<char>) -> bool {
    text::next_text(s, word, 0, s.len() as int) < s.len()
}

/// The UPnP error code of a SOAP Fault.
pub open spec fn fault_of(xml: Seq<char>) -> Option<nat> {
    if !mentions(xml, "Fault"@) {
        None
    } else {
        match element(xml, "errorCode"@) {
            Some(t) => text::number(text::trim(t), u16::MAX as nat),
            None => None,
        }
    }
}

/// TR-064 signals failure as a SOAP Fault carrying a UPnP `errorCode`.
pub fn fault_code(xml: &str) -> (r: Option<u16>)
    ensures
        match fault_of(xml@) {
            Some(c) => r is Some && r->0 == c,
            None => r is None,
        },
{
    let chars: Vec<char> = text::chars_of(xml);
    let word: Vec<char> = text::chars_of("Fault");
    if text::find_text(chars.as_slice(), word.as_slice(), 0, chars.len()) >= chars.len() {
        return None;
    }
    match extract(xml, "errorCode") {
        None => None,
        Some(t) => {
            let code: Vec<char> = text::chars_of(t);
            let (a, b) = text::trim_range(code.as_slice(), 0, code.len());
            match text::parse_number(code.as_slice(), a, b, 0xffff) {
                Some(n) => Some(n as u16),
                None => None,
            }
        },
    }
}

/// What a TR-064 boolean says.
pub open spec fn truth(value: Seq<char>) -> Option<bool> {
    let t = text::trim(value);
    if t == "1"@ || t == "true"@ || t == "True"@ {
        Some(true)
    } else if t == "0"@ || t == "false"@ || t == "False"@ {
        Some(false)
    } else {
        None
    }
}

/// Whether the text between `i` and `end` is `word`.
fn is(s: &Vec<char>, i: usize, end: usize, word: &str) -> (r: bool)
    requires
        i <= end <= s@.len(),
    ensures
        r == (s@.subrange(i as int, end as int) == word@),
{
    let w: Vec<char> = text::chars_of(word);
    text::is_text(s.as_slice(), w.as_slice(), i, end)
}

/// Parse the `1`/`0` booleans TR-064 uses. Also accepts `true`/`false`, which some firmware
/// versions emit.
pub fn parse_bool(value: &str) -> (r: Result<bool, Error>)
    ensures
        match truth(value@) {
            Some(b) => r == Ok::<bool, Error>(b),
            None => r == Err::<bool, Error>(Error::InvalidBool),
        },
{
    let s: Vec<char> = text::chars_of(value);
    let (a, b) = text::trim_range(s.as_slice(), 0, s.len());
    proof {
        reveal_strlit("1");
        reveal_strlit("0");
        reveal_strlit("true");
        reveal_strlit("True");
        reveal_strlit("false");
        reveal_strlit("False");
        assert("1"@[0] == '1' && "0"@[0] == '0' && "true"@[0] == 't' && "True"@[0] == 'T');
    }
    if is(&s, a, b, "1") || is(&s, a, b, "true") || is(&s, a, b, "True") {
        Ok(true)
    } else if is(&s, a, b, "0") || is(&s, a, b, "false") || is(&s, a, b, "False") {
        Ok(false)
    } else {
        Err(Error::InvalidBool)
    }
}

/// What a required field holds: a fault comes first, then a missing field.
pub open spec fn required(xml: Seq<char>, tag: &'static str) -> Result<Seq<char>, Error> {
    match fault_of(xml) {
        Some(code) => Err(Error::SoapFault(code as u16)),
        None => match element(xml, tag@) {
            Some(t) => Ok(t),
            None => Err(Error::MissingField(tag)),
        },
    }
}

/// Read a required field out of a response, mapping a SOAP Fault to a typed error.
pub fn require<'a>(xml: &'a str, tag: &'static str) -> (r: Result<&'a str, Error>)
    ensures
        match required(xml@, tag) {
            Ok(t) => r is Ok && r->Ok_0@ == t,
            Err(e) => r is Err && r->Err_0 == e,
        },
{
    if let Some(code) = fault_code(xml) {
        return Err(Error::SoapFault(code));
    }
    match extract(xml, tag) {
        Some(t) => Ok(t),
        None => Err(Error::MissingField(tag)),
    }
}

/// Whether a text can name an element: no markup, no white space, no namespace.
pub open spec fn names_an_element(name: Seq<char>) -> bool {
    &&& name.len() > 0
    &&& forall|i: int|
        0 <= i < name.len() ==> !text::is_space(#[trigger] name[i]) && name[i] != ':' && name[i]
            != '<' && name[i] != '>' && name[i] != '/' && name[i] != '?' && name[i] != '!'
}

/// Where a tag lies.
#[verifier::rlimit(60)]
proof fn lemma_tag_lies(s: Seq<char>, at: int, gap: Seq<char>, x: Seq<char>, rest: Seq<char>)
    requires
        0 <= at <= s.len(),
        s.skip(at) == gap + seq!['<'] + x + seq!['>'] + rest,
        !gap.contains('<'),
        !x.contains('>'),
    ensures
        ({
            let open = at + gap.len();
            let close = open + 1 + x.len();
            &&& close < s.len()
            &&& text::next(s, '<', at, s.len() as int) == open
            &&& text::next(s, '>', open + 1, s.len() as int) == close
            &&& s.subrange(open + 1, close) == x
            &&& s.skip(close + 1) == rest
        }),
{
    let (g, n) = (gap.len() as int, x.len() as int);
    let open = at + g;
    let close = open + 1 + n;
    let t = gap + seq!['<'] + x + seq!['>'] + rest;
    assert(s.skip(at).len() == s.len() - at);
    assert forall|j: int| 0 <= j < t.len() implies s[at + j] == #[trigger] t[j] by {
        assert(s.skip(at)[j] == t[j]);
    }
    assert forall|j: int| at <= j < open implies #[trigger] s[j] != '<' by {
        assert(s[at + (j - at)] == t[j - at]);
        assert(t[j - at] == gap[j - at]);
        assert(gap.contains(gap[j - at]));
    }
    assert(t[g] == '<');
    assert(s[at + g] == t[g]);
    text::next_is_there(s, '<', at, s.len() as int, open);
    assert forall|j: int| open < j < close implies s[j] == x[j - open - 1] by {
        assert(s[at + (j - at)] == t[j - at]);
        assert(t[j - at] == x[j - open - 1]);
    }
    assert forall|j: int| open + 1 <= j < close implies #[trigger] s[j] != '>' by {
        assert(x.contains(x[j - open - 1]));
    }
    assert(t[g + 1 + n] == '>');
    assert(s[at + (g + 1 + n)] == t[g + 1 + n]);
    text::next_is_there(s, '>', open + 1, s.len() as int, close);
    assert(s.subrange(open + 1, close) =~= x);
    assert(s.skip(close + 1) =~= rest) by {
        assert forall|j: int| 0 <= j < rest.len() implies s[close + 1 + j] == rest[j] by {
            assert(s[at + (g + 2 + n + j)] == t[g + 2 + n + j]);
        }
    }
}

proof fn lemma_after_last_colon(s: Seq<char>, i: int, end: int, at: int)
    requires
        i <= at <= end,
        forall|j: int| at <= j < end ==> #[trigger] s[j] != ':',
        at == i || s[at - 1] == ':',
    ensures
        after_last_colon(s, i, end) == at,
    decreases end - at,
{
    if at < end {
        assert(s[end - 1] != ':');
        lemma_after_last_colon(s, i, end - 1, at);
    }
}

/// A tag opens the element that it names, whatever its namespace and its attributes.
#[verifier::rlimit(60)]
pub proof fn a_tag_opens_what_it_names(
    s: Seq<char>,
    i: int,
    end: int,
    prefix: Seq<char>,
    name: Seq<char>,
    attributes: Seq<char>,
    tag: Seq<char>,
)
    requires
        0 <= i <= end <= s.len(),
        s.subrange(i, end) == prefix + name + attributes,
        names_an_element(name),
        prefix.len() == 0 || (prefix.len() > 1 && prefix.last() == ':' && names_an_element(
            prefix.drop_last(),
        )),
        attributes.len() == 0 || text::is_space(attributes[0]),
    ensures
        opens(s, i, end, tag) <==> name == tag,
{
    let t = prefix + name + attributes;
    let (p, n) = (prefix.len() as int, name.len() as int);
    assert(s.subrange(i, end).len() == end - i);
    assert forall|j: int| 0 <= j < t.len() implies s[i + j] == #[trigger] t[j] by {
        assert(s.subrange(i, end)[j] == t[j]);
    }
    assert forall|j: int| i <= j < i + p + n implies !text::is_space(#[trigger] s[j]) by {
        assert(s[i + (j - i)] == t[j - i]);
        if j - i < p - 1 {
            assert(t[j - i] == prefix.drop_last()[j - i]);
        } else if j - i < p {
            assert(t[j - i] == prefix.last());
        } else {
            assert(t[j - i] == name[j - i - p]);
        }
    }
    if attributes.len() > 0 {
        assert(t[p + n] == attributes[0]);
        assert(s[i + (p + n)] == t[p + n]);
    }
    text::space_is_passed_over(s, i, end, i);
    text::a_word_ends_at_a_space(s, i, end, i + p + n);
    assert(t[p + n - 1] == name[n - 1]);
    assert(s[i + (p + n - 1)] == t[p + n - 1]);
    assert forall|j: int| i + p <= j < i + p + n implies #[trigger] s[j] != ':' by {
        assert(s[i + (j - i)] == t[j - i]);
        assert(t[j - i] == name[j - i - p]);
    }
    if p > 0 {
        assert(t[p - 1] == prefix.last());
        assert(s[i + (p - 1)] == t[p - 1]);
    }
    lemma_after_last_colon(s, i, i + p + n, i + p);
    assert(local_name(s, i, end) == (i + p, i + p + n));
    assert(s.subrange(i + p, i + p + n) =~= name) by {
        assert forall|j: int| 0 <= j < n implies s[i + p + j] == name[j] by {
            assert(s[i + (p + j)] == t[p + j]);
        }
    }
    assert(s[i + 0] == t[0]);
    if p > 0 {
        assert(t[0] == prefix.drop_last()[0]);
    } else {
        assert(t[0] == name[0]);
    }
}

/// What an element holds is read out up to its closing tag, and whatever comes before it in the
/// elements of other names is passed over.
#[verifier::rlimit(60)]
pub proof fn an_argument_is_read_out(
    s: Seq<char>,
    at: int,
    args: Seq<(&str, &str)>,
    from: nat,
    k: nat,
    rest: Seq<char>,
)
    requires
        0 <= at <= s.len(),
        from <= k < args.len(),
        forall|j: int| 0 <= j < args.len() ==> names_an_element((#[trigger] args[j]).0@),
        forall|j: int| 0 <= j < k ==> (#[trigger] args[j]).0@ != args[k as int].0@,
        s.skip(at) == arguments_from(args, from) + rest,
    ensures
        content(s, args[k as int].0@, at) is Some,
        ({
            let (a, b) = content(s, args[k as int].0@, at)->0;
            &&& 0 <= a <= b <= s.len()
            &&& s.subrange(a, b) == escaped(args[k as int].1@)
        }),
    decreases k - from,
{
    reveal_strlit("<");
    reveal_strlit(">");
    reveal_strlit("</");
    let key = args[from as int].0@;
    let value = escaped(args[from as int].1@);
    let tag = args[k as int].0@;
    let more = arguments_from(args, from + 1) + rest;
    let none = Seq::<char>::empty();
    let closing = seq!['/'] + key;
    let behind = value + seq!['<'] + closing + seq!['>'] + more;
    assert(!none.contains('<'));
    assert(names_an_element(args[from as int].0@));
    assert(s.skip(at) =~= none + seq!['<'] + key + seq!['>'] + behind);
    assert(!key.contains('>'));
    lemma_tag_lies(s, at, none, key, behind);
    let inside = at + 1 + key.len() + 1;
    assert(key =~= none + key + none);
    a_tag_opens_what_it_names(s, at + 1, at + 1 + key.len(), none, key, none, tag);
    assert forall|j: int| 0 <= j < value.len() implies #[trigger] value[j] != '<' by {
        escaping_leaves_no_markup(args[from as int].1@, j);
    }
    assert(!value.contains('<'));
    assert(!closing.contains('>')) by {
        assert forall|j: int| 0 <= j < closing.len() implies closing[j] != '>' by {
            if j > 0 {
                assert(closing[j] == key[j - 1]);
            }
        }
    }
    lemma_tag_lies(s, inside, value, closing, more);
    let end = inside + value.len();
    if from == k {
        assert forall|j: int| inside <= j < end implies !#[trigger] text::reads(
            s,
            "</"@,
            j,
            s.len() as int,
        ) by {
            if text::reads(s, "</"@, j, s.len() as int) {
                assert(s.subrange(j, j + 2)[0] == '<');
                assert(s[j] == s.skip(inside)[j - inside]);
                assert(behind[j - inside] == value[j - inside]);
            }
        }
        assert(s.subrange(end, end + 2) =~= "</"@) by {
            assert(s[end] == s.skip(inside)[value.len() as int]);
            assert(s[end + 1] == s.skip(inside)[value.len() as int + 1]);
            assert(behind[value.len() as int] == '<');
            assert(behind[value.len() as int + 1] == closing[0]);
        }
        text::next_text_is_there(s, "</"@, inside, s.len() as int, end);
        assert(s.subrange(inside, end) =~= value) by {
            assert forall|j: int| 0 <= j < value.len() implies s[inside + j] == value[j] by {
                assert(s[inside + j] == s.skip(inside)[j]);
                assert(behind[j] == value[j]);
            }
        }
    } else {
        let next = end + 1 + closing.len() + 1;
        assert(content(s, tag, at) == content(s, tag, inside));
        assert(s[end + 1] == '/') by {
            assert(s[end + 1] == s.subrange(end + 1, end + 1 + closing.len())[0]);
        }
        assert(!opens(s, end + 1, end + 1 + closing.len(), tag));
        assert(content(s, tag, inside) == content(s, tag, next));
        an_argument_is_read_out(s, next, args, from + 1, k, rest);
    }
}

/// The arguments of an action from the `n`-th on.
pub open spec fn arguments_from(args: Seq<(&str, &str)>, n: nat) -> Seq<char>
    decreases args.len() - n,
{
    if n >= args.len() {
        Seq::empty()
    } else {
        argument(args[n as int].0@, args[n as int].1@) + arguments_from(args, n + 1)
    }
}

proof fn lemma_arguments_in_two(args: Seq<(&str, &str)>, n: nat)
    requires
        n <= args.len(),
    ensures
        arguments(args, args.len()) == arguments(args, n) + arguments_from(args, n),
    decreases args.len() - n,
{
    if n < args.len() {
        lemma_arguments_in_two(args, n + 1);
        assert(arguments(args, n + 1) == arguments(args, n) + argument(
            args[n as int].0@,
            args[n as int].1@,
        ));
        assert(arguments(args, n) + arguments_from(args, n) =~= arguments(args, n + 1)
            + arguments_from(args, n + 1));
    } else {
        assert(arguments(args, n) + arguments_from(args, n) =~= arguments(args, n));
    }
}

#[verifier::rlimit(60)]
proof fn lemma_envelope_opens(s: Seq<char>, inner: Seq<char>, tag: Seq<char>)
    requires
        tag != "Envelope"@,
        tag != "Body"@,
        s == "<?xml version=\"1.0\" encoding=\"utf-8\"?>"@
            + "<s:Envelope xmlns:s=\"http://schemas.xmlsoap.org/soap/envelope/\" s:encodingStyle=\"http://schemas.xmlsoap.org/soap/encoding/\"><s:Body>"@
            + inner,
    ensures
        exists|at: int|
            0 <= at <= s.len() && s.skip(at) == inner && #[trigger] content(s, tag, at) == content(
                s,
                tag,
                0,
            ),
{
    reveal_strlit("<?xml version=\"1.0\" encoding=\"utf-8\"?>");
    reveal_strlit(
        "<s:Envelope xmlns:s=\"http://schemas.xmlsoap.org/soap/envelope/\" s:encodingStyle=\"http://schemas.xmlsoap.org/soap/encoding/\"><s:Body>",
    );
    reveal_strlit("Envelope");
    reveal_strlit("Body");
    let none = Seq::<char>::empty();
    let first = "<?xml version=\"1.0\" encoding=\"utf-8\"?>"@;
    let second =
        "<s:Envelope xmlns:s=\"http://schemas.xmlsoap.org/soap/envelope/\" s:encodingStyle=\"http://schemas.xmlsoap.org/soap/encoding/\"><s:Body>"@;
    let n = second.len() as int;
    let decl = first.subrange(1, first.len() - 1);
    let attributes = second.subrange(11, n - 9);
    let envelope = seq!['s', ':'] + "Envelope"@ + attributes;
    let body = seq!['s', ':'] + "Body"@;
    assert(!none.contains('<'));
    assert(forall|j: int| 0 <= j < decl.len() ==> decl[j] != '>');
    assert(!decl.contains('>'));
    assert(s.skip(0) =~= none + seq!['<'] + decl + seq!['>'] + (second + inner));
    lemma_tag_lies(s, 0, none, decl, second + inner);
    let at1 = first.len() as int;
    assert(s[1] == '?');
    assert(content(s, tag, 0) == content(s, tag, at1));
    assert(forall|j: int| 0 <= j < attributes.len() ==> attributes[j] != '>');
    assert(!envelope.contains('>'));
    let third = seq!['<'] + body + seq!['>'] + inner;
    assert(second + inner =~= none + seq!['<'] + envelope + seq!['>'] + third);
    lemma_tag_lies(s, at1, none, envelope, third);
    assert(seq!['s', ':'].drop_last() =~= seq!['s']);
    a_tag_opens_what_it_names(
        s,
        at1 + 1,
        at1 + 1 + envelope.len(),
        seq!['s', ':'],
        "Envelope"@,
        attributes,
        tag,
    );
    let at2 = at1 + envelope.len() + 2;
    assert(content(s, tag, at1) == content(s, tag, at2));
    assert(!body.contains('>'));
    assert(third =~= none + seq!['<'] + body + seq!['>'] + inner);
    lemma_tag_lies(s, at2, none, body, inner);
    assert(body =~= seq!['s', ':'] + "Body"@ + none);
    a_tag_opens_what_it_names(
        s,
        at2 + 1,
        at2 + 1 + body.len(),
        seq!['s', ':'],
        "Body"@,
        none,
        tag,
    );
    let at3 = at2 + body.len() + 2;
    assert(content(s, tag, at2) == content(s, tag, at3));
    assert(s.skip(at3) == inner);
}

/// The tag that opens an action.
spec fn action_tag(action: Action) -> Seq<char> {
    seq!['u', ':'] + action.name@ + (" xmlns:u=\""@ + action.service@ + seq!['"'])
}

/// What follows the arguments of an action.
spec fn action_end(action: Action) -> Seq<char> {
    "</u:"@ + action.name@ + ">"@ + "</s:Body></s:Envelope>"@
}

#[verifier::rlimit(60)]
proof fn lemma_envelope_text(action: Action, args: Seq<(&str, &str)>)
    ensures
        envelope_text(action, args) == "<?xml version=\"1.0\" encoding=\"utf-8\"?>"@
            + "<s:Envelope xmlns:s=\"http://schemas.xmlsoap.org/soap/envelope/\" s:encodingStyle=\"http://schemas.xmlsoap.org/soap/encoding/\"><s:Body>"@
            + (Seq::<char>::empty() + seq!['<'] + action_tag(action) + seq!['>'] + (arguments(
            args,
            args.len(),
        ) + action_end(action))),
{
    reveal_strlit("<u:");
    reveal_strlit("\">");
    let none = Seq::<char>::empty();
    let first = "<?xml version=\"1.0\" encoding=\"utf-8\"?>"@;
    let second =
        "<s:Envelope xmlns:s=\"http://schemas.xmlsoap.org/soap/envelope/\" s:encodingStyle=\"http://schemas.xmlsoap.org/soap/encoding/\"><s:Body>"@;
    let all = arguments(args, args.len());
    let tag = none + seq!['<'] + action_tag(action) + seq!['>'];
    assert("<u:"@ + action.name@ + " xmlns:u=\""@ + action.service@ + "\">"@ =~= tag);
    assert(envelope_text(action, args) =~= first + second + (tag + (all + action_end(action))));
}

#[verifier::rlimit(60)]
proof fn lemma_action_opens(s: Seq<char>, at: int, action: Action, behind: Seq<char>, tag: Seq<char>)
    requires
        0 <= at <= s.len(),
        names_an_element(action.name@),
        !action.service@.contains('>'),
        tag != action.name@,
        s.skip(at) == Seq::<char>::empty() + seq!['<'] + action_tag(action) + seq!['>'] + behind,
    ensures
        ({
            let next = at + action_tag(action).len() + 2;
            0 <= next <= s.len() && s.skip(next) == behind && content(s, tag, at) == content(
                s,
                tag,
                next,
            )
        }),
{
    reveal_strlit(" xmlns:u=\"");
    let none = Seq::<char>::empty();
    let attributes = " xmlns:u=\""@ + action.service@ + seq!['"'];
    let open = action_tag(action);
    assert(!none.contains('<'));
    assert(!open.contains('>')) by {
        assert forall|j: int| 0 <= j < open.len() implies open[j] != '>' by {
            let n = action.name@.len() as int;
            let m = action.service@.len() as int;
            if 2 <= j < 2 + n {
                assert(open[j] == action.name@[j - 2]);
            } else if j >= 2 + n {
                assert(open[j] == attributes[j - 2 - n]);
                if 10 <= j - 2 - n < 10 + m {
                    assert(attributes[j - 2 - n] == action.service@[j - 12 - n]);
                    assert(action.service@.contains(action.service@[j - 12 - n]));
                }
            }
        }
    }
    lemma_tag_lies(s, at, none, open, behind);
    assert(seq!['u', ':'].drop_last() =~= seq!['u']);
    a_tag_opens_what_it_names(
        s,
        at + 1,
        at + 1 + open.len(),
        seq!['u', ':'],
        action.name@,
        attributes,
        tag,
    );
}

/// An envelope carries its arguments: what stands under the name of each, escaped, is the value that
/// was given for it.
#[verifier::rlimit(60)]
pub proof fn an_envelope_carries_its_arguments(action: Action, args: Seq<(&str, &str)>, k: int)
    requires
        0 <= k < args.len(),
        names_an_element(action.name@),
        !action.service@.contains('>'),
        forall|j: int| 0 <= j < args.len() ==> names_an_element((#[trigger] args[j]).0@),
        forall|j: int| 0 <= j < k ==> (#[trigger] args[j]).0@ != args[k].0@,
        args[k].0@ != action.name@,
        args[k].0@ != "Envelope"@,
        args[k].0@ != "Body"@,
    ensures
        element(envelope_text(action, args), args[k].0@) == Some(escaped(args[k].1@)),
{
    let s = envelope_text(action, args);
    let tag = args[k].0@;
    let behind = arguments(args, args.len()) + action_end(action);
    let inner = Seq::<char>::empty() + seq!['<'] + action_tag(action) + seq!['>'] + behind;
    lemma_envelope_text(action, args);
    lemma_envelope_opens(s, inner, tag);
    let at = choose|at: int|
        0 <= at <= s.len() && s.skip(at) == inner && #[trigger] content(s, tag, at) == content(
            s,
            tag,
            0,
        );
    lemma_action_opens(s, at, action, behind, tag);
    lemma_arguments_in_two(args, 0);
    assert(arguments(args, 0) + arguments_from(args, 0) =~= arguments_from(args, 0));
    an_argument_is_read_out(
        s,
        at + action_tag(action).len() + 2,
        args,
        0,
        k as nat,
        action_end(action),
    );
}

/// A boolean is one of six words, white space around it aside, and says what it says.
pub proof fn a_boolean_is_one_of_six_words(value: Seq<char>)
    ensures
        ({
            let t = text::trim(value);
            &&& truth(value) == Some(true) <==> t == "1"@ || t == "true"@ || t == "True"@
            &&& truth(value) == Some(false) <==> t == "0"@ || t == "false"@ || t == "False"@
        }),
{
    reveal_strlit("1");
    reveal_strlit("0");
    reveal_strlit("true");
    reveal_strlit("True");
    reveal_strlit("false");
    reveal_strlit("False");
    assert("1"@[0] == '1' && "0"@[0] == '0');
    assert("1"@ != "0"@);
    assert("0"@.len() == 1 && "true"@.len() == 4 && "True"@.len() == 4);
    assert("false"@.len() == 5 && "False"@.len() == 5 && "1"@.len() == 1);
}

/// A fault comes before everything else, and where none is told of nothing is one: a response that
/// mentions none is read for what it carries.
pub proof fn a_fault_comes_first(xml: Seq<char>, tag: &'static str)
    ensures
        !mentions(xml, "Fault"@) ==> fault_of(xml) is None,
        fault_of(xml) is Some ==> mentions(xml, "Fault"@) && element(xml, "errorCode"@) is Some
            && text::number(text::trim(element(xml, "errorCode"@)->0), 65_535) == fault_of(xml),
        fault_of(xml) is Some ==> required(xml, tag) == Err::<Seq<char>, Error>(
            Error::SoapFault(fault_of(xml)->0 as u16),
        ),
        fault_of(xml) is None && element(xml, tag@) is Some ==> required(xml, tag) == Ok::<
            Seq<char>,
            Error,
        >(element(xml, tag@)->0),
        fault_of(xml) is None && element(xml, tag@) is None ==> required(xml, tag) == Err::<
            Seq<char>,
            Error,
        >(Error::MissingField(tag)),
{
}

proof fn lemma_escaped_from_the_front(s: Seq<char>)
    requires
        s.len() > 0,
    ensures
        escaped(s) == entity(s[0]) + escaped(s.drop_first()),
    decreases s.len(),
{
    let none = Seq::<char>::empty();
    if s.len() == 1 {
        assert(s.drop_last() =~= none);
        assert(s.drop_first() =~= none);
        assert(none + entity(s[0]) =~= entity(s[0]) + none);
    } else {
        lemma_escaped_from_the_front(s.drop_last());
        assert(s.drop_last().drop_first() =~= s.drop_first().drop_last());
        assert(s.drop_first().last() == s.last());
        assert(escaped(s) =~= entity(s[0]) + escaped(s.drop_first()));
    }
}

/// Escaping can be undone: two texts that are escaped alike are the same. Each of the five characters
/// of markup has the entity that XML gives it, and no other character is touched.
pub proof fn escaping_can_be_undone(a: Seq<char>, b: Seq<char>, c: char)
    ensures
        escaped(a) == escaped(b) ==> a == b,
        entity('&') == "&amp;"@,
        entity('<') == "&lt;"@,
        entity('>') == "&gt;"@,
        entity('"') == "&quot;"@,
        entity('\'') == "&apos;"@,
        c != '&' && c != '<' && c != '>' && c != '"' && c != '\'' ==> entity(c) == seq![c],
    decreases a.len(),
{
    reveal_strlit("&amp;");
    reveal_strlit("&lt;");
    reveal_strlit("&gt;");
    reveal_strlit("&quot;");
    reveal_strlit("&apos;");
    if escaped(a) == escaped(b) {
        if a.len() > 0 {
            lemma_escaped_from_the_front(a);
        }
        if b.len() > 0 {
            lemma_escaped_from_the_front(b);
        }
        if a.len() > 0 && b.len() > 0 {
            let (t, u) = (entity(a[0]), entity(b[0]));
            let (x, y) = (escaped(a), escaped(b));
            assert(x[0] == t[0] && y[0] == u[0]);
            if t.len() > 1 {
                assert(x[1] == t[1] && x[2] == t[2]);
            }
            if u.len() > 1 {
                assert(y[1] == u[1] && y[2] == u[2]);
            }
            assert(a[0] == b[0]);
            assert(escaped(a.drop_first()) =~= x.skip(t.len() as int));
            assert(escaped(b.drop_first()) =~= y.skip(u.len() as int));
            escaping_can_be_undone(a.drop_first(), b.drop_first(), c);
            assert(a =~= seq![a[0]] + a.drop_first());
            assert(b =~= seq![b[0]] + b.drop_first());
        } else {
            if a.len() > 0 {
                assert(escaped(a).len() >= entity(a[0]).len());
                assert(escaped(b).len() == 0);
            }
            if b.len() > 0 {
                assert(escaped(b).len() >= entity(b[0]).len());
                assert(escaped(a).len() == 0);
            }
            assert(a =~= b);
        }
    }
}

} // verus!
