//! LAN admin page: live state, the bonus-minutes override, and the rules.
//!
//! Plain HTTP on the LAN behind Basic auth. What a request asks for and what it is answered are
//! decided here; the socket is the caller's.
use crate::balance::{Flow, Snapshot};
use crate::fixed;
use crate::http;
use crate::notify::Health;
use crate::screen;
use crate::settings::Settings;
use crate::text;
use vstd::prelude::*;

verus! {

/// The characters of base 64, by value.
pub open spec fn alphabet() -> Seq<char> {
    "ABCDEFGHIJKLMNOPQRSTUVWXYZabcdefghijklmnopqrstuvwxyz0123456789+/"@
}

/// The byte at `i`, or zero beyond the end.
pub open spec fn byte_or_zero(b: Seq<u8>, i: int) -> int {
    if i < b.len() {
        b[i] as int
    } else {
        0
    }
}

/// Four characters for up to three bytes.
pub open spec fn group(b: Seq<u8>) -> Seq<char> {
    let n = byte_or_zero(b, 0) * 65_536 + byte_or_zero(b, 1) * 256 + byte_or_zero(b, 2);
    seq![
        alphabet()[n / 262_144],
        alphabet()[n / 4_096 % 64],
        if b.len() < 2 {
            '='
        } else {
            alphabet()[n / 64 % 64]
        },
        if b.len() < 3 {
            '='
        } else {
            alphabet()[n % 64]
        },
    ]
}

/// Bytes in base 64.
pub open spec fn base64(b: Seq<u8>) -> Seq<char>
    decreases b.len(),
{
    if b.len() == 0 {
        Seq::empty()
    } else if b.len() <= 3 {
        group(b)
    } else {
        group(b.take(3)) + base64(b.skip(3))
    }
}

fn push_sextet(out: &mut String, v: u32)
    requires
        v < 64,
    ensures
        final(out)@ == old(out)@.push(alphabet()[v as int]),
{
    proof {
        reveal_strlit("ABCDEFGHIJKLMNOPQRSTUVWXYZabcdefghijklmnopqrstuvwxyz0123456789+/");
    }
    let table: &str = "ABCDEFGHIJKLMNOPQRSTUVWXYZabcdefghijklmnopqrstuvwxyz0123456789+/";
    let c: &str = table.substring_char(v as usize, v as usize + 1);
    assert(c@ =~= seq![alphabet()[v as int]]);
    out.append(c);
    assert(out@ =~= old(out)@.push(alphabet()[v as int]));
}

fn coded(input: &[u8]) -> (out: String)
    ensures
        out@ == base64(input@),
{
    let mut out = String::new();
    let mut i: usize = 0;
    let ghost whole = base64(input@);
    assert(input@.skip(0) =~= input@);
    assert(out@ + base64(input@.skip(0)) =~= whole);
    while i < input.len()
        invariant
            i <= input@.len(),
            out@ + base64(input@.skip(i as int)) == whole,
        decreases input@.len() - i,
    {
        let ghost rest = input@.skip(i as int);
        let ghost before = out@;
        let left: usize = input.len() - i;
        let b0: u32 = input[i] as u32;
        let b1: u32 = if left > 1 {
            input[i + 1] as u32
        } else {
            0
        };
        let b2: u32 = if left > 2 {
            input[i + 2] as u32
        } else {
            0
        };
        let n: u32 = b0 * 65_536 + b1 * 256 + b2;
        proof {
            reveal_strlit("=");
            assert("="@ =~= seq!['=']);
        }
        push_sextet(&mut out, n / 262_144);
        push_sextet(&mut out, n / 4_096 % 64);
        if left < 2 {
            out.append("=");
        } else {
            push_sextet(&mut out, n / 64 % 64);
        }
        if left < 3 {
            out.append("=");
        } else {
            push_sextet(&mut out, n % 64);
        }
        let step: usize = if left < 3 {
            left
        } else {
            3
        };
        proof {
            let chunk = if rest.len() <= 3 {
                rest
            } else {
                rest.take(3)
            };
            assert(out@ =~= before + group(chunk));
            assert(input@.skip(i + step) =~= rest.skip(step as int));
            if rest.len() <= 3 {
                assert(rest.skip(step as int).len() == 0);
                assert(base64(rest.skip(step as int)) =~= Seq::<char>::empty());
                assert(base64(rest) == group(rest));
            } else {
                assert(base64(rest) == group(rest.take(3)) + base64(rest.skip(3)));
            }
            assert(out@ + base64(input@.skip(i + step)) =~= before + base64(rest));
        }
        i = i + step;
    }
    assert(input@.skip(i as int).len() == 0);
    assert(base64(input@.skip(i as int)) =~= Seq::<char>::empty());
    assert(out@ =~= whole);
    out
}

proof fn lemma_base64_is_ascii(b: Seq<u8>)
    ensures
        forall|i: int| 0 <= i < base64(b).len() ==> #[trigger] base64(b)[i] < '\u{80}',
    decreases b.len(),
{
    lemma_alphabet_is_ascii();
    if b.len() > 3 {
        lemma_base64_is_ascii(b.skip(3));
        let rest = base64(b.skip(3));
        assert forall|i: int| 0 <= i < base64(b).len() implies #[trigger] base64(b)[i] < '\u{80}' by {
            if i >= 4 {
                assert(base64(b)[i] == rest[i - 4]);
            } else {
                assert(base64(b)[i] == group(b.take(3))[i]);
            }
        }
    }
}

proof fn lemma_alphabet_is_ascii()
    ensures
        forall|v: int| 0 <= v < 64 ==> #[trigger] alphabet()[v] < '\u{80}',
{
    reveal_strlit("ABCDEFGHIJKLMNOPQRSTUVWXYZabcdefghijklmnopqrstuvwxyz0123456789+/");
}

/// Bytes that the expected `Authorization` header has room for.
pub const AUTH_CAPACITY: usize = 128;

/// Appends bytes in base 64, as many characters as there is room for.
pub fn base64_into(input: &[u8], out: &mut heapless::String<AUTH_CAPACITY>)
    ensures
        forall|text: Seq<char>|
            #![trigger fixed::holds(*old(out), text)]
            fixed::holds(*old(out), text) ==> fixed::holds(
                *final(out),
                fixed::filled(text, base64(input@), AUTH_CAPACITY as nat),
            ),
{
    let code: String = coded(input);
    fixed::fill(out, code.as_str());
}

/// Name and password, which have 96 bytes: what does not fit is left out whole, and so is
/// everything behind it.
pub open spec fn credentials(user: Seq<char>, pass: Seq<char>) -> Seq<char> {
    fixed::written(Seq::empty(), seq![user, ":"@, pass], 96)
}

/// What the `Authorization` header has to say, before it is cut to 128 characters.
pub open spec fn auth_text(user: Seq<char>, pass: Seq<char>) -> Seq<char> {
    "Basic "@ + base64(vstd::utf8::encode_utf8(credentials(user, pass)))
}

/// The first `n` characters of a text.
pub open spec fn first(t: Seq<char>, n: nat) -> Seq<char> {
    if t.len() <= n {
        t
    } else {
        t.take(n as int)
    }
}

/// What the `Authorization` header has to say: `Basic ` and the credentials in base 64, cut to
/// 128 characters.
pub fn expected_auth(user: &str, pass: &str) -> (r: heapless::String<AUTH_CAPACITY>)
    ensures
        fixed::holds(r, first(auth_text(user@, pass@), AUTH_CAPACITY as nat)),
{
    let mut raw: heapless::String<96> = fixed::empty();
    let parts: [&str; 3] = [user, ":", pass];
    assert(text::slices(parts@) =~= seq![user@, ":"@, pass@]);
    fixed::write(&mut raw, parts.as_slice());
    let plain: &str = fixed::read(&raw);
    proof {
        fixed::holds_one_text(raw, plain, credentials(user@, pass@));
    }
    let mut out: heapless::String<AUTH_CAPACITY> = fixed::empty();
    let _ = fixed::put(&mut out, "Basic ");
    proof {
        reveal_strlit("Basic ");
        fixed::ascii_takes_one_byte_each("Basic "@);
        assert(Seq::<char>::empty() + "Basic "@ =~= "Basic "@);
        assert(fixed::byte_len(Seq::<char>::empty()) == 0);
    }
    base64_into(plain.as_bytes(), &mut out);
    proof {
        let code = base64(vstd::utf8::encode_utf8(plain@));
        lemma_base64_is_ascii(vstd::utf8::encode_utf8(plain@));
        fixed::ascii_fills_up("Basic "@, code, AUTH_CAPACITY as nat);
        if code.len() > 122 {
            assert("Basic "@ + code.take(122) =~= ("Basic "@ + code).take(128));
        }
    }
    out
}

/// Whether some line from `i` on is a header of that name, but for case, with that value.
pub open spec fn has_header(s: Seq<char>, name: Seq<char>, value: Seq<char>, i: int) -> bool
    decreases s.len() - i,
{
    if i < 0 || i >= s.len() {
        false
    } else {
        let (end, after) = http::line_end(s, i);
        let colon = text::next(s, ':', i, end);
        let (a, b) = text::trimmed(s, i, colon);
        let (c, d) = text::trimmed(s, colon + 1, end);
        (colon < end && text::same_letters(s.subrange(a, b), name) && s.subrange(c, d) == value) || (
        after > i && has_header(s, name, value, after))
    }
}

/// Whether a request carries the expected credentials.
pub fn authorized(request: &str, expected: &str) -> (r: bool)
    ensures
        r == has_header(request@, "authorization"@, expected@, 0),
{
    let s: Vec<char> = text::chars_of(request);
    let name: Vec<char> = text::chars_of("authorization");
    let value: Vec<char> = text::chars_of(expected);
    let mut i: usize = 0;
    while i < s.len()
        invariant
            i <= s@.len(),
            s@ == request@,
            name@ == "authorization"@,
            value@ == expected@,
            has_header(s@, "authorization"@, expected@, 0) == has_header(
                s@,
                "authorization"@,
                expected@,
                i as int,
            ),
        decreases s@.len() - i,
    {
        let (end, after) = http::end_of_line(s.as_slice(), i);
        let colon: usize = text::find(s.as_slice(), ':', i, end);
        if colon < end {
            let (a, b) = text::trim_range(s.as_slice(), i, colon);
            let (c, d) = text::trim_range(s.as_slice(), colon + 1, end);
            if text::is_word(s.as_slice(), name.as_slice(), a, b) && text::is_text(
                s.as_slice(),
                value.as_slice(),
                c,
                d,
            ) {
                return true;
            }
        }
        i = after;
    }
    false
}

/// Where the form of a request lies: between its first blank line and the next, if there is
/// one.
pub open spec fn form_of(s: Seq<char>) -> Option<(int, int)> {
    let len = s.len() as int;
    let sep = text::next_text(s, "\r\n\r\n"@, 0, len);
    if sep >= len {
        None
    } else {
        Some((sep + 4, text::next_text(s, "\r\n\r\n"@, sep + 4, len)))
    }
}

/// The form of a request.
fn form(request: &str) -> (r: Option<Vec<char>>)
    ensures
        match form_of(request@) {
            Some((a, b)) => r is Some && r->0@ == request@.subrange(a, b),
            None => r is None,
        },
{
    let s: Vec<char> = text::chars_of(request);
    let blank: Vec<char> = text::chars_of("\r\n\r\n");
    proof {
        reveal_strlit("\r\n\r\n");
    }
    let sep: usize = text::find_text(s.as_slice(), blank.as_slice(), 0, s.len());
    if sep >= s.len() {
        return None;
    }
    let end: usize = text::find_text(s.as_slice(), blank.as_slice(), sep + 4, s.len());
    Some(text::chars_of(request.substring_char(sep + 4, end)))
}

/// `end` moved back over null characters, as far as `i`.
pub open spec fn back_over_nulls(s: Seq<char>, i: int, end: int) -> int
    decreases end - i,
{
    if end <= i || s[end - 1] != '\0' {
        end
    } else {
        back_over_nulls(s, i, end - 1)
    }
}

fn before_nulls(s: &[char], i: usize, end: usize) -> (r: usize)
    requires
        i <= end <= s@.len(),
    ensures
        r == back_over_nulls(s@, i as int, end as int),
        i <= r <= end,
{
    let mut k: usize = end;
    while k > i && s[k - 1] == '\0'
        invariant
            i <= k <= end <= s@.len(),
            back_over_nulls(s@, i as int, end as int) == back_over_nulls(s@, i as int, k as int),
        decreases k,
    {
        k -= 1;
    }
    k
}

/// The number between `i` and `end`, trailing null characters aside.
pub open spec fn number_at(s: Seq<char>, i: int, end: int) -> Option<nat> {
    text::number(s.subrange(i, back_over_nulls(s, i, end)), u32::MAX as nat)
}

fn number(s: &[char], i: usize, end: usize) -> (r: Option<u32>)
    requires
        i <= end <= s@.len(),
    ensures
        match number_at(s@, i as int, end as int) {
            Some(n) => r is Some && r->0 == n,
            None => r is None,
        },
{
    let to: usize = before_nulls(s, i, end);
    text::parse_number(s, i, to, u32::MAX)
}

/// The minutes that the first `grant` field from `i` on asks for.
pub open spec fn granted_from(s: Seq<char>, i: int) -> nat
    decreases s.len() - i,
{
    let len = s.len() as int;
    let amp = text::next(s, '&', i, len);
    if i < 0 || i > len {
        0
    } else if text::reads(s, "grant="@, i, amp) {
        match number_at(s, i + 6, amp) {
            Some(n) => n,
            None => 0,
        }
    } else if i <= amp < len {
        granted_from(s, amp + 1)
    } else {
        0
    }
}

/// The minutes that a request asks for.
pub open spec fn granted_by(request: Seq<char>) -> nat {
    match form_of(request) {
        Some((a, b)) => granted_from(request.subrange(a, b), 0),
        None => 0,
    }
}

/// Pull `grant=N` out of a form body.
pub fn grant_minutes(request: &str) -> (r: u32)
    ensures
        r == granted_by(request@),
{
    match form(request) {
        None => 0,
        Some(body) => {
            let s: &[char] = body.as_slice();
            let key: Vec<char> = text::chars_of("grant=");
            proof {
                reveal_strlit("grant=");
            }
            let len: usize = s.len();
            let mut i: usize = 0;
            loop
                invariant
                    i <= len == s@.len(),
                    key@ == "grant="@,
                    key@.len() == 6,
                    granted_by(request@) == granted_from(s@, 0),
                    granted_from(s@, 0) == granted_from(s@, i as int),
                ensures
                    granted_from(s@, 0) == 0,
                decreases len - i,
            {
                let amp: usize = text::find(s, '&', i, len);
                if text::starts(s, key.as_slice(), i, amp) {
                    return match number(s, i + 6, amp) {
                        Some(n) => n,
                        None => 0,
                    };
                }
                if amp >= len {
                    break;
                }
                i = amp + 1;
            }
            0
        },
    }
}

/// The number in the first field of that name from `i` on whose value is a number.
pub open spec fn field_from(s: Seq<char>, name: Seq<char>, i: int) -> Option<nat>
    decreases s.len() - i,
{
    let len = s.len() as int;
    let amp = text::next(s, '&', i, len);
    let eq = text::next(s, '=', i, amp);
    if i < 0 || i > len {
        None
    } else if eq < amp && s.subrange(i, eq) == name && number_at(s, eq + 1, amp) is Some {
        number_at(s, eq + 1, amp)
    } else if i <= amp < len {
        field_from(s, name, amp + 1)
    } else {
        None
    }
}

/// Read one form field as a number.
pub fn field(s: &[char], name: &str) -> (r: Option<u32>)
    ensures
        match field_from(s@, name@, 0) {
            Some(n) => r is Some && r->0 == n,
            None => r is None,
        },
{
    let word: Vec<char> = text::chars_of(name);
    let len: usize = s.len();
    let mut i: usize = 0;
    loop
        invariant
            i <= len == s@.len(),
            word@ == name@,
            field_from(s@, name@, 0) == field_from(s@, name@, i as int),
        ensures
            field_from(s@, name@, 0) is None,
        decreases len - i,
    {
        let amp: usize = text::find(s, '&', i, len);
        let eq: usize = text::find(s, '=', i, amp);
        if eq < amp && text::is_text(s, word.as_slice(), i, eq) {
            if let Some(n) = number(s, eq + 1, amp) {
                return Some(n);
            }
        }
        if amp >= len {
            break;
        }
        i = amp + 1;
    }
    None
}

/// Where the value of the first field of that name from `i` on lies.
pub open spec fn value_from(s: Seq<char>, name: Seq<char>, i: int) -> Option<(int, int)>
    decreases s.len() - i,
{
    let len = s.len() as int;
    let amp = text::next(s, '&', i, len);
    let eq = text::next(s, '=', i, amp);
    if i < 0 || i > len {
        None
    } else if eq < amp && s.subrange(i, eq) == name {
        Some((eq + 1, amp))
    } else if i <= amp < len {
        value_from(s, name, amp + 1)
    } else {
        None
    }
}

/// Where the hours end and where the minutes begin between `i` and `end`: at an escaped colon,
/// else at a plain one.
pub open spec fn time_split(s: Seq<char>, i: int, end: int) -> Option<(int, int)> {
    let upper = text::next_text(s, "%3A"@, i, end);
    let lower = text::next_text(s, "%3a"@, i, end);
    let colon = text::next(s, ':', i, end);
    if upper < end {
        Some((upper, upper + 3))
    } else if lower < end {
        Some((lower, lower + 3))
    } else if colon < end {
        Some((colon, colon + 1))
    } else {
        None
    }
}

/// Minutes from midnight in the first field of that name.
pub open spec fn time_in(s: Seq<char>, name: Seq<char>) -> Option<nat> {
    match value_from(s, name, 0) {
        None => None,
        Some((i, amp)) => {
            let end = back_over_nulls(s, i, amp);
            match time_split(s, i, end) {
                None => None,
                Some((a, b)) => {
                    let h = text::number(s.subrange(i, a), u32::MAX as nat);
                    let m = text::number(s.subrange(b, end), u32::MAX as nat);
                    if h is Some && m is Some && h->0 < 24 && m->0 < 60 {
                        Some(h->0 * 60 + m->0)
                    } else {
                        None
                    }
                },
            }
        },
    }
}

fn value(s: &[char], name: &str) -> (r: Option<(usize, usize)>)
    ensures
        match value_from(s@, name@, 0) {
            Some((a, b)) => r is Some && (r->0).0 == a && (r->0).1 == b && a <= b <= s@.len(),
            None => r is None,
        },
{
    let word: Vec<char> = text::chars_of(name);
    let len: usize = s.len();
    let mut i: usize = 0;
    loop
        invariant
            i <= len == s@.len(),
            word@ == name@,
            value_from(s@, name@, 0) == value_from(s@, name@, i as int),
        ensures
            value_from(s@, name@, 0) is None,
        decreases len - i,
    {
        let amp: usize = text::find(s, '&', i, len);
        let eq: usize = text::find(s, '=', i, amp);
        if eq < amp && text::is_text(s, word.as_slice(), i, eq) {
            return Some((eq + 1, amp));
        }
        if amp >= len {
            break;
        }
        i = amp + 1;
    }
    None
}

/// Read an `HH:MM` field as minutes from midnight. A browser posts the colon percent-encoded,
/// which is the only escape this form can produce.
pub fn time_field(s: &[char], name: &str) -> (r: Option<u32>)
    ensures
        match time_in(s@, name@) {
            Some(n) => r is Some && r->0 == n,
            None => r is None,
        },
{
    let (i, amp): (usize, usize) = match value(s, name) {
        Some(v) => v,
        None => {
            return None;
        },
    };
    let end: usize = before_nulls(s, i, amp);
    let escaped: Vec<char> = text::chars_of("%3A");
    let escaped_small: Vec<char> = text::chars_of("%3a");
    proof {
        reveal_strlit("%3A");
        reveal_strlit("%3a");
    }
    let upper: usize = text::find_text(s, escaped.as_slice(), i, end);
    let lower: usize = text::find_text(s, escaped_small.as_slice(), i, end);
    let colon: usize = text::find(s, ':', i, end);
    let (a, b): (usize, usize) = if upper < end {
        (upper, upper + 3)
    } else if lower < end {
        (lower, lower + 3)
    } else if colon < end {
        (colon, colon + 1)
    } else {
        return None;
    };
    let h: u32 = match text::parse_number(s, i, a, u32::MAX) {
        Some(n) => n,
        None => {
            return None;
        },
    };
    let m: u32 = match text::parse_number(s, b, end, u32::MAX) {
        Some(n) => n,
        None => {
            return None;
        },
    };
    if h < 24 && m < 60 {
        Some(h * 60 + m)
    } else {
        None
    }
}

/// A number, or another where there is none.
pub open spec fn number_or(n: Option<nat>, other: u32) -> u32 {
    match n {
        Some(n) => n as u32,
        None => other,
    }
}

/// Minutes as seconds, or a number of seconds where there are none.
pub open spec fn minutes_or(n: Option<nat>, secs: u32) -> u32 {
    match n {
        Some(n) => (n * 60) as u32,
        None => secs,
    }
}

/// Whether the minutes of a form can be turned into seconds.
pub open spec fn form_fits(s: Seq<char>) -> bool {
    &&& field_from(s, "cap"@, 0) is Some ==> field_from(s, "cap"@, 0)->0 * 60 <= u32::MAX
    &&& field_from(s, "floor"@, 0) is Some ==> field_from(s, "floor"@, 0)->0 * 60 <= u32::MAX
    &&& field_from(s, "pre"@, 0) is Some ==> field_from(s, "pre"@, 0)->0 * 60 <= u32::MAX
}

/// Whether a form carries rules.
pub open spec fn carries_rules(s: Seq<char>) -> bool {
    text::next_text(s, "cap="@, 0, s.len() as int) < s.len()
}

/// Whether the minutes of a request, if it carries rules and some are in force, can be turned
/// into seconds.
pub open spec fn request_fits(request: Seq<char>, now: Option<Settings>) -> bool {
    match form_of(request) {
        Some((a, b)) => carries_rules(request.subrange(a, b)) && now is Some ==> form_fits(
            request.subrange(a, b),
        ),
        None => true,
    }
}

fn minutes_fit(s: &[char], name: &str) -> (r: bool)
    ensures
        r == (field_from(s@, name@, 0) is Some ==> field_from(s@, name@, 0)->0 * 60 <= u32::MAX),
{
    match field(s, name) {
        Some(n) => n as u64 * 60 <= u32::MAX as u64,
        None => true,
    }
}

fn has_rules(s: &[char]) -> (r: bool)
    ensures
        r == carries_rules(s@),
{
    let key: Vec<char> = text::chars_of("cap=");
    text::find_text(s, key.as_slice(), 0, s.len()) < s.len()
}

/// Whether the minutes of a request, if it carries rules and some are in force, can be turned
/// into seconds.
pub fn fits(request: &str, now: Option<Settings>) -> (r: bool)
    ensures
        r == request_fits(request@, now),
{
    match form(request) {
        None => true,
        Some(body) => {
            let s: &[char] = body.as_slice();
            now.is_none() || !has_rules(s) || (minutes_fit(s, "cap") && minutes_fit(s, "floor")
                && minutes_fit(s, "pre"))
        },
    }
}

/// The rules that a form asks for, starting from those in force.
pub open spec fn rules_in(s: Seq<char>, now: Settings) -> Settings {
    Settings {
        seq: now.seq,
        refill_num: number_or(field_from(s, "rn"@, 0), now.refill_num),
        refill_den: number_or(field_from(s, "rd"@, 0), now.refill_den),
        cap_secs: minutes_or(field_from(s, "cap"@, 0), now.cap_secs),
        floor_secs: minutes_or(field_from(s, "floor"@, 0), now.floor_secs),
        prefill_secs: minutes_or(field_from(s, "pre"@, 0), now.prefill_secs),
        grace_secs: number_or(field_from(s, "grace"@, 0), now.grace_secs),
        night_start_minute: number_or(time_in(s, "ns"@), now.night_start_minute),
        night_end_minute: number_or(time_in(s, "ne"@), now.night_end_minute),
    }
}

/// The rules that a request asks for, if it carries any and there are some in force.
pub open spec fn rules_by(request: Seq<char>, now: Option<Settings>) -> Option<Settings> {
    match form_of(request) {
        None => None,
        Some((a, b)) => {
            let s = request.subrange(a, b);
            if !carries_rules(s) || now is None {
                None
            } else {
                Some(rules_in(s, now->0))
            }
        },
    }
}

fn or_else(n: Option<u32>, other: u32) -> (r: u32)
    ensures
        r == match n {
            Some(n) => n,
            None => other,
        },
{
    match n {
        Some(n) => n,
        None => other,
    }
}

/// Build a settings change from a submitted form, starting from what is in force.
///
/// Every field falls back to the current value, so a form that posts a subset changes only what
/// it actually carried.
pub fn parse_settings(request: &str, now: Option<Settings>) -> (r: Option<Settings>)
    requires
        request_fits(request@, now),
    ensures
        r == rules_by(request@, now),
{
    let body: Vec<char> = match form(request) {
        Some(b) => b,
        None => {
            return None;
        },
    };
    let s: &[char] = body.as_slice();
    if !has_rules(s) {
        return None;
    }
    let now: Settings = match now {
        Some(n) => n,
        None => {
            return None;
        },
    };
    let cap_secs: u32 = match field(s, "cap") {
        Some(m) => m * 60,
        None => now.cap_secs,
    };
    let floor_secs: u32 = match field(s, "floor") {
        Some(m) => m * 60,
        None => now.floor_secs,
    };
    let prefill_secs: u32 = match field(s, "pre") {
        Some(m) => m * 60,
        None => now.prefill_secs,
    };
    Some(
        Settings {
            seq: now.seq,
            refill_num: or_else(field(s, "rn"), now.refill_num),
            refill_den: or_else(field(s, "rd"), now.refill_den),
            cap_secs,
            floor_secs,
            prefill_secs,
            grace_secs: or_else(field(s, "grace"), now.grace_secs),
            night_start_minute: or_else(time_field(s, "ns"), now.night_start_minute),
            night_end_minute: or_else(time_field(s, "ne"), now.night_end_minute),
        },
    )
}

/// The four corner registration marks every framed block carries.
pub open spec fn corners() -> Seq<char> {
    "<i class=tl></i><i class=tr></i><i class=bl></i><i class=br></i>"@
}

pub open spec fn yes_no_word(b: bool) -> Seq<char> {
    if b {
        "ja"@
    } else {
        "nein"@
    }
}

pub fn yes_no(b: bool) -> (r: &'static str)
    ensures
        r@ == yes_no_word(b),
{
    if b {
        "ja"
    } else {
        "nein"
    }
}

pub open spec fn put_back_word(docked: bool) -> Seq<char> {
    if docked {
        "zurückgelegt"@
    } else {
        "weggenommen"@
    }
}

/// "zurückgelegt" is the term the household uses for a device at the reader.
pub fn put_back(docked: bool) -> (r: &'static str)
    ensures
        r@ == put_back_word(docked),
{
    if docked {
        "zurückgelegt"
    } else {
        "weggenommen"
    }
}

pub open spec fn blocked_word(b: bool) -> Seq<char> {
    if b {
        "blockiert"@
    } else {
        "erlaubt"@
    }
}

pub fn blocked(b: bool) -> (r: &'static str)
    ensures
        r@ == blocked_word(b),
{
    if b {
        "blockiert"
    } else {
        "erlaubt"
    }
}

pub open spec fn flow_word(f: Flow) -> Seq<char> {
    match f {
        Flow::Filling => "füllt sich"@,
        Flow::Draining => "läuft"@,
        Flow::Held => "gehalten"@,
    }
}

/// Bytes that the page has room for.
pub const PAGE_CAPACITY: usize = 6_144;

/// What the page begins with.
pub open spec fn page_head() -> Seq<char> {
    "<!doctype html><html lang=de><head><meta charset=utf-8><meta name=viewport content=\"width=device-width,initial-scale=1\"><title>Medienzeit</title><link rel=stylesheet href=/s.css></head><body><main><h1>Medienzeit</h1>"@
}

/// What opens the balance.
pub open spec fn balance_head() -> Seq<Seq<char>> {
    seq!["<div class=\"plate bp\">"@, corners(), "<p class=kicker>Saldo</p>"@]
}

/// The balance in whole minutes.
pub open spec fn balance_value(s: Snapshot<2>, granted: u32) -> Seq<Seq<char>> {
    let mins = screen::whole_minutes(s.balance_secs as int);
    seq![
        "<p class=balance"@,
        if granted > 0 {
            " data-stale=true"@
        } else {
            ""@
        },
        "><strong>"@,
        text::sign(mins),
        text::decimal(vstd::math::abs(mins)),
        "</strong><span class=unit>Min</span></p>"@,
    ]
}

/// The note while a grant is on its way.
pub open spec fn grant_note(granted: u32) -> Seq<Seq<char>> {
    seq![
        "<p class=stale-note>+"@,
        text::decimal(granted as nat),
        " Min gewährt — der Saldo oben braucht einen Moment.</p>"@,
    ]
}

/// The balance, and a note while a grant is on its way.
pub open spec fn balance_part(snap: Option<Snapshot<2>>, granted: u32) -> Seq<Seq<Seq<char>>> {
    seq![balance_head()] + (match snap {
        None => seq![
            seq![
                "<p class=balance><strong>—</strong></p><p class=stale-note>Startet — noch kein Stand.</p>"@,
            ],
        ],
        Some(s) => seq![balance_value(s, granted)] + (if granted > 0 {
            seq![grant_note(granted)]
        } else {
            Seq::empty()
        }),
    }) + seq![seq!["</div>"@]]
}

/// The buttons that grant time.
pub open spec fn bonus_part() -> Seq<Seq<char>> {
    seq![
        "<form class=bonus-form method=post action=/><button class=\"bonus-btn bp\" type=submit name=grant value=10>"@,
        corners(),
        "+10 Min</button><button class=\"bonus-btn bp\" type=submit name=grant value=30>"@,
        corners(),
        "+30 Min</button></form>"@,
    ]
}

/// What opens the table.
pub open spec fn status_head(s: Snapshot<2>) -> Seq<Seq<char>> {
    seq![
        "<div class=\"status-wrap bp\">"@,
        corners(),
        "<table class=status><thead><tr><th>Feld</th><th colspan=2>Wert</th></tr></thead><tbody><tr><th scope=row>Status</th><td colspan=2>"@,
        flow_word(s.flow),
        "</td></tr><tr><th scope=row>Uhrzeit</th><td colspan=2>"@,
        text::pad(s.local.hour as nat),
        text::decimal(s.local.hour as nat),
        ":"@,
        text::pad(s.local.minute as nat),
        text::decimal(s.local.minute as nat),
        "</td></tr><tr><th scope=row>Nacht</th><td colspan=2>"@,
        yes_no_word(s.night),
        "</td></tr>"@,
    ]
}

/// One device in the table.
pub open spec fn device_row(s: Snapshot<2>, name: Seq<char>, i: int) -> Seq<Seq<char>> {
    seq![
        "<tr><th scope=row>"@,
        name,
        "</th><td>"@,
        put_back_word(s.docked@[i]),
        "</td><td"@,
        if s.blocked@[i] {
            " data-state=blocked"@
        } else {
            ""@
        },
        ">"@,
        blocked_word(s.blocked@[i]),
        "</td></tr>"@,
    ]
}

/// The table of what is going on.
pub open spec fn status_part(snap: Option<Snapshot<2>>, names: Seq<Seq<char>>) -> Seq<
    Seq<Seq<char>>,
> {
    match snap {
        None => Seq::empty(),
        Some(s) => seq![
            status_head(s),
            device_row(s, names[0], 0),
            device_row(s, names[1], 1),
            seq!["</tbody></table></div>"@],
        ],
    }
}

/// Whether alerting works.
pub open spec fn health_part(h: Health) -> Seq<Seq<char>> {
    if h.failed_in_a_row > 0 {
        seq![
            "<p class=\"alert-health is-failing\">Benachrichtigungen: "@,
            text::decimal(h.failed_in_a_row as nat),
            " Fehlversuche in Folge</p>"@,
        ]
    } else if h.last_ok_ms is None {
        seq!["<p class=alert-health>Benachrichtigungen: noch keine gesendet</p>"@]
    } else {
        seq![
            "<p class=alert-health>Benachrichtigungen: in Ordnung · "@,
            text::decimal(h.sent as nat),
            " gesendet</p>"@,
        ]
    }
}

/// What opens the rules. They stay open after a submission, so the result is visible where the
/// change was made.
pub open spec fn rules_head(saved: Option<bool>) -> Seq<Seq<char>> {
    seq![
        "<div class=\"rules-wrap bp\">"@,
        corners(),
        "<details class=rules"@,
        if saved is Some {
            " open"@
        } else {
            ""@
        },
        "><summary>Regeln</summary><div class=rules-body>"@,
    ]
}

/// What became of a change of the rules.
pub open spec fn saved_part(saved: Option<bool>) -> Seq<Seq<Seq<char>>> {
    match saved {
        None => Seq::empty(),
        Some(ok) => seq![
            seq![
                if ok {
                    "<p class=saved-note>Gespeichert.</p>"@
                } else {
                    "<p class=\"saved-note is-failing\">Abgelehnt — Teiler 0 oder eine Uhrzeit außerhalb des Tages.</p>"@
                },
            ],
        ],
    }
}

/// The form that changes the rules.
pub open spec fn rules_form(c: Settings) -> Seq<Seq<char>> {
    seq![
        "<form method=post action=/><p class=earn-row><label class=visually-hidden for=rn>Verdient, Minuten</label>Verdient <input type=number id=rn name=rn value="@,
        text::decimal(c.refill_num as nat),
        " min=0 inputmode=numeric> Min je <label class=visually-hidden for=rd>je Minuten weggenommen</label><input type=number id=rd name=rd value="@,
        text::decimal(c.refill_den as nat),
        " min=1 inputmode=numeric> Min weggenommen</p><div class=rule-row><label for=cap>Höchststand</label><span><input type=number id=cap name=cap value="@,
        text::decimal((c.cap_secs / 60) as nat),
        " min=0 inputmode=numeric><span class=unit-hint>Min</span></span></div><div class=rule-row><label for=floor>Erlaubtes Minus</label><span><input type=number id=floor name=floor value="@,
        text::decimal((c.floor_secs / 60) as nat),
        " min=0 inputmode=numeric><span class=unit-hint>Min</span></span></div><div class=rule-row><label for=pre>Startguthaben</label><span><input type=number id=pre name=pre value="@,
        text::decimal((c.prefill_secs / 60) as nat),
        " min=0 inputmode=numeric><span class=unit-hint>Min</span></span></div><div class=rule-row><label for=grace>Karenzzeit</label><span><input type=number id=grace name=grace value="@,
        text::decimal(c.grace_secs as nat),
        " min=0 inputmode=numeric><span class=unit-hint>Sek</span></span></div><div class=rule-row><label for=ns>Nacht ab</label><input type=time id=ns name=ns value=\""@,
        text::pad((c.night_start_minute / 60) as nat),
        text::decimal((c.night_start_minute / 60) as nat),
        ":"@,
        text::pad((c.night_start_minute % 60) as nat),
        text::decimal((c.night_start_minute % 60) as nat),
        "\"></div><div class=rule-row><label for=ne>Nacht bis</label><input type=time id=ne name=ne value=\""@,
        text::pad((c.night_end_minute / 60) as nat),
        text::decimal((c.night_end_minute / 60) as nat),
        ":"@,
        text::pad((c.night_end_minute % 60) as nat),
        text::decimal((c.night_end_minute % 60) as nat),
        "\"></div><button class=save-btn type=submit>Speichern</button></form><p class=explainer>Änderungen wirken sofort und werden dauerhaft gespeichert.</p></div></details></div></main></body></html>"@,
    ]
}

/// The rules, where some are in force, and the end of the page.
pub open spec fn rules_part(c: Option<Settings>, saved: Option<bool>) -> Seq<Seq<Seq<char>>> {
    match c {
        None => seq![seq!["</main></body></html>"@]],
        Some(c) => seq![rules_head(saved)] + saved_part(saved) + seq![rules_form(c)],
    }
}

/// What is written to the page, write by write.
pub open spec fn page_writes(
    snap: Option<Snapshot<2>>,
    granted: u32,
    saved: Option<bool>,
    health: Health,
    current: Option<Settings>,
    names: Seq<Seq<char>>,
) -> Seq<Seq<Seq<char>>> {
    seq![seq![page_head()]] + balance_part(snap, granted) + seq![bonus_part()] + status_part(
        snap,
        names,
    ) + seq![health_part(health)] + rules_part(current, saved)
}

/// The page: as much of it as there is room for.
pub open spec fn page_text(
    snap: Option<Snapshot<2>>,
    granted: u32,
    saved: Option<bool>,
    health: Health,
    current: Option<Settings>,
    names: Seq<Seq<char>>,
) -> Seq<char> {
    fixed::written_all(
        Seq::empty(),
        page_writes(snap, granted, saved, health, current, names),
        PAGE_CAPACITY as nat,
    )
}

type Page = heapless::String<PAGE_CAPACITY>;

/// One write of a single piece.
fn put(out: &mut Page, piece: &str)
    ensures
        fixed::wrote(*old(out), *final(out), seq![seq![piece@]]),
{
    let pieces: [&str; 1] = [piece];
    assert(text::slices(pieces@) =~= seq![piece@]);
    fixed::write_one(out, pieces.as_slice());
}

fn put_balance_value(out: &mut Page, s: &Snapshot<2>, granted: u32)
    ensures
        fixed::wrote(*old(out), *final(out), seq![balance_value(*s, granted)]),
{
    let size: u64 = if s.balance_secs >= 0 {
        s.balance_secs as u64 / 60
    } else {
        (-(s.balance_secs as i64)) as u64 / 60
    };
    let sign: &str = if s.balance_secs <= -60 {
        "-"
    } else {
        ""
    };
    let digits: String = text::in_decimal(size);
    let pieces: [&str; 6] = [
        "<p class=balance",
        if granted > 0 {
            " data-stale=true"
        } else {
            ""
        },
        "><strong>",
        sign,
        digits.as_str(),
        "</strong><span class=unit>Min</span></p>",
    ];
    assert(text::slices(pieces@) =~= balance_value(*s, granted));
    fixed::write_one(out, pieces.as_slice());
}

fn put_grant(out: &mut Page, granted: u32)
    ensures
        fixed::wrote(*old(out), *final(out), seq![grant_note(granted)]),
{
    let digits: String = text::in_decimal(granted as u64);
    let pieces: [&str; 3] = [
        "<p class=stale-note>+",
        digits.as_str(),
        " Min gewährt — der Saldo oben braucht einen Moment.</p>",
    ];
    assert(text::slices(pieces@) =~= grant_note(granted));
    fixed::write_one(out, pieces.as_slice());
}

fn put_balance(out: &mut Page, snap: Option<&Snapshot<2>>, granted: u32)
    ensures
        fixed::wrote(*old(out), *final(out), balance_part(plain(snap), granted)),
{
    let ghost s0 = *out;
    let head: [&str; 3] = [
        "<div class=\"plate bp\">",
        "<i class=tl></i><i class=tr></i><i class=bl></i><i class=br></i>",
        "<p class=kicker>Saldo</p>",
    ];
    assert(text::slices(head@) =~= balance_head());
    fixed::write_one(out, head.as_slice());
    let ghost s1 = *out;
    let ghost mut so_far = seq![balance_head()];
    match snap {
        None => {
            put(
                out,
                "<p class=balance><strong>—</strong></p><p class=stale-note>Startet — noch kein Stand.</p>",
            );
            proof {
                let more = seq![
                    seq![
                        "<p class=balance><strong>—</strong></p><p class=stale-note>Startet — noch kein Stand.</p>"@,
                    ],
                ];
                fixed::one_after_the_other(s0, s1, *out, so_far, more);
                so_far = so_far + more;
            }
        },
        Some(s) => {
            put_balance_value(out, s, granted);
            let ghost s2 = *out;
            proof {
                fixed::one_after_the_other(s0, s1, s2, so_far, seq![balance_value(*s, granted)]);
                so_far = so_far + seq![balance_value(*s, granted)];
            }
            if granted > 0 {
                put_grant(out, granted);
                proof {
                    fixed::one_after_the_other(s0, s2, *out, so_far, seq![grant_note(granted)]);
                    so_far = so_far + seq![grant_note(granted)];
                }
            }
        },
    }
    let ghost s3 = *out;
    put(out, "</div>");
    proof {
        fixed::one_after_the_other(s0, s3, *out, so_far, seq![seq!["</div>"@]]);
        assert(so_far + seq![seq!["</div>"@]] =~= balance_part(plain(snap), granted));
    }
}

fn put_bonus(out: &mut Page)
    ensures
        fixed::wrote(*old(out), *final(out), seq![bonus_part()]),
{
    let pieces: [&str; 5] = [
        "<form class=bonus-form method=post action=/><button class=\"bonus-btn bp\" type=submit name=grant value=10>",
        "<i class=tl></i><i class=tr></i><i class=bl></i><i class=br></i>",
        "+10 Min</button><button class=\"bonus-btn bp\" type=submit name=grant value=30>",
        "<i class=tl></i><i class=tr></i><i class=bl></i><i class=br></i>",
        "+30 Min</button></form>",
    ];
    assert(text::slices(pieces@) =~= bonus_part());
    fixed::write_one(out, pieces.as_slice());
}

fn put_status_head(out: &mut Page, s: &Snapshot<2>)
    ensures
        fixed::wrote(*old(out), *final(out), seq![status_head(*s)]),
{
    let hour: String = text::in_decimal(s.local.hour as u64);
    let minute: String = text::in_decimal(s.local.minute as u64);
    let pieces: [&str; 13] = [
        "<div class=\"status-wrap bp\">",
        "<i class=tl></i><i class=tr></i><i class=bl></i><i class=br></i>",
        "<table class=status><thead><tr><th>Feld</th><th colspan=2>Wert</th></tr></thead><tbody><tr><th scope=row>Status</th><td colspan=2>",
        match s.flow {
            Flow::Filling => "füllt sich",
            Flow::Draining => "läuft",
            Flow::Held => "gehalten",
        },
        "</td></tr><tr><th scope=row>Uhrzeit</th><td colspan=2>",
        text::padding(s.local.hour as u64),
        hour.as_str(),
        ":",
        text::padding(s.local.minute as u64),
        minute.as_str(),
        "</td></tr><tr><th scope=row>Nacht</th><td colspan=2>",
        yes_no(s.night),
        "</td></tr>",
    ];
    assert(text::slices(pieces@) =~= status_head(*s));
    fixed::write_one(out, pieces.as_slice());
}

fn put_device(out: &mut Page, s: &Snapshot<2>, name: &str, i: usize)
    requires
        i < 2,
    ensures
        fixed::wrote(*old(out), *final(out), seq![device_row(*s, name@, i as int)]),
{
    let pieces: [&str; 9] = [
        "<tr><th scope=row>",
        name,
        "</th><td>",
        put_back(s.docked[i]),
        "</td><td",
        if s.blocked[i] {
            " data-state=blocked"
        } else {
            ""
        },
        ">",
        blocked(s.blocked[i]),
        "</td></tr>",
    ];
    assert(text::slices(pieces@) =~= device_row(*s, name@, i as int));
    fixed::write_one(out, pieces.as_slice());
}

fn put_status(out: &mut Page, s: &Snapshot<2>, names: &[&str; 2])
    ensures
        fixed::wrote(
            *old(out),
            *final(out),
            status_part(Some(*s), seq![names@[0]@, names@[1]@]),
        ),
{
    let ghost s0 = *out;
    put_status_head(out, s);
    let ghost s1 = *out;
    put_device(out, s, names[0], 0);
    let ghost s2 = *out;
    put_device(out, s, names[1], 1);
    let ghost s3 = *out;
    put(out, "</tbody></table></div>");
    proof {
        let head = seq![status_head(*s)];
        let one = seq![device_row(*s, names@[0]@, 0)];
        let two = seq![device_row(*s, names@[1]@, 1)];
        let end = seq![seq!["</tbody></table></div>"@]];
        fixed::one_after_the_other(s0, s1, s2, head, one);
        fixed::one_after_the_other(s0, s2, s3, head + one, two);
        fixed::one_after_the_other(s0, s3, *out, head + one + two, end);
        assert(head + one + two + end =~= status_part(
            Some(*s),
            seq![names@[0]@, names@[1]@],
        ));
    }
}

fn put_health(out: &mut Page, h: &Health)
    ensures
        fixed::wrote(*old(out), *final(out), seq![health_part(*h)]),
{
    if h.failed_in_a_row > 0 {
        let digits: String = text::in_decimal(h.failed_in_a_row as u64);
        let pieces: [&str; 3] = [
            "<p class=\"alert-health is-failing\">Benachrichtigungen: ",
            digits.as_str(),
            " Fehlversuche in Folge</p>",
        ];
        assert(text::slices(pieces@) =~= health_part(*h));
        fixed::write_one(out, pieces.as_slice());
    } else if h.last_ok_ms.is_none() {
        put(out, "<p class=alert-health>Benachrichtigungen: noch keine gesendet</p>");
    } else {
        let digits: String = text::in_decimal(h.sent as u64);
        let pieces: [&str; 3] = [
            "<p class=alert-health>Benachrichtigungen: in Ordnung · ",
            digits.as_str(),
            " gesendet</p>",
        ];
        assert(text::slices(pieces@) =~= health_part(*h));
        fixed::write_one(out, pieces.as_slice());
    }
}

fn put_rules_head(out: &mut Page, saved: Option<bool>)
    ensures
        fixed::wrote(*old(out), *final(out), seq![rules_head(saved)]),
{
    let pieces: [&str; 5] = [
        "<div class=\"rules-wrap bp\">",
        "<i class=tl></i><i class=tr></i><i class=bl></i><i class=br></i>",
        "<details class=rules",
        if saved.is_some() {
            " open"
        } else {
            ""
        },
        "><summary>Regeln</summary><div class=rules-body>",
    ];
    assert(text::slices(pieces@) =~= rules_head(saved));
    fixed::write_one(out, pieces.as_slice());
}

fn put_form(out: &mut Page, c: &Settings)
    ensures
        fixed::wrote(*old(out), *final(out), seq![rules_form(*c)]),
{
    let num: String = text::in_decimal(c.refill_num as u64);
    let den: String = text::in_decimal(c.refill_den as u64);
    let cap: String = text::in_decimal((c.cap_secs / 60) as u64);
    let floor: String = text::in_decimal((c.floor_secs / 60) as u64);
    let prefill: String = text::in_decimal((c.prefill_secs / 60) as u64);
    let grace: String = text::in_decimal(c.grace_secs as u64);
    let start_hour: String = text::in_decimal((c.night_start_minute / 60) as u64);
    let start_minute: String = text::in_decimal((c.night_start_minute % 60) as u64);
    let end_hour: String = text::in_decimal((c.night_end_minute / 60) as u64);
    let end_minute: String = text::in_decimal((c.night_end_minute % 60) as u64);
    let pieces: [&str; 25] = [
        "<form method=post action=/><p class=earn-row><label class=visually-hidden for=rn>Verdient, Minuten</label>Verdient <input type=number id=rn name=rn value=",
        num.as_str(),
        " min=0 inputmode=numeric> Min je <label class=visually-hidden for=rd>je Minuten weggenommen</label><input type=number id=rd name=rd value=",
        den.as_str(),
        " min=1 inputmode=numeric> Min weggenommen</p><div class=rule-row><label for=cap>Höchststand</label><span><input type=number id=cap name=cap value=",
        cap.as_str(),
        " min=0 inputmode=numeric><span class=unit-hint>Min</span></span></div><div class=rule-row><label for=floor>Erlaubtes Minus</label><span><input type=number id=floor name=floor value=",
        floor.as_str(),
        " min=0 inputmode=numeric><span class=unit-hint>Min</span></span></div><div class=rule-row><label for=pre>Startguthaben</label><span><input type=number id=pre name=pre value=",
        prefill.as_str(),
        " min=0 inputmode=numeric><span class=unit-hint>Min</span></span></div><div class=rule-row><label for=grace>Karenzzeit</label><span><input type=number id=grace name=grace value=",
        grace.as_str(),
        " min=0 inputmode=numeric><span class=unit-hint>Sek</span></span></div><div class=rule-row><label for=ns>Nacht ab</label><input type=time id=ns name=ns value=\"",
        text::padding((c.night_start_minute / 60) as u64),
        start_hour.as_str(),
        ":",
        text::padding((c.night_start_minute % 60) as u64),
        start_minute.as_str(),
        "\"></div><div class=rule-row><label for=ne>Nacht bis</label><input type=time id=ne name=ne value=\"",
        text::padding((c.night_end_minute / 60) as u64),
        end_hour.as_str(),
        ":",
        text::padding((c.night_end_minute % 60) as u64),
        end_minute.as_str(),
        "\"></div><button class=save-btn type=submit>Speichern</button></form><p class=explainer>Änderungen wirken sofort und werden dauerhaft gespeichert.</p></div></details></div></main></body></html>",
    ];
    assert(text::slices(pieces@) =~= rules_form(*c));
    fixed::write_one(out, pieces.as_slice());
}

fn put_rules(out: &mut Page, c: &Settings, saved: Option<bool>)
    ensures
        fixed::wrote(*old(out), *final(out), rules_part(Some(*c), saved)),
{
    let ghost s0 = *out;
    put_rules_head(out, saved);
    let ghost s1 = *out;
    let ghost mut so_far = seq![rules_head(saved)];
    if let Some(ok) = saved {
        put(
            out,
            if ok {
                "<p class=saved-note>Gespeichert.</p>"
            } else {
                "<p class=\"saved-note is-failing\">Abgelehnt — Teiler 0 oder eine Uhrzeit außerhalb des Tages.</p>"
            },
        );
        proof {
            fixed::one_after_the_other(s0, s1, *out, so_far, saved_part(saved));
            so_far = so_far + saved_part(saved);
        }
    }
    let ghost s2 = *out;
    put_form(out, c);
    proof {
        fixed::one_after_the_other(s0, s2, *out, so_far, seq![rules_form(*c)]);
        assert(so_far + seq![rules_form(*c)] =~= rules_part(Some(*c), saved));
    }
}

/// The snapshot behind a reference.
pub open spec fn plain(snap: Option<&Snapshot<2>>) -> Option<Snapshot<2>> {
    match snap {
        Some(s) => Some(*s),
        None => None,
    }
}

/// The page: balance, the hurried path, status, alerting health and the rules.
pub fn page(
    out: &mut heapless::String<PAGE_CAPACITY>,
    snap: Option<&Snapshot<2>>,
    granted: u32,
    saved: Option<bool>,
    health: &Health,
    current: Option<Settings>,
    names: &[&str; 2],
)
    ensures
        fixed::wrote(
            *old(out),
            *final(out),
            page_writes(
                plain(snap),
                granted,
                saved,
                *health,
                current,
                seq![names@[0]@, names@[1]@],
            ),
        ),
{
    let ghost shown = plain(snap);
    let ghost who = seq![names@[0]@, names@[1]@];
    let ghost s0 = *out;
    put(
        out,
        "<!doctype html><html lang=de><head><meta charset=utf-8><meta name=viewport content=\"width=device-width,initial-scale=1\"><title>Medienzeit</title><link rel=stylesheet href=/s.css></head><body><main><h1>Medienzeit</h1>",
    );
    let ghost s1 = *out;
    put_balance(out, snap, granted);
    let ghost s2 = *out;
    put_bonus(out);
    let ghost s3 = *out;
    let ghost w1 = seq![seq![page_head()]];
    let ghost w2 = w1 + balance_part(shown, granted);
    let ghost w3 = w2 + seq![bonus_part()];
    let ghost w4 = w3 + status_part(shown, who);
    let ghost w5 = w4 + seq![health_part(*health)];
    proof {
        fixed::one_after_the_other(s0, s1, s2, w1, balance_part(shown, granted));
        fixed::one_after_the_other(s0, s2, s3, w2, seq![bonus_part()]);
    }
    if let Some(s) = snap {
        put_status(out, s, names);
        proof {
            fixed::one_after_the_other(s0, s3, *out, w3, status_part(shown, who));
        }
    } else {
        assert(w4 =~= w3);
    }
    let ghost s4 = *out;
    put_health(out, health);
    let ghost s5 = *out;
    proof {
        fixed::one_after_the_other(s0, s4, s5, w4, seq![health_part(*health)]);
    }
    match &current {
        Some(c) => put_rules(out, c, saved),
        None => put(out, "</main></body></html>"),
    }
    proof {
        fixed::one_after_the_other(s0, s5, *out, w5, rules_part(current, saved));
    }
}

/// What a request is for.
#[derive(Debug, Clone, Copy, PartialEq, Eq, Structural)]
pub enum Route {
    /// The stylesheet, which needs no credentials: it carries nothing private.
    Stylesheet,
    Page,
}

/// What a request is for.
pub fn route(request: &str) -> (r: Route)
    ensures
        r == Route::Stylesheet <==> text::reads(request@, "GET /s.css"@, 0, request@.len() as int),
{
    let s: Vec<char> = text::chars_of(request);
    let start: Vec<char> = text::chars_of("GET /s.css");
    if text::starts(s.as_slice(), start.as_slice(), 0, s.len()) {
        Route::Stylesheet
    } else {
        Route::Page
    }
}

/// The head of the stylesheet response, of at most 160 bytes. Cached hard: the stylesheet only
/// changes with the firmware.
pub fn stylesheet_head(bytes: usize) -> (r: Option<heapless::String<160>>)
    ensures
        ({
            let head =
                "HTTP/1.1 200 OK\r\nContent-Type: text/css; charset=utf-8\r\nCache-Control: public, max-age=31536000, immutable\r\nContent-Length: "@
                + text::decimal(bytes as nat) + "\r\nConnection: close\r\n\r\n"@;
            &&& r is Some <==> fixed::byte_len(head) <= 160
            &&& r is Some ==> fixed::holds(r->0, head)
        }),
{
    let mut out = String::new();
    out.append(
        "HTTP/1.1 200 OK\r\nContent-Type: text/css; charset=utf-8\r\nCache-Control: public, max-age=31536000, immutable\r\nContent-Length: ",
    );
    text::push_decimal(&mut out, bytes as u64);
    out.append("\r\nConnection: close\r\n\r\n");
    fixed::fit(out.as_str())
}

/// Bytes that an answer has room for: the page and its head.
pub const RESPONSE_CAPACITY: usize = 8_192;

/// What to do about a request.
pub struct Handled {
    /// What to answer.
    pub response: heapless::String<RESPONSE_CAPACITY>,
    /// Seconds to grant.
    pub bonus_secs: Option<u32>,
    /// Rules to put in force and to store.
    pub pending: Option<Settings>,
    /// What to log.
    pub lines: Vec<String>,
}

/// Whether a request is a POST.
pub open spec fn is_post(request: Seq<char>) -> bool {
    text::reads(request, "POST"@, 0, request.len() as int)
}

/// From how many bytes on a page is worth a line in the log, before it silently loses its tail:
/// the usual one has about 3,000.
pub const PAGE_WARN_AT: usize = 5_120;

/// What is logged of a request.
pub open spec fn log_lines(granted: u32, saved: Option<bool>, page_bytes: nat) -> Seq<Seq<char>> {
    (if granted > 0 {
        seq!["web: granted "@ + text::decimal(granted as nat) + " bonus minutes"@]
    } else {
        Seq::empty()
    }) + (match saved {
        None => Seq::empty(),
        Some(ok) => seq![
            if ok {
                "web: settings change queued"@
            } else {
                "web: settings change refused as invalid"@
            },
        ],
    }) + (if page_bytes >= PAGE_WARN_AT {
        seq![
            "web: page is "@ + text::decimal(page_bytes) + " bytes, buffer is "@ + text::decimal(
                PAGE_CAPACITY as nat,
            ),
        ]
    } else {
        Seq::empty()
    })
}

fn log(granted: u32, saved: Option<bool>, page_bytes: usize) -> (r: Vec<String>)
    ensures
        text::texts(r@) == log_lines(granted, saved, page_bytes as nat),
{
    let mut lines: Vec<String> = Vec::new();
    assert(text::texts(lines@) =~= Seq::<Seq<char>>::empty());
    if granted > 0 {
        let mut line: String = "web: granted ".to_owned();
        text::push_decimal(&mut line, granted as u64);
        line.append(" bonus minutes");
        text::push_line(&mut lines, line);
    }
    if let Some(ok) = saved {
        text::push_line(
            &mut lines,
            if ok {
                "web: settings change queued".to_owned()
            } else {
                "web: settings change refused as invalid".to_owned()
            },
        );
    }
    if page_bytes >= PAGE_WARN_AT {
        let mut line: String = "web: page is ".to_owned();
        text::push_decimal(&mut line, page_bytes as u64);
        line.append(" bytes, buffer is ");
        text::push_decimal(&mut line, PAGE_CAPACITY as u64);
        text::push_line(&mut lines, line);
    }
    assert(text::texts(lines@) =~= log_lines(granted, saved, page_bytes as nat));
    lines
}

/// The minutes granted by a request: those asked for in a POST, up to an hour, so a stuck
/// finger on the phone cannot hand over the whole evening.
pub open spec fn granted_minutes(request: Seq<char>) -> u32 {
    if !is_post(request) {
        0
    } else if granted_by(request) > 60 {
        60
    } else {
        granted_by(request) as u32
    }
}

/// The rules that a POST asks for.
pub open spec fn asked_rules(request: Seq<char>, now: Option<Settings>) -> Option<Settings> {
    if is_post(request) {
        rules_by(request, now)
    } else {
        None
    }
}

/// Whether the rules of a request are taken, refused, or not there.
pub open spec fn outcome(rules: Option<Settings>) -> Option<bool> {
    match rules {
        None => None,
        Some(s) => Some(s.usable()),
    }
}

/// The answer to a request without the right credentials.
pub open spec fn unauthorized_text() -> Seq<char> {
    "HTTP/1.1 401 Unauthorized\r\nWWW-Authenticate: Basic realm=\"Medienzeit\"\r\nContent-Length: 0\r\nConnection: close\r\n\r\n"@
}

/// The answer that carries a page.
pub open spec fn ok_text(page: Seq<char>) -> Seq<char> {
    "HTTP/1.1 200 OK\r\nContent-Type: text/html; charset=utf-8\r\nContent-Length: "@
        + text::decimal(fixed::byte_len(page)) + "\r\nConnection: close\r\n\r\n"@ + page
}

fn unauthorized() -> (r: heapless::String<RESPONSE_CAPACITY>)
    ensures
        fixed::holds(r, unauthorized_text()),
{
    let mut out: heapless::String<RESPONSE_CAPACITY> = fixed::empty();
    let _ = fixed::put(
        &mut out,
        "HTTP/1.1 401 Unauthorized\r\nWWW-Authenticate: Basic realm=\"Medienzeit\"\r\nContent-Length: 0\r\nConnection: close\r\n\r\n",
    );
    proof {
        reveal_strlit(
            "HTTP/1.1 401 Unauthorized\r\nWWW-Authenticate: Basic realm=\"Medienzeit\"\r\nContent-Length: 0\r\nConnection: close\r\n\r\n",
        );
        fixed::at_most_four_bytes_each(unauthorized_text());
        assert(fixed::byte_len(Seq::<char>::empty()) == 0);
        assert(Seq::<char>::empty() + unauthorized_text() =~= unauthorized_text());
    }
    out
}

proof fn lemma_page_size_is_short(n: nat)
    requires
        n <= PAGE_CAPACITY,
    ensures
        text::decimal(n).len() <= 4,
{
    reveal_with_fuel(text::decimal, 5);
}

/// The answer that carries a page.
fn ok(page: &str) -> (r: heapless::String<RESPONSE_CAPACITY>)
    requires
        fixed::byte_len(page@) <= PAGE_CAPACITY,
    ensures
        fixed::holds(r, ok_text(page@)),
{
    let size: String = text::in_decimal(fixed::bytes_of(page) as u64);
    let head: [&str; 3] = [
        "HTTP/1.1 200 OK\r\nContent-Type: text/html; charset=utf-8\r\nContent-Length: ",
        size.as_str(),
        "\r\nConnection: close\r\n\r\n",
    ];
    let ghost pieces = text::slices(head@);
    let mut out: heapless::String<RESPONSE_CAPACITY> = fixed::empty();
    fixed::write(&mut out, head.as_slice());
    let _ = fixed::put(&mut out, page);
    proof {
        let (a, b, c) = (head@[0]@, size@, head@[2]@);
        reveal_strlit(
            "HTTP/1.1 200 OK\r\nContent-Type: text/html; charset=utf-8\r\nContent-Length: ",
        );
        reveal_strlit("\r\nConnection: close\r\n\r\n");
        lemma_page_size_is_short(fixed::byte_len(page@));
        reveal_with_fuel(fixed::flat, 4);
        assert(pieces =~= seq![a, b, c]);
        assert(seq![a, b, c].drop_last() =~= seq![a, b]);
        assert(seq![a, b].drop_last() =~= seq![a]);
        assert(fixed::flat(pieces) =~= a + b + c);
        fixed::at_most_four_bytes_each(a + b + c);
        assert(fixed::byte_len(Seq::<char>::empty()) == 0);
        fixed::what_fits_is_written(Seq::empty(), pieces, RESPONSE_CAPACITY as nat);
        assert(Seq::<char>::empty() + (a + b + c) =~= a + b + c);
        assert(a + b + c + page@ =~= ok_text(page@));
    }
    out
}

/// Whether a request is answered so, and this is done about it.
pub open spec fn answered(
    request: Seq<char>,
    expected_auth: Seq<char>,
    snap: Option<Snapshot<2>>,
    health: Health,
    current: Option<Settings>,
    names: Seq<Seq<char>>,
    r: Handled,
) -> bool {
    if !has_header(request, "authorization"@, expected_auth, 0) {
        &&& fixed::holds(r.response, unauthorized_text())
        &&& r.bonus_secs is None
        &&& r.pending is None
        &&& r.lines@.len() == 0
    } else {
        let granted = granted_minutes(request);
        let rules = asked_rules(request, current);
        let page = page_text(
            snap,
            granted,
            outcome(rules),
            health,
            current,
            names,
        );
        &&& r.bonus_secs == if granted > 0 {
            Some((granted * 60) as u32)
        } else {
            None
        }
        &&& r.pending == if rules is Some && rules->0.usable() {
            rules
        } else {
            None
        }
        &&& fixed::holds(r.response, ok_text(page))
        &&& text::texts(r.lines@) == log_lines(granted, outcome(rules), fixed::byte_len(page))
    }
}

/// Decide what a request does and what it is answered.
///
/// Without the right credentials nothing happens. Rules are validated here as well as at the
/// store, so the page can say the change was refused.
pub fn handle(
    request: &str,
    expected_auth: &str,
    snap: Option<&Snapshot<2>>,
    health: &Health,
    current: Option<Settings>,
    names: &[&str; 2],
) -> (r: Handled)
    requires
        has_header(request@, "authorization"@, expected_auth@, 0) && is_post(request@)
            ==> request_fits(request@, current),
    ensures
        answered(
            request@,
            expected_auth@,
            plain(snap),
            *health,
            current,
            seq![names@[0]@, names@[1]@],
            r,
        ),
{
    if !authorized(request, expected_auth) {
        return Handled {
            response: unauthorized(),
            bonus_secs: None,
            pending: None,
            lines: Vec::new(),
        };
    }
    let mut granted: u32 = 0;
    let mut saved: Option<bool> = None;
    let mut pending: Option<Settings> = None;
    let s: Vec<char> = text::chars_of(request);
    let post: Vec<char> = text::chars_of("POST");
    if text::starts(s.as_slice(), post.as_slice(), 0, s.len()) {
        let asked: u32 = grant_minutes(request);
        granted = if asked > 60 {
            60
        } else {
            asked
        };
        if let Some(new) = parse_settings(request, current) {
            if new.valid() {
                pending = Some(new);
                saved = Some(true);
            } else {
                saved = Some(false);
            }
        }
    }
    let mut body: heapless::String<PAGE_CAPACITY> = fixed::empty();
    page(&mut body, snap, granted, saved, health, current, names);
    let shown: &str = fixed::read(&body);
    proof {
        fixed::holds_one_text(
            body,
            shown,
            page_text(
                plain(snap),
                granted,
                saved,
                *health,
                current,
                seq![names@[0]@, names@[1]@],
            ),
        );
    }
    let response: heapless::String<RESPONSE_CAPACITY> = ok(shown);
    let bonus_secs: Option<u32> = if granted > 0 {
        Some(granted * 60)
    } else {
        None
    };
    let lines: Vec<String> = log(granted, saved, fixed::bytes_of(shown));
    Handled { response, bonus_secs, pending, lines }
}

/// A request grants at most an hour, and one that is not a POST grants nothing.
pub proof fn a_grant_is_at_most_an_hour(request: Seq<char>)
    ensures
        granted_minutes(request) <= 60,
        !is_post(request) ==> granted_minutes(request) == 0,
{
}

/// A page never takes more room than it has, and loses nothing of what there is to show where
/// that fits.
pub proof fn a_page_that_fits_is_whole(
    snap: Option<Snapshot<2>>,
    granted: u32,
    saved: Option<bool>,
    health: Health,
    current: Option<Settings>,
    names: Seq<Seq<char>>,
)
    ensures
        fixed::byte_len(page_text(snap, granted, saved, health, current, names)) <= PAGE_CAPACITY,
        ({
            let all = fixed::whole(page_writes(snap, granted, saved, health, current, names));
            fixed::byte_len(all) <= PAGE_CAPACITY ==> page_text(
                snap,
                granted,
                saved,
                health,
                current,
                names,
            ) == all
        }),
{
    let writes = page_writes(snap, granted, saved, health, current, names);
    let all = fixed::whole(writes);
    assert(fixed::byte_len(Seq::<char>::empty()) == 0);
    fixed::writes_have_room(Seq::empty(), writes, PAGE_CAPACITY as nat);
    if fixed::byte_len(all) <= PAGE_CAPACITY {
        fixed::all_that_fits_is_written(Seq::empty(), writes, PAGE_CAPACITY as nat);
        assert(Seq::<char>::empty() + all =~= all);
    }
}

/// A form changes only what it names.
pub proof fn a_partial_form_changes_only_what_it_names(s: Seq<char>, now: Settings)
    ensures
        rules_in(s, now).seq == now.seq,
        field_from(s, "rn"@, 0) is None ==> rules_in(s, now).refill_num == now.refill_num,
        field_from(s, "rd"@, 0) is None ==> rules_in(s, now).refill_den == now.refill_den,
        field_from(s, "cap"@, 0) is None ==> rules_in(s, now).cap_secs == now.cap_secs,
        field_from(s, "floor"@, 0) is None ==> rules_in(s, now).floor_secs == now.floor_secs,
        field_from(s, "pre"@, 0) is None ==> rules_in(s, now).prefill_secs == now.prefill_secs,
        field_from(s, "grace"@, 0) is None ==> rules_in(s, now).grace_secs == now.grace_secs,
        time_in(s, "ns"@) is None ==> rules_in(s, now).night_start_minute
            == now.night_start_minute,
        time_in(s, "ne"@) is None ==> rules_in(s, now).night_end_minute == now.night_end_minute,
{
}

/// A request is let in exactly where it carries the expected credentials, whole and unchanged, in a
/// header of the right name.
pub proof fn credentials_let_a_request_in(
    s: Seq<char>,
    i: int,
    headers: Seq<(Seq<char>, Seq<char>)>,
    name: Seq<char>,
    value: Seq<char>,
)
    requires
        0 <= i <= s.len(),
        forall|k: int| 0 <= k < headers.len() ==> http::well_formed(#[trigger] headers[k]),
        s.skip(i) == http::header_lines(headers),
    ensures
        has_header(s, name, value, i) <==> exists|k: int|
            0 <= k < headers.len() && text::same_letters((#[trigger] headers[k]).0, name)
                && headers[k].1 == value,
    decreases headers.len(),
{
    if headers.len() > 0 {
        http::lemma_header_line(s, i, headers);
        let rest = headers.drop_first();
        assert forall|k: int| 0 <= k < rest.len() implies http::well_formed(#[trigger] rest[k]) by {
            assert(rest[k] == headers[k + 1]);
        }
        credentials_let_a_request_in(s, http::line_end(s, i).1, rest, name, value);
        if exists|k: int|
            0 <= k < headers.len() && text::same_letters((#[trigger] headers[k]).0, name)
                && headers[k].1 == value {
            let k = choose|k: int|
                0 <= k < headers.len() && text::same_letters((#[trigger] headers[k]).0, name)
                    && headers[k].1 == value;
            if k > 0 {
                assert(rest[k - 1] == headers[k]);
            }
        }
        if exists|k: int|
            0 <= k < rest.len() && text::same_letters((#[trigger] rest[k]).0, name)
                && rest[k].1 == value {
            let k = choose|k: int|
                0 <= k < rest.len() && text::same_letters((#[trigger] rest[k]).0, name)
                    && rest[k].1 == value;
            assert(headers[k + 1] == rest[k]);
        }
    } else {
        assert(s.skip(i).len() == 0);
    }
}

/// The page shows the balance in whole minutes, those of a debt with a minus sign, and marks it as
/// about to change while a grant is on its way.
pub proof fn the_page_shows_whole_minutes(s: Snapshot<2>, granted: u32)
    ensures
        ({
            let p = balance_value(s, granted);
            let left = s.balance_secs as int;
            &&& exists|mins: nat|
                {
                    &&& #[trigger] text::decimal(mins) == p[4]
                    &&& left >= 0 ==> 60 * mins <= left < 60 * mins + 60
                    &&& left < 0 ==> 60 * mins <= -left < 60 * mins + 60
                }
            &&& p[3] == if left <= -60 {
                "-"@
            } else {
                ""@
            }
            &&& p[1] == if granted > 0 {
                " data-stale=true"@
            } else {
                ""@
            }
        }),
{
    let left = s.balance_secs as int;
    let mins = vstd::math::abs(screen::whole_minutes(left)) as nat;
    screen::whole_minutes_fit_in_full(left);
    assert(text::decimal(mins) == balance_value(s, granted)[4]);
}

/// The page tells of each device what is true of it: its name, whether it is put back and whether it
/// is cut off, in words that differ.
pub proof fn the_page_tells_where_each_device_is(s: Snapshot<2>, name: Seq<char>, i: int)
    requires
        0 <= i < 2,
    ensures
        ({
            let row = device_row(s, name, i);
            &&& row[1] == name
            &&& s.docked@[i] ==> row[3] == "zurückgelegt"@
            &&& !s.docked@[i] ==> row[3] == "weggenommen"@
            &&& s.blocked@[i] ==> row[7] == "blockiert"@ && row[5] == " data-state=blocked"@
            &&& !s.blocked@[i] ==> row[7] == "erlaubt"@ && row[5] == ""@
        }),
        ({
            let table = status_part(Some(s), seq![name, name + name]);
            &&& table.len() == 4
            &&& table[0] == status_head(s)
            &&& table[1] == device_row(s, name, 0)
            &&& table[2] == device_row(s, name + name, 1)
        }),
        status_part(None, seq![name, name]).len() == 0,
        ({
            let head = status_head(s);
            &&& head[3] == match s.flow {
                Flow::Filling => "füllt sich"@,
                Flow::Draining => "läuft"@,
                Flow::Held => "gehalten"@,
            }
            &&& s.night ==> head[11] == "ja"@
            &&& !s.night ==> head[11] == "nein"@
            &&& head[6] == text::decimal(s.local.hour as nat)
            &&& head[9] == text::decimal(s.local.minute as nat)
            &&& head[5] == if s.local.hour < 10 {
                "0"@
            } else {
                ""@
            }
            &&& head[8] == if s.local.minute < 10 {
                "0"@
            } else {
                ""@
            }
        }),
{
}

/// A request without the blank line that ends its head asks for nothing.
pub proof fn a_request_without_a_form_asks_for_nothing(request: Seq<char>, now: Option<Settings>)
    requires
        forall|j: int| 0 <= j < request.len() ==> !#[trigger] text::reads(
            request,
            "\r\n\r\n"@,
            j,
            request.len() as int,
        ),
    ensures
        granted_minutes(request) == 0,
        asked_rules(request, now) is None,
{
    text::next_text_is_there(
        request,
        "\r\n\r\n"@,
        0,
        request.len() as int,
        request.len() as int,
    );
}

/// Without the right credentials nothing is granted, nothing changed and nothing shown.
pub proof fn without_credentials_nothing_happens(
    request: Seq<char>,
    expected_auth: Seq<char>,
    snap: Option<Snapshot<2>>,
    health: Health,
    current: Option<Settings>,
    names: Seq<Seq<char>>,
    r: Handled,
)
    requires
        answered(request, expected_auth, snap, health, current, names, r),
        !has_header(request, "authorization"@, expected_auth, 0),
    ensures
        r.bonus_secs is None,
        r.pending is None,
        r.lines@.len() == 0,
        fixed::holds(
            r.response,
            "HTTP/1.1 401 Unauthorized\r\nWWW-Authenticate: Basic realm=\"Medienzeit\"\r\nContent-Length: 0\r\nConnection: close\r\n\r\n"@,
        ),
{
}

/// With the right credentials a POST grants the minutes that it asks for, up to an hour, and queues
/// the rules that it asks for where the ledger can work with them; anything else changes nothing.
pub proof fn a_post_grants_and_changes_what_it_asks_for(
    request: Seq<char>,
    expected_auth: Seq<char>,
    snap: Option<Snapshot<2>>,
    health: Health,
    current: Option<Settings>,
    names: Seq<Seq<char>>,
    r: Handled,
)
    requires
        answered(request, expected_auth, snap, health, current, names, r),
        has_header(request, "authorization"@, expected_auth, 0),
    ensures
        ({
            let post = text::reads(request, "POST"@, 0, request.len() as int);
            let asked = granted_by(request);
            let rules = rules_by(request, current);
            &&& !post ==> r.bonus_secs is None && r.pending is None
            &&& post && asked == 0 ==> r.bonus_secs is None
            &&& post && 0 < asked <= 60 ==> r.bonus_secs is Some && r.bonus_secs->0 == 60 * asked
            &&& post && asked > 60 ==> r.bonus_secs == Some(3_600u32)
            &&& post ==> (r.pending is Some <==> rules is Some && rules->0.refill_den > 0
                && rules->0.night_start_minute < 1_440 && rules->0.night_end_minute < 1_440)
            &&& r.pending is Some ==> r.pending == rules
        }),
{
}

/// The page says how alerting fares: that it fails, and how often in a row, as soon as it does once;
/// else how many alerts got through, if any did.
pub proof fn the_page_says_how_alerting_fares(h: Health)
    ensures
        h.failed_in_a_row >= 1 ==> health_part(h) == seq![
            "<p class=\"alert-health is-failing\">Benachrichtigungen: "@,
            text::decimal(h.failed_in_a_row as nat),
            " Fehlversuche in Folge</p>"@,
        ],
        h.failed_in_a_row == 0 && h.last_ok_ms is None ==> health_part(h) == seq![
            "<p class=alert-health>Benachrichtigungen: noch keine gesendet</p>"@,
        ],
        h.failed_in_a_row == 0 && h.last_ok_ms is Some ==> health_part(h).len() == 3
            && health_part(h)[1] == text::decimal(h.sent as nat),
{
}

/// The page says what became of a change, and leaves the rules open to show it; without a change it
/// says nothing of one.
pub proof fn the_page_says_what_became_of_a_change(rules: Option<Settings>)
    ensures
        rules is None ==> saved_part(outcome(rules)).len() == 0 && rules_head(outcome(rules))[3]
            == ""@,
        rules is Some ==> rules_head(outcome(rules))[3] == " open"@ && saved_part(
            outcome(rules),
        ).len() == 1,
        rules is Some && rules->0.usable() ==> saved_part(outcome(rules))[0][0]
            == "<p class=saved-note>Gespeichert.</p>"@,
        rules is Some && !rules->0.usable() ==> saved_part(outcome(rules))[0][0]
            == "<p class=\"saved-note is-failing\">Abgelehnt — Teiler 0 oder eine Uhrzeit außerhalb des Tages.</p>"@,
{
}

/// A page is sent with its length in bytes, as HTML that is not kept open.
#[verifier::rlimit(60)]
pub proof fn a_page_is_sent_with_its_length(page: Seq<char>)
    ensures
        ok_text(page) == "HTTP/1.1 200 OK\r\n"@ + http::header_lines(
            seq![
                ("Content-Type"@, "text/html; charset=utf-8"@),
                ("Content-Length"@, text::decimal(fixed::byte_len(page))),
                ("Connection"@, "close"@),
            ],
        ) + "\r\n"@ + page,
{
    reveal_with_fuel(http::header_lines, 4);
    let size = text::decimal(fixed::byte_len(page));
    let headers = seq![
        ("Content-Type"@, "text/html; charset=utf-8"@),
        ("Content-Length"@, size),
        ("Connection"@, "close"@),
    ];
    let h1 = headers.drop_first();
    let h2 = h1.drop_first();
    assert(h1[0] == headers[1] && h2[0] == headers[2]);
    assert(h2.drop_first().len() == 0);
    reveal_strlit("HTTP/1.1 200 OK\r\n");
    reveal_strlit("Content-Type");
    reveal_strlit("text/html; charset=utf-8");
    reveal_strlit("Content-Length");
    reveal_strlit("Connection");
    reveal_strlit("close");
    reveal_strlit("\r\n");
    reveal_strlit("HTTP/1.1 200 OK\r\nContent-Type: text/html; charset=utf-8\r\nContent-Length: ");
    reveal_strlit("\r\nConnection: close\r\n\r\n");
    let one = "Content-Type"@ + seq![':', ' '] + "text/html; charset=utf-8"@ + seq!['\r', '\n'];
    let end = "Connection"@ + seq![':', ' '] + "close"@ + seq!['\r', '\n'];
    assert("HTTP/1.1 200 OK\r\nContent-Type: text/html; charset=utf-8\r\nContent-Length: "@
        =~= "HTTP/1.1 200 OK\r\n"@ + one + "Content-Length"@ + seq![':', ' ']);
    assert("\r\nConnection: close\r\n\r\n"@ =~= seq!['\r', '\n'] + end + "\r\n"@);
    let lines = http::header_lines(headers);
    assert(lines =~= one + ("Content-Length"@ + seq![':', ' '] + size + seq!['\r', '\n'] + end));
    assert(ok_text(page) =~= "HTTP/1.1 200 OK\r\n"@ + lines + "\r\n"@ + page);
}

/// Bytes in base 64: three bytes make four characters, each standing for six bits, the highest
/// first; of fewer bytes the missing characters are equals signs.
#[verifier::rlimit(60)]
pub proof fn base64_keeps_every_bit(a: u8, b: u8, c: u8, rest: Seq<u8>, i: int)
    requires
        0 <= i < 64,
    ensures
        base64(seq![a, b, c] + rest).len() == 4 + base64(rest).len(),
        base64(seq![a, b, c] + rest).skip(4) == base64(rest),
        ({
            let g = base64(seq![a, b, c]);
            &&& g.len() == 4
            &&& g == seq![
                alphabet()[a as int / 4],
                alphabet()[a as int % 4 * 16 + b as int / 16],
                alphabet()[b as int % 16 * 4 + c as int / 64],
                alphabet()[c as int % 64],
            ]
        }),
        base64(seq![a, b]) == seq![
            alphabet()[a as int / 4],
            alphabet()[a as int % 4 * 16 + b as int / 16],
            alphabet()[b as int % 16 * 4],
            '=',
        ],
        base64(seq![a]) == seq![alphabet()[a as int / 4], alphabet()[a as int % 4 * 16], '=', '='],
        i < 26 ==> alphabet()[i] as int == 'A' as int + i,
        26 <= i < 52 ==> alphabet()[i] as int == 'a' as int + i - 26,
        52 <= i < 62 ==> alphabet()[i] as int == '0' as int + i - 52,
        i == 62 ==> alphabet()[i] == '+',
        i == 63 ==> alphabet()[i] == '/',
{
    reveal_strlit("ABCDEFGHIJKLMNOPQRSTUVWXYZabcdefghijklmnopqrstuvwxyz0123456789+/");
    let all = seq![a, b, c] + rest;
    assert(all.take(3) =~= seq![a, b, c]);
    assert(all.skip(3) =~= rest);
    let g = group(seq![a, b, c]);
    if rest.len() == 0 {
        assert(all =~= seq![a, b, c]);
        assert(base64(rest) =~= Seq::<char>::empty());
    }
    assert(base64(all) =~= g + base64(rest));
    assert(base64(all).skip(4) =~= base64(rest));
    lemma_sextets(a as int, b as int, c as int);
    lemma_sextets(a as int, b as int, 0);
    lemma_sextets(a as int, 0, 0);
    assert(base64(seq![a, b, c]) =~= g);
}

#[verifier::rlimit(60)]
proof fn lemma_sextets(a: int, b: int, c: int)
    requires
        0 <= a < 256,
        0 <= b < 256,
        0 <= c < 256,
    ensures
        ({
            let n = a * 65_536 + b * 256 + c;
            &&& n / 262_144 == a / 4
            &&& n / 4_096 % 64 == a % 4 * 16 + b / 16
            &&& n / 64 % 64 == b % 16 * 4 + c / 64
            &&& n % 64 == c % 64
        }),
{
    let n = a * 65_536 + b * 256 + c;
    let (a1, a0) = (a / 4, a % 4);
    let (b1, b0) = (b / 16, b % 16);
    let (c1, c0) = (c / 64, c % 64);
    assert(a == 4 * a1 + a0 && b == 16 * b1 + b0 && c == 64 * c1 + c0);
    vstd::arithmetic::div_mod::lemma_fundamental_div_mod_converse(
        n,
        262_144,
        a1,
        a0 * 65_536 + b * 256 + c,
    );
    vstd::arithmetic::div_mod::lemma_fundamental_div_mod_converse(
        n,
        4_096,
        a * 16 + b1,
        b0 * 256 + c,
    );
    vstd::arithmetic::div_mod::lemma_fundamental_div_mod_converse(
        a * 16 + b1,
        64,
        a1,
        a0 * 16 + b1,
    );
    vstd::arithmetic::div_mod::lemma_fundamental_div_mod_converse(
        n,
        64,
        a * 1_024 + b * 4 + c1,
        c0,
    );
    vstd::arithmetic::div_mod::lemma_fundamental_div_mod_converse(
        a * 1_024 + b * 4 + c1,
        64,
        a * 16 + b1,
        b0 * 4 + c1,
    );
}

/// Name and password are joined by a colon where there is room for them.
pub proof fn credentials_are_name_and_password(user: Seq<char>, pass: Seq<char>)
    requires
        fixed::byte_len(user) + 1 + fixed::byte_len(pass) <= 96,
    ensures
        credentials(user, pass) == user + seq![':'] + pass,
{
    reveal_strlit(":");
    let pieces = seq![user, ":"@, pass];
    assert(":"@ =~= seq![':']);
    reveal_with_fuel(fixed::flat, 4);
    assert(pieces.drop_last() =~= seq![user, ":"@]);
    assert(seq![user, ":"@].drop_last() =~= seq![user]);
    assert(seq![user].drop_last() =~= Seq::<Seq<char>>::empty());
    assert(fixed::flat(pieces) =~= user + ":"@ + pass);
    fixed::byte_len_adds(user, ":"@);
    fixed::byte_len_adds(user + ":"@, pass);
    fixed::ascii_takes_one_byte_each(":"@);
    assert(fixed::byte_len(Seq::<char>::empty()) == 0);
    fixed::what_fits_is_written(Seq::empty(), pieces, 96);
    assert(Seq::<char>::empty() + (user + ":"@ + pass) =~= user + seq![':'] + pass);
}

/// The form of a request is what stands between its first blank line and the next, or its end.
pub proof fn the_form_is_what_follows_the_blank_line(request: Seq<char>, a: int, b: int)
    requires
        0 <= a,
        a + 4 <= b <= request.len(),
        text::reads(request, "\r\n\r\n"@, a, request.len() as int),
        forall|j: int|
            0 <= j < a ==> !#[trigger] text::reads(request, "\r\n\r\n"@, j, request.len() as int),
        forall|j: int|
            a + 4 <= j < b ==> !#[trigger] text::reads(
                request,
                "\r\n\r\n"@,
                j,
                request.len() as int,
            ),
        b == request.len() || text::reads(request, "\r\n\r\n"@, b, request.len() as int),
    ensures
        form_of(request) == Some((a + 4, b)),
{
    reveal_strlit("\r\n\r\n");
    text::next_text_is_there(request, "\r\n\r\n"@, 0, request.len() as int, a);
    text::next_text_is_there(request, "\r\n\r\n"@, a + 4, request.len() as int, b);
}

/// Null characters behind a number do not count: a buffer that was not filled reads the same.
pub proof fn nulls_behind_a_number_do_not_count(s: Seq<char>, i: int, end: int, nulls: int)
    requires
        0 <= i < end,
        0 <= nulls,
        end + nulls <= s.len(),
        s[end - 1] != '\0',
        forall|j: int| end <= j < end + nulls ==> #[trigger] s[j] == '\0',
    ensures
        number_at(s, i, end + nulls) == text::number(s.subrange(i, end), u32::MAX as nat),
{
    lemma_back_over_nulls(s, i, end, nulls);
}

proof fn lemma_back_over_nulls(s: Seq<char>, i: int, end: int, nulls: int)
    requires
        0 <= i < end,
        0 <= nulls,
        end + nulls <= s.len(),
        s[end - 1] != '\0',
        forall|j: int| end <= j < end + nulls ==> #[trigger] s[j] == '\0',
    ensures
        back_over_nulls(s, i, end + nulls) == end,
    decreases nulls,
{
    if nulls > 0 {
        assert(s[end + nulls - 1] == '\0');
        lemma_back_over_nulls(s, i, end, nulls - 1);
    }
}

} // verus!
