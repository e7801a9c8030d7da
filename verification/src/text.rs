//! Characters and digits.
use vstd::prelude::*;

verus! {

/// The characters of a string.
pub fn chars_of(s: &str) -> (r: Vec<char>)
    ensures
        r@ == s@,
{
    let mut out: Vec<char> = Vec::new();
    for c in it: s.chars()
        invariant
            out@ == it.seq().take(it.index() as int),
    {
        out.push(c);
    }
    assert(out@ =~= s@);
    out
}

/// The texts of some strings.
pub open spec fn texts(lines: Seq<String>) -> Seq<Seq<char>> {
    lines.map_values(|l: String| l@)
}

/// The texts of some string slices.
pub open spec fn slices(parts: Seq<&str>) -> Seq<Seq<char>> {
    parts.map_values(|p: &str| p@)
}

/// Adds a line.
pub fn push_line(lines: &mut Vec<String>, line: String)
    ensures
        texts(final(lines)@) == texts(old(lines)@).push(line@),
{
    lines.push(line);
    assert(texts(lines@) =~= texts(old(lines)@).push(line@));
}

/// What a hexadecimal digit stands for.
pub open spec fn hex_value(c: char) -> Option<u8> {
    if '0' <= c <= '9' {
        Some((c as int - '0' as int) as u8)
    } else if 'a' <= c <= 'f' {
        Some((c as int - 'a' as int + 10) as u8)
    } else if 'A' <= c <= 'F' {
        Some((c as int - 'A' as int + 10) as u8)
    } else {
        None
    }
}

/// What a hexadecimal digit stands for, in either case.
pub fn hex_digit(c: char) -> (r: Option<u8>)
    ensures
        r == hex_value(c),
        r is Some ==> r->0 < 16,
{
    if '0' <= c && c <= '9' {
        Some((c as u32 - '0' as u32) as u8)
    } else if 'a' <= c && c <= 'f' {
        Some((c as u32 - 'a' as u32 + 10) as u8)
    } else if 'A' <= c && c <= 'F' {
        Some((c as u32 - 'A' as u32 + 10) as u8)
    } else {
        None
    }
}

/// Whether a character only groups the digits of an identifier.
pub open spec fn is_separator(c: char) -> bool {
    c == ':' || c == '-' || c == ' ' || c == '_'
}

/// The characters of an identifier without its separators.
pub open spec fn grouped(s: Seq<char>) -> Seq<char>
    decreases s.len(),
{
    if s.len() == 0 {
        Seq::empty()
    } else if is_separator(s.last()) {
        grouped(s.drop_last())
    } else {
        grouped(s.drop_last()).push(s.last())
    }
}

/// The `n` bytes that `2n` hexadecimal digits spell, separators aside, or nothing where there
/// are more or fewer digits or other characters.
pub open spec fn hex_bytes(s: Seq<char>, n: nat) -> Option<Seq<u8>> {
    let d = grouped(s);
    if d.len() == 2 * n && forall|i: int| 0 <= i < d.len() ==> hex_value(#[trigger] d[i]) is Some {
        Some(
            Seq::new(
                n,
                |i: int| (16 * hex_value(d[2 * i])->0 + hex_value(d[2 * i + 1])->0) as u8,
            ),
        )
    } else {
        None
    }
}

proof fn lemma_grouped_prefix(s: Seq<char>, n: int)
    requires
        0 <= n <= s.len(),
    ensures
        grouped(s.take(n)).is_prefix_of(grouped(s)),
    decreases s.len(),
{
    if n == s.len() {
        assert(s.take(n) =~= s);
    } else {
        lemma_grouped_prefix(s.drop_last(), n);
        assert(s.drop_last().take(n) =~= s.take(n));
    }
}

/// Parse `n` bytes written as hexadecimal digits; `:`, `-`, `_` and blanks are ignored and
/// case does not matter.
pub fn parse_hex(s: &str, n: usize) -> (r: Option<Vec<u8>>)
    ensures
        match hex_bytes(s@, n as nat) {
            Some(b) => r is Some && r->0@ == b,
            None => r is None,
        },
{
    let text: Vec<char> = chars_of(s);
    let mut digits: Vec<u8> = Vec::new();
    let mut i: usize = 0;
    assert(text@.take(0) =~= Seq::<char>::empty());
    while i < text.len()
        invariant
            i <= text.len(),
            text@ == s@,
            digits@.len() == grouped(text@.take(i as int)).len(),
            forall|j: int|
                0 <= j < digits@.len() ==> hex_value(#[trigger] grouped(text@.take(i as int))[j])
                    == Some(digits@[j]) && digits@[j] < 16,
        decreases text.len() - i,
    {
        let c: char = text[i];
        proof {
            assert(text@.take(i + 1).drop_last() =~= text@.take(i as int));
            assert(text@.take(i + 1).last() == c);
        }
        if !(c == ':' || c == '-' || c == ' ' || c == '_') {
            match hex_digit(c) {
                None => {
                    proof {
                        lemma_grouped_prefix(text@, i + 1);
                        let whole = grouped(text@);
                        let k = grouped(text@.take(i as int)).len() as int;
                        assert(grouped(text@.take(i + 1))[k] == c);
                        assert(whole[k] == c);
                    }
                    return None;
                },
                Some(d) => {
                    digits.push(d);
                },
            }
        }
        i += 1;
    }
    assert(text@.take(i as int) =~= text@);
    if digits.len() % 2 != 0 || digits.len() / 2 != n {
        return None;
    }
    let mut out: Vec<u8> = Vec::new();
    let mut k: usize = 0;
    while k < n
        invariant
            k <= n,
            2 * n <= usize::MAX,
            digits@.len() == 2 * n,
            digits@.len() == grouped(s@).len(),
            forall|j: int|
                0 <= j < digits@.len() ==> hex_value(#[trigger] grouped(s@)[j]) == Some(digits@[j])
                    && digits@[j] < 16,
            out@.len() == k,
            forall|j: int|
                0 <= j < k ==> #[trigger] out@[j] == (16 * hex_value(grouped(s@)[2 * j])->0
                    + hex_value(grouped(s@)[2 * j + 1])->0) as u8,
        decreases n - k,
    {
        assert(hex_value(grouped(s@)[2 * k as int]) == Some(digits@[2 * k as int]));
        assert(hex_value(grouped(s@)[2 * k + 1]) == Some(digits@[2 * k + 1]));
        out.push(16 * digits[2 * k] + digits[2 * k + 1]);
        k += 1;
    }
    assert(out@ =~= hex_bytes(s@, n as nat)->0);
    Some(out)
}

/// The first position of `c` from `i` on, or `end` where there is none before it.
pub open spec fn next(s: Seq<char>, c: char, i: int, end: int) -> int
    decreases end - i,
{
    if i >= end || s[i] == c {
        i
    } else {
        next(s, c, i + 1, end)
    }
}

/// Whether `s` reads `pat` at `i`.
pub open spec fn reads(s: Seq<char>, pat: Seq<char>, i: int, end: int) -> bool {
    i + pat.len() <= end && s.subrange(i, i + pat.len() as int) == pat
}

/// The first position at which `s` reads `pat` from `i` on, or `end` where there is none.
pub open spec fn next_text(s: Seq<char>, pat: Seq<char>, i: int, end: int) -> int
    decreases end - i,
{
    if i >= end || reads(s, pat, i, end) {
        i
    } else {
        next_text(s, pat, i + 1, end)
    }
}

/// Whether a character is white space.
pub open spec fn is_space(c: char) -> bool {
    ||| '\t' <= c <= '\r'
    ||| c == ' '
    ||| c == '\u{85}'
    ||| c == '\u{a0}'
    ||| c == '\u{1680}'
    ||| '\u{2000}' <= c <= '\u{200a}'
    ||| c == '\u{2028}'
    ||| c == '\u{2029}'
    ||| c == '\u{202f}'
    ||| c == '\u{205f}'
    ||| c == '\u{3000}'
}

/// The first position from `i` on that is not white space, or `end`.
pub open spec fn skip_space(s: Seq<char>, i: int, end: int) -> int
    decreases end - i,
{
    if i >= end || !is_space(s[i]) {
        i
    } else {
        skip_space(s, i + 1, end)
    }
}

/// The first position from `i` on that is white space, or `end`.
pub open spec fn next_space(s: Seq<char>, i: int, end: int) -> int
    decreases end - i,
{
    if i >= end || is_space(s[i]) {
        i
    } else {
        next_space(s, i + 1, end)
    }
}

/// `end` moved back over white space, as far as `i`.
pub open spec fn back_over_space(s: Seq<char>, i: int, end: int) -> int
    decreases end - i,
{
    if end <= i || !is_space(s[end - 1]) {
        end
    } else {
        back_over_space(s, i, end - 1)
    }
}

/// Where the text between `i` and `end` lies without the white space around it.
pub open spec fn trimmed(s: Seq<char>, i: int, end: int) -> (int, int) {
    (skip_space(s, i, end), back_over_space(s, skip_space(s, i, end), end))
}

/// A text without the white space around it.
pub open spec fn trim(s: Seq<char>) -> Seq<char> {
    s.subrange(trimmed(s, 0, s.len() as int).0, trimmed(s, 0, s.len() as int).1)
}

/// A letter of the Latin alphabet as a small one.
pub open spec fn small(c: char) -> char {
    if 'A' <= c <= 'Z' {
        (c as int + 32) as char
    } else {
        c
    }
}

/// Whether two texts agree but for the case of Latin letters.
pub open spec fn same_letters(a: Seq<char>, b: Seq<char>) -> bool {
    a.len() == b.len() && forall|i: int| 0 <= i < a.len() ==> small(#[trigger] a[i]) == small(b[i])
}

/// Whether a text consists of decimal digits.
pub open spec fn all_digits(s: Seq<char>) -> bool {
    forall|i: int| 0 <= i < s.len() ==> '0' <= #[trigger] s[i] <= '9'
}

/// What decimal digits stand for.
pub open spec fn digits_value(s: Seq<char>) -> nat
    decreases s.len(),
{
    if s.len() == 0 {
        0
    } else {
        digits_value(s.drop_last()) * 10 + (s.last() as int - '0' as int) as nat
    }
}

/// The digits of a number, without its plus sign.
pub open spec fn unsigned_part(s: Seq<char>) -> Seq<char> {
    if s.len() > 1 && s[0] == '+' {
        s.skip(1)
    } else {
        s
    }
}

/// The number of at most `max` that a text spells: decimal digits, led by a plus sign or not.
pub open spec fn number(s: Seq<char>, max: nat) -> Option<nat> {
    let d = unsigned_part(s);
    if d.len() > 0 && all_digits(d) && digits_value(d) <= max {
        Some(digits_value(d))
    } else {
        None
    }
}

/// A number in decimal digits.
pub open spec fn decimal(n: nat) -> Seq<char>
    decreases n,
{
    if n < 10 {
        seq![digit_char(n)]
    } else {
        decimal(n / 10).push(digit_char(n % 10))
    }
}

/// The character of a decimal or hexadecimal digit.
pub open spec fn digit_char(d: nat) -> char {
    if d < 10 {
        ('0' as int + d) as char
    } else {
        ('a' as int + d - 10) as char
    }
}

/// A signed number in decimal digits.
pub open spec fn signed(n: int) -> Seq<char> {
    if n < 0 {
        seq!['-'] + decimal((-n) as nat)
    } else {
        decimal(n as nat)
    }
}

/// A number in at least two decimal digits.
pub open spec fn two_digits(n: nat) -> Seq<char> {
    if n < 10 {
        seq!['0'] + decimal(n)
    } else {
        decimal(n)
    }
}

/// The sign of a number, where it has one.
pub open spec fn sign(n: int) -> Seq<char> {
    if n < 0 {
        "-"@
    } else {
        ""@
    }
}

/// The zero in front of a number that is to have two digits.
pub open spec fn pad(n: nat) -> Seq<char> {
    if n < 10 {
        "0"@
    } else {
        ""@
    }
}

/// A byte in two hexadecimal digits.
pub open spec fn hex_pair(b: u8) -> Seq<char> {
    seq![digit_char((b / 16) as nat), digit_char((b % 16) as nat)]
}

/// Bytes in hexadecimal digits.
pub open spec fn hex(b: Seq<u8>) -> Seq<char>
    decreases b.len(),
{
    if b.len() == 0 {
        Seq::empty()
    } else {
        hex(b.drop_last()) + hex_pair(b.last())
    }
}

/// A 32-bit number in eight hexadecimal digits.
pub open spec fn hex_word(n: u32) -> Seq<char> {
    hex(
        seq![
            (n / 0x100_0000) as u8,
            (n / 0x1_0000 % 256) as u8,
            (n / 0x100 % 256) as u8,
            (n % 256) as u8,
        ],
    )
}

/// The first position of `c` between `i` and `end`, or `end`.
pub fn find(s: &[char], c: char, i: usize, end: usize) -> (r: usize)
    requires
        i <= end <= s@.len(),
    ensures
        r == next(s@, c, i as int, end as int),
        i <= r <= end,
        r < end ==> s@[r as int] == c,
        forall|j: int| i <= j < r ==> #[trigger] s@[j] != c,
{
    let mut k: usize = i;
    while k < end && s[k] != c
        invariant
            i <= k <= end <= s@.len(),
            next(s@, c, i as int, end as int) == next(s@, c, k as int, end as int),
            forall|j: int| i <= j < k ==> #[trigger] s@[j] != c,
        decreases end - k,
    {
        k += 1;
    }
    k
}

/// Whether `s` reads `pat` at `i`.
pub fn starts(s: &[char], pat: &[char], i: usize, end: usize) -> (r: bool)
    requires
        i <= end <= s@.len(),
    ensures
        r == reads(s@, pat@, i as int, end as int),
{
    if pat.len() > end - i {
        return false;
    }
    let mut k: usize = 0;
    while k < pat.len()
        invariant
            k <= pat@.len(),
            i + pat@.len() <= end <= s@.len(),
            forall|j: int| 0 <= j < k ==> s@[i + j] == #[trigger] pat@[j],
        decreases pat@.len() - k,
    {
        if s[i + k] != pat[k] {
            assert(s@.subrange(i as int, i + pat@.len())[k as int] != pat@[k as int]);
            return false;
        }
        k += 1;
    }
    assert(s@.subrange(i as int, i + pat@.len()) =~= pat@);
    true
}

/// The first position at which `s` reads `pat` between `i` and `end`, or `end`.
pub fn find_text(s: &[char], pat: &[char], i: usize, end: usize) -> (r: usize)
    requires
        i <= end <= s@.len(),
    ensures
        r == next_text(s@, pat@, i as int, end as int),
        i <= r <= end,
        r < end ==> reads(s@, pat@, r as int, end as int),
{
    let mut k: usize = i;
    while k < end && !starts(s, pat, k, end)
        invariant
            i <= k <= end <= s@.len(),
            next_text(s@, pat@, i as int, end as int) == next_text(s@, pat@, k as int, end as int),
        decreases end - k,
    {
        k += 1;
    }
    k
}

/// Whether a character is white space.
pub fn space(c: char) -> (r: bool)
    ensures
        r == is_space(c),
{
    ('\t' <= c && c <= '\r') || c == ' ' || c == '\u{85}' || c == '\u{a0}' || c == '\u{1680}' || (
    '\u{2000}' <= c && c <= '\u{200a}') || c == '\u{2028}' || c == '\u{2029}' || c == '\u{202f}' || c
        == '\u{205f}' || c == '\u{3000}'
}

/// The first position from `i` on that is not white space, or `end`.
pub fn past_space(s: &[char], i: usize, end: usize) -> (r: usize)
    requires
        i <= end <= s@.len(),
    ensures
        r == skip_space(s@, i as int, end as int),
        i <= r <= end,
{
    let mut k: usize = i;
    while k < end && space(s[k])
        invariant
            i <= k <= end <= s@.len(),
            skip_space(s@, i as int, end as int) == skip_space(s@, k as int, end as int),
        decreases end - k,
    {
        k += 1;
    }
    k
}

/// The first position from `i` on that is white space, or `end`.
pub fn find_space(s: &[char], i: usize, end: usize) -> (r: usize)
    requires
        i <= end <= s@.len(),
    ensures
        r == next_space(s@, i as int, end as int),
        i <= r <= end,
{
    let mut k: usize = i;
    while k < end && !space(s[k])
        invariant
            i <= k <= end <= s@.len(),
            next_space(s@, i as int, end as int) == next_space(s@, k as int, end as int),
        decreases end - k,
    {
        k += 1;
    }
    k
}

/// Where the text between `i` and `end` lies without the white space around it.
pub fn trim_range(s: &[char], i: usize, end: usize) -> (r: (usize, usize))
    requires
        i <= end <= s@.len(),
    ensures
        (r.0 as int, r.1 as int) == trimmed(s@, i as int, end as int),
        i <= r.0 <= r.1 <= end,
{
    let a: usize = past_space(s, i, end);
    let mut b: usize = end;
    while b > a && space(s[b - 1])
        invariant
            a <= b <= end <= s@.len(),
            back_over_space(s@, a as int, end as int) == back_over_space(s@, a as int, b as int),
        decreases b,
    {
        b -= 1;
    }
    (a, b)
}

/// Whether two characters agree but for the case of Latin letters.
pub fn same_letter(a: char, b: char) -> (r: bool)
    ensures
        r == (small(a) == small(b)),
{
    let x: u32 = if 'A' <= a && a <= 'Z' {
        a as u32 + 32
    } else {
        a as u32
    };
    let y: u32 = if 'A' <= b && b <= 'Z' {
        b as u32 + 32
    } else {
        b as u32
    };
    x == y
}

/// Whether the text between `i` and `end` agrees with `word` but for the case of letters.
pub fn is_word(s: &[char], word: &[char], i: usize, end: usize) -> (r: bool)
    requires
        i <= end <= s@.len(),
    ensures
        r == same_letters(s@.subrange(i as int, end as int), word@),
{
    let ghost part = s@.subrange(i as int, end as int);
    if end - i != word.len() {
        return false;
    }
    let mut k: usize = 0;
    while k < word.len()
        invariant
            k <= word@.len(),
            i <= end <= s@.len(),
            end - i == word@.len(),
            part == s@.subrange(i as int, end as int),
            forall|j: int| 0 <= j < k ==> small(#[trigger] part[j]) == small(word@[j]),
        decreases word@.len() - k,
    {
        if !same_letter(s[i + k], word[k]) {
            assert(small(part[k as int]) != small(word@[k as int]));
            return false;
        }
        k += 1;
    }
    true
}

/// Whether the text between `i` and `end` is `word`.
pub fn is_text(s: &[char], word: &[char], i: usize, end: usize) -> (r: bool)
    requires
        i <= end <= s@.len(),
    ensures
        r == (s@.subrange(i as int, end as int) == word@),
{
    if end - i != word.len() {
        return false;
    }
    let r: bool = starts(s, word, i, end);
    r
}

proof fn lemma_digits_value_grows(s: Seq<char>, n: int)
    requires
        0 <= n <= s.len(),
        all_digits(s),
    ensures
        digits_value(s.take(n)) <= digits_value(s),
    decreases s.len(),
{
    if n < s.len() {
        lemma_digits_value_grows(s.drop_last(), n);
        assert(s.drop_last().take(n) =~= s.take(n));
        assert('0' <= s.last() <= '9');
    } else {
        assert(s.take(n) =~= s);
    }
}

/// Parse the number of at most `max` between `i` and `end`.
pub fn parse_number(s: &[char], i: usize, end: usize, max: u32) -> (r: Option<u32>)
    requires
        i <= end <= s@.len(),
    ensures
        match number(s@.subrange(i as int, end as int), max as nat) {
            Some(n) => r is Some && r->0 == n,
            None => r is None,
        },
{
    let ghost whole = s@.subrange(i as int, end as int);
    let from: usize = if end - i > 1 && s[i] == '+' {
        i + 1
    } else {
        i
    };
    let ghost d = unsigned_part(whole);
    assert(d =~= s@.subrange(from as int, end as int));
    if from == end {
        return None;
    }
    let mut value: u64 = 0;
    let mut k: usize = from;
    assert(d.take(0) =~= Seq::<char>::empty());
    while k < end
        invariant
            from <= k <= end <= s@.len(),
            d == s@.subrange(from as int, end as int),
            whole == s@.subrange(i as int, end as int),
            d == unsigned_part(whole),
            forall|j: int| from <= j < k ==> '0' <= #[trigger] s@[j] <= '9',
            value == digits_value(d.take(k - from)),
            value <= max,
        decreases end - k,
    {
        let c: char = s[k];
        if c < '0' || c > '9' {
            assert(d[k - from] == c);
            return None;
        }
        value = value * 10 + (c as u64 - '0' as u64);
        proof {
            assert(d.take(k + 1 - from).drop_last() =~= d.take(k - from));
            assert(d.take(k + 1 - from).last() == c);
        }
        if value > max as u64 {
            proof {
                if all_digits(d) {
                    lemma_digits_value_grows(d, k + 1 - from);
                }
            }
            return None;
        }
        k += 1;
    }
    assert(d.take(end - from) =~= d);
    assert(all_digits(d));
    Some(value as u32)
}

/// Appends a decimal or hexadecimal digit.
pub fn push_digit(out: &mut String, d: u8)
    requires
        d < 16,
    ensures
        final(out)@ == old(out)@.push(digit_char(d as nat)),
{
    proof {
        reveal_strlit("0");
        reveal_strlit("1");
        reveal_strlit("2");
        reveal_strlit("3");
        reveal_strlit("4");
        reveal_strlit("5");
        reveal_strlit("6");
        reveal_strlit("7");
        reveal_strlit("8");
        reveal_strlit("9");
        reveal_strlit("a");
        reveal_strlit("b");
        reveal_strlit("c");
        reveal_strlit("d");
        reveal_strlit("e");
        reveal_strlit("f");
    }
    let c: &str = match d {
        0 => "0",
        1 => "1",
        2 => "2",
        3 => "3",
        4 => "4",
        5 => "5",
        6 => "6",
        7 => "7",
        8 => "8",
        9 => "9",
        10 => "a",
        11 => "b",
        12 => "c",
        13 => "d",
        14 => "e",
        _ => "f",
    };
    assert(c@ =~= seq![digit_char(d as nat)]);
    out.append(c);
    assert(out@ =~= old(out)@.push(digit_char(d as nat)));
}

/// Appends a number in decimal digits.
pub fn push_decimal(out: &mut String, n: u64)
    ensures
        final(out)@ == old(out)@ + decimal(n as nat),
    decreases n,
{
    if n >= 10 {
        push_decimal(out, n / 10);
        push_digit(out, (n % 10) as u8);
        assert(out@ =~= old(out)@ + decimal(n as nat));
    } else {
        push_digit(out, n as u8);
        assert(out@ =~= old(out)@ + decimal(n as nat));
    }
}

/// A number in decimal digits.
pub fn in_decimal(n: u64) -> (r: String)
    ensures
        r@ == decimal(n as nat),
{
    let mut out = String::new();
    push_decimal(&mut out, n);
    assert(out@ =~= decimal(n as nat));
    out
}

/// The zero in front of a number that is to have two digits.
pub fn padding(n: u64) -> (r: &'static str)
    ensures
        r@ == pad(n as nat),
{
    if n < 10 {
        "0"
    } else {
        ""
    }
}

/// Appends a signed number in decimal digits.
pub fn push_signed(out: &mut String, n: i64)
    ensures
        final(out)@ == old(out)@ + signed(n as int),
{
    if n < 0 {
        proof {
            reveal_strlit("-");
        }
        assert("-"@ =~= seq!['-']);
        out.append("-");
        let size: u64 = (-(n + 1)) as u64 + 1;
        push_decimal(out, size);
        assert(out@ =~= old(out)@ + signed(n as int));
    } else {
        push_decimal(out, n as u64);
    }
}

/// Appends a number in at least two decimal digits.
pub fn push_two_digits(out: &mut String, n: u64)
    ensures
        final(out)@ == old(out)@ + two_digits(n as nat),
{
    if n < 10 {
        push_digit(out, 0);
    }
    push_decimal(out, n);
    assert(out@ =~= old(out)@ + two_digits(n as nat));
}

/// Appends bytes in hexadecimal digits.
pub fn push_hex(out: &mut String, b: &[u8])
    ensures
        final(out)@ == old(out)@ + hex(b@),
{
    let mut i: usize = 0;
    assert(b@.take(0) =~= Seq::<u8>::empty());
    assert(out@ =~= old(out)@ + hex(b@.take(0)));
    while i < b.len()
        invariant
            i <= b@.len(),
            out@ == old(out)@ + hex(b@.take(i as int)),
        decreases b@.len() - i,
    {
        push_digit(out, b[i] / 16);
        push_digit(out, b[i] % 16);
        proof {
            let upto = b@.take(i + 1);
            assert(upto.drop_last() =~= b@.take(i as int));
            assert(hex(upto) =~= hex(b@.take(i as int)) + hex_pair(b@[i as int]));
            assert(out@ =~= old(out)@ + hex(upto));
        }
        i += 1;
    }
    assert(b@.take(i as int) =~= b@);
}

/// Appends a 32-bit number in eight hexadecimal digits.
pub fn push_hex_word(out: &mut String, n: u32)
    ensures
        final(out)@ == old(out)@ + hex_word(n),
{
    let b: [u8; 4] = [
        (n / 0x100_0000) as u8,
        (n / 0x1_0000 % 256) as u8,
        (n / 0x100 % 256) as u8,
        (n % 256) as u8,
    ];
    assert(b@ =~= seq![
        (n / 0x100_0000) as u8,
        (n / 0x1_0000 % 256) as u8,
        (n / 0x100 % 256) as u8,
        (n % 256) as u8,
    ]);
    push_hex(out, b.as_slice());
}

/// Hexadecimal digits stand for what they were written for.
proof fn lemma_digit_char(d: nat)
    requires
        d < 16,
    ensures
        hex_value(digit_char(d)) == Some(d as u8),
        !is_separator(digit_char(d)),
{
}

proof fn lemma_grouped_hex(b: Seq<u8>)
    ensures
        grouped(hex(b)) == hex(b),
        hex(b).len() == 2 * b.len(),
        forall|i: int|
            0 <= i < b.len() ==> hex(b)[2 * i] == #[trigger] hex_pair(b[i])[0] && hex(b)[2 * i + 1]
                == hex_pair(b[i])[1],
    decreases b.len(),
{
    if b.len() > 0 {
        let rest = b.drop_last();
        lemma_grouped_hex(rest);
        lemma_digit_char((b.last() / 16) as nat);
        lemma_digit_char((b.last() % 16) as nat);
        let text = hex(b);
        let (x, y) = (hex_pair(b.last())[0], hex_pair(b.last())[1]);
        assert(text =~= hex(rest).push(x).push(y));
        assert(text.drop_last() =~= hex(rest).push(x));
        assert(hex(rest).push(x).drop_last() =~= hex(rest));
        assert(grouped(hex(rest).push(x)) == grouped(hex(rest)).push(x));
        assert(grouped(text) == grouped(text.drop_last()).push(y));
        assert forall|i: int| 0 <= i < b.len() implies hex(b)[2 * i] == #[trigger] hex_pair(b[i])[0]
            && hex(b)[2 * i + 1] == hex_pair(b[i])[1] by {
            if i < rest.len() {
                assert(rest[i] == b[i]);
                assert(hex(rest)[2 * i] == hex_pair(rest[i])[0]);
            }
        }
    }
}

/// Bytes survive the way through their hexadecimal form.
pub proof fn hex_round_trip(b: Seq<u8>)
    ensures
        hex_bytes(hex(b), b.len()) == Some(b),
{
    lemma_grouped_hex(b);
    let d = grouped(hex(b));
    assert forall|i: int| 0 <= i < d.len() implies hex_value(#[trigger] d[i]) is Some by {
        let k = i / 2;
        assert(hex_pair(b[k]).len() == 2);
        lemma_digit_char((b[k] / 16) as nat);
        lemma_digit_char((b[k] % 16) as nat);
        assert(hex(b)[2 * k] == hex_pair(b[k])[0]);
    }
    let back = hex_bytes(hex(b), b.len())->0;
    assert forall|i: int| 0 <= i < b.len() implies back[i] == b[i] by {
        assert(hex(b)[2 * i] == hex_pair(b[i])[0]);
        lemma_digit_char((b[i] / 16) as nat);
        lemma_digit_char((b[i] % 16) as nat);
    }
    assert(back =~= b);
}

/// Bytes in hexadecimal digits are ASCII, two characters for each.
pub proof fn hex_is_ascii(b: Seq<u8>)
    ensures
        hex(b).len() == 2 * b.len(),
        forall|i: int| 0 <= i < hex(b).len() ==> #[trigger] hex(b)[i] < '\u{80}',
    decreases b.len(),
{
    if b.len() > 0 {
        hex_is_ascii(b.drop_last());
        let rest = hex(b.drop_last());
        assert forall|i: int| 0 <= i < hex(b).len() implies #[trigger] hex(b)[i]
            < '\u{80}' by {
            if i < rest.len() {
                assert(hex(b)[i] == rest[i]);
            }
        }
    }
}

/// A number survives the way through its decimal form.
pub proof fn decimal_round_trip(n: nat, max: nat)
    requires
        n <= max,
    ensures
        number(decimal(n), max) == Some(n),
{
    decimal_spells_the_number(n);
}

/// A number in decimal digits is ASCII.
pub proof fn decimal_is_ascii(n: nat)
    ensures
        forall|i: int| 0 <= i < decimal(n).len() ==> #[trigger] decimal(n)[i] < '\u{80}',
{
    decimal_spells_the_number(n);
}

/// The digits of a number spell that number.
pub proof fn decimal_spells_the_number(n: nat)
    ensures
        all_digits(decimal(n)),
        digits_value(decimal(n)) == n,
        decimal(n).len() > 0,
    decreases n,
{
    if n < 10 {
        let d = decimal(n);
        assert(d.drop_last() =~= Seq::<char>::empty());
        assert(digits_value(d.drop_last()) == 0);
    } else {
        decimal_spells_the_number(n / 10);
        let d = decimal(n);
        assert(d.drop_last() =~= decimal(n / 10));
    }
}

/// The first of a character: where it stands, or the end where it does not.
pub proof fn next_is_there(s: Seq<char>, c: char, i: int, end: int, at: int)
    requires
        i <= at <= end,
        forall|j: int| i <= j < at ==> #[trigger] s[j] != c,
        at == end || s[at] == c,
    ensures
        next(s, c, i, end) == at,
    decreases at - i,
{
    if i < at {
        assert(s[i] != c);
        next_is_there(s, c, i + 1, end, at);
    }
}

/// The first of a text: where it is read, or the end where it is not.
pub proof fn next_text_is_there(s: Seq<char>, pat: Seq<char>, i: int, end: int, at: int)
    requires
        i <= at <= end,
        forall|j: int| i <= j < at ==> !#[trigger] reads(s, pat, j, end),
        at == end || reads(s, pat, at, end),
    ensures
        next_text(s, pat, i, end) == at,
    decreases at - i,
{
    if i < at {
        assert(!reads(s, pat, i, end));
        next_text_is_there(s, pat, i + 1, end, at);
    }
}

/// The first of a text stands no later than any other of it.
pub proof fn next_text_not_beyond(s: Seq<char>, pat: Seq<char>, i: int, end: int, at: int)
    requires
        i <= at < end,
        reads(s, pat, at, end),
    ensures
        i <= next_text(s, pat, i, end) <= at,
    decreases at - i,
{
    if i < at && !reads(s, pat, i, end) {
        next_text_not_beyond(s, pat, i + 1, end, at);
    }
}

/// White space is passed over up to the first character that is none.
pub proof fn space_is_passed_over(s: Seq<char>, i: int, end: int, at: int)
    requires
        i <= at <= end,
        forall|j: int| i <= j < at ==> is_space(#[trigger] s[j]),
        at == end || !is_space(s[at]),
    ensures
        skip_space(s, i, end) == at,
    decreases at - i,
{
    if i < at {
        assert(is_space(s[i]));
        space_is_passed_over(s, i + 1, end, at);
    }
}

/// A word ends at the first white space behind it.
pub proof fn a_word_ends_at_a_space(s: Seq<char>, i: int, end: int, at: int)
    requires
        i <= at <= end,
        forall|j: int| i <= j < at ==> !is_space(#[trigger] s[j]),
        at == end || is_space(s[at]),
    ensures
        next_space(s, i, end) == at,
    decreases at - i,
{
    if i < at {
        assert(!is_space(s[i]));
        a_word_ends_at_a_space(s, i + 1, end, at);
    }
}

proof fn lemma_back_over_space(s: Seq<char>, i: int, end: int, at: int)
    requires
        i <= at <= end,
        forall|j: int| at <= j < end ==> is_space(#[trigger] s[j]),
        at == i || !is_space(s[at - 1]),
    ensures
        back_over_space(s, i, end) == at,
    decreases end - at,
{
    if at < end {
        assert(is_space(s[end - 1]));
        lemma_back_over_space(s, i, end - 1, at);
    }
}

/// Trimming takes the white space off both ends and nothing else.
pub proof fn trimming_takes_the_space_off(s: Seq<char>, i: int, end: int, a: int, b: int)
    requires
        i <= a < b <= end,
        forall|j: int| i <= j < a ==> is_space(#[trigger] s[j]),
        forall|j: int| b <= j < end ==> is_space(#[trigger] s[j]),
        !is_space(s[a]),
        !is_space(s[b - 1]),
    ensures
        trimmed(s, i, end) == (a, b),
{
    space_is_passed_over(s, i, end, a);
    lemma_back_over_space(s, a, end, b);
}

/// Letters agree but for their case: each with itself, the 26 capital ones with the small ones, and
/// no others.
pub proof fn letters_agree_but_for_case(a: char, b: char)
    ensures
        same_letters(seq![a], seq![b]) <==> a == b || ('a' <= a <= 'z' && a as int - 32 == b as int)
            || ('a' <= b <= 'z' && b as int - 32 == a as int),
        same_letters(seq![a], seq![b]) == same_letters(seq![b], seq![a]),
{
    let (x, y) = (seq![a], seq![b]);
    if same_letters(x, y) {
        assert(small(x[0]) == small(y[0]));
    }
    if same_letters(y, x) {
        assert(small(y[0]) == small(x[0]));
    }
}

/// A hexadecimal digit stands for the same number in either case.
pub proof fn hex_digits_have_either_case(k: int)
    requires
        0 <= k < 16,
    ensures
        k < 10 ==> hex_value(('0' as int + k) as char) == Some(k as u8),
        k >= 10 ==> hex_value(('a' as int + k - 10) as char) == Some(k as u8),
        k >= 10 ==> hex_value(('A' as int + k - 10) as char) == Some(k as u8),
{
}

/// Separators between the digits do not matter.
pub proof fn separators_do_not_matter(s: Seq<char>, c: char)
    requires
        c == ':' || c == '-' || c == '_' || c == ' ',
    ensures
        grouped(s.push(c)) == grouped(s),
        is_separator(c),
{
    assert(s.push(c).drop_last() =~= s);
}

/// The first of a character lies where it was looked for.
pub proof fn next_stays_in_bounds(s: Seq<char>, c: char, i: int, end: int)
    requires
        i <= end,
    ensures
        i <= next(s, c, i, end) <= end,
    decreases end - i,
{
    if i < end && s[i] != c {
        next_stays_in_bounds(s, c, i + 1, end);
    }
}

/// White space ends where it was looked for.
pub proof fn space_ends_in_bounds(s: Seq<char>, i: int, end: int)
    requires
        i <= end,
    ensures
        i <= skip_space(s, i, end) <= end,
    decreases end - i,
{
    if i < end && is_space(s[i]) {
        space_ends_in_bounds(s, i + 1, end);
    }
}

/// What is trimmed lies within what it was trimmed from.
pub proof fn trimming_stays_in_bounds(s: Seq<char>, i: int, end: int)
    requires
        i <= end,
    ensures
        i <= trimmed(s, i, end).0 <= trimmed(s, i, end).1 <= end,
{
    space_ends_in_bounds(s, i, end);
    lemma_back_in_bounds(s, skip_space(s, i, end), end);
}

proof fn lemma_back_in_bounds(s: Seq<char>, i: int, end: int)
    requires
        i <= end,
    ensures
        i <= back_over_space(s, i, end) <= end,
    decreases end - i,
{
    if i < end && is_space(s[end - 1]) {
        lemma_back_in_bounds(s, i, end - 1);
    }
}

} // verus!
