//! Flat `key = "value"` configuration files.
use crate::http;
use crate::text;
use vstd::prelude::*;

verus! {

/// `i` moved forward over quotation marks, as far as `end`.
pub open spec fn past_quotes(s: Seq<char>, i: int, end: int) -> int
    decreases end - i,
{
    if i >= end || s[i] != '"' {
        i
    } else {
        past_quotes(s, i + 1, end)
    }
}

/// `end` moved back over quotation marks, as far as `i`.
pub open spec fn before_quotes(s: Seq<char>, i: int, end: int) -> int
    decreases end - i,
{
    if end <= i || s[end - 1] != '"' {
        end
    } else {
        before_quotes(s, i, end - 1)
    }
}

/// Where key and value lie between `i` and `end`: around the first equals sign, without white
/// space, the value without its quotation marks. A line that begins with `#` is a comment,
/// where comments are allowed.
pub open spec fn pair_at(s: Seq<char>, i: int, end: int, comments: bool) -> Option<
    ((int, int), (int, int)),
> {
    let (a, b) = text::trimmed(s, i, end);
    let eq = text::next(s, '=', a, b);
    if (comments && a < b && s[a] == '#') || eq >= b {
        None
    } else {
        let (c, d) = text::trimmed(s, eq + 1, b);
        let from = past_quotes(s, c, d);
        Some((text::trimmed(s, a, eq), (from, before_quotes(s, from, d))))
    }
}

/// The pairs on the lines from `i` on.
pub open spec fn pairs_from(s: Seq<char>, i: int, comments: bool) -> Seq<(Seq<char>, Seq<char>)>
    decreases s.len() - i,
{
    if i < 0 || i >= s.len() {
        Seq::empty()
    } else {
        let (end, after) = http::line_end(s, i);
        let rest = if after > i {
            pairs_from(s, after, comments)
        } else {
            Seq::empty()
        };
        match pair_at(s, i, end, comments) {
            Some((k, v)) => seq![(s.subrange(k.0, k.1), s.subrange(v.0, v.1))] + rest,
            None => rest,
        }
    }
}

/// The texts of some pairs.
pub open spec fn texts(pairs: Seq<(String, String)>) -> Seq<(Seq<char>, Seq<char>)> {
    pairs.map_values(|p: (String, String)| (p.0@, p.1@))
}

fn pair(s: &[char], i: usize, end: usize, comments: bool) -> (r: Option<
    ((usize, usize), (usize, usize)),
>)
    requires
        i <= end <= s@.len(),
    ensures
        match pair_at(s@, i as int, end as int, comments) {
            Some((k, v)) => {
                &&& r is Some
                &&& ((r->0).0).0 == k.0
                &&& ((r->0).0).1 == k.1
                &&& ((r->0).1).0 == v.0
                &&& ((r->0).1).1 == v.1
                &&& k.0 <= k.1 <= s@.len()
                &&& v.0 <= v.1 <= s@.len()
            },
            None => r is None,
        },
{
    let (a, b) = text::trim_range(s, i, end);
    if comments && a < b && s[a] == '#' {
        return None;
    }
    let eq: usize = text::find(s, '=', a, b);
    if eq >= b {
        return None;
    }
    let key: (usize, usize) = text::trim_range(s, a, eq);
    let (c, d) = text::trim_range(s, eq + 1, b);
    let mut from: usize = c;
    while from < d && s[from] == '"'
        invariant
            c <= from <= d <= s@.len(),
            past_quotes(s@, c as int, d as int) == past_quotes(s@, from as int, d as int),
        decreases d - from,
    {
        from += 1;
    }
    let mut to: usize = d;
    while to > from && s[to - 1] == '"'
        invariant
            from <= to <= d <= s@.len(),
            before_quotes(s@, from as int, d as int) == before_quotes(s@, from as int, to as int),
        decreases to,
    {
        to -= 1;
    }
    Some((key, (from, to)))
}

/// The pairs of a file, in order.
pub fn read_kv(file: &str, comments: bool) -> (r: Vec<(String, String)>)
    ensures
        texts(r@) == pairs_from(file@, 0, comments),
{
    let s: Vec<char> = text::chars_of(file);
    let mut out: Vec<(String, String)> = Vec::new();
    let mut i: usize = 0;
    assert(texts(out@) + pairs_from(s@, 0, comments) =~= pairs_from(s@, 0, comments));
    while i < s.len()
        invariant
            i <= s@.len(),
            s@ == file@,
            texts(out@) + pairs_from(s@, i as int, comments) == pairs_from(s@, 0, comments),
        decreases s@.len() - i,
    {
        let ghost before = out@;
        let (end, after) = http::end_of_line(s.as_slice(), i);
        if let Some((k, v)) = pair(s.as_slice(), i, end, comments) {
            let key: String = file.substring_char(k.0, k.1).to_owned();
            let value: String = file.substring_char(v.0, v.1).to_owned();
            out.push((key, value));
            assert(texts(out@) =~= texts(before).push((key@, value@)));
        }
        assert(texts(out@) + pairs_from(s@, after as int, comments) =~= texts(before) + pairs_from(
            s@,
            i as int,
            comments,
        ));
        i = after;
    }
    assert(texts(out@) =~= pairs_from(file@, 0, comments));
    out
}

/// The value that a key has last.
pub open spec fn last_value(pairs: Seq<(Seq<char>, Seq<char>)>, key: Seq<char>) -> Option<Seq<char>>
    decreases pairs.len(),
{
    if pairs.len() == 0 {
        None
    } else if pairs.last().0 == key {
        Some(pairs.last().1)
    } else {
        last_value(pairs.drop_last(), key)
    }
}

/// The value of a key. Where it is given twice, the last one counts.
pub fn lookup<'a>(pairs: &'a Vec<(String, String)>, key: &str) -> (r: Option<&'a str>)
    ensures
        match last_value(texts(pairs@), key@) {
            Some(v) => r is Some && r->0@ == v,
            None => r is None,
        },
{
    let word: Vec<char> = text::chars_of(key);
    let mut n: usize = pairs.len();
    assert(texts(pairs@).take(n as int) =~= texts(pairs@));
    while n > 0
        invariant
            n <= pairs@.len(),
            word@ == key@,
            last_value(texts(pairs@), key@) == last_value(texts(pairs@).take(n as int), key@),
        decreases n,
    {
        let k: Vec<char> = text::chars_of(pairs[n - 1].0.as_str());
        proof {
            let upto = texts(pairs@).take(n as int);
            assert(upto.drop_last() =~= texts(pairs@).take(n - 1));
            assert(upto.last().0 == k@);
            assert(k@.subrange(0, k@.len() as int) =~= k@);
        }
        if text::is_text(k.as_slice(), word.as_slice(), 0, k.len()) {
            return Some(pairs[n - 1].1.as_str());
        }
        n -= 1;
    }
    None
}

/// The two protocols a reader can be set to.
#[derive(Debug, Clone, Copy, PartialEq, Eq, Structural)]
pub enum Protocol {
    Iso15693,
    Iso14443a,
}

/// The protocol that a word names. One at a time, since switching between polls cycles the
/// field and wedges the transceiver.
pub fn protocol(word: &str) -> (r: Option<Protocol>)
    ensures
        r == if word@ == "iso15693"@ {
            Some(Protocol::Iso15693)
        } else if word@ == "iso14443a"@ {
            Some(Protocol::Iso14443a)
        } else {
            None
        },
{
    let w: Vec<char> = text::chars_of(word);
    let tags: Vec<char> = text::chars_of("iso15693");
    let cards: Vec<char> = text::chars_of("iso14443a");
    assert(w@.subrange(0, w@.len() as int) =~= w@);
    if text::is_text(w.as_slice(), tags.as_slice(), 0, w.len()) {
        Some(Protocol::Iso15693)
    } else if text::is_text(w.as_slice(), cards.as_slice(), 0, w.len()) {
        Some(Protocol::Iso14443a)
    } else {
        None
    }
}

/// A line of a file gives its key and its value: what stands before the equals sign, and what stands
/// behind it between quotation marks, white space aside.
#[verifier::rlimit(60)]
pub proof fn a_line_gives_its_key_and_value(
    s: Seq<char>,
    i: int,
    end: int,
    key: Seq<char>,
    value: Seq<char>,
    comments: bool,
)
    requires
        0 <= i <= end <= s.len(),
        s.subrange(i, end) == key + seq![' ', '=', ' ', '"'] + value + seq!['"'],
        key.len() > 0,
        !key.contains('='),
        !text::is_space(key[0]),
        !text::is_space(key.last()),
        key[0] != '#',
        value.len() > 0,
        value[0] != '"',
        value.last() != '"',
    ensures
        pair_at(s, i, end, comments) is Some,
        ({
            let (k, v) = pair_at(s, i, end, comments)->0;
            s.subrange(k.0, k.1) == key && s.subrange(v.0, v.1) == value
        }),
{
    let t = key + seq![' ', '=', ' ', '"'] + value + seq!['"'];
    let (n, m) = (key.len() as int, value.len() as int);
    assert(s.subrange(i, end).len() == end - i);
    assert forall|j: int| 0 <= j < t.len() implies s[i + j] == #[trigger] t[j] by {
        assert(s.subrange(i, end)[j] == t[j]);
    }
    assert(t[0] == key[0] && t[n - 1] == key.last());
    assert(s[i + 0] == t[0] && s[i + (n - 1)] == t[n - 1]);
    assert(t[n] == ' ' && t[n + 1] == '=' && t[n + 2] == ' ' && t[n + 3] == '"');
    assert(s[i + n] == t[n] && s[i + (n + 1)] == t[n + 1] && s[i + (n + 2)] == t[n + 2] && s[i + (n
        + 3)] == t[n + 3]);
    assert(t[n + 4] == value[0] && t[n + 3 + m] == value.last() && t[n + 4 + m] == '"');
    assert(s[i + (n + 4)] == t[n + 4] && s[i + (n + 3 + m)] == t[n + 3 + m] && s[i + (n + 4 + m)]
        == t[n + 4 + m]);
    assert(end == i + n + 5 + m);
    text::trimming_takes_the_space_off(s, i, end, i, end);
    assert forall|j: int| i <= j < i + n + 1 implies #[trigger] s[j] != '=' by {
        if j < i + n {
            assert(s[i + (j - i)] == t[j - i]);
            assert(t[j - i] == key[j - i]);
            assert(key.contains(key[j - i]));
        }
    }
    text::next_is_there(s, '=', i, end, i + n + 1);
    text::trimming_takes_the_space_off(s, i, i + n + 1, i, i + n);
    text::trimming_takes_the_space_off(s, i + n + 2, end, i + n + 3, end);
    assert(past_quotes(s, i + n + 4, end) == i + n + 4);
    assert(past_quotes(s, i + n + 3, end) == i + n + 4);
    assert(before_quotes(s, i + n + 4, end - 1) == end - 1);
    assert(before_quotes(s, i + n + 4, end) == end - 1);
    assert(s.subrange(i, i + n) =~= key) by {
        assert forall|j: int| 0 <= j < n implies s[i + j] == key[j] by {
            assert(t[j] == key[j]);
        }
    }
    assert(s.subrange(i + n + 4, end - 1) =~= value) by {
        assert forall|j: int| 0 <= j < m implies s[i + n + 4 + j] == value[j] by {
            assert(s[i + (n + 4 + j)] == t[n + 4 + j]);
        }
    }
}

/// Where a key is given twice, the last one counts.
pub proof fn the_last_value_counts(
    pairs: Seq<(Seq<char>, Seq<char>)>,
    key: Seq<char>,
    other: Seq<char>,
    value: Seq<char>,
)
    ensures
        last_value(Seq::empty(), key) is None,
        last_value(pairs.push((key, value)), key) == Some(value),
        other != key ==> last_value(pairs.push((other, value)), key) == last_value(pairs, key),
{
    assert(pairs.push((key, value)).drop_last() =~= pairs);
    assert(pairs.push((other, value)).drop_last() =~= pairs);
}

} // verus!
