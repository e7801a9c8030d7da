//! Text of bounded length.
use crate::text;
use vstd::prelude::*;
use vstd::std_specs::cmp::PartialEqSpec;

verus! {

/// `heapless::String`, text of at most `N` bytes that lives in place.
#[verifier::external_type_specification]
#[verifier::external_body]
pub struct ExBoundedString<const N: usize>(heapless::String<N>);

/// How many bytes a text takes in UTF-8.
pub open spec fn byte_len(text: Seq<char>) -> nat {
    vstd::utf8::encode_utf8(text).len()
}

/// Whether a bounded string holds a text: it equals exactly the string slices that read so.
pub open spec fn holds<const N: usize>(s: heapless::String<N>, text: Seq<char>) -> bool {
    forall|t: &str| #[trigger] s.eq_spec(t) <==> t@ == text
}

/// `heapless::String::new`: a string that holds nothing.
#[verifier::external_body]
pub(crate) fn empty<const N: usize>() -> (s: heapless::String<N>)
    ensures
        holds(s, Seq::<char>::empty()),
{
    heapless::String::new()
}

/// `heapless::String::push_str`: appends the text where it still fits into `N` bytes, and
/// otherwise fails and leaves the string as it was.
#[verifier::external_body]
pub(crate) fn put<const N: usize>(s: &mut heapless::String<N>, t: &str) -> (r: Result<(), ()>)
    ensures
        forall|text: Seq<char>|
            #![trigger holds(*old(s), text)]
            holds(*old(s), text) ==> if byte_len(text) + byte_len(t@) <= N {
                r is Ok && holds(*final(s), text + t@)
            } else {
                r is Err && holds(*final(s), text)
            },
{
    s.push_str(t)
}

/// `heapless::String::as_str`: the text held, of at most `N` bytes.
#[verifier::external_body]
pub(crate) fn read<const N: usize>(s: &heapless::String<N>) -> (r: &str)
    ensures
        holds(*s, r@),
        byte_len(r@) <= N,
{
    s.as_str()
}

/// A string holds one text only.
pub proof fn holds_one_text<const N: usize>(s: heapless::String<N>, a: &str, b: Seq<char>)
    requires
        holds(s, a@),
        holds(s, b),
    ensures
        a@ == b,
{
    assert(s.eq_spec(a));
}

/// The text in a bounded string, where it fits.
pub fn fit<const N: usize>(t: &str) -> (r: Option<heapless::String<N>>)
    ensures
        r is Some <==> byte_len(t@) <= N,
        r is Some ==> holds(r->0, t@),
{
    let mut s: heapless::String<N> = empty();
    proof {
        assert(byte_len(Seq::<char>::empty()) == 0);
        assert(Seq::<char>::empty() + t@ =~= t@);
    }
    match put(&mut s, t) {
        Ok(_) => Some(s),
        Err(_) => None,
    }
}

/// Some texts one after the other.
pub open spec fn flat(pieces: Seq<Seq<char>>) -> Seq<char>
    decreases pieces.len(),
{
    if pieces.len() == 0 {
        Seq::empty()
    } else {
        flat(pieces.drop_last()) + pieces.last()
    }
}

/// A text of at most `max` bytes after some pieces were written to it: each is appended whole, up
/// to the first that no longer fits.
pub open spec fn written(text: Seq<char>, pieces: Seq<Seq<char>>, max: nat) -> Seq<char>
    decreases pieces.len(),
{
    if pieces.len() == 0 || byte_len(text) + byte_len(pieces[0]) > max {
        text
    } else {
        written(text + pieces[0], pieces.drop_first(), max)
    }
}

/// Writes pieces of text, up to the first that no longer fits.
pub fn write<const N: usize>(out: &mut heapless::String<N>, pieces: &[&str])
    ensures
        forall|text: Seq<char>|
            #![trigger holds(*old(out), text)]
            holds(*old(out), text) ==> holds(
                *final(out),
                written(text, text::slices(pieces@), N as nat),
            ),
{
    let ghost all = text::slices(pieces@);
    let mut i: usize = 0;
    proof {
        assert(all.skip(0) =~= all);
        assert forall|text: Seq<char>| #[trigger] holds(*out, text) implies holds(
            *out,
            text + flat(all.take(0)),
        ) && written(text, all, N as nat) == written(text + flat(all.take(0)), all.skip(0), N as nat) by {
            assert(text + flat(all.take(0)) =~= text);
        }
    }
    while i < pieces.len()
        invariant
            i <= pieces@.len(),
            all == text::slices(pieces@),
            forall|text: Seq<char>|
                #![trigger holds(*old(out), text)]
                holds(*old(out), text) ==> {
                    let so_far = text + flat(all.take(i as int));
                    &&& holds(*out, so_far)
                    &&& written(text, all, N as nat) == written(
                        so_far,
                        all.skip(i as int),
                        N as nat,
                    )
                },
        decreases pieces@.len() - i,
    {
        let ghost before = *out;
        let ghost rest = all.skip(i as int);
        let r = put(out, pieces[i]);
        proof {
            assert(all.take(i + 1).drop_last() =~= all.take(i as int));
            assert(rest.drop_first() =~= all.skip(i + 1));
            assert(rest[0] == pieces@[i as int]@);
            assert forall|text: Seq<char>| #[trigger] holds(*old(out), text) implies {
                let so_far = text + flat(all.take(i as int));
                let next = text + flat(all.take(i + 1));
                if byte_len(so_far) + byte_len(rest[0]) <= N {
                    &&& r is Ok
                    &&& holds(*out, next)
                    &&& written(text, all, N as nat) == written(next, all.skip(i + 1), N as nat)
                } else {
                    &&& r is Err
                    &&& holds(*out, written(text, all, N as nat))
                }
            } by {
                let so_far = text + flat(all.take(i as int));
                assert(holds(before, so_far));
                assert(text + flat(all.take(i + 1)) =~= so_far + rest[0]);
            }
        }
        if r.is_err() {
            return;
        }
        i += 1;
    }
    proof {
        assert forall|text: Seq<char>| #[trigger] holds(*old(out), text) implies holds(
            *out,
            written(text, all, N as nat),
        ) by {
            assert(all.skip(i as int).len() == 0);
        }
    }
}

/// Pieces that fit are written in full.
pub proof fn what_fits_is_written(text: Seq<char>, pieces: Seq<Seq<char>>, max: nat)
    requires
        byte_len(text) + byte_len(flat(pieces)) <= max,
    ensures
        written(text, pieces, max) == text + flat(pieces),
    decreases pieces.len(),
{
    if pieces.len() == 0 {
        assert(text + flat(pieces) =~= text);
    } else {
        lemma_flat_first(pieces);
        byte_len_adds(pieces[0], flat(pieces.drop_first()));
        byte_len_adds(text, pieces[0]);
        what_fits_is_written(text + pieces[0], pieces.drop_first(), max);
        assert(text + flat(pieces) =~= text + pieces[0] + flat(pieces.drop_first()));
    }
}

proof fn lemma_flat_first(pieces: Seq<Seq<char>>)
    requires
        pieces.len() > 0,
    ensures
        flat(pieces) == pieces[0] + flat(pieces.drop_first()),
    decreases pieces.len(),
{
    let rest = pieces.drop_first();
    if rest.len() == 0 {
        assert(flat(pieces.drop_last()) =~= Seq::<char>::empty());
        assert(flat(rest) =~= Seq::<char>::empty());
        assert(flat(pieces) =~= pieces[0] + flat(rest));
    } else {
        lemma_flat_first(pieces.drop_last());
        assert(pieces.drop_last().drop_first() =~= rest.drop_last());
        assert(pieces.last() == rest.last());
        assert(flat(pieces) =~= pieces[0] + flat(rest));
    }
}

/// What is written takes no more room than there is.
pub proof fn written_has_room(text: Seq<char>, pieces: Seq<Seq<char>>, max: nat)
    requires
        byte_len(text) <= max,
    ensures
        byte_len(written(text, pieces, max)) <= max,
    decreases pieces.len(),
{
    if pieces.len() > 0 {
        byte_len_adds(text, pieces[0]);
        if byte_len(text) + byte_len(pieces[0]) <= max {
            written_has_room(text + pieces[0], pieces.drop_first(), max);
        }
    }
}

/// A text of at most `max` bytes after several writes, each of some pieces. A write that was cut
/// short does not keep the next from being tried.
pub open spec fn written_all(text: Seq<char>, writes: Seq<Seq<Seq<char>>>, max: nat) -> Seq<char>
    decreases writes.len(),
{
    if writes.len() == 0 {
        text
    } else {
        written(written_all(text, writes.drop_last(), max), writes.last(), max)
    }
}

/// Whether several writes lead from one state of a string to another.
pub open spec fn wrote<const N: usize>(
    before: heapless::String<N>,
    after: heapless::String<N>,
    writes: Seq<Seq<Seq<char>>>,
) -> bool {
    forall|text: Seq<char>|
        #![trigger holds(before, text)]
        holds(before, text) ==> holds(after, written_all(text, writes, N as nat))
}

/// Writes pieces of text, up to the first that no longer fits.
pub fn write_one<const N: usize>(out: &mut heapless::String<N>, pieces: &[&str])
    ensures
        wrote(*old(out), *final(out), seq![text::slices(pieces@)]),
{
    write(out, pieces);
    proof {
        let writes = seq![text::slices(pieces@)];
        assert(writes.drop_last() =~= Seq::<Seq<Seq<char>>>::empty());
        assert forall|text: Seq<char>| #[trigger] holds(*old(out), text) implies holds(
            *out,
            written_all(text, writes, N as nat),
        ) by {
            assert(written_all(text, writes.drop_last(), N as nat) == text);
        }
    }
}

/// Writes follow each other.
pub proof fn one_after_the_other<const N: usize>(
    a: heapless::String<N>,
    b: heapless::String<N>,
    c: heapless::String<N>,
    first: Seq<Seq<Seq<char>>>,
    second: Seq<Seq<Seq<char>>>,
)
    requires
        wrote(a, b, first),
        wrote(b, c, second),
    ensures
        wrote(a, c, first + second),
{
    assert forall|text: Seq<char>| #[trigger] holds(a, text) implies holds(
        c,
        written_all(text, first + second, N as nat),
    ) by {
        let mid = written_all(text, first, N as nat);
        assert(holds(b, mid));
        lemma_written_in_two(text, first, second, N as nat);
    }
}

proof fn lemma_written_in_two(
    text: Seq<char>,
    first: Seq<Seq<Seq<char>>>,
    second: Seq<Seq<Seq<char>>>,
    max: nat,
)
    ensures
        written_all(text, first + second, max) == written_all(
            written_all(text, first, max),
            second,
            max,
        ),
    decreases second.len(),
{
    if second.len() == 0 {
        assert(first + second =~= first);
    } else {
        lemma_written_in_two(text, first, second.drop_last(), max);
        assert((first + second).drop_last() =~= first + second.drop_last());
    }
}

/// All that several writes are to write.
pub open spec fn whole(writes: Seq<Seq<Seq<char>>>) -> Seq<char>
    decreases writes.len(),
{
    if writes.len() == 0 {
        Seq::empty()
    } else {
        whole(writes.drop_last()) + flat(writes.last())
    }
}

/// Writes that fit lose nothing.
pub proof fn all_that_fits_is_written(text: Seq<char>, writes: Seq<Seq<Seq<char>>>, max: nat)
    requires
        byte_len(text) + byte_len(whole(writes)) <= max,
    ensures
        written_all(text, writes, max) == text + whole(writes),
    decreases writes.len(),
{
    if writes.len() == 0 {
        assert(text + whole(writes) =~= text);
    } else {
        let so_far = whole(writes.drop_last());
        byte_len_adds(so_far, flat(writes.last()));
        all_that_fits_is_written(text, writes.drop_last(), max);
        byte_len_adds(text, so_far);
        what_fits_is_written(text + so_far, writes.last(), max);
        assert(text + whole(writes) =~= text + so_far + flat(writes.last()));
    }
}

/// Writes never take more room than there is.
pub proof fn writes_have_room(text: Seq<char>, writes: Seq<Seq<Seq<char>>>, max: nat)
    requires
        byte_len(text) <= max,
    ensures
        byte_len(written_all(text, writes, max)) <= max,
    decreases writes.len(),
{
    if writes.len() > 0 {
        writes_have_room(text, writes.drop_last(), max);
        written_has_room(written_all(text, writes.drop_last(), max), writes.last(), max);
    }
}

/// A text of at most `max` bytes after some characters were appended one by one, each where it
/// still fits.
pub open spec fn filled(text: Seq<char>, more: Seq<char>, max: nat) -> Seq<char>
    decreases more.len(),
{
    if more.len() == 0 {
        text
    } else {
        let before = filled(text, more.drop_last(), max);
        if byte_len(before) + byte_len(seq![more.last()]) <= max {
            before.push(more.last())
        } else {
            before
        }
    }
}

/// Appends characters one by one, each where it still fits.
pub fn fill<const N: usize>(out: &mut heapless::String<N>, more: &str)
    ensures
        forall|text: Seq<char>|
            #![trigger holds(*old(out), text)]
            holds(*old(out), text) ==> holds(*final(out), filled(text, more@, N as nat)),
{
    let len: usize = more.unicode_len();
    let mut i: usize = 0;
    while i < len
        invariant
            i <= len == more@.len(),
            forall|text: Seq<char>|
                #![trigger holds(*old(out), text)]
                holds(*old(out), text) ==> holds(
                    *out,
                    filled(text, more@.take(i as int), N as nat),
                ),
        decreases len - i,
    {
        let ghost before = *out;
        let c: &str = more.substring_char(i, i + 1);
        let _ = put(out, c);
        proof {
            let next = more@.take(i + 1);
            assert(next.drop_last() =~= more@.take(i as int));
            assert(c@ =~= seq![next.last()]);
            assert forall|text: Seq<char>| #[trigger] holds(*old(out), text) implies holds(
                *out,
                filled(text, next, N as nat),
            ) by {
                let so_far = filled(text, more@.take(i as int), N as nat);
                assert(holds(before, so_far));
                assert(so_far + c@ =~= so_far.push(next.last()));
            }
        }
        i += 1;
    }
    assert(more@.take(i as int) =~= more@);
}

/// ASCII characters are appended one by one as long as there is room, a byte for each.
pub proof fn ascii_fills_up(text: Seq<char>, more: Seq<char>, max: nat)
    requires
        byte_len(text) <= max,
        forall|i: int| 0 <= i < more.len() ==> #[trigger] more[i] < '\u{80}',
    ensures
        ({
            let room = max - byte_len(text);
            filled(text, more, max) == text + if more.len() <= room {
                more
            } else {
                more.take(room)
            }
        }),
    decreases more.len(),
{
    let room = max - byte_len(text);
    if more.len() == 0 {
        assert(text + more =~= text);
    } else {
        let rest = more.drop_last();
        assert forall|i: int| 0 <= i < rest.len() implies #[trigger] rest[i] < '\u{80}' by {
            assert(more[i] < '\u{80}');
        }
        ascii_fills_up(text, rest, max);
        lemma_char_bytes(more.last());
        let kept = if rest.len() <= room {
            rest
        } else {
            rest.take(room)
        };
        ascii_takes_one_byte_each(kept);
        byte_len_adds(text, kept);
        if more.len() <= room {
            assert((text + rest).push(more.last()) =~= text + more);
        } else if rest.len() <= room {
            assert(more.take(room) =~= rest);
        } else {
            assert(more.take(room) =~= rest.take(room));
        }
    }
}

/// A text takes at least one byte for each character.
pub proof fn at_least_one_byte_each(text: Seq<char>)
    ensures
        text.len() <= byte_len(text),
{
    lemma_cuts_grow(text, 0, text.len() as int);
    assert(text.take(text.len() as int) =~= text);
}

/// A text takes at most four bytes for each character.
pub proof fn at_most_four_bytes_each(text: Seq<char>)
    ensures
        byte_len(text) <= 4 * text.len(),
    decreases text.len(),
{
    if text.len() > 0 {
        let n = text.len() - 1;
        at_most_four_bytes_each(text.take(n));
        byte_len_of_next(text, n);
        lemma_char_bytes(text[n]);
        assert(text.take(n + 1) =~= text);
    } else {
        assert(byte_len(text) == 0);
    }
}

/// Whether two strings hold the same text.
pub open spec fn same_text<const N: usize>(a: heapless::String<N>, b: heapless::String<N>) -> bool {
    forall|t: &str| #[trigger] a.eq_spec(t) == b.eq_spec(t)
}

/// A string that holds the same text.
pub fn copy<const N: usize>(s: &heapless::String<N>) -> (r: heapless::String<N>)
    ensures
        same_text(r, *s),
{
    let t: &str = read(s);
    let r: Option<heapless::String<N>> = fit(t);
    assert(holds(r->0, t@));
    match r {
        Some(r) => r,
        None => empty(),
    }
}

/// The bytes of two texts add up.
pub proof fn byte_len_adds(a: Seq<char>, b: Seq<char>)
    ensures
        byte_len(a + b) == byte_len(a) + byte_len(b),
    decreases a.len(),
{
    if a.len() == 0 {
        assert(a + b =~= b);
        assert(byte_len(a) == 0);
    } else {
        byte_len_adds(a.drop_first(), b);
        assert((a + b).drop_first() =~= a.drop_first() + b);
    }
}

proof fn lemma_char_bytes(c: char)
    ensures
        1 <= byte_len(seq![c]) <= 4,
        c < '\u{80}' ==> byte_len(seq![c]) == 1,
{
    let one = seq![c];
    assert(one.drop_first() =~= Seq::<char>::empty());
    assert(vstd::utf8::encode_utf8(one) == vstd::utf8::encode_scalar(c as u32)
        + vstd::utf8::encode_utf8(one.drop_first()));
    assert(vstd::utf8::encode_utf8(one.drop_first()).len() == 0);
}

/// A text of ASCII characters takes one byte for each.
pub proof fn ascii_takes_one_byte_each(text: Seq<char>)
    requires
        forall|i: int| 0 <= i < text.len() ==> #[trigger] text[i] < '\u{80}',
    ensures
        byte_len(text) == text.len(),
    decreases text.len(),
{
    if text.len() > 0 {
        let rest = text.drop_first();
        assert forall|i: int| 0 <= i < rest.len() implies #[trigger] rest[i] < '\u{80}' by {
            assert(text[i + 1] < '\u{80}');
        }
        ascii_takes_one_byte_each(rest);
        lemma_char_bytes(text[0]);
        byte_len_adds(seq![text[0]], rest);
        assert(seq![text[0]] + rest =~= text);
    } else {
        assert(vstd::utf8::encode_utf8(text).len() == 0);
    }
}

/// How many bytes a text takes in UTF-8.
pub fn bytes_of(t: &str) -> (r: usize)
    ensures
        r == byte_len(t@),
{
    t.as_bytes().len()
}

/// How many bytes a character takes in UTF-8.
pub fn char_bytes(c: char) -> (r: usize)
    ensures
        r == byte_len(seq![c]),
        1 <= r <= 4,
{
    let v: u32 = c as u32;
    proof {
        let one = seq![c];
        assert(one.drop_first() =~= Seq::<char>::empty());
        assert(vstd::utf8::encode_utf8(one) == vstd::utf8::encode_scalar(one[0] as u32)
            + vstd::utf8::encode_utf8(one.drop_first()));
        assert(vstd::utf8::encode_utf8(one.drop_first()).len() == 0);
    }
    if v <= 0x7f {
        1
    } else if v <= 0x7ff {
        2
    } else if v <= 0xffff {
        3
    } else {
        4
    }
}

/// One more character adds its bytes.
pub proof fn byte_len_of_next(text: Seq<char>, n: int)
    requires
        0 <= n < text.len(),
    ensures
        byte_len(text.take(n + 1)) == byte_len(text.take(n)) + byte_len(seq![text[n]]),
{
    byte_len_adds(text.take(n), seq![text[n]]);
    assert(text.take(n + 1) =~= text.take(n) + seq![text[n]]);
}

/// How many characters make up the first `max` bytes of a text.
pub open spec fn is_cut(text: Seq<char>, max: nat, n: int) -> bool {
    &&& 0 <= n <= text.len()
    &&& byte_len(text.take(n)) == if byte_len(text) < max {
        byte_len(text)
    } else {
        max
    }
}

/// Whether a text can be cut after `max` bytes without splitting a character.
pub open spec fn can_cut(text: Seq<char>, max: nat) -> bool {
    exists|n: int| #[trigger] is_cut(text, max, n)
}

proof fn lemma_cuts_grow(text: Seq<char>, a: int, b: int)
    requires
        0 <= a <= b <= text.len(),
    ensures
        byte_len(text.take(a)) + (b - a) <= byte_len(text.take(b)),
    decreases b - a,
{
    if a < b {
        lemma_cuts_grow(text, a, b - 1);
        byte_len_of_next(text, b - 1);
        lemma_char_bytes(text[b - 1]);
    }
}

/// There is at most one place to cut a text.
pub proof fn cuts_in_one_place(text: Seq<char>, max: nat, a: int, b: int)
    requires
        is_cut(text, max, a),
        is_cut(text, max, b),
    ensures
        a == b,
{
    if a < b {
        lemma_cuts_grow(text, a, b);
    } else if b < a {
        lemma_cuts_grow(text, b, a);
    }
}

/// The first `max` bytes of a text.
pub fn cut(t: &str, max: usize) -> (r: &str)
    requires
        can_cut(t@, max as nat),
    ensures
        exists|n: int| #[trigger] is_cut(t@, max as nat, n) && r@ == t@.take(n),
{
    let chars: Vec<char> = crate::text::chars_of(t);
    let total: usize = bytes_of(t);
    let mut n: usize = 0;
    let mut bytes: usize = 0;
    let ghost want = choose|n: int| #[trigger] is_cut(t@, max as nat, n);
    assert(t@.take(0) =~= Seq::<char>::empty());
    assert(byte_len(t@.take(0)) == 0);
    assert(t@.take(t@.len() as int) =~= t@);
    proof {
        lemma_cuts_grow(t@, want, t@.len() as int);
    }
    while n < chars.len() && bytes < max
        invariant
            n <= want <= chars@.len(),
            chars@ == t@,
            is_cut(t@, max as nat, want),
            total == byte_len(t@),
            bytes == byte_len(t@.take(n as int)),
            t@.take(t@.len() as int) == t@,
        decreases chars@.len() - n,
    {
        proof {
            byte_len_of_next(t@, n as int);
            if n == want {
                lemma_cuts_grow(t@, want, t@.len() as int);
                assert(byte_len(t@.take(want)) < max);
                assert(byte_len(t@.take(want)) == byte_len(t@));
                assert(false);
            }
            lemma_cuts_grow(t@, n + 1, want);
            lemma_cuts_grow(t@, n + 1, t@.len() as int);
        }
        bytes = bytes + char_bytes(chars[n]);
        n += 1;
    }
    proof {
        if n < want {
            lemma_cuts_grow(t@, n as int, want);
        }
    }
    assert(t@.subrange(0, n as int) =~= t@.take(n as int));
    t.substring_char(0, n)
}

} // verus!
