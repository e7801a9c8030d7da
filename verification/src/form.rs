//! The form that changes the rules: what it offers, posted back, is what it asks for.
use crate::settings::Settings;
use crate::text;
use crate::web;
use vstd::prelude::*;

verus! {

/// What a browser posts for some fields, each a name and a value.
pub open spec fn posted(fields: Seq<(Seq<char>, Seq<char>)>) -> Seq<char>
    decreases fields.len(),
{
    if fields.len() == 0 {
        Seq::empty()
    } else {
        let one = fields[0].0 + seq!['='] + fields[0].1;
        if fields.len() == 1 {
            one
        } else {
            one + seq!['&'] + posted(fields.drop_first())
        }
    }
}

/// Whether the fields can be told apart: no name holds what sets a field or a value off, and no
/// value what sets the next field off, or a null character at its end.
pub open spec fn distinct(fields: Seq<(Seq<char>, Seq<char>)>) -> bool {
    forall|i: int| 0 <= i < fields.len() ==> tells_apart(#[trigger] fields[i])
}

/// Whether a field can be told from the next.
pub open spec fn tells_apart(field: (Seq<char>, Seq<char>)) -> bool {
    &&& !field.0.contains('=') && !field.0.contains('&')
    &&& !field.1.contains('&')
    &&& field.1.len() > 0
    &&& field.1.last() != '\0'
}

/// The number in the first field of that name that holds one.
pub open spec fn number_in(fields: Seq<(Seq<char>, Seq<char>)>, name: Seq<char>) -> Option<nat>
    decreases fields.len(),
{
    if fields.len() == 0 {
        None
    } else if fields[0].0 == name && text::number(fields[0].1, u32::MAX as nat) is Some {
        text::number(fields[0].1, u32::MAX as nat)
    } else {
        number_in(fields.drop_first(), name)
    }
}

/// The value of the first field of that name.
pub open spec fn value_in(fields: Seq<(Seq<char>, Seq<char>)>, name: Seq<char>) -> Option<Seq<char>>
    decreases fields.len(),
{
    if fields.len() == 0 {
        None
    } else if fields[0].0 == name {
        Some(fields[0].1)
    } else {
        value_in(fields.drop_first(), name)
    }
}

#[verifier::rlimit(60)]
proof fn lemma_fields_are_found(
    s: Seq<char>,
    i: int,
    fields: Seq<(Seq<char>, Seq<char>)>,
    name: Seq<char>,
)
    requires
        fields.len() > 0,
        distinct(fields),
        0 <= i <= s.len(),
        s.skip(i) == posted(fields),
    ensures
        web::field_from(s, name, i) == number_in(fields, name),
        match value_in(fields, name) {
            Some(v) => {
                let at = web::value_from(s, name, i);
                &&& at is Some
                &&& 0 <= (at->0).0 <= (at->0).1 <= s.len()
                &&& s.subrange((at->0).0, (at->0).1) == v
            },
            None => web::value_from(s, name, i) is None,
        },
    decreases fields.len(),
{
    let len = s.len() as int;
    let (k, v) = fields[0];
    let rest = fields.drop_first();
    let eq = i + k.len();
    let amp = eq + 1 + v.len();
    let one = k + seq!['='] + v;
    assert(tells_apart(fields[0]));
    assert(s.skip(i).len() == len - i);
    assert(forall|j: int| 0 <= j < len - i ==> s[i + j] == #[trigger] s.skip(i)[j]);
    assert(forall|j: int| 0 <= j < one.len() ==> s.skip(i)[j] == #[trigger] one[j]);
    assert forall|j: int| i <= j < eq implies s[j] != '=' && s[j] != '&' by {
        assert(s[j] == s.skip(i)[j - i]);
        assert(one[j - i] == k[j - i]);
        assert(k.contains(k[j - i]));
    }
    assert(one[k.len() as int] == '=');
    assert(s[eq] == s.skip(i)[k.len() as int]);
    assert forall|j: int| eq < j < amp implies s[j] != '&' by {
        assert(s[j] == s.skip(i)[j - i]);
        assert(one[j - i] == v[j - eq - 1]);
        assert(v.contains(v[j - eq - 1]));
    }
    assert(fields.len() == 1 ==> amp == len);
    if fields.len() > 1 {
        assert(s.skip(i)[one.len() as int] == '&');
        assert(s[amp] == s.skip(i)[amp - i]);
    }
    text::next_is_there(s, '&', i, len, amp);
    text::next_is_there(s, '=', i, amp, eq);
    assert(s.subrange(i, eq) =~= k) by {
        assert forall|j: int| 0 <= j < k.len() implies s[i + j] == k[j] by {
            assert(s[i + j] == s.skip(i)[j]);
            assert(one[j] == k[j]);
        }
    }
    assert(s.subrange(eq + 1, amp) =~= v) by {
        assert forall|j: int| 0 <= j < v.len() implies s[eq + 1 + j] == v[j] by {
            assert(s[i + (k.len() + 1 + j)] == s.skip(i)[k.len() + 1 + j]);
            assert(one[k.len() + 1 + j] == v[j]);
        }
    }
    assert(s[amp - 1] == s.subrange(eq + 1, amp)[v.len() - 1]);
    assert(web::back_over_nulls(s, eq + 1, amp) == amp);
    assert(web::number_at(s, eq + 1, amp) == text::number(v, u32::MAX as nat));
    if fields.len() > 1 {
        assert(s.skip(amp + 1) =~= posted(rest)) by {
            assert forall|j: int| 0 <= j < posted(rest).len() implies s[amp + 1 + j] == posted(
                rest,
            )[j] by {
                assert(s[i + (one.len() + 1 + j)] == s.skip(i)[one.len() + 1 + j]);
            }
        }
        assert forall|j: int| 0 <= j < rest.len() implies tells_apart(#[trigger] rest[j]) by {
            assert(rest[j] == fields[j + 1]);
        }
        lemma_fields_are_found(s, amp + 1, rest, name);
    } else {
        assert(rest.len() == 0);
    }
}

/// Every field stands in what is posted, name first.
proof fn lemma_field_stands(s: Seq<char>, i: int, fields: Seq<(Seq<char>, Seq<char>)>, k: int)
    requires
        0 <= k < fields.len(),
        0 <= i <= s.len(),
        s.skip(i) == posted(fields),
    ensures
        exists|at: int|
            at >= i && #[trigger] text::reads(s, fields[k].0 + seq!['='], at, s.len() as int),
    decreases fields.len(),
{
    let one = fields[0].0 + seq!['='] + fields[0].1;
    let head = fields[0].0 + seq!['='];
    let rest = fields.drop_first();
    assert(s.skip(i).len() == s.len() - i);
    assert(forall|j: int| 0 <= j < s.len() - i ==> s[i + j] == #[trigger] s.skip(i)[j]);
    assert(posted(fields).len() >= one.len());
    if k == 0 {
        assert(s.subrange(i, i + head.len()) =~= head) by {
            assert forall|j: int| 0 <= j < head.len() implies s[i + j] == head[j] by {
                assert(s[i + j] == s.skip(i)[j]);
                assert(one[j] == head[j]);
            }
        }
        assert(text::reads(s, fields[0].0 + seq!['='], i, s.len() as int));
    } else {
        let next = i + one.len() + 1;
        assert(posted(fields) == one + seq!['&'] + posted(rest));
        assert(s.skip(next) =~= posted(rest)) by {
            assert forall|j: int| 0 <= j < posted(rest).len() implies s[next + j] == posted(
                rest,
            )[j] by {
                assert(s[i + (one.len() + 1 + j)] == s.skip(i)[one.len() + 1 + j]);
            }
        }
        lemma_field_stands(s, next, rest, k - 1);
        assert(rest[k - 1] == fields[k]);
    }
}

/// A clock time: hours, a colon as it is or escaped, and minutes.
#[verifier::rlimit(60)]
proof fn lemma_time_is_read(
    s: Seq<char>,
    name: Seq<char>,
    hour: Seq<char>,
    colon: Seq<char>,
    minute: Seq<char>,
)
    requires
        colon == "%3A"@ || colon == "%3a"@ || colon == ":"@,
        hour.len() > 0,
        text::all_digits(hour),
        minute.len() > 0,
        text::all_digits(minute),
        text::digits_value(hour) < 24,
        text::digits_value(minute) < 60,
        ({
            let at = web::value_from(s, name, 0);
            &&& at is Some
            &&& 0 <= (at->0).0 <= (at->0).1 <= s.len()
            &&& s.subrange((at->0).0, (at->0).1) == hour + colon + minute
        }),
    ensures
        web::time_in(s, name) == Some(
            text::digits_value(hour) * 60 + text::digits_value(minute),
        ),
{
    reveal_strlit("%3A");
    reveal_strlit("%3a");
    reveal_strlit(":");
    let (i, end) = web::value_from(s, name, 0)->0;
    let v = hour + colon + minute;
    let (h, c, m) = (hour.len() as int, colon.len() as int, minute.len() as int);
    assert(s.subrange(i, end).len() == v.len());
    assert(end - i == h + c + m);
    assert forall|j: int| 0 <= j < v.len() implies s[i + j] == #[trigger] v[j] by {
        assert(s.subrange(i, end)[j] == v[j]);
    }
    assert forall|j: int| 0 <= j < h implies '0' <= #[trigger] s[i + j] <= '9' by {
        assert(v[j] == hour[j]);
    }
    assert forall|j: int| h + c <= j < h + c + m implies '0' <= #[trigger] s[i + j] <= '9' by {
        assert(v[j] == minute[j - h - c]);
    }
    assert forall|j: int| 0 <= j < c implies s[i + h + j] == #[trigger] colon[j] by {
        assert(v[h + j] == colon[j]);
    }
    assert(s[end - 1] == s[i + (h + c + m - 1)]);
    assert(web::back_over_nulls(s, i, end) == end);
    assert forall|j: int| i <= j < i + h implies s[j] != '%' by {
        assert(s[j] == s[i + (j - i)]);
    }
    lemma_no_escape_before(s, "%3A"@, i, i + h, end);
    lemma_no_escape_before(s, "%3a"@, i, i + h, end);
    if colon == ":"@ {
        assert(s[i + h] == colon[0]);
        assert forall|j: int| i <= j < end implies s[j] != '%' by {
            assert(s[j] == s[i + (j - i)]);
        }
        lemma_no_escape_before(s, "%3A"@, i, end, end);
        lemma_no_escape_before(s, "%3a"@, i, end, end);
        text::next_text_is_there(s, "%3A"@, i, end, end);
        text::next_text_is_there(s, "%3a"@, i, end, end);
        assert forall|j: int| i <= j < i + h implies s[j] != ':' by {
            assert(s[j] == s[i + (j - i)]);
        }
        text::next_is_there(s, ':', i, end, i + h);
    } else {
        assert(s.subrange(i + h, i + h + 3) =~= colon) by {
            assert forall|j: int| 0 <= j < 3 implies s[i + h + j] == colon[j] by {}
        }
        text::next_text_is_there(s, colon, i, end, i + h);
        if colon == "%3a"@ {
            assert("%3A"@[2] == 'A' && "%3a"@[2] == 'a');
            assert forall|j: int| i <= j < end implies !text::reads(s, "%3A"@, j, end) by {
                if text::reads(s, "%3A"@, j, end) {
                    let found = s.subrange(j, j + 3);
                    assert(found[0] == '%' && found[1] == '3' && found[2] == 'A');
                    assert(s[j] == s[i + (j - i)]);
                    assert(j == i + h);
                    assert(s[i + h + 2] == colon[2]);
                }
            }
            text::next_text_is_there(s, "%3A"@, i, end, end);
        }
    }
    assert(web::time_split(s, i, end) == Some((i + h, i + h + c)));
    assert(s.subrange(i, i + h) =~= hour) by {
        assert forall|j: int| 0 <= j < h implies s[i + j] == hour[j] by {
            assert(v[j] == hour[j]);
        }
    }
    assert(s.subrange(i + h + c, end) =~= minute) by {
        assert forall|j: int| 0 <= j < m implies s[i + h + c + j] == minute[j] by {
            assert(s[i + (h + c + j)] == v[h + c + j]);
        }
    }
    assert('0' <= hour[0] <= '9' && '0' <= minute[0] <= '9');
    assert(text::unsigned_part(hour) == hour);
    assert(text::unsigned_part(minute) == minute);
}

proof fn lemma_no_escape_before(s: Seq<char>, escape: Seq<char>, i: int, upto: int, end: int)
    requires
        0 <= i <= upto <= end <= s.len(),
        escape.len() == 3,
        escape[0] == '%',
        forall|j: int| i <= j < upto ==> #[trigger] s[j] != '%',
    ensures
        forall|j: int| i <= j < upto ==> !#[trigger] text::reads(s, escape, j, end),
{
    assert forall|j: int| i <= j < upto implies !#[trigger] text::reads(s, escape, j, end) by {
        if text::reads(s, escape, j, end) {
            assert(s.subrange(j, j + 3)[0] == s[j]);
        }
    }
}

/// Whether a text ends in another.
pub open spec fn ends_in(t: Seq<char>, tail: Seq<char>) -> bool {
    t.len() >= tail.len() && t.skip(t.len() - tail.len()) == tail
}

/// Whether the `i`-th piece of a form opens an input of that name, and the next is its value.
pub open spec fn number_input(form: Seq<Seq<char>>, i: int, name: Seq<char>, value: Seq<char>) -> bool {
    &&& 0 <= i && i + 1 < form.len()
    &&& ends_in(form[i], " name="@ + name + " value="@)
    &&& form[i + 1] == value
}

/// Whether a form offers a number under that name.
pub open spec fn offers_number(form: Seq<Seq<char>>, name: Seq<char>, value: Seq<char>) -> bool {
    exists|i: int| #[trigger] number_input(form, i, name, value)
}

/// Whether the `i`-th piece of a form opens an input of that name, and the next ones are its value:
/// two pieces of hour, a colon and two pieces of minute.
pub open spec fn time_input(
    form: Seq<Seq<char>>,
    i: int,
    name: Seq<char>,
    hour: Seq<char>,
    minute: Seq<char>,
) -> bool {
    &&& 0 <= i && i + 5 < form.len()
    &&& ends_in(form[i], " name="@ + name + " value=\""@)
    &&& hour == form[i + 1] + form[i + 2]
    &&& form[i + 3] == ":"@
    &&& minute == form[i + 4] + form[i + 5]
}

/// Whether a form offers a clock time under that name.
pub open spec fn offers_time(
    form: Seq<Seq<char>>,
    name: Seq<char>,
    hour: Seq<char>,
    minute: Seq<char>,
) -> bool {
    exists|i: int| #[trigger] time_input(form, i, name, hour, minute)
}

proof fn lemma_tail(t: Seq<char>, tail: Seq<char>, k: int)
    requires
        ends_in(t, tail),
        1 <= k <= tail.len(),
    ensures
        t.len() >= tail.len(),
        t[t.len() - k] == tail[tail.len() - k],
{
    assert(t.skip(t.len() - tail.len())[tail.len() - k] == tail[tail.len() - k]);
}

/// The last characters of each piece of the form that tell the inputs apart.
#[verifier::rlimit(60)]
proof fn lemma_ends_of_the_form(c: Settings, i: int)
    requires
        0 <= i < 25,
    ensures
        ({
            let form = web::rules_form(c);
            let t = form[i];
            &&& form.len() == 25
            &&& i == 0 || i == 2 || i == 4 || i == 6 || i == 8 || i == 10 ==> t.len() > 20
                && t[t.len() - 1] == '='
            &&& i == 12 || i == 18 ==> t.len() > 20 && t[t.len() - 1] == '"'
            &&& i == 24 ==> t.len() > 20 && t[t.len() - 1] == '>'
            &&& i == 0 ==> t[t.len() - 8] == 'n'
            &&& i == 2 ==> t[t.len() - 8] == 'd'
            &&& i == 4 ==> t[t.len() - 8] == 'p'
            &&& i == 6 ==> t[t.len() - 8] == 'r'
            &&& i == 8 ==> t[t.len() - 8] == 'e' && t[t.len() - 9] == 'r'
            &&& i == 10 ==> t[t.len() - 8] == 'e' && t[t.len() - 9] == 'c'
            &&& i == 12 ==> t[t.len() - 9] == 's'
            &&& i == 18 ==> t[t.len() - 9] == 'e'
            &&& i % 2 == 1 && i < 12 || 12 < i < 18 || 18 < i < 24 ==> t.len() == 0 || (
            t[t.len() - 1] != '=' && t[t.len() - 1] != '"')
        }),
{
    reveal_strlit(
        "<form method=post action=/><p class=earn-row><label class=visually-hidden for=rn>Verdient, Minuten</label>Verdient <input type=number id=rn name=rn value=",
    );
    reveal_strlit(
        " min=0 inputmode=numeric> Min je <label class=visually-hidden for=rd>je Minuten weggenommen</label><input type=number id=rd name=rd value=",
    );
    reveal_strlit(
        " min=1 inputmode=numeric> Min weggenommen</p><div class=rule-row><label for=cap>Höchststand</label><span><input type=number id=cap name=cap value=",
    );
    reveal_strlit(
        " min=0 inputmode=numeric><span class=unit-hint>Min</span></span></div><div class=rule-row><label for=floor>Erlaubtes Minus</label><span><input type=number id=floor name=floor value=",
    );
    reveal_strlit(
        " min=0 inputmode=numeric><span class=unit-hint>Min</span></span></div><div class=rule-row><label for=pre>Startguthaben</label><span><input type=number id=pre name=pre value=",
    );
    reveal_strlit(
        " min=0 inputmode=numeric><span class=unit-hint>Min</span></span></div><div class=rule-row><label for=grace>Karenzzeit</label><span><input type=number id=grace name=grace value=",
    );
    reveal_strlit(
        " min=0 inputmode=numeric><span class=unit-hint>Sek</span></span></div><div class=rule-row><label for=ns>Nacht ab</label><input type=time id=ns name=ns value=\"",
    );
    reveal_strlit(
        "\"></div><div class=rule-row><label for=ne>Nacht bis</label><input type=time id=ne name=ne value=\"",
    );
    reveal_strlit(
        "\"></div><button class=save-btn type=submit>Speichern</button></form><p class=explainer>Änderungen wirken sofort und werden dauerhaft gespeichert.</p></div></details></div></main></body></html>",
    );
    reveal_strlit("");
    reveal_strlit("0");
    reveal_strlit(":");
    text::decimal_spells_the_number(c.refill_num as nat);
    text::decimal_spells_the_number(c.refill_den as nat);
    text::decimal_spells_the_number((c.cap_secs / 60) as nat);
    text::decimal_spells_the_number((c.floor_secs / 60) as nat);
    text::decimal_spells_the_number((c.prefill_secs / 60) as nat);
    text::decimal_spells_the_number(c.grace_secs as nat);
    text::decimal_spells_the_number((c.night_start_minute / 60) as nat);
    text::decimal_spells_the_number((c.night_start_minute % 60) as nat);
    text::decimal_spells_the_number((c.night_end_minute / 60) as nat);
    text::decimal_spells_the_number((c.night_end_minute % 60) as nat);
}

proof fn lemma_names()
    ensures
        "rn"@ == seq!['r', 'n'],
        "rd"@ == seq!['r', 'd'],
        "cap"@ == seq!['c', 'a', 'p'],
        "floor"@ == seq!['f', 'l', 'o', 'o', 'r'],
        "pre"@ == seq!['p', 'r', 'e'],
        "grace"@ == seq!['g', 'r', 'a', 'c', 'e'],
        "ns"@ == seq!['n', 's'],
        "ne"@ == seq!['n', 'e'],
        " name="@ == seq![' ', 'n', 'a', 'm', 'e', '='],
        " value="@ == seq![' ', 'v', 'a', 'l', 'u', 'e', '='],
        " value=\""@ == seq![' ', 'v', 'a', 'l', 'u', 'e', '=', '"'],
{
    reveal_strlit("rn");
    reveal_strlit("rd");
    reveal_strlit("cap");
    reveal_strlit("floor");
    reveal_strlit("pre");
    reveal_strlit("grace");
    reveal_strlit("ns");
    reveal_strlit("ne");
    reveal_strlit(" name=");
    reveal_strlit(" value=");
    reveal_strlit(" value=\"");
    assert("rn"@ =~= seq!['r', 'n']);
    assert("rd"@ =~= seq!['r', 'd']);
    assert("cap"@ =~= seq!['c', 'a', 'p']);
    assert("floor"@ =~= seq!['f', 'l', 'o', 'o', 'r']);
    assert("pre"@ =~= seq!['p', 'r', 'e']);
    assert("grace"@ =~= seq!['g', 'r', 'a', 'c', 'e']);
    assert("ns"@ =~= seq!['n', 's']);
    assert("ne"@ =~= seq!['n', 'e']);
    assert(" name="@ =~= seq![' ', 'n', 'a', 'm', 'e', '=']);
    assert(" value="@ =~= seq![' ', 'v', 'a', 'l', 'u', 'e', '=']);
    assert(" value=\""@ =~= seq![' ', 'v', 'a', 'l', 'u', 'e', '=', '"']);
}

/// There is one input for each number.
#[verifier::rlimit(60)]
proof fn lemma_one_number_input(c: Settings, name: Seq<char>, value: Seq<char>)
    requires
        offers_number(web::rules_form(c), name, value),
    ensures
        name == "rn"@ ==> value == text::decimal(c.refill_num as nat),
        name == "rd"@ ==> value == text::decimal(c.refill_den as nat),
        name == "cap"@ ==> value == text::decimal((c.cap_secs / 60) as nat),
        name == "floor"@ ==> value == text::decimal((c.floor_secs / 60) as nat),
        name == "pre"@ ==> value == text::decimal((c.prefill_secs / 60) as nat),
        name == "grace"@ ==> value == text::decimal(c.grace_secs as nat),
{
    let form = web::rules_form(c);
    let i = choose|i: int| #[trigger] number_input(form, i, name, value);
    let tail = " name="@ + name + " value="@;
    lemma_names();
    assert(tail.len() == 13 + name.len());
    lemma_tail(form[i], tail, 1);
    lemma_ends_of_the_form(c, i);
    if name.len() >= 2 {
        lemma_tail(form[i], tail, 8);
        lemma_tail(form[i], tail, 9);
        assert(tail[tail.len() - 8] == name[name.len() - 1]);
        assert(tail[tail.len() - 9] == name[name.len() - 2]);
    }
}

/// There is one input for each clock time.
#[verifier::rlimit(60)]
proof fn lemma_one_time_input(c: Settings, name: Seq<char>, hour: Seq<char>, minute: Seq<char>)
    requires
        offers_time(web::rules_form(c), name, hour, minute),
        name == "ns"@ || name == "ne"@,
    ensures
        ({
            let at = if name == "ns"@ {
                c.night_start_minute
            } else {
                c.night_end_minute
            };
            &&& hour == text::pad((at / 60) as nat) + text::decimal((at / 60) as nat)
            &&& minute == text::pad((at % 60) as nat) + text::decimal((at % 60) as nat)
        }),
{
    let form = web::rules_form(c);
    let i = choose|i: int| #[trigger] time_input(form, i, name, hour, minute);
    let tail = " name="@ + name + " value=\""@;
    lemma_names();
    assert(tail.len() == 14 + name.len());
    lemma_tail(form[i], tail, 1);
    lemma_ends_of_the_form(c, i);
    lemma_tail(form[i], tail, 9);
    assert(tail[tail.len() - 9] == name[name.len() - 1]);
    assert("ns"@[1] == 's' && "ne"@[1] == 'e');
}

/// A number of the clock in two digits reads as that number.
proof fn lemma_two_digits(n: nat)
    requires
        n < 100,
    ensures
        text::all_digits(text::pad(n) + text::decimal(n)),
        text::digits_value(text::pad(n) + text::decimal(n)) == n,
        (text::pad(n) + text::decimal(n)).len() > 0,
{
    reveal_strlit("0");
    reveal_strlit("");
    text::decimal_spells_the_number(n);
    if n < 10 {
        let t = text::pad(n) + text::decimal(n);
        assert(t =~= seq!['0', text::digit_char(n)]);
        assert(t.drop_last() =~= seq!['0']);
        assert(seq!['0'].drop_last() =~= Seq::<char>::empty());
        assert(text::digits_value(seq!['0']) == 0) by {
            assert(text::digits_value(Seq::<char>::empty()) == 0);
        }
    } else {
        assert(text::pad(n) + text::decimal(n) =~= text::decimal(n));
    }
}

/// The fields of the form in its order.
pub open spec fn rules_fields(
    num: Seq<char>,
    den: Seq<char>,
    cap: Seq<char>,
    floor: Seq<char>,
    prefill: Seq<char>,
    grace: Seq<char>,
    start: Seq<char>,
    end: Seq<char>,
) -> Seq<(Seq<char>, Seq<char>)> {
    seq![
        ("rn"@, num),
        ("rd"@, den),
        ("cap"@, cap),
        ("floor"@, floor),
        ("pre"@, prefill),
        ("grace"@, grace),
        ("ns"@, start),
        ("ne"@, end),
    ]
}

proof fn lemma_numbers_are_plain(n: nat)
    requires
        n <= u32::MAX,
    ensures
        text::number(text::decimal(n), u32::MAX as nat) == Some(n),
        tells_apart(("rn"@, text::decimal(n))),
        tells_apart(("rd"@, text::decimal(n))),
        tells_apart(("cap"@, text::decimal(n))),
        tells_apart(("floor"@, text::decimal(n))),
        tells_apart(("pre"@, text::decimal(n))),
        tells_apart(("grace"@, text::decimal(n))),
{
    lemma_names();
    text::decimal_round_trip(n, u32::MAX as nat);
    text::decimal_spells_the_number(n);
    let d = text::decimal(n);
    assert('0' <= d[d.len() - 1] <= '9');
}

proof fn lemma_times_are_plain(hour: Seq<char>, colon: Seq<char>, minute: Seq<char>)
    requires
        colon == "%3A"@ || colon == "%3a"@ || colon == ":"@,
        hour.len() > 0,
        text::all_digits(hour),
        minute.len() > 0,
        text::all_digits(minute),
    ensures
        tells_apart(("ns"@, hour + colon + minute)),
        tells_apart(("ne"@, hour + colon + minute)),
{
    lemma_names();
    reveal_strlit("%3A");
    reveal_strlit("%3a");
    reveal_strlit(":");
    let v = hour + colon + minute;
    let at = hour.len() + colon.len();
    assert forall|i: int| 0 <= i < v.len() implies v[i] != '&' by {
        if i < hour.len() {
            assert(v[i] == hour[i]);
        } else if i < at {
            assert(v[i] == colon[i - hour.len()]);
        } else {
            assert(v[i] == minute[i - at]);
        }
    }
    assert(v.last() == minute[minute.len() - 1]);
}

/// Submitting the form as it is shown changes nothing: whatever the page offers under the names of
/// its inputs, posted back with the colons as they are or escaped, asks for the rules that the page
/// was made from, where these are in whole minutes.
#[verifier::rlimit(60)]
pub proof fn the_form_as_shown_changes_nothing(
    c: Settings,
    now: Settings,
    num: Seq<char>,
    den: Seq<char>,
    cap: Seq<char>,
    floor: Seq<char>,
    prefill: Seq<char>,
    grace: Seq<char>,
    start: (Seq<char>, Seq<char>),
    end: (Seq<char>, Seq<char>),
    colon: Seq<char>,
)
    requires
        c.usable(),
        c.cap_secs % 60 == 0,
        c.floor_secs % 60 == 0,
        c.prefill_secs % 60 == 0,
        now.seq == c.seq,
        offers_number(web::rules_form(c), "rn"@, num),
        offers_number(web::rules_form(c), "rd"@, den),
        offers_number(web::rules_form(c), "cap"@, cap),
        offers_number(web::rules_form(c), "floor"@, floor),
        offers_number(web::rules_form(c), "pre"@, prefill),
        offers_number(web::rules_form(c), "grace"@, grace),
        offers_time(web::rules_form(c), "ns"@, start.0, start.1),
        offers_time(web::rules_form(c), "ne"@, end.0, end.1),
        colon == "%3A"@ || colon == "%3a"@ || colon == ":"@,
    ensures
        ({
            let body = posted(
                rules_fields(
                    num,
                    den,
                    cap,
                    floor,
                    prefill,
                    grace,
                    start.0 + colon + start.1,
                    end.0 + colon + end.1,
                ),
            );
            &&& web::carries_rules(body)
            &&& web::form_fits(body)
            &&& web::rules_in(body, now) == c
        }),
{
    lemma_one_number_input(c, "rn"@, num);
    lemma_one_number_input(c, "rd"@, den);
    lemma_one_number_input(c, "cap"@, cap);
    lemma_one_number_input(c, "floor"@, floor);
    lemma_one_number_input(c, "pre"@, prefill);
    lemma_one_number_input(c, "grace"@, grace);
    lemma_one_time_input(c, "ns"@, start.0, start.1);
    lemma_one_time_input(c, "ne"@, end.0, end.1);
    lemma_names_differ();
    lemma_values_are_read(c, now, num, den, cap, floor, prefill, grace, start, end, colon);
}

/// What the form shows, posted back, is what it was made from.
#[verifier::rlimit(60)]
proof fn lemma_values_are_read(
    c: Settings,
    now: Settings,
    num: Seq<char>,
    den: Seq<char>,
    cap: Seq<char>,
    floor: Seq<char>,
    prefill: Seq<char>,
    grace: Seq<char>,
    start: (Seq<char>, Seq<char>),
    end: (Seq<char>, Seq<char>),
    colon: Seq<char>,
)
    requires
        c.usable(),
        c.cap_secs % 60 == 0,
        c.floor_secs % 60 == 0,
        c.prefill_secs % 60 == 0,
        now.seq == c.seq,
        num == text::decimal(c.refill_num as nat),
        den == text::decimal(c.refill_den as nat),
        cap == text::decimal((c.cap_secs / 60) as nat),
        floor == text::decimal((c.floor_secs / 60) as nat),
        prefill == text::decimal((c.prefill_secs / 60) as nat),
        grace == text::decimal(c.grace_secs as nat),
        start.0 == text::pad((c.night_start_minute / 60) as nat) + text::decimal(
            (c.night_start_minute / 60) as nat,
        ),
        start.1 == text::pad((c.night_start_minute % 60) as nat) + text::decimal(
            (c.night_start_minute % 60) as nat,
        ),
        end.0 == text::pad((c.night_end_minute / 60) as nat) + text::decimal(
            (c.night_end_minute / 60) as nat,
        ),
        end.1 == text::pad((c.night_end_minute % 60) as nat) + text::decimal(
            (c.night_end_minute % 60) as nat,
        ),
        colon == "%3A"@ || colon == "%3a"@ || colon == ":"@,
    ensures
        ({
            let body = posted(
                rules_fields(
                    num,
                    den,
                    cap,
                    floor,
                    prefill,
                    grace,
                    start.0 + colon + start.1,
                    end.0 + colon + end.1,
                ),
            );
            &&& web::carries_rules(body)
            &&& web::form_fits(body)
            &&& web::rules_in(body, now) == c
        }),
{
    lemma_numbers_are_plain(c.refill_num as nat);
    lemma_numbers_are_plain(c.refill_den as nat);
    lemma_numbers_are_plain((c.cap_secs / 60) as nat);
    lemma_numbers_are_plain((c.floor_secs / 60) as nat);
    lemma_numbers_are_plain((c.prefill_secs / 60) as nat);
    lemma_numbers_are_plain(c.grace_secs as nat);
    lemma_two_digits((c.night_start_minute / 60) as nat);
    lemma_two_digits((c.night_start_minute % 60) as nat);
    lemma_two_digits((c.night_end_minute / 60) as nat);
    lemma_two_digits((c.night_end_minute % 60) as nat);
    lemma_posted_rules_are_read(num, den, cap, floor, prefill, grace, start, end, colon);
}

/// What is posted is read back, field by field.
#[verifier::rlimit(60)]
proof fn lemma_posted_rules_are_read(
    num: Seq<char>,
    den: Seq<char>,
    cap: Seq<char>,
    floor: Seq<char>,
    prefill: Seq<char>,
    grace: Seq<char>,
    start: (Seq<char>, Seq<char>),
    end: (Seq<char>, Seq<char>),
    colon: Seq<char>,
)
    requires
        tells_apart(("rn"@, num)) && text::number(num, u32::MAX as nat) is Some,
        tells_apart(("rd"@, den)) && text::number(den, u32::MAX as nat) is Some,
        tells_apart(("cap"@, cap)) && text::number(cap, u32::MAX as nat) is Some,
        tells_apart(("floor"@, floor)) && text::number(floor, u32::MAX as nat) is Some,
        tells_apart(("pre"@, prefill)) && text::number(prefill, u32::MAX as nat) is Some,
        tells_apart(("grace"@, grace)) && text::number(grace, u32::MAX as nat) is Some,
        colon == "%3A"@ || colon == "%3a"@ || colon == ":"@,
        start.0.len() > 0 && text::all_digits(start.0) && text::digits_value(start.0) < 24,
        start.1.len() > 0 && text::all_digits(start.1) && text::digits_value(start.1) < 60,
        end.0.len() > 0 && text::all_digits(end.0) && text::digits_value(end.0) < 24,
        end.1.len() > 0 && text::all_digits(end.1) && text::digits_value(end.1) < 60,
    ensures
        ({
            let body = posted(
                rules_fields(
                    num,
                    den,
                    cap,
                    floor,
                    prefill,
                    grace,
                    start.0 + colon + start.1,
                    end.0 + colon + end.1,
                ),
            );
            &&& web::carries_rules(body)
            &&& web::field_from(body, "rn"@, 0) == text::number(num, u32::MAX as nat)
            &&& web::field_from(body, "rd"@, 0) == text::number(den, u32::MAX as nat)
            &&& web::field_from(body, "cap"@, 0) == text::number(cap, u32::MAX as nat)
            &&& web::field_from(body, "floor"@, 0) == text::number(floor, u32::MAX as nat)
            &&& web::field_from(body, "pre"@, 0) == text::number(prefill, u32::MAX as nat)
            &&& web::field_from(body, "grace"@, 0) == text::number(grace, u32::MAX as nat)
            &&& web::time_in(body, "ns"@) == Some(
                text::digits_value(start.0) * 60 + text::digits_value(start.1),
            )
            &&& web::time_in(body, "ne"@) == Some(
                text::digits_value(end.0) * 60 + text::digits_value(end.1),
            )
        }),
{
    lemma_times_are_plain(start.0, colon, start.1);
    lemma_times_are_plain(end.0, colon, end.1);
    let fields = rules_fields(
        num,
        den,
        cap,
        floor,
        prefill,
        grace,
        start.0 + colon + start.1,
        end.0 + colon + end.1,
    );
    let body = posted(fields);
    assert(body.skip(0) =~= body);
    assert(distinct(fields)) by {
        assert forall|i: int| 0 <= i < fields.len() implies tells_apart(#[trigger] fields[i]) by {
            assert(i == 0 || i == 1 || i == 2 || i == 3 || i == 4 || i == 5 || i == 6 || i == 7);
        }
    }
    lemma_fields_are_found(body, 0, fields, "rn"@);
    lemma_fields_are_found(body, 0, fields, "rd"@);
    lemma_fields_are_found(body, 0, fields, "cap"@);
    lemma_fields_are_found(body, 0, fields, "floor"@);
    lemma_fields_are_found(body, 0, fields, "pre"@);
    lemma_fields_are_found(body, 0, fields, "grace"@);
    lemma_fields_are_found(body, 0, fields, "ns"@);
    lemma_fields_are_found(body, 0, fields, "ne"@);
    lemma_fields_of_the_form(fields);
    lemma_rules_are_carried(fields);
    lemma_time_is_read(body, "ns"@, start.0, colon, start.1);
    lemma_time_is_read(body, "ne"@, end.0, colon, end.1);
}

proof fn lemma_rules_are_carried(fields: Seq<(Seq<char>, Seq<char>)>)
    requires
        fields.len() > 2,
        fields[2].0 == "cap"@,
    ensures
        web::carries_rules(posted(fields)),
{
    let body = posted(fields);
    assert(body.skip(0) =~= body);
    lemma_field_stands(body, 0, fields, 2);
    reveal_strlit("cap");
    reveal_strlit("cap=");
    assert("cap"@ + seq!['='] =~= "cap="@);
    let at = choose|at: int|
        at >= 0 && #[trigger] text::reads(body, "cap="@, at, body.len() as int);
    text::next_text_not_beyond(body, "cap="@, 0, body.len() as int, at);
}

/// What stands under each name of the form.
#[verifier::rlimit(60)]
proof fn lemma_fields_of_the_form(fields: Seq<(Seq<char>, Seq<char>)>)
    requires
        fields.len() == 8,
        fields == rules_fields(
            fields[0].1,
            fields[1].1,
            fields[2].1,
            fields[3].1,
            fields[4].1,
            fields[5].1,
            fields[6].1,
            fields[7].1,
        ),
        forall|i: int|
            0 <= i < 6 ==> text::number((#[trigger] fields[i]).1, u32::MAX as nat) is Some,
    ensures
        number_in(fields, "rn"@) == text::number(fields[0].1, u32::MAX as nat),
        number_in(fields, "rd"@) == text::number(fields[1].1, u32::MAX as nat),
        number_in(fields, "cap"@) == text::number(fields[2].1, u32::MAX as nat),
        number_in(fields, "floor"@) == text::number(fields[3].1, u32::MAX as nat),
        number_in(fields, "pre"@) == text::number(fields[4].1, u32::MAX as nat),
        number_in(fields, "grace"@) == text::number(fields[5].1, u32::MAX as nat),
        value_in(fields, "ns"@) == Some(fields[6].1),
        value_in(fields, "ne"@) == Some(fields[7].1),
{
    lemma_names();
    lemma_names_differ();
    reveal_with_fuel(number_in, 9);
    reveal_with_fuel(value_in, 9);
    let f1 = fields.drop_first();
    let f2 = f1.drop_first();
    let f3 = f2.drop_first();
    let f4 = f3.drop_first();
    let f5 = f4.drop_first();
    let f6 = f5.drop_first();
    let f7 = f6.drop_first();
    assert(f1[0] == fields[1] && f2[0] == fields[2] && f3[0] == fields[3] && f4[0] == fields[4]
        && f5[0] == fields[5] && f6[0] == fields[6] && f7[0] == fields[7]);
}

proof fn lemma_names_differ()
    ensures
        "rn"@ != "rd"@,
        "rn"@ != "ns"@,
        "rn"@ != "ne"@,
        "rd"@ != "ns"@,
        "rd"@ != "ne"@,
        "ns"@ != "ne"@,
        "cap"@ != "pre"@,
        "floor"@ != "grace"@,
        "rn"@.len() == 2 && "rd"@.len() == 2 && "ns"@.len() == 2 && "ne"@.len() == 2,
        "cap"@.len() == 3 && "pre"@.len() == 3,
        "floor"@.len() == 5 && "grace"@.len() == 5,
{
    lemma_names();
    assert("rn"@[1] != "rd"@[1] && "rn"@[0] != "ns"@[0] && "rn"@[0] != "ne"@[0]);
    assert("rd"@[0] != "ns"@[0] && "rd"@[0] != "ne"@[0] && "ns"@[1] != "ne"@[1]);
    assert("cap"@[0] != "pre"@[0] && "floor"@[0] != "grace"@[0]);
}

/// The form offers all the rules.
#[verifier::rlimit(60)]
pub proof fn the_form_offers_all_the_rules(c: Settings)
    ensures
        ({
            let form = web::rules_form(c);
            &&& offers_number(form, "rn"@, form[1])
            &&& offers_number(form, "rd"@, form[3])
            &&& offers_number(form, "cap"@, form[5])
            &&& offers_number(form, "floor"@, form[7])
            &&& offers_number(form, "pre"@, form[9])
            &&& offers_number(form, "grace"@, form[11])
            &&& offers_time(form, "ns"@, form[13] + form[14], form[16] + form[17])
            &&& offers_time(form, "ne"@, form[19] + form[20], form[22] + form[23])
        }),
{
    let form = web::rules_form(c);
    lemma_names();
    reveal_strlit(
        "<form method=post action=/><p class=earn-row><label class=visually-hidden for=rn>Verdient, Minuten</label>Verdient <input type=number id=rn name=rn value=",
    );
    reveal_strlit(
        " min=0 inputmode=numeric> Min je <label class=visually-hidden for=rd>je Minuten weggenommen</label><input type=number id=rd name=rd value=",
    );
    reveal_strlit(
        " min=1 inputmode=numeric> Min weggenommen</p><div class=rule-row><label for=cap>Höchststand</label><span><input type=number id=cap name=cap value=",
    );
    reveal_strlit(
        " min=0 inputmode=numeric><span class=unit-hint>Min</span></span></div><div class=rule-row><label for=floor>Erlaubtes Minus</label><span><input type=number id=floor name=floor value=",
    );
    reveal_strlit(
        " min=0 inputmode=numeric><span class=unit-hint>Min</span></span></div><div class=rule-row><label for=pre>Startguthaben</label><span><input type=number id=pre name=pre value=",
    );
    reveal_strlit(
        " min=0 inputmode=numeric><span class=unit-hint>Min</span></span></div><div class=rule-row><label for=grace>Karenzzeit</label><span><input type=number id=grace name=grace value=",
    );
    reveal_strlit(
        " min=0 inputmode=numeric><span class=unit-hint>Sek</span></span></div><div class=rule-row><label for=ns>Nacht ab</label><input type=time id=ns name=ns value=\"",
    );
    reveal_strlit(
        "\"></div><div class=rule-row><label for=ne>Nacht bis</label><input type=time id=ne name=ne value=\"",
    );
    assert(form[0].skip(form[0].len() - 15) =~= " name="@ + "rn"@ + " value="@);
    assert(form[2].skip(form[2].len() - 15) =~= " name="@ + "rd"@ + " value="@);
    assert(form[4].skip(form[4].len() - 16) =~= " name="@ + "cap"@ + " value="@);
    assert(form[6].skip(form[6].len() - 18) =~= " name="@ + "floor"@ + " value="@);
    assert(form[8].skip(form[8].len() - 16) =~= " name="@ + "pre"@ + " value="@);
    assert(form[10].skip(form[10].len() - 18) =~= " name="@ + "grace"@ + " value="@);
    assert(form[12].skip(form[12].len() - 16) =~= " name="@ + "ns"@ + " value=\""@);
    assert(form[18].skip(form[18].len() - 16) =~= " name="@ + "ne"@ + " value=\""@);
    assert(number_input(form, 0, "rn"@, form[1]));
    assert(number_input(form, 2, "rd"@, form[3]));
    assert(number_input(form, 4, "cap"@, form[5]));
    assert(number_input(form, 6, "floor"@, form[7]));
    assert(number_input(form, 8, "pre"@, form[9]));
    assert(number_input(form, 10, "grace"@, form[11]));
    assert(time_input(form, 12, "ns"@, form[13] + form[14], form[16] + form[17]));
    assert(time_input(form, 18, "ne"@, form[19] + form[20], form[22] + form[23]));
}

proof fn lemma_grant_is_found(s: Seq<char>, i: int, fields: Seq<(Seq<char>, Seq<char>)>, n: nat)
    requires
        fields.len() > 0,
        distinct(fields),
        0 <= i <= s.len(),
        s.skip(i) == posted(fields),
        fields.last().0 == "grant"@,
        text::number(fields.last().1, u32::MAX as nat) == Some(n),
        forall|j: int| 0 <= j < fields.len() - 1 ==> (#[trigger] fields[j]).0.len() > 0
            && fields[j].0[0] != 'g',
    ensures
        web::granted_from(s, i) == n,
    decreases fields.len(),
{
    let len = s.len() as int;
    let (k, v) = fields[0];
    let rest = fields.drop_first();
    let eq = i + k.len();
    let amp = eq + 1 + v.len();
    let one = k + seq!['='] + v;
    reveal_strlit("grant");
    reveal_strlit("grant=");
    assert("grant"@ + seq!['='] =~= "grant="@);
    assert(tells_apart(fields[0]));
    assert(s.skip(i).len() == len - i);
    assert(forall|j: int| 0 <= j < len - i ==> s[i + j] == #[trigger] s.skip(i)[j]);
    assert(posted(fields).len() >= one.len());
    assert(forall|j: int| 0 <= j < one.len() ==> s.skip(i)[j] == #[trigger] one[j]);
    assert forall|j: int| i <= j < amp implies #[trigger] s[j] != '&' by {
        assert(s[j] == s.skip(i)[j - i]);
        if j < eq {
            assert(one[j - i] == k[j - i]);
            assert(k.contains(k[j - i]));
        } else if j > eq {
            assert(one[j - i] == v[j - eq - 1]);
            assert(v.contains(v[j - eq - 1]));
        } else {
            assert(one[k.len() as int] == '=');
        }
    }
    if fields.len() > 1 {
        assert(posted(fields) == one + seq!['&'] + posted(rest));
        assert(s.skip(i)[one.len() as int] == '&');
        assert(s[amp] == s.skip(i)[amp - i]);
        text::next_is_there(s, '&', i, len, amp);
        assert(s[i] == s.skip(i)[0]);
        assert(one[0] == k[0]);
        assert(!text::reads(s, "grant="@, i, amp)) by {
            if text::reads(s, "grant="@, i, amp) {
                assert(s.subrange(i, i + 6)[0] == s[i]);
            }
        }
        assert(s.skip(amp + 1) =~= posted(rest)) by {
            assert forall|j: int| 0 <= j < posted(rest).len() implies s[amp + 1 + j] == posted(
                rest,
            )[j] by {
                assert(s[i + (one.len() + 1 + j)] == s.skip(i)[one.len() + 1 + j]);
            }
        }
        assert forall|j: int| 0 <= j < rest.len() implies tells_apart(#[trigger] rest[j]) by {
            assert(rest[j] == fields[j + 1]);
        }
        assert forall|j: int| 0 <= j < rest.len() - 1 implies (#[trigger] rest[j]).0.len() > 0
            && rest[j].0[0] != 'g' by {
            assert(rest[j] == fields[j + 1]);
        }
        lemma_grant_is_found(s, amp + 1, rest, n);
    } else {
        assert(amp == len);
        text::next_is_there(s, '&', i, len, amp);
        assert(s.subrange(i, i + 6) =~= "grant="@) by {
            assert forall|j: int| 0 <= j < 6 implies s[i + j] == "grant="@[j] by {
                assert(s[i + j] == s.skip(i)[j]);
                assert(one[j] == ("grant"@ + seq!['='])[j]);
            }
        }
        assert(s.subrange(eq + 1, amp) =~= v) by {
            assert forall|j: int| 0 <= j < v.len() implies s[eq + 1 + j] == v[j] by {
                assert(s[i + (k.len() + 1 + j)] == s.skip(i)[k.len() + 1 + j]);
                assert(one[k.len() + 1 + j] == v[j]);
            }
        }
        assert(s[amp - 1] == s.subrange(eq + 1, amp)[v.len() - 1]);
        assert(web::back_over_nulls(s, eq + 1, amp) == amp);
    }
}

/// A button grants what it says: a posted form that asks for some minutes, up to an hour, is granted
/// just these.
pub proof fn a_button_grants_what_it_says(request: Seq<char>, minutes: u32)
    requires
        text::reads(request, "POST"@, 0, request.len() as int),
        web::form_of(request) is Some,
        ({
            let (a, b) = web::form_of(request)->0;
            0 <= a <= b <= request.len() && request.subrange(a, b) == posted(
                seq![("grant"@, text::decimal(minutes as nat))],
            )
        }),
    ensures
        web::granted_minutes(request) == if minutes <= 60 {
            minutes
        } else {
            60
        },
{
    let (a, b) = web::form_of(request)->0;
    let body = request.subrange(a, b);
    let fields = seq![("grant"@, text::decimal(minutes as nat))];
    reveal_strlit("grant");
    text::decimal_round_trip(minutes as nat, u32::MAX as nat);
    text::decimal_spells_the_number(minutes as nat);
    let d = text::decimal(minutes as nat);
    assert('0' <= d[d.len() - 1] <= '9');
    assert(tells_apart(fields[0]));
    assert(body.skip(0) =~= body);
    lemma_grant_is_found(body, 0, fields, minutes as nat);
}

/// The buttons say what they grant: ten minutes and thirty.
pub proof fn the_buttons_say_what_they_grant()
    ensures
        ({
            let b = web::bonus_part();
            &&& ends_in(b[0], " name=grant value="@ + text::decimal(10) + ">"@)
            &&& b[2].take(7) == "+"@ + text::decimal(10) + " Min"@
            &&& ends_in(b[2], " name=grant value="@ + text::decimal(30) + ">"@)
            &&& b[4].take(7) == "+"@ + text::decimal(30) + " Min"@
        }),
{
    reveal_strlit(
        "<form class=bonus-form method=post action=/><button class=\"bonus-btn bp\" type=submit name=grant value=10>",
    );
    reveal_strlit(
        "+10 Min</button><button class=\"bonus-btn bp\" type=submit name=grant value=30>",
    );
    reveal_strlit("+30 Min</button></form>");
    reveal_strlit(" name=grant value=");
    reveal_strlit(">");
    reveal_strlit("+");
    reveal_strlit(" Min");
    reveal_with_fuel(text::decimal, 3);
    let b = web::bonus_part();
    assert(text::decimal(10) =~= seq!['1', '0']);
    assert(text::decimal(30) =~= seq!['3', '0']);
    assert(b[0].skip(b[0].len() - 21) =~= " name=grant value="@ + text::decimal(10) + ">"@);
    assert(b[2].skip(b[2].len() - 21) =~= " name=grant value="@ + text::decimal(30) + ">"@);
    assert(b[2].take(7) =~= "+"@ + text::decimal(10) + " Min"@);
    assert(b[4].take(7) =~= "+"@ + text::decimal(30) + " Min"@);
}

} // verus!
