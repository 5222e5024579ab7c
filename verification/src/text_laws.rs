//! What holds of texts: numbers, the order of names, the case of letters, and escapes.
use vstd::prelude::*;

use crate::text::{
    all_digits, ascii_lowered, ascii_raised, contains, decimal, is_among, is_before, is_numeric,
    joined, numeric_value, occurs, occurs_at, parse_number, parse_place, pieces,
    same_but_for_ascii_case, same_ignoring_ascii_case, same_text, split, strip_prefix, text_before,
    texts, to_decimal, unescape, unescaped,
};

verus! {

/// A number below ten is written with its digit, and any other with the digits of its tenth
/// and its last digit behind them; a number below zero is written with a minus before it.
pub proof fn a_decimal_is_written_digit_by_digit(n: int)
    ensures
        0 <= n < 10 ==> decimal(n) == seq!["0123456789"@[n]],
        n >= 10 ==> decimal(n) == decimal(n / 10).push("0123456789"@[n % 10]),
        n < 0 ==> decimal(n) == seq!['-'] + decimal(-n),
{
    reveal_strlit("0123456789");
}

/// Digits are read from the left: each makes ten times as much of those before it, and adds
/// its own value.
pub proof fn a_number_is_read_digit_by_digit(s: Seq<char>, d: int)
    requires
        0 <= d < 10,
    ensures
        numeric_value(Seq::empty()) == 0,
        numeric_value(s.push("0123456789"@[d])) == 10 * numeric_value(s) + d,
{
    reveal_strlit("0123456789");
    assert(s.push("0123456789"@[d]).drop_last() =~= s);
}

/// Texts are ordered as in a dictionary: a beginning comes before the whole, and otherwise
/// the first characters that differ decide.
pub proof fn texts_are_ordered_as_in_a_dictionary(a: Seq<char>, b: Seq<char>)
    ensures
        text_before(a, b) <==> (a.len() < b.len() && b.take(a.len() as int) == a) || exists|i: int|
            0 <= i < a.len() && i < b.len() && a.take(i) == b.take(i) && #[trigger] a[i] < b[i],
    decreases a.len(),
{
    if a.len() > 0 && b.len() > 0 {
        let (x, y) = (a.drop_first(), b.drop_first());
        if a[0] == b[0] {
            texts_are_ordered_as_in_a_dictionary(x, y);
            if x.len() < y.len() && y.take(x.len() as int) == x {
                assert forall|k: int| 0 <= k < a.len() implies a[k] == b[k] by {
                    if k > 0 {
                        assert(x[k - 1] == y.take(x.len() as int)[k - 1]);
                    }
                }
                assert(b.take(a.len() as int) =~= a);
            }
            if a.len() < b.len() && b.take(a.len() as int) == a {
                assert forall|k: int| 0 <= k < x.len() implies x[k] == y[k] by {
                    assert(a[k + 1] == b.take(a.len() as int)[k + 1]);
                }
                assert(y.take(x.len() as int) =~= x);
            }
            if exists|i: int|
                0 <= i < x.len() && i < y.len() && x.take(i) == y.take(i) && #[trigger] x[i]
                    < y[i] {
                let i = choose|i: int|
                    0 <= i < x.len() && i < y.len() && x.take(i) == y.take(i) && #[trigger] x[i]
                        < y[i];
                assert forall|k: int| 0 <= k < i + 1 implies a[k] == b[k] by {
                    if k > 0 {
                        assert(x.take(i)[k - 1] == y.take(i)[k - 1]);
                    }
                }
                assert(a.take(i + 1) =~= b.take(i + 1));
                assert(a[i + 1] < b[i + 1]);
            }
            if exists|i: int|
                0 <= i < a.len() && i < b.len() && a.take(i) == b.take(i) && #[trigger] a[i]
                    < b[i] {
                let i = choose|i: int|
                    0 <= i < a.len() && i < b.len() && a.take(i) == b.take(i) && #[trigger] a[i]
                        < b[i];
                assert(i > 0);
                assert forall|k: int| 0 <= k < i - 1 implies x[k] == y[k] by {
                    assert(a.take(i)[k + 1] == b.take(i)[k + 1]);
                }
                assert(x.take(i - 1) =~= y.take(i - 1));
                assert(x[i - 1] < y[i - 1]);
            }
        } else {
            if a[0] < b[0] {
                assert(a.take(0) =~= b.take(0));
            }
            if a.len() < b.len() && b.take(a.len() as int) == a {
                assert(b.take(a.len() as int)[0] == b[0]);
            }
            assert forall|i: int|
                0 <= i < a.len() && i < b.len() && a.take(i) == b.take(i) && #[trigger] a[i]
                    < b[i] implies i == 0 by {
                if i > 0 {
                    assert(a.take(i)[0] == b.take(i)[0]);
                }
            }
        }
    } else if a.len() == 0 {
        assert(b.take(0) =~= a);
    }
}

/// Of the case of ASCII letters a comparison takes no notice, and of everything else it does:
/// 32 lies between the code of a capital and that of its small letter.
pub proof fn only_the_case_is_ignored(a: Seq<char>, b: Seq<char>)
    ensures
        same_but_for_ascii_case(a, b) <==> a.len() == b.len() && forall|i: int|
            0 <= i < a.len() ==> {
                ||| #[trigger] a[i] == b[i]
                ||| 'A' <= a[i] && a[i] <= 'Z' && b[i] as int == a[i] as int + 32
                ||| 'A' <= b[i] && b[i] <= 'Z' && a[i] as int == b[i] as int + 32
            },
{
}

/// Making a text small changes the capitals from A to Z and nothing else, and raising it
/// changes the small letters from a to z and nothing else.
pub proof fn only_letters_change_their_case(s: Seq<char>, i: int)
    requires
        0 <= i < s.len(),
    ensures
        ascii_lowered(s).len() == s.len(),
        'A' <= s[i] && s[i] <= 'Z' ==> ascii_lowered(s)[i] as int == s[i] as int + 32,
        !('A' <= s[i] && s[i] <= 'Z') ==> ascii_lowered(s)[i] == s[i],
        ascii_raised(s).len() == s.len(),
        'a' <= s[i] && s[i] <= 'z' ==> ascii_raised(s)[i] as int == s[i] as int - 32,
        !('a' <= s[i] && s[i] <= 'z') ==> ascii_raised(s)[i] == s[i],
{
}

/// A text occurs in another exactly where the other is made of something, the text, and
/// something more.
pub proof fn a_part_occurs(needle: Seq<char>, hay: Seq<char>, a: Seq<char>, b: Seq<char>)
    ensures
        hay == a + needle + b ==> occurs(needle, hay),
        occurs(needle, hay) ==> exists|i: int|
            0 <= i && i + needle.len() <= hay.len() && hay == #[trigger] hay.take(i) + needle
                + hay.skip(i + needle.len()),
{
    if hay == a + needle + b {
        assert(hay.subrange(a.len() as int, a.len() as int + needle.len()) =~= needle);
        assert(occurs_at(needle, hay, a.len() as int));
    }
    if occurs(needle, hay) {
        let i = choose|i: int| #[trigger] occurs_at(needle, hay, i);
        assert(hay =~= hay.take(i) + needle + hay.skip(i + needle.len()));
    }
}

/// The functions on texts do what holds of texts.
pub proof fn texts_are_told(
    a: &str,
    b: &str,
    truth: bool,
    i: i64,
    text: String,
    place: Option<usize>,
    number: Option<i64>,
)
    requires
        is_numeric(a@),
    ensures
        call_ensures(is_before, (a, b), truth) ==> truth == text_before(a@, b@),
        call_ensures(contains, (a, b), truth) ==> truth == occurs(b@, a@),
        call_ensures(same_ignoring_ascii_case, (a, b), truth) ==> truth == same_but_for_ascii_case(
            a@,
            b@,
        ),
        call_ensures(to_decimal, (i,), text) ==> text@ == decimal(i as int),
        call_ensures(parse_place, (a,), place) && numeric_value(a@) <= usize::MAX ==> (
        place matches Some(n) && n == numeric_value(a@)),
        call_ensures(parse_place, (a,), place) && numeric_value(a@) > usize::MAX ==> place is None,
        call_ensures(parse_number, (a,), number) && numeric_value(a@) <= i64::MAX ==> (
        number matches Some(n) && n == numeric_value(a@)),
        call_ensures(parse_number, (a,), number) && numeric_value(a@) > i64::MAX ==> number is None,
{
}

/// Texts are joined with the separator between each two, and neither before the first nor
/// behind the last.
pub proof fn a_joined_text_grows(parts: Seq<Seq<char>>, part: Seq<char>, separator: Seq<char>)
    ensures
        joined(Seq::empty(), separator) == Seq::<char>::empty(),
        joined(seq![part], separator) == part,
        parts.len() > 0 ==> joined(parts.push(part), separator) == joined(parts, separator)
            + separator + part,
{
    assert(parts.push(part).drop_last() =~= parts);
}

/// Each escape is replaced, and what is before it and behind it for itself.
pub proof fn an_escape_is_replaced(a: Seq<char>, b: Seq<char>, code: char, c: char)
    requires
        code != '~',
    ensures
        unescaped(a + seq!['~', code] + b, code, c) == unescaped(a, code, c) + seq![c] + unescaped(
            b,
            code,
            c,
        ),
    decreases a.len(),
{
    let all = a + seq!['~', code] + b;
    if a.len() == 0 {
        assert(all.skip(2) =~= b);
        assert(unescaped(a, code, c) =~= Seq::empty());
        assert(Seq::<char>::empty() + seq![c] =~= seq![c]);
    } else if a.len() >= 2 && a[0] == '~' && a[1] == code {
        assert(all.skip(2) =~= a.skip(2) + seq!['~', code] + b);
        an_escape_is_replaced(a.skip(2), b, code, c);
        assert(unescaped(all, code, c) =~= unescaped(a, code, c) + seq![c] + unescaped(b, code, c));
    } else {
        assert(all[0] == a[0]);
        assert(a.len() == 1 ==> all[1] == '~');
        assert(a.len() > 1 ==> all[1] == a[1]);
        assert(all.skip(1) =~= a.skip(1) + seq!['~', code] + b);
        an_escape_is_replaced(a.skip(1), b, code, c);
        assert(unescaped(all, code, c) =~= unescaped(a, code, c) + seq![c] + unescaped(b, code, c));
    }
}

/// A text without an escape stays as it is.
pub proof fn nothing_to_unescape(s: Seq<char>, code: char, c: char)
    requires
        forall|i: int| 0 <= i < s.len() - 1 && #[trigger] s[i] == '~' ==> s[i + 1] != code,
    ensures
        unescaped(s, code, c) == s,
    decreases s.len(),
{
    if s.len() > 0 {
        let rest = s.skip(1);
        assert forall|i: int| 0 <= i < rest.len() - 1 && #[trigger] rest[i] == '~' implies rest[i
            + 1] != code by {
            assert(s[i + 1] == '~');
        }
        nothing_to_unescape(rest, code, c);
        assert(s =~= seq![s[0]] + rest);
    }
}

/// A text is stripped of a beginning exactly where it begins so, texts are the same exactly
/// where their characters are, and digits are recognised as such.
pub proof fn parts_are_told(
    s: &str,
    other: &str,
    separator: char,
    code: char,
    strings: &Vec<String>,
    truth: bool,
    rest: Option<String>,
    parts: Vec<String>,
    text: String,
)
    ensures
        call_ensures(strip_prefix, (s, other), rest) ==> (rest matches Some(more) ==> s@ == other@
            + more@),
        call_ensures(strip_prefix, (s, other), rest) && rest is None ==> !(s@.len() >= other@.len()
            && s@.take(other@.len() as int) == other@),
        call_ensures(same_text, (s, other), truth) ==> truth == (s@ == other@),
        call_ensures(all_digits, (s,), truth) ==> truth == is_numeric(s@),
        call_ensures(is_among, (strings, s), truth) ==> truth == exists|i: int|
            0 <= i < strings@.len() && (#[trigger] strings@[i])@ == s@,
        call_ensures(split, (s, separator), parts) ==> parts@.map_values(|part: String| part@)
            == pieces(s@, separator),
        call_ensures(unescape, (s, code, separator), text) ==> text@ == unescaped(
            s@,
            code,
            separator,
        ),
{
    if call_ensures(is_among, (strings, s), truth) {
        assert(texts(strings@).len() == strings@.len());
        if texts(strings@).contains(s@) {
            let i = choose|i: int| 0 <= i < strings@.len() && texts(strings@)[i] == s@;
            assert(strings@[i]@ == s@);
        }
        assert forall|i: int| 0 <= i < strings@.len() implies texts(strings@)[i]
            == (#[trigger] strings@[i])@ by {}
    }
    if call_ensures(strip_prefix, (s, other), rest) && rest is None {
        if s@.len() >= other@.len() && s@.take(other@.len() as int) == other@ {
            assert(other@ =~= s@.subrange(0, other@.len() as int));
            assert(other@.is_prefix_of(s@));
        }
    }
    if call_ensures(split, (s, separator), parts) {
        assert(parts@.map_values(|part: String| part@) =~= texts(parts@));
    }
}

}
