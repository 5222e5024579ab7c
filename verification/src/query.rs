//! Request paths: percent-encoding and query strings.
use vstd::prelude::*;
use vstd::utf8::{
    encode_utf8, encode_utf8_decode_utf8, is_ascii_chars_encode_utf8,
};

use crate::text::{joined, pieces, pieces_of_joined, pieces_of_more, pieces_of_one};

verus! {

/// The bytes that stand for themselves in a query: letters, digits, and `-`, `_`,
/// `.` and `~`.
pub open spec fn is_unreserved(b: u8) -> bool {
    ||| 0x41 <= b <= 0x5a
    ||| 0x61 <= b <= 0x7a
    ||| 0x30 <= b <= 0x39
    ||| b == 0x2d
    ||| b == 0x5f
    ||| b == 0x2e
    ||| b == 0x7e
}

/// The hexadecimal digit that stands for `d`, in capitals.
pub open spec fn hex_digit(d: int) -> char {
    if d < 10 {
        (0x30 + d) as char
    } else {
        (0x41 + d - 10) as char
    }
}

/// How one byte is written.
pub open spec fn percent_encoded_byte(b: u8) -> Seq<char> {
    if is_unreserved(b) {
        seq![b as char]
    } else {
        seq!['%', hex_digit(b as int / 16), hex_digit(b as int % 16)]
    }
}

/// How bytes are written.
pub open spec fn percent_encoded(bytes: Seq<u8>) -> Seq<char>
    decreases bytes.len(),
{
    if bytes.len() == 0 {
        Seq::empty()
    } else {
        percent_encoded_byte(bytes[0]) + percent_encoded(bytes.drop_first())
    }
}

fn to_hex_digit(d: u8) -> (r: char)
    requires
        d < 16,
    ensures
        r == hex_digit(d as int),
{
    if d < 10 {
        (0x30 + d) as char
    } else {
        (0x41 + (d - 10)) as char
    }
}

/// Percent-encodes a value for a query: the unreserved characters of RFC 3986 pass
/// through, and every other byte becomes `%XX`.
pub fn percent_encode(value: &str) -> (r: String)
    ensures
        r@ == percent_encoded(encode_utf8(value@)),
{
    let bytes = value.as_bytes();
    let mut out = String::new();
    let mut i: usize = 0;
    assert(bytes@.skip(0) =~= bytes@);
    while i < bytes.len()
        invariant
            i <= bytes.len(),
            out@ + percent_encoded(bytes@.skip(i as int)) == percent_encoded(bytes@),
        decreases bytes.len() - i,
    {
        let b = bytes[i];
        let ghost before = out@;
        let plain = (0x41 <= b && b <= 0x5a) || (0x61 <= b && b <= 0x7a) || (0x30 <= b && b <= 0x39)
            || b == 0x2d || b == 0x5f || b == 0x2e || b == 0x7e;
        if plain {
            out.push(b as char);
        } else {
            out.push('%');
            out.push(to_hex_digit(b / 16));
            out.push(to_hex_digit(b % 16));
        }
        proof {
            let rest = bytes@.skip(i as int);
            assert(rest.drop_first() =~= bytes@.skip(i + 1));
            assert(out@ =~= before + percent_encoded_byte(b));
            assert(out@ + percent_encoded(rest.drop_first()) =~= before + percent_encoded(rest));
        }
        i += 1;
    }
    assert(out@ + percent_encoded(bytes@.skip(i as int)) =~= out@);
    out
}

/// One parameter of a query, as it is written.
pub open spec fn parameter_text(name: Seq<char>, value: Seq<char>) -> Seq<char> {
    percent_encoded(encode_utf8(name)) + "="@ + percent_encoded(encode_utf8(value))
}

/// The parameters of a query, as they are written.
pub open spec fn query_text(parameters: Seq<(Seq<char>, Seq<char>)>) -> Seq<char> {
    joined(parameters.map_values(|p: (Seq<char>, Seq<char>)| parameter_text(p.0, p.1)), "&"@)
}

/// The names and values of parameters.
pub open spec fn parameter_views(parameters: Seq<(String, String)>) -> Seq<(Seq<char>, Seq<char>)> {
    parameters.map_values(|p: (String, String)| (p.0@, p.1@))
}

/// Writes the parameters of a query.
pub fn query_string(parameters: &Vec<(String, String)>) -> (r: String)
    ensures
        r@ == query_text(parameter_views(parameters@)),
{
    let ghost written = parameter_views(parameters@).map_values(
        |p: (Seq<char>, Seq<char>)| parameter_text(p.0, p.1),
    );
    let mut out = String::new();
    let mut i: usize = 0;
    while i < parameters.len()
        invariant
            i <= parameters.len(),
            written == parameter_views(parameters@).map_values(
                |p: (Seq<char>, Seq<char>)| parameter_text(p.0, p.1),
            ),
            out@ == joined(written.take(i as int), "&"@),
        decreases parameters.len() - i,
    {
        let ghost before = out@;
        if i > 0 {
            out.append("&");
        }
        out.append(percent_encode(parameters[i].0.as_str()).as_str());
        out.append("=");
        out.append(percent_encode(parameters[i].1.as_str()).as_str());
        proof {
            let more = written.take(i + 1);
            assert(more.drop_last() =~= written.take(i as int));
            assert(more.last() == parameter_text(
                parameters@[i as int].0@,
                parameters@[i as int].1@,
            ));
            assert(out@ =~= joined(more, "&"@));
        }
        i += 1;
    }
    assert(written.take(i as int) =~= written);
    out
}

/// The number that a hexadecimal digit stands for, in capitals.
pub open spec fn hex_value(c: char) -> int {
    if c <= '9' {
        c as int - 0x30
    } else {
        c as int - 0x41 + 10
    }
}

/// The bytes that a percent-encoded text stands for.
pub open spec fn percent_decoded(text: Seq<char>) -> Seq<u8>
    decreases text.len(),
{
    if text.len() == 0 {
        Seq::empty()
    } else if text[0] == '%' && text.len() >= 3 {
        seq![(16 * hex_value(text[1]) + hex_value(text[2])) as u8] + percent_decoded(text.skip(3))
    } else {
        seq![text[0] as u8] + percent_decoded(text.skip(1))
    }
}

/// Decoding a percent-encoded text gives back what was encoded.
pub proof fn decoding_gives_the_bytes_back(bytes: Seq<u8>)
    ensures
        percent_decoded(percent_encoded(bytes)) == bytes,
    decreases bytes.len(),
{
    let text = percent_encoded(bytes);
    if bytes.len() > 0 {
        let b = bytes[0];
        let rest = bytes.drop_first();
        decoding_gives_the_bytes_back(rest);
        if is_unreserved(b) {
            assert(text.skip(1) =~= percent_encoded(rest));
            assert(text[0] == b as char);
        } else {
            assert(text.skip(3) =~= percent_encoded(rest));
            assert(text[0] == '%' && text[1] == hex_digit(b as int / 16) && text[2] == hex_digit(
                b as int % 16,
            ));
        }
        assert(bytes =~= seq![b] + rest);
    }
}

/// Whether a character stands for itself in a query.
pub open spec fn is_plain(c: char) -> bool {
    0 <= c as int <= 127 && is_unreserved(c as u8)
}

/// A percent-encoded text has only unreserved characters and `%`: what separates the
/// parameters of a query, and the parts of a path, never comes out of a value.
pub proof fn encoding_is_safe(bytes: Seq<u8>, i: int)
    requires
        0 <= i < percent_encoded(bytes).len(),
    ensures
        is_plain(percent_encoded(bytes)[i]) || percent_encoded(bytes)[i] == '%',
    decreases bytes.len(),
{
    let first = percent_encoded_byte(bytes[0]);
    if i >= first.len() {
        encoding_is_safe(bytes.drop_first(), i - first.len());
    }
}

/// A text of unreserved characters is encoded as it is.
pub proof fn plain_text_is_kept(text: Seq<char>)
    requires
        forall|i: int| 0 <= i < text.len() ==> is_plain(#[trigger] text[i]),
    ensures
        percent_encoded(encode_utf8(text)) == text,
{
    assert forall|i: int| 0 <= i < text.len() implies '\0' <= #[trigger] text[i] <= '\u{7f}' by {
        assert(is_plain(text[i]));
    }
    is_ascii_chars_encode_utf8(text);
    let bytes = encode_utf8(text);
    assert forall|i: int| 0 <= i < bytes.len() implies is_unreserved(#[trigger] bytes[i]) by {
        assert(is_plain(text[i]));
    }
    plain_bytes_are_kept(bytes);
    assert(percent_encoded(bytes) =~= text) by {
        assert forall|i: int| 0 <= i < text.len() implies percent_encoded(bytes)[i] == text[i] by {
            assert(is_plain(text[i]));
        }
    }
}

proof fn plain_bytes_are_kept(bytes: Seq<u8>)
    requires
        forall|i: int| 0 <= i < bytes.len() ==> is_unreserved(#[trigger] bytes[i]),
    ensures
        percent_encoded(bytes) == bytes.map_values(|b: u8| b as char),
    decreases bytes.len(),
{
    if bytes.len() > 0 {
        plain_bytes_are_kept(bytes.drop_first());
    }
    assert(percent_encoded(bytes) =~= bytes.map_values(|b: u8| b as char));
}

/// Two texts that are encoded alike are the same.
pub proof fn encoding_is_one_to_one(a: Seq<char>, b: Seq<char>)
    requires
        percent_encoded(encode_utf8(a)) == percent_encoded(encode_utf8(b)),
    ensures
        a == b,
{
    decoding_gives_the_bytes_back(encode_utf8(a));
    decoding_gives_the_bytes_back(encode_utf8(b));
    encode_utf8_decode_utf8(a);
    encode_utf8_decode_utf8(b);
}

/// A parameter is written with a single `=`, and without `&`.
proof fn lemma_parameter_text(name: Seq<char>, value: Seq<char>)
    ensures
        !parameter_text(name, value).contains('&'),
        pieces(parameter_text(name, value), '=') == seq![
            percent_encoded(encode_utf8(name)),
            percent_encoded(encode_utf8(value)),
        ],
{
    reveal_strlit("=");
    let left = percent_encoded(encode_utf8(name));
    let right = percent_encoded(encode_utf8(value));
    let text = parameter_text(name, value);
    assert("="@ =~= seq!['=']);
    assert forall|i: int| 0 <= i < text.len() implies text[i] != '&' by {
        if i < left.len() {
            encoding_is_safe(encode_utf8(name), i);
        } else if i > left.len() {
            encoding_is_safe(encode_utf8(value), i - left.len() - 1);
            assert(text[i] == right[i - left.len() - 1]);
        }
    }
    assert forall|i: int| 0 <= i < left.len() implies left[i] != '=' by {
        encoding_is_safe(encode_utf8(name), i);
    }
    assert forall|i: int| 0 <= i < right.len() implies right[i] != '=' by {
        encoding_is_safe(encode_utf8(value), i);
    }
    pieces_of_one(left, '=');
    pieces_of_more(left, right, '=');
    assert(seq![left].push(right) =~= seq![left, right]);
}

/// A parameter is written as no other parameter is.
proof fn lemma_parameter_is_told(a: (Seq<char>, Seq<char>), b: (Seq<char>, Seq<char>))
    requires
        parameter_text(a.0, a.1) == parameter_text(b.0, b.1),
    ensures
        a == b,
{
    lemma_parameter_text(a.0, a.1);
    lemma_parameter_text(b.0, b.1);
    let left = pieces(parameter_text(a.0, a.1), '=');
    assert(left[0] == percent_encoded(encode_utf8(a.0)) && left[0] == percent_encoded(
        encode_utf8(b.0),
    ));
    assert(left[1] == percent_encoded(encode_utf8(a.1)) && left[1] == percent_encoded(
        encode_utf8(b.1),
    ));
    encoding_is_one_to_one(a.0, b.0);
    encoding_is_one_to_one(a.1, b.1);
}

/// A query tells its parameters: no other list of parameters is written in the same way,
/// whatever the names and values are.
pub proof fn a_query_tells_its_parameters(
    a: Seq<(Seq<char>, Seq<char>)>,
    b: Seq<(Seq<char>, Seq<char>)>,
)
    requires
        query_text(a) == query_text(b),
    ensures
        a == b,
{
    let x = a.map_values(|p: (Seq<char>, Seq<char>)| parameter_text(p.0, p.1));
    let y = b.map_values(|p: (Seq<char>, Seq<char>)| parameter_text(p.0, p.1));
    assert forall|i: int| 0 <= i < x.len() implies !(#[trigger] x[i]).contains('&') by {
        lemma_parameter_text(a[i].0, a[i].1);
    }
    assert forall|i: int| 0 <= i < y.len() implies !(#[trigger] y[i]).contains('&') by {
        lemma_parameter_text(b[i].0, b[i].1);
    }
    if a.len() == 0 {
        if b.len() > 0 {
            a_query_is_not_empty(b);
        }
        assert(a =~= b);
    } else if b.len() == 0 {
        a_query_is_not_empty(a);
    } else {
        assert("&"@ =~= seq!['&']) by {
            reveal_strlit("&");
        }
        pieces_of_joined(x, '&');
        pieces_of_joined(y, '&');
        assert forall|i: int| 0 <= i < a.len() implies a[i] == b[i] by {
            assert(x[i] == y[i]);
            lemma_parameter_is_told(a[i], b[i]);
        }
        assert(x.len() == y.len());
        assert(a =~= b);
    }
}

/// A query with parameters is not empty.
proof fn a_query_is_not_empty(parameters: Seq<(Seq<char>, Seq<char>)>)
    requires
        parameters.len() > 0,
    ensures
        query_text(parameters).len() > 0,
{
    reveal_strlit("=");
    let parts = parameters.map_values(|p: (Seq<char>, Seq<char>)| parameter_text(p.0, p.1));
    assert(parts.last().len() > 0);
    assert(joined(parts, "&"@).len() >= parts.last().len());
}

/// Bytes are written one by one: the letters and digits, and `-`, `_`, `.` and `~`, as they
/// are, and every other byte as `%` and its two hexadecimal digits, in capitals.
pub proof fn each_byte_is_written(bytes: Seq<u8>, b: u8)
    ensures
        ({
            let plain =
                "ABCDEFGHIJKLMNOPQRSTUVWXYZabcdefghijklmnopqrstuvwxyz0123456789-_.~"@.contains(
                b as char,
            );
            &&& percent_encoded(Seq::empty()) == Seq::<char>::empty()
            &&& plain ==> percent_encoded(bytes.push(b)) == percent_encoded(bytes).push(b as char)
            &&& !plain ==> percent_encoded(bytes.push(b)) == percent_encoded(bytes) + seq![
                '%',
                "0123456789ABCDEF"@[b as int / 16],
                "0123456789ABCDEF"@[b as int % 16],
            ]
        }),
{
    let letters = "ABCDEFGHIJKLMNOPQRSTUVWXYZabcdefghijklmnopqrstuvwxyz0123456789-_.~"@;
    let digits = "0123456789ABCDEF"@;
    reveal_strlit("ABCDEFGHIJKLMNOPQRSTUVWXYZabcdefghijklmnopqrstuvwxyz0123456789-_.~");
    reveal_strlit("0123456789ABCDEF");
    lemma_encoded_behind(bytes, b);
    assert(letters.len() == 66);
    assert forall|i: int| 0 <= i < 66 implies is_plain(#[trigger] letters[i]) by {}
    if is_unreserved(b) {
        let i: int = if 0x41 <= b <= 0x5a {
            b - 0x41
        } else if 0x61 <= b <= 0x7a {
            b - 0x61 + 26
        } else if 0x30 <= b <= 0x39 {
            b - 0x30 + 52
        } else if b == 0x2d {
            62
        } else if b == 0x5f {
            63
        } else if b == 0x2e {
            64
        } else {
            65
        };
        assert(letters[i] == b as char);
    }
    assert(letters.contains(b as char) ==> is_unreserved(b));
    assert(hex_digit(b as int / 16) == digits[b as int / 16]);
    assert(hex_digit(b as int % 16) == digits[b as int % 16]);
}

proof fn lemma_encoded_behind(bytes: Seq<u8>, b: u8)
    ensures
        percent_encoded(bytes.push(b)) == percent_encoded(bytes) + percent_encoded_byte(b),
    decreases bytes.len(),
{
    let all = bytes.push(b);
    if bytes.len() == 0 {
        assert(all.drop_first().len() == 0);
        assert(percent_encoded(all.drop_first()) =~= Seq::empty());
        assert(percent_encoded(all) =~= percent_encoded(bytes) + percent_encoded_byte(b));
    } else {
        lemma_encoded_behind(bytes.drop_first(), b);
        assert(all.drop_first() =~= bytes.drop_first().push(b));
        assert(percent_encoded(all) =~= percent_encoded(bytes) + percent_encoded_byte(b));
    }
}

/// A query has the parameters in their order with `&` between each two, each as its name and
/// its value with `=` between them, both percent-encoded.
pub proof fn a_query_is_written(
    parameters: Seq<(Seq<char>, Seq<char>)>,
    name: Seq<char>,
    value: Seq<char>,
)
    ensures
        ({
            let one = percent_encoded(encode_utf8(name)) + "="@ + percent_encoded(
                encode_utf8(value),
            );
            &&& query_text(Seq::empty()) == Seq::<char>::empty()
            &&& query_text(seq![(name, value)]) == one
            &&& parameters.len() > 0 ==> query_text(parameters.push((name, value))) == query_text(
                parameters,
            ) + "&"@ + one
        }),
{
    let text = |p: (Seq<char>, Seq<char>)| parameter_text(p.0, p.1);
    let all = parameters.push((name, value));
    assert(all.map_values(text).drop_last() =~= parameters.map_values(text));
    assert(all.map_values(text).last() == parameter_text(name, value));
}

/// Values and queries are written as they are told.
pub proof fn queries_are_told(value: &str, parameters: &Vec<(String, String)>, r: String)
    ensures
        call_ensures(percent_encode, (value,), r) ==> r@ == percent_encoded(encode_utf8(value@)),
        call_ensures(query_string, (parameters,), r) ==> r@ == query_text(
            parameters@.map_values(|p: (String, String)| (p.0@, p.1@)),
        ),
{
}

}
