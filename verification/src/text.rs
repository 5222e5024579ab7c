//! Text: the order of names, and the characters of a string.
use vstd::prelude::*;
use vstd::utf8::{encode_utf8, encode_utf8_decode_utf8, is_ascii_chars};

verus! {

/// Whether `a` comes before `b`: at the first place where they differ `a` has
/// the smaller character, or `a` ends there.
pub open spec fn text_before(a: Seq<char>, b: Seq<char>) -> bool
    decreases a.len(),
{
    if b.len() == 0 {
        false
    } else if a.len() == 0 {
        true
    } else if a[0] != b[0] {
        a[0] < b[0]
    } else {
        text_before(a.drop_first(), b.drop_first())
    }
}

/// No text comes before itself.
pub proof fn text_before_irreflexive(a: Seq<char>)
    ensures
        !text_before(a, a),
    decreases a.len(),
{
    if a.len() > 0 {
        text_before_irreflexive(a.drop_first());
    }
}

/// What comes before a text comes before all that the text comes before.
pub proof fn text_before_transitive(a: Seq<char>, b: Seq<char>, c: Seq<char>)
    requires
        text_before(a, b),
        text_before(b, c),
    ensures
        text_before(a, c),
    decreases a.len(),
{
    if a.len() > 0 && a[0] == b[0] && b[0] == c[0] {
        text_before_transitive(a.drop_first(), b.drop_first(), c.drop_first());
    }
}

/// Of two different texts one comes before the other.
pub proof fn text_before_total(a: Seq<char>, b: Seq<char>)
    ensures
        a == b || text_before(a, b) || text_before(b, a),
    decreases a.len(),
{
    if a.len() > 0 && b.len() > 0 && a[0] == b[0] {
        text_before_total(a.drop_first(), b.drop_first());
        if a.drop_first() == b.drop_first() {
            assert(a =~= seq![a[0]] + a.drop_first());
            assert(b =~= seq![b[0]] + b.drop_first());
        }
    } else if a.len() == 0 && b.len() == 0 {
        assert(a =~= b);
    }
}

/// A common beginning does not matter to the order.
proof fn text_before_skips_common(a: Seq<char>, b: Seq<char>, n: int)
    requires
        0 <= n <= a.len(),
        n <= b.len(),
        forall|i: int| 0 <= i < n ==> a[i] == b[i],
    ensures
        text_before(a, b) == text_before(a.skip(n), b.skip(n)),
    decreases n,
{
    if n == 0 {
        assert(a.skip(0) =~= a);
        assert(b.skip(0) =~= b);
    } else {
        assert(a[0] == b[0]);
        text_before_skips_common(a.drop_first(), b.drop_first(), n - 1);
        assert(a.drop_first().skip(n - 1) =~= a.skip(n));
        assert(b.drop_first().skip(n - 1) =~= b.skip(n));
    }
}

/// The characters of a string.
pub fn characters(s: &str) -> (r: Vec<char>)
    ensures
        r@ == s@,
{
    let mut r: Vec<char> = Vec::new();
    for c in it: s.chars()
        invariant
            r@ == it.seq().take(it.index() as int),
            it.seq() == s@,
    {
        r.push(c);
    }
    r
}

/// Whether `a` comes before `b`.
pub fn is_before(a: &str, b: &str) -> (r: bool)
    ensures
        r == text_before(a@, b@),
{
    let left = characters(a);
    let right = characters(b);
    let mut i: usize = 0;
    while i < left.len() && i < right.len() && left[i] == right[i]
        invariant
            i <= left.len(),
            i <= right.len(),
            left@ == a@,
            right@ == b@,
            forall|j: int| 0 <= j < i ==> left@[j] == right@[j],
        decreases left.len() - i,
    {
        i += 1;
    }
    proof {
        text_before_skips_common(a@, b@, i as int);
    }
    if i < right.len() {
        if i < left.len() {
            left[i] < right[i]
        } else {
            true
        }
    } else {
        false
    }
}

/// Whether two strings have the same characters.
pub fn same_text(a: &str, b: &str) -> (r: bool)
    ensures
        r == (a@ == b@),
{
    let left = a.as_bytes();
    let right = b.as_bytes();
    if left.len() != right.len() {
        return false;
    }
    let mut i: usize = 0;
    while i < left.len()
        invariant
            i <= left.len(),
            left.len() == right.len(),
            left@ == encode_utf8(a@),
            right@ == encode_utf8(b@),
            forall|j: int| 0 <= j < i ==> left@[j] == right@[j],
        decreases left.len() - i,
    {
        if left[i] != right[i] {
            return false;
        }
        i += 1;
    }
    proof {
        assert(left@ =~= right@);
        encode_utf8_decode_utf8(a@);
        encode_utf8_decode_utf8(b@);
    }
    true
}

/// `String::push`: puts one character behind the text.
pub assume_specification[ String::push ](s: &mut String, c: char)
    ensures
        final(s)@ == old(s)@.push(c),
;

/// The text that `str::to_lowercase` gives.
pub uninterp spec fn lowercase(s: Seq<char>) -> Seq<char>;

/// The text that `str::to_uppercase` gives.
pub uninterp spec fn uppercase(s: Seq<char>) -> Seq<char>;

/// The text as which a string is shown by `{:?}`, in quotes and with escapes.
pub uninterp spec fn quoted(s: Seq<char>) -> Seq<char>;

/// A text with the ASCII capitals made small.
pub open spec fn ascii_lowered(s: Seq<char>) -> Seq<char> {
    s.map_values(|c: char| ascii_small(c))
}

/// A word in lower case: of ASCII characters only the capitals change.
pub open spec fn lowered_word(word: Seq<char>) -> Seq<char> {
    if is_ascii_chars(word) {
        ascii_lowered(word)
    } else {
        lowercase(word)
    }
}

/// A text in lower case, word by word.
pub open spec fn lowered(s: Seq<char>) -> Seq<char> {
    joined(pieces(s, ' ').map_values(|word: Seq<char>| lowered_word(word)), seq![' '])
}

/// `str::to_lowercase`: the text depends on the string alone. Each word is made small for
/// itself, since what becomes of a character depends at most on whether a word ends there,
/// and a space ends a word; of ASCII characters only the capitals change; and no other
/// character becomes a space.
#[verifier::external_body]
pub(crate) fn to_lowercase(s: &str) -> (r: String)
    ensures
        r@ == lowercase(s@),
        r@ == lowered(s@),
        !s@.contains(' ') ==> !r@.contains(' '),
{
    s.to_lowercase()
}

/// A character with the small ASCII letters made capitals.
pub open spec fn ascii_capital(c: char) -> char {
    if 'a' <= c && c <= 'z' {
        (c as int - 32) as char
    } else {
        c
    }
}

/// A text with the small ASCII letters made capitals.
pub open spec fn ascii_raised(s: Seq<char>) -> Seq<char> {
    s.map_values(|c: char| ascii_capital(c))
}

/// `str::to_uppercase`: the text depends on the string alone, and of an ASCII text only the
/// small letters change.
#[verifier::external_body]
pub(crate) fn to_uppercase(s: &str) -> (r: String)
    ensures
        r@ == uppercase(s@),
        is_ascii_chars(s@) ==> r@ == ascii_raised(s@),
{
    s.to_uppercase()
}

/// `format!` with `{:?}` of a string: the text depends on the string alone.
#[verifier::external_body]
pub(crate) fn to_quoted(s: &str) -> (r: String)
    ensures
        r@ == quoted(s@),
{
    format!("{:?}", s)
}

/// The digit that stands for `d`.
pub open spec fn digit(d: int) -> char {
    ('0' as int + d) as char
}

/// A natural number in decimal notation.
pub open spec fn decimal_nat(n: nat) -> Seq<char>
    decreases n,
{
    if n < 10 {
        seq![digit(n as int)]
    } else {
        decimal_nat(n / 10).push(digit((n % 10) as int))
    }
}

/// A whole number in decimal notation.
pub open spec fn decimal(i: int) -> Seq<char> {
    if i < 0 {
        seq!['-'] + decimal_nat((-i) as nat)
    } else {
        decimal_nat(i as nat)
    }
}

/// Puts a number behind a text.
fn push_decimal(out: &mut String, n: u64)
    ensures
        final(out)@ == old(out)@ + decimal_nat(n as nat),
    decreases n,
{
    if n >= 10 {
        push_decimal(out, n / 10);
    }
    let d: u8 = (n % 10) as u8;
    out.push((48 + d) as char);
    assert(out@ =~= old(out)@ + decimal_nat(n as nat));
}

/// A whole number in decimal notation.
pub fn to_decimal(i: i64) -> (r: String)
    ensures
        r@ == decimal(i as int),
{
    let mut r = String::new();
    if i < 0 {
        r.push('-');
        push_decimal(&mut r, (-(i as i128)) as u64);
    } else {
        push_decimal(&mut r, i as u64);
    }
    assert(r@ =~= decimal(i as int));
    r
}

/// Whether `needle` occurs in `hay`.
pub open spec fn occurs(needle: Seq<char>, hay: Seq<char>) -> bool {
    exists|i: int| #[trigger] occurs_at(needle, hay, i)
}

/// Whether `needle` occurs in `hay` at place `i`.
pub open spec fn occurs_at(needle: Seq<char>, hay: Seq<char>, i: int) -> bool {
    &&& 0 <= i <= hay.len() - needle.len()
    &&& hay.subrange(i, i + needle.len()) == needle
}

/// Whether `needle` occurs in `hay`.
pub fn contains(hay: &str, needle: &str) -> (r: bool)
    ensures
        r == occurs(needle@, hay@),
{
    let hs = characters(hay);
    let ns = characters(needle);
    if ns.len() > hs.len() {
        return false;
    }
    let last = hs.len() - ns.len();
    let mut i: usize = 0;
    loop
        invariant
            i <= last,
            last == hs.len() - ns.len(),
            hs@ == hay@,
            ns@ == needle@,
            forall|k: int| 0 <= k < i ==> !occurs_at(needle@, hay@, k),
        decreases last - i,
    {
        let mut j: usize = 0;
        while j < ns.len() && hs[i + j] == ns[j]
            invariant
                j <= ns.len(),
                i <= last,
                last == hs.len() - ns.len(),
                forall|k: int| 0 <= k < j ==> hs@[i + k] == ns@[k],
            decreases ns.len() - j,
        {
            j += 1;
        }
        if j == ns.len() {
            assert(hay@.subrange(i as int, i + needle@.len()) =~= needle@);
            assert(occurs_at(needle@, hay@, i as int));
            return true;
        }
        proof {
            if occurs_at(needle@, hay@, i as int) {
                assert(hay@.subrange(i as int, i + needle@.len())[j as int] == needle@[j as int]);
            }
        }
        if i == last {
            return false;
        }
        i += 1;
    }
}

/// A character with the ASCII capitals made small.
pub open spec fn ascii_small(c: char) -> char {
    if 'A' <= c && c <= 'Z' {
        (c as int + 32) as char
    } else {
        c
    }
}

/// Whether two texts are the same but for the case of ASCII letters.
pub open spec fn same_but_for_ascii_case(a: Seq<char>, b: Seq<char>) -> bool {
    &&& a.len() == b.len()
    &&& forall|i: int| 0 <= i < a.len() ==> ascii_small(#[trigger] a[i]) == ascii_small(b[i])
}

fn to_ascii_small(c: char) -> (r: char)
    ensures
        r == ascii_small(c),
{
    if 'A' <= c && c <= 'Z' {
        (c as u8 + 32) as char
    } else {
        c
    }
}

/// Whether two strings are the same but for the case of ASCII letters.
pub fn same_ignoring_ascii_case(a: &str, b: &str) -> (r: bool)
    ensures
        r == same_but_for_ascii_case(a@, b@),
{
    let left = characters(a);
    let right = characters(b);
    if left.len() != right.len() {
        return false;
    }
    let mut i: usize = 0;
    while i < left.len()
        invariant
            i <= left.len(),
            left.len() == right.len(),
            left@ == a@,
            right@ == b@,
            forall|j: int| 0 <= j < i ==> ascii_small(#[trigger] left@[j]) == ascii_small(right@[j]),
        decreases left.len() - i,
    {
        if to_ascii_small(left[i]) != to_ascii_small(right[i]) {
            assert(ascii_small(a@[i as int]) != ascii_small(b@[i as int]));
            return false;
        }
        i += 1;
    }
    true
}

/// Whether a text is made of ASCII digits, and has at least one.
pub open spec fn is_numeric(s: Seq<char>) -> bool {
    &&& s.len() > 0
    &&& forall|i: int| 0 <= i < s.len() ==> '0' <= #[trigger] s[i] && s[i] <= '9'
}

/// Whether a string is made of ASCII digits, and has at least one.
pub fn all_digits(s: &str) -> (r: bool)
    ensures
        r == is_numeric(s@),
{
    for c in it: s.chars()
        invariant
            it.seq() == s@,
            forall|j: int| 0 <= j < it.index() ==> '0' <= #[trigger] s@[j] && s@[j] <= '9',
    {
        if !('0' <= c && c <= '9') {
            assert(s@[it.index() as int] == c);
            return false;
        }
    }
    !s.is_empty()
}

/// The pieces of a text between its separators.
pub open spec fn pieces(s: Seq<char>, separator: char) -> Seq<Seq<char>>
    decreases s.len(),
{
    if s.len() == 0 {
        seq![Seq::<char>::empty()]
    } else {
        let before = pieces(s.drop_last(), separator);
        if s.last() == separator {
            before.push(Seq::<char>::empty())
        } else {
            before.update(before.len() - 1, before.last().push(s.last()))
        }
    }
}

/// The texts of strings.
pub open spec fn texts(strings: Seq<String>) -> Seq<Seq<char>> {
    strings.map_values(|s: String| s@)
}

/// Whether one of the strings has the given text.
pub fn is_among(strings: &Vec<String>, text: &str) -> (r: bool)
    ensures
        r == texts(strings@).contains(text@),
{
    let mut i: usize = 0;
    while i < strings.len()
        invariant
            i <= strings.len(),
            forall|j: int| 0 <= j < i ==> texts(strings@)[j] != text@,
        decreases strings.len() - i,
    {
        assert(texts(strings@)[i as int] == strings@[i as int]@);
        if same_text(strings[i].as_str(), text) {
            return true;
        }
        i += 1;
    }
    false
}

/// Cuts a string at its separators.
pub fn split(s: &str, separator: char) -> (r: Vec<String>)
    ensures
        texts(r@) == pieces(s@, separator),
{
    let mut done: Vec<String> = Vec::new();
    let mut open = String::new();
    assert(texts(done@).push(open@) =~= pieces(s@.take(0), separator));
    for c in it: s.chars()
        invariant
            it.seq() == s@,
            texts(done@).push(open@) == pieces(s@.take(it.index() as int), separator),
    {
        let ghost n = it.index() as int;
        let ghost before = texts(done@).push(open@);
        assert(s@.take(n + 1).drop_last() =~= s@.take(n));
        assert(s@.take(n + 1).last() == c);
        if c == separator {
            let mut next = String::new();
            std::mem::swap(&mut next, &mut open);
            done.push(next);
            assert(texts(done@).push(open@) =~= before.push(Seq::<char>::empty()));
        } else {
            open.push(c);
            assert(texts(done@).push(open@) =~= before.update(
                before.len() - 1,
                before.last().push(c),
            ));
        }
    }
    assert(s@.take(s@.len() as int) =~= s@);
    let ghost last = open@;
    let ghost firsts = done@;
    done.push(open);
    assert(texts(done@) =~= texts(firsts).push(last));
    done
}

/// A text in which each `~` followed by `code` is replaced by `c`, from left to
/// right.
pub open spec fn unescaped(s: Seq<char>, code: char, c: char) -> Seq<char>
    decreases s.len(),
{
    if s.len() == 0 {
        s
    } else if s.len() >= 2 && s[0] == '~' && s[1] == code {
        seq![c] + unescaped(s.skip(2), code, c)
    } else {
        seq![s[0]] + unescaped(s.skip(1), code, c)
    }
}

/// Replaces each `~` followed by `code` by `c`, from left to right.
pub fn unescape(s: &str, code: char, c: char) -> (r: String)
    ensures
        r@ == unescaped(s@, code, c),
{
    let cs = characters(s);
    let mut out = String::new();
    let mut i: usize = 0;
    assert(s@.skip(0) =~= s@);
    while i < cs.len()
        invariant
            i <= cs.len(),
            cs@ == s@,
            out@ + unescaped(s@.skip(i as int), code, c) == unescaped(s@, code, c),
        decreases cs.len() - i,
    {
        let ghost before = out@;
        let ghost rest = s@.skip(i as int);
        if cs.len() - i >= 2 && cs[i] == '~' && cs[i + 1] == code {
            out.push(c);
            assert(rest.skip(2) =~= s@.skip(i + 2));
            assert(out@ + unescaped(s@.skip(i + 2), code, c) =~= before + unescaped(rest, code, c));
            i += 2;
        } else {
            out.push(cs[i]);
            assert(rest.skip(1) =~= s@.skip(i + 1));
            assert(out@ + unescaped(s@.skip(i + 1), code, c) =~= before + unescaped(rest, code, c));
            i += 1;
        }
    }
    assert(out@ + unescaped(s@.skip(i as int), code, c) =~= out@);
    out
}

/// What stands behind `beginning`, where the text begins with it.
pub fn strip_prefix(s: &str, beginning: &str) -> (r: Option<String>)
    ensures
        match r {
            Some(rest) => s@ == beginning@ + rest@,
            None => !beginning@.is_prefix_of(s@),
        },
{
    let cs = characters(s);
    let bs = characters(beginning);
    if bs.len() > cs.len() {
        return None;
    }
    let mut i: usize = 0;
    while i < bs.len()
        invariant
            i <= bs.len() <= cs.len(),
            cs@ == s@,
            bs@ == beginning@,
            forall|j: int| 0 <= j < i ==> bs@[j] == cs@[j],
        decreases bs.len() - i,
    {
        if bs[i] != cs[i] {
            assert(beginning@[i as int] != s@[i as int]);
            return None;
        }
        i += 1;
    }
    let mut rest = String::new();
    while i < cs.len()
        invariant
            bs.len() <= i <= cs.len(),
            cs@ == s@,
            rest@ == s@.subrange(bs.len() as int, i as int),
        decreases cs.len() - i,
    {
        rest.push(cs[i]);
        i += 1;
        assert(rest@ =~= s@.subrange(bs.len() as int, i as int));
    }
    assert(s@ =~= beginning@ + rest@);
    Some(rest)
}

/// Texts with a separator between each two.
pub open spec fn joined(parts: Seq<Seq<char>>, separator: Seq<char>) -> Seq<char>
    decreases parts.len(),
{
    if parts.len() == 0 {
        Seq::empty()
    } else if parts.len() == 1 {
        parts[0]
    } else {
        joined(parts.drop_last(), separator) + separator + parts.last()
    }
}

/// Where a part without separators is put behind a separator, it is a piece of its own.
pub proof fn pieces_of_more(before: Seq<char>, part: Seq<char>, separator: char)
    requires
        !part.contains(separator),
    ensures
        pieces(before + seq![separator] + part, separator) == pieces(before, separator).push(part),
    decreases part.len(),
{
    let all = before + seq![separator] + part;
    if part.len() == 0 {
        assert(all.drop_last() =~= before);
        assert(part =~= Seq::<char>::empty());
    } else {
        let fewer = part.drop_last();
        assert forall|i: int| 0 <= i < fewer.len() implies fewer[i] != separator by {
            assert(part[i] != separator);
        }
        assert(all.drop_last() =~= before + seq![separator] + fewer);
        pieces_of_more(before, fewer, separator);
        assert(part.last() == part[part.len() - 1]);
        let pushed = pieces(before, separator).push(fewer);
        assert(pushed.update(pushed.len() - 1, fewer.push(part.last())) =~= pieces(
            before,
            separator,
        ).push(part)) by {
            assert(fewer.push(part.last()) =~= part);
        }
    }
}

/// A text without separators is a single piece.
pub proof fn pieces_of_one(part: Seq<char>, separator: char)
    requires
        !part.contains(separator),
    ensures
        pieces(part, separator) == seq![part],
    decreases part.len(),
{
    if part.len() == 0 {
        assert(part =~= Seq::<char>::empty());
    } else {
        let fewer = part.drop_last();
        assert forall|i: int| 0 <= i < fewer.len() implies fewer[i] != separator by {
            assert(part[i] != separator);
        }
        pieces_of_one(fewer, separator);
        assert(part.last() == part[part.len() - 1]);
        assert(fewer.push(part.last()) =~= part);
        assert(seq![fewer].update(0, part) =~= seq![part]);
    }
}

/// The pieces of joined parts are the parts, where the separator is in none of them.
pub proof fn pieces_of_joined(parts: Seq<Seq<char>>, separator: char)
    requires
        parts.len() > 0,
        forall|i: int| 0 <= i < parts.len() ==> !(#[trigger] parts[i]).contains(separator),
    ensures
        pieces(joined(parts, seq![separator]), separator) == parts,
    decreases parts.len(),
{
    if parts.len() == 1 {
        pieces_of_one(parts[0], separator);
        assert(seq![parts[0]] =~= parts);
    } else {
        pieces_of_joined(parts.drop_last(), separator);
        pieces_of_more(joined(parts.drop_last(), seq![separator]), parts.last(), separator);
        assert(parts.drop_last().push(parts.last()) =~= parts);
    }
}

/// The text of a string that may be absent.
pub open spec fn text_of(s: Option<&str>) -> Option<Seq<char>> {
    match s {
        Some(s) => Some(s@),
        None => None,
    }
}

/// Whether each text comes before all the later ones.
pub open spec fn ascending(names: Seq<Seq<char>>) -> bool {
    forall|i: int, j: int|
        0 <= i < j < names.len() ==> text_before(#[trigger] names[i], #[trigger] names[j])
}

/// In an ascending list no text occurs twice.
pub proof fn ascending_has_no_duplicates(names: Seq<Seq<char>>)
    requires
        ascending(names),
    ensures
        names.no_duplicates(),
{
    assert forall|i: int, j: int|
        0 <= i < names.len() && 0 <= j < names.len() && i != j implies names[i] != names[j] by {
        text_before_irreflexive(names[i]);
        if i < j {
            assert(text_before(names[i], names[j]));
        } else {
            assert(text_before(names[j], names[i]));
        }
    }
}

/// The texts of a set, in ascending order.
pub open spec fn in_order(names: Set<Seq<char>>) -> Seq<Seq<char>> {
    choose|list: Seq<Seq<char>>| ascending(list) && list.to_set() == names
}

/// There is only one way to list the texts of a set in ascending order.
pub proof fn order_is_unique(a: Seq<Seq<char>>, b: Seq<Seq<char>>)
    requires
        ascending(a),
        ascending(b),
        a.to_set() == b.to_set(),
    ensures
        a == b,
    decreases a.len(),
{
    if a.len() == 0 {
        if b.len() > 0 {
            assert(b.to_set().contains(b[0]));
            assert(a.to_set().contains(b[0]));
        }
        assert(a =~= b);
    } else {
        assert(a.to_set().contains(a.last()));
        assert(b.to_set().contains(a.last()));
        let p = choose|p: int| 0 <= p < b.len() && b[p] == a.last();
        assert(b.to_set().contains(b.last()));
        assert(a.to_set().contains(b.last()));
        let q = choose|q: int| 0 <= q < a.len() && a[q] == b.last();
        if p < b.len() - 1 {
            assert(text_before(b[p], b[b.len() - 1]));
            if q < a.len() - 1 {
                assert(text_before(a[q], a[a.len() - 1]));
                text_before_transitive(a.last(), b.last(), a.last());
            }
            text_before_irreflexive(a.last());
        }
        ascending_has_no_duplicates(a);
        ascending_has_no_duplicates(b);
        let x = a.drop_last();
        let y = b.drop_last();
        assert forall|k: Seq<char>| x.to_set().contains(k) == y.to_set().contains(k) by {
            if x.contains(k) {
                let i = choose|i: int| 0 <= i < x.len() && x[i] == k;
                assert(a[i] == k);
                assert(a.to_set().contains(k));
                assert(b.to_set().contains(k));
                let j = choose|j: int| 0 <= j < b.len() && b[j] == k;
                assert(y[j] == k);
            }
            if y.contains(k) {
                let i = choose|i: int| 0 <= i < y.len() && y[i] == k;
                assert(b[i] == k);
                assert(b.to_set().contains(k));
                assert(a.to_set().contains(k));
                let j = choose|j: int| 0 <= j < a.len() && a[j] == k;
                assert(x[j] == k);
            }
        }
        assert(x.to_set() =~= y.to_set());
        order_is_unique(x, y);
        assert(a =~= x.push(a.last()));
        assert(b =~= y.push(b.last()));
    }
}

/// A list with one more text, behind those that come before it.
spec fn inserted(list: Seq<Seq<char>>, name: Seq<char>) -> Seq<Seq<char>>
    decreases list.len(),
{
    if list.len() == 0 || text_before(list.last(), name) {
        list.push(name)
    } else {
        inserted(list.drop_last(), name).push(list.last())
    }
}

proof fn lemma_inserted(list: Seq<Seq<char>>, name: Seq<char>)
    requires
        ascending(list),
        !list.contains(name),
    ensures
        ascending(inserted(list, name)),
        inserted(list, name).to_set() == list.to_set().insert(name),
    decreases list.len(),
{
    let more = inserted(list, name);
    if list.len() == 0 || text_before(list.last(), name) {
        assert forall|i: int, j: int| 0 <= i < j < more.len() implies text_before(
            #[trigger] more[i],
            #[trigger] more[j],
        ) by {
            if j == list.len() && i < list.len() - 1 {
                assert(text_before(list[i], list[list.len() - 1]));
                text_before_transitive(list[i], list.last(), name);
            } else if j < list.len() {
                assert(text_before(list[i], list[j]));
            }
        }
        assert forall|k: Seq<char>| more.contains(k) == (list.contains(k) || k == name) by {
            if list.contains(k) {
                let i = choose|i: int| 0 <= i < list.len() && list[i] == k;
                assert(more[i] == k);
            }
            assert(more[more.len() - 1] == name);
        }
    } else {
        let fewer = list.drop_last();
        let last = list.last();
        assert forall|k: Seq<char>| fewer.contains(k) implies list.contains(k) && text_before(
            k,
            last,
        ) by {
            let i = choose|i: int| 0 <= i < fewer.len() && fewer[i] == k;
            assert(list[i] == k);
            assert(text_before(list[i], list[list.len() - 1]));
        }
        assert(list.contains(last)) by {
            assert(list[list.len() - 1] == last);
        }
        text_before_total(last, name);
        lemma_inserted(fewer, name);
        let before = inserted(fewer, name);
        assert forall|i: int, j: int| 0 <= i < j < more.len() implies text_before(
            #[trigger] more[i],
            #[trigger] more[j],
        ) by {
            if j == before.len() {
                assert(before.to_set().contains(before[i]));
            } else {
                assert(text_before(before[i], before[j]));
            }
        }
        assert forall|k: Seq<char>| more.contains(k) == (list.contains(k) || k == name) by {
            assert(before.contains(k) == before.to_set().contains(k));
            assert(fewer.contains(k) == fewer.to_set().contains(k));
            if before.contains(k) {
                let i = choose|i: int| 0 <= i < before.len() && before[i] == k;
                assert(more[i] == k);
            }
            assert(more[more.len() - 1] == last);
            if list.contains(k) && k != last {
                let i = choose|i: int| 0 <= i < list.len() && list[i] == k;
                assert(fewer[i] == k);
            }
        }
    }
    assert(more.to_set() =~= list.to_set().insert(name));
}

/// The texts of a finite set can be listed in ascending order.
pub proof fn order_exists(names: Set<Seq<char>>)
    requires
        names.finite(),
    ensures
        ascending(in_order(names)),
        in_order(names).to_set() == names,
    decreases names.len(),
{
    let list = if names.len() == 0 {
        let list = Seq::<Seq<char>>::empty();
        assert(list.to_set() =~= names) by {
            assert forall|k: Seq<char>| !list.to_set().contains(k) by {}
            assert forall|k: Seq<char>| !names.contains(k) by {
                if names.contains(k) {
                    assert(names.remove(k).len() < names.len());
                }
            }
        }
        list
    } else {
        let name = names.choose();
        let fewer = names.remove(name);
        order_exists(fewer);
        assert(!in_order(fewer).contains(name)) by {
            assert(!in_order(fewer).to_set().contains(name));
        }
        lemma_inserted(in_order(fewer), name);
        assert(fewer.insert(name) =~= names);
        inserted(in_order(fewer), name)
    };
    assert(ascending(list) && list.to_set() == names);
}

/// The text of an owned string that may be absent.
pub open spec fn string_of(s: Option<String>) -> Option<Seq<char>> {
    match s {
        Some(s) => Some(s@),
        None => None,
    }
}

/// The number that decimal digits stand for.
pub open spec fn numeric_value(s: Seq<char>) -> int
    decreases s.len(),
{
    if s.len() == 0 {
        0
    } else {
        10 * numeric_value(s.drop_last()) + (s.last() as int - '0' as int)
    }
}

/// Digits stand for more, the more of them there are.
proof fn numeric_value_grows(s: Seq<char>, n: int)
    requires
        is_numeric(s),
        0 <= n <= s.len(),
    ensures
        0 <= numeric_value(s.take(n)) <= numeric_value(s),
    decreases s.len() - n, n,
{
    if n == 0 {
        if s.len() > 1 {
            assert(is_numeric(s.drop_last()));
            numeric_value_grows(s.drop_last(), 0);
            assert(s.drop_last().take(0) =~= s.take(0));
        } else {
            assert(s.drop_last().len() == 0);
        }
    } else if n == s.len() {
        assert(s.take(n) =~= s);
        if s.len() > 1 {
            assert(is_numeric(s.drop_last()));
            numeric_value_grows(s.drop_last(), n - 1);
            assert(s.drop_last().take(n - 1) =~= s.drop_last());
        }
    } else {
        assert(is_numeric(s.drop_last()));
        numeric_value_grows(s.drop_last(), n);
        assert(s.drop_last().take(n) =~= s.take(n));
    }
}

/// The place that digits stand for, where there can be one.
pub fn parse_place(s: &str) -> (r: Option<usize>)
    requires
        is_numeric(s@),
    ensures
        match r {
            Some(n) => n == numeric_value(s@),
            None => numeric_value(s@) > usize::MAX,
        },
{
    let cs = characters(s);
    let mut n: usize = 0;
    let mut i: usize = 0;
    while i < cs.len()
        invariant
            i <= cs.len(),
            cs@ == s@,
            is_numeric(s@),
            n == numeric_value(s@.take(i as int)),
        decreases cs.len() - i,
    {
        proof {
            numeric_value_grows(s@, i + 1);
            assert(s@.take(i + 1).drop_last() =~= s@.take(i as int));
        }
        let d: u128 = cs[i] as u128 - 48;
        let next: u128 = 10 * n as u128 + d;
        if next > usize::MAX as u128 {
            return None;
        }
        n = next as usize;
        i += 1;
    }
    assert(s@.take(i as int) =~= s@);
    Some(n)
}

/// The number that digits stand for, where it fits.
pub fn parse_number(s: &str) -> (r: Option<i64>)
    requires
        is_numeric(s@),
    ensures
        match r {
            Some(n) => n == numeric_value(s@),
            None => numeric_value(s@) > i64::MAX,
        },
{
    let cs = characters(s);
    let mut n: i64 = 0;
    let mut i: usize = 0;
    while i < cs.len()
        invariant
            i <= cs.len(),
            cs@ == s@,
            is_numeric(s@),
            n >= 0,
            n == numeric_value(s@.take(i as int)),
        decreases cs.len() - i,
    {
        proof {
            numeric_value_grows(s@, i + 1);
            assert(s@.take(i + 1).drop_last() =~= s@.take(i as int));
        }
        let d: i64 = cs[i] as i64 - 48;
        assert(0 <= d <= 9);
        let next: i128 = 10 * n as i128 + d as i128;
        if next > i64::MAX as i128 {
            return None;
        }
        n = next as i64;
        i += 1;
    }
    assert(s@.take(i as int) =~= s@);
    Some(n)
}

/// The digits of a number stand for that number.
pub proof fn decimal_reads_back(n: nat)
    ensures
        is_numeric(decimal_nat(n)),
        numeric_value(decimal_nat(n)) == n,
    decreases n,
{
    if n >= 10 {
        decimal_reads_back(n / 10);
        let first = decimal_nat(n / 10);
        let all = decimal_nat(n);
        assert(all.drop_last() =~= first);
        assert forall|i: int| 0 <= i < all.len() implies '0' <= #[trigger] all[i] && all[i] <= '9' by {
            if i < first.len() {
                assert(all[i] == first[i]);
            }
        }
    } else {
        assert(numeric_value(decimal_nat(n).drop_last()) == 0);
    }
}

/// There is always a piece.
proof fn lemma_pieces(s: Seq<char>, separator: char)
    ensures
        pieces(s, separator).len() > 0,
    decreases s.len(),
{
    if s.len() > 0 {
        lemma_pieces(s.drop_last(), separator);
    }
}

/// Parts and more parts are joined by one more separator.
proof fn lemma_joined_parts(a: Seq<Seq<char>>, b: Seq<Seq<char>>, separator: Seq<char>)
    requires
        a.len() > 0,
        b.len() > 0,
    ensures
        joined(a + b, separator) == joined(a, separator) + separator + joined(b, separator),
    decreases b.len(),
{
    let all = a + b;
    if b.len() == 1 {
        assert(all.drop_last() =~= a);
    } else {
        assert(all.drop_last() =~= a + b.drop_last());
        lemma_joined_parts(a, b.drop_last(), separator);
    }
    assert(joined(all, separator) =~= joined(a, separator) + separator + joined(b, separator));
}

/// What is put behind the last part is put behind the whole.
proof fn lemma_joined_grows(parts: Seq<Seq<char>>, separator: Seq<char>, c: char)
    requires
        parts.len() > 0,
    ensures
        joined(parts.update(parts.len() - 1, parts.last().push(c)), separator) == joined(
            parts,
            separator,
        ).push(c),
{
    let more = parts.update(parts.len() - 1, parts.last().push(c));
    assert(more.drop_last() =~= parts.drop_last());
    assert(joined(more, separator) =~= joined(parts, separator).push(c));
}

/// The pieces of two texts around a separator are those of the one and those of the other.
proof fn lemma_pieces_of_two(a: Seq<char>, b: Seq<char>, separator: char)
    ensures
        pieces(a + seq![separator] + b, separator) == pieces(a, separator) + pieces(b, separator),
    decreases b.len(),
{
    let all = a + seq![separator] + b;
    let first = pieces(a, separator);
    if b.len() == 0 {
        assert(all.drop_last() =~= a);
        assert(all.last() == separator);
        assert(first.push(Seq::<char>::empty()) =~= first + pieces(b, separator));
    } else {
        let fewer = b.drop_last();
        lemma_pieces_of_two(a, fewer, separator);
        lemma_pieces(fewer, separator);
        assert(all.drop_last() =~= a + seq![separator] + fewer);
        let second = pieces(fewer, separator);
        if b.last() == separator {
            assert((first + second).push(Seq::<char>::empty()) =~= first + second.push(
                Seq::<char>::empty(),
            ));
        } else {
            let c = b.last();
            let both = first + second;
            assert(both.last() == second.last());
            assert(both.update(both.len() - 1, both.last().push(c)) =~= first + second.update(
                second.len() - 1,
                second.last().push(c),
            ));
        }
    }
}

/// Two texts around a space are made small each for itself.
pub proof fn lowered_across_a_space(a: Seq<char>, b: Seq<char>)
    ensures
        lowered(a + seq![' '] + b) == lowered(a) + seq![' '] + lowered(b),
{
    lemma_pieces_of_two(a, b, ' ');
    lemma_pieces(a, ' ');
    lemma_pieces(b, ' ');
    let x = pieces(a, ' ').map_values(|word: Seq<char>| lowered_word(word));
    let y = pieces(b, ' ').map_values(|word: Seq<char>| lowered_word(word));
    assert((pieces(a, ' ') + pieces(b, ' ')).map_values(|word: Seq<char>| lowered_word(word))
        =~= x + y);
    lemma_joined_parts(x, y, seq![' ']);
}

/// An ASCII text in lower case has its capitals made small.
pub proof fn lowered_ascii(s: Seq<char>)
    requires
        is_ascii_chars(s),
    ensures
        lowered(s) == ascii_lowered(s),
        forall|i: int| 0 <= i < pieces(s, ' ').len() ==> is_ascii_chars(#[trigger] pieces(s, ' ')[i]),
    decreases s.len(),
{
    let parts = pieces(s, ' ');
    let words = parts.map_values(|word: Seq<char>| lowered_word(word));
    if s.len() == 0 {
        assert(words =~= seq![Seq::<char>::empty()]) by {
            assert(ascii_lowered(Seq::empty()) =~= Seq::empty());
        }
        assert(lowered(s) =~= ascii_lowered(s));
    } else {
        let before = s.drop_last();
        let c = s.last();
        assert(c == s[s.len() - 1]);
        assert(is_ascii_chars(before));
        lowered_ascii(before);
        lemma_pieces(before, ' ');
        let fewer = pieces(before, ' ');
        let told = fewer.map_values(|word: Seq<char>| lowered_word(word));
        let end = fewer.len() - 1;
        if c == ' ' {
            let none = Seq::<char>::empty();
            assert(ascii_lowered(none) =~= none);
            assert(words =~= told + seq![none]);
            lemma_joined_parts(told, seq![none], seq![' ']);
        } else {
            let word = fewer[end].push(c);
            assert(is_ascii_chars(fewer[end]));
            assert(is_ascii_chars(word));
            assert(ascii_lowered(word) =~= ascii_lowered(fewer[end]).push(ascii_small(c)));
            assert(words =~= told.update(end, told[end].push(ascii_small(c))));
            lemma_joined_grows(told, seq![' '], ascii_small(c));
        }
        assert(lowered(s) =~= ascii_lowered(s));
    }
}

/// A text without spaces occurs in two texts around a space where it occurs in one of them.
pub proof fn occurs_beside_a_space(needle: Seq<char>, a: Seq<char>, b: Seq<char>)
    requires
        !needle.contains(' '),
    ensures
        occurs(needle, a + seq![' '] + b) == (occurs(needle, a) || occurs(needle, b)),
{
    let all = a + seq![' '] + b;
    let n = needle.len() as int;
    if occurs(needle, a) {
        let i = choose|i: int| #[trigger] occurs_at(needle, a, i);
        assert(all.subrange(i, i + n) =~= a.subrange(i, i + n));
        assert(occurs_at(needle, all, i));
    }
    if occurs(needle, b) {
        let i = choose|i: int| #[trigger] occurs_at(needle, b, i);
        let j = a.len() + 1 + i;
        assert(all.subrange(j, j + n) =~= b.subrange(i, i + n));
        assert(occurs_at(needle, all, j));
    }
    if occurs(needle, all) {
        let i = choose|i: int| #[trigger] occurs_at(needle, all, i);
        if i + n <= a.len() {
            assert(a.subrange(i, i + n) =~= all.subrange(i, i + n));
            assert(occurs_at(needle, a, i));
        } else if i > a.len() {
            let j = i - a.len() - 1;
            assert(b.subrange(j, j + n) =~= all.subrange(i, i + n));
            assert(occurs_at(needle, b, j));
        } else {
            assert(all.subrange(i, i + n)[a.len() - i] == ' ');
            assert(needle[a.len() - i] == ' ');
        }
    }
}

/// Digits stand for no negative number.
pub proof fn numeric_value_is_not_negative(s: Seq<char>)
    requires
        is_numeric(s),
    ensures
        numeric_value(s) >= 0,
{
    numeric_value_grows(s, 0);
}

}
