//! Geohashes: the names of cells on the map.
use vstd::arithmetic::div_mod::lemma_fundamental_div_mod_converse;
use vstd::arithmetic::power2::{
    lemma2_to64, lemma2_to64_rest, lemma_pow2_adds, lemma_pow2_pos, lemma_pow2_unfold, pow2,
};
use vstd::prelude::*;

use crate::double::{
    are_near, distance, half_of_sum, is_above, is_nan, is_within, lemma_distance_is_positive,
    lemma_is_double, lemma_limits, lemma_middle_of_negatives, lemma_pow2_grows, lemma_zero, middle,
    number, one, NINETY, ONE_HUNDRED_EIGHTY,
};
use crate::text::{characters, text_before};

verus! {

/// The characters of geohashes; the place of each is the number it stands for.
pub open spec fn alphabet() -> Seq<char> {
    "0123456789bcdefghjkmnpqrstuvwxyz"@
}

/// A geohash of twelve characters.
pub open spec fn is_geohash(s: Seq<char>) -> bool {
    &&& s.len() == 12
    &&& forall|i: int| 0 <= i < s.len() ==> alphabet().contains(#[trigger] s[i])
}

/// Whether `c` stands in the alphabet of geohashes.
fn in_alphabet(c: char) -> (r: bool)
    ensures
        r == alphabet().contains(c),
{
    let letters = "0123456789bcdefghjkmnpqrstuvwxyz";
    for d in it: letters.chars()
        invariant
            it.seq() == alphabet(),
            forall|j: int| 0 <= j < it.index() ==> it.seq()[j] != c,
    {
        if d == c {
            assert(alphabet()[it.index() as int] == c);
            return true;
        }
    }
    false
}

/// Whether `s` is a syntactically valid 12-character geohash.
pub fn is_valid(s: &str) -> (r: bool)
    ensures
        r == is_geohash(s@),
{
    let cs = characters(s);
    if cs.len() != 12 {
        return false;
    }
    let mut i: usize = 0;
    while i < cs.len()
        invariant
            i <= cs.len(),
            cs@ == s@,
            cs.len() == 12,
            forall|j: int| 0 <= j < i ==> alphabet().contains(#[trigger] cs@[j]),
        decreases cs.len() - i,
    {
        if !in_alphabet(cs[i]) {
            assert(!alphabet().contains(s@[i as int]));
            return false;
        }
        i += 1;
    }
    true
}

/// The part of the range from `-limit` to `limit` degrees that is left after the range was
/// halved `k` times and the half with the angle was kept each time: its lower and its upper
/// end, in units of the smallest positive double. An angle in the middle is in the lower
/// half, and so is what is no number.
pub open spec fn part(bits: u64, limit: int, k: nat) -> (int, int)
    decreases k,
{
    if k == 0 {
        (-limit * one(), limit * one())
    } else {
        let (low, high) = part(bits, limit, (k - 1) as nat);
        if is_beyond(bits, middle(low, high)) {
            (middle(low, high), high)
        } else {
            (low, middle(low, high))
        }
    }
}

/// Whether an angle is more than `x`, which is given in units of the smallest positive
/// double.
pub open spec fn is_beyond(bits: u64, x: int) -> bool {
    !is_nan(bits) && number(bits) > x
}

/// Whether an angle is in the upper half of what is left after `k` halvings.
pub open spec fn in_upper_half(bits: u64, limit: int, k: nat) -> bool {
    is_beyond(bits, middle(part(bits, limit, k).0, part(bits, limit, k).1))
}

/// The bits of a geohash: those of the longitude and of the latitude by turns.
pub open spec fn hash_bit(lat: u64, lon: u64, i: nat) -> bool {
    if i % 2 == 0 {
        in_upper_half(lon, 180, i / 2)
    } else {
        in_upper_half(lat, 90, i / 2)
    }
}

/// The number that `n` bits of a geohash make, from bit `start` on.
pub open spec fn bits_value(lat: u64, lon: u64, start: nat, n: nat) -> int
    decreases n,
{
    if n == 0 {
        0
    } else {
        2 * bits_value(lat, lon, start, (n - 1) as nat) + if hash_bit(
            lat,
            lon,
            (start + n - 1) as nat,
        ) {
            1int
        } else {
            0
        }
    }
}

/// The geohash of `len` characters of a point: each character stands for five bits.
pub open spec fn geohash(lat: u64, lon: u64, len: nat) -> Seq<char> {
    Seq::new(len, |c: int| alphabet()[bits_value(lat, lon, (5 * c) as nat, 5)])
}

/// A part of a range around zero.
enum Range {
    /// The whole range, up to this far from zero.
    Whole(u64),
    /// From one number to another, both on the same side of zero; they are given without
    /// their sign, and `near` is the one nearer to zero.
    Side { below_zero: bool, near: u64, far: u64 },
}

impl Range {
    spec fn is_part(self, ends: (int, int)) -> bool {
        match self {
            Range::Whole(far) => {
                &&& far <= ONE_HUNDRED_EIGHTY
                &&& ends == (-distance(far), distance(far))
            },
            Range::Side { below_zero, near, far } => {
                &&& far <= ONE_HUNDRED_EIGHTY
                &&& are_near(near, far)
                &&& ends == if below_zero {
                    (-distance(far), -distance(near))
                } else {
                    (distance(near), distance(far))
                }
            },
        }
    }

    /// Which half an angle is in, and that half.
    fn halve(self, bits: u64, Ghost(ends): Ghost<(int, int)>) -> (r: (bool, Range))
        requires
            self.is_part(ends),
        ensures
            r.0 == is_beyond(bits, middle(ends.0, ends.1)),
            r.1.is_part(
                if r.0 {
                    (middle(ends.0, ends.1), ends.1)
                } else {
                    (ends.0, middle(ends.0, ends.1))
                },
            ),
    {
        match self {
            Range::Whole(far) => {
                proof {
                    lemma_zero(far);
                }
                let upper = is_above(bits, false, 0);
                (upper, Range::Side { below_zero: !upper, near: 0, far })
            },
            Range::Side { below_zero, near, far } => {
                let mid = half_of_sum(near, far);
                let upper = is_above(bits, below_zero, mid);
                proof {
                    lemma_middle_of_negatives(distance(near), distance(far));
                    lemma_distance_is_positive(near);
                    lemma_distance_is_positive(far);
                }
                if upper == below_zero {
                    (upper, Range::Side { below_zero, near, far: mid })
                } else {
                    (upper, Range::Side { below_zero, near: mid, far })
                }
            },
        }
    }
}

/// The character that stands for a number.
fn letter(value: u8) -> (r: char)
    requires
        value < 32,
    ensures
        r == alphabet()[value as int],
{
    proof {
        reveal_strlit("0123456789bcdefghjkmnpqrstuvwxyz");
    }
    "0123456789bcdefghjkmnpqrstuvwxyz".get_char(value as usize)
}

/// Encodes a latitude and a longitude into a geohash of `len` characters. The angles
/// are in degrees, given as the bits of double-precision numbers.
pub fn encode(lat: u64, lon: u64, len: usize) -> (r: String)
    ensures
        r@ == geohash(lat, lon, len as nat),
{
    proof {
        lemma_limits();
        assert(-90 * one() == -(90 * one()) && -180 * one() == -(180 * one()));
    }
    let mut out = String::new();
    let mut lats = Range::Whole(NINETY);
    let mut lons = Range::Whole(ONE_HUNDRED_EIGHTY);
    let mut even = true;
    let ghost mut i: nat = 0;
    let mut c: usize = 0;
    while c < len
        invariant
            c <= len,
            i == 5 * c,
            even == (i % 2 == 0),
            out@ =~= geohash(lat, lon, c as nat),
            lons.is_part(part(lon, 180, ((i + 1) / 2) as nat)),
            lats.is_part(part(lat, 90, i / 2)),
        decreases len - c,
    {
        let mut value: u8 = 0;
        let mut b: usize = 0;
        while b < 5
            invariant
                b <= 5,
                i == 5 * c + b,
                even == (i % 2 == 0),
                value == bits_value(lat, lon, (5 * c) as nat, b as nat),
                (b == 0 ==> value < 1) && (b == 1 ==> value < 2) && (b == 2 ==> value < 4) && (b
                    == 3 ==> value < 8) && (b == 4 ==> value < 16) && (b == 5 ==> value < 32),
                lons.is_part(part(lon, 180, ((i + 1) / 2) as nat)),
                lats.is_part(part(lat, 90, i / 2)),
            decreases 5 - b,
        {
            let bit;
            if even {
                let (upper, next) = lons.halve(lon, Ghost(part(lon, 180, ((i + 1) / 2) as nat)));
                bit = upper;
                lons = next;
            } else {
                let (upper, next) = lats.halve(lat, Ghost(part(lat, 90, i / 2)));
                bit = upper;
                lats = next;
            }
            assert(bit == hash_bit(lat, lon, i));
            value = 2 * value + if bit {
                1
            } else {
                0
            };
            even = !even;
            b += 1;
            proof {
                i = i + 1;
            }
        }
        out.push(letter(value));
        c += 1;
        assert(out@ =~= geohash(lat, lon, c as nat));
    }
    out
}

/// There are 32 characters in the alphabet, all different.
proof fn lemma_alphabet()
    ensures
        alphabet().len() == 32,
        alphabet().no_duplicates(),
{
    reveal_strlit("0123456789bcdefghjkmnpqrstuvwxyz");
}

/// Five bits make a number below 32.
proof fn lemma_bits_value(lat: u64, lon: u64, start: nat)
    ensures
        0 <= bits_value(lat, lon, start, 5) < 32,
{
    reveal_with_fuel(bits_value, 6);
}

/// A geohash has as many characters as were asked for, all of them from the alphabet.
pub proof fn encoding_has_length_and_alphabet(lat: u64, lon: u64, len: nat)
    ensures
        geohash(lat, lon, len).len() == len,
        forall|i: int|
            0 <= i < len ==> alphabet().contains(#[trigger] geohash(lat, lon, len)[i]),
{
    lemma_alphabet();
    let hash = geohash(lat, lon, len);
    assert forall|i: int| 0 <= i < len implies alphabet().contains(#[trigger] hash[i]) by {
        lemma_bits_value(lat, lon, (5 * i) as nat);
        assert(hash[i] == alphabet()[bits_value(lat, lon, (5 * i) as nat, 5)]);
    }
}

/// The geohash of twelve characters of any point is a valid one.
pub proof fn encoding_is_valid(lat: u64, lon: u64)
    ensures
        is_geohash(geohash(lat, lon, 12)),
{
    encoding_has_length_and_alphabet(lat, lon, 12);
}

/// A geohash begins with the shorter geohashes of the same point.
pub proof fn shorter_is_a_beginning(lat: u64, lon: u64, short: nat, long: nat)
    requires
        short <= long,
    ensures
        geohash(lat, lon, long).take(short as int) == geohash(lat, lon, short),
{
    assert(geohash(lat, lon, long).take(short as int) =~= geohash(lat, lon, short));
}

/// Which part an angle is in, of the `2^k` equal parts of the range from `-limit` to
/// `limit` degrees, as the bits of a geohash tell it.
pub open spec fn cell(bits: u64, limit: int, k: nat) -> int
    decreases k,
{
    if k == 0 {
        0
    } else {
        2 * cell(bits, limit, (k - 1) as nat) + if in_upper_half(bits, limit, (k - 1) as nat) {
            1int
        } else {
            0
        }
    }
}

/// The middle of one of `count` equal parts of a range around zero, each of them a small
/// multiple of a large power of two.
proof fn lemma_exact_middle(c: int, count: int, k: nat, e: nat)
    requires
        0 <= c < count,
        count == pow2(k),
        k <= 47,
    ensures
        middle(
            (2 * c - count) * (45 * pow2(e)),
            (2 * c + 2 - count) * (45 * pow2(e)),
        ) == (2 * c + 1 - count) * (45 * pow2(e)),
{
    let unit = 45 * pow2(e);
    let d = 2 * c + 1 - count;
    let size = if d < 0 {
        -d
    } else {
        d
    };
    let whole = pow2((e + 1) as nat) as int;
    lemma_pow2_unfold((e + 1) as nat);
    lemma_pow2_pos(e);
    assert((2 * c - count) * unit + (2 * c + 2 - count) * unit == d * (45 * whole))
        by (nonlinear_arith)
        requires
            d == 2 * c + 1 - count,
            unit == 45 * pow2(e),
            whole == 2 * pow2(e),
    ;
    let sum = (size * 45) * whole;
    assert(size * (45 * whole) == sum) by (nonlinear_arith)
        requires
            sum == (size * 45) * whole,
    ;
    assert((-d) * (45 * whole) == -(d * (45 * whole))) by (nonlinear_arith);
    assert(sum >= 0) by (nonlinear_arith)
        requires
            sum == (size * 45) * whole,
            size >= 0,
            whole >= 0,
    ;
    lemma_fundamental_div_mod_converse(sum, whole, size * 45, 0);
    lemma2_to64();
    lemma2_to64_rest();
    lemma_pow2_grows(k, 47);
    lemma_pow2_adds(53, (e + 1) as nat);
    assert(sum < pow2(53) * whole) by (nonlinear_arith)
        requires
            sum == (size * 45) * whole,
            size * 45 < pow2(53),
            whole > 0,
    ;
    lemma_is_double(sum as nat, (e + 1) as nat);
    assert(sum == 2 * (size * unit)) by (nonlinear_arith)
        requires
            sum == (size * 45) * whole,
            whole == 2 * pow2(e),
            unit == 45 * pow2(e),
    ;
    assert((-size) * unit == -(size * unit)) by (nonlinear_arith);
}

/// What is left after few halvings is exactly one of the equal parts.
proof fn lemma_part(bits: u64, limit: int, k: nat, e: nat)
    requires
        limit * one() == 45 * pow2((k + e) as nat),
        limit > 0,
        k <= 48,
    ensures
        0 <= cell(bits, limit, k) < pow2(k),
        part(bits, limit, k).0 == (2 * cell(bits, limit, k) - pow2(k)) * (45 * pow2(e)),
        part(bits, limit, k).1 == (2 * cell(bits, limit, k) + 2 - pow2(k)) * (45 * pow2(e)),
        is_within(bits, limit) ==> part(bits, limit, k).0 <= number(bits) <= part(
            bits,
            limit,
            k,
        ).1,
        is_within(bits, limit) && number(bits) > -limit * one() ==> part(bits, limit, k).0
            < number(bits),
    decreases k,
{
    let unit = 45 * pow2(e);
    let c = cell(bits, limit, k);
    lemma2_to64();
    if k == 0 {
        assert(-limit * one() == -(limit * one())) by (nonlinear_arith);
        assert((2 * c - pow2(k)) * unit == -unit && (2 * c + 2 - pow2(k)) * unit == unit)
            by (nonlinear_arith)
            requires
                c == 0,
                pow2(k) == 1,
        ;
    } else {
        let fewer = (k - 1) as nat;
        let more = (e + 1) as nat;
        lemma_part(bits, limit, fewer, more);
        let before = cell(bits, limit, fewer);
        let count = pow2(fewer) as int;
        lemma_pow2_unfold(k);
        lemma_pow2_unfold(more);
        lemma_exact_middle(before, count, fewer, more);
        let large = 45 * pow2(more);
        assert((2 * before - count) * large == (2 * (2 * before) - 2 * count) * unit
            && (2 * before + 2 - count) * large == (2 * (2 * before) + 4 - 2 * count) * unit && (2
            * before + 1 - count) * large == (2 * (2 * before) + 2 - 2 * count) * unit)
            by (nonlinear_arith)
            requires
                large == 2 * unit,
        ;
    }
}

/// What is left after few halvings, measured against the whole range.
proof fn lemma_cell(bits: u64, limit: int, k: nat)
    requires
        limit == 90 || limit == 180,
        k <= 48,
    ensures
        part(bits, limit, k).0 * pow2(k) == cell(bits, limit, k) * (2 * (limit * one())) - (limit
            * one()) * pow2(k),
        part(bits, limit, k).1 * pow2(k) == (cell(bits, limit, k) + 1) * (2 * (limit * one()))
            - (limit * one()) * pow2(k),
        is_within(bits, limit) ==> part(bits, limit, k).0 <= number(bits) <= part(
            bits,
            limit,
            k,
        ).1,
        is_within(bits, limit) && number(bits) > -limit * one() ==> part(bits, limit, k).0
            < number(bits),
{
    let e = if limit == 90 {
        (1075 - k) as nat
    } else {
        (1076 - k) as nat
    };
    let half = limit * one();
    let c = cell(bits, limit, k);
    let unit = 45 * pow2(e) as int;
    let power = pow2(k) as int;
    lemma_pow2_unfold(1075);
    lemma_pow2_unfold(1076);
    lemma_pow2_adds(k, e);
    assert(half == 45 * pow2((k + e) as nat));
    lemma_part(bits, limit, k, e);
    assert(half == unit * power) by (nonlinear_arith)
        requires
            half == 45 * (power * pow2(e)),
            unit == 45 * pow2(e),
    ;
    assert(((2 * c - power) * unit) * power == c * (2 * half) - half * power) by (nonlinear_arith)
        requires
            half == unit * power,
    ;
    assert(((2 * c + 2 - power) * unit) * power == (c + 1) * (2 * half) - half * power)
        by (nonlinear_arith)
        requires
            half == unit * power,
    ;
}

/// A point lies in the part that its geohash names: between the lower and the upper end
/// of that part, for the longitude and for the latitude, and above the lower end, unless
/// that is the end of the map. This holds for the first 48
/// halvings of each, which is to say of geohashes of up to 19 characters; beyond, the
/// middle of a part need not be a double.
pub proof fn a_point_lies_in_its_cell(bits: u64, limit: int, k: nat)
    requires
        limit == 90 || limit == 180,
        k <= 48,
        is_within(bits, limit),
    ensures
        cell(bits, limit, k) * (2 * (limit * one())) <= (number(bits) + limit * one()) * pow2(k)
            <= (cell(bits, limit, k) + 1) * (2 * (limit * one())),
        number(bits) > -limit * one() ==> cell(bits, limit, k) * (2 * (limit * one())) < (number(
            bits,
        ) + limit * one()) * pow2(k),
{
    lemma_cell(bits, limit, k);
    lemma_pow2_pos(k);
    let (low, high) = part(bits, limit, k);
    let half = limit * one();
    let n = number(bits);
    let power = pow2(k) as int;
    assert(low * power <= n * power <= high * power) by (nonlinear_arith)
        requires
            low <= n <= high,
            power > 0,
    ;
    assert(low < n ==> low * power < n * power) by (nonlinear_arith)
        requires
            power > 0,
    ;
    assert((n + half) * power == n * power + half * power) by (nonlinear_arith);
}

/// Bits are told by the number that they make.
proof fn lemma_bits_are_told(
    lat: u64,
    lon: u64,
    other_lat: u64,
    other_lon: u64,
    start: nat,
    n: nat,
    i: nat,
)
    requires
        bits_value(lat, lon, start, n) == bits_value(other_lat, other_lon, start, n),
        i < n,
    ensures
        hash_bit(lat, lon, start + i) == hash_bit(other_lat, other_lon, start + i),
    decreases n,
{
    if i < n - 1 {
        lemma_bits_are_told(lat, lon, other_lat, other_lon, start, (n - 1) as nat, i);
    }
}

/// Points with the same geohash have the same bits.
proof fn lemma_same_hash_same_bits(
    lat: u64,
    lon: u64,
    other_lat: u64,
    other_lon: u64,
    len: nat,
    i: nat,
)
    requires
        geohash(lat, lon, len) == geohash(other_lat, other_lon, len),
        i < 5 * len,
    ensures
        hash_bit(lat, lon, i) == hash_bit(other_lat, other_lon, i),
{
    let c = i as int / 5;
    let start = (5 * c) as nat;
    lemma_alphabet();
    lemma_bits_value(lat, lon, start);
    lemma_bits_value(other_lat, other_lon, start);
    assert(geohash(lat, lon, len)[c] == alphabet()[bits_value(lat, lon, start, 5)]);
    assert(geohash(other_lat, other_lon, len)[c] == alphabet()[bits_value(
        other_lat,
        other_lon,
        start,
        5,
    )]);
    lemma_bits_are_told(lat, lon, other_lat, other_lon, start, 5, (i - start) as nat);
}

/// Points with the same geohash are told to be in the same part of the map: of `len`
/// characters, the longitude has `(5 * len + 1) / 2` bits and the latitude has
/// `5 * len / 2`.
pub proof fn same_hash_means_same_cell(
    lat: u64,
    lon: u64,
    other_lat: u64,
    other_lon: u64,
    len: nat,
    k: nat,
)
    requires
        geohash(lat, lon, len) == geohash(other_lat, other_lon, len),
    ensures
        2 * k <= 5 * len + 1 ==> cell(lon, 180, k) == cell(other_lon, 180, k),
        2 * k <= 5 * len ==> cell(lat, 90, k) == cell(other_lat, 90, k),
    decreases k,
{
    if k > 0 && 2 * k <= 5 * len + 1 {
        let before = (k - 1) as nat;
        same_hash_means_same_cell(lat, lon, other_lat, other_lon, len, before);
        lemma_same_hash_same_bits(lat, lon, other_lat, other_lon, len, 2 * before);
        if 2 * k <= 5 * len {
            lemma_same_hash_same_bits(lat, lon, other_lat, other_lon, len, 2 * before + 1);
        }
    }
}

/// The characters of the alphabet are in the order of what they stand for.
proof fn lemma_alphabet_ascends(a: int, b: int)
    requires
        0 <= a < b < 32,
    ensures
        alphabet()[a] < alphabet()[b],
{
    reveal_strlit("0123456789bcdefghjkmnpqrstuvwxyz");
}

/// What is left of the range is told by the bits so far.
proof fn lemma_same_part(bits: u64, other: u64, limit: int, k: nat)
    requires
        forall|j: nat| j < k ==> in_upper_half(bits, limit, j) == in_upper_half(other, limit, j),
    ensures
        part(bits, limit, k) == part(other, limit, k),
    decreases k,
{
    if k > 0 {
        let before = (k - 1) as nat;
        lemma_same_part(bits, other, limit, before);
        assert(in_upper_half(bits, limit, before) == in_upper_half(other, limit, before));
    }
}

/// The first bit in which the geohashes of two points differ is set for the one that lies
/// further north or east.
proof fn lemma_first_difference(
    lat: u64,
    lon: u64,
    other_lat: u64,
    other_lon: u64,
    i: nat,
)
    requires
        !is_nan(other_lat),
        !is_nan(other_lon),
        number(lat) <= number(other_lat),
        number(lon) <= number(other_lon),
        forall|j: nat| j < i ==> hash_bit(lat, lon, j) == hash_bit(other_lat, other_lon, j),
    ensures
        hash_bit(lat, lon, i) ==> hash_bit(other_lat, other_lon, i),
{
    let k = i / 2;
    if i % 2 == 0 {
        assert forall|j: nat| j < k implies in_upper_half(lon, 180, j) == in_upper_half(
            other_lon,
            180,
            j,
        ) by {
            assert(hash_bit(lat, lon, 2 * j) == hash_bit(other_lat, other_lon, 2 * j));
        }
        lemma_same_part(lon, other_lon, 180, k);
    } else {
        assert forall|j: nat| j < k implies in_upper_half(lat, 90, j) == in_upper_half(
            other_lat,
            90,
            j,
        ) by {
            assert(hash_bit(lat, lon, 2 * j + 1) == hash_bit(other_lat, other_lon, 2 * j + 1));
        }
        lemma_same_part(lat, other_lat, 90, k);
    }
}

/// Where the bits up to a place are the same, the next few make no smaller number.
proof fn lemma_bits_grow(
    lat: u64,
    lon: u64,
    other_lat: u64,
    other_lon: u64,
    start: nat,
    n: nat,
)
    requires
        !is_nan(other_lat),
        !is_nan(other_lon),
        number(lat) <= number(other_lat),
        number(lon) <= number(other_lon),
        forall|j: nat| j < start ==> hash_bit(lat, lon, j) == hash_bit(other_lat, other_lon, j),
    ensures
        bits_value(lat, lon, start, n) <= bits_value(other_lat, other_lon, start, n),
        bits_value(lat, lon, start, n) == bits_value(other_lat, other_lon, start, n) ==> forall|
            j: nat,
        |
            j < start + n ==> hash_bit(lat, lon, j) == hash_bit(other_lat, other_lon, j),
    decreases n,
{
    if n > 0 {
        let before = (n - 1) as nat;
        lemma_bits_grow(lat, lon, other_lat, other_lon, start, before);
        let last = (start + n - 1) as nat;
        if bits_value(lat, lon, start, before) == bits_value(other_lat, other_lon, start, before) {
            lemma_first_difference(lat, lon, other_lat, other_lon, last);
            if bits_value(lat, lon, start, n) == bits_value(other_lat, other_lon, start, n) {
                assert forall|j: nat| j < start + n implies hash_bit(lat, lon, j) == hash_bit(
                    other_lat,
                    other_lon,
                    j,
                ) by {
                    if j < last {
                        assert(hash_bit(lat, lon, j) == hash_bit(other_lat, other_lon, j));
                    }
                }
            }
        }
    }
}

/// The order of geohashes, from character `c` on.
proof fn lemma_hashes_grow(
    lat: u64,
    lon: u64,
    other_lat: u64,
    other_lon: u64,
    len: nat,
    c: nat,
)
    requires
        !is_nan(other_lat),
        !is_nan(other_lon),
        number(lat) <= number(other_lat),
        number(lon) <= number(other_lon),
        c <= len,
        forall|j: nat| j < 5 * c ==> hash_bit(lat, lon, j) == hash_bit(other_lat, other_lon, j),
    ensures
        ({
            let a = geohash(lat, lon, len).skip(c as int);
            let b = geohash(other_lat, other_lon, len).skip(c as int);
            a == b || text_before(a, b)
        }),
    decreases len - c,
{
    let first = geohash(lat, lon, len);
    let second = geohash(other_lat, other_lon, len);
    let a = first.skip(c as int);
    let b = second.skip(c as int);
    if c == len {
        assert(a =~= b);
    } else {
        let start = (5 * c) as nat;
        lemma_bits_grow(lat, lon, other_lat, other_lon, start, 5);
        lemma_bits_value(lat, lon, start);
        lemma_bits_value(other_lat, other_lon, start);
        let x = bits_value(lat, lon, start, 5);
        let y = bits_value(other_lat, other_lon, start, 5);
        assert(a[0] == alphabet()[x]);
        assert(b[0] == alphabet()[y]);
        if x < y {
            lemma_alphabet_ascends(x, y);
        } else {
            lemma_hashes_grow(lat, lon, other_lat, other_lon, len, c + 1);
            assert(a.drop_first() =~= first.skip(c as int + 1));
            assert(b.drop_first() =~= second.skip(c as int + 1));
            assert(a =~= seq![a[0]] + a.drop_first());
            assert(b =~= seq![b[0]] + b.drop_first());
        }
    }
}

/// A point further north, further east, or both, never has a smaller geohash of the same
/// length.
pub proof fn north_and_east_are_not_smaller(
    lat: u64,
    lon: u64,
    other_lat: u64,
    other_lon: u64,
    len: nat,
)
    requires
        !is_nan(lat),
        !is_nan(lon),
        !is_nan(other_lat),
        !is_nan(other_lon),
        number(lat) <= number(other_lat),
        number(lon) <= number(other_lon),
    ensures
        geohash(lat, lon, len) == geohash(other_lat, other_lon, len) || text_before(
            geohash(lat, lon, len),
            geohash(other_lat, other_lon, len),
        ),
{
    lemma_hashes_grow(lat, lon, other_lat, other_lon, len, 0);
    assert(geohash(lat, lon, len).skip(0) =~= geohash(lat, lon, len));
    assert(geohash(other_lat, other_lon, len).skip(0) =~= geohash(other_lat, other_lon, len));
}

/// The part of an angle is the one that the angle lies in.
proof fn lemma_only_cell(bits: u64, limit: int, k: nat, x: int)
    requires
        limit == 90 || limit == 180,
        k <= 48,
        is_nan(bits) && x == 0 || is_within(bits, limit) && lies_in_part(bits, limit, k, x),
    ensures
        cell(bits, limit, k) == x,
{
    lemma_cell_is_not_negative(bits, limit, k);
    if !is_nan(bits) {
        a_point_lies_in_its_cell(bits, limit, k);
        lemma_pow2_pos(1074);
        let c = cell(bits, limit, k);
        let width = 2 * (limit * one());
        let at = (number(bits) + limit * one()) * pow2(k);
        assert(width > 0) by (nonlinear_arith)
            requires
                one() > 0,
                limit > 0,
                width == 2 * (limit * one()),
        ;
        if number(bits) == -limit * one() {
            assert((number(bits) + limit * one()) == 0) by (nonlinear_arith)
                requires
                    number(bits) == -limit * one(),
            ;
            assert(at == 0) by (nonlinear_arith)
                requires
                    number(bits) + limit * one() == 0,
                    at == (number(bits) + limit * one()) * pow2(k),
            ;
            assert(c <= 0) by (nonlinear_arith)
                requires
                    c * width <= 0,
                    width > 0,
            ;
        } else {
            assert(x < c + 1) by (nonlinear_arith)
                requires
                    x * width < at,
                    at <= (c + 1) * width,
                    width > 0,
            ;
            assert(c < x + 1) by (nonlinear_arith)
                requires
                    c * width < at,
                    at <= (x + 1) * width,
                    width > 0,
            ;
        }
    }
}

proof fn lemma_cell_is_not_negative(bits: u64, limit: int, k: nat)
    ensures
        cell(bits, limit, k) >= 0,
        is_nan(bits) ==> cell(bits, limit, k) == 0,
    decreases k,
{
    if k > 0 {
        lemma_cell_is_not_negative(bits, limit, (k - 1) as nat);
    }
}

/// Whether an angle lies in part `x` of the `2^k` equal parts of the range from `-limit` to
/// `limit` degrees, counted from the lower end: above the lower end of the part, and not above
/// its upper end. The lower end of the range lies in the first part.
pub open spec fn lies_in_part(bits: u64, limit: int, k: nat, x: int) -> bool {
    if number(bits) == -limit * one() {
        x == 0
    } else {
        x * (2 * (limit * one())) < (number(bits) + limit * one()) * pow2(k) && (number(bits)
            + limit * one()) * pow2(k) <= (x + 1) * (2 * (limit * one()))
    }
}

/// Each character of a geohash tells three more halvings of one angle and two of the other,
/// and the longitude begins: where the longitude lies in part `x` of the parts into which 360
/// degrees were halved so far, and the latitude in part `y` of those of 180 degrees, the
/// character stands for the last bits of both numbers by turns. What is no number lies in the
/// lower half each time. The first eighteen characters are told so.
pub proof fn each_character_tells_where(lat: u64, lon: u64, len: nat, j: nat, x: int, y: int)
    requires
        j <= 8,
        is_nan(lon) || (number(lon) >= -180 * one() && number(lon) <= 180 * one()),
        is_nan(lat) || (number(lat) >= -90 * one() && number(lat) <= 90 * one()),
    ensures
        2 * j < len && (if is_nan(lon) {
            x == 0
        } else {
            lies_in_part(lon, 180, 5 * j + 3, x)
        }) && (if is_nan(lat) {
            y == 0
        } else {
            lies_in_part(lat, 90, 5 * j + 2, y)
        }) ==> geohash(lat, lon, len)[2 * j as int]
            == "0123456789bcdefghjkmnpqrstuvwxyz"@[16 * ((x / 4) % 2) + 8 * ((y / 2) % 2) + 4 * ((x
            / 2) % 2) + 2 * (y % 2) + x % 2],
        2 * j + 1 < len && (if is_nan(lon) {
            x == 0
        } else {
            lies_in_part(lon, 180, 5 * j + 5, x)
        }) && (if is_nan(lat) {
            y == 0
        } else {
            lies_in_part(lat, 90, 5 * j + 5, y)
        }) ==> geohash(lat, lon, len)[2 * j as int + 1]
            == "0123456789bcdefghjkmnpqrstuvwxyz"@[16 * ((y / 4) % 2) + 8 * ((x / 2) % 2) + 4 * ((y
            / 2) % 2) + 2 * (x % 2) + y % 2],
{
    if 2 * j < len && (if is_nan(lon) {
        x == 0
    } else {
        lies_in_part(lon, 180, 5 * j + 3, x)
    }) && (if is_nan(lat) {
        y == 0
    } else {
        lies_in_part(lat, 90, 5 * j + 2, y)
    }) {
        lemma_only_cell(lon, 180, 5 * j + 3, x);
        lemma_only_cell(lat, 90, 5 * j + 2, y);
        lemma_even_character(lat, lon, len, j);
    }
    if 2 * j + 1 < len && (if is_nan(lon) {
        x == 0
    } else {
        lies_in_part(lon, 180, 5 * j + 5, x)
    }) && (if is_nan(lat) {
        y == 0
    } else {
        lies_in_part(lat, 90, 5 * j + 5, y)
    }) {
        lemma_only_cell(lon, 180, 5 * j + 5, x);
        lemma_only_cell(lat, 90, 5 * j + 5, y);
        lemma_odd_character(lat, lon, len, j);
    }
}

proof fn lemma_even_character(lat: u64, lon: u64, len: nat, j: nat)
    requires
        2 * j < len,
    ensures
        ({
            let x = cell(lon, 180, 5 * j + 3);
            let y = cell(lat, 90, 5 * j + 2);
            geohash(lat, lon, len)[2 * j as int] == alphabet()[16 * ((x / 4) % 2) + 8 * ((y / 2)
                % 2) + 4 * ((x / 2) % 2) + 2 * (y % 2) + x % 2]
        }),
{
    lemma_last_bits(lon, 180, 5 * j);
    lemma_last_bits(lat, 90, 5 * j);
    lemma_turns(lat, lon, 5 * j);
    lemma_five_bits(lat, lon, 10 * j);
    assert((5 * (2 * j as int)) as nat == 10 * j);
}

proof fn lemma_odd_character(lat: u64, lon: u64, len: nat, j: nat)
    requires
        2 * j + 1 < len,
    ensures
        ({
            let x = cell(lon, 180, 5 * j + 5);
            let y = cell(lat, 90, 5 * j + 5);
            geohash(lat, lon, len)[2 * j as int + 1] == alphabet()[16 * ((y / 4) % 2) + 8 * ((x / 2)
                % 2) + 4 * ((y / 2) % 2) + 2 * (x % 2) + y % 2]
        }),
{
    lemma_last_bits(lon, 180, 5 * j + 2);
    lemma_last_bits(lat, 90, 5 * j + 2);
    lemma_turns(lat, lon, 5 * j + 2);
    lemma_five_bits(lat, lon, 10 * j + 5);
    assert((5 * (2 * j as int + 1)) as nat == 10 * j + 5);
}

/// What a bit adds to a number of five bits.
spec fn worth(bit: bool, value: int) -> int {
    if bit {
        value
    } else {
        0
    }
}

proof fn lemma_five_bits(lat: u64, lon: u64, start: nat)
    ensures
        bits_value(lat, lon, start, 5) == worth(hash_bit(lat, lon, start), 16) + worth(
            hash_bit(lat, lon, start + 1),
            8,
        ) + worth(hash_bit(lat, lon, start + 2), 4) + worth(hash_bit(lat, lon, start + 3), 2)
            + worth(hash_bit(lat, lon, start + 4), 1),
{
    reveal_with_fuel(bits_value, 6);
}

/// The last three halvings before `k + 3`, and the last two before `k + 2`.
proof fn lemma_last_bits(bits: u64, limit: int, k: nat)
    ensures
        ({
            let three = cell(bits, limit, k + 3);
            let two = cell(bits, limit, k + 2);
            &&& (three / 4) % 2 == (if in_upper_half(bits, limit, k) {
                1int
            } else {
                0
            })
            &&& (three / 2) % 2 == (if in_upper_half(bits, limit, k + 1) {
                1int
            } else {
                0
            })
            &&& three % 2 == (if in_upper_half(bits, limit, k + 2) {
                1int
            } else {
                0
            })
            &&& (two / 2) % 2 == (if in_upper_half(bits, limit, k) {
                1int
            } else {
                0
            })
            &&& two % 2 == (if in_upper_half(bits, limit, k + 1) {
                1int
            } else {
                0
            })
        }),
{
    let zero = cell(bits, limit, k);
    let one = cell(bits, limit, k + 1);
    let two = cell(bits, limit, k + 2);
    let three = cell(bits, limit, k + 3);
    assert(one == 2 * zero + if in_upper_half(bits, limit, k) {
        1int
    } else {
        0
    });
    assert(two == 2 * one + if in_upper_half(bits, limit, k + 1) {
        1int
    } else {
        0
    });
    assert(three == 2 * two + if in_upper_half(bits, limit, k + 2) {
        1int
    } else {
        0
    });
}

/// The bits of the longitude and of the latitude by turns.
proof fn lemma_turns(lat: u64, lon: u64, k: nat)
    ensures
        hash_bit(lat, lon, 2 * k) == in_upper_half(lon, 180, k),
        hash_bit(lat, lon, 2 * k + 1) == in_upper_half(lat, 90, k),
        hash_bit(lat, lon, 2 * k + 2) == in_upper_half(lon, 180, k + 1),
        hash_bit(lat, lon, 2 * k + 3) == in_upper_half(lat, 90, k + 1),
        hash_bit(lat, lon, 2 * k + 4) == in_upper_half(lon, 180, k + 2),
        hash_bit(lat, lon, 2 * k + 5) == in_upper_half(lat, 90, k + 2),
{
}

/// Geohashes are made as they are told, and a text is a valid geohash exactly where it has
/// twelve characters of the alphabet.
pub proof fn geohashes_are_told(lat: u64, lon: u64, len: usize, r: String, s: &str, valid: bool)
    ensures
        call_ensures(encode, (lat, lon, len), r) ==> r@ == geohash(lat, lon, len as nat),
        call_ensures(is_valid, (s,), valid) ==> valid == (s@.len() == 12 && forall|i: int|
            0 <= i < 12 ==> "0123456789bcdefghjkmnpqrstuvwxyz"@.contains(#[trigger] s@[i])),
{
}

}
