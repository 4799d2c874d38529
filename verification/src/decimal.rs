//! Fixed-point decimal numbers read from text.
//!
//! A number is an optional sign, digits, and optionally a point followed by at
//! most eight digits. It is held as the count of its 10^-8 units.

use vstd::prelude::*;
use vstd::string::StringSliceAdditionalSpecFns;

verus! {

/// How many digits may follow the point.
pub const FRACTION_DIGITS: usize = 8;

pub open spec fn is_digit(b: u8) -> bool {
    48 <= b && b <= 57
}

pub open spec fn all_digits(s: Seq<u8>) -> bool {
    forall|i: int| 0 <= i < s.len() ==> is_digit(#[trigger] s[i])
}

/// The number that a string of decimal digits writes.
pub open spec fn digits_value(s: Seq<u8>) -> int
    decreases s.len(),
{
    if s.len() == 0 {
        0
    } else {
        digits_value(s.drop_last()) * 10 + (s.last() as int - 48)
    }
}

pub open spec fn zeros(n: nat) -> Seq<u8> {
    Seq::new(n, |i: int| 48u8)
}

/// `p` is where the first point of `s` stands, or the length of `s` if it has none.
pub open spec fn point_is_at(s: Seq<u8>, p: int) -> bool {
    &&& 0 <= p <= s.len()
    &&& forall|k: int| 0 <= k < p ==> #[trigger] s[k] != 46
    &&& p < s.len() ==> s[p] == 46
}

pub open spec fn point_index(s: Seq<u8>) -> int {
    choose|p: int| point_is_at(s, p)
}

/// The bytes before the first point.
pub open spec fn whole_part(s: Seq<u8>) -> Seq<u8> {
    s.take(point_index(s))
}

/// The bytes after the first point.
pub open spec fn fraction_part(s: Seq<u8>) -> Seq<u8> {
    if point_index(s) < s.len() {
        s.skip(point_index(s) + 1)
    } else {
        Seq::empty()
    }
}

/// An unsigned decimal: digits on both sides of at most one point, at least
/// one digit in all, at most eight after the point.
pub open spec fn well_formed(s: Seq<u8>) -> bool {
    &&& all_digits(whole_part(s))
    &&& all_digits(fraction_part(s))
    &&& whole_part(s).len() + fraction_part(s).len() >= 1
    &&& fraction_part(s).len() <= 8
}

/// The digits of the number with its fraction filled up to eight places.
pub open spec fn scaled_digits(s: Seq<u8>) -> Seq<u8> {
    whole_part(s) + fraction_part(s) + zeros((8 - fraction_part(s).len()) as nat)
}

/// The units of an unsigned decimal, where it is well formed and fits an `i64`.
pub open spec fn magnitude(s: Seq<u8>) -> Option<int> {
    if well_formed(s) && digits_value(scaled_digits(s)) <= i64::MAX {
        Some(digits_value(scaled_digits(s)))
    } else {
        None
    }
}

/// The units of a decimal with an optional sign in front.
pub open spec fn decimal_units(s: Seq<u8>) -> Option<int> {
    if s.len() > 0 && s[0] == 45 {
        match magnitude(s.skip(1)) {
            Some(m) => Some(-m),
            None => None,
        }
    } else if s.len() > 0 && s[0] == 43 {
        magnitude(s.skip(1))
    } else {
        magnitude(s)
    }
}

/// A prefix of a digit string writes a number that is not negative and not
/// greater than the whole string's.
pub proof fn lemma_prefix_value(s: Seq<u8>, k: int)
    requires
        all_digits(s),
        0 <= k <= s.len(),
    ensures
        0 <= digits_value(s.take(k)) <= digits_value(s),
    decreases s.len(),
{
    if s.len() == 0 {
        assert(s.take(k) =~= s);
    } else {
        let front = s.drop_last();
        let j = if k < s.len() { k } else { s.len() - 1 };
        lemma_prefix_value(front, j);
        assert(front.take(j) =~= s.take(j));
        assert(is_digit(s[s.len() - 1]));
        if k == s.len() {
            assert(s.take(k) =~= s);
            lemma_prefix_value(front, 0);
            assert(front.take(0) =~= Seq::<u8>::empty());
        }
    }
}

/// The units of a decimal fit an `i64`, and so do their negatives.
pub proof fn law_units_fit(s: Seq<u8>)
    ensures
        match decimal_units(s) {
            Some(v) => -i64::MAX <= v <= i64::MAX,
            None => true,
        },
        match magnitude(s) {
            Some(m) => 0 <= m <= i64::MAX,
            None => true,
        },
{
    if s.len() > 0 && (s[0] == 45 || s[0] == 43) {
        lemma_magnitude_is_natural(s.skip(1));
    }
    lemma_magnitude_is_natural(s);
}

proof fn lemma_magnitude_is_natural(s: Seq<u8>)
    ensures
        match magnitude(s) {
            Some(m) => 0 <= m <= i64::MAX,
            None => true,
        },
{
    if magnitude(s) is Some {
        let d = scaled_digits(s);
        assert(all_digits(d)) by {
            assert forall|i: int| 0 <= i < d.len() implies is_digit(#[trigger] d[i]) by {
                let w = whole_part(s);
                let f = fraction_part(s);
                if i < w.len() {
                    assert(d[i] == w[i]);
                } else if i < w.len() + f.len() {
                    assert(d[i] == f[i - w.len()]);
                } else {
                    assert(d[i] == 48u8);
                }
            }
        }
        lemma_prefix_value(d, d.len() as int);
    }
}

fn digits_to_units(d: &Vec<u8>) -> (r: Option<i64>)
    requires
        all_digits(d@),
    ensures
        match r {
            Some(v) => digits_value(d@) == v && v >= 0,
            None => digits_value(d@) > i64::MAX,
        },
{
    let mut acc: i64 = 0;
    let mut i: usize = 0;
    while i < d.len()
        invariant
            i <= d.len(),
            all_digits(d@),
            acc == digits_value(d@.take(i as int)),
            acc >= 0,
        decreases d.len() - i,
    {
        assert(is_digit(d@[i as int]));
        let digit: i64 = (d[i] - 48) as i64;
        proof {
            assert(d@.take(i as int + 1).drop_last() =~= d@.take(i as int));
        }
        if acc > (i64::MAX - digit) / 10 {
            proof {
                lemma_prefix_value(d@, i as int + 1);
            }
            return None;
        }
        acc = acc * 10 + digit;
        i += 1;
    }
    proof {
        assert(d@.take(d.len() as int) =~= d@);
    }
    Some(acc)
}

fn parse_magnitude(bytes: &[u8], start: usize) -> (r: Option<i64>)
    requires
        start <= bytes@.len(),
    ensures
        match r {
            Some(v) => magnitude(bytes@.skip(start as int)) == Some(v as int) && v >= 0,
            None => magnitude(bytes@.skip(start as int)) is None,
        },
{
    let ghost t = bytes@.skip(start as int);
    let n: usize = bytes.len();
    let mut point: usize = start;
    while point < n && bytes[point] != 46
        invariant
            start <= point <= n,
            n == bytes@.len(),
            t == bytes@.skip(start as int),
            forall|k: int| 0 <= k < point - start ==> #[trigger] t[k] != 46,
        decreases n - point,
    {
        point += 1;
    }
    proof {
        assert(point_is_at(t, point - start));
        assert(point_index(t) == point - start);
    }
    let ghost whole = whole_part(t);
    let ghost fraction = fraction_part(t);
    let fraction_len: usize = if point < n { n - point - 1 } else { 0 };
    if fraction_len > FRACTION_DIGITS || (point - start) + fraction_len == 0 {
        return None;
    }
    let mut digits: Vec<u8> = Vec::new();
    let mut i: usize = start;
    while i < point
        invariant
            start <= i <= point <= n,
            n == bytes@.len(),
            t == bytes@.skip(start as int),
            whole == whole_part(t),
            whole == t.take(point - start),
            digits@ == whole.take(i - start),
            all_digits(digits@),
        decreases point - i,
    {
        let b: u8 = bytes[i];
        if b < 48 || b > 57 {
            proof {
                assert(whole[i - start] == b);
            }
            return None;
        }
        proof {
            assert(whole.take(i - start).push(b) =~= whole.take(i + 1 - start));
        }
        digits.push(b);
        i += 1;
    }
    proof {
        assert(whole.take(point - start) =~= whole);
    }
    let mut j: usize = 0;
    while j < fraction_len
        invariant
            start <= point,
            j <= fraction_len,
            fraction_len > 0 ==> point + 1 + fraction_len == n,
            n == bytes@.len(),
            t == bytes@.skip(start as int),
            fraction == fraction_part(t),
            point_index(t) == point - start,
            fraction.len() == fraction_len,
            digits@ == whole + fraction.take(j as int),
            all_digits(digits@),
        decreases fraction_len - j,
    {
        let b: u8 = bytes[point + 1 + j];
        proof {
            assert(fraction[j as int] == b);
        }
        if b < 48 || b > 57 {
            return None;
        }
        proof {
            assert((whole + fraction.take(j as int)).push(b) =~= whole + fraction.take(j + 1));
        }
        digits.push(b);
        j += 1;
    }
    proof {
        assert(fraction.take(fraction_len as int) =~= fraction);
        assert(all_digits(whole)) by {
            assert forall|k: int| 0 <= k < whole.len() implies is_digit(#[trigger] whole[k]) by {
                assert(digits@[k] == whole[k]);
            }
        }
        assert(all_digits(fraction)) by {
            assert forall|k: int| 0 <= k < fraction.len() implies is_digit(
                #[trigger] fraction[k],
            ) by {
                assert(digits@[whole.len() + k] == fraction[k]);
            }
        }
    }
    let mut z: usize = 0;
    while z < FRACTION_DIGITS - fraction_len
        invariant
            fraction_len <= 8,
            z <= 8 - fraction_len,
            digits@ == whole + fraction + zeros(z as nat),
            all_digits(digits@),
        decreases 8 - fraction_len - z,
    {
        proof {
            assert((whole + fraction + zeros(z as nat)).push(48u8) =~= whole + fraction + zeros(
                (z + 1) as nat,
            ));
        }
        digits.push(48);
        z += 1;
    }
    digits_to_units(&digits)
}

/// Reads a decimal number from text. `None` where the text is no such number
/// or the number does not fit.
pub fn parse_decimal(text: &str) -> (r: Option<i64>)
    ensures
        match r {
            Some(v) => decimal_units(text.spec_bytes()) == Some(v as int),
            None => decimal_units(text.spec_bytes()) is None,
        },
{
    let bytes = text.as_bytes();
    if bytes.len() > 0 && bytes[0] == 45 {
        match parse_magnitude(bytes, 1) {
            Some(v) => Some(-v),
            None => None,
        }
    } else if bytes.len() > 0 && bytes[0] == 43 {
        parse_magnitude(bytes, 1)
    } else {
        proof {
            assert(bytes@.skip(0) =~= bytes@);
        }
        parse_magnitude(bytes, 0)
    }
}

} // verus!
