//! Parsing of version strings such as `26.1` or `15`.
use vstd::prelude::*;
use crate::text::{chars_of, find_sub, split_once_spec, law_split_once_round_trip, push_char};

verus! {

/// An ASCII decimal digit.
pub open spec fn is_digit(c: char) -> bool {
    '0' <= c && c <= '9'
}

/// The value of the decimal digits `d`.
pub open spec fn digits_value(d: Seq<char>) -> nat
    decreases d.len(),
{
    if d.len() == 0 {
        0
    } else {
        digits_value(d.drop_last()) * 10 + ((d.last() as u32 - '0' as u32) as nat)
    }
}

/// `s` without one leading `+`.
pub open spec fn unsigned_digits(s: Seq<char>) -> Seq<char> {
    if s.len() > 0 && s[0] == '+' {
        s.skip(1)
    } else {
        s
    }
}

/// What `u32::from_str` gives: an optional `+`, then at least one ASCII
/// digit, with a value that fits in a `u32`.
pub open spec fn parse_u32_spec(s: Seq<char>) -> Option<u32> {
    let d = unsigned_digits(s);
    if d.len() > 0 && (forall|i: int| 0 <= i < d.len() ==> is_digit(#[trigger] d[i]))
        && digits_value(d) <= u32::MAX {
        Some(digits_value(d) as u32)
    } else {
        None
    }
}

proof fn lemma_digits_prefix(d: Seq<char>, i: int)
    requires
        0 <= i < d.len(),
    ensures
        d.take(i + 1).drop_last() == d.take(i),
        d.take(i + 1).last() == d[i],
{
    assert(d.take(i + 1).drop_last() =~= d.take(i));
}

proof fn lemma_digits_monotone(d: Seq<char>, i: int)
    requires
        0 <= i <= d.len(),
        forall|k: int| 0 <= k < d.len() ==> is_digit(#[trigger] d[k]),
    ensures
        digits_value(d.take(i)) <= digits_value(d),
    decreases d.len() - i,
{
    if i < d.len() {
        lemma_digits_monotone(d, i + 1);
        lemma_digits_prefix(d, i);
        assert(digits_value(d.take(i + 1)) == digits_value(d.take(i)) * 10 + ((d[i] as u32
            - '0' as u32) as nat));
    } else {
        assert(d.take(i) == d);
    }
}

/// `u32::from_str`.
pub fn parse_u32(s: &str) -> (r: Option<u32>)
    ensures
        r == parse_u32_spec(s@),
{
    let v = chars_of(s);
    let n = v.len();
    let start: usize = if n > 0 && v[0] == '+' {
        1
    } else {
        0
    };
    let ghost d = unsigned_digits(s@);
    assert(d == v@.skip(start as int));
    if start == n {
        return None;
    }
    let mut value: u64 = 0;
    let mut i = start;
    while i < n
        invariant
            start <= i <= n,
            n == v@.len(),
            d == v@.skip(start as int),
            v@ == s@,
            d == unsigned_digits(s@),
            forall|k: int| 0 <= k < i - start ==> is_digit(#[trigger] d[k]),
            value as nat == digits_value(d.take(i - start)),
            value <= u32::MAX,
        decreases n - i,
    {
        let c = v[i];
        if !('0' <= c && c <= '9') {
            assert(d[i - start] == v@[i as int]);
            assert(!is_digit(d[i - start]));
            assert(!(forall|k: int| 0 <= k < d.len() ==> is_digit(#[trigger] d[k])));
            assert(parse_u32_spec(s@) is None);
            return None;
        }
        proof {
            lemma_digits_prefix(d, i - start);
        }
        let digit = (c as u32 - '0' as u32) as u64;
        let next = value * 10 + digit;
        if next > 0xffff_ffff {
            assert(forall|k: int| 0 <= k < i + 1 - start ==> is_digit(#[trigger] d[k]));
            proof {
                if forall|k: int| 0 <= k < d.len() ==> is_digit(#[trigger] d[k]) {
                    lemma_digits_monotone(d, i + 1 - start);
                    assert(digits_value(d.take(i + 1 - start)) == next);
                }
                assert(parse_u32_spec(s@) is None);
            }
            return None;
        }
        value = next;
        i += 1;
    }
    assert(d.take(n - start) == d);
    Some(value as u32)
}

/// The major and minor number of a version string: the first two pieces
/// between dots, or the only piece with minor `0`; `None` when a piece is
/// not a number.
pub open spec fn version_spec(v: Seq<char>) -> Option<(u32, u32)> {
    match split_once_spec(v, '.') {
        Some((first, after)) => {
            let second = match split_once_spec(after, '.') {
                Some((x, _)) => x,
                None => after,
            };
            match (parse_u32_spec(first), parse_u32_spec(second)) {
                (Some(a), Some(b)) => Some((a, b)),
                _ => None,
            }
        },
        None => match parse_u32_spec(v) {
            Some(a) => Some((a, 0)),
            None => None,
        },
    }
}

/// Parses a version string such as `26.1.2` into `(26, 1)`.
pub fn parse_version(version: &str) -> (r: Option<(u32, u32)>)
    ensures
        r == version_spec(version@),
{
    match crate::text::split_once(version, '.') {
        Some((first, after)) => {
            let second = match crate::text::split_once(after.as_str(), '.') {
                Some((x, _)) => x,
                None => after,
            };
            let major = match parse_u32(first.as_str()) {
                Some(a) => a,
                None => return None,
            };
            let minor = match parse_u32(second.as_str()) {
                Some(b) => b,
                None => return None,
            };
            Some((major, minor))
        },
        None => match parse_u32(version) {
            Some(a) => Some((a, 0)),
            None => None,
        },
    }
}

/// Whether the on-device Apple model can run: the system's major version
/// is at least 26.
pub fn apple_model_supported(version: &str) -> (r: bool)
    ensures
        r == (version_spec(version@) matches Some((major, _)) && major >= 26),
{
    match parse_version(version) {
        Some((major, _)) => major >= 26,
        None => false,
    }
}


/// The ASCII digit of `d`, for `d < 10`.
pub open spec fn digit_char(d: nat) -> char {
    if d == 0 { '0' }
    else if d == 1 { '1' }
    else if d == 2 { '2' }
    else if d == 3 { '3' }
    else if d == 4 { '4' }
    else if d == 5 { '5' }
    else if d == 6 { '6' }
    else if d == 7 { '7' }
    else if d == 8 { '8' }
    else { '9' }
}

/// How `n` prints in decimal: its digits without leading zeros, `0` for zero.
pub open spec fn decimal(n: nat) -> Seq<char>
    decreases n,
{
    if n < 10 {
        seq![digit_char(n)]
    } else {
        decimal(n / 10).push(digit_char(n % 10))
    }
}

/// How a signed number prints in decimal: a `-` before a negative one.
pub open spec fn signed_decimal(n: int) -> Seq<char> {
    if n < 0 {
        seq!['-'] + decimal((-n) as nat)
    } else {
        decimal(n as nat)
    }
}

fn digit_of(d: u32) -> (c: char)
    requires
        d < 10,
    ensures
        c == digit_char(d as nat),
{
    if d == 0 { '0' }
    else if d == 1 { '1' }
    else if d == 2 { '2' }
    else if d == 3 { '3' }
    else if d == 4 { '4' }
    else if d == 5 { '5' }
    else if d == 6 { '6' }
    else if d == 7 { '7' }
    else if d == 8 { '8' }
    else { '9' }
}

/// Prints `n` in decimal (`u32::to_string`).
pub fn decimal_u32(n: u32) -> (r: String)
    ensures
        r@ == decimal(n as nat),
    decreases n,
{
    if n < 10 {
        let mut r = String::new();
        push_char(&mut r, digit_of(n));
        assert(r@ =~= seq![digit_char(n as nat)]);
        r
    } else {
        let mut r = decimal_u32(n / 10);
        push_char(&mut r, digit_of(n % 10));
        r
    }
}

/// Prints `n` in decimal (`i32::to_string`).
pub fn decimal_i32(n: i32) -> (r: String)
    ensures
        r@ == signed_decimal(n as int),
{
    if n < 0 {
        let m: u32 = (0i64 - n as i64) as u32;
        let digits = decimal_u32(m);
        proof {
            reveal_strlit("-");
        }
        assert(m as int == -(n as int));
        crate::text::concat("-", digits.as_str())
    } else {
        decimal_u32(n as u32)
    }
}

proof fn lemma_digit_char(d: nat)
    requires
        d < 10,
    ensures
        is_digit(digit_char(d)),
        (digit_char(d) as u32 - '0' as u32) as nat == d,
{
}

/// The decimal form of a number is a non-empty run of digits with that
/// value.
proof fn lemma_decimal_digits(n: nat)
    ensures
        decimal(n).len() > 0,
        forall|k: int| 0 <= k < decimal(n).len() ==> is_digit(#[trigger] decimal(n)[k]),
        digits_value(decimal(n)) == n,
    decreases n,
{
    if n < 10 {
        lemma_digit_char(n);
        assert(decimal(n).drop_last() =~= Seq::<char>::empty());
        assert(digits_value(Seq::<char>::empty()) == 0);
        assert(digits_value(decimal(n)) == digits_value(decimal(n).drop_last()) * 10 + ((decimal(n).last() as u32 - '0' as u32) as nat));
    } else {
        lemma_decimal_digits(n / 10);
        lemma_digit_char(n % 10);
        assert(decimal(n).drop_last() == decimal(n / 10));
        assert(decimal(n).last() == digit_char(n % 10));
        assert((n / 10) * 10 + n % 10 == n);
        assert(digits_value(decimal(n)) == digits_value(decimal(n / 10)) * 10 + ((digit_char(n % 10) as u32 - '0' as u32) as nat));
        assert forall|k: int| 0 <= k < decimal(n).len() implies is_digit(#[trigger] decimal(n)[k]) by {
            if k < decimal(n).len() - 1 {
                assert(decimal(n)[k] == decimal(n / 10)[k]);
            }
        }
    }
}

proof fn lemma_no_dot_no_split(d: Seq<char>)
    requires
        !d.contains('.'),
    ensures
        split_once_spec(d, '.') is None,
{
    law_split_once_round_trip(d, '.');
    if split_once_spec(d, '.') is Some {
        let (a, b) = split_once_spec(d, '.').unwrap();
        assert((a + seq!['.'] + b)[a.len() as int] == '.');
        assert(d[a.len() as int] == '.');
    }
}

proof fn lemma_parse_decimal(n: u32)
    ensures
        parse_u32_spec(decimal(n as nat)) == Some(n),
        !decimal(n as nat).contains('.'),
        split_once_spec(decimal(n as nat), '.') is None,
{
    let d = decimal(n as nat);
    lemma_decimal_digits(n as nat);
    assert(is_digit(d[0]));
    assert(unsigned_digits(d) == d);
    if d.contains('.') {
        let j = choose|j: int| 0 <= j < d.len() && d[j] == '.';
        assert(is_digit(d[j]));
    }
    lemma_no_dot_no_split(d);
}

/// Printing two numbers joined by a dot, or one number alone, and parsing
/// the result with `parse_version` gives them back (with minor `0` for one
/// number).
pub proof fn law_version_round_trip(major: u32, minor: u32)
    ensures
        version_spec(decimal(major as nat) + seq!['.'] + decimal(minor as nat)) == Some((major, minor)),
        version_spec(decimal(major as nat)) == Some((major, 0u32)),
{
    let da = decimal(major as nat);
    let db = decimal(minor as nat);
    let s = da + seq!['.'] + db;
    lemma_parse_decimal(major);
    lemma_parse_decimal(minor);
    law_split_once_round_trip(da, '.');
    law_split_once_round_trip(db, '.');
    law_split_once_round_trip(s, '.');
    assert(s[da.len() as int] == '.');
    assert(s.contains('.'));
    let x = split_once_spec(s, '.').unwrap().0;
    let y = split_once_spec(s, '.').unwrap().1;
    assert(x + seq!['.'] + y == s);
    if x.len() < da.len() {
        assert((x + seq!['.'] + y)[x.len() as int] == '.');
        assert(s[x.len() as int] == da[x.len() as int]);
        assert(da.contains('.'));
    }
    if x.len() > da.len() {
        assert((x + seq!['.'] + y)[da.len() as int] == x[da.len() as int]);
        assert(x.contains('.'));
    }
    assert(x.len() == da.len());
    assert(x =~= da) by {
        assert forall|k: int| 0 <= k < x.len() implies x[k] == da[k] by {
            assert((x + seq!['.'] + y)[k] == x[k]);
            assert(s[k] == da[k]);
        }
    }
    assert(y =~= db) by {
        assert(y.len() == db.len());
        assert forall|k: int| 0 <= k < y.len() implies y[k] == db[k] by {
            assert((x + seq!['.'] + y)[x.len() + 1 + k] == y[k]);
            assert(s[da.len() + 1 + k] == db[k]);
        }
    }
    assert(split_once_spec(s, '.') == Some((da, db)));
}

} // verus!
