//! Decimal and hexadecimal text as the database and the API store numbers:
//! unsigned and signed decimal strings, fixed-width lowercase hex.
use vstd::prelude::*;
use vstd::string::StringSliceAdditionalSpecFns;
use vstd::string::StringExecFns;

verus! {

/// The character of a digit value below 16 (lowercase for 10..15).
pub open spec fn hex_char(d: nat) -> char {
    if d < 10 { (48 + d) as char } else { (87 + d) as char }
}

/// Decimal digits of `n`, most significant first, no leading zeros.
pub open spec fn decimal(n: nat) -> Seq<char>
    decreases n,
{
    if n < 10 {
        seq![hex_char(n)]
    } else {
        decimal(n / 10) + seq![hex_char(n % 10)]
    }
}

/// Decimal text of a signed value: a `-` before the digits of its
/// magnitude where it is negative.
pub open spec fn signed_decimal(i: int) -> Seq<char> {
    if i < 0 { seq!['-'] + decimal((-i) as nat) } else { decimal(i as nat) }
}

/// The low `width` hex digits of `n`, lowercase, zero-padded.
pub open spec fn hex_fixed(n: nat, width: nat) -> Seq<char>
    decreases width,
{
    if width == 0 {
        seq![]
    } else {
        hex_fixed(n / 16, (width - 1) as nat) + seq![hex_char(n % 16)]
    }
}

/// One digit as a one-character string.
pub fn digit_str(d: u8) -> (s: &'static str)
    requires
        d < 16,
    ensures
        s@ == seq![hex_char(d as nat)],
{
    match d {
        0 => { proof { reveal_strlit("0"); } "0" },
        1 => { proof { reveal_strlit("1"); } "1" },
        2 => { proof { reveal_strlit("2"); } "2" },
        3 => { proof { reveal_strlit("3"); } "3" },
        4 => { proof { reveal_strlit("4"); } "4" },
        5 => { proof { reveal_strlit("5"); } "5" },
        6 => { proof { reveal_strlit("6"); } "6" },
        7 => { proof { reveal_strlit("7"); } "7" },
        8 => { proof { reveal_strlit("8"); } "8" },
        9 => { proof { reveal_strlit("9"); } "9" },
        10 => { proof { reveal_strlit("a"); } "a" },
        11 => { proof { reveal_strlit("b"); } "b" },
        12 => { proof { reveal_strlit("c"); } "c" },
        13 => { proof { reveal_strlit("d"); } "d" },
        14 => { proof { reveal_strlit("e"); } "e" },
        _ => { proof { reveal_strlit("f"); } "f" },
    }
}

/// Decimal text of an unsigned value.
pub fn decimal_u128(n: u128) -> (s: String)
    ensures
        s@ == decimal(n as nat),
    decreases n,
{
    if n < 10 {
        String::from_str(digit_str(n as u8))
    } else {
        let mut s = decimal_u128(n / 10);
        s.append(digit_str((n % 10) as u8));
        s
    }
}

pub fn decimal_u64(n: u64) -> (s: String)
    ensures
        s@ == decimal(n as nat),
{
    decimal_u128(n as u128)
}

pub fn decimal_i64(i: i64) -> (s: String)
    ensures
        s@ == signed_decimal(i as int),
{
    if i < 0 {
        let magnitude: u128 = (0i128 - (i as i128)) as u128;
        proof {
            reveal_strlit("-");
        }
        let mut s = String::from_str("-");
        let digits = decimal_u128(magnitude);
        s.append(digits.as_str());
        s
    } else {
        decimal_u128(i as u128)
    }
}

/// Fixed-width lowercase hex of the low `width` digits of `n`.
pub fn hex_fixed_u64(n: u64, width: u8) -> (s: String)
    ensures
        s@ == hex_fixed(n as nat, width as nat),
    decreases width,
{
    if width == 0 {
        String::new()
    } else {
        let mut s = hex_fixed_u64(n / 16, width - 1);
        s.append(digit_str((n % 16) as u8));
        s
    }
}

pub open spec fn is_digit_byte(b: u8) -> bool {
    48 <= b <= 57
}

/// Value of a run of decimal digit bytes.
pub open spec fn digits_value(bs: Seq<u8>) -> nat
    decreases bs.len(),
{
    if bs.len() == 0 {
        0
    } else {
        digits_value(bs.drop_last()) * 10 + (bs.last() - 48) as nat
    }
}

pub open spec fn all_digits(bs: Seq<u8>) -> bool {
    forall|i: int| 0 <= i < bs.len() ==> is_digit_byte(#[trigger] bs[i])
}

/// A non-empty run of decimal digits, read as a number.
pub open spec fn digit_run(bs: Seq<u8>) -> Option<nat> {
    if bs.len() > 0 && all_digits(bs) { Some(digits_value(bs)) } else { None }
}

/// Unsigned decimal text as Rust's integer parsing reads it: an optional
/// `+`, then one or more digits.
pub open spec fn unsigned_text(bs: Seq<u8>) -> Option<nat> {
    if bs.len() > 0 && bs[0] == 43 { digit_run(bs.drop_first()) } else { digit_run(bs) }
}

/// Signed decimal text: an optional `+` or `-`, then one or more digits.
pub open spec fn signed_text(bs: Seq<u8>) -> Option<int> {
    if bs.len() > 0 && bs[0] == 45 {
        match digit_run(bs.drop_first()) {
            Some(v) => Some(-(v as int)),
            None => None,
        }
    } else {
        match unsigned_text(bs) {
            Some(v) => Some(v as int),
            None => None,
        }
    }
}

/// What `str::parse::<u64>` returns for text with these bytes.
pub open spec fn parsed_u64(bs: Seq<u8>) -> Option<u64> {
    match unsigned_text(bs) {
        Some(v) => if v <= u64::MAX { Some(v as u64) } else { None },
        None => None,
    }
}

/// What `str::parse::<u128>` returns for text with these bytes.
pub open spec fn parsed_u128(bs: Seq<u8>) -> Option<u128> {
    match unsigned_text(bs) {
        Some(v) => if v <= u128::MAX { Some(v as u128) } else { None },
        None => None,
    }
}

/// What `str::parse::<i64>` returns for text with these bytes.
pub open spec fn parsed_i64(bs: Seq<u8>) -> Option<i64> {
    match signed_text(bs) {
        Some(v) => if i64::MIN <= v <= i64::MAX { Some(v as i64) } else { None },
        None => None,
    }
}

proof fn lemma_digits_prefix(bs: Seq<u8>, k: int)
    requires
        0 <= k <= bs.len(),
        all_digits(bs),
    ensures
        digits_value(bs.take(k)) <= digits_value(bs),
    decreases bs.len(),
{
    if k < bs.len() {
        assert(all_digits(bs.drop_last()));
        lemma_digits_prefix(bs.drop_last(), k);
        assert(bs.drop_last().take(k) == bs.take(k));
    } else {
        assert(bs.take(k) == bs);
    }
}

/// The digits of `bs[start..]` as a number no larger than `limit`, if they
/// are a non-empty run of digits with such a value.
fn digits_at_most(bs: &[u8], start: usize, limit: u128) -> (r: Option<u128>)
    requires
        start <= bs@.len(),
        limit >= 9,
    ensures
        r == (match digit_run(bs@.skip(start as int)) {
            Some(v) => if v <= limit { Some(v as u128) } else { None },
            None => None,
        }),
{
    let ghost rest = bs@.skip(start as int);
    if start >= bs.len() {
        return None;
    }
    let mut value: u128 = 0;
    let mut i: usize = start;
    while i < bs.len()
        invariant
            start <= i <= bs@.len(),
            rest == bs@.skip(start as int),
            all_digits(rest.take(i - start)),
            value == digits_value(rest.take(i - start)),
            value <= limit,
            limit >= 9,
        decreases bs.len() - i,
    {
        let b = bs[i];
        proof {
            assert(rest.take(i + 1 - start).drop_last() == rest.take(i - start));
            assert(rest.take(i + 1 - start).last() == b);
        }
        if b < 48 || b > 57 {
            proof {
                assert(rest[i - start] == b);
                assert(!all_digits(rest));
            }
            return None;
        }
        let d: u128 = (b - 48) as u128;
        if value > (limit - d) / 10 {
            proof {
                assert(value * 10 + d > limit) by (nonlinear_arith)
                    requires value > (limit - d) / 10, d <= limit;
                if all_digits(rest) {
                    lemma_digits_prefix(rest, i + 1 - start);
                }
            }
            return None;
        }
        proof {
            assert(value * 10 + d <= limit) by (nonlinear_arith)
                requires value <= (limit - d) / 10, d <= limit;
            assert(all_digits(rest.take(i + 1 - start)));
        }
        value = value * 10 + d;
        i += 1;
    }
    proof {
        assert(rest.take(i - start) == rest);
    }
    Some(value)
}

/// `s.parse::<u64>()`, as an `Option`.
pub fn parse_u64(s: &str) -> (r: Option<u64>)
    ensures
        r == parsed_u64(s.spec_bytes()),
{
    let bs = s.as_bytes();
    let start: usize = if bs.len() > 0 && bs[0] == 43 { 1 } else { 0 };
    proof {
        assert(bs@.skip(0) == bs@);
        assert(bs@.skip(1) == bs@.drop_first());
    }
    match digits_at_most(bs, start, u64::MAX as u128) {
        Some(v) => Some(v as u64),
        None => None,
    }
}

/// `s.parse::<u128>()`, as an `Option`.
pub fn parse_u128(s: &str) -> (r: Option<u128>)
    ensures
        r == parsed_u128(s.spec_bytes()),
{
    let bs = s.as_bytes();
    let start: usize = if bs.len() > 0 && bs[0] == 43 { 1 } else { 0 };
    proof {
        assert(bs@.skip(0) == bs@);
        assert(bs@.skip(1) == bs@.drop_first());
    }
    digits_at_most(bs, start, u128::MAX)
}

/// `s.parse::<i64>()`, as an `Option`.
pub fn parse_i64(s: &str) -> (r: Option<i64>)
    ensures
        r == parsed_i64(s.spec_bytes()),
{
    let bs = s.as_bytes();
    proof {
        assert(bs@.skip(0) == bs@);
        assert(bs@.skip(1) == bs@.drop_first());
    }
    if bs.len() > 0 && bs[0] == 45 {
        match digits_at_most(bs, 1, 0x8000_0000_0000_0000) {
            Some(v) => Some((0i128 - (v as i128)) as i64),
            None => None,
        }
    } else {
        let start: usize = if bs.len() > 0 && bs[0] == 43 { 1 } else { 0 };
        match digits_at_most(bs, start, 0x7fff_ffff_ffff_ffff) {
            Some(v) => Some(v as i64),
            None => None,
        }
    }
}


/// Reading digits left to right: no digits read as 0, and one more digit
/// multiplies what was read by ten and adds the digit's value.
pub proof fn law_digits_read_left_to_right(bs: Seq<u8>, d: u8)
    requires
        is_digit_byte(d),
    ensures
        digits_value(Seq::<u8>::empty()) == 0,
        digits_value(bs.push(d)) == digits_value(bs) * 10 + (d - 48),
{
    assert(bs.push(d).drop_last() == bs);
}


proof fn lemma_decimal_nonempty(n: nat)
    ensures
        decimal(n).len() >= 1,
        n >= 10 ==> decimal(n).len() >= 2,
    decreases n,
{
    if n >= 10 {
        lemma_decimal_nonempty(n / 10);
    }
}

/// Decimal text names one number: its last character is the units digit,
/// the rest is the text of the tens, and two numbers with the same text
/// are the same number.
pub proof fn law_decimal_names_one_number(a: nat, b: nat)
    ensures
        decimal(a).last() == hex_char(a % 10),
        a >= 10 ==> decimal(a).drop_last() == decimal(a / 10),
        decimal(a) == decimal(b) ==> a == b,
    decreases a + b,
{
    lemma_decimal_nonempty(a);
    lemma_decimal_nonempty(b);
    if a >= 10 {
        assert(decimal(a).drop_last() == decimal(a / 10));
    }
    if decimal(a) == decimal(b) {
        if a < 10 && b < 10 {
            assert(hex_char(a) == decimal(a)[0]);
            assert(hex_char(b) == decimal(b)[0]);
            assert((48 + a) as char == (48 + b) as char);
            assert(a == b);
        } else if a >= 10 && b >= 10 {
            assert(decimal(a).drop_last() == decimal(a / 10));
            assert(decimal(b).drop_last() == decimal(b / 10));
            law_decimal_names_one_number(a / 10, b / 10);
            assert(decimal(a).last() == hex_char(a % 10));
            assert(decimal(b).last() == hex_char(b % 10));
            assert((48 + a % 10) as char == (48 + b % 10) as char);
        }
    }
}


/// Fixed-width hex has exactly the width asked for: the last digit is the
/// value's low nibble, and the digits before it are the rest of the value
/// at one digit less.
pub proof fn law_hex_fixed_width(n: nat, width: nat)
    ensures
        hex_fixed(n, width).len() == width,
        width > 0 ==> hex_fixed(n, width).last() == hex_char(n % 16),
        width > 0 ==> hex_fixed(n, width).drop_last() == hex_fixed(n / 16, (width - 1) as nat),
    decreases width,
{
    if width > 0 {
        law_hex_fixed_width(n / 16, (width - 1) as nat);
        assert(hex_fixed(n, width).drop_last() == hex_fixed(n / 16, (width - 1) as nat));
    }
}


/// Digits are ASCII: `0` to `9` for values below ten, lowercase `a` to `f`
/// for ten to fifteen.
pub proof fn law_digits_are_ascii(d: nat)
    ensures
        d < 10 ==> hex_char(d) as u32 == 48 + d,
        10 <= d < 16 ==> hex_char(d) as u32 == 97 + (d - 10),
{
}

} // verus!
