use vstd::prelude::*;

use crate::error::{result_model, ErrorModel, TransactionError};
use crate::text::{
    ascii_bytes, digit_char, int_text, is_white_space, nat_text, trim_end_white_space,
    trim_start_white_space, push_char, push_int, str_from_utf8, str_trim, trim_white_space,
};

verus! {

/// Whether an integer fits in an `i64`.
pub open spec fn fits_i64(v: int) -> bool {
    i64::MIN <= v <= i64::MAX
}

/// Whether a byte is an ASCII decimal digit.
pub open spec fn is_digit(b: u8) -> bool {
    48 <= b <= 57
}

/// Whether every byte is an ASCII decimal digit.
pub open spec fn all_digits(s: Seq<u8>) -> bool {
    forall|i: int| 0 <= i < s.len() ==> is_digit(#[trigger] s[i])
}

/// The number that a sequence of decimal digits denotes.
pub open spec fn digits_value(s: Seq<u8>) -> nat
    decreases s.len(),
{
    if s.len() == 0 {
        0
    } else {
        digits_value(s.drop_last()) * 10 + (s.last() - 48) as nat
    }
}

/// The value of a non-empty run of decimal digits, when it fits in an `i64`.
pub open spec fn numeric_value(s: Seq<u8>) -> Option<int> {
    if s.len() > 0 && all_digits(s) && digits_value(s) <= i64::MAX {
        Some(digits_value(s) as int)
    } else {
        None
    }
}

/// The position of the first `.` in a byte sequence.
pub open spec fn first_dot(t: Seq<u8>) -> Option<nat>
    decreases t.len(),
{
    if t.len() == 0 {
        None
    } else if t[0] == 46 {
        Some(0)
    } else {
        match first_dot(t.drop_first()) {
            Some(k) => Some(k + 1),
            None => None,
        }
    }
}

/// The part before the first `.`, or the whole text when there is none.
pub open spec fn integer_part(t: Seq<u8>) -> Seq<u8> {
    match first_dot(t) {
        Some(k) => t.take(k as int),
        None => t,
    }
}

/// The part after the first `.`, or nothing when there is none.
pub open spec fn fraction_part(t: Seq<u8>) -> Seq<u8> {
    match first_dot(t) {
        Some(k) => t.skip(k + 1int),
        None => seq![],
    }
}

/// The factor that turns a fraction of `len` digits into ten-thousandths.
pub open spec fn fraction_scale(len: nat) -> int {
    if len == 0 {
        10000
    } else if len == 1 {
        1000
    } else if len == 2 {
        100
    } else if len == 3 {
        10
    } else {
        1
    }
}

/// The value, in ten-thousandths, of a decimal text: digits, then optionally a
/// `.` and at most four digits; `None` when the text is not of that form or the
/// value does not fit in an `i64`.
pub open spec fn decimal_value(t: Seq<u8>) -> Option<int> {
    let ip = integer_part(t);
    let fp = fraction_part(t);
    if fp.len() > 4 {
        None
    } else {
        match numeric_value(ip) {
            None => None,
            Some(i) => {
                let frac: Option<int> = if fp.len() == 0 {
                    Some(0)
                } else {
                    match numeric_value(fp) {
                        None => None,
                        Some(f) => Some(f * fraction_scale(fp.len())),
                    }
                };
                match frac {
                    None => None,
                    Some(f) => if i * 10000 + f <= i64::MAX {
                        Some(i * 10000 + f)
                    } else {
                        None
                    },
                }
            },
        }
    }
}

/// What parsing a text gives: the decimal value of the text with its white
/// space trimmed, or `InvalidAmount` carrying that trimmed text.
pub open spec fn parse_model(s: Seq<char>) -> Result<Amount, ErrorModel> {
    let t = trim_white_space(s);
    match decimal_value(vstd::utf8::encode_utf8(t)) {
        Some(v) => Ok(Amount(v as i64)),
        None => Err(ErrorModel::InvalidAmount(t)),
    }
}

/// What parsing bytes gives: `InvalidAmount("invalid utf8")` for bytes that
/// are not UTF-8, else the parse of the text they encode.
pub open spec fn from_bytes_model(b: Seq<u8>) -> Result<Amount, ErrorModel> {
    if vstd::utf8::valid_utf8(b) {
        parse_model(vstd::utf8::decode_utf8(b))
    } else {
        Err(ErrorModel::InvalidAmount("invalid utf8"@))
    }
}

proof fn lemma_digits_value_prefix(s: Seq<u8>, j: int, k: int)
    requires
        0 <= j <= k <= s.len(),
        all_digits(s),
    ensures
        digits_value(s.take(j)) <= digits_value(s.take(k)),
    decreases k - j,
{
    if j < k {
        lemma_digits_value_prefix(s, j, k - 1);
        assert(s.take(k).drop_last() =~= s.take(k - 1));
    }
}

/// Ten to the power `n`.
pub open spec fn pow10(n: nat) -> nat
    decreases n,
{
    if n == 0 {
        1
    } else {
        10 * pow10((n - 1) as nat)
    }
}

proof fn lemma_digits_value_bound(s: Seq<u8>)
    requires
        all_digits(s),
    ensures
        digits_value(s) < pow10(s.len()),
    decreases s.len(),
{
    if s.len() > 0 {
        let p = s.drop_last();
        assert(all_digits(p)) by {
            assert forall|i: int| 0 <= i < p.len() implies is_digit(#[trigger] p[i]) by {
                assert(p[i] == s[i]);
            }
        }
        assert(is_digit(s[s.len() - 1]));
        lemma_digits_value_bound(p);
    }
}

/// Parses numeric byte slice into i64, rejecting non-digit characters.
pub(crate) fn parse_numeric_bytes(byte_numbers: &[u8]) -> (r: Option<i64>)
    ensures
        match r {
            Some(v) => numeric_value(byte_numbers@) == Some(v as int),
            None => numeric_value(byte_numbers@) is None,
        },
{
    if byte_numbers.len() == 0 {
        return None;
    }
    let ghost s = byte_numbers@;
    let mut accumulated: i64 = 0;
    let mut i: usize = 0;
    while i < byte_numbers.len()
        invariant
            s == byte_numbers@,
            0 <= i <= s.len(),
            s.len() > 0,
            all_digits(s.take(i as int)),
            accumulated == digits_value(s.take(i as int)),
        decreases s.len() - i,
    {
        let byte = byte_numbers[i];
        let digit = byte.wrapping_sub(48u8);
        if digit > 9 {
            assert(!is_digit(s[i as int]));
            return None;
        }
        assert(s.take(i + 1).drop_last() =~= s.take(i as int));
        assert(all_digits(s.take(i + 1))) by {
            assert forall|j: int| 0 <= j < i + 1 implies is_digit(#[trigger] s.take(i + 1)[j]) by {
                if j < i {
                    assert(s.take(i + 1)[j] == s.take(i as int)[j]);
                }
            }
        }
        let ghost next = digits_value(s.take(i + 1));
        assert(next == accumulated * 10 + digit);
        let m = accumulated.checked_mul(10);
        if m.is_none() {
            proof {
                if all_digits(s) {
                    lemma_digits_value_prefix(s, i + 1, s.len() as int);
                    assert(s.take(s.len() as int) =~= s);
                }
            }
            return None;
        }
        let a = m.unwrap().checked_add(digit as i64);
        if a.is_none() {
            proof {
                if all_digits(s) {
                    lemma_digits_value_prefix(s, i + 1, s.len() as int);
                    assert(s.take(s.len() as int) =~= s);
                }
            }
            return None;
        }
        accumulated = a.unwrap();
        i += 1;
    }
    assert(s.take(s.len() as int) =~= s);
    Some(accumulated)
}

proof fn lemma_first_dot_at(t: Seq<u8>, i: int)
    requires
        0 <= i < t.len(),
        t[i] == 46,
        forall|j: int| 0 <= j < i ==> t[j] != 46,
    ensures
        first_dot(t) == Some(i as nat),
    decreases i,
{
    if i > 0 {
        lemma_first_dot_at(t.drop_first(), i - 1);
    }
}

proof fn lemma_first_dot_none(t: Seq<u8>)
    requires
        forall|j: int| 0 <= j < t.len() ==> t[j] != 46,
    ensures
        first_dot(t) is None,
    decreases t.len(),
{
    if t.len() > 0 {
        lemma_first_dot_none(t.drop_first());
    }
}

/// Parses a decimal text given as bytes into ten-thousandths.
fn parse_decimal(b: &[u8]) -> (r: Option<i64>)
    ensures
        match r {
            Some(v) => decimal_value(b@) == Some(v as int),
            None => decimal_value(b@) is None,
        },
{
    let mut k: usize = 0;
    while k < b.len() && b[k] != 46u8
        invariant
            0 <= k <= b.len(),
            forall|j: int| 0 <= j < k ==> b@[j] != 46,
        decreases b.len() - k,
    {
        k += 1;
    }
    let integer_bytes: &[u8];
    let fraction_bytes: &[u8];
    if k < b.len() {
        proof {
            lemma_first_dot_at(b@, k as int);
        }
        integer_bytes = &b[0..k];
        fraction_bytes = &b[k + 1..b.len()];
    } else {
        proof {
            lemma_first_dot_none(b@);
        }
        integer_bytes = b;
        fraction_bytes = &b[b.len()..b.len()];
    }
    assert(integer_bytes@ =~= integer_part(b@));
    assert(fraction_bytes@ =~= fraction_part(b@));
    if fraction_bytes.len() > 4 {
        return None;
    }
    let integer = match parse_numeric_bytes(integer_bytes) {
        Some(v) => v,
        None => return None,
    };
    let fraction: i64 = if fraction_bytes.len() == 0 {
        0
    } else {
        let digits = match parse_numeric_bytes(fraction_bytes) {
            Some(v) => v,
            None => return None,
        };
        proof {
            lemma_digits_value_bound(fraction_bytes@);
            assert(pow10(4) == 10000) by {
                reveal_with_fuel(pow10, 5);
            }
            assert(pow10(3) == 1000) by {
                reveal_with_fuel(pow10, 4);
            }
            assert(pow10(2) == 100) by {
                reveal_with_fuel(pow10, 3);
            }
            assert(pow10(1) == 10) by {
                reveal_with_fuel(pow10, 2);
            }
        }
        let len = fraction_bytes.len();
        if len == 1 {
            digits * 1000
        } else if len == 2 {
            digits * 100
        } else if len == 3 {
            digits * 10
        } else {
            digits
        }
    };
    match integer.checked_mul(10000) {
        None => None,
        Some(scaled) => match scaled.checked_add(fraction) {
            None => None,
            Some(v) => Some(v),
        },
    }
}

/// Four decimal digits, with leading zeros, of a number below 10000.
pub open spec fn four_digits(r: int) -> Seq<char> {
    seq![
        digit_char(r / 1000),
        digit_char((r / 100) % 10),
        digit_char((r / 10) % 10),
        digit_char(r % 10),
    ]
}

/// The text of an amount of `v` ten-thousandths: the quotient of `v` by
/// 10000 rounded toward zero, a `.`, and the four digits of the magnitude of
/// the remainder. (A negative amount above -1 loses its sign.)
pub open spec fn amount_text(v: int) -> Seq<char> {
    let q = if v >= 0 {
        v / 10000
    } else {
        -((-v) / 10000)
    };
    let r = if v >= 0 {
        v % 10000
    } else {
        (-v) % 10000
    };
    int_text(q) + seq!['.'] + four_digits(r)
}

/// The character of a decimal digit.
fn digit(d: i128) -> (c: char)
    requires
        0 <= d <= 9,
    ensures
        c == digit_char(d as int),
{
    if d == 0 {
        '0'
    } else if d == 1 {
        '1'
    } else if d == 2 {
        '2'
    } else if d == 3 {
        '3'
    } else if d == 4 {
        '4'
    } else if d == 5 {
        '5'
    } else if d == 6 {
        '6'
    } else if d == 7 {
        '7'
    } else if d == 8 {
        '8'
    } else {
        '9'
    }
}

proof fn lemma_digit_char(d: int)
    requires
        0 <= d <= 9,
    ensures
        digit_char(d) as u8 == d + 48,
        (digit_char(d) as u32) == d + 48,
        !is_white_space(digit_char(d)),
{
}

proof fn lemma_digits_value_push(x: Seq<u8>, b: u8)
    ensures
        digits_value(x.push(b)) == digits_value(x) * 10 + (b - 48) as nat,
{
    assert(x.push(b).drop_last() =~= x);
}

/// The decimal text of a number is a non-empty run of digits, and reads back
/// as the number.
proof fn lemma_nat_text(n: nat)
    ensures
        nat_text(n).len() >= 1,
        forall|i: int|
            0 <= i < nat_text(n).len() ==> 48 <= (#[trigger] nat_text(n)[i] as u32) <= 57,
        digits_value(ascii_bytes(nat_text(n))) == n,
    decreases n,
{
    if n < 10 {
        lemma_digit_char(n as int);
        assert(ascii_bytes(nat_text(n)) =~= seq![(n + 48) as u8]);
        lemma_digits_value_push(seq![], (n + 48) as u8);
        assert(seq![(n + 48) as u8] =~= Seq::<u8>::empty().push((n + 48) as u8));
    } else {
        lemma_nat_text(n / 10);
        let d = (n % 10) as int;
        lemma_digit_char(d);
        let prefix = nat_text(n / 10);
        assert(ascii_bytes(nat_text(n)) =~= ascii_bytes(prefix).push((d + 48) as u8));
        lemma_digits_value_push(ascii_bytes(prefix), (d + 48) as u8);
    }
}

proof fn lemma_ascii_char(c: char)
    requires
        (c as u32) <= 127,
    ensures
        '\0' <= c <= '\u{7f}',
{
}

proof fn lemma_trim_unchanged(s: Seq<char>)
    requires
        s.len() > 0,
        !is_white_space(s[0]),
        !is_white_space(s.last()),
    ensures
        trim_white_space(s) == s,
{
    assert(trim_start_white_space(s) == s);
    assert(trim_end_white_space(s) == s);
}

proof fn lemma_no_dot_in_digits(ip: Seq<u8>)
    requires
        all_digits(ip),
    ensures
        forall|j: int| 0 <= j < ip.len() ==> ip[j] != 46,
{
    assert forall|j: int| 0 <= j < ip.len() implies ip[j] != 46 by {
        assert(is_digit(ip[j]));
    }
}

proof fn lemma_pow10_small()
    ensures
        pow10(0) == 1,
        pow10(1) == 10,
        pow10(2) == 100,
        pow10(3) == 1000,
        pow10(4) == 10000,
{
    reveal_with_fuel(pow10, 5);
}

/// Law: a text of digits `I`, a `.`, and at most four digits `F` is worth
/// `I * 10000 + F * 10^(4 - len(F))` ten-thousandths, when that fits in an
/// `i64`, and is refused otherwise.
pub proof fn lemma_decimal_value_of_parts(ip: Seq<u8>, fp: Seq<u8>)
    requires
        ip.len() > 0,
        all_digits(ip),
        all_digits(fp),
        fp.len() <= 4,
    ensures
        decimal_value(ip + seq![46u8] + fp) == (if digits_value(ip) * 10000 + digits_value(fp)
            * pow10((4 - fp.len()) as nat) <= i64::MAX {
            Some((digits_value(ip) * 10000 + digits_value(fp) * pow10((4 - fp.len()) as nat)) as int)
        } else {
            None::<int>
        }),
{
    let t = ip + seq![46u8] + fp;
    lemma_no_dot_in_digits(ip);
    assert forall|j: int| 0 <= j < ip.len() implies t[j] != 46 by {
        assert(t[j] == ip[j]);
    }
    lemma_first_dot_at(t, ip.len() as int);
    assert(integer_part(t) =~= ip);
    assert(fraction_part(t) =~= fp);
    lemma_pow10_small();
    lemma_digits_value_bound(fp);
    let k = (4 - fp.len()) as nat;
    let d = digits_value(fp) as int;
    let i = digits_value(ip) as int;
    let v = i * 10000 + d * pow10(k);
    assert(d >= 0 && pow10(k) >= 1);
    assert(d * pow10(k) >= 0) by (nonlinear_arith)
        requires
            d >= 0,
            pow10(k) >= 1,
    ;
    if fp.len() == 0 {
        assert(d == 0);
        assert(d * pow10(k) == 0) by (nonlinear_arith)
            requires
                d == 0,
        ;
    } else {
        assert(fraction_scale(fp.len()) == pow10(k));
        assert(numeric_value(fp) == Some(d));
        assert(d * fraction_scale(fp.len()) == d * pow10(k));
    }
    if i > i64::MAX {
        assert(numeric_value(ip) is None);
    } else {
        assert(numeric_value(ip) == Some(i));
    }
}

/// Law: a text of digits alone is worth that many whole units.
pub proof fn lemma_decimal_value_of_integer(ip: Seq<u8>)
    requires
        ip.len() > 0,
        all_digits(ip),
    ensures
        decimal_value(ip) == (if digits_value(ip) * 10000 <= i64::MAX {
            Some((digits_value(ip) * 10000) as int)
        } else {
            None::<int>
        }),
{
    lemma_no_dot_in_digits(ip);
    lemma_first_dot_none(ip);
}

/// Law: a zero appended to a fraction of fewer than four digits does not
/// change the value of the text; nor does a `.0` appended to a whole number.
pub proof fn lemma_trailing_zero_keeps_value(ip: Seq<u8>, fp: Seq<u8>)
    requires
        ip.len() > 0,
        all_digits(ip),
        all_digits(fp),
        fp.len() < 4,
    ensures
        decimal_value(ip + seq![46u8] + fp) == decimal_value(ip + seq![46u8] + fp.push(48)),
        decimal_value(ip) == decimal_value(ip + seq![46u8] + seq![48u8]),
{
    let fz = fp.push(48);
    assert(all_digits(fz)) by {
        assert forall|i: int| 0 <= i < fz.len() implies is_digit(#[trigger] fz[i]) by {
            if i < fp.len() {
                assert(fz[i] == fp[i]);
            }
        }
    }
    lemma_decimal_value_of_parts(ip, fp);
    lemma_decimal_value_of_parts(ip, fz);
    lemma_digits_value_push(fp, 48);
    lemma_pow10_small();
    let k = (4 - fz.len()) as nat;
    assert(pow10((4 - fp.len()) as nat) == 10 * pow10(k));
    let d = digits_value(fp) as int;
    let p = pow10(k) as int;
    assert((d * 10) * p == d * (10 * p)) by (nonlinear_arith);
    lemma_decimal_value_of_integer(ip);
    let z = seq![48u8];
    assert(all_digits(z));
    lemma_decimal_value_of_parts(ip, z);
    lemma_digits_value_push(Seq::<u8>::empty(), 48);
    assert(z =~= Seq::<u8>::empty().push(48));
    let dz = digits_value(z) as int;
    assert(dz == 0);
    assert(dz * pow10(3) == 0) by (nonlinear_arith)
        requires
            dz == 0,
    ;
}

/// Law: on bytes that are valid UTF-8, parsing the bytes gives what parsing
/// the text they encode gives.
pub proof fn lemma_from_bytes_agrees_with_parse(b: Seq<u8>)
    requires
        vstd::utf8::valid_utf8(b),
    ensures
        from_bytes_model(b) == parse_model(vstd::utf8::decode_utf8(b)),
{
}

/// Law: the text of a non-negative amount parses back to the same amount.
pub proof fn lemma_text_parses_back(a: Amount)
    requires
        a.0 >= 0,
    ensures
        parse_model(amount_text(a.0 as int)) == Ok::<Amount, ErrorModel>(a),
{
    let v = a.0 as int;
    let q = v / 10000;
    let r = v % 10000;
    let it = nat_text(q as nat);
    let fd = four_digits(r);
    let text = amount_text(v);
    assert(text == it + seq!['.'] + fd);
    lemma_nat_text(q as nat);
    lemma_digit_char(r / 1000);
    lemma_digit_char((r / 100) % 10);
    lemma_digit_char((r / 10) % 10);
    lemma_digit_char(r % 10);
    let l = it.len() as int;
    assert(text.len() == l + 5);
    assert forall|i: int| 0 <= i < text.len() implies ('\0' <= #[trigger] text[i] <= '\u{7f}') by {
        if i < l {
            assert(text[i] == it[i]);
            assert(48 <= (it[i] as u32) <= 57);
        } else if i > l {
            assert(text[i] == fd[i - l - 1]);
            assert(48 <= (fd[i - l - 1] as u32) <= 57);
        } else {
            assert(text[i] == '.');
        }
        lemma_ascii_char(text[i]);
    }
    assert(!is_white_space(text[0])) by {
        assert(text[0] == it[0]);
    }
    assert(!is_white_space(text.last())) by {
        assert(text.last() == fd[3]);
    }
    lemma_trim_unchanged(text);
    vstd::utf8::is_ascii_chars_encode_utf8(text);
    let bytes = vstd::utf8::encode_utf8(text);
    let ib = ascii_bytes(it);
    let fb = ascii_bytes(fd);
    assert(bytes =~= ib + seq![46u8] + fb) by {
        assert forall|i: int| 0 <= i < bytes.len() implies #[trigger] bytes[i] == (ib + seq![
            46u8,
        ] + fb)[i] by {
            assert(text[i] as u8 == bytes[i]);
            if i < l {
                assert(text[i] == it[i]);
            } else if i > l {
                assert(text[i] == fd[i - l - 1]);
            }
        }
    }
    assert forall|j: int| 0 <= j < l implies bytes[j] != 46 by {
        assert(bytes[j] == ib[j]);
        assert(48 <= (it[j] as u32) <= 57);
    }
    lemma_first_dot_at(bytes, l);
    assert(integer_part(bytes) =~= ib);
    assert(fraction_part(bytes) =~= fb);
    assert(all_digits(ib)) by {
        assert forall|i: int| 0 <= i < ib.len() implies is_digit(#[trigger] ib[i]) by {
            assert(48 <= (it[i] as u32) <= 57);
        }
    }
    assert(digits_value(ib) == q);
    assert(numeric_value(ib) == Some(q));
    let d0 = r / 1000;
    let d1 = (r / 100) % 10;
    let d2 = (r / 10) % 10;
    let d3 = r % 10;
    assert(fb =~= seq![(d0 + 48) as u8, (d1 + 48) as u8, (d2 + 48) as u8, (d3 + 48) as u8]);
    assert(all_digits(fb));
    assert(digits_value(fb) == ((d0 * 10 + d1) * 10 + d2) * 10 + d3) by {
        let e = Seq::<u8>::empty();
        lemma_digits_value_push(e, fb[0]);
        lemma_digits_value_push(e.push(fb[0]), fb[1]);
        lemma_digits_value_push(e.push(fb[0]).push(fb[1]), fb[2]);
        lemma_digits_value_push(e.push(fb[0]).push(fb[1]).push(fb[2]), fb[3]);
        assert(fb =~= e.push(fb[0]).push(fb[1]).push(fb[2]).push(fb[3]));
    }
    assert(((d0 * 10 + d1) * 10 + d2) * 10 + d3 == r) by (nonlinear_arith)
        requires
            0 <= r < 10000,
            d0 == r / 1000,
            d1 == (r / 100) % 10,
            d2 == (r / 10) % 10,
            d3 == r % 10,
    ;
    assert(q * 10000 + r == v) by (nonlinear_arith)
        requires
            q == v / 10000,
            r == v % 10000,
    ;
    assert(decimal_value(bytes) == Some(v));
}

/// A monetary amount with four decimal places, held as a count of ten-thousandths.
#[derive(Debug, Clone, Copy, PartialEq, Eq, Structural, PartialOrd, Ord)]
pub struct Amount(pub i64);

impl Amount {
    /// The amount zero.
    pub fn zero() -> (r: Amount)
        ensures
            r.0 == 0,
    {
        Amount(0)
    }

    /// Adds two amounts; `None` when the sum leaves the range of `i64`.
    pub fn checked_add(self, amount: Self) -> (r: Option<Self>)
        ensures
            match r {
                Some(s) => s.0 == self.0 + amount.0,
                None => self.0 + amount.0 > i64::MAX || self.0 + amount.0 < i64::MIN,
            },
    {
        match self.0.checked_add(amount.0) {
            Some(v) => Some(Amount(v)),
            None => None,
        }
    }

    /// Subtracts two amounts; `None` when the difference leaves the range of `i64`.
    pub fn checked_sub(self, amount: Self) -> (r: Option<Self>)
        ensures
            match r {
                Some(s) => s.0 == self.0 - amount.0,
                None => self.0 - amount.0 > i64::MAX || self.0 - amount.0 < i64::MIN,
            },
    {
        match self.0.checked_sub(amount.0) {
            Some(v) => Some(Amount(v)),
            None => None,
        }
    }

    /// Formats amount as decimal string with exactly 4 decimal places.
    pub fn to_string(&self) -> (r: String)
        ensures
            r@ == amount_text(self.0 as int),
    {
        let v = self.0 as i128;
        let magnitude: i128 = if v < 0 {
            -v
        } else {
            v
        };
        let q_abs: i128 = magnitude / 10000;
        let rem: i128 = magnitude % 10000;
        let q: i64 = if v < 0 {
            -(q_abs as i64)
        } else {
            q_abs as i64
        };
        let mut s = String::new();
        push_int(&mut s, q);
        push_char(&mut s, '.');
        push_char(&mut s, digit(rem / 1000));
        push_char(&mut s, digit((rem / 100) % 10));
        push_char(&mut s, digit((rem / 10) % 10));
        push_char(&mut s, digit(rem % 10));
        assert(s@ =~= amount_text(self.0 as int));
        s
    }

    /// Parses a decimal text with at most four decimal places, ignoring
    /// surrounding white space; `InvalidAmount` with the trimmed text otherwise.
    pub fn parse_str(s: &str) -> (r: Result<Self, TransactionError>)
        ensures
            result_model(r) == parse_model(s@),
    {
        let t = str_trim(s);
        let bytes = t.as_bytes();
        match parse_decimal(bytes) {
            Some(v) => Ok(Amount(v)),
            None => Err(TransactionError::InvalidAmount(t.to_owned())),
        }
    }

    /// Parses amount from byte slice, useful for CSV parsing.
    pub fn from_bytes(b: &[u8]) -> (r: Result<Self, TransactionError>)
        ensures
            result_model(r) == from_bytes_model(b@),
    {
        match str_from_utf8(b) {
            None => Err(TransactionError::InvalidAmount("invalid utf8".to_owned())),
            Some(s) => Amount::parse_str(s),
        }
    }
}

impl Default for Amount {
    /// The amount zero.
    fn default() -> (r: Self)
        ensures
            r.0 == 0,
    {
        Amount(0)
    }
}

impl std::str::FromStr for Amount {
    type Err = TransactionError;

    /// Parses decimal string into Amount with exactly 4 decimal places.
    fn from_str(s: &str) -> (r: Result<Self, Self::Err>)
        ensures
            result_model(r) == parse_model(s@),
    {
        Amount::parse_str(s)
    }
}

} // verus!
