//! Fixed-point codec: decimal texts to scaled unsigned integers.
//!
//! Prices are held in cents and quantities in the smallest unit of the asset,
//! so every comparison and sum inside the book is exact. The functions here
//! read a decimal text digit by digit; no floating point is involved.

use crate::text::{chars_of, push_char};
use vstd::prelude::*;

verus! {

/// Whether `c` is one of the ten ASCII digits.
pub open spec fn is_digit(c: char) -> bool {
    '0' <= c && c <= '9'
}

/// The number a digit stands for; zero for any other character.
pub open spec fn digit_value(c: char) -> nat {
    if is_digit(c) {
        (c as int - 48) as nat
    } else {
        0
    }
}

/// Whether every character of `s` is a digit.
pub open spec fn all_digits(s: Seq<char>) -> bool {
    forall|i: int| 0 <= i < s.len() ==> is_digit(#[trigger] s[i])
}

/// The number that a sequence of digits denotes in base ten.
pub open spec fn decimal_value(s: Seq<char>) -> nat
    decreases s.len(),
{
    if s.len() == 0 {
        0
    } else {
        decimal_value(s.drop_last()) * 10 + digit_value(s.last())
    }
}

/// Ten to the power `n`.
pub open spec fn pow10(n: nat) -> nat
    decreases n,
{
    if n == 0 {
        1
    } else {
        10 * pow10((n - 1) as nat)
    }
}

/// The base-ten unsigned reading of a text: an optional leading `+`, then at
/// least one digit and nothing else, with a value that fits in 64 bits.
pub open spec fn unsigned_value(s: Seq<char>) -> Option<u64> {
    let body = if s.len() > 0 && s[0] == '+' {
        s.skip(1)
    } else {
        s
    };
    if body.len() > 0 && all_digits(body) && decimal_value(body) <= u64::MAX {
        Some(decimal_value(body) as u64)
    } else {
        None
    }
}

/// The position of the first `.` in `s`, or the length of `s` if it has none.
pub open spec fn first_dot(s: Seq<char>) -> int
    decreases s.len(),
{
    if s.len() == 0 || s[0] == '.' {
        0
    } else {
        1 + first_dot(s.skip(1))
    }
}

/// A run of `n` zeros.
pub open spec fn zeros(n: nat) -> Seq<char> {
    Seq::new(n, |i: int| '0')
}

/// A fractional part brought to exactly `decimals` characters: cut off after
/// `decimals` characters, or filled up on the right with `0`.
pub open spec fn fitted(fraction: Seq<char>, decimals: nat) -> Seq<char> {
    if fraction.len() > decimals {
        fraction.take(decimals as int)
    } else {
        fraction + zeros((decimals - fraction.len()) as nat)
    }
}

/// The value of a decimal text scaled by ten to the power `decimals`.
///
/// The text is split at its first `.`. The part before it is read as an
/// unsigned number. The part after it, if there is a `.`, must hold no further
/// `.`; it is fitted to `decimals` characters and read as an unsigned number.
/// The result is the first number times the scale plus the second, and there
/// is none when a part cannot be read or the scale or the sum exceeds 64 bits.
pub open spec fn fixed_point_value(s: Seq<char>, decimals: nat) -> Option<u64> {
    let k = first_dot(s);
    let whole = unsigned_value(s.take(k));
    let fraction: Option<u64> = if k < s.len() {
        let rest = s.skip(k + 1);
        if rest.contains('.') {
            None
        } else {
            unsigned_value(fitted(rest, decimals))
        }
    } else {
        Some(0u64)
    };
    match (whole, fraction) {
        (Some(w), Some(f)) => if pow10(decimals) <= u64::MAX && w * pow10(decimals) + f
            <= u64::MAX {
            Some((w * pow10(decimals) + f) as u64)
        } else {
            None
        },
        _ => None,
    }
}

/// A prefix of a digit sequence never denotes more than the whole.
pub proof fn lemma_prefix_value(s: Seq<char>, k: int)
    requires
        0 <= k <= s.len(),
    ensures
        decimal_value(s.take(k)) <= decimal_value(s),
    decreases s.len() - k,
{
    if k == s.len() {
        assert(s.take(k) =~= s);
    } else {
        lemma_prefix_value(s, k + 1);
        assert(s.take(k + 1).drop_last() =~= s.take(k));
    }
}

/// Powers of ten are positive and grow with the exponent.
pub proof fn lemma_pow10_grows(a: nat, b: nat)
    requires
        a <= b,
    ensures
        0 < pow10(a) <= pow10(b),
    decreases b,
{
    if b == 0 {
    } else if a == b {
        lemma_pow10_grows((a - 1) as nat, (b - 1) as nat);
    } else {
        lemma_pow10_grows(a, (b - 1) as nat);
    }
}

/// The first `.` is where a `.` stands with none before it.
pub proof fn lemma_first_dot(s: Seq<char>, k: int)
    requires
        0 <= k <= s.len(),
        forall|i: int| 0 <= i < k ==> s[i] != '.',
        k < s.len() ==> s[k] == '.',
    ensures
        first_dot(s) == k,
    decreases k,
{
    if k > 0 {
        let t = s.skip(1);
        assert forall|i: int| 0 <= i < k - 1 implies t[i] != '.' by {
            assert(t[i] == s[i + 1]);
        }
        lemma_first_dot(t, k - 1);
    }
}

/// The number that the digit `c` stands for, if it is a digit.
pub fn digit_of(c: char) -> (d: Option<u8>)
    ensures
        d is Some <==> is_digit(c),
        d matches Some(x) ==> x == digit_value(c),
{
    let n: u32 = c as u32;
    if n >= 48 && n <= 57 {
        Some((n - 48) as u8)
    } else {
        None
    }
}

/// Reads a text as a base-ten unsigned number of at most 64 bits.
pub fn parse_unsigned(text: &Vec<char>) -> (r: Option<u64>)
    ensures
        r == unsigned_value(text@),
{
    let n: usize = text.len();
    let start: usize = if n > 0 && text[0] == '+' {
        1
    } else {
        0
    };
    if start == n {
        return None;
    }
    let ghost body = if text@.len() > 0 && text@[0] == '+' {
        text@.skip(1)
    } else {
        text@
    };
    assert(body =~= text@.skip(start as int));
    let mut acc: u64 = 0;
    let mut i: usize = start;
    while i < n
        invariant
            start <= i <= n,
            n == text.len(),
            start < n,
            body == text@.skip(start as int),
            body == (if text@.len() > 0 && text@[0] == '+' {
                text@.skip(1)
            } else {
                text@
            }),
            all_digits(body.take(i - start)),
            acc == decimal_value(body.take(i - start)),
        decreases n - i,
    {
        let ghost next = body.take(i + 1 - start);
        proof {
            assert(next.drop_last() =~= body.take(i - start));
            assert(next.last() == text[i as int]);
            lemma_prefix_value(body, i + 1 - start);
        }
        let d: u64 = match digit_of(text[i]) {
            Some(d) => d as u64,
            None => {
                assert(!is_digit(body[i - start]));
                return None;
            },
        };
        let shifted: u64 = match acc.checked_mul(10) {
            Some(x) => x,
            None => {
                return None;
            },
        };
        acc = match shifted.checked_add(d) {
            Some(x) => x,
            None => {
                return None;
            },
        };
        i += 1;
        assert forall|j: int| 0 <= j < next.len() implies is_digit(#[trigger] next[j]) by {
            if j < next.len() - 1 {
                assert(next[j] == body.take(i - 1 - start)[j]);
            }
        }
    }
    assert(body.take(n - start) =~= body);
    Some(acc)
}

/// Ten to the power `decimals`, if it fits in 64 bits.
pub fn power_of_ten(decimals: u32) -> (r: Option<u64>)
    ensures
        r == (if pow10(decimals as nat) <= u64::MAX {
            Some(pow10(decimals as nat) as u64)
        } else {
            None
        }),
{
    let mut scale: u64 = 1;
    let mut i: u32 = 0;
    while i < decimals
        invariant
            i <= decimals,
            scale == pow10(i as nat),
        decreases decimals - i,
    {
        proof {
            lemma_pow10_grows((i + 1) as nat, decimals as nat);
        }
        scale = match scale.checked_mul(10) {
            Some(x) => x,
            None => {
                return None;
            },
        };
        i += 1;
    }
    Some(scale)
}

/// Parse a decimal quantity text into the smallest unit given by `decimals`:
/// with `decimals` 8, the text `0.00000001` gives 1. Digits of the fraction
/// beyond `decimals` are cut off, never rounded.
pub fn parse_quantity_smallest_unit(s: &str, decimals: u32) -> (r: Option<u64>)
    ensures
        r == fixed_point_value(s@, decimals as nat),
{
    let text = chars_of(s);
    let n: usize = text.len();
    let mut k: usize = 0;
    while k < n && text[k] != '.'
        invariant
            k <= n,
            n == text.len(),
            forall|i: int| 0 <= i < k ==> text@[i] != '.',
        decreases n - k,
    {
        k += 1;
    }
    proof {
        lemma_first_dot(text@, k as int);
    }
    let mut whole_text: Vec<char> = Vec::new();
    let mut i: usize = 0;
    while i < k
        invariant
            i <= k <= n,
            n == text.len(),
            whole_text@ == text@.take(i as int),
        decreases k - i,
    {
        whole_text.push(text[i]);
        i += 1;
        assert(whole_text@ =~= text@.take(i as int));
    }
    let whole: u64 = match parse_unsigned(&whole_text) {
        Some(w) => w,
        None => {
            return None;
        },
    };
    let scale: u64 = match power_of_ten(decimals) {
        Some(x) => x,
        None => {
            return None;
        },
    };
    let width: usize = decimals as usize;
    let fraction: u64 = if k < n {
        let ghost rest = text@.skip(k + 1);
        let mut kept: Vec<char> = Vec::new();
        let mut j: usize = k + 1;
        while j < n
            invariant
                k < j <= n,
                n == text.len(),
                width == decimals,
                rest == text@.skip(k + 1),
                text@ == s@,
                first_dot(text@) == k,
                forall|m: int| 0 <= m < j - (k + 1) ==> rest[m] != '.',
                kept@ == rest.take(if j - (k + 1) <= width { j - (k + 1) } else { width as int }),
            decreases n - j,
        {
            if text[j] == '.' {
                assert(rest[j - (k + 1)] == '.');
                assert(rest.contains('.'));
                return None;
            }
            if kept.len() < width {
                kept.push(text[j]);
            }
            j += 1;
            assert(kept@ =~= rest.take(if j - (k + 1) <= width { j - (k + 1) } else { width as int }));
        }
        let ghost base = kept@;
        assert(base =~= rest.take(if rest.len() <= width { rest.len() as int } else { width as int }));
        while kept.len() < width
            invariant
                base.len() <= kept.len(),
                kept.len() <= width || kept.len() == base.len(),
                kept@ == base + Seq::new((kept.len() - base.len()) as nat, |i: int| '0'),
            decreases width - kept.len(),
        {
            kept.push('0');
            assert(kept@ =~= base + Seq::new((kept.len() - base.len()) as nat, |i: int| '0'));
        }
        assert(kept@ =~= fitted(rest, decimals as nat)) by {
            if rest.len() > width {
                assert(kept@ =~= base);
            } else {
                assert(base =~= rest);
            }
        }
        match parse_unsigned(&kept) {
            Some(f) => f,
            None => {
                return None;
            },
        }
    } else {
        0
    };
    match whole.checked_mul(scale) {
        Some(x) => x.checked_add(fraction),
        None => None,
    }
}

/// Parse a decimal price text into cents: two decimal places, further digits
/// cut off.
pub fn parse_price_cents(s: &str) -> (r: Option<u64>)
    ensures
        r == fixed_point_value(s@, 2),
{
    parse_quantity_smallest_unit(s, 2)
}

/// The digit that stands for a number below ten.
pub open spec fn digit_char(d: nat) -> char {
    (48 + d) as char
}

/// A number written in base ten without leading zeros.
pub open spec fn decimal_text(n: nat) -> Seq<char>
    decreases n,
{
    if n < 10 {
        seq![digit_char(n)]
    } else {
        decimal_text(n / 10).push(digit_char(n % 10))
    }
}

/// An amount of cents written as a price: the whole part, a `.`, and two
/// digits.
pub open spec fn price_text(cents: nat) -> Seq<char> {
    decimal_text(cents / 100) + seq!['.'] + seq![
        digit_char((cents % 100) / 10),
        digit_char(cents % 10),
    ]
}

/// Whether `s` is a number written without sign and without leading zeros.
pub open spec fn is_plain_number(s: Seq<char>) -> bool {
    s.len() > 0 && all_digits(s) && (s.len() == 1 || s[0] != '0')
}

fn char_of_digit(d: u64) -> (c: char)
    requires
        d < 10,
    ensures
        c == digit_char(d as nat),
{
    ((d as u8) + 48) as char
}

/// Appends `n`, written in base ten, to `text`.
fn push_decimal(text: &mut String, n: u64)
    ensures
        final(text)@ == old(text)@ + decimal_text(n as nat),
    decreases n,
{
    if n >= 10 {
        push_decimal(text, n / 10);
    }
    push_char(text, char_of_digit(n % 10));
    assert(text@ =~= old(text)@ + decimal_text(n as nat));
}

/// Writes an amount of cents as a price with two decimal places, as in
/// `30123.45`.
pub fn format_price_cents(cents: u64) -> (text: String)
    ensures
        text@ == price_text(cents as nat),
{
    let mut text = String::new();
    push_decimal(&mut text, cents / 100);
    push_char(&mut text, '.');
    push_char(&mut text, char_of_digit((cents % 100) / 10));
    push_char(&mut text, char_of_digit(cents % 10));
    assert(text@ =~= price_text(cents as nat));
    text
}

/// Ten to a sum of exponents is the product of the powers.
pub proof fn lemma_pow10_adds(a: nat, b: nat)
    ensures
        pow10(a + b) == pow10(a) * pow10(b),
    decreases a,
{
    if a == 0 {
        assert(pow10(0) == 1);
        assert(a + b == b);
        assert(1 * pow10(b) == pow10(b));
    } else {
        let a1 = (a - 1) as nat;
        lemma_pow10_adds(a1, b);
        assert((a + b - 1) as nat == a1 + b);
        assert(pow10(a + b) == 10 * pow10(a1 + b));
        assert(pow10(a) == 10 * pow10(a1));
        let x = pow10(a1);
        let y = pow10(b);
        assert(10 * (x * y) == (10 * x) * y) by (nonlinear_arith);
    }
}

/// The value of two digit sequences put together: the first is shifted by
/// the length of the second.
pub proof fn lemma_value_of_concat(a: Seq<char>, b: Seq<char>)
    ensures
        decimal_value(a + b) == decimal_value(a) * pow10(b.len()) + decimal_value(b),
    decreases b.len(),
{
    if b.len() == 0 {
        assert(a + b =~= a);
        assert(pow10(0) == 1);
        assert(decimal_value(b) == 0);
        assert(decimal_value(a) * 1 == decimal_value(a));
    } else {
        let shorter = b.drop_last();
        lemma_value_of_concat(a, shorter);
        assert((a + b).drop_last() =~= a + shorter);
        assert((a + b).last() == b.last());
        assert(decimal_value(a + b) == decimal_value(a + shorter) * 10 + digit_value(b.last()));
        assert(decimal_value(b) == decimal_value(shorter) * 10 + digit_value(b.last()));
        assert(pow10(b.len()) == 10 * pow10(shorter.len()));
        let x = decimal_value(a);
        let y = pow10(shorter.len());
        let z = decimal_value(shorter);
        assert((x * y + z) * 10 == x * (10 * y) + z * 10) by (nonlinear_arith);
    }
}

/// Zeros denote zero.
pub proof fn lemma_value_of_zeros(n: nat)
    ensures
        decimal_value(zeros(n)) == 0,
    decreases n,
{
    if n > 0 {
        assert(zeros(n).drop_last() =~= zeros((n - 1) as nat));
        lemma_value_of_zeros((n - 1) as nat);
    }
}

/// A text of digits, a `.` and at most `decimals` further digits is read
/// exactly: the result over ten to the power `decimals` is the number that
/// the text denotes, as long as the scale and the result fit in 64 bits.
pub proof fn lemma_fixed_point_is_exact(whole: Seq<char>, fraction: Seq<char>, decimals: nat)
    requires
        whole.len() > 0,
        all_digits(whole),
        all_digits(fraction),
        fraction.len() <= decimals,
        decimals > 0,
        pow10(decimals) <= u64::MAX,
        decimal_value(whole) * pow10(decimals) + decimal_value(fraction) * pow10(
            (decimals - fraction.len()) as nat,
        ) <= u64::MAX,
    ensures
        fixed_point_value(whole + seq!['.'] + fraction, decimals) == Some(
            (decimal_value(whole) * pow10(decimals) + decimal_value(fraction) * pow10(
                (decimals - fraction.len()) as nat,
            )) as u64,
        ),
        (decimal_value(whole) * pow10(decimals) + decimal_value(fraction) * pow10(
            (decimals - fraction.len()) as nat,
        )) * pow10(fraction.len()) == decimal_value(whole + fraction) * pow10(decimals),
{
    let s = whole + seq!['.'] + fraction;
    let k = whole.len() as int;
    let gap = (decimals - fraction.len()) as nat;
    let w = decimal_value(whole);
    let f = decimal_value(fraction);
    assert forall|i: int| 0 <= i < k implies s[i] != '.' by {
        assert(s[i] == whole[i]);
    }
    assert(s[k] == '.');
    lemma_first_dot(s, k);
    assert(s.take(k) =~= whole);
    assert(s.skip(k + 1) =~= fraction);
    assert(!fraction.contains('.'));
    lemma_pow10_grows(0, decimals);
    lemma_pow10_grows(0, gap);
    lemma_pow10_grows(0, fraction.len());
    assert(w <= w * pow10(decimals)) by (nonlinear_arith)
        requires
            pow10(decimals) >= 1,
    ;
    assert(0 <= f * pow10(gap)) by (nonlinear_arith);
    assert(is_digit(whole[0]));
    assert(unsigned_value(whole) == Some(w as u64));
    let padded = fitted(fraction, decimals);
    assert(padded =~= fraction + zeros(gap));
    lemma_value_of_concat(fraction, zeros(gap));
    lemma_value_of_zeros(gap);
    assert forall|i: int| 0 <= i < padded.len() implies is_digit(#[trigger] padded[i]) by {
        if i < fraction.len() {
            assert(padded[i] == fraction[i]);
        }
    }
    assert(is_digit(padded[0]));
    assert(0 <= w * pow10(decimals)) by (nonlinear_arith);
    assert(unsigned_value(padded) == Some((f * pow10(gap)) as u64));
    lemma_value_of_concat(whole, fraction);
    lemma_pow10_adds(gap, fraction.len());
    assert(pow10(decimals) == pow10(gap) * pow10(fraction.len()));
    assert((w * pow10(decimals) + f * pow10(gap)) * pow10(fraction.len()) == (w * pow10(
        fraction.len(),
    ) + f) * pow10(decimals)) by (nonlinear_arith)
        requires
            pow10(decimals) == pow10(gap) * pow10(fraction.len()),
    ;
}

/// A text of digits without a `.` is read as that number of units.
pub proof fn lemma_whole_number_is_exact(whole: Seq<char>, decimals: nat)
    requires
        whole.len() > 0,
        all_digits(whole),
        pow10(decimals) <= u64::MAX,
        decimal_value(whole) * pow10(decimals) <= u64::MAX,
    ensures
        fixed_point_value(whole, decimals) == Some((decimal_value(whole) * pow10(decimals)) as u64),
{
    let k = whole.len() as int;
    lemma_first_dot(whole, k);
    assert(whole.take(k) =~= whole);
    lemma_pow10_grows(0, decimals);
    assert(decimal_value(whole) <= decimal_value(whole) * pow10(decimals)) by (nonlinear_arith)
        requires
            pow10(decimals) >= 1,
    ;
    assert(is_digit(whole[0]));
}

/// A single character denotes the value of its digit.
proof fn lemma_value_of_one(s: Seq<char>)
    requires
        s.len() == 1,
    ensures
        decimal_value(s) == digit_value(s[0]),
{
    assert(s.drop_last().len() == 0);
    assert(decimal_value(s.drop_last()) == 0);
    assert(s.last() == s[0]);
}

/// A number written without leading zeros that does not start with `0` is
/// positive.
proof fn lemma_leading_digit(s: Seq<char>)
    requires
        s.len() > 0,
        all_digits(s),
        s[0] != '0',
    ensures
        decimal_value(s) > 0,
    decreases s.len(),
{
    if s.len() == 1 {
        lemma_value_of_one(s);
        assert(is_digit(s[0]));
    } else {
        let shorter = s.drop_last();
        assert(shorter[0] == s[0]);
        assert forall|i: int| 0 <= i < shorter.len() implies is_digit(#[trigger] shorter[i]) by {
            assert(shorter[i] == s[i]);
        }
        lemma_leading_digit(shorter);
    }
}

/// Writing out the value of a plain number gives the number back.
pub proof fn lemma_text_of_value(s: Seq<char>)
    requires
        is_plain_number(s),
    ensures
        decimal_text(decimal_value(s)) == s,
    decreases s.len(),
{
    let shorter = s.drop_last();
    assert(is_digit(s.last()));
    if s.len() == 1 {
        lemma_value_of_one(s);
        assert(decimal_text(decimal_value(s)) =~= s);
    } else {
        assert(shorter[0] == s[0]);
        assert forall|i: int| 0 <= i < shorter.len() implies is_digit(#[trigger] shorter[i]) by {
            assert(shorter[i] == s[i]);
        }
        lemma_text_of_value(shorter);
        lemma_leading_digit(shorter);
        let n = decimal_value(s);
        assert(n == decimal_value(shorter) * 10 + digit_value(s.last()));
        assert(n / 10 == decimal_value(shorter));
        assert(n % 10 == digit_value(s.last()));
        assert(decimal_text(n) =~= s);
    }
}

/// A number written out is a plain number with the value of the number.
pub proof fn lemma_value_of_text(n: nat)
    ensures
        is_plain_number(decimal_text(n)),
        decimal_value(decimal_text(n)) == n,
    decreases n,
{
    let text = decimal_text(n);
    if n < 10 {
        lemma_value_of_one(text);
        assert(text[0] == digit_char(n));
        assert(is_digit(text[0]));
        assert(digit_value(text[0]) == n);
    } else {
        let shorter = decimal_text(n / 10);
        lemma_value_of_text(n / 10);
        assert(text.drop_last() =~= shorter);
        assert(is_digit(text.last()));
        assert forall|i: int| 0 <= i < text.len() implies is_digit(#[trigger] text[i]) by {
            if i < shorter.len() {
                assert(text[i] == shorter[i]);
            }
        }
        assert(text[0] == shorter[0]);
        assert(text.last() == digit_char(n % 10));
        assert(digit_value(text.last()) == n % 10);
        if shorter.len() == 1 {
            lemma_value_of_one(shorter);
        }
    }
}

/// Two digits denote ten times the first plus the second.
proof fn lemma_two_digits(s: Seq<char>)
    requires
        s.len() == 2,
        all_digits(s),
    ensures
        decimal_value(s) == digit_value(s[0]) * 10 + digit_value(s[1]),
        digit_char(digit_value(s[0])) == s[0],
        digit_char(digit_value(s[1])) == s[1],
{
    let one = s.drop_last();
    lemma_value_of_one(one);
    assert(one[0] == s[0]);
    assert(s.last() == s[1]);
    assert(is_digit(s[0]) && is_digit(s[1]));
    assert(decimal_value(s) == digit_value(s[0]) * 10 + digit_value(s[1]));
}

/// A price in cents, written out, is read back as the same number of cents.
pub proof fn lemma_price_text_is_read_back(cents: u64)
    ensures
        fixed_point_value(price_text(cents as nat), 2) == Some(cents),
{
    let whole = decimal_text(cents as nat / 100);
    let fraction = seq![digit_char((cents as nat % 100) / 10), digit_char(cents as nat % 10)];
    lemma_value_of_text(cents as nat / 100);
    assert(is_digit(fraction[0]) && is_digit(fraction[1]));
    lemma_two_digits(fraction);
    assert(digit_value(fraction[0]) == (cents as nat % 100) / 10);
    assert(digit_value(fraction[1]) == cents as nat % 10);
    assert(pow10(2) == 100 && pow10(0) == 1) by {
        reveal_with_fuel(pow10, 3);
    }
    assert(decimal_value(whole) * 100 + decimal_value(fraction) * 1 == cents);
    lemma_fixed_point_is_exact(whole, fraction, 2);
    assert(price_text(cents as nat) =~= whole + seq!['.'] + fraction);
}

/// The text of a price whose cents are given as whole part and two digits.
proof fn lemma_price_text_of_parts(whole: nat, tens: nat, ones: nat)
    requires
        tens < 10,
        ones < 10,
    ensures
        price_text(whole * 100 + tens * 10 + ones) == decimal_text(whole) + seq!['.'] + seq![
            digit_char(tens),
            digit_char(ones),
        ],
{
    let cents = whole * 100 + tens * 10 + ones;
    assert(cents / 100 == whole);
    assert(cents % 100 == tens * 10 + ones);
    assert((cents % 100) / 10 == tens);
    assert(cents % 10 == ones);
}

/// A fraction of at most two digits, filled up to two, is two digits of the
/// value that the fraction has at the scale of cents.
proof fn lemma_fraction_of_cents(fraction: Seq<char>)
    requires
        all_digits(fraction),
        fraction.len() <= 2,
    ensures
        fitted(fraction, 2).len() == 2,
        all_digits(fitted(fraction, 2)),
        decimal_value(fitted(fraction, 2)) == decimal_value(fraction) * pow10(
            (2 - fraction.len()) as nat,
        ),
{
    let gap = (2 - fraction.len()) as nat;
    let padded = fitted(fraction, 2);
    assert forall|i: int| 0 <= i < padded.len() implies is_digit(#[trigger] padded[i]) by {
        if i < fraction.len() {
            assert(padded[i] == fraction[i]);
        }
    }
    lemma_value_of_concat(fraction, zeros(gap));
    lemma_value_of_zeros(gap);
}

/// A price written as a plain number, a `.` and at most two digits is read
/// into cents that, written out again, give the text back with its fraction
/// filled up to two digits.
pub proof fn lemma_price_is_written_back(whole: Seq<char>, fraction: Seq<char>)
    requires
        is_plain_number(whole),
        all_digits(fraction),
        fraction.len() <= 2,
        decimal_value(whole) * 100 + 99 <= u64::MAX,
    ensures
        fixed_point_value(whole + seq!['.'] + fraction, 2) is Some,
        price_text(fixed_point_value(whole + seq!['.'] + fraction, 2).unwrap() as nat) == whole
            + seq!['.'] + fraction + zeros((2 - fraction.len()) as nat),
{
    let gap = (2 - fraction.len()) as nat;
    let padded = fitted(fraction, 2);
    let w = decimal_value(whole);
    let g = decimal_value(padded);
    let tens = digit_value(padded[0]);
    let ones = digit_value(padded[1]);
    assert(pow10(2) == 100) by {
        reveal_with_fuel(pow10, 3);
    }
    lemma_fraction_of_cents(fraction);
    lemma_two_digits(padded);
    assert(is_digit(padded[0]) && is_digit(padded[1]));
    assert(g == tens * 10 + ones);
    assert(digit_char(tens) == padded[0] && digit_char(ones) == padded[1]);
    lemma_fixed_point_is_exact(whole, fraction, 2);
    assert(fixed_point_value(whole + seq!['.'] + fraction, 2) == Some((w * 100 + g) as u64));
    lemma_price_text_of_parts(w, tens, ones);
    lemma_text_of_value(whole);
    assert(seq![digit_char(tens), digit_char(ones)] =~= padded);
    assert(whole + seq!['.'] + padded =~= whole + seq!['.'] + fraction + zeros(gap));
}

/// A price written as a plain number alone is read into cents that, written
/// out again, give the number followed by `.00`.
pub proof fn lemma_whole_price_is_written_back(whole: Seq<char>)
    requires
        is_plain_number(whole),
        decimal_value(whole) * 100 <= u64::MAX,
    ensures
        fixed_point_value(whole, 2) is Some,
        price_text(fixed_point_value(whole, 2).unwrap() as nat) == whole + seq!['.'] + zeros(2),
{
    assert(pow10(2) == 100) by {
        reveal_with_fuel(pow10, 3);
    }
    lemma_whole_number_is_exact(whole, 2);
    let w = decimal_value(whole);
    let cents = (w * 100) as nat;
    assert(cents / 100 == w);
    assert(cents % 100 == 0);
    lemma_text_of_value(whole);
    assert(price_text(cents) =~= whole + seq!['.'] + zeros(2));
}

} // verus!
