//! Fixed-point decimal numbers with eight fractional digits.

use vstd::arithmetic::div_mod::lemma_mod_breakdown;
use vstd::prelude::*;
use vstd::string::*;
use crate::text::push_char;

verus! {

/// How many fractional digits a decimal carries.
pub const FRACTION_DIGITS: usize = 8;

/// How many units make one whole: ten to the power of `FRACTION_DIGITS`.
pub const UNITS_PER_WHOLE: u64 = 100_000_000;

/// A non-negative decimal number, held as a count of units of 10^-8.
///
/// Prices and amounts are decimals. Two decimals are equal exactly when
/// their unit counts are equal.
#[derive(Clone, Copy, Debug, PartialEq, Eq, Structural, Hash)]
pub struct Decimal {
    pub units: u64,
}

/// The difference of two decimals, in the same units; it may be negative.
#[derive(Clone, Copy, Debug, PartialEq, Eq, Structural, Hash)]
pub struct SignedDecimal {
    pub units: i128,
}

impl View for Decimal {
    type V = int;

    /// The number of 10^-8 units.
    open spec fn view(&self) -> int {
        self.units as int
    }
}

impl View for SignedDecimal {
    type V = int;

    /// The number of 10^-8 units.
    open spec fn view(&self) -> int {
        self.units as int
    }
}

impl Decimal {
    /// The decimal that counts `units` units of 10^-8.
    pub fn from_units(units: u64) -> (d: Decimal)
        ensures
            d@ == units,
    {
        Decimal { units }
    }

    /// `self - other`, exactly.
    pub fn minus(self, other: Decimal) -> (d: SignedDecimal)
        ensures
            d@ == self@ - other@,
    {
        let a: i128 = self.units as i128;
        let b: i128 = other.units as i128;
        SignedDecimal { units: a - b }
    }

    /// Whether `self` is smaller than `other`.
    pub fn is_below(self, other: Decimal) -> (b: bool)
        ensures
            b == (self@ < other@),
    {
        self.units < other.units
    }

    /// Whether `self` is greater than `other`.
    pub fn is_above(self, other: Decimal) -> (b: bool)
        ensures
            b == (self@ > other@),
    {
        self.units > other.units
    }
}

/// Whether `c` is one of the digits `0` to `9`.
pub open spec fn is_digit(c: char) -> bool {
    '0' as u32 <= c as u32 <= '9' as u32
}

/// The value of the digit `c`.
pub open spec fn digit_value(c: char) -> nat {
    (c as u32 - '0' as u32) as nat
}

/// The digit whose value is `d`, for `d` below ten.
pub open spec fn digit_char(d: nat) -> char {
    (('0' as u32 + d) as u8) as char
}

/// Whether `s` holds digits only.
pub open spec fn all_digits(s: Seq<char>) -> bool {
    forall|i: int| 0 <= i < s.len() ==> is_digit(#[trigger] s[i])
}

/// The number that the digits `s` write in base ten; zero for no digits.
pub open spec fn number(s: Seq<char>) -> nat
    decreases s.len(),
{
    if s.len() == 0 {
        0
    } else {
        number(s.drop_last()) * 10 + digit_value(s.last())
    }
}

/// Ten to the power of `n`.
pub open spec fn pow10(n: nat) -> nat
    decreases n,
{
    if n == 0 {
        1
    } else {
        10 * pow10((n - 1) as nat)
    }
}

/// How many characters of `s` stand before its first point; all of them
/// where it has none.
pub open spec fn point(s: Seq<char>) -> int
    decreases s.len(),
{
    if s.len() == 0 || s[0] == '.' {
        0
    } else {
        1 + point(s.drop_first())
    }
}

/// The part of `text` before its first point.
pub open spec fn whole_part(text: Seq<char>) -> Seq<char> {
    text.take(point(text))
}

/// The part of `text` behind its first point; empty where it has none.
pub open spec fn fraction_part(text: Seq<char>) -> Seq<char> {
    if point(text) < text.len() {
        text.skip(point(text) + 1)
    } else {
        Seq::empty()
    }
}

/// `text` without the plus sign that it may begin with.
pub open spec fn unsigned_part(text: Seq<char>) -> Seq<char> {
    if text.len() > 0 && text[0] == '+' {
        text.drop_first()
    } else {
        text
    }
}

/// The digits behind the point that count: the first eight.
pub open spec fn counted(fraction: Seq<char>) -> Seq<char> {
    if fraction.len() > FRACTION_DIGITS {
        fraction.take(FRACTION_DIGITS as int)
    } else {
        fraction
    }
}

/// Whether `s` holds nothing but the digit `0` from `from` on.
pub open spec fn zeros_from(s: Seq<char>, from: int) -> bool {
    forall|i: int| from <= i < s.len() ==> #[trigger] s[i] == '0'
}

/// The units that a decimal text without a sign stands for: digits, and
/// then perhaps a point and digits. The digits before the point may be
/// missing, or those behind it, not both; behind the eighth digit that
/// follows the point only zeros may stand; the units must fit the decimal.
/// Any other text stands for nothing.
pub open spec fn unsigned_units_of(text: Seq<char>) -> Option<int> {
    let whole = whole_part(text);
    let fraction = fraction_part(text);
    let first = counted(fraction);
    if whole.len() + fraction.len() > 0 && all_digits(whole) && all_digits(first) && zeros_from(
        fraction,
        FRACTION_DIGITS as int,
    ) {
        let units = number(whole) * UNITS_PER_WHOLE + number(first) * pow10(
            (FRACTION_DIGITS - first.len()) as nat,
        );
        if units <= u64::MAX {
            Some(units as int)
        } else {
            None
        }
    } else {
        None
    }
}

/// The units that the decimal text `text` stands for: what it stands for
/// without the plus sign that it may begin with. A text with a minus sign,
/// an exponent or letters stands for nothing.
pub open spec fn units_of(text: Seq<char>) -> Option<int> {
    unsigned_units_of(unsigned_part(text))
}

/// The digits of `n` in base ten, without leading zeros; `0` for zero.
pub open spec fn digits(n: nat) -> Seq<char>
    decreases n,
{
    if n < 10 {
        seq![digit_char(n)]
    } else {
        digits(n / 10).push(digit_char(n % 10))
    }
}

/// The last `width` digits of `n` in base ten, with leading zeros.
pub open spec fn padded(n: nat, width: nat) -> Seq<char>
    decreases width,
{
    if width == 0 {
        Seq::empty()
    } else {
        padded(n / 10, (width - 1) as nat).push(digit_char(n % 10))
    }
}

/// The text of `units` units: the whole part, a point, and all eight
/// fractional digits.
pub open spec fn text_of(units: nat) -> Seq<char> {
    digits(units / (UNITS_PER_WHOLE as nat)).push('.') + padded(
        units % (UNITS_PER_WHOLE as nat),
        FRACTION_DIGITS as nat,
    )
}

/// The text of `units` units with their sign: a minus before what is
/// below zero.
pub open spec fn signed_text_of(units: int) -> Seq<char> {
    if units < 0 {
        seq!['-'] + text_of((-units) as nat)
    } else {
        text_of(units as nat)
    }
}

/// The value of `c` where it is a digit.
pub fn digit_of(c: char) -> (d: Option<u8>)
    ensures
        d is Some <==> is_digit(c),
        d matches Some(v) ==> v == digit_value(c) && v < 10,
{
    let n: u32 = c as u32;
    if 48 <= n && n <= 57 {
        Some((n - 48) as u8)
    } else {
        None
    }
}

/// The digit whose value is `d`.
pub fn digit_for(d: u8) -> (c: char)
    requires
        d < 10,
    ensures
        c == digit_char(d as nat),
        is_digit(c),
        digit_value(c) == d,
{
    (48u8 + d) as char
}

/// The count before the first point is found where the first point, or the
/// end, is found.
pub proof fn lemma_point(s: Seq<char>, i: int)
    requires
        0 <= i <= s.len(),
        forall|k: int| 0 <= k < i ==> #[trigger] s[k] != '.',
        i < s.len() ==> s[i] == '.',
    ensures
        point(s) == i,
    decreases i,
{
    if i > 0 {
        let t = s.drop_first();
        assert forall|k: int| 0 <= k < i - 1 implies #[trigger] t[k] != '.' by {
            assert(t[k] == s[k + 1]);
        }
        lemma_point(t, i - 1);
    }
}

/// Digits written behind a number give a number that is no smaller.
pub proof fn lemma_number_grows(s: Seq<char>, k: int)
    requires
        0 <= k <= s.len(),
    ensures
        number(s.take(k)) <= number(s),
    decreases s.len(),
{
    if k == s.len() {
        assert(s.take(k) =~= s);
    } else {
        lemma_number_grows(s.drop_last(), k);
        assert(s.drop_last().take(k) =~= s.take(k));
    }
}

/// The first point of a text that has one stands where the count before
/// it ends.
pub proof fn lemma_point_is_point(s: Seq<char>)
    ensures
        0 <= point(s) <= s.len(),
        point(s) < s.len() ==> s[point(s)] == '.',
        forall|k: int| 0 <= k < point(s) ==> #[trigger] s[k] != '.',
    decreases s.len(),
{
    if s.len() > 0 && s[0] != '.' {
        let t = s.drop_first();
        lemma_point_is_point(t);
        assert forall|k: int| 0 <= k < point(s) implies #[trigger] s[k] != '.' by {
            if k > 0 {
                assert(t[k - 1] == s[k]);
            }
        }
    }
}

/// The powers of ten up to the eighth.
pub proof fn lemma_pow10_values()
    ensures
        pow10(0) == 1,
        pow10(1) == 10,
        pow10(2) == 100,
        pow10(3) == 1_000,
        pow10(4) == 10_000,
        pow10(5) == 100_000,
        pow10(6) == 1_000_000,
        pow10(7) == 10_000_000,
        pow10(8) == 100_000_000,
{
    reveal_with_fuel(pow10, 9);
}

/// A higher power of ten is no smaller.
pub proof fn lemma_pow10_rises(a: nat, b: nat)
    requires
        a <= b,
    ensures
        pow10(a) <= pow10(b),
        pow10(a) > 0,
    decreases b,
{
    if a < b {
        lemma_pow10_rises(a, (b - 1) as nat);
    } else if a > 0 {
        lemma_pow10_rises((a - 1) as nat, (a - 1) as nat);
    }
}

/// The digit for a value below ten is a digit of that value.
pub proof fn lemma_digit_char(d: nat)
    requires
        d < 10,
    ensures
        is_digit(digit_char(d)),
        digit_value(digit_char(d)) == d,
        digit_char(d) != '.',
{
}

/// The digits of a number are digits, at least one, and write the number.
pub proof fn lemma_digits(n: nat)
    ensures
        digits(n).len() >= 1,
        all_digits(digits(n)),
        number(digits(n)) == n,
    decreases n,
{
    lemma_digit_char(n % 10);
    if n < 10 {
        assert(digits(n).drop_last() =~= Seq::<char>::empty());
        assert(digits(n).last() == digit_char(n));
        assert(number(digits(n).drop_last()) == 0);
    } else {
        lemma_digits(n / 10);
        assert(digits(n).drop_last() =~= digits(n / 10));
        assert(digits(n).last() == digit_char(n % 10));
        assert(number(digits(n)) == number(digits(n / 10)) * 10 + digit_value(digits(n).last()));
    }
}

/// The last `width` digits of a number are `width` digits and write what
/// the number leaves when divided by ten to the power of `width`.
pub proof fn lemma_padded(n: nat, width: nat)
    ensures
        padded(n, width).len() == width,
        all_digits(padded(n, width)),
        number(padded(n, width)) == n % pow10(width),
    decreases width,
{
    if width > 0 {
        let before = padded(n / 10, (width - 1) as nat);
        lemma_padded(n / 10, (width - 1) as nat);
        lemma_digit_char(n % 10);
        lemma_pow10_rises((width - 1) as nat, (width - 1) as nat);
        assert(padded(n, width).drop_last() =~= before);
        lemma_mod_breakdown(n as int, 10, pow10((width - 1) as nat) as int);
    }
}

/// The text of a decimal, with or without a sign, holds digits, a point
/// and perhaps a minus, and nothing else.
pub proof fn lemma_text_chars(units: nat)
    ensures
        forall|i: int|
            0 <= i < text_of(units).len() ==> is_digit(#[trigger] text_of(units)[i]) || text_of(
                units,
            )[i] == '.',
        forall|i: int|
            0 <= i < signed_text_of(-(units as int)).len() ==> is_digit(
                #[trigger] signed_text_of(-(units as int))[i],
            ) || signed_text_of(-(units as int))[i] == '.' || signed_text_of(-(units as int))[i]
                == '-',
        forall|i: int|
            0 <= i < signed_text_of(units as int).len() ==> is_digit(
                #[trigger] signed_text_of(units as int)[i],
            ) || signed_text_of(units as int)[i] == '.',
{
    let head = digits(units / (UNITS_PER_WHOLE as nat));
    let tail = padded(units % (UNITS_PER_WHOLE as nat), FRACTION_DIGITS as nat);
    let text = text_of(units);
    lemma_digits(units / (UNITS_PER_WHOLE as nat));
    lemma_padded(units % (UNITS_PER_WHOLE as nat), FRACTION_DIGITS as nat);
    assert forall|i: int| 0 <= i < text.len() implies is_digit(#[trigger] text[i]) || text[i]
        == '.' by {
        if i < head.len() {
            assert(text[i] == head[i]);
        } else if i > head.len() {
            assert(text[i] == tail[i - head.len() - 1]);
        }
    }
    let minus = signed_text_of(-(units as int));
    assert forall|i: int| 0 <= i < minus.len() implies is_digit(#[trigger] minus[i]) || minus[i]
        == '.' || minus[i] == '-' by {
        if units > 0 && i > 0 {
            assert(minus[i] == text[i - 1]);
        }
    }
}

/// The text of a decimal reads back as that decimal.
pub proof fn lemma_text_reads_back(units: nat)
    requires
        units <= u64::MAX,
    ensures
        units_of(text_of(units)) == Some(units as int),
{
    let whole = units / (UNITS_PER_WHOLE as nat);
    let part = units % (UNITS_PER_WHOLE as nat);
    let text = text_of(units);
    let head = digits(whole);
    let tail = padded(part, FRACTION_DIGITS as nat);
    lemma_digits(whole);
    lemma_padded(part, FRACTION_DIGITS as nat);
    lemma_pow10_values();
    assert forall|k: int| 0 <= k < head.len() implies #[trigger] text[k] != '.' by {
        assert(text[k] == head[k]);
        assert(is_digit(head[k]));
    }
    assert(text[head.len() as int] == '.');
    lemma_point(text, head.len() as int);
    assert(whole_part(text) =~= head);
    assert(fraction_part(text) =~= tail);
    assert(FRACTION_DIGITS == 8);
    assert(number(tail) == part % pow10(8));
    assert(number(tail) * pow10(0) == part);
}

impl Decimal {
    /// Reads a decimal text: perhaps a plus sign, then digits, and then
    /// perhaps a point and up to eight digits; the digits before the point
    /// or those behind it may be missing, not both. Returns nothing for any
    /// other text, and for a number that is too large.
    pub fn parse(text: &str) -> (d: Option<Decimal>)
        ensures
            d is Some <==> units_of(text@) is Some,
            d matches Some(v) ==> units_of(text@) == Some(v@),
    {
        let n: usize = text.unicode_len();
        if n > 0 && text.get_char(0) == '+' {
            let body = text.substring_char(1, n);
            assert(body@ =~= text@.drop_first());
            Decimal::parse_unsigned(body)
        } else {
            Decimal::parse_unsigned(text)
        }
    }

    /// Reads a decimal text without a sign.
    fn parse_unsigned(text: &str) -> (d: Option<Decimal>)
        ensures
            d is Some <==> unsigned_units_of(text@) is Some,
            d matches Some(v) ==> unsigned_units_of(text@) == Some(v@),
    {
        let n: usize = text.unicode_len();
        let mut whole: u128 = 0;
        let mut i: usize = 0;
        assert(text@.take(0) =~= Seq::<char>::empty());
        while i < n && text.get_char(i) != '.'
            invariant
                i <= n,
                n == text@.len(),
                forall|k: int| 0 <= k < i ==> is_digit(#[trigger] text@[k]),
                whole == number(text@.take(i as int)),
                whole <= u64::MAX,
            decreases n - i,
        {
            let c = text.get_char(i);
            proof {
                assert(text@.take(i + 1).drop_last() =~= text@.take(i as int));
                assert(text@.take(i + 1).last() == c);
            }
            match digit_of(c) {
                Some(v) => {
                    let next: u128 = whole * 10 + v as u128;
                    if next > u64::MAX as u128 {
                        proof {
                            let p = point(text@);
                            lemma_point_is_point(text@);
                            if p <= i {
                                assert(is_digit(text@[p]));
                            }
                            lemma_number_grows(whole_part(text@), i + 1);
                            assert(whole_part(text@).take(i + 1) =~= text@.take(i + 1));
                        }
                        return None;
                    }
                    whole = next;
                    i = i + 1;
                },
                None => {
                    proof {
                        let p = point(text@);
                        lemma_point_is_point(text@);
                        if p < i {
                            assert(is_digit(text@[p]));
                        }
                        assert(whole_part(text@)[i as int] == c);
                    }
                    return None;
                },
            }
        }
        proof {
            assert forall|k: int| 0 <= k < i implies #[trigger] text@[k] != '.' by {
                assert(is_digit(text@[k]));
            }
            lemma_point(text@, i as int);
            assert forall|k: int| 0 <= k < whole_part(text@).len() implies is_digit(
                #[trigger] whole_part(text@)[k],
            ) by {
                assert(whole_part(text@)[k] == text@[k]);
            }
        }
        let mut fraction: u64 = 0;
        let mut width: usize = 0;
        let ghost behind = fraction_part(text@);
        if i < n {
            let end: usize = if n - i - 1 > FRACTION_DIGITS {
                i + 1 + FRACTION_DIGITS
            } else {
                n
            };
            width = end - i - 1;
            let mut j: usize = i + 1;
            assert(behind.take(0) =~= Seq::<char>::empty());
            while j < end
                invariant
                    i + 1 <= j <= end <= n,
                    n == text@.len(),
                    end - i - 1 <= FRACTION_DIGITS,
                    end - i - 1 == counted(behind).len(),
                    behind == text@.skip(i + 1),
                    behind == fraction_part(text@),
                    forall|k: int| 0 <= k < j - i - 1 ==> is_digit(#[trigger] behind[k]),
                    fraction == number(behind.take(j - i - 1)),
                    fraction < pow10((j - i - 1) as nat),
                decreases end - j,
            {
                let c = text.get_char(j);
                proof {
                    assert(behind[j - i - 1] == c);
                    assert(counted(behind)[j - i - 1] == c);
                    assert(behind.take(j - i).drop_last() =~= behind.take(j - i - 1));
                    assert(behind.take(j - i).last() == c);
                    lemma_pow10_values();
                    lemma_pow10_rises((j - i - 1) as nat, FRACTION_DIGITS as nat);
                }
                match digit_of(c) {
                    Some(v) => {
                        fraction = fraction * 10 + v as u64;
                        j = j + 1;
                    },
                    None => {
                        return None;
                    },
                }
            }
            assert(behind.take(width as int) =~= counted(behind));
            assert forall|k: int| 0 <= k < counted(behind).len() implies is_digit(
                #[trigger] counted(behind)[k],
            ) by {
                assert(counted(behind)[k] == behind[k]);
            }
            let mut z: usize = end;
            while z < n
                invariant
                    end <= z <= n,
                    n == text@.len(),
                    i + 1 <= end,
                    end - i - 1 <= FRACTION_DIGITS,
                    end < n ==> end - i - 1 == FRACTION_DIGITS,
                    behind == text@.skip(i + 1),
                    behind == fraction_part(text@),
                    forall|k: int| FRACTION_DIGITS <= k < z - i - 1 ==> #[trigger] behind[k] == '0',
                decreases n - z,
            {
                if text.get_char(z) != '0' {
                    assert(behind[z - i - 1] != '0');
                    return None;
                }
                z = z + 1;
            }
        }
        if i == 0 && width == 0 {
            return None;
        }
        let mut k: usize = width;
        proof {
            lemma_pow10_values();
            assert(fraction == number(counted(behind)));
            assert(number(counted(behind)) * pow10(0) == number(counted(behind)));
        }
        while k < FRACTION_DIGITS
            invariant
                width <= k <= FRACTION_DIGITS,
                fraction == number(counted(behind)) * pow10((k - width) as nat),
                fraction < pow10(k as nat),
            decreases FRACTION_DIGITS - k,
        {
            proof {
                lemma_pow10_values();
                lemma_pow10_rises(k as nat, 7);
                assert(number(counted(behind)) * pow10((k - width) as nat) * 10 == number(
                    counted(behind),
                ) * pow10((k + 1 - width) as nat)) by (nonlinear_arith)
                    requires
                        pow10((k + 1 - width) as nat) == 10 * pow10((k - width) as nat),
                ;
            }
            fraction = fraction * 10;
            k = k + 1;
        }
        assert(fraction < UNITS_PER_WHOLE) by {
            lemma_pow10_values();
        }
        assert(whole * (UNITS_PER_WHOLE as u128) <= u64::MAX * UNITS_PER_WHOLE) by (nonlinear_arith)
            requires
                whole <= u64::MAX,
                UNITS_PER_WHOLE == 100_000_000,
        ;
        let units: u128 = whole * (UNITS_PER_WHOLE as u128) + fraction as u128;
        if units > u64::MAX as u128 {
            None
        } else {
            Some(Decimal { units: units as u64 })
        }
    }

    /// The decimal as text: the whole part, a point, and all eight
    /// fractional digits.
    pub fn to_text(self) -> (text: String)
        ensures
            text@ == text_of(self@ as nat),
    {
        let mut text = String::new();
        push_units(&mut text, self.units as u128);
        assert(Seq::<char>::empty() + text_of(self@ as nat) =~= text_of(self@ as nat));
        text
    }
}

/// Appends the digits of `n`, without leading zeros.
fn push_digits(text: &mut String, n: u128)
    ensures
        final(text)@ == old(text)@ + digits(n as nat),
    decreases n,
{
    if n >= 10 {
        push_digits(text, n / 10);
    }
    push_char(text, digit_for((n % 10) as u8));
    assert(text@ =~= old(text)@ + digits(n as nat));
}

/// Appends the last `width` digits of `n`, with leading zeros.
fn push_padded(text: &mut String, n: u128, width: usize)
    ensures
        final(text)@ == old(text)@ + padded(n as nat, width as nat),
    decreases width,
{
    if width > 0 {
        push_padded(text, n / 10, width - 1);
        push_char(text, digit_for((n % 10) as u8));
    }
    assert(text@ =~= old(text)@ + padded(n as nat, width as nat));
}

/// Appends the text of `units` units.
fn push_units(text: &mut String, units: u128)
    ensures
        final(text)@ == old(text)@ + text_of(units as nat),
{
    push_digits(text, units / (UNITS_PER_WHOLE as u128));
    push_char(text, '.');
    push_padded(text, units % (UNITS_PER_WHOLE as u128), FRACTION_DIGITS);
    assert(text@ =~= old(text)@ + text_of(units as nat));
}

impl SignedDecimal {
    /// The value as text: a minus where it is below zero, the whole part,
    /// a point, and all eight fractional digits.
    pub fn to_text(self) -> (text: String)
        ensures
            text@ == signed_text_of(self@),
    {
        let mut text = String::new();
        if self.units < 0 {
            push_char(&mut text, '-');
            let size: u128 = if self.units == i128::MIN {
                (i128::MAX as u128) + 1
            } else {
                (-self.units) as u128
            };
            push_units(&mut text, size);
        } else {
            push_units(&mut text, self.units as u128);
            assert(Seq::<char>::empty() + text_of(self@ as nat) =~= text_of(self@ as nat));
        }
        text
    }

    /// Whether the value is below zero.
    pub fn is_negative(self) -> (b: bool)
        ensures
            b == (self@ < 0),
    {
        self.units < 0
    }
}

} // verus!
