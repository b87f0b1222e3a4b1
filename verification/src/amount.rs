//! Non-negative monetary amounts in units of 0.0001.
use vstd::prelude::*;

use crate::text::{
    lemma_decimal_text_leading, lemma_trim_surrounding,
    decimal_text, digit_value, digits_value, four_digits, is_digit, is_unicode_whitespace,
    lemma_ascii_byte, lemma_decimal_text, lemma_four_digits, lemma_trimmed_identity, push_units,
    trim, trimmed, units_text,
};

verus! {

/// A non-negative monetary amount, stored as an integer count of 0.0001
/// units: `1.2345` is stored as `12345`.
///
/// `Amount` is the type of all transaction values (deposits, withdrawals,
/// held funds). Negative balances are represented by `Funds`.
#[derive(Debug, Clone, Copy, PartialEq, Eq)]
pub struct Amount(u64);

impl View for Amount {
    type V = u64;

    closed spec fn view(&self) -> u64 {
        self.0
    }
}

impl Amount {
    /// The amount of `units` ten-thousandths.
    pub closed spec fn spec_raw(units: u64) -> Amount {
        Amount(units)
    }
}

/// The amount of `units` ten-thousandths has `units` units.
pub broadcast proof fn lemma_spec_raw_view(units: u64)
    ensures
        #[trigger] Amount::spec_raw(units)@ == units,
{
}

/// An amount is determined by its number of units.
pub broadcast proof fn lemma_spec_raw_of_view(a: Amount)
    ensures
        #[trigger] Amount::spec_raw(a@) == a,
{
}

pub broadcast group group_amount_lemmas {
    lemma_spec_raw_view,
    lemma_spec_raw_of_view,
}

/// Index of the first `'.'` in `s`, or `s.len()` when there is none.
pub open spec fn first_dot(s: Seq<char>) -> int
    decreases s.len(),
{
    if s.len() == 0 {
        0
    } else if s[0] == '.' {
        0
    } else {
        1 + first_dot(s.drop_first())
    }
}

pub open spec fn all_digits(s: Seq<char>) -> bool {
    forall|i: int| 0 <= i < s.len() ==> is_digit(#[trigger] s[i])
}

/// The whole part of amount text: everything before the first `'.'`.
pub open spec fn whole_part(s: Seq<char>) -> Seq<char> {
    s.take(first_dot(s))
}

/// The fraction part of amount text: everything after the first `'.'`.
pub open spec fn fraction_part(s: Seq<char>) -> Seq<char> {
    if first_dot(s) < s.len() {
        s.skip(first_dot(s) + 1)
    } else {
        Seq::empty()
    }
}

/// The number of 0.0001 units written by a fraction of at most four digits.
pub open spec fn fraction_units(f: Seq<char>) -> int {
    if f.len() == 0 {
        0
    } else if f.len() == 1 {
        digits_value(f) * 1000
    } else if f.len() == 2 {
        digits_value(f) * 100
    } else if f.len() == 3 {
        digits_value(f) * 10
    } else {
        digits_value(f)
    }
}

/// The number of 0.0001 units that already-trimmed text denotes: one or more
/// digits, optionally followed by `'.'` and at most four digits, and a value
/// that fits in `u64`. `None` for anything else.
pub open spec fn text_units(s: Seq<char>) -> Option<u64> {
    let whole = whole_part(s);
    let fraction = fraction_part(s);
    if s.len() == 0 || s[0] == '-' {
        None
    } else if whole.len() == 0 || !all_digits(whole) {
        None
    } else if fraction.len() > 4 || !all_digits(fraction) {
        None
    } else if digits_value(whole) * 10000 + fraction_units(fraction) > u64::MAX {
        None
    } else {
        Some((digits_value(whole) * 10000 + fraction_units(fraction)) as u64)
    }
}

/// What parsing `input` as an amount gives: surrounding whitespace is ignored.
pub open spec fn parse_units(input: Seq<char>) -> Option<u64> {
    text_units(trimmed(input))
}

/// The text of an amount: the whole part, `'.'`, and exactly four decimals.
pub open spec fn amount_text(units: u64) -> Seq<char> {
    units_text(units as nat)
}

proof fn lemma_first_dot(s: Seq<char>)
    ensures
        0 <= first_dot(s) <= s.len(),
        forall|j: int| 0 <= j < first_dot(s) ==> s[j] != '.',
        first_dot(s) < s.len() ==> s[first_dot(s)] == '.',
    decreases s.len(),
{
    if s.len() > 0 && s[0] != '.' {
        lemma_first_dot(s.drop_first());
        assert forall|j: int| 0 <= j < first_dot(s) implies s[j] != '.' by {
            if j > 0 {
                assert(s[j] == s.drop_first()[j - 1]);
            }
        }
        if first_dot(s) < s.len() {
            assert(s[first_dot(s)] == s.drop_first()[first_dot(s) - 1]);
        }
    }
}

proof fn lemma_first_dot_unique(s: Seq<char>, k: int)
    requires
        0 <= k <= s.len(),
        forall|j: int| 0 <= j < k ==> s[j] != '.',
        k < s.len() ==> s[k] == '.',
    ensures
        first_dot(s) == k,
    decreases s.len(),
{
    if s.len() > 0 && k > 0 {
        assert(s[0] != '.');
        assert forall|j: int| 0 <= j < k - 1 implies s.drop_first()[j] != '.' by {
            assert(s.drop_first()[j] == s[j + 1]);
        }
        if k - 1 < s.drop_first().len() {
            assert(s.drop_first()[k - 1] == s[k]);
        }
        lemma_first_dot_unique(s.drop_first(), k - 1);
    }
}

proof fn lemma_digits_value_push(s: Seq<char>, c: char)
    ensures
        digits_value(s.push(c)) == digits_value(s) * 10 + digit_value(c),
{
    assert(s.push(c).drop_last() =~= s);
}

proof fn lemma_digits_value_bound(s: Seq<char>)
    requires
        all_digits(s),
    ensures
        0 <= digits_value(s) < pow10(s.len()),
    decreases s.len(),
{
    if s.len() > 0 {
        lemma_digits_value_bound(s.drop_last());
        assert(is_digit(s[s.len() - 1]));
    }
}

pub open spec fn pow10(n: nat) -> nat
    decreases n,
{
    if n == 0 { 1 } else { 10 * pow10((n - 1) as nat) }
}

impl Amount {
    /// An amount of `value` ten-thousandths.
    pub fn raw(value: u64) -> (r: Amount)
        ensures
            r@ == value,
            r == Amount::spec_raw(value),
    {
        Amount(value)
    }

    /// The zero amount.
    pub fn zero() -> (r: Amount)
        ensures
            r@ == 0,
    {
        Amount(0)
    }

    /// The amount as a signed 128-bit count of ten-thousandths.
    pub fn as_i128(self) -> (r: i128)
        ensures
            r == self@,
    {
        self.0 as i128
    }

    /// The amount as a count of ten-thousandths.
    pub fn units(self) -> (r: u64)
        ensures
            r == self@,
    {
        self.0
    }

    /// `self + rhs`.
    pub fn plus(self, rhs: Amount) -> (r: Amount)
        requires
            self@ + rhs@ <= u64::MAX,
        ensures
            r@ == self@ + rhs@,
    {
        Amount(self.0 + rhs.0)
    }

    /// `self - rhs`.
    pub fn minus(self, rhs: Amount) -> (r: Amount)
        requires
            rhs@ <= self@,
        ensures
            r@ == self@ - rhs@,
    {
        Amount(self.0 - rhs.0)
    }

    /// Parses a decimal string into an amount, scaling by 10,000.
    ///
    /// Surrounding whitespace is ignored. Fails if the value is negative,
    /// malformed, has more than four decimal places, or does not fit.
    #[verifier::loop_isolation(false)]
    pub fn parse(input: &str) -> (r: Result<Amount, ()>)
        ensures
            match r {
                Ok(a) => parse_units(input@) == Some(a@),
                Err(_) => parse_units(input@) is None,
            },
            r == match parse_units(input@) {
                Some(units) => Ok(Amount::spec_raw(units)),
                None => Err(()),
            },
    {
        let t = trim(input);
        let ghost s = t@;
        if !t.is_ascii() {
            proof {
                // Some character is not ASCII, so it is no digit, '.' or '-'.
                let i: int = choose|i: int| 0 <= i < s.len() && !('\0' <= #[trigger] s[i] <= '\u{7f}');
                lemma_first_dot(s);
                if s.len() > 0 && s[0] != '-' {
                    if i < first_dot(s) {
                        assert(whole_part(s)[i] == s[i]);
                        assert(!is_digit(whole_part(s)[i]));
                    } else {
                        assert(i != first_dot(s));
                        assert(fraction_part(s)[i - first_dot(s) - 1] == s[i]);
                        assert(!is_digit(fraction_part(s)[i - first_dot(s) - 1]));
                    }
                }
            }
            return Err(());
        }
        let bytes = t.as_bytes();
        proof {
            vstd::utf8::is_ascii_chars_encode_utf8(s);
            vstd::utf8::is_ascii_chars_nat_bound(s);
            assert forall|j: int| 0 <= j < s.len() implies bytes@[j] as int == #[trigger] s[j] as int by {
                lemma_ascii_byte(s[j]);
            }
        }
        let n: usize = bytes.len();
        assert(n == s.len());
        if n == 0 || bytes[0] == 45u8 {
            proof {
                if n > 0 {
                    assert(bytes@[0] as int == s[0] as int);
                }
            }
            return Err(());
        }
        // Find the first '.'.
        let mut dot: usize = 0;
        while dot < n && bytes[dot] != 46u8
            invariant
                n == bytes@.len() == s.len(),
                dot <= n,
                forall|j: int| 0 <= j < s.len() ==> bytes@[j] as int == #[trigger] s[j] as int,
                vstd::utf8::is_ascii_chars(s),
                forall|j: int| 0 <= j < dot ==> s[j] != '.',
            decreases n - dot,
        {
            assert(bytes@[dot as int] != 46u8);
            assert(s[dot as int] != '.');
            dot = dot + 1;
        }
        proof {
            if dot < n {
                assert(bytes@[dot as int] == 46u8);
                assert(s[dot as int] == '.');
            }
            lemma_first_dot_unique(s, dot as int);
        }
        let ghost whole = whole_part(s);
        let ghost fraction = fraction_part(s);
        if dot == 0 {
            return Err(());
        }
        // Whole part: digits, accumulated with overflow checks.
        let mut value: u64 = 0;
        let mut i: usize = 0;
        while i < dot
            invariant
                n == bytes@.len() == s.len(),
                0 < dot <= n,
                i <= dot,
                whole == s.take(dot as int),
                forall|j: int| 0 <= j < s.len() ==> bytes@[j] as int == #[trigger] s[j] as int,
                vstd::utf8::is_ascii_chars(s),
                all_digits(whole.take(i as int)),
                value == digits_value(whole.take(i as int)),
            decreases dot - i,
        {
            let b: u8 = bytes[i];
            if b < 48u8 || b > 57u8 {
                proof {
                    assert(whole[i as int] == s[i as int]);
                    assert(!is_digit(whole[i as int]));
                }
                return Err(());
            }
            let d: u64 = (b - 48u8) as u64;
            proof {
                assert(whole[i as int] == s[i as int]);
                assert(is_digit(whole[i as int]));
                assert(d == digit_value(whole[i as int]));
                assert(whole.take(i + 1) =~= whole.take(i as int).push(whole[i as int]));
                lemma_digits_value_push(whole.take(i as int), whole[i as int]);
            }
            if value > (u64::MAX - d) / 10 {
                proof {
                    // The whole part alone already exceeds the range.
                    assert(value * 10 + d > u64::MAX) by (nonlinear_arith)
                        requires
                            value > (u64::MAX - d) / 10,
                            d <= 9,
                    ;
                    assert(digits_value(whole.take(i + 1)) > u64::MAX);
                    if all_digits(whole) {
                        lemma_digits_prefix_monotone(whole, i + 1);
                        if all_digits(fraction) {
                            lemma_digits_value_bound(fraction);
                            assert(fraction_units(fraction) >= 0);
                        }
                    }
                }
                return Err(());
            }
            value = value * 10 + d;
            i = i + 1;
        }
        assert(whole.take(dot as int) =~= whole);
        // Fraction part: at most four digits.
        let mut frac: u64 = 0;
        let mut k: usize = 0;
        let start: usize = if dot < n { dot + 1 } else { n };
        let flen: usize = n - start;
        assert(fraction =~= s.skip(start as int));
        if flen > 4 {
            return Err(());
        }
        while k < flen
            invariant
                n == bytes@.len() == s.len(),
                start <= n,
                flen == n - start,
                flen <= 4,
                k <= flen,
                fraction == s.skip(start as int),
                forall|j: int| 0 <= j < s.len() ==> bytes@[j] as int == #[trigger] s[j] as int,
                vstd::utf8::is_ascii_chars(s),
                all_digits(fraction.take(k as int)),
                frac == digits_value(fraction.take(k as int)),
                frac < pow10(k as nat),
            decreases flen - k,
        {
            let b: u8 = bytes[start + k];
            if b < 48u8 || b > 57u8 {
                proof {
                    assert(fraction[k as int] == s[start + k]);
                    assert(!is_digit(fraction[k as int]));
                }
                return Err(());
            }
            let d: u64 = (b - 48u8) as u64;
            proof {
                assert(fraction[k as int] == s[start + k]);
                assert(d == digit_value(fraction[k as int]));
                assert(fraction.take(k + 1) =~= fraction.take(k as int).push(fraction[k as int]));
                lemma_digits_value_push(fraction.take(k as int), fraction[k as int]);
                assert(pow10((k + 1) as nat) == 10 * pow10(k as nat));
                reveal_with_fuel(pow10, 5);
            }
            frac = frac * 10 + d;
            k = k + 1;
        }
        assert(fraction.take(flen as int) =~= fraction);
        assert(frac < 10000) by {
            reveal_with_fuel(pow10, 5);
        }
        let scaled: u64 = if flen == 0 {
            0
        } else if flen == 1 {
            frac * 1000
        } else if flen == 2 {
            frac * 100
        } else if flen == 3 {
            frac * 10
        } else {
            frac
        };
        assert(scaled == fraction_units(fraction));
        assert(scaled < 10000) by {
            reveal_with_fuel(pow10, 5);
        }
        if value > (u64::MAX - scaled) / 10000 {
            return Err(());
        }
        Ok(Amount(value * 10000 + scaled))
    }

    /// The amount as a decimal with exactly four decimal places.
    pub fn to_string(&self) -> (r: String)
        ensures
            r@ == amount_text(self@),
    {
        let mut out = String::new();
        push_units(&mut out, self.0 as u128);
        assert(out@ =~= amount_text(self@));
        out
    }
}

/// Parsing the text of an amount gives the amount back.
pub proof fn lemma_parse_amount_text(units: u64)
    ensures
        parse_units(amount_text(units)) == Some(units),
{
    let q: nat = (units / 10000) as nat;
    let r: nat = (units % 10000) as nat;
    let w = decimal_text(q);
    let f = four_digits(r);
    let t = amount_text(units);
    lemma_decimal_text(q);
    lemma_four_digits(r);
    assert(t =~= w + seq!['.'] + f);
    assert(t[0] == w[0]);
    assert(t.last() == f[3]);
    assert(!is_unicode_whitespace(t[0]));
    assert(!is_unicode_whitespace(t.last()));
    lemma_trimmed_identity(t);
    assert forall|j: int| 0 <= j < w.len() implies t[j] != '.' by {
        assert(t[j] == w[j]);
    }
    assert(t[w.len() as int] == '.');
    lemma_first_dot_unique(t, w.len() as int);
    assert(whole_part(t) =~= w);
    assert(fraction_part(t) =~= f);
    assert(all_digits(w));
    assert(all_digits(f));
    assert(t[0] != '-');
    assert(q * 10000 + r == units) by (nonlinear_arith)
        requires
            q == units / 10000,
            r == units % 10000,
    ;
}

impl Default for Amount {
    fn default() -> (r: Amount)
        ensures
            r@ == 0,
    {
        Amount(0)
    }
}

impl core::str::FromStr for Amount {
    type Err = ();

    fn from_str(input: &str) -> (r: Result<Amount, ()>)
        ensures
            r == match parse_units(input@) {
                Some(units) => Ok(Amount::spec_raw(units)),
                None => Err(()),
            },
    {
        Amount::parse(input)
    }
}

proof fn lemma_digits_prefix_monotone(s: Seq<char>, k: int)
    requires
        0 <= k <= s.len(),
        all_digits(s),
    ensures
        digits_value(s.take(k)) <= digits_value(s),
    decreases s.len() - k,
{
    if k < s.len() {
        lemma_digits_prefix_monotone(s, k + 1);
        lemma_digits_value_bound(s.take(k));
        assert(all_digits(s.take(k)));
        assert(s.take(k + 1) =~= s.take(k).push(s[k]));
        lemma_digits_value_push(s.take(k), s[k]);
        assert(is_digit(s[k]));
    } else {
        assert(s.take(k) =~= s);
    }
}

/// `t` is the text of the number `v` ten-thousandths: a `-` exactly when `v`
/// is negative, then a run of digits without leading zeros, `'.'` and four
/// digits, which as a decimal read `|v|`.
pub open spec fn reads_as(t: Seq<char>, v: int) -> bool {
    let negative = t.len() > 0 && t[0] == '-';
    let u = if negative { t.drop_first() } else { t };
    &&& negative == (v < 0)
    &&& u == whole_part(u) + seq!['.'] + fraction_part(u)
    &&& whole_part(u).len() > 0
    &&& all_digits(whole_part(u))
    &&& (whole_part(u).len() == 1 || whole_part(u)[0] != '0')
    &&& fraction_part(u).len() == 4
    &&& all_digits(fraction_part(u))
    &&& digits_value(whole_part(u)) * 10000 + digits_value(fraction_part(u)) == if v < 0 {
        -v
    } else {
        v
    }
}

/// The text of `n` ten-thousandths reads as `n`.
pub proof fn lemma_units_text_reads(n: nat)
    ensures
        reads_as(units_text(n), n as int),
        units_text(n)[0] != '-',
        units_text(n) == decimal_text(n / 10000) + seq!['.'] + four_digits(n % 10000),
{
    let q: nat = n / 10000;
    let r: nat = n % 10000;
    let w = decimal_text(q);
    let f = four_digits(r);
    let t = units_text(n);
    lemma_decimal_text(q);
    lemma_decimal_text_leading(q);
    lemma_four_digits(r);
    assert(t =~= w + seq!['.'] + f);
    assert(all_digits(w));
    assert(all_digits(f));
    lemma_decimal_parts(w, f);
    assert(t[0] == w[0]);
    assert(is_digit(w[0]));
    assert(q * 10000 + r == n) by (nonlinear_arith)
        requires
            q == n / 10000,
            r == n % 10000,
    ;
}

/// The text of an amount reads as the amount.
pub proof fn lemma_amount_text_reads(units: u64)
    ensures
        reads_as(amount_text(units), units as int),
{
    lemma_units_text_reads(units as nat);
}

/// The parts of text that is a run of digits, `'.'` and another run of digits.
pub proof fn lemma_decimal_parts(w: Seq<char>, f: Seq<char>)
    requires
        all_digits(w),
    ensures
        first_dot(w + seq!['.'] + f) == w.len(),
        whole_part(w + seq!['.'] + f) == w,
        fraction_part(w + seq!['.'] + f) == f,
{
    let t = w + seq!['.'] + f;
    assert forall|j: int| 0 <= j < w.len() implies t[j] != '.' by {
        assert(t[j] == w[j]);
        assert(is_digit(w[j]));
    }
    assert(t[w.len() as int] == '.');
    lemma_first_dot_unique(t, w.len() as int);
    assert(whole_part(t) =~= w);
    assert(fraction_part(t) =~= f);
}

/// Reading an amount: a run of digits `w`, then `'.'` and at most four digits
/// `f`, denotes `w` whole units and `f` as the leading decimals (so `"1.125"`
/// is 1.1250), when that fits in `u64`.
pub proof fn lemma_parse_decimal(w: Seq<char>, f: Seq<char>)
    requires
        w.len() > 0,
        all_digits(w),
        all_digits(f),
        f.len() <= 4,
    ensures
        parse_units(w + seq!['.'] + f) == (if digits_value(w) * 10000 + digits_value(f) * pow10(
            (4 - f.len()) as nat,
        ) <= u64::MAX {
            Some((digits_value(w) * 10000 + digits_value(f) * pow10((4 - f.len()) as nat)) as u64)
        } else {
            None
        }),
{
    let t = w + seq!['.'] + f;
    assert(t[0] == w[0]);
    assert(is_digit(w[0]));
    if f.len() > 0 {
        assert(t.last() == f[f.len() - 1]);
        assert(is_digit(f[f.len() - 1]));
    } else {
        assert(t.last() == '.');
    }
    lemma_trimmed_identity(t);
    lemma_decimal_parts(w, f);
    assert(t[0] != '-');
    lemma_fraction_units(f);
}

/// A fraction of at most four digits is its value scaled to four decimals.
proof fn lemma_fraction_units(f: Seq<char>)
    requires
        f.len() <= 4,
    ensures
        fraction_units(f) == digits_value(f) * pow10((4 - f.len()) as nat),
{
    reveal_with_fuel(pow10, 5);
    let k: nat = (4 - f.len()) as nat;
    let x = digits_value(f);
    let scale: int = if f.len() == 0 {
        10000
    } else if f.len() == 1 {
        1000
    } else if f.len() == 2 {
        100
    } else if f.len() == 3 {
        10
    } else {
        1
    };
    assert(pow10(k) == scale);
    if f.len() == 0 {
        assert(x == 0);
    }
    assert(x * pow10(k) == x * scale);
}

/// Only decimals read as amounts: when parsing succeeds, the trimmed text is
/// a nonempty run of digits, optionally followed by `'.'` and at most four
/// digits, and the amount is the whole digits in units plus the fraction
/// digits as the leading decimals.
pub proof fn lemma_parse_result(s: Seq<char>)
    ensures
        parse_units(s) matches Some(u) ==> {
            let t = trimmed(s);
            let w = whole_part(t);
            let f = fraction_part(t);
            &&& w.len() > 0
            &&& all_digits(w)
            &&& f.len() <= 4
            &&& all_digits(f)
            &&& (t == w || t == w + seq!['.'] + f)
            &&& u == digits_value(w) * 10000 + digits_value(f) * pow10((4 - f.len()) as nat)
        },
{
    let t = trimmed(s);
    if parse_units(s) is Some {
        lemma_first_dot(t);
        let d = first_dot(t);
        if d == t.len() {
            assert(whole_part(t) =~= t);
        } else {
            assert(t =~= whole_part(t) + seq!['.'] + fraction_part(t));
        }
        lemma_fraction_units(fraction_part(t));
        lemma_digits_value_bound(whole_part(t));
        lemma_digits_value_bound(fraction_part(t));
    }
}

/// Reading a run of digits `w` without a decimal point denotes `w` whole
/// units, when that fits in `u64`.
pub proof fn lemma_parse_whole(w: Seq<char>)
    requires
        w.len() > 0,
        all_digits(w),
    ensures
        parse_units(w) == (if digits_value(w) * 10000 <= u64::MAX {
            Some((digits_value(w) * 10000) as u64)
        } else {
            None
        }),
{
    assert(is_digit(w[0]));
    assert(is_digit(w.last()));
    lemma_trimmed_identity(w);
    assert forall|j: int| 0 <= j < w.len() implies w[j] != '.' by {
        assert(is_digit(w[j]));
    }
    lemma_first_dot_unique(w, w.len() as int);
    assert(whole_part(w) =~= w);
}

/// Trailing zeros do not change an amount: appending `'0'` to a fraction of
/// fewer than four digits, or writing `"."` after a whole number, reads the
/// same.
pub proof fn lemma_parse_trailing_zero(w: Seq<char>, f: Seq<char>)
    requires
        w.len() > 0,
        all_digits(w),
        all_digits(f),
        f.len() < 4,
    ensures
        parse_units(w + seq!['.'] + f.push('0')) == parse_units(w + seq!['.'] + f),
        parse_units(w + seq!['.']) == parse_units(w),
{
    let g = f.push('0');
    assert(all_digits(g)) by {
        assert forall|i: int| 0 <= i < g.len() implies is_digit(#[trigger] g[i]) by {
            if i < f.len() {
                assert(g[i] == f[i]);
            }
        }
    }
    lemma_parse_decimal(w, f);
    lemma_parse_decimal(w, g);
    lemma_digits_value_push(f, '0');
    let k: nat = (4 - g.len()) as nat;
    assert(pow10((4 - f.len()) as nat) == 10 * pow10(k));
    let x = digits_value(f);
    let p = pow10(k);
    assert((x * 10) * p == x * (10 * p)) by (nonlinear_arith);
    lemma_parse_decimal(w, Seq::<char>::empty());
    lemma_parse_whole(w);
    assert(w + seq!['.'] + Seq::<char>::empty() =~= w + seq!['.']);
    assert(digits_value(Seq::<char>::empty()) == 0);
}

/// Whitespace around an amount does not change what it reads as.
pub proof fn lemma_parse_ignores_whitespace(a: Seq<char>, s: Seq<char>, b: Seq<char>)
    requires
        forall|i: int| 0 <= i < a.len() ==> is_unicode_whitespace(#[trigger] a[i]),
        forall|i: int| 0 <= i < b.len() ==> is_unicode_whitespace(#[trigger] b[i]),
    ensures
        parse_units(a + s + b) == parse_units(s),
{
    lemma_trim_surrounding(a, s, b);
}

} // verus!
