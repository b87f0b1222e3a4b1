//! Signed monetary balances.
use vstd::prelude::*;

use crate::amount::{
    all_digits, lemma_parse_decimal, lemma_units_text_reads, parse_units, pow10, reads_as, Amount,
};
use crate::text::{
    decimal_text, four_digits, lemma_decimal_text, lemma_four_digits, push_char, push_units,
    units_text,
};

verus! {

/// Signed monetary balance used for account state, in units of 0.0001.
///
/// Unlike `Amount`, `Funds` can go negative: for example when a deposit is
/// charged back after the funds have already been withdrawn.
#[derive(Debug, Clone, Copy, PartialEq, Eq, PartialOrd, Ord)]
pub struct Funds(i128);

impl View for Funds {
    type V = i128;

    closed spec fn view(&self) -> i128 {
        self.0
    }
}

/// The text of a balance: a `-` sign when negative, then the magnitude with
/// exactly four decimal places.
pub open spec fn funds_text(units: int) -> Seq<char> {
    if units < 0 {
        seq!['-'] + units_text((-units) as nat)
    } else {
        units_text(units as nat)
    }
}

impl Funds {
    /// Zero funds.
    pub fn zero() -> (r: Funds)
        ensures
            r@ == 0,
    {
        Funds(0)
    }

    /// The balance as a signed count of ten-thousandths.
    pub fn units(self) -> (r: i128)
        ensures
            r == self@,
    {
        self.0
    }

    /// `self + amount`.
    pub fn plus(self, amount: Amount) -> (r: Funds)
        requires
            self@ + amount@ <= i128::MAX,
        ensures
            r@ == self@ + amount@,
    {
        Funds(self.0 + amount.as_i128())
    }

    /// `self - amount`.
    pub fn minus(self, amount: Amount) -> (r: Funds)
        requires
            self@ - amount@ >= i128::MIN,
        ensures
            r@ == self@ - amount@,
    {
        Funds(self.0 - amount.as_i128())
    }

    /// Whether the balance is smaller than `amount`.
    pub fn is_less_than(self, amount: Amount) -> (r: bool)
        ensures
            r == (self@ < amount@),
    {
        self.0 < amount.as_i128()
    }

    /// The balance as a decimal with exactly four decimal places.
    pub fn to_string(&self) -> (r: String)
        ensures
            r@ == funds_text(self@ as int),
    {
        let mut out = String::new();
        if self.0 < 0 {
            push_char(&mut out, '-');
            // The magnitude, computed without overflowing at i128::MIN.
            let magnitude: u128 = ((-(self.0 + 1)) as u128) + 1;
            push_units(&mut out, magnitude);
        } else {
            push_units(&mut out, self.0 as u128);
        }
        assert(out@ =~= funds_text(self@ as int));
        out
    }
}

impl Default for Funds {
    fn default() -> (r: Funds)
        ensures
            r@ == 0,
    {
        Funds(0)
    }
}

impl From<i64> for Funds {
    fn from(value: i64) -> (r: Funds)
        ensures
            r@ == value as i128,
    {
        Funds(value as i128)
    }
}

impl vstd::std_specs::convert::FromSpecImpl<i64> for Funds {
    open spec fn obeys_from_spec() -> bool {
        true
    }

    closed spec fn from_spec(v: i64) -> Funds {
        Funds(v as i128)
    }
}

impl From<i128> for Funds {
    fn from(value: i128) -> (r: Funds)
        ensures
            r@ == value,
    {
        Funds(value)
    }
}

impl vstd::std_specs::convert::FromSpecImpl<i128> for Funds {
    open spec fn obeys_from_spec() -> bool {
        true
    }

    closed spec fn from_spec(v: i128) -> Funds {
        Funds(v)
    }
}

impl PartialEq<i64> for Funds {
    fn eq(&self, other: &i64) -> (r: bool) {
        self.0 == *other as i128
    }
}

impl vstd::std_specs::cmp::PartialEqSpecImpl<i64> for Funds {
    open spec fn obeys_eq_spec() -> bool {
        true
    }

    open spec fn eq_spec(&self, other: &i64) -> bool {
        self@ == *other as i128
    }
}

impl PartialEq<Amount> for Funds {
    fn eq(&self, other: &Amount) -> (r: bool) {
        self.0 == other.as_i128()
    }
}

impl vstd::std_specs::cmp::PartialEqSpecImpl<Amount> for Funds {
    open spec fn obeys_eq_spec() -> bool {
        true
    }

    open spec fn eq_spec(&self, other: &Amount) -> bool {
        self@ == other@
    }
}

impl core::ops::Add<Amount> for Funds {
    type Output = Funds;

    fn add(self, rhs: Amount) -> (r: Funds)
        ensures
            r@ == self@ + rhs@,
    {
        self.plus(rhs)
    }
}

impl vstd::std_specs::ops::AddSpecImpl<Amount> for Funds {
    open spec fn obeys_add_spec() -> bool {
        true
    }

    open spec fn add_req(self, rhs: Amount) -> bool {
        self@ + rhs@ <= i128::MAX
    }

    closed spec fn add_spec(self, rhs: Amount) -> Funds {
        Funds((self.0 + rhs@) as i128)
    }
}

impl core::ops::Sub<Amount> for Funds {
    type Output = Funds;

    fn sub(self, rhs: Amount) -> (r: Funds)
        ensures
            r@ == self@ - rhs@,
    {
        self.minus(rhs)
    }
}

impl vstd::std_specs::ops::SubSpecImpl<Amount> for Funds {
    open spec fn obeys_sub_spec() -> bool {
        true
    }

    open spec fn sub_req(self, rhs: Amount) -> bool {
        self@ - rhs@ >= i128::MIN
    }

    closed spec fn sub_spec(self, rhs: Amount) -> Funds {
        Funds((self.0 - rhs@) as i128)
    }
}

impl PartialOrd<Amount> for Funds {
    fn partial_cmp(&self, other: &Amount) -> (r: Option<core::cmp::Ordering>) {
        let rhs: i128 = other.as_i128();
        if self.0 < rhs {
            Some(core::cmp::Ordering::Less)
        } else if self.0 == rhs {
            Some(core::cmp::Ordering::Equal)
        } else {
            Some(core::cmp::Ordering::Greater)
        }
    }
}

impl vstd::std_specs::cmp::PartialOrdSpecImpl<Amount> for Funds {
    open spec fn obeys_partial_cmp_spec() -> bool {
        true
    }

    open spec fn partial_cmp_spec(&self, other: &Amount) -> Option<core::cmp::Ordering> {
        if self@ < other@ {
            Some(core::cmp::Ordering::Less)
        } else if self@ == other@ {
            Some(core::cmp::Ordering::Equal)
        } else {
            Some(core::cmp::Ordering::Greater)
        }
    }
}

/// The text of a balance reads as the balance: a `-` exactly when it is
/// negative, then the magnitude as a decimal with four decimals. A balance in
/// the range of amounts parses back as itself.
pub proof fn lemma_funds_text_reads(b: int)
    ensures
        reads_as(funds_text(b), b),
        0 <= b <= u64::MAX ==> parse_units(funds_text(b)) == Some(b as u64),
{
    let n: nat = (if b < 0 { -b } else { b }) as nat;
    lemma_units_text_reads(n);
    let t = funds_text(b);
    if b < 0 {
        assert(t[0] == '-');
        assert(t.drop_first() =~= units_text(n));
    } else {
        let w = decimal_text(n / 10000);
        let f = four_digits(n % 10000);
        assert(all_digits(w) && w.len() > 0) by {
            lemma_decimal_text(n / 10000);
        }
        assert(all_digits(f) && f.len() == 4) by {
            lemma_four_digits(n % 10000);
        }
        if b <= u64::MAX {
            lemma_parse_decimal(w, f);
            assert(pow10(0) == 1);
        }
    }
}

} // verus!
