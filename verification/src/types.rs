//! Core value types of the ledger: client and transaction identifiers,
//! the fixed-point `Amount`, and the mathematical view of an account.

use vstd::prelude::*;

verus! {

/// Identifies a client account in the ledger.
pub type ClientId = u16;

/// Identifies a transaction in the input stream.
pub type TransactionId = u32;

/// Amounts carry exactly four fractional decimal digits, so one whole
/// unit is this many representable steps.
pub const UNITS_PER_WHOLE: i64 = 10000;

/// A fixed-point decimal amount with exactly four fractional digits,
/// stored as a signed count of ten-thousandths. Its view is that count
/// as a mathematical integer.
#[derive(Clone, Copy, Debug, PartialEq, Eq, Structural)]
pub struct Amount {
    units: i64,
}

impl View for Amount {
    type V = int;

    closed spec fn view(&self) -> int {
        self.units as int
    }
}

impl Amount {
    /// The zero amount.
    pub fn zero() -> (r: Amount)
        ensures
            r@ == 0,
    {
        Amount { units: 0 }
    }

    /// The amount holding `units` ten-thousandths.
    pub fn from_units(units: i64) -> (r: Amount)
        ensures
            r@ == units,
    {
        Amount { units }
    }

    /// The amount as a signed count of ten-thousandths.
    pub fn units(&self) -> (r: i64)
        ensures
            r == self@,
    {
        self.units
    }

    /// Whether the amount is strictly below zero.
    pub fn is_negative(&self) -> (r: bool)
        ensures
            r == (self@ < 0),
    {
        self.units < 0
    }

    /// Whether `self` is at least `other`.
    pub fn at_least(&self, other: Amount) -> (r: bool)
        ensures
            r == (self@ >= other@),
    {
        self.units >= other.units
    }

    /// The sum of the two amounts.
    pub fn plus(self, other: Amount) -> (r: Amount)
        requires
            i64::MIN <= self@ + other@ <= i64::MAX,
        ensures
            r@ == self@ + other@,
    {
        Amount { units: self.units + other.units }
    }

    /// The difference of the two amounts.
    pub fn minus(self, other: Amount) -> (r: Amount)
        requires
            i64::MIN <= self@ - other@ <= i64::MAX,
        ensures
            r@ == self@ - other@,
    {
        Amount { units: self.units - other.units }
    }
}

/// The view of an `Amount` is a count of ten-thousandths held in a
/// machine word, so it always lies within the signed 64-bit range.
pub broadcast proof fn lemma_amount_fits_i64(a: Amount)
    ensures
        i64::MIN <= #[trigger] a@ <= i64::MAX,
{
}

/// The mathematical state of one account: balances as unbounded
/// integers plus the lock flag.
pub ghost struct AccountView {
    pub available: int,
    pub held: int,
    pub total: int,
    pub locked: bool,
}

impl AccountView {
    /// The balance invariant every account maintains: the total equals
    /// the available funds plus the funds held for open disputes.
    pub open spec fn balanced(self) -> bool {
        self.total == self.available + self.held
    }

    /// A freshly created account: all balances zero, unlocked.
    pub open spec fn new_account() -> AccountView {
        AccountView { available: 0, held: 0, total: 0, locked: false }
    }
}

} // verus!
