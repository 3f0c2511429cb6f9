//! The strict account type: every mutation reports success or a
//! [`ClientAccountError`], and a rejected mutation leaves the account
//! unchanged.

use vstd::prelude::*;

use crate::client::error::ClientAccountError;
use crate::types::{AccountView, Amount};

verus! {

broadcast use crate::types::lemma_amount_fits_i64;

/// A client account whose mutations report failure instead of applying
/// silently. Fields are public so that callers can assemble arbitrary
/// states; the balance invariant is stated over [`AccountView`] and
/// preserved by every operation.
#[derive(Clone, Copy, Debug)]
pub struct ClientAccount {
    pub available: Amount,
    pub held: Amount,
    pub total: Amount,
    pub locked: bool,
}

impl View for ClientAccount {
    type V = AccountView;

    open spec fn view(&self) -> AccountView {
        AccountView {
            available: self.available@,
            held: self.held@,
            total: self.total@,
            locked: self.locked,
        }
    }
}

impl ClientAccount {
    /// Outcome of a deposit of `amt`: rejected when the account is
    /// locked or the amount is negative, otherwise available and total
    /// grow by it.
    pub open spec fn deposit_spec(a: AccountView, amt: int) -> (AccountView, Result<
        (),
        ClientAccountError,
    >) {
        if a.locked {
            (a, Err(ClientAccountError::Locked))
        } else if amt < 0 {
            (a, Err(ClientAccountError::NegativeAmount))
        } else {
            (AccountView { available: a.available + amt, total: a.total + amt, ..a }, Ok(()))
        }
    }

    /// Outcome of a withdrawal of `amt`: rejected when the account is
    /// locked, the amount is negative, or the available funds do not
    /// cover it; otherwise available and total shrink by it.
    pub open spec fn withdrawal_spec(a: AccountView, amt: int) -> (AccountView, Result<
        (),
        ClientAccountError,
    >) {
        if a.locked {
            (a, Err(ClientAccountError::Locked))
        } else if amt < 0 {
            (a, Err(ClientAccountError::NegativeAmount))
        } else if a.available < amt {
            (a, Err(ClientAccountError::InsufficientBalance))
        } else {
            (AccountView { available: a.available - amt, total: a.total - amt, ..a }, Ok(()))
        }
    }

    /// Outcome of a dispute of `amt`: rejected when the account is
    /// locked, otherwise the amount moves from available to held. The
    /// available funds may go negative when the deposited funds were
    /// already withdrawn; that is accepted by design.
    pub open spec fn dispute_spec(a: AccountView, amt: int) -> (AccountView, Result<
        (),
        ClientAccountError,
    >) {
        if a.locked {
            (a, Err(ClientAccountError::Locked))
        } else {
            (AccountView { available: a.available - amt, held: a.held + amt, ..a }, Ok(()))
        }
    }

    /// Outcome of a resolve of `amt`: rejected when the account is
    /// locked, otherwise the amount moves back from held to available.
    pub open spec fn resolve_spec(a: AccountView, amt: int) -> (AccountView, Result<
        (),
        ClientAccountError,
    >) {
        if a.locked {
            (a, Err(ClientAccountError::Locked))
        } else {
            (AccountView { available: a.available + amt, held: a.held - amt, ..a }, Ok(()))
        }
    }

    /// Outcome of a chargeback of `amt`: always applies; held and total
    /// shrink by it and the account is frozen. This is the one
    /// operation allowed on a locked account and the one that locks.
    pub open spec fn chargeback_spec(a: AccountView, amt: int) -> (AccountView, Result<
        (),
        ClientAccountError,
    >) {
        (AccountView { held: a.held - amt, total: a.total - amt, locked: true, ..a }, Ok(()))
    }

    /// Machine-limit bound for a deposit: when the deposit applies, the
    /// grown balances must fit.
    pub open spec fn deposit_fits(a: AccountView, amt: int) -> bool {
        (!a.locked && amt >= 0) ==> (a.available + amt <= i64::MAX && a.total + amt <= i64::MAX)
    }

    /// Machine-limit bound for a withdrawal: when the withdrawal
    /// applies, the shrunk balances must fit.
    pub open spec fn withdrawal_fits(a: AccountView, amt: int) -> bool {
        (!a.locked && amt >= 0 && a.available >= amt) ==> (i64::MIN <= a.total - amt)
    }

    /// Machine-limit bound for a dispute.
    pub open spec fn dispute_fits(a: AccountView, amt: int) -> bool {
        !a.locked ==> (i64::MIN <= a.available - amt <= i64::MAX && i64::MIN <= a.held + amt
            <= i64::MAX)
    }

    /// Machine-limit bound for a resolve.
    pub open spec fn resolve_fits(a: AccountView, amt: int) -> bool {
        !a.locked ==> (i64::MIN <= a.available + amt <= i64::MAX && i64::MIN <= a.held - amt
            <= i64::MAX)
    }

    /// Machine-limit bound for a chargeback.
    pub open spec fn chargeback_fits(a: AccountView, amt: int) -> bool {
        i64::MIN <= a.held - amt <= i64::MAX && i64::MIN <= a.total - amt <= i64::MAX
    }

    /// Whether a deposit of `amount` stays within the machine limits
    /// of the fixed-point representation; see [`Self::deposit_fits`].
    pub fn deposit_in_bounds(&self, amount: Amount) -> (r: bool)
        ensures
            r == Self::deposit_fits(self@, amount@),
    {
        if self.locked || amount.is_negative() {
            true
        } else {
            let av = self.available.units() as i128;
            let tot = self.total.units() as i128;
            let a = amount.units() as i128;
            av + a <= i64::MAX as i128 && tot + a <= i64::MAX as i128
        }
    }

    /// Whether a withdrawal of `amount` stays within the machine
    /// limits; see [`Self::withdrawal_fits`].
    pub fn withdrawal_in_bounds(&self, amount: Amount) -> (r: bool)
        ensures
            r == Self::withdrawal_fits(self@, amount@),
    {
        if self.locked || amount.is_negative() || !self.available.at_least(amount) {
            true
        } else {
            let tot = self.total.units() as i128;
            let a = amount.units() as i128;
            i64::MIN as i128 <= tot - a
        }
    }

    /// Whether a dispute of `amount` stays within the machine limits;
    /// see [`Self::dispute_fits`].
    pub fn dispute_in_bounds(&self, amount: Amount) -> (r: bool)
        ensures
            r == Self::dispute_fits(self@, amount@),
    {
        if self.locked {
            true
        } else {
            let av = self.available.units() as i128;
            let held = self.held.units() as i128;
            let a = amount.units() as i128;
            i64::MIN as i128 <= av - a && av - a <= i64::MAX as i128 && i64::MIN as i128 <= held
                + a && held + a <= i64::MAX as i128
        }
    }

    /// Whether a resolve of `amount` stays within the machine limits;
    /// see [`Self::resolve_fits`].
    pub fn resolve_in_bounds(&self, amount: Amount) -> (r: bool)
        ensures
            r == Self::resolve_fits(self@, amount@),
    {
        if self.locked {
            true
        } else {
            let av = self.available.units() as i128;
            let held = self.held.units() as i128;
            let a = amount.units() as i128;
            i64::MIN as i128 <= av + a && av + a <= i64::MAX as i128 && i64::MIN as i128 <= held
                - a && held - a <= i64::MAX as i128
        }
    }

    /// Whether a chargeback of `amount` stays within the machine
    /// limits; see [`Self::chargeback_fits`].
    pub fn chargeback_in_bounds(&self, amount: Amount) -> (r: bool)
        ensures
            r == Self::chargeback_fits(self@, amount@),
    {
        let tot = self.total.units() as i128;
        let held = self.held.units() as i128;
        let a = amount.units() as i128;
        i64::MIN as i128 <= held - a && held - a <= i64::MAX as i128 && i64::MIN as i128 <= tot
            - a && tot - a <= i64::MAX as i128
    }

    /// A fresh account: all balances zero, unlocked.
    pub fn new() -> (r: ClientAccount)
        ensures
            r@ == AccountView::new_account(),
    {
        ClientAccount {
            available: Amount::zero(),
            held: Amount::zero(),
            total: Amount::zero(),
            locked: false,
        }
    }

    /// The funds available for withdrawal.
    pub fn available(&self) -> (r: Amount)
        ensures
            r@ == self@.available,
    {
        self.available
    }

    /// The funds held for open disputes.
    pub fn held(&self) -> (r: Amount)
        ensures
            r@ == self@.held,
    {
        self.held
    }

    /// The total funds: available plus held.
    pub fn total(&self) -> (r: Amount)
        ensures
            r@ == self@.total,
    {
        self.total
    }

    /// Whether a chargeback has frozen the account.
    pub fn locked(&self) -> (r: bool)
        ensures
            r == self@.locked,
    {
        self.locked
    }

    /// Adds `amount` to the available and total funds; fails with
    /// `Locked` on a frozen account and `NegativeAmount` on a negative
    /// amount, leaving the account unchanged.
    pub fn deposit(&mut self, amount: Amount) -> (r: Result<(), ClientAccountError>)
        requires
            Self::deposit_fits(old(self)@, amount@),
        ensures
            (final(self)@, r) == Self::deposit_spec(old(self)@, amount@),
    {
        if self.locked {
            return Err(ClientAccountError::Locked);
        }
        if amount.is_negative() {
            return Err(ClientAccountError::NegativeAmount);
        }
        self.available = self.available.plus(amount);
        self.total = self.total.plus(amount);
        Ok(())
    }

    /// Removes `amount` from the available and total funds; fails with
    /// `Locked`, `NegativeAmount` or `InsufficientBalance` as
    /// [`Self::withdrawal_spec`] states, leaving the account unchanged.
    pub fn withdrawal(&mut self, amount: Amount) -> (r: Result<(), ClientAccountError>)
        requires
            Self::withdrawal_fits(old(self)@, amount@),
        ensures
            (final(self)@, r) == Self::withdrawal_spec(old(self)@, amount@),
    {
        if self.locked {
            return Err(ClientAccountError::Locked);
        }
        if amount.is_negative() {
            return Err(ClientAccountError::NegativeAmount);
        }
        if self.available.at_least(amount) {
            self.available = self.available.minus(amount);
            self.total = self.total.minus(amount);
            Ok(())
        } else {
            Err(ClientAccountError::InsufficientBalance)
        }
    }

    /// Moves `amount` from the available funds to the held funds;
    /// fails with `Locked` on a frozen account.
    pub fn dispute(&mut self, amount: Amount) -> (r: Result<(), ClientAccountError>)
        requires
            Self::dispute_fits(old(self)@, amount@),
        ensures
            (final(self)@, r) == Self::dispute_spec(old(self)@, amount@),
    {
        if self.locked {
            return Err(ClientAccountError::Locked);
        }
        self.available = self.available.minus(amount);
        self.held = self.held.plus(amount);
        Ok(())
    }

    /// Moves `amount` back from the held funds to the available funds;
    /// fails with `Locked` on a frozen account.
    pub fn resolve(&mut self, amount: Amount) -> (r: Result<(), ClientAccountError>)
        requires
            Self::resolve_fits(old(self)@, amount@),
        ensures
            (final(self)@, r) == Self::resolve_spec(old(self)@, amount@),
    {
        if self.locked {
            return Err(ClientAccountError::Locked);
        }
        self.held = self.held.minus(amount);
        self.available = self.available.plus(amount);
        Ok(())
    }

    /// Removes `amount` from the held and total funds and freezes the
    /// account; never fails.
    pub fn chargeback(&mut self, amount: Amount) -> (r: Result<(), ClientAccountError>)
        requires
            Self::chargeback_fits(old(self)@, amount@),
        ensures
            (final(self)@, r) == Self::chargeback_spec(old(self)@, amount@),
    {
        self.held = self.held.minus(amount);
        self.total = self.total.minus(amount);
        self.locked = true;
        Ok(())
    }
}

/// Every mutation of `ClientAccount` preserves the balance invariant
/// `total == available + held`, whether it succeeds or is rejected.
pub proof fn lemma_account_ops_preserve_balance(a: AccountView, amt: int)
    requires
        a.balanced(),
    ensures
        ClientAccount::deposit_spec(a, amt).0.balanced(),
        ClientAccount::withdrawal_spec(a, amt).0.balanced(),
        ClientAccount::dispute_spec(a, amt).0.balanced(),
        ClientAccount::resolve_spec(a, amt).0.balanced(),
        ClientAccount::chargeback_spec(a, amt).0.balanced(),
{
}

/// Depositing `amt` and then withdrawing exactly `amt` succeeds and
/// restores the available and total funds, never touching the held
/// funds, for any unlocked account whose available funds are not
/// negative.
pub proof fn lemma_account_deposit_withdrawal_round_trip(a: AccountView, amt: int)
    requires
        amt >= 0,
        a.available >= 0,
        !a.locked,
    ensures
        ClientAccount::deposit_spec(a, amt).1 == Ok::<(), ClientAccountError>(()),
        ClientAccount::withdrawal_spec(ClientAccount::deposit_spec(a, amt).0, amt).1 == Ok::<
            (),
            ClientAccountError,
        >(()),
        ClientAccount::withdrawal_spec(ClientAccount::deposit_spec(a, amt).0, amt).0 == a,
        ClientAccount::deposit_spec(a, amt).0.held == a.held,
{
}

} // verus!
