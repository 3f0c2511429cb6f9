//! The lenient account type: mutations never report failure. A
//! withdrawal that asks for more than the available funds is silently
//! ignored; every other operation applies unconditionally.

pub mod client_account;
pub mod error;

use vstd::prelude::*;

use crate::types::{AccountView, Amount};

verus! {

broadcast use crate::types::lemma_amount_fits_i64;

/// A client account that applies mutations silently: failed
/// withdrawals are dropped rather than reported.
#[derive(Clone, Copy, Debug)]
pub struct Client {
    available: Amount,
    held: Amount,
    total: Amount,
    locked: bool,
}

impl View for Client {
    type V = AccountView;

    closed spec fn view(&self) -> AccountView {
        AccountView {
            available: self.available@,
            held: self.held@,
            total: self.total@,
            locked: self.locked,
        }
    }
}

impl Client {
    /// State after a deposit of `amt`: available and total grow by it.
    pub open spec fn deposit_spec(a: AccountView, amt: int) -> AccountView {
        AccountView { available: a.available + amt, total: a.total + amt, ..a }
    }

    /// State after a withdrawal of `amt`: available and total shrink by
    /// it when the available funds cover it, otherwise nothing happens.
    pub open spec fn withdrawal_spec(a: AccountView, amt: int) -> AccountView {
        if a.available >= amt {
            AccountView { available: a.available - amt, total: a.total - amt, ..a }
        } else {
            a
        }
    }

    /// State after a dispute of `amt`: the amount moves from available
    /// to held; the total is unchanged.
    pub open spec fn dispute_spec(a: AccountView, amt: int) -> AccountView {
        AccountView { available: a.available - amt, held: a.held + amt, ..a }
    }

    /// State after a resolve of `amt`: the amount moves back from held
    /// to available; the total is unchanged.
    pub open spec fn resolve_spec(a: AccountView, amt: int) -> AccountView {
        AccountView { available: a.available + amt, held: a.held - amt, ..a }
    }

    /// State after a chargeback of `amt`: held and total shrink by it
    /// and the account is frozen.
    pub open spec fn chargeback_spec(a: AccountView, amt: int) -> AccountView {
        AccountView { held: a.held - amt, total: a.total - amt, locked: true, ..a }
    }

    /// Machine-limit bound for a deposit: the grown balances must fit.
    pub open spec fn deposit_fits(a: AccountView, amt: int) -> bool {
        a.available + amt <= i64::MAX && a.total + amt <= i64::MAX && i64::MIN <= a.available + amt
            && i64::MIN <= a.total + amt
    }

    /// Machine-limit bound for a withdrawal: the shrunk balances must
    /// fit when the withdrawal applies.
    pub open spec fn withdrawal_fits(a: AccountView, amt: int) -> bool {
        a.available >= amt ==> (i64::MIN <= a.available - amt <= i64::MAX && i64::MIN <= a.total
            - amt <= i64::MAX)
    }

    /// Machine-limit bound for a dispute.
    pub open spec fn dispute_fits(a: AccountView, amt: int) -> bool {
        i64::MIN <= a.available - amt <= i64::MAX && i64::MIN <= a.held + amt <= i64::MAX
    }

    /// Machine-limit bound for a resolve.
    pub open spec fn resolve_fits(a: AccountView, amt: int) -> bool {
        i64::MIN <= a.available + amt <= i64::MAX && i64::MIN <= a.held - amt <= i64::MAX
    }

    /// Machine-limit bound for a chargeback.
    pub open spec fn chargeback_fits(a: AccountView, amt: int) -> bool {
        i64::MIN <= a.held - amt <= i64::MAX && i64::MIN <= a.total - amt <= i64::MAX
    }

    /// A fresh account: all balances zero, unlocked.
    pub fn new() -> (r: Client)
        ensures
            r@ == AccountView::new_account(),
    {
        Client {
            available: Amount::zero(),
            held: Amount::zero(),
            total: Amount::zero(),
            locked: false,
        }
    }

    /// The funds available for withdrawal.
    pub fn available(&self) -> (r: Amount)
        ensures
            r@ == self@.available,
    {
        self.available
    }

    /// The funds held for open disputes.
    pub fn held(&self) -> (r: Amount)
        ensures
            r@ == self@.held,
    {
        self.held
    }

    /// The total funds: available plus held.
    pub fn total(&self) -> (r: Amount)
        ensures
            r@ == self@.total,
    {
        self.total
    }

    /// Whether a chargeback has frozen the account.
    pub fn locked(&self) -> (r: bool)
        ensures
            r == self@.locked,
    {
        self.locked
    }

    /// Adds `amount` to the available and total funds.
    pub fn deposit(&mut self, amount: Amount)
        requires
            Self::deposit_fits(old(self)@, amount@),
        ensures
            final(self)@ == Self::deposit_spec(old(self)@, amount@),
    {
        self.available = self.available.plus(amount);
        self.total = self.total.plus(amount);
    }

    /// Removes `amount` from the available and total funds, when the
    /// available funds cover it; otherwise leaves the account alone.
    pub fn withdrawal(&mut self, amount: Amount)
        requires
            Self::withdrawal_fits(old(self)@, amount@),
        ensures
            final(self)@ == Self::withdrawal_spec(old(self)@, amount@),
    {
        if self.available.at_least(amount) {
            self.available = self.available.minus(amount);
            self.total = self.total.minus(amount);
        }
    }

    /// Moves `amount` from the available funds to the held funds.
    pub fn dispute(&mut self, amount: Amount)
        requires
            Self::dispute_fits(old(self)@, amount@),
        ensures
            final(self)@ == Self::dispute_spec(old(self)@, amount@),
    {
        self.available = self.available.minus(amount);
        self.held = self.held.plus(amount);
    }

    /// Moves `amount` back from the held funds to the available funds.
    pub fn resolve(&mut self, amount: Amount)
        requires
            Self::resolve_fits(old(self)@, amount@),
        ensures
            final(self)@ == Self::resolve_spec(old(self)@, amount@),
    {
        self.held = self.held.minus(amount);
        self.available = self.available.plus(amount);
    }

    /// Removes `amount` from the held and total funds and freezes the
    /// account.
    pub fn chargeback(&mut self, amount: Amount)
        requires
            Self::chargeback_fits(old(self)@, amount@),
        ensures
            final(self)@ == Self::chargeback_spec(old(self)@, amount@),
    {
        self.held = self.held.minus(amount);
        self.total = self.total.minus(amount);
        self.locked = true;
    }
}

/// Every mutation of `Client` preserves the balance invariant
/// `total == available + held`.
pub proof fn lemma_client_ops_preserve_balance(a: AccountView, amt: int)
    requires
        a.balanced(),
    ensures
        Client::deposit_spec(a, amt).balanced(),
        Client::withdrawal_spec(a, amt).balanced(),
        Client::dispute_spec(a, amt).balanced(),
        Client::resolve_spec(a, amt).balanced(),
        Client::chargeback_spec(a, amt).balanced(),
{
}

/// Depositing `amt` and then withdrawing exactly `amt` restores the
/// available and total funds and never touches the held funds, for any
/// account whose available funds are not negative.
pub proof fn lemma_client_deposit_withdrawal_round_trip(a: AccountView, amt: int)
    requires
        amt >= 0,
        a.available >= 0,
    ensures
        Client::withdrawal_spec(Client::deposit_spec(a, amt), amt) == a,
        Client::deposit_spec(a, amt).held == a.held,
{
}

} // verus!
