//! One client's account: available and held balances and the lock flag.
//!
//! Balances are exact fixed-point amounts: an `i64` counts units of 1/10_000
//! of the currency. The mathematical model (`AccountView`) carries the same
//! balances as unbounded integers, so the transition rules are stated without
//! any machine limit; the executable operations require exactly the bounds
//! that keep their `i64` arithmetic exact.

use vstd::prelude::*;

use crate::client::ledger::Id;

verus! {

/// Mathematical state of one account.
pub ghost struct AccountView {
    /// Owning client.
    pub client: u16,
    /// Balance usable for withdrawal (an open dispute can drive it negative).
    pub available: int,
    /// Balance frozen by open disputes.
    pub held: int,
    /// Permanent freeze set by a chargeback.
    pub locked: bool,
}

impl AccountView {
    /// The zero-balance, unlocked account a client starts with.
    pub open spec fn fresh(client: u16) -> AccountView {
        AccountView { client, available: 0, held: 0, locked: false }
    }

    /// Total funds: available plus held; never stored, always recomputed.
    pub open spec fn total(self) -> int {
        self.available + self.held
    }

    /// A deposit credits `available`; on a locked account it is ignored.
    pub open spec fn deposit(self, amount: int) -> AccountView {
        if self.locked {
            self
        } else {
            AccountView { available: self.available + amount, ..self }
        }
    }

    /// A withdrawal debits `available` only when the account is unlocked and
    /// the funds suffice; otherwise it is ignored.
    pub open spec fn withdraw(self, amount: int) -> AccountView {
        if !self.locked && amount <= self.available {
            AccountView { available: self.available - amount, ..self }
        } else {
            self
        }
    }

    /// A dispute moves the amount from `available` to `held`,
    /// unconditionally: neither the lock nor the level of `available` gates
    /// it, so `available` can go negative.
    pub open spec fn dispute(self, amount: int) -> AccountView {
        AccountView { available: self.available - amount, held: self.held + amount, ..self }
    }

    /// A resolve moves the amount back from `held` to `available`,
    /// unconditionally.
    pub open spec fn resolve(self, amount: int) -> AccountView {
        AccountView { available: self.available + amount, held: self.held - amount, ..self }
    }

    /// A chargeback destroys the amount out of `held` (it does not return to
    /// `available`) and locks the account for good.
    pub open spec fn chargeback(self, amount: int) -> AccountView {
        AccountView { held: self.held - amount, locked: true, ..self }
    }
}

/// One client's account, as stored.
#[derive(Clone, Copy, Debug, PartialEq, Eq, Structural)]
pub struct Account {
    pub id: Id,
    pub available: i64,
    pub held: i64,
    pub locked: bool,
}

impl View for Account {
    type V = AccountView;

    open spec fn view(&self) -> AccountView {
        AccountView {
            client: self.id.0,
            available: self.available as int,
            held: self.held as int,
            locked: self.locked,
        }
    }
}

impl Account {
    /// A fresh zero-balance, unlocked account for `id`.
    pub fn new(id: &Id) -> (a: Account)
        ensures
            a@ == AccountView::fresh(id.0),
    {
        Account { id: Id(id.0), available: 0, held: 0, locked: false }
    }

    /// Total funds; wide enough that the sum is always exact.
    pub fn total(&self) -> (t: i128)
        ensures
            t == self@.total(),
    {
        self.available as i128 + self.held as i128
    }

    /// Credit `amount` to `available`, unless the account is locked.
    pub fn deposit(&mut self, amount: i64)
        requires
            0 <= amount,
            !old(self)@.locked ==> old(self)@.available + amount <= i64::MAX,
        ensures
            final(self)@ == old(self)@.deposit(amount as int),
            old(self)@.locked ==> final(self)@ == old(self)@,
    {
        if !self.locked {
            self.available = self.available + amount;
        }
    }

    /// Debit `amount` from `available` when the account is unlocked and the
    /// funds suffice; otherwise leave the account exactly as it was.
    pub fn withdraw(&mut self, amount: i64)
        requires
            0 <= amount,
        ensures
            final(self)@ == old(self)@.withdraw(amount as int),
            old(self)@.locked ==> final(self)@ == old(self)@,
            amount > old(self)@.available ==> final(self)@ == old(self)@,
    {
        if !self.locked && amount <= self.available {
            self.available = self.available - amount;
        }
    }

    /// Move `amount` from `available` to `held`, unconditionally.
    pub fn dispute(&mut self, amount: i64)
        requires
            0 <= amount,
            old(self)@.held + amount <= i64::MAX,
            i64::MIN <= old(self)@.available - amount,
        ensures
            final(self)@ == old(self)@.dispute(amount as int),
    {
        self.held = self.held + amount;
        self.available = self.available - amount;
    }

    /// Move `amount` from `held` back to `available`, unconditionally.
    pub fn resolve(&mut self, amount: i64)
        requires
            0 <= amount,
            old(self)@.available + amount <= i64::MAX,
            i64::MIN <= old(self)@.held - amount,
        ensures
            final(self)@ == old(self)@.resolve(amount as int),
    {
        self.held = self.held - amount;
        self.available = self.available + amount;
    }

    /// Destroy `amount` out of `held` and lock the account, unconditionally.
    pub fn chargeback(&mut self, amount: i64)
        requires
            0 <= amount,
            i64::MIN <= old(self)@.held - amount,
        ensures
            final(self)@ == old(self)@.chargeback(amount as int),
    {
        self.held = self.held - amount;
        self.locked = true;
    }
}

/// One deposit or withdrawal request, for stating laws over whole sequences
/// of cash movements.
pub ghost enum CashOp {
    Deposit(int),
    Withdrawal(int),
}

/// Apply one cash operation to an account.
pub open spec fn apply_cash_op(a: AccountView, op: CashOp) -> AccountView {
    match op {
        CashOp::Deposit(amount) => a.deposit(amount),
        CashOp::Withdrawal(amount) => a.withdraw(amount),
    }
}

/// Run a sequence of cash operations, in order.
pub open spec fn run_cash_ops(a: AccountView, ops: Seq<CashOp>) -> AccountView
    decreases ops.len(),
{
    if ops.len() == 0 {
        a
    } else {
        run_cash_ops(apply_cash_op(a, ops[0]), ops.drop_first())
    }
}

/// Sum of all deposited amounts in `ops`.
pub open spec fn deposits_sum(ops: Seq<CashOp>) -> int
    decreases ops.len(),
{
    if ops.len() == 0 {
        0
    } else {
        (match ops[0] {
            CashOp::Deposit(amount) => amount,
            CashOp::Withdrawal(_) => 0,
        }) + deposits_sum(ops.drop_first())
    }
}

/// Sum of the amounts of the withdrawals in `ops` that succeed, i.e. that
/// find the account unlocked with sufficient `available` when their turn
/// comes, starting from account `a`.
pub open spec fn withdrawals_applied_sum(a: AccountView, ops: Seq<CashOp>) -> int
    decreases ops.len(),
{
    if ops.len() == 0 {
        0
    } else {
        (match ops[0] {
            CashOp::Deposit(_) => 0,
            CashOp::Withdrawal(amount) => if !a.locked && amount <= a.available {
                amount
            } else {
                0
            },
        }) + withdrawals_applied_sum(apply_cash_op(a, ops[0]), ops.drop_first())
    }
}

/// Money conservation: across any sequence of deposits and withdrawals on an
/// unlocked account, the total equals the starting total plus everything
/// deposited minus everything successfully withdrawn. Applied to every prefix
/// of a run, this pins the total at every point in time.
pub proof fn lemma_total_conservation(a: AccountView, ops: Seq<CashOp>)
    requires
        !a.locked,
    ensures
        run_cash_ops(a, ops).total() == a.total() + deposits_sum(ops) - withdrawals_applied_sum(
            a,
            ops,
        ),
    decreases ops.len(),
{
    if ops.len() > 0 {
        let a1 = apply_cash_op(a, ops[0]);
        assert(!a1.locked);
        lemma_total_conservation(a1, ops.drop_first());
    }
}

} // verus!
