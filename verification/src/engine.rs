//! The transaction engine: dispatches one record at a time against the
//! account store and the transaction history.

use vstd::prelude::*;

use crate::client;
use crate::client::account::Account;
use crate::client::account::AccountView;
use crate::client::ledger::account_idx;
use crate::client::ledger::acct_or_fresh;
use crate::client::ledger::distinct_clients;
use crate::client::ledger::ensure_account;
use crate::client::ledger::has_account;
use crate::client::ledger::lemma_account_idx;
use crate::client::ledger::lemma_account_idx_push;
use crate::client::ledger::lemma_account_idx_update;
use crate::client::ledger::lemma_acct_or_fresh_ensure;
use crate::transaction;
use crate::transaction::distinct_txn_ids;
use crate::transaction::has_txn;
use crate::transaction::history_insert;
use crate::transaction::lemma_txn_idx;
use crate::transaction::lemma_txn_idx_update;
use crate::transaction::stored_txns_wf;
use crate::transaction::txn_idx;
use crate::transaction::Transaction;
use crate::transaction::TransactionType;
use crate::transaction::TxView;

verus! {

/// The whole engine state, mathematically: the account store and the
/// transaction history.
#[verifier::ext_equal]
pub ghost struct EngineView {
    pub accounts: Seq<AccountView>,
    pub txns: Seq<TxView>,
}

/// What the engine assumes of an incoming record: a deposit or withdrawal
/// carries a non-negative amount.
pub open spec fn valid_incoming(t: TxView) -> bool {
    (t.txn_type == TransactionType::Deposit || t.txn_type == TransactionType::Withdrawal) ==> (
    t.amount is Some && t.amount->0 >= 0)
}

impl EngineView {
    /// The state of a fresh engine: no accounts, no history.
    pub open spec fn init() -> EngineView {
        EngineView { accounts: Seq::empty(), txns: Seq::empty() }
    }

    /// Well-formedness: one account per client, one record per transaction
    /// id, and every stored record carries a non-negative amount.
    pub open spec fn wf(self) -> bool {
        &&& distinct_clients(self.accounts)
        &&& distinct_txn_ids(self.txns)
        &&& stored_txns_wf(self.txns)
    }

    /// The state after one transaction. The account of the incoming record's
    /// client is created first, whatever the type. A deposit or withdrawal
    /// then moves cash and is stored; a dispute needs a stored record with
    /// the referenced id, marks it and holds its amount; a resolve or
    /// chargeback needs that record to be under open dispute, clears the mark
    /// and releases or destroys its amount. A dispute, resolve or chargeback
    /// whose precondition fails changes nothing further: it is silently
    /// dropped. Throughout, the amount comes from the referenced record but
    /// the account is the incoming record's client's.
    pub open spec fn step(self, t: TxView) -> EngineView {
        let accounts = ensure_account(self.accounts, t.client);
        let i = account_idx(accounts, t.client);
        let a = accounts[i];
        match t.txn_type {
            TransactionType::Withdrawal => EngineView {
                accounts: accounts.update(i, a.withdraw(t.amount->0)),
                txns: history_insert(self.txns, t),
            },
            TransactionType::Deposit => EngineView {
                accounts: accounts.update(i, a.deposit(t.amount->0)),
                txns: history_insert(self.txns, t),
            },
            TransactionType::Dispute => {
                let j = txn_idx(self.txns, t.id);
                if j >= 0 {
                    let d = self.txns[j];
                    EngineView {
                        accounts: accounts.update(i, a.dispute(d.amount->0)),
                        txns: self.txns.update(j, d.with_disputed(true)),
                    }
                } else {
                    EngineView { accounts, txns: self.txns }
                }
            },
            TransactionType::Resolve => {
                let j = txn_idx(self.txns, t.id);
                if j >= 0 && self.txns[j].disputed {
                    let d = self.txns[j];
                    EngineView {
                        accounts: accounts.update(i, a.resolve(d.amount->0)),
                        txns: self.txns.update(j, d.with_disputed(false)),
                    }
                } else {
                    EngineView { accounts, txns: self.txns }
                }
            },
            TransactionType::Chargeback => {
                let j = txn_idx(self.txns, t.id);
                if j >= 0 && self.txns[j].disputed {
                    let d = self.txns[j];
                    EngineView {
                        accounts: accounts.update(i, a.chargeback(d.amount->0)),
                        txns: self.txns.update(j, d.with_disputed(false)),
                    }
                } else {
                    EngineView { accounts, txns: self.txns }
                }
            },
        }
    }

    /// The machine limits under which one step's fixed-point arithmetic is
    /// exact in `i64`: whatever balance the step touches stays in range.
    pub open spec fn step_ok(self, t: TxView) -> bool {
        let a = acct_or_fresh(self.accounts, t.client);
        match t.txn_type {
            TransactionType::Deposit => !a.locked ==> a.available + t.amount->0 <= i64::MAX,
            TransactionType::Withdrawal => true,
            TransactionType::Dispute => {
                let j = txn_idx(self.txns, t.id);
                j >= 0 ==> {
                    let m = self.txns[j].amount->0;
                    a.held + m <= i64::MAX && i64::MIN <= a.available - m
                }
            },
            TransactionType::Resolve => {
                let j = txn_idx(self.txns, t.id);
                (j >= 0 && self.txns[j].disputed) ==> {
                    let m = self.txns[j].amount->0;
                    a.available + m <= i64::MAX && i64::MIN <= a.held - m
                }
            },
            TransactionType::Chargeback => {
                let j = txn_idx(self.txns, t.id);
                (j >= 0 && self.txns[j].disputed) ==> i64::MIN <= a.held - self.txns[j].amount->0
            },
        }
    }

    /// The state after a whole sequence of transactions, in arrival order.
    pub open spec fn run(self, ts: Seq<TxView>) -> EngineView
        decreases ts.len(),
    {
        if ts.len() == 0 {
            self
        } else {
            self.step(ts[0]).run(ts.drop_first())
        }
    }
}

/// One step preserves well-formedness.
pub proof fn lemma_step_preserves_wf(e: EngineView, t: TxView)
    requires
        e.wf(),
        valid_incoming(t),
    ensures
        e.step(t).wf(),
{
    let accounts = ensure_account(e.accounts, t.client);
    lemma_account_idx(e.accounts, t.client);
    if !has_account(e.accounts, t.client) {
        lemma_account_idx_push(e.accounts, AccountView::fresh(t.client), t.client);
        assert forall|p: int, q: int|
            0 <= p < q < accounts.len() implies accounts[p].client != accounts[q].client by {}
    }
    lemma_account_idx(accounts, t.client);
    let i = account_idx(accounts, t.client);
    let after = e.step(t);
    assert(distinct_clients(after.accounts)) by {
        assert forall|p: int, q: int|
            0 <= p < q < after.accounts.len() implies after.accounts[p].client
            != after.accounts[q].client by {
            assert(after.accounts[p].client == accounts[p].client);
            assert(after.accounts[q].client == accounts[q].client);
        }
    }
    lemma_txn_idx(e.txns, t.id);
    assert(distinct_txn_ids(after.txns)) by {
        assert forall|p: int, q: int|
            0 <= p < q < after.txns.len() implies after.txns[p].id != after.txns[q].id by {}
    }
    assert(stored_txns_wf(after.txns)) by {
        assert forall|k: int|
            0 <= k < after.txns.len() implies (#[trigger] after.txns[k]).amount is Some
            && after.txns[k].amount->0 >= 0 by {}
    }
}

/// Deposits and withdrawals aimed at a locked account change no account at
/// all: the lock makes the balances permanent against cash movements.
pub proof fn lemma_locked_account_unchanged(e: EngineView, t: TxView)
    requires
        t.txn_type == TransactionType::Deposit || t.txn_type == TransactionType::Withdrawal,
        acct_or_fresh(e.accounts, t.client).locked,
    ensures
        e.step(t).accounts == e.accounts,
{
    lemma_account_idx(e.accounts, t.client);
    let accounts = ensure_account(e.accounts, t.client);
    let i = account_idx(accounts, t.client);
    let a = accounts[i];
    assert(a.locked);
    assert(a.deposit(t.amount->0) == a);
    assert(a.withdraw(t.amount->0) == a);
    assert(e.step(t).accounts =~= e.accounts);
}

/// A dispute followed by its matching resolve returns the client's available
/// and held balances to their pre-dispute values exactly — also when the
/// referenced transaction is unknown and both are dropped.
pub proof fn lemma_dispute_then_resolve(e: EngineView, d: TxView, r: TxView)
    requires
        e.wf(),
        d.txn_type == TransactionType::Dispute,
        r.txn_type == TransactionType::Resolve,
        r.id == d.id,
        r.client == d.client,
    ensures
        acct_or_fresh(e.step(d).step(r).accounts, d.client).available == acct_or_fresh(
            e.accounts,
            d.client,
        ).available,
        acct_or_fresh(e.step(d).step(r).accounts, d.client).held == acct_or_fresh(
            e.accounts,
            d.client,
        ).held,
{
    let c = d.client;
    let s0 = e.accounts;
    let accs = ensure_account(s0, c);
    lemma_account_idx(s0, c);
    if !has_account(s0, c) {
        lemma_account_idx_push(s0, AccountView::fresh(c), c);
    }
    lemma_account_idx(accs, c);
    let i = account_idx(accs, c);
    let a = accs[i];
    assert(a == acct_or_fresh(s0, c));
    lemma_txn_idx(e.txns, d.id);
    let j = txn_idx(e.txns, d.id);
    let e1 = e.step(d);
    if j >= 0 {
        let rec = e.txns[j];
        let m = rec.amount->0;
        assert(e1.accounts == accs.update(i, a.dispute(m)));
        assert(e1.txns == e.txns.update(j, rec.with_disputed(true)));
        lemma_txn_idx_update(e.txns, j, rec.with_disputed(true), r.id);
        lemma_account_idx_update(accs, i, a.dispute(m), c);
        assert(has_account(e1.accounts, c));
        assert(ensure_account(e1.accounts, c) == e1.accounts);
        assert(e1.txns[j].disputed);
        let a1 = e1.accounts[i];
        assert(a1 == a.dispute(m));
        let e2 = e1.step(r);
        assert(e2.accounts == e1.accounts.update(i, a1.resolve(m)));
        lemma_account_idx_update(e1.accounts, i, a1.resolve(m), c);
        assert(acct_or_fresh(e2.accounts, c) == a1.resolve(m));
    } else {
        assert(e1.accounts == accs);
        assert(e1.txns == e.txns);
        let e2 = e1.step(r);
        assert(e2.accounts == accs);
        assert(acct_or_fresh(accs, c) == a);
    }
}

/// A dispute followed by its matching chargeback: the chargeback removes the
/// disputed amount from `held`, leaves `available` where the dispute put it,
/// and locks the account for good (so, by `lemma_locked_account_unchanged`,
/// no later deposit or withdrawal moves its balances).
pub proof fn lemma_dispute_then_chargeback(e: EngineView, d: TxView, cb: TxView)
    requires
        e.wf(),
        d.txn_type == TransactionType::Dispute,
        cb.txn_type == TransactionType::Chargeback,
        cb.id == d.id,
        cb.client == d.client,
        has_txn(e.txns, d.id),
    ensures
        acct_or_fresh(e.step(d).step(cb).accounts, d.client).held == acct_or_fresh(
            e.step(d).accounts,
            d.client,
        ).held - e.txns[txn_idx(e.txns, d.id)].amount->0,
        acct_or_fresh(e.step(d).step(cb).accounts, d.client).available == acct_or_fresh(
            e.step(d).accounts,
            d.client,
        ).available,
        acct_or_fresh(e.step(d).step(cb).accounts, d.client).locked,
{
    let c = d.client;
    let s0 = e.accounts;
    let accs = ensure_account(s0, c);
    lemma_account_idx(s0, c);
    if !has_account(s0, c) {
        lemma_account_idx_push(s0, AccountView::fresh(c), c);
    }
    lemma_account_idx(accs, c);
    let i = account_idx(accs, c);
    let a = accs[i];
    lemma_txn_idx(e.txns, d.id);
    let j = txn_idx(e.txns, d.id);
    let rec = e.txns[j];
    let m = rec.amount->0;
    let e1 = e.step(d);
    assert(e1.accounts == accs.update(i, a.dispute(m)));
    assert(e1.txns == e.txns.update(j, rec.with_disputed(true)));
    lemma_txn_idx_update(e.txns, j, rec.with_disputed(true), cb.id);
    lemma_account_idx_update(accs, i, a.dispute(m), c);
    assert(has_account(e1.accounts, c));
    assert(ensure_account(e1.accounts, c) == e1.accounts);
    assert(e1.txns[j].disputed);
    let a1 = e1.accounts[i];
    assert(a1 == a.dispute(m));
    assert(acct_or_fresh(e1.accounts, c) == a1);
    let e2 = e1.step(cb);
    assert(e2.accounts == e1.accounts.update(i, a1.chargeback(m)));
    lemma_account_idx_update(e1.accounts, i, a1.chargeback(m), c);
    assert(acct_or_fresh(e2.accounts, c) == a1.chargeback(m));
}

/// A resolve or chargeback whose referenced record is absent or not under an
/// open dispute is silently dropped: the history keeps every record, and
/// every client's account keeps its state (at most the incoming client's
/// fresh zero-balance account is created).
pub proof fn lemma_undisputed_resolve_chargeback_noop(e: EngineView, t: TxView)
    requires
        t.txn_type == TransactionType::Resolve || t.txn_type == TransactionType::Chargeback,
        !has_txn(e.txns, t.id) || !e.txns[txn_idx(e.txns, t.id)].disputed,
    ensures
        e.step(t).txns == e.txns,
        forall|c: u16| #[trigger] acct_or_fresh(e.step(t).accounts, c) == acct_or_fresh(
            e.accounts,
            c,
        ),
{
    lemma_txn_idx(e.txns, t.id);
    assert(e.step(t).accounts == ensure_account(e.accounts, t.client));
    assert forall|c: u16| #[trigger] acct_or_fresh(e.step(t).accounts, c) == acct_or_fresh(
        e.accounts,
        c,
    ) by {
        lemma_acct_or_fresh_ensure(e.accounts, t.client, c);
    }
}

/// A dispute whose referenced transaction id is unknown is silently dropped:
/// the history keeps every record, and every client's account keeps its state
/// (at most the incoming client's fresh zero-balance account is created).
pub proof fn lemma_unknown_dispute_noop(e: EngineView, t: TxView)
    requires
        t.txn_type == TransactionType::Dispute,
        !has_txn(e.txns, t.id),
    ensures
        e.step(t).txns == e.txns,
        forall|c: u16| #[trigger] acct_or_fresh(e.step(t).accounts, c) == acct_or_fresh(
            e.accounts,
            c,
        ),
{
    lemma_txn_idx(e.txns, t.id);
    assert(e.step(t).accounts == ensure_account(e.accounts, t.client));
    assert forall|c: u16| #[trigger] acct_or_fresh(e.step(t).accounts, c) == acct_or_fresh(
        e.accounts,
        c,
    ) by {
        lemma_acct_or_fresh_ensure(e.accounts, t.client, c);
    }
}

/// Replay determinism: the engine's behaviour is the pure function `run` of
/// the starting state and the record sequence alone, so the same sequence
/// applied twice from equal states — in particular, from two fresh engines —
/// ends in equal states and so in identical snapshots.
pub proof fn lemma_replay_deterministic(e1: EngineView, e2: EngineView, ts: Seq<TxView>)
    requires
        e1 == e2,
    ensures
        e1.run(ts) == e2.run(ts),
{
}

/// The transaction engine: owns the account store and the history for the
/// duration of one run.
pub struct TransactionEngine {
    pub clients: client::Ledger,
    pub transactions: transaction::Ledger,
}

impl View for TransactionEngine {
    type V = EngineView;

    open spec fn view(&self) -> EngineView {
        EngineView { accounts: self.clients@, txns: self.transactions@ }
    }
}

impl TransactionEngine {
    /// A fresh engine: empty account store, empty history.
    pub fn new() -> (e: TransactionEngine)
        ensures
            e@ == EngineView::init(),
            e@.wf(),
    {
        let e = TransactionEngine {
            clients: client::Ledger::new(),
            transactions: transaction::Ledger::new(),
        };
        proof {
            assert(e@ =~= EngineView::init());
        }
        e
    }

    /// Apply one transaction: exactly one `step` of the mathematical state
    /// machine.
    pub fn process(&mut self, txn: Transaction)
        requires
            old(self)@.wf(),
            valid_incoming(txn@),
            old(self)@.step_ok(txn@),
        ensures
            final(self)@ == old(self)@.step(txn@),
            final(self)@.wf(),
    {
        proof {
            lemma_step_preserves_wf(old(self)@, txn@);
        }
        let ghost accounts = ensure_account(old(self)@.accounts, txn.client);
        let i = self.clients.get_or_create(client::Id(txn.client));
        match txn.txn_type {
            TransactionType::Withdrawal => {
                let amount = txn.amount.unwrap();
                let mut a = self.clients.0[i];
                proof {
                    assert(a@ == self.clients@[i as int]);
                }
                a.withdraw(amount);
                self.clients.0[i] = a;
                self.transactions.insert(txn);
                proof {
                    assert(self.clients@ =~= accounts.update(i as int, a@));
                    assert(self@ =~= old(self)@.step(txn@));
                }
            },
            TransactionType::Deposit => {
                let amount = txn.amount.unwrap();
                let mut a = self.clients.0[i];
                proof {
                    assert(a@ == self.clients@[i as int]);
                    assert(a@ == acct_or_fresh(old(self)@.accounts, txn.client));
                }
                a.deposit(amount);
                self.clients.0[i] = a;
                self.transactions.insert(txn);
                proof {
                    assert(self.clients@ =~= accounts.update(i as int, a@));
                    assert(self@ =~= old(self)@.step(txn@));
                }
            },
            TransactionType::Dispute => {
                match self.transactions.find(txn.id) {
                    Some(j) => {
                        proof {
                            lemma_txn_idx(old(self)@.txns, txn.id.0);
                            assert(self.transactions@[j as int] == old(self)@.txns[j as int]);
                        }
                        let mut d = self.transactions.0[j];
                        proof {
                            assert(d@ == self.transactions@[j as int]);
                        }
                        let amount = d.amount.unwrap();
                        d.dispute();
                        self.transactions.0[j] = d;
                        let mut a = self.clients.0[i];
                        proof {
                            assert(a@ == self.clients@[i as int]);
                            assert(a@ == acct_or_fresh(old(self)@.accounts, txn.client));
                        }
                        a.dispute(amount);
                        self.clients.0[i] = a;
                        proof {
                            assert(self.transactions@ =~= old(self)@.txns.update(
                                j as int,
                                old(self)@.txns[j as int].with_disputed(true),
                            ));
                            assert(self.clients@ =~= accounts.update(i as int, a@));
                            assert(self@ =~= old(self)@.step(txn@));
                        }
                    },
                    None => {
                        proof {
                            assert(self@ =~= old(self)@.step(txn@));
                        }
                    },
                }
            },
            TransactionType::Resolve => {
                match self.transactions.find(txn.id) {
                    Some(j) => {
                        proof {
                            lemma_txn_idx(old(self)@.txns, txn.id.0);
                            assert(self.transactions@[j as int] == old(self)@.txns[j as int]);
                        }
                        if self.transactions.0[j].disputed {
                            let mut d = self.transactions.0[j];
                            proof {
                                assert(d@ == self.transactions@[j as int]);
                            }
                            let amount = d.amount.unwrap();
                            d.resolve();
                            self.transactions.0[j] = d;
                            let mut a = self.clients.0[i];
                            proof {
                                assert(a@ == self.clients@[i as int]);
                                assert(a@ == acct_or_fresh(old(self)@.accounts, txn.client));
                            }
                            a.resolve(amount);
                            self.clients.0[i] = a;
                            proof {
                                assert(self.transactions@ =~= old(self)@.txns.update(
                                    j as int,
                                    old(self)@.txns[j as int].with_disputed(false),
                                ));
                                assert(self.clients@ =~= accounts.update(i as int, a@));
                                assert(self@ =~= old(self)@.step(txn@));
                            }
                        } else {
                            proof {
                                assert(self@ =~= old(self)@.step(txn@));
                            }
                        }
                    },
                    None => {
                        proof {
                            assert(self@ =~= old(self)@.step(txn@));
                        }
                    },
                }
            },
            TransactionType::Chargeback => {
                match self.transactions.find(txn.id) {
                    Some(j) => {
                        proof {
                            lemma_txn_idx(old(self)@.txns, txn.id.0);
                            assert(self.transactions@[j as int] == old(self)@.txns[j as int]);
                        }
                        if self.transactions.0[j].disputed {
                            let mut d = self.transactions.0[j];
                            proof {
                                assert(d@ == self.transactions@[j as int]);
                            }
                            let amount = d.amount.unwrap();
                            d.resolve();
                            self.transactions.0[j] = d;
                            let mut a = self.clients.0[i];
                            proof {
                                assert(a@ == self.clients@[i as int]);
                                assert(a@ == acct_or_fresh(old(self)@.accounts, txn.client));
                            }
                            a.chargeback(amount);
                            self.clients.0[i] = a;
                            proof {
                                assert(self.transactions@ =~= old(self)@.txns.update(
                                    j as int,
                                    old(self)@.txns[j as int].with_disputed(false),
                                ));
                                assert(self.clients@ =~= accounts.update(i as int, a@));
                                assert(self@ =~= old(self)@.step(txn@));
                            }
                        } else {
                            proof {
                                assert(self@ =~= old(self)@.step(txn@));
                            }
                        }
                    },
                    None => {
                        proof {
                            assert(self@ =~= old(self)@.step(txn@));
                        }
                    },
                }
            },
        }
    }

    /// Apply one transaction after checking, at run time, that it is within
    /// the engine's assumptions: a deposit or withdrawal must carry a
    /// non-negative amount, and whatever balance the step touches must stay
    /// in `i64` range. Returns whether the transaction was applied; a refused
    /// transaction leaves the engine untouched.
    pub fn try_process(&mut self, txn: Transaction) -> (applied: bool)
        requires
            old(self)@.wf(),
        ensures
            final(self)@.wf(),
            applied == (valid_incoming(txn@) && old(self)@.step_ok(txn@)),
            applied ==> final(self)@ == old(self)@.step(txn@),
            !applied ==> final(self)@ == old(self)@,
    {
        let ok: bool = match txn.txn_type {
            TransactionType::Deposit | TransactionType::Withdrawal => match txn.amount {
                Some(m) => m >= 0,
                None => false,
            },
            _ => true,
        };
        if !ok {
            return false;
        }
        let a: Account = match self.clients.find(txn.client) {
            Some(i) => {
                let a = self.clients.0[i];
                proof {
                    assert(a@ == self.clients@[i as int]);
                }
                a
            },
            None => Account::new(&client::Id(txn.client)),
        };
        proof {
            assert(a@ == acct_or_fresh(self@.accounts, txn.client));
        }
        let fits: bool = match txn.txn_type {
            TransactionType::Deposit => {
                let m = txn.amount.unwrap();
                a.locked || a.available as i128 + m as i128 <= i64::MAX as i128
            },
            TransactionType::Withdrawal => true,
            TransactionType::Dispute => match self.transactions.find(txn.id) {
                Some(j) => {
                    proof {
                        lemma_txn_idx(self@.txns, txn.id.0);
                        assert(self.transactions@[j as int].amount is Some);
                    }
                    let m = self.transactions.0[j].amount.unwrap();
                    a.held as i128 + m as i128 <= i64::MAX as i128 && i64::MIN as i128
                        <= a.available as i128 - m as i128
                },
                None => true,
            },
            TransactionType::Resolve => match self.transactions.find(txn.id) {
                Some(j) => {
                    proof {
                        lemma_txn_idx(self@.txns, txn.id.0);
                        assert(self.transactions@[j as int].amount is Some);
                    }
                    if self.transactions.0[j].disputed {
                        let m = self.transactions.0[j].amount.unwrap();
                        a.available as i128 + m as i128 <= i64::MAX as i128 && i64::MIN as i128
                            <= a.held as i128 - m as i128
                    } else {
                        true
                    }
                },
                None => true,
            },
            TransactionType::Chargeback => match self.transactions.find(txn.id) {
                Some(j) => {
                    proof {
                        lemma_txn_idx(self@.txns, txn.id.0);
                        assert(self.transactions@[j as int].amount is Some);
                    }
                    if self.transactions.0[j].disputed {
                        let m = self.transactions.0[j].amount.unwrap();
                        i64::MIN as i128 <= a.held as i128 - m as i128
                    } else {
                        true
                    }
                },
                None => true,
            },
        };
        if !fits {
            return false;
        }
        self.process(txn);
        true
    }
}

impl Default for TransactionEngine {
    fn default() -> (e: Self)
        ensures
            e@ == EngineView::init(),
            e@.wf(),
    {
        Self::new()
    }
}

/// A source of transactions: drives the engine over its records, in arrival
/// order, and hands the account store back for emission. Implemented outside
/// the engine, by whatever decodes the records.
pub trait TransactionSource {
    fn process_transactions(&mut self, processing_engine: TransactionEngine) -> Result<
        client::Ledger,
        String,
    >;
}

} // verus!
