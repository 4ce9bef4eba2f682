//! Transaction records and the history store that disputes refer back to.

use vstd::prelude::*;

verus! {

/// The five transaction types the engine accepts.
#[derive(Clone, Copy, Debug, PartialEq, Eq, Structural)]
pub enum TransactionType {
    Withdrawal,
    Deposit,
    Dispute,
    Resolve,
    Chargeback,
}

/// A transaction identifier, in the unsigned 32-bit range. Deposits and
/// withdrawals carry their own; a dispute, resolve or chargeback carries the
/// id of the deposit or withdrawal it refers to.
#[derive(Clone, Copy, Debug, PartialEq, Eq, Hash, Structural)]
pub struct Id(pub u32);

/// Mathematical state of one transaction record.
pub ghost struct TxView {
    pub txn_type: TransactionType,
    pub id: u32,
    /// The client whose account this transaction affects.
    pub client: u16,
    /// Fixed-point amount in units of 1/10_000 of the currency; present for
    /// deposits and withdrawals, absent for the dispute-lifecycle types.
    pub amount: Option<int>,
    /// Whether a dispute is currently open against this stored record.
    pub disputed: bool,
}

impl TxView {
    /// The same record with the dispute flag set to `disputed`.
    pub open spec fn with_disputed(self, disputed: bool) -> TxView {
        TxView { disputed, ..self }
    }
}

/// One transaction record.
#[derive(Clone, Copy, Debug)]
pub struct Transaction {
    pub txn_type: TransactionType,
    pub id: Id,
    pub client: u16,
    pub amount: Option<i64>,
    pub disputed: bool,
}

impl View for Transaction {
    type V = TxView;

    open spec fn view(&self) -> TxView {
        TxView {
            txn_type: self.txn_type,
            id: self.id.0,
            client: self.client,
            amount: match self.amount {
                Some(m) => Some(m as int),
                None => None,
            },
            disputed: self.disputed,
        }
    }
}

impl Transaction {
    /// Open a dispute against this record.
    pub fn dispute(&mut self)
        ensures
            final(self)@ == old(self)@.with_disputed(true),
    {
        self.disputed = true
    }

    /// Close the dispute against this record (shared by resolve and
    /// chargeback).
    pub fn resolve(&mut self)
        ensures
            final(self)@ == old(self)@.with_disputed(false),
    {
        self.disputed = false
    }
}

/// The transaction history: stored deposit and withdrawal records, one per
/// transaction id (`distinct_txn_ids` below), in order of first arrival.
pub struct Ledger(pub Vec<Transaction>);

impl View for Ledger {
    type V = Seq<TxView>;

    open spec fn view(&self) -> Seq<TxView> {
        self.0@.map_values(|t: Transaction| t@)
    }
}

/// Index of the record with the given id, or -1 when the history holds none
/// (the first such index, which under `distinct_txn_ids` is the only one).
pub open spec fn txn_idx(s: Seq<TxView>, id: u32) -> int
    decreases s.len(),
{
    if s.len() == 0 {
        -1
    } else if s[0].id == id {
        0
    } else {
        let r = txn_idx(s.drop_first(), id);
        if r < 0 {
            -1
        } else {
            r + 1
        }
    }
}

/// Whether the history holds a record with the given id.
pub open spec fn has_txn(s: Seq<TxView>, id: u32) -> bool {
    txn_idx(s, id) >= 0
}

/// The history after an unconditional insert: the record with the same id is
/// overwritten when one exists, otherwise the new record is appended.
pub open spec fn history_insert(s: Seq<TxView>, t: TxView) -> Seq<TxView> {
    if has_txn(s, t.id) {
        s.update(txn_idx(s, t.id), t)
    } else {
        s.push(t)
    }
}

/// No two records in the history share a transaction id.
pub open spec fn distinct_txn_ids(s: Seq<TxView>) -> bool {
    forall|i: int, j: int| 0 <= i < j < s.len() ==> s[i].id != s[j].id
}

/// Every stored record carries a non-negative amount: only deposits and
/// withdrawals enter the history, and their amounts are non-negative.
pub open spec fn stored_txns_wf(s: Seq<TxView>) -> bool {
    forall|k: int| 0 <= k < s.len() ==> (#[trigger] s[k]).amount is Some && s[k].amount->0 >= 0
}

/// `txn_idx` finds the first record with the id, and -1 exactly when there is
/// none.
pub proof fn lemma_txn_idx(s: Seq<TxView>, id: u32)
    ensures
        -1 <= txn_idx(s, id) < s.len(),
        txn_idx(s, id) >= 0 ==> s[txn_idx(s, id)].id == id,
        forall|k: int| 0 <= k < txn_idx(s, id) ==> s[k].id != id,
        txn_idx(s, id) == -1 ==> forall|k: int| 0 <= k < s.len() ==> s[k].id != id,
    decreases s.len(),
{
    if s.len() > 0 && s[0].id != id {
        lemma_txn_idx(s.drop_first(), id);
        assert forall|k: int| 0 <= k < txn_idx(s, id) implies s[k].id != id by {
            if k > 0 {
                assert(s.drop_first()[k - 1] == s[k]);
            }
        }
        if txn_idx(s, id) == -1 {
            assert forall|k: int| 0 <= k < s.len() implies s[k].id != id by {
                if k > 0 {
                    assert(s.drop_first()[k - 1] == s[k]);
                }
            }
        }
    }
}

/// Replacing a record with one of the same id moves no index.
pub proof fn lemma_txn_idx_update(s: Seq<TxView>, k: int, t: TxView, id: u32)
    requires
        0 <= k < s.len(),
        t.id == s[k].id,
    ensures
        txn_idx(s.update(k, t), id) == txn_idx(s, id),
    decreases s.len(),
{
    let u = s.update(k, t);
    assert(u.len() == s.len());
    if s.len() > 0 {
        assert(u[0].id == s[0].id);
        if s[0].id != id {
            if k == 0 {
                assert(u.drop_first() =~= s.drop_first());
            } else {
                assert(u.drop_first() =~= s.drop_first().update(k - 1, t));
                lemma_txn_idx_update(s.drop_first(), k - 1, t, id);
            }
        }
    }
}

/// How appending one record moves the index of any id.
pub proof fn lemma_txn_idx_push(s: Seq<TxView>, t: TxView, id: u32)
    ensures
        txn_idx(s.push(t), id) == if txn_idx(s, id) >= 0 {
            txn_idx(s, id)
        } else if t.id == id {
            s.len() as int
        } else {
            -1
        },
    decreases s.len(),
{
    reveal_with_fuel(txn_idx, 2);
    let u = s.push(t);
    if s.len() == 0 {
        assert(u.len() == 1);
        assert(u[0] == t);
        assert(u.drop_first() =~= Seq::<TxView>::empty());
    } else {
        assert(u[0] == s[0]);
        if s[0].id != id {
            assert(u.drop_first() =~= s.drop_first().push(t));
            lemma_txn_idx_push(s.drop_first(), t, id);
        }
    }
}

impl Ledger {
    /// An empty history.
    pub fn new() -> (l: Ledger)
        ensures
            l@ === Seq::<TxView>::empty(),
    {
        let l = Ledger(Vec::new());
        proof {
            assert(l@ =~= Seq::<TxView>::empty());
        }
        l
    }

    /// Index of the record with the given id, when the history holds one.
    pub fn find(&self, id: Id) -> (r: Option<usize>)
        ensures
            match r {
                Some(j) => j == txn_idx(self@, id.0) && j < self@.len(),
                None => txn_idx(self@, id.0) == -1,
            },
    {
        proof {
            lemma_txn_idx(self@, id.0);
        }
        let n = self.0.len();
        let mut k: usize = 0;
        while k < n
            invariant
                n == self@.len(),
                0 <= k <= n,
                forall|m: int| 0 <= m < k ==> self@[m].id != id.0,
            decreases n - k,
        {
            if self.0[k].id.0 == id.0 {
                proof {
                    assert(self@[k as int] == self.0@[k as int]@);
                    assert(self@[k as int].id == id.0);
                    lemma_txn_idx(self@, id.0);
                    let idx = txn_idx(self@, id.0);
                    if idx < k as int {
                        assert(self@[idx].id == id.0);
                    } else if idx > k as int {
                        assert(self@[k as int].id != id.0);
                    }
                }
                return Some(k);
            }
            k += 1;
        }
        None
    }

    /// Unconditional insert: overwrite the record with the same id, or append
    /// the new one.
    pub fn insert(&mut self, t: Transaction)
        requires
            distinct_txn_ids(old(self)@),
        ensures
            final(self)@ == history_insert(old(self)@, t@),
            distinct_txn_ids(final(self)@),
    {
        let ghost s0 = self@;
        proof {
            lemma_txn_idx(s0, t.id.0);
        }
        match self.find(t.id) {
            Some(j) => {
                self.0[j] = t;
                proof {
                    assert(self@ =~= s0.update(j as int, t@));
                }
            },
            None => {
                self.0.push(t);
                proof {
                    assert(self@ =~= s0.push(t@));
                    assert forall|p: int, q: int|
                        0 <= p < q < self@.len() implies self@[p].id != self@[q].id by {
                        lemma_txn_idx(s0, t.id.0);
                    }
                }
            },
        }
    }
}

} // verus!
