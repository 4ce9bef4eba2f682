//! The account store: one account per client, created on first reference.

use vstd::prelude::*;

use crate::client::account::Account;
use crate::client::account::AccountView;

verus! {

/// A client identifier, in the unsigned 16-bit range.
#[derive(Clone, Copy, Debug, PartialEq, Eq, Hash, Structural)]
pub struct Id(pub u16);

/// The account store. Accounts sit in order of first reference, one per
/// client id (`distinct_clients` below).
pub struct Ledger(pub Vec<Account>);

impl View for Ledger {
    type V = Seq<AccountView>;

    open spec fn view(&self) -> Seq<AccountView> {
        self.0@.map_values(|a: Account| a@)
    }
}

/// Index of the account belonging to `client`, or -1 when the store holds
/// none (the first such index, which under `distinct_clients` is the only one).
pub open spec fn account_idx(s: Seq<AccountView>, client: u16) -> int
    decreases s.len(),
{
    if s.len() == 0 {
        -1
    } else if s[0].client == client {
        0
    } else {
        let r = account_idx(s.drop_first(), client);
        if r < 0 {
            -1
        } else {
            r + 1
        }
    }
}

/// Whether the store holds an account for `client`.
pub open spec fn has_account(s: Seq<AccountView>, client: u16) -> bool {
    account_idx(s, client) >= 0
}

/// The store after get-or-create: unchanged when `client` is known, otherwise
/// extended with a fresh zero-balance account.
pub open spec fn ensure_account(s: Seq<AccountView>, client: u16) -> Seq<AccountView> {
    if has_account(s, client) {
        s
    } else {
        s.push(AccountView::fresh(client))
    }
}

/// The account for `client` as the engine sees it: the stored one, or a fresh
/// zero-balance account when the store holds none.
pub open spec fn acct_or_fresh(s: Seq<AccountView>, client: u16) -> AccountView {
    if has_account(s, client) {
        s[account_idx(s, client)]
    } else {
        AccountView::fresh(client)
    }
}

/// No two accounts in the store belong to the same client.
pub open spec fn distinct_clients(s: Seq<AccountView>) -> bool {
    forall|i: int, j: int| 0 <= i < j < s.len() ==> s[i].client != s[j].client
}

/// `account_idx` finds the first account of the client, and -1 exactly when
/// there is none.
pub proof fn lemma_account_idx(s: Seq<AccountView>, client: u16)
    ensures
        -1 <= account_idx(s, client) < s.len(),
        account_idx(s, client) >= 0 ==> s[account_idx(s, client)].client == client,
        forall|k: int| 0 <= k < account_idx(s, client) ==> s[k].client != client,
        account_idx(s, client) == -1 ==> forall|k: int|
            0 <= k < s.len() ==> s[k].client != client,
    decreases s.len(),
{
    if s.len() > 0 && s[0].client != client {
        lemma_account_idx(s.drop_first(), client);
        assert forall|k: int| 0 <= k < account_idx(s, client) implies s[k].client
            != client by {
            if k > 0 {
                assert(s.drop_first()[k - 1] == s[k]);
            }
        }
        if account_idx(s, client) == -1 {
            assert forall|k: int| 0 <= k < s.len() implies s[k].client != client by {
                if k > 0 {
                    assert(s.drop_first()[k - 1] == s[k]);
                }
            }
        }
    }
}

/// Replacing an account with one of the same client moves no index.
pub proof fn lemma_account_idx_update(s: Seq<AccountView>, k: int, a: AccountView, client: u16)
    requires
        0 <= k < s.len(),
        a.client == s[k].client,
    ensures
        account_idx(s.update(k, a), client) == account_idx(s, client),
    decreases s.len(),
{
    let t = s.update(k, a);
    assert(t.len() == s.len());
    if s.len() > 0 {
        assert(t[0].client == s[0].client);
        if s[0].client != client {
            if k == 0 {
                assert(t.drop_first() =~= s.drop_first());
            } else {
                assert(t.drop_first() =~= s.drop_first().update(k - 1, a));
                lemma_account_idx_update(s.drop_first(), k - 1, a, client);
            }
        }
    }
}

/// How appending one account moves the index of any client.
pub proof fn lemma_account_idx_push(s: Seq<AccountView>, a: AccountView, client: u16)
    ensures
        account_idx(s.push(a), client) == if account_idx(s, client) >= 0 {
            account_idx(s, client)
        } else if a.client == client {
            s.len() as int
        } else {
            -1
        },
    decreases s.len(),
{
    reveal_with_fuel(account_idx, 2);
    let t = s.push(a);
    if s.len() == 0 {
        assert(t.len() == 1);
        assert(t[0] == a);
        assert(t.drop_first() =~= Seq::<AccountView>::empty());
    } else {
        assert(t[0] == s[0]);
        if s[0].client != client {
            assert(t.drop_first() =~= s.drop_first().push(a));
            lemma_account_idx_push(s.drop_first(), a, client);
        }
    }
}

/// Get-or-create changes no client's account as the engine sees it: existing
/// accounts keep their state, and a created account is the fresh one.
pub proof fn lemma_acct_or_fresh_ensure(s: Seq<AccountView>, client: u16, c: u16)
    ensures
        acct_or_fresh(ensure_account(s, client), c) == acct_or_fresh(s, c),
{
    lemma_account_idx(s, c);
    if !has_account(s, client) {
        lemma_account_idx_push(s, AccountView::fresh(client), c);
        if !has_account(s, c) && client == c {
            lemma_account_idx(s.push(AccountView::fresh(client)), c);
        }
    }
}

impl Ledger {
    /// An empty account store.
    pub fn new() -> (l: Ledger)
        ensures
            l@ === Seq::<AccountView>::empty(),
    {
        let l = Ledger(Vec::new());
        proof {
            assert(l@ =~= Seq::<AccountView>::empty());
        }
        l
    }

    /// Index of the account for `client`, when the store holds one.
    pub fn find(&self, client: u16) -> (r: Option<usize>)
        ensures
            match r {
                Some(i) => i == account_idx(self@, client) && i < self@.len(),
                None => account_idx(self@, client) == -1,
            },
    {
        proof {
            lemma_account_idx(self@, client);
        }
        let n = self.0.len();
        let mut k: usize = 0;
        while k < n
            invariant
                n == self@.len(),
                0 <= k <= n,
                forall|m: int| 0 <= m < k ==> self@[m].client != client,
            decreases n - k,
        {
            if self.0[k].id.0 == client {
                proof {
                    assert(self@[k as int] == self.0@[k as int]@);
                    assert(self@[k as int].client == client);
                    lemma_account_idx(self@, client);
                    let idx = account_idx(self@, client);
                    if idx < k as int {
                        assert(self@[idx].client == client);
                    } else if idx > k as int {
                        assert(self@[k as int].client != client);
                    }
                }
                return Some(k);
            }
            k += 1;
        }
        None
    }

    /// Get-or-create: returns the index of the account for `client`, creating
    /// a fresh zero-balance account when none exists. Never fails.
    pub fn get_or_create(&mut self, client: Id) -> (i: usize)
        requires
            distinct_clients(old(self)@),
        ensures
            final(self)@ == ensure_account(old(self)@, client.0),
            distinct_clients(final(self)@),
            i == account_idx(final(self)@, client.0),
            0 <= i < final(self)@.len(),
            final(self)@[i as int] == acct_or_fresh(old(self)@, client.0),
    {
        proof {
            lemma_account_idx(self@, client.0);
        }
        match self.find(client.0) {
            Some(i) => i,
            None => {
                let ghost s0 = self@;
                let i = self.0.len();
                self.0.push(Account::new(&client));
                proof {
                    assert(self@ =~= s0.push(AccountView::fresh(client.0)));
                    lemma_account_idx_push(s0, AccountView::fresh(client.0), client.0);
                    assert forall|p: int, q: int|
                        0 <= p < q < self@.len() implies self@[p].client
                        != self@[q].client by {
                        lemma_account_idx(s0, client.0);
                    }
                }
                i
            },
        }
    }

    /// The end-of-run snapshot: a copy of every account, in store order.
    pub fn snapshot(&self) -> (v: Vec<Account>)
        ensures
            v@ == self.0@,
    {
        let n = self.0.len();
        let mut v: Vec<Account> = Vec::new();
        let mut k: usize = 0;
        while k < n
            invariant
                n == self.0@.len(),
                0 <= k <= n,
                v@ == self.0@.subrange(0, k as int),
            decreases n - k,
        {
            v.push(self.0[k]);
            proof {
                assert(v@ =~= self.0@.subrange(0, k as int + 1));
            }
            k += 1;
        }
        proof {
            assert(v@ =~= self.0@);
        }
        v
    }
}

} // verus!
