//! A model of the reserve-based balance ledger the registry's deposits live
//! on: each account holds a spendable (free), a reserved and a locked amount.
use vstd::prelude::*;
use vstd::pervasive::VecAdditionalExecFns;

use crate::types::AccountId;
use crate::types::Balance;
use crate::types::Error;

verus! {

/// One account's balances.
#[derive(Clone, Copy, PartialEq, Eq, Structural, Debug)]
pub struct AccountData {
    /// Spendable balance.
    pub free: Balance,
    /// Balance locked behind reservations; still owned by the account.
    pub reserved: Balance,
    /// The amount a lock keeps unspendable out of the free balance.
    pub locked: Balance,
}

impl AccountData {
    pub open spec fn empty() -> AccountData {
        AccountData { free: 0, reserved: 0, locked: 0 }
    }
}

/// The smaller of two mathematical integers.
pub open spec fn min_bal(a: int, b: int) -> int {
    if a < b {
        a
    } else {
        b
    }
}

/// Multiplication on balances that stops at the largest representable value.
pub open spec fn sat_mul_u64(a: u64, b: u64) -> u64 {
    if a * b <= u64::MAX {
        (a * b) as u64
    } else {
        u64::MAX
    }
}

/// Addition on balances that stops at the largest representable value.
pub open spec fn sat_add_u64(a: u64, b: u64) -> u64 {
    if a + b <= u64::MAX {
        (a + b) as u64
    } else {
        u64::MAX
    }
}

pub open spec fn find_account(s: Seq<(AccountId, AccountData)>, a: AccountId) -> Option<
    AccountData,
>
    decreases s.len(),
{
    if s.len() == 0 {
        Option::None
    } else if s[0].0 == a {
        Option::Some(s[0].1)
    } else {
        find_account(s.drop_first(), a)
    }
}

/// If a key is absent, no entry carries it.
pub proof fn lemma_find_account_none(s: Seq<(AccountId, AccountData)>, a: AccountId)
    requires
        find_account(s, a) is None,
    ensures
        forall|i: int| 0 <= i < s.len() ==> (#[trigger] s[i]).0 != a,
    decreases s.len(),
{
    if s.len() > 0 {
        lemma_find_account_none(s.drop_first(), a);
        assert forall|i: int| 0 <= i < s.len() implies (#[trigger] s[i]).0 != a by {
            if i > 0 {
                assert(s[i] == s.drop_first()[i - 1]);
            }
        }
    }
}

/// Skipping entries that do not carry the key leaves the lookup unchanged.
pub proof fn lemma_find_account_skip(s: Seq<(AccountId, AccountData)>, a: AccountId, i: int)
    requires
        0 <= i <= s.len(),
        forall|k: int| 0 <= k < i ==> (#[trigger] s[k]).0 != a,
    ensures
        find_account(s, a) == find_account(s.skip(i), a),
    decreases i,
{
    if i > 0 {
        assert(s[0].0 != a);
        assert(s.drop_first() =~= s.skip(1));
        lemma_find_account_skip(s.skip(1), a, i - 1);
        assert(s.skip(1).skip(i - 1) =~= s.skip(i));
    } else {
        assert(s.skip(0) =~= s);
    }
}

/// How an in-place update of the entry holding key `a` changes lookups.
pub proof fn lemma_find_account_update(
    s: Seq<(AccountId, AccountData)>,
    i: int,
    a: AccountId,
    d: AccountData,
    b: AccountId,
)
    requires
        forall|p: int, q: int| 0 <= p < q < s.len() ==> (#[trigger] s[p]).0 != (#[trigger] s[q]).0,
        0 <= i < s.len(),
        s[i].0 == a,
    ensures
        find_account(s.update(i, (a, d)), b) == if b == a {
            Option::Some(d)
        } else {
            find_account(s, b)
        },
    decreases i,
{
    let t = s.update(i, (a, d));
    if i == 0 {
        assert(t[0] == (a, d));
        if b != a {
            assert(t.drop_first() =~= s.drop_first());
        }
    } else {
        assert(t[0] == s[0]);
        assert(s[0].0 != a);
        assert(t.drop_first() =~= s.drop_first().update(i - 1, (a, d)));
        assert forall|p: int, q: int|
            0 <= p < q < s.drop_first().len() implies (#[trigger] s.drop_first()[p]).0 != (
        #[trigger] s.drop_first()[q]).0 by {
            assert(s.drop_first()[p] == s[p + 1]);
            assert(s.drop_first()[q] == s[q + 1]);
        }
        lemma_find_account_update(s.drop_first(), i - 1, a, d, b);
        if b == s[0].0 {
        }
    }
}

/// How appending a fresh key changes lookups.
pub proof fn lemma_find_account_push(
    s: Seq<(AccountId, AccountData)>,
    a: AccountId,
    d: AccountData,
    b: AccountId,
)
    requires
        find_account(s, a) is None,
    ensures
        find_account(s.push((a, d)), b) == if b == a {
            Option::Some(d)
        } else {
            find_account(s, b)
        },
    decreases s.len(),
{
    let t = s.push((a, d));
    if s.len() == 0 {
        assert(t[0] == (a, d));
        assert(t.drop_first() =~= Seq::<(AccountId, AccountData)>::empty());
        assert(find_account(t.drop_first(), b) is None);
        assert(find_account(s, b) is None);
    } else {
        assert(t[0] == s[0]);
        assert(s[0].0 != a);
        assert(t.drop_first() =~= s.drop_first().push((a, d)));
        lemma_find_account_push(s.drop_first(), a, d, b);
    }
}

/// A reserve-based balance ledger keyed by account.
#[derive(PartialEq, Eq, Debug)]
pub struct Ledger {
    pub accounts: Vec<(AccountId, AccountData)>,
}

impl Ledger {
    /// Every account appears at most once.
    pub open spec fn wf(self) -> bool {
        forall|p: int, q: int|
            0 <= p < q < self.accounts@.len() ==> (#[trigger] self.accounts@[p]).0 != (
            #[trigger] self.accounts@[q]).0
    }

    /// The balances of an account; untouched accounts hold all zeroes.
    pub open spec fn account_of(self, a: AccountId) -> AccountData {
        match find_account(self.accounts@, a) {
            Option::Some(d) => d,
            Option::None => AccountData::empty(),
        }
    }

    pub open spec fn free_of(self, a: AccountId) -> Balance {
        self.account_of(a).free
    }

    pub open spec fn reserved_of(self, a: AccountId) -> Balance {
        self.account_of(a).reserved
    }

    pub open spec fn locked_of(self, a: AccountId) -> Balance {
        self.account_of(a).locked
    }

    pub fn new() -> (r: Ledger)
        ensures
            r.wf(),
            r.accounts@.len() == 0,
            forall|a: AccountId| r.account_of(a) == AccountData::empty(),
    {
        Ledger { accounts: Vec::new() }
    }

    /// Reads one account's balances.
    pub fn get_account(&self, a: AccountId) -> (d: AccountData)
        ensures
            d == self.account_of(a),
    {
        let n = self.accounts.len();
        let mut i: usize = 0;
        while i < n
            invariant
                i <= n,
                n == self.accounts@.len(),
                forall|k: int| 0 <= k < i ==> (#[trigger] self.accounts@[k]).0 != a,
            decreases n - i,
        {
            let (key, data) = self.accounts[i];
            if key == a {
                proof {
                    lemma_find_account_skip(self.accounts@, a, i as int);
                    assert(self.accounts@.skip(i as int)[0] == self.accounts@[i as int]);
                }
                return data;
            }
            i = i + 1;
        }
        proof {
            lemma_find_account_skip(self.accounts@, a, n as int);
        }
        AccountData { free: 0, reserved: 0, locked: 0 }
    }

    /// Writes one account's balances, leaving every other account unchanged.
    pub fn set_account(&mut self, a: AccountId, d: AccountData)
        requires
            old(self).wf(),
        ensures
            final(self).wf(),
            final(self).account_of(a) == d,
            forall|b: AccountId| b != a ==> final(self).account_of(b) == old(self).account_of(b),
    {
        let n = self.accounts.len();
        let mut i: usize = 0;
        while i < n
            invariant
                i <= n,
                n == self.accounts@.len(),
                self.wf(),
                *self == *old(self),
                forall|k: int| 0 <= k < i ==> (#[trigger] self.accounts@[k]).0 != a,
            decreases n - i,
        {
            let (key, _) = self.accounts[i];
            if key == a {
                proof {
                    lemma_find_account_update(self.accounts@, i as int, a, d, a);
                }
                let ghost pre = self.accounts@;
                self.accounts.set(i, (a, d));
                proof {
                    assert forall|b: AccountId| b != a implies final(self).account_of(b) == old(
                        self,
                    ).account_of(b) by {
                        lemma_find_account_update(pre, i as int, a, d, b);
                    }
                    assert forall|p: int, q: int|
                        0 <= p < q < self.accounts@.len() implies (
                    #[trigger] self.accounts@[p]).0 != (#[trigger] self.accounts@[q]).0 by {
                        assert(pre[p].0 != pre[q].0);
                    }
                }
                return ;
            }
            i = i + 1;
        }
        proof {
            lemma_find_account_skip(self.accounts@, a, n as int);
        }
        let ghost pre = self.accounts@;
        self.accounts.push((a, d));
        proof {
            assert forall|b: AccountId| true implies find_account(self.accounts@, b)
                == find_account(pre.push((a, d)), b) by {
                assert(self.accounts@ =~= pre.push((a, d)));
            }
            lemma_find_account_push(pre, a, d, a);
            assert forall|b: AccountId| b != a implies final(self).account_of(b) == old(
                self,
            ).account_of(b) by {
                lemma_find_account_push(pre, a, d, b);
            }
            lemma_find_account_none(pre, a);
            assert forall|p: int, q: int|
                0 <= p < q < self.accounts@.len() implies (#[trigger] self.accounts@[p]).0 != (
            #[trigger] self.accounts@[q]).0 by {
                if q < pre.len() {
                    assert(pre[p].0 != pre[q].0);
                } else {
                    assert(self.accounts@[q] == (a, d));
                    assert(pre[p].0 != a);
                }
            }
        }
    }

    /// Whether a reservation of `amount` can succeed: the free balance covers
    /// it, what remains free still covers the lock, and the reserved total
    /// stays representable.
    pub open spec fn can_reserve(self, who: AccountId, amount: int) -> bool {
        &&& amount <= self.free_of(who)
        &&& self.free_of(who) - amount >= self.locked_of(who)
        &&& self.reserved_of(who) + amount <= u64::MAX
    }

    /// Moves `amount` from free to reserved, or fails leaving the ledger
    /// unchanged.
    pub fn reserve(&mut self, who: AccountId, amount: Balance) -> (r: Result<(), Error>)
        requires
            old(self).wf(),
        ensures
            final(self).wf(),
            match r {
                Result::Ok(()) => {
                    &&& old(self).can_reserve(who, amount as int)
                    &&& final(self).account_of(who) == (AccountData {
                        free: (old(self).free_of(who) - amount) as u64,
                        reserved: (old(self).reserved_of(who) + amount) as u64,
                        locked: old(self).locked_of(who),
                    })
                    &&& forall|b: AccountId|
                        b != who ==> final(self).account_of(b) == old(self).account_of(b)
                },
                Result::Err(e) => {
                    &&& e == Error::InsufficientBalance
                    &&& !old(self).can_reserve(who, amount as int)
                    &&& *final(self) == *old(self)
                },
            },
    {
        let d = self.get_account(who);
        if amount > d.free || d.free - amount < d.locked || u64::MAX - amount < d.reserved {
            return Result::Err(Error::InsufficientBalance);
        }
        self.set_account(
            who,
            AccountData { free: d.free - amount, reserved: d.reserved + amount, locked: d.locked },
        );
        Result::Ok(())
    }

    /// Frees up to `amount` of the reserved balance; the freed part is added
    /// back to the free balance, stopping at the largest representable value.
    pub fn unreserve(&mut self, who: AccountId, amount: Balance)
        requires
            old(self).wf(),
        ensures
            final(self).wf(),
            final(self).account_of(who) == (AccountData {
                free: sat_add_u64(
                    old(self).free_of(who),
                    min_bal(amount as int, old(self).reserved_of(who) as int) as u64,
                ),
                reserved: (old(self).reserved_of(who) - min_bal(
                    amount as int,
                    old(self).reserved_of(who) as int,
                )) as u64,
                locked: old(self).locked_of(who),
            }),
            forall|b: AccountId| b != who ==> final(self).account_of(b) == old(self).account_of(b),
    {
        let d = self.get_account(who);
        let moved = if amount < d.reserved {
            amount
        } else {
            d.reserved
        };
        let new_free = if u64::MAX - moved >= d.free {
            d.free + moved
        } else {
            u64::MAX
        };
        self.set_account(
            who,
            AccountData { free: new_free, reserved: d.reserved - moved, locked: d.locked },
        );
    }

    /// Whether a transfer can succeed: the sender's free balance covers it
    /// without breaking the lock, and the recipient's balance stays
    /// representable.
    pub open spec fn can_transfer(self, from: AccountId, to: AccountId, amount: int) -> bool {
        &&& amount <= self.free_of(from)
        &&& self.free_of(from) - amount >= self.locked_of(from)
        &&& (from == to || self.free_of(to) + amount <= u64::MAX)
    }

    /// Moves `amount` between the free balances of two accounts, or fails
    /// leaving the ledger unchanged. A transfer to oneself changes nothing.
    pub fn transfer(&mut self, from: AccountId, to: AccountId, amount: Balance) -> (r: Result<
        (),
        Error,
    >)
        requires
            old(self).wf(),
        ensures
            final(self).wf(),
            match r {
                Result::Ok(()) => {
                    &&& old(self).can_transfer(from, to, amount as int)
                    &&& if from == to {
                        *final(self) == *old(self)
                    } else {
                        &&& final(self).account_of(from) == (AccountData {
                            free: (old(self).free_of(from) - amount) as u64,
                            reserved: old(self).reserved_of(from),
                            locked: old(self).locked_of(from),
                        })
                        &&& final(self).account_of(to) == (AccountData {
                            free: (old(self).free_of(to) + amount) as u64,
                            reserved: old(self).reserved_of(to),
                            locked: old(self).locked_of(to),
                        })
                        &&& forall|b: AccountId|
                            b != from && b != to ==> final(self).account_of(b) == old(
                                self,
                            ).account_of(b)
                    }
                },
                Result::Err(e) => {
                    &&& e == Error::InsufficientBalance
                    &&& !old(self).can_transfer(from, to, amount as int)
                    &&& *final(self) == *old(self)
                },
            },
    {
        let src = self.get_account(from);
        if amount > src.free || src.free - amount < src.locked {
            return Result::Err(Error::InsufficientBalance);
        }
        if from == to {
            return Result::Ok(());
        }
        let dst = self.get_account(to);
        if u64::MAX - amount < dst.free {
            return Result::Err(Error::InsufficientBalance);
        }
        self.set_account(
            from,
            AccountData { free: src.free - amount, reserved: src.reserved, locked: src.locked },
        );
        self.set_account(
            to,
            AccountData { free: dst.free + amount, reserved: dst.reserved, locked: dst.locked },
        );
        Result::Ok(())
    }

    /// Sets the locked amount of an account; the lock identifier is kept for
    /// call-shape parity and ignored, the model holds a single lock slot.
    pub fn set_lock(&mut self, _id: [u8; 8], who: AccountId, amount: Balance)
        requires
            old(self).wf(),
        ensures
            final(self).wf(),
            final(self).account_of(who) == (AccountData {
                free: old(self).free_of(who),
                reserved: old(self).reserved_of(who),
                locked: amount,
            }),
            forall|b: AccountId| b != who ==> final(self).account_of(b) == old(self).account_of(b),
    {
        let d = self.get_account(who);
        self.set_account(
            who,
            AccountData { free: d.free, reserved: d.reserved, locked: amount },
        );
    }

    /// Sets the free balance of an account outright, as a test harness does.
    pub fn set_free(&mut self, who: AccountId, amount: Balance)
        requires
            old(self).wf(),
        ensures
            final(self).wf(),
            final(self).account_of(who) == (AccountData {
                free: amount,
                reserved: old(self).reserved_of(who),
                locked: old(self).locked_of(who),
            }),
            forall|b: AccountId| b != who ==> final(self).account_of(b) == old(self).account_of(b),
    {
        let d = self.get_account(who);
        self.set_account(
            who,
            AccountData { free: amount, reserved: d.reserved, locked: d.locked },
        );
    }
}

} // verus!
