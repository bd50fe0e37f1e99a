use vstd::prelude::*;

use crate::account::AccountId;
use crate::errors::LotteryError;

verus! {

// ---------------------------------------------------------------------------
// The mathematical model of one balance mapping: a sequence of
// (account, balance) entries whose account keys are pairwise distinct.
// ---------------------------------------------------------------------------

/// No account key occurs twice.
pub open spec fn keys_distinct(s: Seq<(Seq<char>, u128)>) -> bool {
    forall|i: int, j: int| 0 <= i < j < s.len() ==> s[i].0 != s[j].0
}

/// Some entry carries the key `k`.
pub open spec fn contains_key(s: Seq<(Seq<char>, u128)>, k: Seq<char>) -> bool {
    exists|i: int| 0 <= i < s.len() && s[i].0 == k
}

/// The index of the first entry with key `k` (meaningful only when the key
/// is present).
pub open spec fn key_index(s: Seq<(Seq<char>, u128)>, k: Seq<char>) -> int
    decreases s.len(),
{
    if s.len() == 0 {
        0
    } else if s[0].0 == k {
        0
    } else {
        1 + key_index(s.drop_first(), k)
    }
}

/// The balance recorded for `k`; zero when the key is absent.
pub open spec fn balance_of(s: Seq<(Seq<char>, u128)>, k: Seq<char>) -> u128 {
    if contains_key(s, k) {
        s[key_index(s, k)].1
    } else {
        0
    }
}

/// The mapping after recording `(k, v)` with latest-deposit-wins semantics:
/// an entry for `k` is overwritten in place, a fresh key is appended.
pub open spec fn upsert(s: Seq<(Seq<char>, u128)>, k: Seq<char>, v: u128) -> Seq<
    (Seq<char>, u128),
> {
    if contains_key(s, k) {
        s.update(key_index(s, k), (k, v))
    } else {
        s.push((k, v))
    }
}

/// The sum of all recorded balances.
pub open spec fn sum_balances(s: Seq<(Seq<char>, u128)>) -> int
    decreases s.len(),
{
    if s.len() == 0 {
        0
    } else {
        sum_balances(s.drop_last()) + s.last().1
    }
}

// ---------------------------------------------------------------------------
// Facts about the model.
// ---------------------------------------------------------------------------

/// The first entry with key `k` is where `key_index` says, and nothing
/// before it carries `k`.
pub proof fn lemma_key_index_first(s: Seq<(Seq<char>, u128)>, k: Seq<char>)
    requires
        contains_key(s, k),
    ensures
        0 <= key_index(s, k) < s.len(),
        s[key_index(s, k)].0 == k,
        forall|j: int| 0 <= j < key_index(s, k) ==> s[j].0 != k,
    decreases s.len(),
{
    if s.len() == 0 {
    } else if s[0].0 == k {
    } else {
        let i: int = choose|i: int| 0 <= i < s.len() && s[i].0 == k;
        assert(s.drop_first()[i - 1].0 == k);
        lemma_key_index_first(s.drop_first(), k);
        assert forall|j: int| 0 <= j < key_index(s, k) implies s[j].0 != k by {
            if j > 0 {
                assert(s.drop_first()[j - 1].0 != k);
            }
        }
    }
}

/// If `i` is the first position whose key is `k`, then `key_index` is `i`.
pub proof fn lemma_key_index_at(s: Seq<(Seq<char>, u128)>, k: Seq<char>, i: int)
    requires
        0 <= i < s.len(),
        s[i].0 == k,
        forall|j: int| 0 <= j < i ==> s[j].0 != k,
    ensures
        contains_key(s, k),
        key_index(s, k) == i,
    decreases s.len(),
{
    assert(contains_key(s, k));
    if i == 0 {
    } else {
        assert(s[0].0 != k);
        assert(s.drop_first()[i - 1].0 == k);
        assert forall|j: int| 0 <= j < i - 1 implies s.drop_first()[j].0 != k by {
            assert(s[j + 1].0 != k);
        }
        lemma_key_index_at(s.drop_first(), k, i - 1);
    }
}

/// Extending a prefix by one entry grows its sum by that entry's balance.
pub proof fn lemma_sum_take_succ(s: Seq<(Seq<char>, u128)>, i: int)
    requires
        0 <= i < s.len(),
    ensures
        sum_balances(s.take(i + 1)) == sum_balances(s.take(i)) + s[i].1,
{
    assert(s.take(i + 1).drop_last() =~= s.take(i));
    assert(s.take(i + 1).last() == s[i]);
}

/// A prefix never sums to more than the whole.
pub proof fn lemma_sum_take_le(s: Seq<(Seq<char>, u128)>, i: int)
    requires
        0 <= i <= s.len(),
    ensures
        sum_balances(s.take(i)) <= sum_balances(s),
    decreases s.len() - i,
{
    if i == s.len() {
        assert(s.take(i) =~= s);
    } else {
        lemma_sum_take_succ(s, i);
        lemma_sum_take_le(s, i + 1);
    }
}

/// Overwriting one entry changes the sum by the difference of balances.
pub proof fn lemma_sum_update(s: Seq<(Seq<char>, u128)>, i: int, p: (Seq<char>, u128))
    requires
        0 <= i < s.len(),
    ensures
        sum_balances(s.update(i, p)) == sum_balances(s) - s[i].1 + p.1,
    decreases s.len(),
{
    if i == s.len() - 1 {
        assert(s.update(i, p).drop_last() =~= s.drop_last());
        assert(s.update(i, p).last() == p);
    } else {
        assert(s.update(i, p).drop_last() =~= s.drop_last().update(i, p));
        assert(s.update(i, p).last() == s.last());
        lemma_sum_update(s.drop_last(), i, p);
    }
}

/// Appending an entry grows the sum by its balance.
pub proof fn lemma_sum_push(s: Seq<(Seq<char>, u128)>, p: (Seq<char>, u128))
    ensures
        sum_balances(s.push(p)) == sum_balances(s) + p.1,
{
    assert(s.push(p).drop_last() =~= s);
    assert(s.push(p).last() == p);
}

/// Overwriting the balance at position `i` leaves the lookup of every other
/// key as it was.
proof fn lemma_lookup_after_update(
    s: Seq<(Seq<char>, u128)>,
    i: int,
    v: u128,
    k2: Seq<char>,
)
    requires
        0 <= i < s.len(),
        k2 != s[i].0,
    ensures
        contains_key(s.update(i, (s[i].0, v)), k2) == contains_key(s, k2),
        balance_of(s.update(i, (s[i].0, v)), k2) == balance_of(s, k2),
    decreases s.len(),
{
    let t = s.update(i, (s[i].0, v));
    assert forall|j: int| 0 <= j < s.len() implies t[j].0 == s[j].0 by {}
    if contains_key(s, k2) {
        let w: int = choose|w: int| 0 <= w < s.len() && s[w].0 == k2;
        assert(t[w].0 == k2);
        assert(contains_key(t, k2));
    }
    if contains_key(t, k2) {
        let w: int = choose|w: int| 0 <= w < t.len() && t[w].0 == k2;
        assert(s[w].0 == k2);
        assert(contains_key(s, k2));
    }
    if contains_key(s, k2) {
        lemma_key_index_first(s, k2);
        let w: int = key_index(s, k2);
        assert(w != i);
        assert forall|j: int| 0 <= j < w implies t[j].0 != k2 by {}
        lemma_key_index_at(t, k2, w);
        assert(t[w].1 == s[w].1);
    }
}

/// Appending an entry with a fresh key leaves the lookup of every other key
/// as it was.
proof fn lemma_lookup_after_push(
    s: Seq<(Seq<char>, u128)>,
    p: (Seq<char>, u128),
    k2: Seq<char>,
)
    requires
        k2 != p.0,
    ensures
        contains_key(s.push(p), k2) == contains_key(s, k2),
        balance_of(s.push(p), k2) == balance_of(s, k2),
{
    let t = s.push(p);
    if contains_key(s, k2) {
        let w: int = choose|w: int| 0 <= w < s.len() && s[w].0 == k2;
        assert(t[w].0 == k2);
        assert(contains_key(t, k2));
    }
    if contains_key(t, k2) {
        let w: int = choose|w: int| 0 <= w < t.len() && t[w].0 == k2;
        assert(w < s.len());
        assert(s[w].0 == k2);
        assert(contains_key(s, k2));
    }
    if contains_key(s, k2) {
        lemma_key_index_first(s, k2);
        let w: int = key_index(s, k2);
        assert forall|j: int| 0 <= j < w implies t[j].0 != k2 by {}
        lemma_key_index_at(t, k2, w);
        assert(t[w].1 == s[w].1);
    }
}

/// The law of recording a deposit under latest-deposit-wins semantics: the
/// written account alone shows the new amount, every other account keeps its
/// previous balance, one entry per account remains, and the total of
/// balances changes by the new amount minus the amount previously recorded
/// for that account.
pub proof fn lemma_upsert_properties(s: Seq<(Seq<char>, u128)>, k: Seq<char>, v: u128)
    requires
        keys_distinct(s),
    ensures
        keys_distinct(upsert(s, k, v)),
        contains_key(upsert(s, k, v), k),
        balance_of(upsert(s, k, v), k) == v,
        forall|k2: Seq<char>|
            k2 != k ==> contains_key(upsert(s, k, v), k2) == contains_key(s, k2),
        forall|k2: Seq<char>| k2 != k ==> balance_of(upsert(s, k, v), k2) == balance_of(s, k2),
        sum_balances(upsert(s, k, v)) == sum_balances(s) - balance_of(s, k) + v,
        upsert(s, k, v).len() == if contains_key(s, k) {
            s.len()
        } else {
            s.len() + 1
        },
{
    let t = upsert(s, k, v);
    if contains_key(s, k) {
        lemma_key_index_first(s, k);
        let i: int = key_index(s, k);
        lemma_sum_update(s, i, (k, v));
        assert forall|x: int, y: int| 0 <= x < y < t.len() implies t[x].0 != t[y].0 by {
            assert(t[x].0 == s[x].0);
            assert(t[y].0 == s[y].0);
        }
        lemma_key_index_at(t, k, i);
        assert(balance_of(t, k) == v);
        assert forall|k2: Seq<char>| k2 != k implies contains_key(t, k2) == contains_key(s, k2)
            && balance_of(t, k2) == balance_of(s, k2) by {
            assert(t == s.update(i, (s[i].0, v)));
            lemma_lookup_after_update(s, i, v, k2);
        }
    } else {
        lemma_sum_push(s, (k, v));
        assert(balance_of(s, k) == 0);
        assert forall|x: int, y: int| 0 <= x < y < t.len() implies t[x].0 != t[y].0 by {
            if y == s.len() {
                assert(t[x].0 == s[x].0);
                assert(!(0 <= x < s.len() && s[x].0 == k));
            } else {
                assert(t[x].0 == s[x].0);
                assert(t[y].0 == s[y].0);
            }
        }
        assert(t[s.len() as int].0 == k);
        assert forall|j: int| 0 <= j < s.len() implies t[j].0 != k by {
            assert(t[j].0 == s[j].0);
            assert(!(0 <= j < s.len() && s[j].0 == k));
        }
        lemma_key_index_at(t, k, s.len() as int);
        assert(balance_of(t, k) == v);
        assert forall|k2: Seq<char>| k2 != k implies contains_key(t, k2) == contains_key(s, k2)
            && balance_of(t, k2) == balance_of(s, k2) by {
            lemma_lookup_after_push(s, (k, v), k2);
        }
    }
}

// ---------------------------------------------------------------------------
// The executable mapping.
// ---------------------------------------------------------------------------

/// One balance mapping of the ledger: account keys are pairwise distinct and
/// a repeated deposit overwrites the earlier entry.
pub struct BalanceMap {
    pub entries: Vec<(AccountId, u128)>,
}

impl View for BalanceMap {
    type V = Seq<(Seq<char>, u128)>;

    open spec fn view(&self) -> Seq<(Seq<char>, u128)> {
        self.entries@.map_values(|e: (AccountId, u128)| (e.0@, e.1))
    }
}

impl BalanceMap {
    /// One entry per account.
    pub open spec fn wf(&self) -> bool {
        keys_distinct(self@)
    }

    pub fn new() -> (r: BalanceMap)
        ensures
            r@.len() == 0,
            r.wf(),
    {
        let r = BalanceMap { entries: Vec::new() };
        proof {
            assert(r@ =~= Seq::<(Seq<char>, u128)>::empty());
        }
        r
    }

    pub fn len(&self) -> (r: usize)
        ensures
            r == self@.len(),
    {
        self.entries.len()
    }

    /// Position of the first entry for the account, if any.
    fn index_of(&self, account: &AccountId) -> (r: Option<usize>)
        ensures
            match r {
                Some(i) => 0 <= i < self@.len() && self@[i as int].0 == account@ && (forall|
                    j: int,
                |
                    0 <= j < i ==> self@[j].0 != account@),
                None => !contains_key(self@, account@),
            },
    {
        let n: usize = self.entries.len();
        let mut i: usize = 0;
        while i < n
            invariant
                0 <= i <= n,
                n == self@.len(),
                n == self.entries@.len(),
                forall|j: int| 0 <= j < i ==> self@[j].0 != account@,
            decreases n - i,
        {
            let e = &self.entries[i];
            if e.0 == *account {
                assert(self@[i as int].0 == account@);
                return Some(i);
            }
            assert(self@[i as int].0 != account@);
            i = i + 1;
        }
        None
    }

    /// Records `(account, amount)`, overwriting any earlier entry for the
    /// same account.
    pub fn record(&mut self, account: AccountId, amount: u128)
        requires
            old(self).wf(),
        ensures
            final(self).wf(),
            final(self)@ == upsert(old(self)@, account@, amount),
    {
        proof {
            lemma_upsert_properties(self@, account@, amount);
        }
        match self.index_of(&account) {
            Some(i) => {
                proof {
                    lemma_key_index_at(self@, account@, i as int);
                }
                self.entries.set(i, (account, amount));
                proof {
                    assert(self@ =~= upsert(old(self)@, account@, amount));
                }
            },
            None => {
                self.entries.push((account, amount));
                proof {
                    assert(self@ =~= upsert(old(self)@, account@, amount));
                }
            },
        }
    }

    /// The balance recorded for the account, if any.
    pub fn balance(&self, account: &AccountId) -> (r: Option<u128>)
        ensures
            match r {
                Some(v) => contains_key(self@, account@) && v == balance_of(self@, account@),
                None => !contains_key(self@, account@),
            },
    {
        match self.index_of(account) {
            Some(i) => {
                proof {
                    lemma_key_index_at(self@, account@, i as int);
                }
                let e = &self.entries[i];
                Some(e.1)
            },
            None => None,
        }
    }

    /// The account stored at a position of the mapping's stable order.
    pub fn account_at(&self, i: usize) -> (r: AccountId)
        requires
            i < self@.len(),
        ensures
            r@ == self@[i as int].0,
    {
        let e = &self.entries[i];
        e.0.clone()
    }

    /// The sum of all recorded balances, overflow made a detectable failure.
    pub fn total_checked(&self) -> (r: Result<u128, LotteryError>)
        ensures
            r is Ok <==> sum_balances(self@) <= u128::MAX,
            r matches Ok(t) ==> t == sum_balances(self@),
            r matches Err(e) ==> e == LotteryError::ArithmeticOverflow,
    {
        let n: usize = self.entries.len();
        let mut acc: u128 = 0;
        let mut i: usize = 0;
        while i < n
            invariant
                0 <= i <= n,
                n == self@.len(),
                n == self.entries@.len(),
                acc == sum_balances(self@.take(i as int)),
            decreases n - i,
        {
            let e = &self.entries[i];
            let v: u128 = e.1;
            proof {
                assert(self@[i as int].1 == v);
                lemma_sum_take_succ(self@, i as int);
                lemma_sum_take_le(self@, i as int + 1);
            }
            if acc > u128::MAX - v {
                return Err(LotteryError::ArithmeticOverflow);
            }
            acc = acc + v;
            i = i + 1;
        }
        proof {
            assert(self@.take(n as int) =~= self@);
        }
        Ok(acc)
    }
}

} // verus!
