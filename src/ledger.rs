//! The internal fungible token: total supply and per-holder balances.
use vstd::prelude::*;

use crate::error::ContractError;
use crate::order::{compare_identities, key_of};

verus! {

/// One holder's balance.
pub struct Holding {
    pub holder: String,
    pub amount: u128,
}

/// Balances of the internal token, one entry per holder, and their total.
pub struct Ledger {
    pub total_supply: u128,
    pub balances: Vec<Holding>,
}

/// Sum of the amounts of a run of entries.
pub open spec fn entries_sum(s: Seq<Holding>) -> nat
    decreases s.len(),
{
    if s.len() == 0 {
        0
    } else {
        (entries_sum(s.drop_last()) + s.last().amount) as nat
    }
}

/// The amount recorded for key `h` (zero when there is none).
pub open spec fn entries_balance(s: Seq<Holding>, h: Seq<u8>) -> nat
    decreases s.len(),
{
    if s.len() == 0 {
        0
    } else if key_of(s.last().holder@) == h {
        s.last().amount as nat
    } else {
        entries_balance(s.drop_last(), h)
    }
}

/// No two entries are keyed alike.
pub open spec fn entries_unique(s: Seq<Holding>) -> bool {
    forall|i: int, j: int|
        0 <= i < j < s.len() ==> key_of(#[trigger] s[i].holder@) != key_of(#[trigger] s[j].holder@)
}

/// The keys of a run of entries, in order.
pub open spec fn entries_keys(s: Seq<Holding>) -> Seq<Seq<u8>> {
    s.map_values(|e: Holding| key_of(e.holder@))
}

/// Sum of `f` over a sequence of keys.
pub open spec fn sum_over(ks: Seq<Seq<u8>>, f: spec_fn(Seq<u8>) -> nat) -> nat
    decreases ks.len(),
{
    if ks.len() == 0 {
        0
    } else {
        sum_over(ks.drop_last(), f) + f(ks.last())
    }
}

proof fn lemma_balance_at(s: Seq<Holding>, i: int)
    requires
        entries_unique(s),
        0 <= i < s.len(),
    ensures
        entries_balance(s, key_of(s[i].holder@)) == s[i].amount,
    decreases s.len(),
{
    if i < s.len() - 1 {
        assert(key_of(s[i].holder@) != key_of(s[s.len() - 1].holder@));
        assert(s.drop_last()[i] == s[i]);
        lemma_balance_at(s.drop_last(), i);
    }
}

proof fn lemma_balance_absent(s: Seq<Holding>, h: Seq<u8>)
    requires
        forall|i: int| 0 <= i < s.len() ==> key_of(#[trigger] s[i].holder@) != h,
    ensures
        entries_balance(s, h) == 0,
    decreases s.len(),
{
    if s.len() > 0 {
        assert(key_of(s[s.len() - 1].holder@) != h);
        assert forall|i: int| 0 <= i < s.drop_last().len() implies key_of(
            #[trigger] s.drop_last()[i].holder@,
        ) != h by {
            assert(s.drop_last()[i] == s[i]);
        }
        lemma_balance_absent(s.drop_last(), h);
    }
}

proof fn lemma_sum_update(s: Seq<Holding>, i: int, x: Holding)
    requires
        0 <= i < s.len(),
    ensures
        entries_sum(s.update(i, x)) + s[i].amount == entries_sum(s) + x.amount,
    decreases s.len(),
{
    if i < s.len() - 1 {
        assert(s.update(i, x).drop_last() =~= s.drop_last().update(i, x));
        lemma_sum_update(s.drop_last(), i, x);
    } else {
        assert(s.update(i, x).drop_last() =~= s.drop_last());
    }
}

proof fn lemma_balance_update(s: Seq<Holding>, i: int, x: Holding, h: Seq<u8>)
    requires
        entries_unique(s),
        0 <= i < s.len(),
        key_of(x.holder@) == key_of(s[i].holder@),
    ensures
        entries_balance(s.update(i, x), h) == if h == key_of(x.holder@) {
            x.amount as nat
        } else {
            entries_balance(s, h)
        },
    decreases s.len(),
{
    if i < s.len() - 1 {
        assert(s.update(i, x).drop_last() =~= s.drop_last().update(i, x));
        assert(key_of(s[i].holder@) != key_of(s[s.len() - 1].holder@));
        assert(s.drop_last()[i] == s[i]);
        lemma_balance_update(s.drop_last(), i, x, h);
    } else {
        assert(s.update(i, x).drop_last() =~= s.drop_last());
    }
}

proof fn lemma_unique_drop_last(s: Seq<Holding>)
    requires
        entries_unique(s),
        s.len() > 0,
    ensures
        entries_unique(s.drop_last()),
{
    assert forall|i: int, j: int| 0 <= i < j < s.drop_last().len() implies key_of(
        #[trigger] s.drop_last()[i].holder@,
    ) != key_of(#[trigger] s.drop_last()[j].holder@) by {
        assert(s.drop_last()[i] == s[i]);
        assert(s.drop_last()[j] == s[j]);
    }
}

proof fn lemma_balance_le_sum(s: Seq<Holding>, h: Seq<u8>)
    ensures
        entries_balance(s, h) <= entries_sum(s),
    decreases s.len(),
{
    if s.len() > 0 {
        lemma_balance_le_sum(s.drop_last(), h);
    }
}

proof fn lemma_two_balances_le_sum(s: Seq<Holding>, h1: Seq<u8>, h2: Seq<u8>)
    requires
        entries_unique(s),
        h1 != h2,
    ensures
        entries_balance(s, h1) + entries_balance(s, h2) <= entries_sum(s),
    decreases s.len(),
{
    if s.len() > 0 {
        lemma_unique_drop_last(s);
        lemma_two_balances_le_sum(s.drop_last(), h1, h2);
        lemma_balance_le_sum(s.drop_last(), h1);
        lemma_balance_le_sum(s.drop_last(), h2);
    }
}

proof fn lemma_sum_over_congruent(ks: Seq<Seq<u8>>, f: spec_fn(Seq<u8>) -> nat, g: spec_fn(Seq<u8>) -> nat)
    requires
        forall|i: int| 0 <= i < ks.len() ==> f(#[trigger] ks[i]) == g(ks[i]),
    ensures
        sum_over(ks, f) == sum_over(ks, g),
    decreases ks.len(),
{
    if ks.len() > 0 {
        assert(f(ks[ks.len() - 1]) == g(ks[ks.len() - 1]));
        assert forall|i: int| 0 <= i < ks.drop_last().len() implies f(#[trigger] ks.drop_last()[i])
            == g(ks.drop_last()[i]) by {
            assert(ks.drop_last()[i] == ks[i]);
        }
        lemma_sum_over_congruent(ks.drop_last(), f, g);
    }
}

proof fn lemma_sum_is_sum_of_balances(s: Seq<Holding>)
    requires
        entries_unique(s),
    ensures
        entries_sum(s) == sum_over(entries_keys(s), |h: Seq<u8>| entries_balance(s, h)),
    decreases s.len(),
{
    if s.len() > 0 {
        let d = s.drop_last();
        let last = key_of(s.last().holder@);
        lemma_unique_drop_last(s);
        lemma_sum_is_sum_of_balances(d);
        assert(entries_keys(s).drop_last() =~= entries_keys(d));
        let f = |h: Seq<u8>| entries_balance(s, h);
        let g = |h: Seq<u8>| entries_balance(d, h);
        assert forall|i: int| 0 <= i < entries_keys(d).len() implies f(
            #[trigger] entries_keys(d)[i],
        ) == g(entries_keys(d)[i]) by {
            assert(d[i] == s[i]);
            assert(key_of(s[i].holder@) != last);
        }
        lemma_sum_over_congruent(entries_keys(d), f, g);
        lemma_balance_at(s, s.len() - 1);
    }
}

proof fn lemma_sum_prefix_le(s: Seq<Holding>, n: int)
    requires
        0 <= n <= s.len(),
    ensures
        entries_sum(s.subrange(0, n)) <= entries_sum(s),
    decreases s.len(),
{
    if n < s.len() {
        assert(s.drop_last().subrange(0, n) =~= s.subrange(0, n));
        lemma_sum_prefix_le(s.drop_last(), n);
    } else {
        assert(s.subrange(0, n) =~= s);
    }
}

impl Ledger {
    /// The ledger is well formed: one entry per holder, and the total supply
    /// is the sum of the balances.
    pub open spec fn wf(&self) -> bool {
        &&& entries_unique(self.balances@)
        &&& self.total_supply == entries_sum(self.balances@)
    }

    /// The balance of the holder keyed `h`.
    pub open spec fn balance(&self, h: Seq<u8>) -> nat {
        entries_balance(self.balances@, h)
    }

    /// The keys of every holder on record.
    pub open spec fn holder_keys(&self) -> Seq<Seq<u8>> {
        entries_keys(self.balances@)
    }

    /// Every balance but that of the holders keyed `a` or `b` is the same in both ledgers.
    pub open spec fn same_except(&self, other: &Ledger, a: Seq<u8>, b: Seq<u8>) -> bool {
        forall|h: Seq<u8>| h != a && h != b ==> #[trigger] self.balance(h) == other.balance(h)
    }

    /// An empty ledger.
    pub fn new() -> (r: Ledger)
        ensures
            r.wf(),
            r.total_supply == 0,
            forall|h: Seq<u8>| #[trigger] r.balance(h) == 0,
    {
        Ledger { total_supply: 0, balances: Vec::new() }
    }

    fn find(&self, who: &String) -> (r: Option<usize>)
        requires
            self.wf(),
        ensures
            match r {
                Some(i) => i < self.balances@.len() && key_of(self.balances@[i as int].holder@)
                    == key_of(who@),
                None => forall|i: int|
                    0 <= i < self.balances@.len() ==> key_of(#[trigger] self.balances@[i].holder@)
                        != key_of(who@),
            },
    {
        let mut i: usize = 0;
        while i < self.balances.len()
            invariant
                i <= self.balances@.len(),
                forall|j: int|
                    0 <= j < i ==> key_of(#[trigger] self.balances@[j].holder@) != key_of(who@),
            decreases self.balances@.len() - i,
        {
            if compare_identities(&self.balances[i].holder, who) == 0 {
                return Some(i);
            }
            i = i + 1;
        }
        None
    }

    /// The balance of `who`; zero for an unknown holder.
    pub fn balance_of(&self, who: &String) -> (r: u128)
        requires
            self.wf(),
        ensures
            r == self.balance(key_of(who@)),
    {
        match self.find(who) {
            Some(i) => {
                proof {
                    lemma_balance_at(self.balances@, i as int);
                }
                self.balances[i].amount
            },
            None => {
                proof {
                    lemma_balance_absent(self.balances@, key_of(who@));
                }
                0
            },
        }
    }

    /// Whether the ledger is well formed; for a ledger read back from storage.
    pub fn check_well_formed(&self) -> (r: bool)
        ensures
            r == self.wf(),
    {
        let s = &self.balances;
        let mut sum: u128 = 0;
        let mut i: usize = 0;
        while i < s.len()
            invariant
                s@ == self.balances@,
                i <= s@.len(),
                sum == entries_sum(s@.subrange(0, i as int)),
                entries_unique(s@.subrange(0, i as int)),
            decreases s@.len() - i,
        {
            let mut j: usize = 0;
            while j < i
                invariant
                    s@ == self.balances@,
                    j <= i < s@.len(),
                    forall|m: int| 0 <= m < j ==> key_of(#[trigger] s@[m].holder@) != key_of(s@[i as int].holder@),
                decreases i - j,
            {
                if compare_identities(&s[j].holder, &s[i].holder) == 0 {
                    assert(key_of(s@[j as int].holder@) == key_of(s@[i as int].holder@));
                    assert(!entries_unique(s@));
                    return false;
                }
                j = j + 1;
            }
            assert(s@.subrange(0, i + 1).drop_last() =~= s@.subrange(0, i as int));
            assert(s@.subrange(0, i + 1).last() == s@[i as int]);
            sum = match sum.checked_add(s[i].amount) {
                Some(x) => x,
                None => {
                    proof {
                        lemma_sum_prefix_le(s@, i + 1);
                    }
                    return false;
                },
            };
            assert forall|a: int, b: int| 0 <= a < b < i + 1 implies key_of(
                #[trigger] s@.subrange(0, i + 1)[a].holder@,
            ) != key_of(#[trigger] s@.subrange(0, i + 1)[b].holder@) by {
                assert(s@.subrange(0, i + 1)[a] == s@[a]);
                assert(s@.subrange(0, i + 1)[b] == s@[b]);
                if b < i {
                    assert(s@.subrange(0, i as int)[a] == s@[a]);
                    assert(s@.subrange(0, i as int)[b] == s@[b]);
                }
            }
            i = i + 1;
        }
        assert(s@.subrange(0, i as int) =~= s@);
        sum == self.total_supply
    }

    /// The total supply of the token.
    pub fn total_supply(&self) -> (r: u128)
        ensures
            r == self.total_supply,
    {
        self.total_supply
    }

    /// Credits `amount` new tokens to `to`. Fails with `Overflow`, changing
    /// nothing, where the balance or the total supply would pass the 128-bit range.
    pub fn mint(&mut self, to: &String, amount: u128) -> (r: Result<(), ContractError>)
        requires
            old(self).wf(),
        ensures
            final(self).wf(),
            r is Err <==> old(self).total_supply + amount > u128::MAX,
            r is Err ==> r == Err::<(), ContractError>(ContractError::Overflow) && *final(self)
                == *old(self),
            r is Ok ==> {
                &&& final(self).total_supply == old(self).total_supply + amount
                &&& final(self).balance(key_of(to@)) == old(self).balance(key_of(to@)) + amount
                &&& final(self).same_except(old(self), key_of(to@), key_of(to@))
            },
    {
        let ghost s = self.balances@;
        proof {
            lemma_balance_le_sum(s, key_of(to@));
        }
        let total = match self.total_supply.checked_add(amount) {
            Some(t) => t,
            None => return Err(ContractError::Overflow),
        };
        match self.find(to) {
            Some(i) => {
                proof {
                    lemma_balance_at(s, i as int);
                }
                let cur = self.balances[i].amount;
                let x = Holding { holder: to.clone(), amount: cur + amount };
                proof {
                    lemma_sum_update(s, i as int, x);
                    assert forall|h: Seq<u8>| true implies entries_balance(s.update(i as int, x), h)
                        == if h == key_of(x.holder@) {
                        x.amount as nat
                    } else {
                        entries_balance(s, h)
                    } by {
                        lemma_balance_update(s, i as int, x, h);
                    }
                    assert forall|a: int, b: int| 0 <= a < b < s.len() implies key_of(
                        #[trigger] s.update(i as int, x)[a].holder@,
                    ) != key_of(#[trigger] s.update(i as int, x)[b].holder@) by {
                        assert(s[a] == s.update(i as int, x)[a] || a == i);
                    }
                }
                self.balances.set(i, x);
            },
            None => {
                proof {
                    lemma_balance_absent(s, key_of(to@));
                }
                let x = Holding { holder: to.clone(), amount };
                self.balances.push(x);
                proof {
                    assert(self.balances@.drop_last() =~= s);
                    assert forall|a: int, b: int| 0 <= a < b < self.balances@.len() implies key_of(
                        #[trigger] self.balances@[a].holder@,
                    ) != key_of(#[trigger] self.balances@[b].holder@) by {
                        if b == s.len() {
                            assert(self.balances@[a] == s[a]);
                        } else {
                            assert(self.balances@[a] == s[a]);
                            assert(self.balances@[b] == s[b]);
                        }
                    }
                }
            },
        }
        self.total_supply = total;
        Ok(())
    }

    /// Moves `amount` tokens from `from` to `to`; the total supply is unchanged.
    /// Fails with `InvalidAmount` for a zero amount and with
    /// `InsufficientBalance` where `from` holds less; a failure changes nothing.
    pub fn transfer(&mut self, from: &String, to: &String, amount: u128) -> (r: Result<
        (),
        ContractError,
    >)
        requires
            old(self).wf(),
        ensures
            final(self).wf(),
            final(self).total_supply == old(self).total_supply,
            r == Err::<(), ContractError>(ContractError::InvalidAmount) <==> amount == 0,
            r == Err::<(), ContractError>(ContractError::InsufficientBalance) <==> amount > 0
                && old(self).balance(key_of(from@)) < amount,
            r is Ok <==> amount > 0 && old(self).balance(key_of(from@)) >= amount,
            r is Err ==> *final(self) == *old(self),
            r is Ok && key_of(from@) != key_of(to@) ==> {
                &&& final(self).balance(key_of(from@)) == old(self).balance(key_of(from@)) - amount
                &&& final(self).balance(key_of(to@)) == old(self).balance(key_of(to@)) + amount
                &&& final(self).same_except(old(self), key_of(from@), key_of(to@))
            },
            r is Ok && key_of(from@) == key_of(to@) ==> *final(self) == *old(self),
    {
        if amount == 0 {
            return Err(ContractError::InvalidAmount);
        }
        let from_bal = self.balance_of(from);
        if from_bal < amount {
            return Err(ContractError::InsufficientBalance);
        }
        if compare_identities(from, to) == 0 {
            return Ok(());
        }
        let ghost s0 = self.balances@;
        proof {
            lemma_two_balances_le_sum(s0, key_of(from@), key_of(to@));
        }
        let i = match self.find(from) {
            Some(i) => i,
            None => {
                proof {
                    lemma_balance_absent(s0, key_of(from@));
                }
                return Err(ContractError::InsufficientBalance);
            },
        };
        proof {
            lemma_balance_at(s0, i as int);
        }
        let x = Holding { holder: from.clone(), amount: from_bal - amount };
        self.balances.set(i, x);
        proof {
            lemma_sum_update(s0, i as int, x);
            assert forall|h: Seq<u8>| true implies entries_balance(s0.update(i as int, x), h) == if h
                == key_of(x.holder@) {
                x.amount as nat
            } else {
                entries_balance(s0, h)
            } by {
                lemma_balance_update(s0, i as int, x, h);
            }
            assert forall|a: int, b: int| 0 <= a < b < s0.len() implies key_of(
                #[trigger] s0.update(i as int, x)[a].holder@,
            ) != key_of(#[trigger] s0.update(i as int, x)[b].holder@) by {
                assert(s0[a] == s0.update(i as int, x)[a] || a == i);
            }
        }
        self.total_supply = self.total_supply - amount;
        let credited = self.mint(to, amount);
        assert(credited is Ok);
        Ok(())
    }
}

/// The total supply of a well-formed ledger is the sum of the balances of
/// its holders.
pub proof fn lemma_supply_is_sum_of_balances(l: &Ledger)
    requires
        l.wf(),
    ensures
        l.total_supply == sum_over(l.holder_keys(), |h: Seq<u8>| l.balance(h)),
{
    lemma_sum_is_sum_of_balances(l.balances@);
    let f = |h: Seq<u8>| l.balance(h);
    let g = |h: Seq<u8>| entries_balance(l.balances@, h);
    lemma_sum_over_congruent(l.holder_keys(), f, g);
}

} // verus!
