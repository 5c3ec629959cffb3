//! The round book: the sequence of investment rounds, the running pot and
//! the per-investor contributions of each, and the settlement of closed rounds.
use vstd::prelude::*;

use crate::error::ContractError;
use crate::order::{
    compare_bytes, key_lt, key_of, keys_ascending, lemma_key_lt_asymmetric,
    lemma_key_lt_irreflexive, lemma_key_lt_total, lemma_key_lt_transitive,
};

verus! {

/// Page size of an investor listing when none is asked for.
pub const DEFAULT_LIMIT: u32 = 10;

/// Largest page size of an investor listing.
pub const MAX_LIMIT: u32 = 100;

/// What one investor has put into one round, in all.
#[derive(Clone, Debug, PartialEq, Eq)]
pub struct Investor {
    pub addr: String,
    pub amount: u128,
}

/// One payout decided when a round closes.
#[derive(Clone, Debug, PartialEq, Eq)]
pub struct Winner {
    pub addr: String,
    pub amount: u128,
}

/// The record of one round.
#[derive(Clone, Debug, PartialEq, Eq)]
pub struct Investment {
    pub round: u32,
    pub total_amount: u128,
    pub in_progress: bool,
    pub first_winner: Option<Winner>,
    pub second_winner: Option<Winner>,
}

/// The pointer to the round that accepts contributions.
#[derive(Clone, Copy, Debug, PartialEq, Eq)]
pub struct Current {
    pub round: u32,
    pub exchange_round: u32,
}

/// All rounds so far: round `n` is held at index `n - 1`, with its investors
/// in ascending order of their keys.
pub struct RoundBook {
    pub current: Current,
    pub investments: Vec<Investment>,
    pub investors: Vec<Vec<Investor>>,
}

impl Investor {
    /// A copy of this record.
    pub fn copied(&self) -> (r: Investor)
        ensures
            r == *self,
    {
        Investor { addr: self.addr.clone(), amount: self.amount }
    }
}

impl Winner {
    /// A copy of this record.
    pub fn copied(&self) -> (r: Winner)
        ensures
            r == *self,
    {
        Winner { addr: self.addr.clone(), amount: self.amount }
    }
}

impl Investment {
    /// A fresh open round with an empty pot.
    pub fn new(round: u32) -> (r: Investment)
        ensures
            r.round == round,
            r.total_amount == 0,
            r.in_progress,
            r.first_winner is None,
            r.second_winner is None,
    {
        Investment {
            round,
            total_amount: 0,
            in_progress: true,
            first_winner: None,
            second_winner: None,
        }
    }
}

/// The keys of a run of investors, in order.
pub open spec fn investor_keys(s: Seq<Investor>) -> Seq<Seq<u8>> {
    s.map_values(|e: Investor| key_of(e.addr@))
}

/// The investors strictly ascend by key.
pub open spec fn investors_sorted(s: Seq<Investor>) -> bool {
    keys_ascending(investor_keys(s))
}

/// Sum of the amounts of a run of investors.
pub open spec fn investors_sum(s: Seq<Investor>) -> nat
    decreases s.len(),
{
    if s.len() == 0 {
        0
    } else {
        (investors_sum(s.drop_last()) + s.last().amount) as nat
    }
}

/// What the investor keyed `h` has put in (zero when absent).
pub open spec fn contribution_in(s: Seq<Investor>, h: Seq<u8>) -> nat
    decreases s.len(),
{
    if s.len() == 0 {
        0
    } else if key_of(s.last().addr@) == h {
        s.last().amount as nat
    } else {
        contribution_in(s.drop_last(), h)
    }
}

/// Some investor of the run is keyed `h`.
pub open spec fn has_key(s: Seq<Investor>, h: Seq<u8>) -> bool {
    exists|i: int| 0 <= i < s.len() && key_of(#[trigger] s[i].addr@) == h
}

/// The investors that come strictly after `start` (all of them without a cursor).
pub open spec fn after_cursor(s: Seq<Investor>, start: Option<Seq<u8>>) -> Seq<Investor> {
    match start {
        None => s,
        Some(k) => s.filter(|e: Investor| key_lt(k, key_of(e.addr@))),
    }
}

/// The first `n` items of `s`, or all of them where there are fewer.
pub open spec fn take_at_most(s: Seq<Investor>, n: int) -> Seq<Investor> {
    if n < s.len() {
        s.take(n)
    } else {
        s
    }
}

/// The page size used for a requested `limit`.
pub open spec fn page_size(limit: Option<u32>) -> int {
    let l = match limit {
        Some(l) => l as int,
        None => DEFAULT_LIMIT as int,
    };
    if l > MAX_LIMIT {
        MAX_LIMIT as int
    } else {
        l
    }
}

/// The key of an optional cursor.
pub open spec fn cursor_key(start: Option<String>) -> Option<Seq<u8>> {
    match start {
        None => None,
        Some(s) => Some(key_of(s@)),
    }
}

proof fn lemma_sorted_index(s: Seq<Investor>, i: int, j: int)
    requires
        investors_sorted(s),
        0 <= i < j < s.len(),
    ensures
        key_lt(key_of(s[i].addr@), key_of(s[j].addr@)),
        key_of(s[i].addr@) != key_of(s[j].addr@),
{
    assert(investor_keys(s)[i] == key_of(s[i].addr@));
    assert(investor_keys(s)[j] == key_of(s[j].addr@));
    assert(key_lt(investor_keys(s)[i], investor_keys(s)[j]));
    lemma_key_lt_irreflexive(key_of(s[i].addr@));
}

proof fn lemma_sorted_drop_last(s: Seq<Investor>)
    requires
        investors_sorted(s),
        s.len() > 0,
    ensures
        investors_sorted(s.drop_last()),
{
    let d = s.drop_last();
    assert forall|i: int, j: int| 0 <= i < j < investor_keys(d).len() implies #[trigger] key_lt(
        investor_keys(d)[i],
        investor_keys(d)[j],
    ) by {
        lemma_sorted_index(s, i, j);
        assert(d[i] == s[i]);
        assert(d[j] == s[j]);
    }
}

proof fn lemma_contribution_at(s: Seq<Investor>, i: int)
    requires
        investors_sorted(s),
        0 <= i < s.len(),
    ensures
        contribution_in(s, key_of(s[i].addr@)) == s[i].amount,
    decreases s.len(),
{
    if i < s.len() - 1 {
        lemma_sorted_index(s, i, s.len() - 1);
        lemma_sorted_drop_last(s);
        assert(s.drop_last()[i] == s[i]);
        lemma_contribution_at(s.drop_last(), i);
    }
}

proof fn lemma_contribution_absent(s: Seq<Investor>, h: Seq<u8>)
    requires
        !has_key(s, h),
    ensures
        contribution_in(s, h) == 0,
    decreases s.len(),
{
    if s.len() > 0 {
        assert(key_of(s[s.len() - 1].addr@) != h);
        assert forall|i: int| 0 <= i < s.drop_last().len() implies key_of(
            #[trigger] s.drop_last()[i].addr@,
        ) != h by {
            assert(s.drop_last()[i] == s[i]);
        }
        lemma_contribution_absent(s.drop_last(), h);
    }
}

proof fn lemma_contribution_le_sum(s: Seq<Investor>, h: Seq<u8>)
    ensures
        contribution_in(s, h) <= investors_sum(s),
    decreases s.len(),
{
    if s.len() > 0 {
        lemma_contribution_le_sum(s.drop_last(), h);
    }
}

proof fn lemma_filter_suffix(s: Seq<Investor>, pred: spec_fn(Investor) -> bool, p: int)
    requires
        0 <= p <= s.len(),
        forall|i: int| 0 <= i < p ==> !pred(#[trigger] s[i]),
        forall|i: int| p <= i < s.len() ==> pred(#[trigger] s[i]),
    ensures
        s.filter(pred) == s.skip(p),
    decreases s.len(),
{
    reveal(Seq::filter);
    if s.len() == 0 {
        assert(s.skip(p) =~= s);
    } else {
        let d = s.drop_last();
        assert forall|i: int| 0 <= i < d.len() implies (i < p ==> !pred(#[trigger] d[i])) && (p <= i
            ==> pred(d[i])) by {
            assert(d[i] == s[i]);
        }
        if p == s.len() {
            assert(!pred(s[s.len() - 1]));
            lemma_filter_suffix(d, pred, p - 1);
            assert(d.skip(p - 1) =~= Seq::<Investor>::empty());
            assert(s.skip(p) =~= Seq::<Investor>::empty());
        } else {
            assert(pred(s[s.len() - 1]));
            lemma_filter_suffix(d, pred, p);
            assert(d.skip(p).push(s.last()) =~= s.skip(p));
        }
    }
}

proof fn lemma_sum_update(s: Seq<Investor>, i: int, x: Investor)
    requires
        0 <= i < s.len(),
    ensures
        investors_sum(s.update(i, x)) + s[i].amount == investors_sum(s) + x.amount,
    decreases s.len(),
{
    if i < s.len() - 1 {
        assert(s.update(i, x).drop_last() =~= s.drop_last().update(i, x));
        lemma_sum_update(s.drop_last(), i, x);
    } else {
        assert(s.update(i, x).drop_last() =~= s.drop_last());
    }
}

proof fn lemma_sum_insert(s: Seq<Investor>, i: int, x: Investor)
    requires
        0 <= i <= s.len(),
    ensures
        investors_sum(s.insert(i, x)) == investors_sum(s) + x.amount,
    decreases s.len(),
{
    if i == s.len() {
        assert(s.insert(i, x).drop_last() =~= s);
    } else {
        assert(s.insert(i, x).drop_last() =~= s.drop_last().insert(i, x));
        lemma_sum_insert(s.drop_last(), i, x);
    }
}

proof fn lemma_contribution_update(s: Seq<Investor>, i: int, x: Investor, h: Seq<u8>)
    requires
        investors_sorted(s),
        0 <= i < s.len(),
        key_of(x.addr@) == key_of(s[i].addr@),
    ensures
        contribution_in(s.update(i, x), h) == if h == key_of(x.addr@) {
            x.amount as nat
        } else {
            contribution_in(s, h)
        },
    decreases s.len(),
{
    if i < s.len() - 1 {
        assert(s.update(i, x).drop_last() =~= s.drop_last().update(i, x));
        lemma_sorted_index(s, i, s.len() - 1);
        lemma_sorted_drop_last(s);
        assert(s.drop_last()[i] == s[i]);
        lemma_contribution_update(s.drop_last(), i, x, h);
    } else {
        assert(s.update(i, x).drop_last() =~= s.drop_last());
    }
}

proof fn lemma_contribution_insert(s: Seq<Investor>, i: int, x: Investor, h: Seq<u8>)
    requires
        0 <= i <= s.len(),
        !has_key(s, key_of(x.addr@)),
    ensures
        contribution_in(s.insert(i, x), h) == if h == key_of(x.addr@) {
            x.amount as nat
        } else {
            contribution_in(s, h)
        },
    decreases s.len(),
{
    if i == s.len() {
        assert(s.insert(i, x).drop_last() =~= s);
    } else {
        let d = s.drop_last();
        assert(s.insert(i, x).drop_last() =~= d.insert(i, x));
        assert(s.insert(i, x).last() == s.last());
        assert(key_of(s[s.len() - 1].addr@) != key_of(x.addr@));
        assert forall|j: int| 0 <= j < d.len() implies key_of(#[trigger] d[j].addr@) != key_of(
            x.addr@,
        ) by {
            assert(d[j] == s[j]);
        }
        lemma_contribution_insert(d, i, x, h);
    }
}

proof fn lemma_sorted_insert(s: Seq<Investor>, p: int, x: Investor)
    requires
        investors_sorted(s),
        0 <= p <= s.len(),
        forall|i: int| 0 <= i < p ==> key_lt(key_of(#[trigger] s[i].addr@), key_of(x.addr@)),
        p < s.len() ==> key_lt(key_of(x.addr@), key_of(s[p].addr@)),
    ensures
        investors_sorted(s.insert(p, x)),
{
    let t = s.insert(p, x);
    assert forall|i: int, j: int| 0 <= i < j < investor_keys(t).len() implies #[trigger] key_lt(
        investor_keys(t)[i],
        investor_keys(t)[j],
    ) by {
        assert(investor_keys(t)[i] == key_of(t[i].addr@));
        assert(investor_keys(t)[j] == key_of(t[j].addr@));
        if j < p {
            lemma_sorted_index(s, i, j);
        } else if j == p {
        } else if i < p {
            lemma_sorted_index(s, i, j - 1);
        } else if i == p {
            if j - 1 > p {
                lemma_sorted_index(s, p, j - 1);
                lemma_key_lt_transitive(key_of(x.addr@), key_of(s[p].addr@), key_of(s[j - 1].addr@));
            }
        } else {
            lemma_sorted_index(s, i - 1, j - 1);
        }
    }
}

/// `new` is `old` after `amount` was added to round `round` for the investor
/// keyed `h`: the pot and that investor's contribution grow by `amount`, and
/// nothing else changes.
pub open spec fn contributed(old: &RoundBook, new: &RoundBook, round: int, h: Seq<u8>, amount: nat) -> bool {
    &&& new.current == old.current
    &&& new.investments@.len() == old.investments@.len()
    &&& forall|n: int| n != round ==> #[trigger] new.investors_of(n) == old.investors_of(n)
    &&& forall|n: int| n != round && old.recorded(n) ==> #[trigger] new.record(n) == old.record(n)
    &&& new.record(round).total_amount == old.record(round).total_amount + amount
    &&& new.record(round).round == old.record(round).round
    &&& new.record(round).in_progress == old.record(round).in_progress
    &&& new.record(round).first_winner == old.record(round).first_winner
    &&& new.record(round).second_winner == old.record(round).second_winner
    &&& forall|g: Seq<u8>|
        #[trigger] new.contribution(round, g) == if g == h {
            old.contribution(round, g) + amount
        } else {
            old.contribution(round, g)
        }
    &&& forall|g: Seq<u8>| #[trigger] new.is_investor(round, g) <==> old.is_investor(round, g) || g == h
}

/// `new` is `old` after open round `round` was closed with the payouts
/// `first` and `second`, and round `round + 1` was opened empty.
pub open spec fn settled(old: &RoundBook, new: &RoundBook, round: int, first: Winner, second: Winner) -> bool {
    &&& new.current.round == round + 1
    &&& new.current.exchange_round == old.current.exchange_round
    &&& new.investments@.len() == old.investments@.len() + 1
    &&& forall|n: int| n != round && old.recorded(n) ==> #[trigger] new.record(n) == old.record(n)
    &&& new.record(round).round == old.record(round).round
    &&& new.record(round).total_amount == old.record(round).total_amount
    &&& !new.record(round).in_progress
    &&& new.record(round).first_winner == Some(first)
    &&& new.record(round).second_winner == Some(second)
    &&& forall|n: int| n != round + 1 ==> #[trigger] new.investors_of(n) == old.investors_of(n)
    &&& new.is_open(round + 1)
    &&& new.record(round + 1).total_amount == 0
    &&& new.record(round + 1).first_winner is None
    &&& new.record(round + 1).second_winner is None
    &&& new.investors_of(round + 1).len() == 0
}

proof fn lemma_investors_prefix_sum_le(s: Seq<Investor>, n: int)
    requires
        0 <= n <= s.len(),
    ensures
        investors_sum(s.subrange(0, n)) <= investors_sum(s),
    decreases s.len(),
{
    if n < s.len() {
        assert(s.drop_last().subrange(0, n) =~= s.subrange(0, n));
        lemma_investors_prefix_sum_le(s.drop_last(), n);
    } else {
        assert(s.subrange(0, n) =~= s);
    }
}

/// Whether `s` strictly ascends by key and its amounts sum to `total`.
fn check_investors(s: &Vec<Investor>, total: u128) -> (r: bool)
    ensures
        r == (investors_sorted(s@) && total == investors_sum(s@)),
{
    let mut sum: u128 = 0;
    let mut i: usize = 0;
    while i < s.len()
        invariant
            i <= s@.len(),
            sum == investors_sum(s@.subrange(0, i as int)),
            forall|a: int, b: int|
                0 <= a < b < i ==> key_lt(key_of(#[trigger] s@[a].addr@), key_of(#[trigger] s@[b].addr@)),
        decreases s@.len() - i,
    {
        if i > 0 && compare_bytes(s[i - 1].addr.as_str().as_bytes(), s[i].addr.as_str().as_bytes()) != -1 {
            proof {
                if investors_sorted(s@) {
                    lemma_sorted_index(s@, i - 1, i as int);
                }
            }
            return false;
        }
        assert(s@.subrange(0, i + 1).drop_last() =~= s@.subrange(0, i as int));
        assert(s@.subrange(0, i + 1).last() == s@[i as int]);
        sum = match sum.checked_add(s[i].amount) {
            Some(x) => x,
            None => {
                proof {
                    lemma_investors_prefix_sum_le(s@, i + 1);
                }
                return false;
            },
        };
        proof {
            assert forall|a: int, b: int| 0 <= a < b < i + 1 implies key_lt(
                key_of(#[trigger] s@[a].addr@),
                key_of(#[trigger] s@[b].addr@),
            ) by {
                if b == i && a < i - 1 {
                    lemma_key_lt_transitive(
                        key_of(s@[a].addr@),
                        key_of(s@[i - 1].addr@),
                        key_of(s@[b].addr@),
                    );
                }
            }
        }
        i = i + 1;
    }
    assert(s@.subrange(0, i as int) =~= s@);
    assert forall|a: int, b: int| 0 <= a < b < investor_keys(s@).len() implies #[trigger] key_lt(
        investor_keys(s@)[a],
        investor_keys(s@)[b],
    ) by {
        assert(key_lt(key_of(s@[a].addr@), key_of(s@[b].addr@)));
    }
    sum == total
}

/// The number of investors of `s` keyed before `key`.
fn lower_bound(s: &Vec<Investor>, key: &[u8]) -> (p: usize)
    requires
        investors_sorted(s@),
    ensures
        p <= s@.len(),
        forall|i: int| 0 <= i < p ==> key_lt(key_of(#[trigger] s@[i].addr@), key@),
        forall|i: int| p <= i < s@.len() ==> !key_lt(key_of(#[trigger] s@[i].addr@), key@),
{
    let mut i: usize = 0;
    while i < s.len() && compare_bytes(s[i].addr.as_str().as_bytes(), key) == -1
        invariant
            i <= s@.len(),
            forall|j: int| 0 <= j < i ==> key_lt(key_of(#[trigger] s@[j].addr@), key@),
        decreases s@.len() - i,
    {
        i = i + 1;
    }
    proof {
        assert forall|j: int| i <= j < s@.len() implies !key_lt(
            key_of(#[trigger] s@[j].addr@),
            key@,
        ) by {
            if j > i && key_lt(key_of(s@[j].addr@), key@) {
                lemma_sorted_index(s@, i as int, j);
                lemma_key_lt_transitive(key_of(s@[i as int].addr@), key_of(s@[j].addr@), key@);
            }
        }
    }
    i
}

impl RoundBook {
    /// Well formed: rounds `1..=n` are recorded, the last of them is the only
    /// open one and the current one, every closed round has both payouts,
    /// each round's investors ascend by key and its pot is their sum.
    pub open spec fn wf(&self) -> bool {
        let n = self.investments@.len();
        &&& self.investors@.len() == n
        &&& 1 <= n <= u32::MAX
        &&& self.current.round == n
        &&& forall|k: int| 0 <= k < n ==> (#[trigger] self.investments@[k]).round == k + 1
        &&& forall|k: int| 0 <= k < n ==> ((#[trigger] self.investments@[k]).in_progress <==> k == n - 1)
        &&& forall|k: int|
            0 <= k < n && !(#[trigger] self.investments@[k]).in_progress ==> self.investments@[k].first_winner is Some
                && self.investments@[k].second_winner is Some
        &&& forall|k: int| 0 <= k < n ==> investors_sorted((#[trigger] self.investors@[k])@)
        &&& forall|k: int|
            0 <= k < n ==> (#[trigger] self.investments@[k]).total_amount == investors_sum(
                self.investors@[k]@,
            )
    }

    /// Round `round` has a record.
    pub open spec fn recorded(&self, round: int) -> bool {
        1 <= round <= self.investments@.len()
    }

    /// The record of round `round`.
    pub open spec fn record(&self, round: int) -> Investment {
        self.investments@[round - 1]
    }

    /// Round `round` has a record and accepts contributions.
    pub open spec fn is_open(&self, round: int) -> bool {
        self.recorded(round) && self.record(round).in_progress
    }

    /// The investors of round `round`, ascending by key (none for an unknown round).
    pub open spec fn investors_of(&self, round: int) -> Seq<Investor> {
        if self.recorded(round) {
            self.investors@[round - 1]@
        } else {
            Seq::empty()
        }
    }

    /// What the investor keyed `h` has put into round `round`.
    pub open spec fn contribution(&self, round: int, h: Seq<u8>) -> nat {
        contribution_in(self.investors_of(round), h)
    }

    /// The investor keyed `h` has put something into round `round`.
    pub open spec fn is_investor(&self, round: int, h: Seq<u8>) -> bool {
        has_key(self.investors_of(round), h)
    }

    /// A book with round one open and nothing in it.
    pub fn new() -> (r: RoundBook)
        ensures
            r.wf(),
            r.current.round == 1,
            r.investments@.len() == 1,
            r.is_open(1),
            r.record(1).round == 1,
            r.record(1).total_amount == 0,
            r.record(1).first_winner is None,
            r.record(1).second_winner is None,
            r.investors_of(1).len() == 0,
    {
        let mut investments: Vec<Investment> = Vec::new();
        investments.push(Investment::new(1));
        let mut investors: Vec<Vec<Investor>> = Vec::new();
        investors.push(Vec::new());
        RoundBook { current: Current { round: 1, exchange_round: 1 }, investments, investors }
    }

    /// Whether the book is well formed; for a book read back from storage.
    pub fn check_well_formed(&self) -> (r: bool)
        ensures
            r == self.wf(),
    {
        let n = self.investments.len();
        if self.investors.len() != n || n == 0 || n > u32::MAX as usize || self.current.round as usize != n {
            return false;
        }
        let mut k: usize = 0;
        while k < n
            invariant
                n == self.investments@.len(),
                self.investors@.len() == n,
                1 <= n <= u32::MAX,
                self.current.round == n,
                k <= n,
                forall|m: int| 0 <= m < k ==> (#[trigger] self.investments@[m]).round == m + 1,
                forall|m: int| 0 <= m < k ==> ((#[trigger] self.investments@[m]).in_progress <==> m == n - 1),
                forall|m: int|
                    0 <= m < k && !(#[trigger] self.investments@[m]).in_progress ==> self.investments@[m].first_winner is Some
                        && self.investments@[m].second_winner is Some,
                forall|m: int| 0 <= m < k ==> investors_sorted((#[trigger] self.investors@[m])@),
                forall|m: int|
                    0 <= m < k ==> (#[trigger] self.investments@[m]).total_amount == investors_sum(
                        self.investors@[m]@,
                    ),
            decreases n - k,
        {
            let rec = &self.investments[k];
            if rec.round as usize != k + 1 {
                return false;
            }
            if rec.in_progress != (k + 1 == n) {
                return false;
            }
            if !rec.in_progress && (rec.first_winner.is_none() || rec.second_winner.is_none()) {
                return false;
            }
            if !check_investors(&self.investors[k], rec.total_amount) {
                return false;
            }
            k = k + 1;
        }
        true
    }

    /// The round that accepts contributions.
    pub fn current_round(&self) -> (r: u32)
        requires
            self.wf(),
        ensures
            r == self.current.round,
            self.is_open(r as int),
    {
        self.current.round
    }

    /// The open round's number and pot.
    pub fn current_investment(&self) -> (r: (u32, u128))
        requires
            self.wf(),
        ensures
            r.0 == self.current.round,
            r.1 == self.record(self.current.round as int).total_amount,
    {
        let k = self.investments.len() - 1;
        (self.investments[k].round, self.investments[k].total_amount)
    }

    /// Every investor of round `round` with what they put in, ascending by key.
    pub fn all_investors(&self, round: u32) -> (r: Vec<Investor>)
        requires
            self.wf(),
        ensures
            r@ == self.investors_of(round as int),
    {
        let mut out: Vec<Investor> = Vec::new();
        if round == 0 || round as usize > self.investors.len() {
            return out;
        }
        let s = &self.investors[(round - 1) as usize];
        let mut i: usize = 0;
        while i < s.len()
            invariant
                i <= s@.len(),
                out@ == s@.subrange(0, i as int),
            decreases s@.len() - i,
        {
            out.push(s[i].copied());
            i = i + 1;
            assert(out@ =~= s@.subrange(0, i as int));
        }
        assert(s@.subrange(0, i as int) =~= s@);
        out
    }

    /// One page of the investors of round `round`: those keyed strictly after
    /// `start_after`, at most `limit` of them (ten by default, a hundred at most).
    pub fn list_investors(&self, round: u32, start_after: Option<String>, limit: Option<u32>) -> (r:
        Vec<Investor>)
        requires
            self.wf(),
        ensures
            r@ == take_at_most(
                after_cursor(self.investors_of(round as int), cursor_key(start_after)),
                page_size(limit),
            ),
    {
        let lim: u32 = match limit {
            Some(l) => if l > MAX_LIMIT {
                MAX_LIMIT
            } else {
                l
            },
            None => DEFAULT_LIMIT,
        };
        let mut out: Vec<Investor> = Vec::new();
        if round == 0 || round as usize > self.investors.len() {
            proof {
                reveal(Seq::filter);
            }
            assert(take_at_most(
                after_cursor(self.investors_of(round as int), cursor_key(start_after)),
                page_size(limit),
            ) =~= Seq::<Investor>::empty());
            return out;
        }
        let s = &self.investors[(round - 1) as usize];
        assert(s@ == self.investors_of(round as int));
        let mut p: usize = 0;
        match &start_after {
            Some(st) => {
                let b = st.as_str().as_bytes();
                let p0 = lower_bound(s, b);
                let hit = p0 < s.len() && compare_bytes(s[p0].addr.as_str().as_bytes(), b) == 0;
                p = if hit {
                    p0 + 1
                } else {
                    p0
                };
                let ghost k = key_of(st@);
                let ghost pred = |e: Investor| key_lt(k, key_of(e.addr@));
                proof {
                    assert forall|i: int| 0 <= i < p implies !pred(#[trigger] s@[i]) by {
                        if key_of(s@[i].addr@) == k {
                            lemma_key_lt_irreflexive(k);
                        } else {
                            lemma_key_lt_asymmetric(key_of(s@[i].addr@), k);
                        }
                    }
                    assert forall|i: int| p <= i < s@.len() implies pred(#[trigger] s@[i]) by {
                        if key_of(s@[i].addr@) == k {
                            if i > p0 {
                                lemma_sorted_index(s@, p0 as int, i);
                            }
                        }
                        lemma_key_lt_total(key_of(s@[i].addr@), k);
                    }
                    lemma_filter_suffix(s@, pred, p as int);
                }
            },
            None => {
                assert(s@.skip(0) =~= s@);
            },
        }
        assert(after_cursor(s@, cursor_key(start_after)) == s@.skip(p as int));
        let mut i: usize = p;
        while i < s.len() && out.len() < lim as usize
            invariant
                p <= i <= s@.len(),
                out@.len() == i - p,
                out@.len() <= lim,
                out@ == s@.subrange(p as int, i as int),
            decreases s@.len() - i,
        {
            out.push(s[i].copied());
            i = i + 1;
            assert(out@ =~= s@.subrange(p as int, i as int));
        }
        assert(lim == page_size(limit));
        proof {
            let rest = s@.skip(p as int);
            if (lim as int) < rest.len() {
                assert(i - p == lim);
                assert(out@ =~= rest.take(lim as int));
            } else {
                assert(i == s@.len());
                assert(out@ =~= rest);
            }
        }
        out
    }
    /// Adds `amount` to the pot of round `round` and to what `investor` has
    /// put into it. Fails with `InvalidRound` where the round is not open and
    /// with `ArithmeticOverflow` where the pot would pass the 128-bit range;
    /// a failure changes nothing.
    pub fn record_contribution(&mut self, round: u32, investor: &String, amount: u128) -> (r: Result<
        (),
        ContractError,
    >)
        requires
            old(self).wf(),
        ensures
            final(self).wf(),
            r == Err::<(), ContractError>(ContractError::InvalidRound { round }) <==> !old(
                self,
            ).is_open(round as int),
            r == Err::<(), ContractError>(ContractError::ArithmeticOverflow) <==> old(self).is_open(
                round as int,
            ) && old(self).record(round as int).total_amount + amount > u128::MAX,
            r is Ok <==> old(self).is_open(round as int) && old(self).record(round as int).total_amount
                + amount <= u128::MAX,
            r is Err ==> *final(self) == *old(self),
            r is Ok ==> contributed(old(self), final(self), round as int, key_of(investor@), amount as nat),
    {
        if round == 0 || round as usize > self.investments.len() {
            return Err(ContractError::InvalidRound { round });
        }
        let k = (round - 1) as usize;
        if !self.investments[k].in_progress {
            return Err(ContractError::InvalidRound { round });
        }
        let total = match self.investments[k].total_amount.checked_add(amount) {
            Some(t) => t,
            None => return Err(ContractError::ArithmeticOverflow),
        };
        let ghost old_book = *self;
        let ghost s = self.investors@[k as int]@;
        let ghost h = key_of(investor@);
        let b = investor.as_str().as_bytes();
        let p = lower_bound(&self.investors[k], b);
        let mut list: Vec<Investor> = Vec::new();
        std::mem::swap(&mut list, &mut self.investors[k]);
        assert(list@ == s);
        if p < list.len() && compare_bytes(list[p].addr.as_str().as_bytes(), b) == 0 {
            proof {
                lemma_contribution_at(s, p as int);
                lemma_contribution_le_sum(s, key_of(s[p as int].addr@));
            }
            let x = Investor { addr: investor.clone(), amount: list[p].amount + amount };
            list.set(p, x);
            proof {
                lemma_sum_update(s, p as int, x);
                assert(investor_keys(list@) =~= investor_keys(s));
                assert forall|g: Seq<u8>| true implies #[trigger] contribution_in(list@, g) == if g
                    == h {
                    contribution_in(s, g) + amount as nat
                } else {
                    contribution_in(s, g)
                } by {
                    lemma_contribution_update(s, p as int, x, g);
                }
                assert forall|g: Seq<u8>| #[trigger] has_key(list@, g) <==> has_key(s, g) || g == h by {
                    if has_key(s, g) {
                        let j = choose|j: int| 0 <= j < s.len() && key_of(#[trigger] s[j].addr@) == g;
                        assert(key_of(list@[j].addr@) == g);
                    }
                    if g == h {
                        assert(key_of(list@[p as int].addr@) == g);
                    }
                    if has_key(list@, g) {
                        let j = choose|j: int| 0 <= j < list@.len() && key_of(#[trigger] list@[j].addr@) == g;
                        assert(key_of(s[j].addr@) == g);
                    }
                }
            }
        } else {
            proof {
                assert forall|j: int| 0 <= j < s.len() implies key_of(#[trigger] s[j].addr@) != h by {
                    if j < p {
                        lemma_key_lt_irreflexive(h);
                    } else if j == p {
                    } else {
                        lemma_sorted_index(s, p as int, j);
                        if key_of(s[j].addr@) == h {
                            lemma_key_lt_transitive(key_of(s[p as int].addr@), h, h);
                            lemma_key_lt_irreflexive(h);
                        }
                    }
                }
                if p < s.len() {
                    lemma_key_lt_total(key_of(s[p as int].addr@), h);
                }
            }
            let x = Investor { addr: investor.clone(), amount };
            list.insert(p, x);
            proof {
                assert(list@ == s.insert(p as int, x));
                lemma_sum_insert(s, p as int, x);
                lemma_sorted_insert(s, p as int, x);
                assert forall|g: Seq<u8>| true implies #[trigger] contribution_in(list@, g) == if g
                    == h {
                    contribution_in(s, g) + amount as nat
                } else {
                    contribution_in(s, g)
                } by {
                    lemma_contribution_insert(s, p as int, x, g);
                    if g == h {
                        lemma_contribution_absent(s, g);
                    }
                }
                assert forall|g: Seq<u8>| #[trigger] has_key(list@, g) <==> has_key(s, g) || g == h by {
                    if has_key(s, g) {
                        let j = choose|j: int| 0 <= j < s.len() && key_of(#[trigger] s[j].addr@) == g;
                        if j < p {
                            assert(list@[j] == s[j]);
                        } else {
                            assert(list@[j + 1] == s[j]);
                        }
                    }
                    if g == h {
                        assert(key_of(list@[p as int].addr@) == g);
                    }
                    if has_key(list@, g) {
                        let j = choose|j: int| 0 <= j < list@.len() && key_of(#[trigger] list@[j].addr@) == g;
                        if j < p {
                            assert(list@[j] == s[j]);
                        } else if j > p {
                            assert(list@[j] == s[j - 1]);
                        }
                    }
                }
            }
        }
        std::mem::swap(&mut list, &mut self.investors[k]);
        self.investments[k].total_amount = total;
        proof {
            assert(self.investors@ == old_book.investors@.update(k as int, self.investors@[k as int]));
            assert(self.investments@ == old_book.investments@.update(k as int, self.investments@[k as int]));
            assert forall|n: int| n != round implies #[trigger] self.investors_of(n) == old_book.investors_of(n) by {
                if old_book.recorded(n) {
                    assert(self.investors@[n - 1] == old_book.investors@[n - 1]);
                }
            }
        }
        Ok(())
    }

    /// Closes open round `round` with the payouts `first_winner` and
    /// `second_winner`, and opens round `round + 1`, empty. Fails with
    /// `InvalidRound` for an unknown round, with `AlreadyClosed` for a closed
    /// one, and with `ArithmeticOverflow` where no next round number exists;
    /// a failure changes nothing.
    pub fn close_round(&mut self, round: u32, first_winner: Winner, second_winner: Winner) -> (r:
        Result<(), ContractError>)
        requires
            old(self).wf(),
        ensures
            final(self).wf(),
            r == Err::<(), ContractError>(ContractError::InvalidRound { round }) <==> !old(
                self,
            ).recorded(round as int),
            r == Err::<(), ContractError>(ContractError::AlreadyClosed { round }) <==> old(
                self,
            ).recorded(round as int) && !old(self).is_open(round as int),
            r == Err::<(), ContractError>(ContractError::ArithmeticOverflow) <==> old(self).is_open(
                round as int,
            ) && round == u32::MAX,
            r is Ok <==> old(self).is_open(round as int) && round < u32::MAX,
            r is Err ==> *final(self) == *old(self),
            r is Ok ==> settled(old(self), final(self), round as int, first_winner, second_winner),
    {
        if round == 0 || round as usize > self.investments.len() {
            return Err(ContractError::InvalidRound { round });
        }
        let k = (round - 1) as usize;
        if !self.investments[k].in_progress {
            return Err(ContractError::AlreadyClosed { round });
        }
        if round == u32::MAX {
            return Err(ContractError::ArithmeticOverflow);
        }
        let ghost old_book = *self;
        self.investments[k].in_progress = false;
        self.investments[k].first_winner = Some(first_winner);
        self.investments[k].second_winner = Some(second_winner);
        self.investments.push(Investment::new(round + 1));
        self.investors.push(Vec::new());
        self.current = Current { round: round + 1, exchange_round: self.current.exchange_round };
        proof {
            assert forall|n: int| n != round + 1 implies #[trigger] self.investors_of(n)
                == old_book.investors_of(n) by {
                if old_book.recorded(n) {
                    assert(self.investors@[n - 1] == old_book.investors@[n - 1]);
                }
            }
            assert(investor_keys(self.investors@[k as int + 1]@) =~= Seq::<Seq<u8>>::empty());
        }
        Ok(())
    }

    /// The payouts of round `round`. Fails with `InvalidRound` for an unknown
    /// round and with `RoundStillOpen` while the round is open.
    pub fn settlement_result(&self, round: u32) -> (r: Result<(Winner, Winner), ContractError>)
        requires
            self.wf(),
        ensures
            r == Err::<(Winner, Winner), ContractError>(ContractError::InvalidRound { round }) <==> !self.recorded(
                round as int,
            ),
            r == Err::<(Winner, Winner), ContractError>(ContractError::RoundStillOpen { round }) <==> self.is_open(
                round as int,
            ),
            r is Ok <==> self.recorded(round as int) && !self.is_open(round as int),
            r matches Ok((a, b)) ==> self.record(round as int).first_winner == Some(a)
                && self.record(round as int).second_winner == Some(b),
    {
        if round == 0 || round as usize > self.investments.len() {
            return Err(ContractError::InvalidRound { round });
        }
        let rec = &self.investments[(round - 1) as usize];
        if rec.in_progress {
            return Err(ContractError::RoundStillOpen { round });
        }
        match (&rec.first_winner, &rec.second_winner) {
            (Some(a), Some(b)) => Ok((a.copied(), b.copied())),
            _ => Err(ContractError::RoundStillOpen { round }),
        }
    }
}

/// At any time exactly one round is open, and it is the current one.
pub proof fn lemma_one_open_round(b: &RoundBook)
    requires
        b.wf(),
    ensures
        b.is_open(b.current.round as int),
        forall|n: int| #[trigger] b.is_open(n) ==> n == b.current.round,
{
    assert(b.investments@[b.investments@.len() - 1].in_progress);
    assert forall|n: int| #[trigger] b.is_open(n) implies n == b.current.round by {
        assert(b.investments@[n - 1].in_progress);
    }
}

} // verus!

verus! {

/// Two contributions by one investor to one round add up: after `a` and then
/// `b`, the investor's contribution and the round's pot have both grown by
/// `a + b`, not merely by `b`.
pub proof fn lemma_contributions_accumulate(
    b0: &RoundBook,
    b1: &RoundBook,
    b2: &RoundBook,
    round: int,
    h: Seq<u8>,
    a: nat,
    b: nat,
)
    requires
        contributed(b0, b1, round, h, a),
        contributed(b1, b2, round, h, b),
    ensures
        b2.contribution(round, h) == b0.contribution(round, h) + a + b,
        b2.record(round).total_amount == b0.record(round).total_amount + a + b,
        b2.is_investor(round, h),
{
    assert(b1.contribution(round, h) == b0.contribution(round, h) + a);
    assert(b2.contribution(round, h) == b1.contribution(round, h) + b);
    assert(b2.is_investor(round, h));
}

} // verus!
