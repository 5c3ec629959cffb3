//! Events: the attributes that each kind of action adds to a response.
use vstd::prelude::*;

use crate::response::{attrs_view, decimal, decimal_chars, Response};

verus! {

/// A deposit into a round.
pub struct InvestedEvent {
    pub round: u32,
    pub who: String,
    pub amount: u128,
}

/// A movement of the internal token.
pub struct TokenTransferredEvent {
    pub from: Option<String>,
    pub to: Option<String>,
    pub amount: u128,
}

/// The close of a round, with its two winners and the proof of the draw
/// (empty while the draw is deterministic).
pub struct ClosedInvestmentEvent {
    pub round: u32,
    pub first_winner: String,
    pub second_winner: String,
    pub winner_hash: String,
}

/// The text of an optional identity: empty when there is none.
pub open spec fn text_or_empty(s: Option<String>) -> Seq<char> {
    match s {
        Some(s) => s@,
        None => Seq::empty(),
    }
}

/// The attributes of a deposit event.
pub open spec fn invested_attrs(round: nat, who: Seq<char>, amount: nat) -> Seq<
    (Seq<char>, Seq<char>),
> {
    seq![
        ("action"@, "Invested"@),
        ("round"@, decimal_chars(round)),
        ("who"@, who),
        ("amount"@, decimal_chars(amount)),
    ]
}

/// The attributes of a token-transfer event.
pub open spec fn transferred_attrs(from: Seq<char>, to: Seq<char>, amount: nat) -> Seq<
    (Seq<char>, Seq<char>),
> {
    seq![
        ("action"@, "TokenTransferred"@),
        ("from"@, from),
        ("to"@, to),
        ("amount"@, decimal_chars(amount)),
    ]
}

/// The attributes of a round-close event.
pub open spec fn closed_attrs(round: nat, first: Seq<char>, second: Seq<char>, hash: Seq<char>) -> Seq<
    (Seq<char>, Seq<char>),
> {
    seq![
        ("action"@, "ClosedInvestment"@),
        ("round"@, decimal_chars(round)),
        ("first_winner"@, first),
        ("second_winner"@, second),
        ("winner_hash"@, hash),
    ]
}

impl InvestedEvent {
    /// Appends this event's attributes to `rsp`.
    pub fn add_attributes(&self, rsp: &mut Response)
        ensures
            final(rsp).messages == old(rsp).messages,
            attrs_view(final(rsp).attributes@) == attrs_view(old(rsp).attributes@) + invested_attrs(
                self.round as nat,
                self.who@,
                self.amount as nat,
            ),
    {
        rsp.add_attribute("action", "Invested".to_owned());
        rsp.add_attribute("round", decimal(self.round as u128));
        rsp.add_attribute("who", self.who.clone());
        rsp.add_attribute("amount", decimal(self.amount));
        assert(attrs_view(rsp.attributes@) =~= attrs_view(old(rsp).attributes@) + invested_attrs(
            self.round as nat,
            self.who@,
            self.amount as nat,
        ));
    }
}

impl TokenTransferredEvent {
    /// Appends this event's attributes to `rsp`.
    pub fn add_attributes(&self, rsp: &mut Response)
        ensures
            final(rsp).messages == old(rsp).messages,
            attrs_view(final(rsp).attributes@) == attrs_view(old(rsp).attributes@)
                + transferred_attrs(text_or_empty(self.from), text_or_empty(self.to), self.amount as nat),
    {
        let from = match &self.from {
            Some(s) => s.clone(),
            None => String::new(),
        };
        let to = match &self.to {
            Some(s) => s.clone(),
            None => String::new(),
        };
        rsp.add_attribute("action", "TokenTransferred".to_owned());
        rsp.add_attribute("from", from);
        rsp.add_attribute("to", to);
        rsp.add_attribute("amount", decimal(self.amount));
        assert(attrs_view(rsp.attributes@) =~= attrs_view(old(rsp).attributes@) + transferred_attrs(
            text_or_empty(self.from),
            text_or_empty(self.to),
            self.amount as nat,
        ));
    }
}

impl ClosedInvestmentEvent {
    /// Appends this event's attributes to `rsp`.
    pub fn add_attributes(&self, rsp: &mut Response)
        ensures
            final(rsp).messages == old(rsp).messages,
            attrs_view(final(rsp).attributes@) == attrs_view(old(rsp).attributes@) + closed_attrs(
                self.round as nat,
                self.first_winner@,
                self.second_winner@,
                self.winner_hash@,
            ),
    {
        rsp.add_attribute("action", "ClosedInvestment".to_owned());
        rsp.add_attribute("round", decimal(self.round as u128));
        rsp.add_attribute("first_winner", self.first_winner.clone());
        rsp.add_attribute("second_winner", self.second_winner.clone());
        rsp.add_attribute("winner_hash", self.winner_hash.clone());
        assert(attrs_view(rsp.attributes@) =~= attrs_view(old(rsp).attributes@) + closed_attrs(
            self.round as nat,
            self.first_winner@,
            self.second_winner@,
            self.winner_hash@,
        ));
    }
}

} // verus!
