//! The investment engine: genesis, deposits, closing rounds and token
//! transfers, each an all-or-nothing step on the lottery's state.
use vstd::prelude::*;

use crate::error::ContractError;
use crate::event::{closed_attrs, invested_attrs, ClosedInvestmentEvent, InvestedEvent};
use crate::ledger::Ledger;
use crate::msg::{Coin, ExecuteMsg, InstantiateMsg, MessageInfo};
use crate::order::key_of;
use crate::payout::{multiply_ratio, share, unassigned, winner_slots, Draw};
use crate::response::{attrs_view, decimal, decimal_chars, sends_view, BankSend, Response};
use crate::rounds::{contributed, settled, Investor, RoundBook, Winner};
use crate::state::{ContractInfo, TokenInfo};

verus! {

/// The whole state of one lottery.
pub struct Lottery {
    pub contract: ContractInfo,
    pub token: TokenInfo,
    pub ledger: Ledger,
    pub book: RoundBook,
}

impl Lottery {
    /// Both the ledger and the round book are well formed.
    pub open spec fn wf(&self) -> bool {
        self.ledger.wf() && self.book.wf()
    }

    /// Whether the state is well formed; for a state read back from storage.
    pub fn check_well_formed(&self) -> (r: bool)
        ensures
            r == self.wf(),
    {
        self.ledger.check_well_formed() && self.book.check_well_formed()
    }

    /// The open round.
    pub open spec fn round(&self) -> int {
        self.book.current.round as int
    }

    /// The open round's investors, ascending by key.
    pub open spec fn investors(&self) -> Seq<Investor> {
        self.book.investors_of(self.round())
    }

    /// The open round's pot.
    pub open spec fn pot(&self) -> nat {
        self.book.record(self.round()).total_amount as nat
    }
}

/// Exactly one coin, of a non-zero amount, is attached.
pub open spec fn one_coin_ok(funds: Seq<Coin>) -> bool {
    funds.len() == 1 && funds[0].amount > 0
}

/// Exactly one coin, of a non-zero amount and of denomination `denom`, is attached.
pub open spec fn pays(funds: Seq<Coin>, denom: Seq<char>) -> bool {
    one_coin_ok(funds) && funds[0].denom@ == denom
}

/// `new` is `old` after a deposit of `amount` by the investor keyed `who`:
/// the open round and the investor's contribution grow by `amount`, and the
/// investor is credited `amount` times the exchange ratio in new tokens.
pub open spec fn invested(old: &Lottery, new: &Lottery, who: Seq<u8>, amount: nat) -> bool {
    let minted = amount * old.contract.exchange_ratio;
    &&& new.contract == old.contract
    &&& new.token == old.token
    &&& contributed(&old.book, &new.book, old.round(), who, amount)
    &&& new.ledger.total_supply == old.ledger.total_supply + minted
    &&& new.ledger.balance(who) == old.ledger.balance(who) + minted
    &&& new.ledger.same_except(&old.ledger, who, who)
}

/// The two payouts of a round closed with `draw` from state `old`.
pub open spec fn drawn_winners(old: &Lottery, draw: Draw) -> (Winner, Winner) {
    let s = old.investors();
    let (i, j) = winner_slots(draw, s.len());
    (
        Winner { addr: s[i].addr, amount: share(old.pot(), old.contract.first_winner_ratio as nat) as u128 },
        Winner { addr: s[j].addr, amount: share(old.pot(), old.contract.second_winner_ratio as nat) as u128 },
    )
}

/// `new` is `old` after its open round was closed with `draw`: the round is
/// settled with the drawn winners and the next one opened; nothing else changes.
pub open spec fn closed(old: &Lottery, new: &Lottery, draw: Draw) -> bool {
    &&& new.contract == old.contract
    &&& new.token == old.token
    &&& new.ledger == old.ledger
    &&& settled(&old.book, &new.book, old.round(), drawn_winners(old, draw).0, drawn_winners(old, draw).1)
}

/// All three payouts of the open round fit in 128 bits.
pub open spec fn shares_fit(l: &Lottery) -> bool {
    &&& share(l.pot(), l.contract.first_winner_ratio as nat) <= u128::MAX
    &&& share(l.pot(), l.contract.second_winner_ratio as nat) <= u128::MAX
    &&& share(l.pot(), l.contract.owner_ratio as nat) <= u128::MAX
}

/// Sets up a lottery: `info.sender` becomes the owner, round one opens empty
/// and no token exists yet. Fails with `InvalidParams` where no accepted
/// asset is named.
pub fn instantiate(info: &MessageInfo, msg: InstantiateMsg) -> (r: Result<(Lottery, Response), ContractError>)
    ensures
        r is Err <==> msg.use_denom@.len() == 0,
        r is Err ==> r == Err::<(Lottery, Response), ContractError>(ContractError::InvalidParams),
        r matches Ok((l, rsp)) ==> {
            &&& l.wf()
            &&& l.contract == (ContractInfo {
                owner: info.sender,
                use_denom: msg.use_denom,
                exchange_ratio: msg.exchange_ratio,
                min_exchange_amount: msg.min_exchange_amount,
                first_winner_ratio: msg.first_winner_ratio,
                second_winner_ratio: msg.second_winner_ratio,
                owner_ratio: msg.owner_ratio,
            })
            &&& l.token == (TokenInfo {
                name: msg.token_name,
                symbol: msg.token_symbol,
                decimals: msg.token_decimals,
            })
            &&& l.ledger.total_supply == 0
            &&& forall|h: Seq<u8>| #[trigger] l.ledger.balance(h) == 0
            &&& l.round() == 1
            &&& l.book.investments@.len() == 1
            &&& l.book.is_open(1)
            &&& l.book.record(1).round == 1
            &&& l.book.record(1).first_winner is None
            &&& l.book.record(1).second_winner is None
            &&& l.pot() == 0
            &&& l.investors().len() == 0
            &&& rsp.messages@.len() == 0
            &&& attrs_view(rsp.attributes@) == seq![
                ("method"@, "instantiate"@),
                ("owner"@, info.sender@),
            ]
        },
{
    if msg.use_denom.as_str().is_empty() {
        return Err(ContractError::InvalidParams);
    }
    let contract = ContractInfo {
        owner: info.sender.clone(),
        use_denom: msg.use_denom,
        exchange_ratio: msg.exchange_ratio,
        min_exchange_amount: msg.min_exchange_amount,
        first_winner_ratio: msg.first_winner_ratio,
        second_winner_ratio: msg.second_winner_ratio,
        owner_ratio: msg.owner_ratio,
    };
    let token = TokenInfo { name: msg.token_name, symbol: msg.token_symbol, decimals: msg.token_decimals };
    let lottery = Lottery { contract, token, ledger: Ledger::new(), book: RoundBook::new() };
    let mut rsp = Response::new();
    rsp.add_attribute("method", "instantiate".to_owned());
    rsp.add_attribute("owner", info.sender.clone());
    assert(attrs_view(rsp.attributes@) =~= seq![("method"@, "instantiate"@), ("owner"@, info.sender@)]);
    Ok((lottery, rsp))
}

/// What a deposit by `info` from state `old` returns and leaves in `new`.
pub open spec fn invest_post(old: &Lottery, info: &MessageInfo, new: &Lottery, r: Result<Response, ContractError>) -> bool {
    let f = info.funds@;
    let a = f[0].amount as nat;
    let minted = a * old.contract.exchange_ratio;
    let paid = pays(f, old.contract.use_denom@);
    let fits = old.pot() + a <= u128::MAX && minted <= u128::MAX;
    &&& (r == Err::<Response, ContractError>(ContractError::NoFunds) <==> f.len() == 0 || (f.len() == 1
        && f[0].amount == 0))
    &&& (r == Err::<Response, ContractError>(ContractError::MultipleDenoms) <==> f.len() > 1)
    &&& ((r matches Err(ContractError::MissingDenom(_))) <==> one_coin_ok(f) && f[0].denom@
        != old.contract.use_denom@)
    &&& (r matches Err(ContractError::MissingDenom(d)) ==> d@ == old.contract.use_denom@)
    &&& (r == Err::<Response, ContractError>(ContractError::ArithmeticOverflow) <==> paid && !fits)
    &&& (r == Err::<Response, ContractError>(ContractError::Overflow) <==> paid && fits
        && old.ledger.total_supply + minted > u128::MAX)
    &&& (r is Ok <==> paid && fits && old.ledger.total_supply + minted <= u128::MAX)
    &&& (r is Err ==> *new == *old)
    &&& (r matches Ok(rsp) ==> {
        &&& invested(old, new, key_of(info.sender@), a)
        &&& rsp.messages@.len() == 0
        &&& attrs_view(rsp.attributes@) == invested_attrs(old.round() as nat, info.sender@, a)
    })
}

/// The payout instructions of a round closed with `draw` from state `old`:
/// first winner, second winner, owner, each in the accepted asset.
pub open spec fn close_sends(old: &Lottery, draw: Draw) -> Seq<(Seq<char>, nat, Seq<char>)> {
    let (w1, w2) = drawn_winners(old, draw);
    seq![
        (w1.addr@, w1.amount as nat, old.contract.use_denom@),
        (w2.addr@, w2.amount as nat, old.contract.use_denom@),
        (old.contract.owner@, share(old.pot(), old.contract.owner_ratio as nat), old.contract.use_denom@),
    ]
}

/// The event attributes of a round closed with `draw` from state `old`,
/// followed by the part of the pot that no payout takes.
pub open spec fn close_attrs(old: &Lottery, draw: Draw) -> Seq<(Seq<char>, Seq<char>)> {
    let (w1, w2) = drawn_winners(old, draw);
    let rest = unassigned(
        old.pot(),
        w1.amount as nat,
        w2.amount as nat,
        share(old.pot(), old.contract.owner_ratio as nat),
    );
    closed_attrs(old.round() as nat, w1.addr@, w2.addr@, Seq::empty()).push(("unassigned_remainder"@, decimal_chars(rest)))
}

/// What closing the round by `info` with `draw` from state `old` returns and
/// leaves in `new`.
pub open spec fn close_post(old: &Lottery, info: &MessageInfo, draw: Draw, new: &Lottery, r: Result<Response, ContractError>) -> bool {
    let owner_ok = info.sender@ == old.contract.owner@;
    let n = old.investors().len();
    &&& (r == Err::<Response, ContractError>(ContractError::Unauthorized) <==> !owner_ok)
    &&& (r == Err::<Response, ContractError>(ContractError::NoInvestors) <==> owner_ok && n == 0)
    &&& (r == Err::<Response, ContractError>(ContractError::ArithmeticOverflow) <==> owner_ok && n > 0
        && (!shares_fit(old) || old.round() == u32::MAX))
    &&& (r is Ok <==> owner_ok && n > 0 && shares_fit(old) && old.round() < u32::MAX)
    &&& (r is Err ==> *new == *old)
    &&& (r matches Ok(rsp) ==> {
        &&& closed(old, new, draw)
        &&& sends_view(rsp.messages@) == close_sends(old, draw)
        &&& attrs_view(rsp.attributes@) == close_attrs(old, draw)
    })
}

/// What a transfer of `amount` tokens from `info.sender` to `to` from state
/// `old` returns and leaves in `new`.
pub open spec fn transfer_post(old: &Lottery, info: &MessageInfo, to: Seq<char>, amount: nat, new: &Lottery, r: Result<Response, ContractError>) -> bool {
    let from = key_of(info.sender@);
    let dest = key_of(to);
    &&& (r == Err::<Response, ContractError>(ContractError::InvalidAmount) <==> amount == 0)
    &&& (r == Err::<Response, ContractError>(ContractError::InsufficientBalance) <==> amount > 0
        && old.ledger.balance(from) < amount)
    &&& (r is Ok <==> amount > 0 && old.ledger.balance(from) >= amount)
    &&& (r is Err ==> *new == *old)
    &&& (r matches Ok(rsp) ==> {
        &&& rsp.messages@.len() == 0
        &&& rsp.attributes@.len() == 0
        &&& new.contract == old.contract
        &&& new.token == old.token
        &&& new.book == old.book
        &&& new.ledger.total_supply == old.ledger.total_supply
        &&& from != dest ==> {
            &&& new.ledger.balance(from) == old.ledger.balance(from) - amount
            &&& new.ledger.balance(dest) == old.ledger.balance(dest) + amount
            &&& new.ledger.same_except(&old.ledger, from, dest)
        }
        &&& from == dest ==> new.ledger == old.ledger
    })
}

/// The single coin attached to a request. Fails with `NoFunds` where none,
/// or a zero amount, is attached and with `MultipleDenoms` where more than
/// one coin is.
pub fn one_coin(info: &MessageInfo) -> (r: Result<Coin, ContractError>)
    ensures
        r == Err::<Coin, ContractError>(ContractError::NoFunds) <==> info.funds@.len() == 0 || (
        info.funds@.len() == 1 && info.funds@[0].amount == 0),
        r == Err::<Coin, ContractError>(ContractError::MultipleDenoms) <==> info.funds@.len() > 1,
        r is Ok <==> one_coin_ok(info.funds@),
        r matches Ok(c) ==> c == info.funds@[0],
{
    let n = info.funds.len();
    if n == 0 {
        Err(ContractError::NoFunds)
    } else if n == 1 {
        let c = &info.funds[0];
        if c.amount == 0 {
            Err(ContractError::NoFunds)
        } else {
            Ok(Coin { denom: c.denom.clone(), amount: c.amount })
        }
    } else {
        Err(ContractError::MultipleDenoms)
    }
}

/// The amount paid in `denom`: as `one_coin`, and fails with `MissingDenom`
/// where the coin is of another denomination.
pub fn must_pay(info: &MessageInfo, denom: &str) -> (r: Result<u128, ContractError>)
    ensures
        r == Err::<u128, ContractError>(ContractError::NoFunds) <==> info.funds@.len() == 0 || (
        info.funds@.len() == 1 && info.funds@[0].amount == 0),
        r == Err::<u128, ContractError>(ContractError::MultipleDenoms) <==> info.funds@.len() > 1,
        (r matches Err(ContractError::MissingDenom(_))) <==> one_coin_ok(info.funds@)
            && info.funds@[0].denom@ != denom@,
        r matches Err(ContractError::MissingDenom(d)) ==> d@ == denom@,
        r is Ok <==> pays(info.funds@, denom@),
        r matches Ok(a) ==> a == info.funds@[0].amount,
{
    let coin = match one_coin(info) {
        Ok(c) => c,
        Err(e) => return Err(e),
    };
    let d = denom.to_owned();
    if coin.denom == d {
        Ok(coin.amount)
    } else {
        Err(ContractError::MissingDenom(d))
    }
}

/// Deposits the attached funds into the open round: the round's pot and the
/// sender's contribution grow by the amount, and the sender is minted that
/// amount times the exchange ratio in tokens. All checks come before any
/// change, so a failure changes nothing.
pub fn handle_invest(state: &mut Lottery, info: &MessageInfo) -> (r: Result<Response, ContractError>)
    requires
        old(state).wf(),
    ensures
        final(state).wf(),
        invest_post(old(state), info, final(state), r),
{
    let amount = match must_pay(info, state.contract.use_denom.as_str()) {
        Ok(a) => a,
        Err(e) => return Err(e),
    };
    let round = state.book.current_round();
    let (_, pot) = state.book.current_investment();
    if pot.checked_add(amount).is_none() {
        return Err(ContractError::ArithmeticOverflow);
    }
    let exchange_amount = match amount.checked_mul(state.contract.exchange_ratio) {
        Some(x) => x,
        None => return Err(ContractError::ArithmeticOverflow),
    };
    if state.ledger.total_supply.checked_add(exchange_amount).is_none() {
        return Err(ContractError::Overflow);
    }
    let recorded = state.book.record_contribution(round, &info.sender, amount);
    assert(recorded is Ok);
    let minted = state.ledger.mint(&info.sender, exchange_amount);
    assert(minted is Ok);
    let mut rsp = Response::new();
    let event = InvestedEvent { round, who: info.sender.clone(), amount };
    event.add_attributes(&mut rsp);
    assert(attrs_view(rsp.attributes@) =~= invested_attrs(round as nat, info.sender@, amount as nat));
    Ok(rsp)
}

/// A payout instruction of `amount` of `denom` to `addr`.
pub fn make_bank_send_msg(addr: String, amount: u128, denom: &str) -> (r: BankSend)
    ensures
        r.to_address == addr,
        r.amount == amount,
        r.denom@ == denom@,
{
    BankSend { to_address: addr, amount, denom: denom.to_owned() }
}

/// Closes the open round with the deterministic draw; see `close_investment_with`.
pub fn handle_close_investment(state: &mut Lottery, info: &MessageInfo) -> (r: Result<Response, ContractError>)
    requires
        old(state).wf(),
    ensures
        final(state).wf(),
        close_post(old(state), info, Draw::fixed_spec(), final(state), r),
{
    close_investment_with(state, info, Draw::fixed())
}

/// Closes the open round (owner only): picks two winners from the round's
/// investors with `draw`, pays each their ratio of the pot and the owner
/// theirs, settles the round and opens the next one. Fails with
/// `Unauthorized` for another sender, with `NoInvestors` for an empty round
/// and with `ArithmeticOverflow` where a payout or the next round number
/// does not fit; a failure changes nothing.
pub fn close_investment_with(state: &mut Lottery, info: &MessageInfo, draw: Draw) -> (r: Result<Response, ContractError>)
    requires
        old(state).wf(),
    ensures
        final(state).wf(),
        close_post(old(state), info, draw, final(state), r),
{
    if !(info.sender == state.contract.owner) {
        return Err(ContractError::Unauthorized);
    }
    let round = state.book.current_round();
    let investors = state.book.all_investors(round);
    let count = investors.len();
    if count == 0 {
        return Err(ContractError::NoInvestors);
    }
    let (i, j) = draw.pick(count);
    let (_, pot) = state.book.current_investment();
    let a1 = match multiply_ratio(pot, state.contract.first_winner_ratio) {
        Some(x) => x,
        None => return Err(ContractError::ArithmeticOverflow),
    };
    let a2 = match multiply_ratio(pot, state.contract.second_winner_ratio) {
        Some(x) => x,
        None => return Err(ContractError::ArithmeticOverflow),
    };
    let a3 = match multiply_ratio(pot, state.contract.owner_ratio) {
        Some(x) => x,
        None => return Err(ContractError::ArithmeticOverflow),
    };
    if round == u32::MAX {
        return Err(ContractError::ArithmeticOverflow);
    }
    let first_addr = investors[i].addr.clone();
    let second_addr = investors[j].addr.clone();
    let first = Winner { addr: first_addr.clone(), amount: a1 };
    let second = Winner { addr: second_addr.clone(), amount: a2 };
    let ghost before = *state;
    let settled_round = state.book.close_round(round, first, second);
    assert(settled_round is Ok);
    let mut rsp = Response::new();
    rsp.add_message(make_bank_send_msg(first_addr.clone(), a1, state.contract.use_denom.as_str()));
    rsp.add_message(make_bank_send_msg(second_addr.clone(), a2, state.contract.use_denom.as_str()));
    rsp.add_message(make_bank_send_msg(state.contract.owner.clone(), a3, state.contract.use_denom.as_str()));
    let event = ClosedInvestmentEvent {
        round,
        first_winner: first_addr,
        second_winner: second_addr,
        winner_hash: String::new(),
    };
    event.add_attributes(&mut rsp);
    let rest: u128 = if a1 <= pot && a2 <= pot - a1 && a3 <= pot - a1 - a2 {
        pot - a1 - a2 - a3
    } else {
        0
    };
    rsp.add_attribute("unassigned_remainder", decimal(rest));
    assert(sends_view(rsp.messages@) =~= close_sends(&before, draw));
    assert(attrs_view(rsp.attributes@) =~= close_attrs(&before, draw));
    Ok(rsp)
}

/// Moves `amount` tokens from the sender to `to`; see `Ledger::transfer`.
pub fn handl_transfer_token(state: &mut Lottery, info: &MessageInfo, to: String, amount: u128) -> (r:
    Result<Response, ContractError>)
    requires
        old(state).wf(),
    ensures
        final(state).wf(),
        transfer_post(old(state), info, to@, amount as nat, final(state), r),
{
    match state.ledger.transfer(&info.sender, &to, amount) {
        Ok(()) => Ok(Response::new()),
        Err(e) => Err(e),
    }
}

/// Applies one request to the lottery.
pub fn execute(state: &mut Lottery, info: &MessageInfo, msg: ExecuteMsg) -> (r: Result<Response, ContractError>)
    requires
        old(state).wf(),
    ensures
        final(state).wf(),
        match msg {
            ExecuteMsg::Invest {  } => invest_post(old(state), info, final(state), r),
            ExecuteMsg::CloseInvestment {  } => close_post(old(state), info, Draw::fixed_spec(), final(state), r),
            ExecuteMsg::TransferToken { to, amount } => transfer_post(
                old(state),
                info,
                to@,
                amount as nat,
                final(state),
                r,
            ),
        },
{
    match msg {
        ExecuteMsg::Invest {  } => handle_invest(state, info),
        ExecuteMsg::CloseInvestment {  } => handle_close_investment(state, info),
        ExecuteMsg::TransferToken { to, amount } => handl_transfer_token(state, info, to, amount),
    }
}

} // verus!

verus! {

/// Where the three payout ratios add up to at most a hundred, the payouts
/// that closing a round sends out together never pass the round's pot.
pub proof fn lemma_close_payouts_within_pot(old: &Lottery, draw: Draw)
    requires
        old.contract.first_winner_ratio + old.contract.second_winner_ratio + old.contract.owner_ratio <= 100,
    ensures
        close_sends(old, draw)[0].1 + close_sends(old, draw)[1].1 + close_sends(old, draw)[2].1 <= old.pot(),
{
    crate::payout::lemma_payouts_within_pot(
        old.pot(),
        old.contract.first_winner_ratio as nat,
        old.contract.second_winner_ratio as nat,
        old.contract.owner_ratio as nat,
    );
}

/// Two deposits of `a` and then `b` by one investor into one round add up:
/// the investor's contribution and the pot grow by `a + b`, and the
/// investor's tokens by `(a + b)` times the exchange ratio.
pub proof fn lemma_deposits_accumulate(
    s0: &Lottery,
    s1: &Lottery,
    s2: &Lottery,
    who: Seq<u8>,
    a: nat,
    b: nat,
)
    requires
        invested(s0, s1, who, a),
        invested(s1, s2, who, b),
    ensures
        s2.round() == s0.round(),
        s2.book.contribution(s0.round(), who) == s0.book.contribution(s0.round(), who) + a + b,
        s2.pot() == s0.pot() + a + b,
        s2.ledger.balance(who) == s0.ledger.balance(who) + (a + b) * s0.contract.exchange_ratio,
{
    crate::rounds::lemma_contributions_accumulate(&s0.book, &s1.book, &s2.book, s0.round(), who, a, b);
    assert((a + b) * s0.contract.exchange_ratio == a * s0.contract.exchange_ratio + b
        * s0.contract.exchange_ratio) by (nonlinear_arith);
}

/// The winners of a close are a function of the open round's investor list
/// and the draw alone: two closes with one draw, from states whose open
/// rounds have the same investors, pick the same winners.
pub proof fn lemma_close_deterministic(a0: &Lottery, a1: &Lottery, b0: &Lottery, b1: &Lottery, draw: Draw)
    requires
        closed(a0, a1, draw),
        closed(b0, b1, draw),
        a0.investors() == b0.investors(),
    ensures
        a1.book.record(a0.round()).first_winner.unwrap().addr == b1.book.record(
            b0.round(),
        ).first_winner.unwrap().addr,
        a1.book.record(a0.round()).second_winner.unwrap().addr == b1.book.record(
            b0.round(),
        ).second_winner.unwrap().addr,
{
}

} // verus!
