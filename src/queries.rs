//! Read-only projections of the lottery's state.
use vstd::prelude::*;

use crate::contract::Lottery;
use crate::error::ContractError;
use crate::msg::{InfoResponse, QueryMsg};
use crate::order::key_of;
use crate::rounds::{after_cursor, cursor_key, page_size, take_at_most, Investor, Winner};

verus! {

/// The open round's number.
#[derive(Clone, Copy, Debug, PartialEq, Eq)]
pub struct CurrentRoundResponse {
    pub round: u32,
}

/// The open round's number and pot.
#[derive(Clone, Copy, Debug, PartialEq, Eq)]
pub struct CurrentInvestmentResponse {
    pub round: u32,
    pub total_amount: u128,
}

/// One page of a round's investors.
#[derive(Clone, Debug, PartialEq, Eq)]
pub struct InvestorsResponse {
    pub round: u32,
    pub investors: Vec<Investor>,
}

/// The payouts of a closed round.
#[derive(Clone, Debug, PartialEq, Eq)]
pub struct InvestResultResponse {
    pub round: u32,
    pub first_winner: Winner,
    pub second_winner: Winner,
}

/// The token's total supply.
#[derive(Clone, Copy, Debug, PartialEq, Eq)]
pub struct TotalSupplyResponse {
    pub supply: u128,
}

/// One holder's token balance.
#[derive(Clone, Copy, Debug, PartialEq, Eq)]
pub struct TokenBalanceResponse {
    pub balance: u128,
}

/// The answer to any query.
#[derive(Clone, Debug, PartialEq, Eq)]
pub enum QueryAnswer {
    Info(InfoResponse),
    CurrentRound(CurrentRoundResponse),
    CurrentInvestment(CurrentInvestmentResponse),
    Investors(InvestorsResponse),
    InvestResult(InvestResultResponse),
    TotalSupply(TotalSupplyResponse),
    TokenBalance(TokenBalanceResponse),
}

/// The configuration and the token's description of `state`.
pub open spec fn info_of(state: &Lottery) -> InfoResponse {
    InfoResponse {
        exchange_ratio: state.contract.exchange_ratio,
        min_exchange_amount: state.contract.min_exchange_amount,
        first_winner_ratio: state.contract.first_winner_ratio,
        second_winner_ratio: state.contract.second_winner_ratio,
        owner_ratio: state.contract.owner_ratio,
        token_name: state.token.name,
        token_symbol: state.token.symbol,
        token_decimals: state.token.decimals,
    }
}

/// The page of the investors of round `round` that a listing returns.
pub open spec fn investors_page(state: &Lottery, round: int, start_after: Option<String>, limit: Option<u32>) -> Seq<Investor> {
    take_at_most(after_cursor(state.book.investors_of(round), cursor_key(start_after)), page_size(limit))
}

/// The configuration and the token's description.
pub fn query_contract_info(state: &Lottery) -> (r: InfoResponse)
    ensures
        r == info_of(state),
{
    InfoResponse {
        exchange_ratio: state.contract.exchange_ratio,
        min_exchange_amount: state.contract.min_exchange_amount,
        first_winner_ratio: state.contract.first_winner_ratio,
        second_winner_ratio: state.contract.second_winner_ratio,
        owner_ratio: state.contract.owner_ratio,
        token_name: state.token.name.clone(),
        token_symbol: state.token.symbol.clone(),
        token_decimals: state.token.decimals,
    }
}

/// The round that accepts contributions.
pub fn query_current_round(state: &Lottery) -> (r: CurrentRoundResponse)
    requires
        state.wf(),
    ensures
        r.round == state.round(),
{
    CurrentRoundResponse { round: state.book.current_round() }
}

/// The open round's number and pot.
pub fn query_current_investment(state: &Lottery) -> (r: CurrentInvestmentResponse)
    requires
        state.wf(),
    ensures
        r.round == state.round(),
        r.total_amount == state.pot(),
{
    let (round, total_amount) = state.book.current_investment();
    CurrentInvestmentResponse { round, total_amount }
}

/// One page of the open round's investors; see `query_investors`.
pub fn query_current_investors(state: &Lottery, start_after: Option<String>, limit: Option<u32>) -> (r:
    InvestorsResponse)
    requires
        state.wf(),
    ensures
        r.round == state.round(),
        r.investors@ == take_at_most(
            after_cursor(state.investors(), cursor_key(start_after)),
            page_size(limit),
        ),
{
    let round = state.book.current_round();
    query_investors(state, round, start_after, limit)
}

/// One page of the investors of round `round`, ascending by key: those after
/// `start_after`, at most `limit` of them (ten by default, a hundred at most).
pub fn query_investors(state: &Lottery, round: u32, start_after: Option<String>, limit: Option<u32>) -> (r:
    InvestorsResponse)
    requires
        state.wf(),
    ensures
        r.round == round,
        r.investors@ == take_at_most(
            after_cursor(state.book.investors_of(round as int), cursor_key(start_after)),
            page_size(limit),
        ),
{
    let investors = state.book.list_investors(round, start_after, limit);
    InvestorsResponse { round, investors }
}

/// The payouts of round `round`. Fails with `InvalidRound` for an unknown
/// round and with `RoundStillOpen` while it is open.
pub fn query_invest_result(state: &Lottery, round: u32) -> (r: Result<InvestResultResponse, ContractError>)
    requires
        state.wf(),
    ensures
        r == Err::<InvestResultResponse, ContractError>(ContractError::InvalidRound { round })
            <==> !state.book.recorded(round as int),
        r == Err::<InvestResultResponse, ContractError>(ContractError::RoundStillOpen { round })
            <==> state.book.is_open(round as int),
        r is Ok <==> state.book.recorded(round as int) && !state.book.is_open(round as int),
        r matches Ok(res) ==> res.round == round && state.book.record(round as int).first_winner
            == Some(res.first_winner) && state.book.record(round as int).second_winner == Some(
            res.second_winner,
        ),
{
    match state.book.settlement_result(round) {
        Ok((first_winner, second_winner)) => Ok(InvestResultResponse { round, first_winner, second_winner }),
        Err(e) => Err(e),
    }
}

/// The token's total supply.
pub fn query_token_total_supply(state: &Lottery) -> (r: TotalSupplyResponse)
    ensures
        r.supply == state.ledger.total_supply,
{
    TotalSupplyResponse { supply: state.ledger.total_supply() }
}

/// The token balance of `who`; zero for an unknown holder.
pub fn query_token_balance(state: &Lottery, who: String) -> (r: TokenBalanceResponse)
    requires
        state.wf(),
    ensures
        r.balance == state.ledger.balance(key_of(who@)),
{
    TokenBalanceResponse { balance: state.ledger.balance_of(&who) }
}

/// Answers one query.
pub fn query(state: &Lottery, msg: QueryMsg) -> (r: Result<QueryAnswer, ContractError>)
    requires
        state.wf(),
    ensures
        match msg {
            QueryMsg::Info {  } => r == Ok::<QueryAnswer, ContractError>(QueryAnswer::Info(info_of(state))),
            QueryMsg::CurrentRound {  } => r == Ok::<QueryAnswer, ContractError>(
                QueryAnswer::CurrentRound((CurrentRoundResponse { round: state.book.current.round })),
            ),
            QueryMsg::CurrentInvestment {  } => r == Ok::<QueryAnswer, ContractError>(
                QueryAnswer::CurrentInvestment(
                    (CurrentInvestmentResponse {
                        round: state.book.current.round,
                        total_amount: state.book.record(state.round()).total_amount,
                    }),
                ),
            ),
            QueryMsg::CurrentInvestors { start_after, limit } => r matches Ok(
                QueryAnswer::Investors(v),
            ) && v.round == state.book.current.round && v.investors@ == investors_page(
                state,
                state.round(),
                start_after,
                limit,
            ),
            QueryMsg::Investors { round, start_after, limit } => r matches Ok(
                QueryAnswer::Investors(v),
            ) && v.round == round && v.investors@ == investors_page(
                state,
                round as int,
                start_after,
                limit,
            ),
            QueryMsg::InvestResult { round } => {
                &&& (r == Err::<QueryAnswer, ContractError>(ContractError::InvalidRound { round })
                    <==> !state.book.recorded(round as int))
                &&& (r == Err::<QueryAnswer, ContractError>(ContractError::RoundStillOpen { round })
                    <==> state.book.is_open(round as int))
                &&& (r is Ok <==> state.book.recorded(round as int) && !state.book.is_open(
                    round as int,
                ))
                &&& (r is Ok ==> (r matches Ok(QueryAnswer::InvestResult(res)) && res.round == round
                    && state.book.record(round as int).first_winner == Some(res.first_winner)
                    && state.book.record(round as int).second_winner == Some(res.second_winner)))
            },
            QueryMsg::TotalTokenSupply {  } => r == Ok::<QueryAnswer, ContractError>(
                QueryAnswer::TotalSupply((TotalSupplyResponse { supply: state.ledger.total_supply })),
            ),
            QueryMsg::TokenBalance { who } => r == Ok::<QueryAnswer, ContractError>(
                QueryAnswer::TokenBalance(
                    (TokenBalanceResponse { balance: state.ledger.balance(key_of(who@)) as u128 }),
                ),
            ),
        },
{
    match msg {
        QueryMsg::Info {  } => Ok(QueryAnswer::Info(query_contract_info(state))),
        QueryMsg::CurrentRound {  } => Ok(QueryAnswer::CurrentRound(query_current_round(state))),
        QueryMsg::CurrentInvestment {  } => Ok(
            QueryAnswer::CurrentInvestment(query_current_investment(state)),
        ),
        QueryMsg::CurrentInvestors { start_after, limit } => Ok(
            QueryAnswer::Investors(query_current_investors(state, start_after, limit)),
        ),
        QueryMsg::Investors { round, start_after, limit } => Ok(
            QueryAnswer::Investors(query_investors(state, round, start_after, limit)),
        ),
        QueryMsg::InvestResult { round } => match query_invest_result(state, round) {
            Ok(res) => Ok(QueryAnswer::InvestResult(res)),
            Err(e) => Err(e),
        },
        QueryMsg::TotalTokenSupply {  } => Ok(QueryAnswer::TotalSupply(query_token_total_supply(state))),
        QueryMsg::TokenBalance { who } => Ok(QueryAnswer::TokenBalance(query_token_balance(state, who))),
    }
}

} // verus!
