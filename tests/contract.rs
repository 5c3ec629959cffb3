use fs_lottery::contract::{close_investment_with, execute, instantiate, Lottery};
use fs_lottery::error::ContractError;
use fs_lottery::msg::{Coin, ExecuteMsg, InstantiateMsg, MessageInfo, QueryMsg};
use fs_lottery::payout::Draw;
use fs_lottery::queries::{
    query, query_contract_info, query_current_investment, query_current_investors, query_current_round,
    query_invest_result, query_investors, query_token_balance, query_token_total_supply, QueryAnswer,
};
use fs_lottery::rounds::Investor;

fn coins(amount: u128, denom: &str) -> Vec<Coin> {
    vec![Coin { denom: denom.to_string(), amount }]
}

fn mock_info(sender: &str, funds: &[Coin]) -> MessageInfo {
    MessageInfo { sender: sender.to_string(), funds: funds.to_vec() }
}

fn init_msg() -> InstantiateMsg {
    InstantiateMsg {
        use_denom: "cony".to_string(),
        exchange_ratio: 10,
        min_exchange_amount: 200000000u32,
        first_winner_ratio: 60u8,
        second_winner_ratio: 20u8,
        owner_ratio: 2u8,
        token_name: "lottery".to_string(),
        token_symbol: "LTT".to_string(),
        token_decimals: 6u8,
    }
}

fn do_instantiate(info: MessageInfo) -> Lottery {
    let (state, res) = instantiate(&info, init_msg()).unwrap();
    assert_eq!(0, res.messages.len());
    state
}

fn do_invest(state: &mut Lottery, addr: &str, amount: u128) {
    let auth_info = mock_info(addr, &coins(amount, "cony"));
    let msg = ExecuteMsg::Invest {};
    execute(state, &auth_info, msg).unwrap();
}

#[test]
fn proper_initialization() {
    let info: MessageInfo = mock_info("creator", &coins(1000, "cony"));
    let (state, res) = instantiate(&info, init_msg()).unwrap();
    assert_eq!(0, res.messages.len());

    let value = query_contract_info(&state);
    assert_eq!(10, value.exchange_ratio);
}

#[test]
fn invest() {
    let auth_info = mock_info("creator", &coins(1000, "cony"));
    let mut state = do_instantiate(auth_info.clone());

    do_invest(&mut state, "creator", 1000);

    let total_supply = query_token_total_supply(&state);
    assert_eq!(10000u128, total_supply.supply);
    assert_eq!(1u32, query_current_round(&state).round);
    let investors = query_current_investors(&state, None, None);
    assert_eq!(1u32, investors.round);
    assert_eq!(
        vec![Investor { addr: "creator".to_string(), amount: 1000 }],
        investors.investors
    );
    let res = query_invest_result(&state, 1u32);
    match res.unwrap_err() {
        ContractError::RoundStillOpen { .. } => {}
        e => panic!("unexpected error {:?}", e),
    }
    let res = query_token_balance(&state, "creator".to_string());
    assert_eq!(10000u128, res.balance);
}

#[test]
fn close_investment() {
    let auth_info = mock_info("creator", &coins(1000, "cony"));
    let mut state = do_instantiate(auth_info.clone());

    do_invest(&mut state, "alpha", 1000);
    do_invest(&mut state, "beta", 1000);
    do_invest(&mut state, "chrlie", 1000);
    do_invest(&mut state, "delta", 1000);

    let total_supply = query_token_total_supply(&state);
    assert_eq!(40000u128, total_supply.supply);
    let investors = query_current_investors(&state, None, None);
    assert_eq!(4usize, investors.investors.len());

    let msg = ExecuteMsg::CloseInvestment {};
    execute(&mut state, &auth_info, msg).unwrap();

    assert_eq!(2u32, query_current_round(&state).round);

    let res = query_invest_result(&state, 1).unwrap();
    assert_eq!(1u32, res.round);
    assert_eq!(4000u128 * 60 / 100, res.first_winner.amount);
    assert_eq!(4000u128 * 20 / 100, res.second_winner.amount);
    let res = query_investors(&state, 1, None, None);
    assert_eq!(4, res.investors.len());
}

#[test]
fn transfer_token() {
    let auth_info = mock_info("creator", &coins(1000, "cony"));
    let mut state = do_instantiate(auth_info.clone());

    let spender1 = String::from("alpha");
    let spender2 = String::from("beta");

    do_invest(&mut state, spender1.as_str(), 1000);
    do_invest(&mut state, spender2.as_str(), 1000);

    assert_eq!(20000u128, query_token_total_supply(&state).supply);
    assert_eq!(10000u128, query_token_balance(&state, spender1.clone()).balance);
    assert_eq!(10000u128, query_token_balance(&state, spender2.clone()).balance);

    let info = mock_info(spender1.as_str(), &[]);
    let msg = ExecuteMsg::TransferToken { to: spender2.clone(), amount: 5000 };
    execute(&mut state, &info, msg).unwrap();

    assert_eq!(20000u128, query_token_total_supply(&state).supply);
    assert_eq!(5000u128, query_token_balance(&state, spender1.clone()).balance);
    assert_eq!(15000u128, query_token_balance(&state, spender2.clone()).balance);
}

#[test]
fn single_deposit_mints_at_exchange_ratio() {
    let mut state = do_instantiate(mock_info("owner", &[]));
    do_invest(&mut state, "alice", 1000);
    assert_eq!(10000u128, query_token_balance(&state, "alice".to_string()).balance);
    assert_eq!(10000u128, query_token_total_supply(&state).supply);
    let cur = query_current_investment(&state);
    assert_eq!(1u32, cur.round);
    assert_eq!(1000u128, cur.total_amount);
}

#[test]
fn deposit_emits_invested_event() {
    let mut state = do_instantiate(mock_info("owner", &[]));
    let info = mock_info("alice", &coins(1234, "cony"));
    let rsp = execute(&mut state, &info, ExecuteMsg::Invest {}).unwrap();
    assert!(rsp.messages.is_empty());
    let pairs: Vec<(String, String)> =
        rsp.attributes.iter().map(|a| (a.key.clone(), a.value.clone())).collect();
    assert_eq!(
        vec![
            ("action".to_string(), "Invested".to_string()),
            ("round".to_string(), "1".to_string()),
            ("who".to_string(), "alice".to_string()),
            ("amount".to_string(), "1234".to_string()),
        ],
        pairs
    );
}

#[test]
fn repeated_deposits_accumulate() {
    let mut state = do_instantiate(mock_info("owner", &[]));
    do_invest(&mut state, "alice", 1000);
    do_invest(&mut state, "alice", 500);
    let investors = query_current_investors(&state, None, None).investors;
    assert_eq!(vec![Investor { addr: "alice".to_string(), amount: 1500 }], investors);
    assert_eq!(1500u128, query_current_investment(&state).total_amount);
    assert_eq!(15000u128, query_token_balance(&state, "alice".to_string()).balance);
}

#[test]
fn close_pays_drawn_winners_and_owner() {
    let owner = mock_info("creator", &[]);
    let mut state = do_instantiate(owner.clone());
    for who in ["delta", "alpha", "chrlie", "beta"] {
        do_invest(&mut state, who, 1000);
    }
    let rsp = execute(&mut state, &owner, ExecuteMsg::CloseInvestment {}).unwrap();
    let sends: Vec<(String, u128, String)> = rsp
        .messages
        .iter()
        .map(|m| (m.to_address.clone(), m.amount, m.denom.clone()))
        .collect();
    assert_eq!(
        vec![
            ("delta".to_string(), 2400u128, "cony".to_string()),
            ("alpha".to_string(), 800u128, "cony".to_string()),
            ("creator".to_string(), 80u128, "cony".to_string()),
        ],
        sends
    );
    let pairs: Vec<(String, String)> =
        rsp.attributes.iter().map(|a| (a.key.clone(), a.value.clone())).collect();
    assert_eq!(
        vec![
            ("action".to_string(), "ClosedInvestment".to_string()),
            ("round".to_string(), "1".to_string()),
            ("first_winner".to_string(), "delta".to_string()),
            ("second_winner".to_string(), "alpha".to_string()),
            ("winner_hash".to_string(), "".to_string()),
            ("unassigned_remainder".to_string(), "720".to_string()),
        ],
        pairs
    );
    let res = query_invest_result(&state, 1).unwrap();
    assert_eq!("delta", res.first_winner.addr);
    assert_eq!("alpha", res.second_winner.addr);
    let next = query_current_investment(&state);
    assert_eq!(2u32, next.round);
    assert_eq!(0u128, next.total_amount);
    assert!(query_current_investors(&state, None, None).investors.is_empty());
    assert_eq!(40000u128, query_token_total_supply(&state).supply);
}

#[test]
fn close_is_deterministic_on_same_snapshot() {
    let mut winners = Vec::new();
    for _ in 0..2 {
        let owner = mock_info("creator", &[]);
        let mut state = do_instantiate(owner.clone());
        for who in ["a1", "b2", "c3"] {
            do_invest(&mut state, who, 300);
        }
        execute(&mut state, &owner, ExecuteMsg::CloseInvestment {}).unwrap();
        let res = query_invest_result(&state, 1).unwrap();
        winners.push((res.first_winner.addr, res.second_winner.addr));
    }
    assert_eq!(winners[0], winners[1]);
    assert_eq!(("b2".to_string(), "c3".to_string()), winners[0]);
}

#[test]
fn close_with_other_draw_indices() {
    let owner = mock_info("creator", &[]);
    let mut state = do_instantiate(owner.clone());
    for who in ["a", "b", "c"] {
        do_invest(&mut state, who, 100);
    }
    close_investment_with(&mut state, &owner, Draw { first: 2, second: 2 }).unwrap();
    let res = query_invest_result(&state, 1).unwrap();
    assert_eq!("c", res.first_winner.addr);
    assert_eq!("c", res.second_winner.addr);
    assert_eq!(180u128, res.first_winner.amount);
    assert_eq!(60u128, res.second_winner.amount);
}

#[test]
fn close_by_non_owner_is_unauthorized() {
    let mut state = do_instantiate(mock_info("creator", &[]));
    do_invest(&mut state, "alice", 1000);
    let err = execute(&mut state, &mock_info("mallory", &[]), ExecuteMsg::CloseInvestment {})
        .unwrap_err();
    assert_eq!(ContractError::Unauthorized, err);
    let cur = query_current_investment(&state);
    assert_eq!(1u32, cur.round);
    assert_eq!(1000u128, cur.total_amount);
    assert!(matches!(
        query_invest_result(&state, 1),
        Err(ContractError::RoundStillOpen { round: 1 })
    ));
}

#[test]
fn close_without_investors_fails() {
    let owner = mock_info("creator", &[]);
    let mut state = do_instantiate(owner.clone());
    let err = execute(&mut state, &owner, ExecuteMsg::CloseInvestment {}).unwrap_err();
    assert_eq!(ContractError::NoInvestors, err);
    assert_eq!(1u32, query_current_round(&state).round);
}

#[test]
fn deposit_funds_validation() {
    let mut state = do_instantiate(mock_info("creator", &[]));
    let none = mock_info("alice", &[]);
    assert_eq!(Err(ContractError::NoFunds), execute(&mut state, &none, ExecuteMsg::Invest {}));
    let zero = mock_info("alice", &coins(0, "cony"));
    assert_eq!(Err(ContractError::NoFunds), execute(&mut state, &zero, ExecuteMsg::Invest {}));
    let two = mock_info(
        "alice",
        &[
            Coin { denom: "cony".to_string(), amount: 5 },
            Coin { denom: "other".to_string(), amount: 5 },
        ],
    );
    assert_eq!(Err(ContractError::MultipleDenoms), execute(&mut state, &two, ExecuteMsg::Invest {}));
    let wrong = mock_info("alice", &coins(5, "other"));
    assert_eq!(
        Err(ContractError::MissingDenom("cony".to_string())),
        execute(&mut state, &wrong, ExecuteMsg::Invest {})
    );
    assert_eq!(0u128, query_current_investment(&state).total_amount);
    assert_eq!(0u128, query_token_total_supply(&state).supply);
}

#[test]
fn transfer_beyond_balance_fails() {
    let mut state = do_instantiate(mock_info("creator", &[]));
    do_invest(&mut state, "alpha", 100);
    let info = mock_info("alpha", &[]);
    let msg = ExecuteMsg::TransferToken { to: "beta".to_string(), amount: 1001 };
    assert_eq!(Err(ContractError::InsufficientBalance), execute(&mut state, &info, msg));
    assert_eq!(1000u128, query_token_balance(&state, "alpha".to_string()).balance);
    assert_eq!(0u128, query_token_balance(&state, "beta".to_string()).balance);
}

#[test]
fn transfer_of_zero_fails() {
    let mut state = do_instantiate(mock_info("creator", &[]));
    do_invest(&mut state, "alpha", 100);
    let msg = ExecuteMsg::TransferToken { to: "beta".to_string(), amount: 0 };
    assert_eq!(
        Err(ContractError::InvalidAmount),
        execute(&mut state, &mock_info("alpha", &[]), msg)
    );
}

#[test]
fn transfer_to_self_keeps_balance() {
    let mut state = do_instantiate(mock_info("creator", &[]));
    do_invest(&mut state, "alpha", 100);
    let msg = ExecuteMsg::TransferToken { to: "alpha".to_string(), amount: 400 };
    execute(&mut state, &mock_info("alpha", &[]), msg).unwrap();
    assert_eq!(1000u128, query_token_balance(&state, "alpha".to_string()).balance);
    let msg = ExecuteMsg::TransferToken { to: "alpha".to_string(), amount: 1001 };
    assert_eq!(
        Err(ContractError::InsufficientBalance),
        execute(&mut state, &mock_info("alpha", &[]), msg)
    );
}

#[test]
fn instantiate_needs_accepted_asset() {
    let mut msg = init_msg();
    msg.use_denom = String::new();
    assert!(matches!(
        instantiate(&mock_info("creator", &[]), msg),
        Err(ContractError::InvalidParams)
    ));
}

#[test]
fn instantiate_reports_owner() {
    let (state, rsp) = instantiate(&mock_info("creator", &[]), init_msg()).unwrap();
    let pairs: Vec<(String, String)> =
        rsp.attributes.iter().map(|a| (a.key.clone(), a.value.clone())).collect();
    assert_eq!(
        vec![
            ("method".to_string(), "instantiate".to_string()),
            ("owner".to_string(), "creator".to_string()),
        ],
        pairs
    );
    let info = query_contract_info(&state);
    assert_eq!("lottery", info.token_name);
    assert_eq!("LTT", info.token_symbol);
    assert_eq!(6u8, info.token_decimals);
    assert_eq!(60u8, info.first_winner_ratio);
}

#[test]
fn unknown_round_result_is_invalid() {
    let state = do_instantiate(mock_info("creator", &[]));
    assert_eq!(
        Err(ContractError::InvalidRound { round: 7 }),
        query_invest_result(&state, 7)
    );
    assert!(query_investors(&state, 7, None, None).investors.is_empty());
}

#[test]
fn history_survives_next_round() {
    let owner = mock_info("creator", &[]);
    let mut state = do_instantiate(owner.clone());
    do_invest(&mut state, "alpha", 10);
    do_invest(&mut state, "beta", 20);
    execute(&mut state, &owner, ExecuteMsg::CloseInvestment {}).unwrap();
    do_invest(&mut state, "gamma", 30);
    let old = query_investors(&state, 1, None, None).investors;
    assert_eq!(
        vec![
            Investor { addr: "alpha".to_string(), amount: 10 },
            Investor { addr: "beta".to_string(), amount: 20 },
        ],
        old
    );
    let cur = query_current_investors(&state, None, None);
    assert_eq!(2u32, cur.round);
    assert_eq!(vec![Investor { addr: "gamma".to_string(), amount: 30 }], cur.investors);
}

#[test]
fn query_dispatch_answers_each_kind() {
    let owner = mock_info("creator", &[]);
    let mut state = do_instantiate(owner.clone());
    do_invest(&mut state, "alpha", 10);
    match query(&state, QueryMsg::Info {}) {
        Ok(QueryAnswer::Info(i)) => assert_eq!(10, i.exchange_ratio),
        other => panic!("unexpected {:?}", other),
    }
    match query(&state, QueryMsg::CurrentInvestment {}) {
        Ok(QueryAnswer::CurrentInvestment(c)) => assert_eq!((1, 10), (c.round, c.total_amount)),
        other => panic!("unexpected {:?}", other),
    }
    match query(&state, QueryMsg::TokenBalance { who: "alpha".to_string() }) {
        Ok(QueryAnswer::TokenBalance(b)) => assert_eq!(100, b.balance),
        other => panic!("unexpected {:?}", other),
    }
    match query(&state, QueryMsg::Investors { round: 1, start_after: None, limit: Some(1) }) {
        Ok(QueryAnswer::Investors(v)) => assert_eq!(1, v.investors.len()),
        other => panic!("unexpected {:?}", other),
    }
    assert_eq!(
        Err(ContractError::RoundStillOpen { round: 1 }),
        query(&state, QueryMsg::InvestResult { round: 1 })
    );
    execute(&mut state, &owner, ExecuteMsg::CloseInvestment {}).unwrap();
    match query(&state, QueryMsg::InvestResult { round: 1 }) {
        Ok(QueryAnswer::InvestResult(r)) => assert_eq!("alpha", r.first_winner.addr),
        other => panic!("unexpected {:?}", other),
    }
    match query(&state, QueryMsg::CurrentRound {}) {
        Ok(QueryAnswer::CurrentRound(r)) => assert_eq!(2, r.round),
        other => panic!("unexpected {:?}", other),
    }
}
