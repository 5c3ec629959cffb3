use fs_lottery::error::ContractError;
use fs_lottery::ledger::Ledger;
use fs_lottery::order::compare_identities;
use fs_lottery::payout::multiply_ratio;
use fs_lottery::rounds::{Investor, RoundBook, Winner};

fn s(x: &str) -> String {
    x.to_string()
}

fn book_with(n: usize) -> RoundBook {
    let mut book = RoundBook::new();
    for i in 0..n {
        book.record_contribution(1, &format!("inv{:03}", i), 1).unwrap();
    }
    book
}

#[test]
fn investors_listed_in_key_order() {
    let mut book = RoundBook::new();
    for who in ["delta", "Zed", "alpha", "beta"] {
        book.record_contribution(1, &s(who), 5).unwrap();
    }
    let names: Vec<String> = book.all_investors(1).into_iter().map(|i| i.addr).collect();
    assert_eq!(vec![s("Zed"), s("alpha"), s("beta"), s("delta")], names);
}

#[test]
fn listing_default_page_is_ten() {
    let book = book_with(25);
    let page = book.list_investors(1, None, None);
    assert_eq!(10, page.len());
    assert_eq!("inv000", page[0].addr);
    assert_eq!("inv009", page[9].addr);
}

#[test]
fn listing_page_capped_at_hundred() {
    let book = book_with(150);
    assert_eq!(100, book.list_investors(1, None, Some(500)).len());
    assert_eq!(3, book.list_investors(1, None, Some(3)).len());
}

#[test]
fn listing_starts_after_cursor() {
    let book = book_with(5);
    let page = book.list_investors(1, Some(s("inv001")), Some(2));
    assert_eq!(
        vec![Investor { addr: s("inv002"), amount: 1 }, Investor { addr: s("inv003"), amount: 1 }],
        page
    );
    let page = book.list_investors(1, Some(s("inv0015")), None);
    assert_eq!("inv002", page[0].addr);
    assert_eq!(3, page.len());
    assert!(book.list_investors(1, Some(s("zzz")), None).is_empty());
}

#[test]
fn contribution_to_closed_round_is_invalid() {
    let mut book = RoundBook::new();
    book.record_contribution(1, &s("a"), 3).unwrap();
    book.close_round(1, Winner { addr: s("a"), amount: 1 }, Winner { addr: s("a"), amount: 1 })
        .unwrap();
    assert_eq!(
        Err(ContractError::InvalidRound { round: 1 }),
        book.record_contribution(1, &s("a"), 3)
    );
    assert_eq!(
        Err(ContractError::InvalidRound { round: 5 }),
        book.record_contribution(5, &s("a"), 3)
    );
    assert_eq!(Ok(()), book.record_contribution(2, &s("a"), 3));
}

#[test]
fn closing_twice_fails() {
    let mut book = RoundBook::new();
    let w = || Winner { addr: s("a"), amount: 0 };
    book.close_round(1, w(), w()).unwrap();
    assert_eq!(Err(ContractError::AlreadyClosed { round: 1 }), book.close_round(1, w(), w()));
    assert_eq!(Err(ContractError::InvalidRound { round: 3 }), book.close_round(3, w(), w()));
    assert_eq!(2, book.current_round());
    let (a, b) = book.settlement_result(1).unwrap();
    assert_eq!(w(), a);
    assert_eq!(w(), b);
    assert_eq!(Err(ContractError::RoundStillOpen { round: 2 }), book.settlement_result(2));
}

#[test]
fn pot_overflow_is_rejected() {
    let mut book = RoundBook::new();
    book.record_contribution(1, &s("a"), u128::MAX).unwrap();
    assert_eq!(Err(ContractError::ArithmeticOverflow), book.record_contribution(1, &s("b"), 1));
    assert_eq!((1, u128::MAX), book.current_investment());
}

#[test]
fn ledger_mint_and_transfer() {
    let mut l = Ledger::new();
    l.mint(&s("a"), 70).unwrap();
    l.mint(&s("b"), 30).unwrap();
    l.mint(&s("a"), 5).unwrap();
    assert_eq!(105, l.total_supply());
    assert_eq!(75, l.balance_of(&s("a")));
    l.transfer(&s("a"), &s("c"), 25).unwrap();
    assert_eq!(50, l.balance_of(&s("a")));
    assert_eq!(25, l.balance_of(&s("c")));
    assert_eq!(105, l.total_supply());
    assert_eq!(0, l.balance_of(&s("nobody")));
}

#[test]
fn ledger_mint_overflow() {
    let mut l = Ledger::new();
    l.mint(&s("a"), u128::MAX - 1).unwrap();
    assert_eq!(Err(ContractError::Overflow), l.mint(&s("b"), 2));
    assert_eq!(u128::MAX - 1, l.total_supply());
    assert_eq!(0, l.balance_of(&s("b")));
    assert_eq!(Ok(()), l.mint(&s("b"), 1));
}

#[test]
fn ratio_shares_round_down() {
    assert_eq!(Some(2400), multiply_ratio(4000, 60));
    assert_eq!(Some(800), multiply_ratio(4000, 20));
    assert_eq!(Some(0), multiply_ratio(49, 2));
    assert_eq!(Some(1), multiply_ratio(50, 2));
    assert_eq!(Some(u128::MAX / 100 * 37 + (u128::MAX % 100) * 37 / 100), multiply_ratio(u128::MAX, 37));
    assert_eq!(Some(u128::MAX), multiply_ratio(u128::MAX, 100));
    assert_eq!(None, multiply_ratio(u128::MAX, 101));
}

#[test]
fn identity_comparison_by_bytes() {
    assert_eq!(-1, compare_identities(&s("abc"), &s("abd")));
    assert_eq!(1, compare_identities(&s("b"), &s("abc")));
    assert_eq!(-1, compare_identities(&s("ab"), &s("abc")));
    assert_eq!(0, compare_identities(&s("x"), &s("x")));
    assert_eq!(-1, compare_identities(&s("Z"), &s("a")));
}

#[test]
fn ledger_check_detects_corruption() {
    let mut l = Ledger::new();
    l.mint(&s("a"), 7).unwrap();
    l.mint(&s("b"), 3).unwrap();
    assert!(l.check_well_formed());
    l.total_supply = 11;
    assert!(!l.check_well_formed());
    l.total_supply = 14;
    l.balances.push(fs_lottery::ledger::Holding { holder: s("a"), amount: 4 });
    assert!(!l.check_well_formed());
}

#[test]
fn book_check_detects_corruption() {
    let mut book = RoundBook::new();
    book.record_contribution(1, &s("a"), 2).unwrap();
    book.record_contribution(1, &s("b"), 3).unwrap();
    assert!(book.check_well_formed());
    book.investors[0].swap(0, 1);
    assert!(!book.check_well_formed());
    book.investors[0].swap(0, 1);
    book.investments[0].total_amount = 6;
    assert!(!book.check_well_formed());
    book.investments[0].total_amount = 5;
    book.current.round = 2;
    assert!(!book.check_well_formed());
}
