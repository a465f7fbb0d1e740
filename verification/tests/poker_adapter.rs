use yggdrasil::poker::adapter::{buy_in_for, DEFAULT_BUY_IN, INITIAL_SEMENTES};

#[test]
fn initial_sementes_constant_is_ten_thousand() {
    assert_eq!(INITIAL_SEMENTES, 10_000);
}

#[test]
fn small_balance_buys_in_with_available_amount() {
    assert_eq!(buy_in_for(500), Ok(500));
}

#[test]
fn buy_in_is_capped_at_the_default() {
    assert_eq!(buy_in_for(INITIAL_SEMENTES), Ok(DEFAULT_BUY_IN));
    assert_eq!(buy_in_for(1_000), Ok(1_000));
    assert_eq!(buy_in_for(u64::MAX), Ok(1_000));
}

#[test]
fn empty_wallet_cannot_buy_in() {
    assert_eq!(buy_in_for(0), Err("Sem sementes para apostar".to_string()));
}
