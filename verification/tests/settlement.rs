use fair_burn::{
    settle, Coin, Config, SettlementError, SettlementEvent, SettlementMsg, SettlementResult,
};

fn coin(amount: u128, denom: &str) -> Coin {
    Coin { denom: denom.to_string(), amount }
}

fn settle_ok(funds: Vec<Coin>, recipient: Option<&str>, fee_rate_bps: u64) -> SettlementResult {
    let config = Config::new(fee_rate_bps);
    settle(&funds, &recipient.map(|r| r.to_string()), &config).unwrap()
}

fn settle_err(funds: Vec<Coin>, recipient: Option<&str>, fee_rate_bps: u64) -> SettlementError {
    let config = Config::new(fee_rate_bps);
    settle(&funds, &recipient.map(|r| r.to_string()), &config).unwrap_err()
}

#[test]
fn empty_bundle_is_rejected() {
    assert_eq!(settle_err(vec![], None, 5000), SettlementError::EmptyInput);
}

#[test]
fn zero_amount_is_rejected() {
    assert_eq!(settle_err(vec![coin(0, "ustars")], None, 5000), SettlementError::ZeroAmount);
    assert_eq!(settle_err(vec![coin(0, "uatom")], Some("recipient0"), 5000), SettlementError::ZeroAmount);
}

#[test]
fn zero_coin_in_another_denomination_is_rejected() {
    // The zero aggregate of "uatom" fails the whole bundle, all or nothing.
    assert_eq!(
        settle_err(vec![coin(11, "ustars"), coin(0, "uatom")], None, 5000),
        SettlementError::ZeroAmount
    );
}

#[test]
fn zero_coin_merging_into_a_positive_aggregate_is_accepted() {
    // A zero coin beside a positive one of the same denomination aggregates
    // to a positive amount and settles.
    let result = settle_ok(vec![coin(0, "ustars"), coin(11, "ustars")], None, 5000);
    assert_eq!(
        result.msgs,
        vec![
            SettlementMsg::Burn { coin: coin(6, "ustars") },
            SettlementMsg::FundPool { coins: vec![coin(5, "ustars")] },
        ]
    );
}

#[test]
fn native_without_recipient_burns_and_funds_the_pool() {
    // Rate 50%, amount 11: burn 6, pool 5, disclosed on one event.
    let result = settle_ok(vec![coin(11, "ustars")], None, 5000);
    assert_eq!(
        result.msgs,
        vec![
            SettlementMsg::Burn { coin: coin(6, "ustars") },
            SettlementMsg::FundPool { coins: vec![coin(5, "ustars")] },
        ]
    );
    assert_eq!(
        result.events,
        vec![SettlementEvent::FairBurn { burn_amount: 6, dist_amount: Some(5) }]
    );
}

#[test]
fn native_with_recipient_burns_and_transfers() {
    let result = settle_ok(vec![coin(11, "ustars")], Some("recipient0"), 5000);
    assert_eq!(
        result.msgs,
        vec![
            SettlementMsg::Burn { coin: coin(6, "ustars") },
            SettlementMsg::Transfer { to: "recipient0".to_string(), coins: vec![coin(5, "ustars")] },
        ]
    );
    assert_eq!(
        result.events,
        vec![SettlementEvent::FairBurn { burn_amount: 6, dist_amount: None }]
    );
}

#[test]
fn non_native_without_recipient_goes_to_the_pool_unsplit() {
    let result = settle_ok(vec![coin(11, "uatom")], None, 5000);
    assert_eq!(
        result.msgs,
        vec![SettlementMsg::FundPool { coins: vec![coin(11, "uatom")] }]
    );
    assert_eq!(
        result.events,
        vec![SettlementEvent::FundPool { coins: vec![coin(11, "uatom")] }]
    );
}

#[test]
fn non_native_with_recipient_is_split() {
    // Fee 6 funds the pool, remainder 5 is transferred to the recipient.
    let result = settle_ok(vec![coin(11, "uatom")], Some("recipient0"), 5000);
    assert_eq!(
        result.msgs,
        vec![
            SettlementMsg::FundPool { coins: vec![coin(6, "uatom")] },
            SettlementMsg::Transfer { to: "recipient0".to_string(), coins: vec![coin(5, "uatom")] },
        ]
    );
    assert_eq!(
        result.events,
        vec![SettlementEvent::FundPool { coins: vec![coin(6, "uatom")] }]
    );
}

#[test]
fn duplicate_coins_aggregate_before_the_split() {
    // Two coins of 1 aggregate to 2 and are split once: burn 1, pool 1 --
    // not two independent splits burning 1 each.
    let result = settle_ok(vec![coin(1, "ustars"), coin(1, "ustars")], None, 5000);
    assert_eq!(
        result.msgs,
        vec![
            SettlementMsg::Burn { coin: coin(1, "ustars") },
            SettlementMsg::FundPool { coins: vec![coin(1, "ustars")] },
        ]
    );
    assert_eq!(
        result.events,
        vec![SettlementEvent::FairBurn { burn_amount: 1, dist_amount: Some(1) }]
    );

    // The same bundle pre-aggregated settles identically.
    let merged = settle_ok(vec![coin(2, "ustars")], None, 5000);
    assert_eq!(result, merged);
}

#[test]
fn multiple_denominations_settle_in_denomination_order() {
    let result = settle_ok(vec![coin(11, "ustars"), coin(11, "uatom")], None, 5000);
    // "uatom" sorts before "ustars": its pool entry accumulates first, but
    // the pool is flushed only after the native branch emitted its messages.
    assert_eq!(
        result.msgs,
        vec![
            SettlementMsg::Burn { coin: coin(6, "ustars") },
            SettlementMsg::FundPool { coins: vec![coin(5, "ustars")] },
            SettlementMsg::FundPool { coins: vec![coin(11, "uatom")] },
        ]
    );
    assert_eq!(
        result.events,
        vec![
            SettlementEvent::FairBurn { burn_amount: 6, dist_amount: Some(5) },
            SettlementEvent::FundPool { coins: vec![coin(11, "uatom")] },
        ]
    );
}

#[test]
fn pool_coins_keep_denomination_order() {
    let result = settle_ok(vec![coin(5, "zcoin"), coin(7, "acoin")], None, 5000);
    assert_eq!(
        result.msgs,
        vec![SettlementMsg::FundPool { coins: vec![coin(7, "acoin"), coin(5, "zcoin")] }]
    );
    assert_eq!(
        result.events,
        vec![SettlementEvent::FundPool { coins: vec![coin(7, "acoin"), coin(5, "zcoin")] }]
    );
}

#[test]
fn recipient_named_like_the_pool_merges_into_it() {
    // A recipient spelled exactly like the pool sentinel shares its
    // accumulator entry, so everything leaves in one pool-funding
    // instruction.
    let result = settle_ok(vec![coin(11, "uatom")], Some("fair-burn-pool"), 5000);
    assert_eq!(
        result.msgs,
        vec![SettlementMsg::FundPool { coins: vec![coin(6, "uatom"), coin(5, "uatom")] }]
    );
    assert_eq!(
        result.events,
        vec![SettlementEvent::FundPool { coins: vec![coin(6, "uatom"), coin(5, "uatom")] }]
    );
}

#[test]
fn rate_zero_burns_nothing_but_still_discloses() {
    let result = settle_ok(vec![coin(10, "ustars")], None, 0);
    assert_eq!(
        result.msgs,
        vec![
            SettlementMsg::Burn { coin: coin(0, "ustars") },
            SettlementMsg::FundPool { coins: vec![coin(10, "ustars")] },
        ]
    );
    assert_eq!(
        result.events,
        vec![SettlementEvent::FairBurn { burn_amount: 0, dist_amount: Some(10) }]
    );
}

#[test]
fn rate_full_burns_everything() {
    let result = settle_ok(vec![coin(10, "ustars")], Some("recipient0"), 10000);
    assert_eq!(result.msgs, vec![SettlementMsg::Burn { coin: coin(10, "ustars") }]);
    assert_eq!(
        result.events,
        vec![SettlementEvent::FairBurn { burn_amount: 10, dist_amount: None }]
    );
}

#[test]
fn settlement_is_deterministic() {
    let bundle = || vec![coin(11, "ustars"), coin(3, "uatom"), coin(4, "uatom")];
    let first = settle_ok(bundle(), Some("recipient0"), 2500);
    let second = settle_ok(bundle(), Some("recipient0"), 2500);
    assert_eq!(first, second);
}

#[test]
fn try_execute_fair_burn() {
    // No funds fails.
    assert_eq!(settle_err(vec![], None, 5000), SettlementError::EmptyInput);

    // A zero amount of the native denomination fails.
    assert_eq!(settle_err(vec![coin(0, "ustars")], None, 5000), SettlementError::ZeroAmount);

    // One native unit succeeds and burns that unit.
    let result = settle_ok(vec![coin(1, "ustars")], None, 5000);
    assert_eq!(result.msgs[0], SettlementMsg::Burn { coin: coin(1, "ustars") });
    assert_eq!(
        result.events[0],
        SettlementEvent::FairBurn { burn_amount: 1, dist_amount: None }
    );

    // Duplicate native coins merge before the split.
    let result = settle_ok(vec![coin(1, "ustars"), coin(1, "ustars")], None, 5000);
    assert_eq!(result.msgs[0], SettlementMsg::Burn { coin: coin(1, "ustars") });
    assert_eq!(
        result.events[0],
        SettlementEvent::FairBurn { burn_amount: 1, dist_amount: Some(1) }
    );

    // Fees are calculated with ceiling rounding.
    let result = settle_ok(vec![coin(11, "ustars")], None, 5000);
    assert_eq!(
        result.events,
        vec![SettlementEvent::FairBurn { burn_amount: 6, dist_amount: Some(5) }]
    );

    // Several denominations settle together.
    let result = settle_ok(vec![coin(11, "ustars"), coin(11, "uatom")], None, 5000);
    assert_eq!(
        result.events,
        vec![
            SettlementEvent::FairBurn { burn_amount: 6, dist_amount: Some(5) },
            SettlementEvent::FundPool { coins: vec![coin(11, "uatom")] },
        ]
    );

    // A recipient receives the native remainder.
    let result = settle_ok(vec![coin(11, "ustars")], Some("recipient0"), 5000);
    assert_eq!(
        result.events,
        vec![SettlementEvent::FairBurn { burn_amount: 6, dist_amount: None }]
    );
    assert_eq!(
        result.msgs[1],
        SettlementMsg::Transfer { to: "recipient0".to_string(), coins: vec![coin(5, "ustars")] }
    );

    // A recipient receives the non-native remainder, the pool the fee.
    let result = settle_ok(vec![coin(11, "uatom")], Some("recipient0"), 5000);
    assert_eq!(
        result.events,
        vec![SettlementEvent::FundPool { coins: vec![coin(6, "uatom")] }]
    );
    assert_eq!(
        result.msgs,
        vec![
            SettlementMsg::FundPool { coins: vec![coin(6, "uatom")] },
            SettlementMsg::Transfer { to: "recipient0".to_string(), coins: vec![coin(5, "uatom")] },
        ]
    );
}

#[test]
fn rate_zero_still_routes_a_fee_coin_to_the_pool() {
    // With a zero rate and a recipient, the fee coin exists with amount 0:
    // the pool entry is created all the same, mirroring the split contract.
    let result = settle_ok(vec![coin(10, "uatom")], Some("recipient0"), 0);
    assert_eq!(
        result.msgs,
        vec![
            SettlementMsg::FundPool { coins: vec![coin(0, "uatom")] },
            SettlementMsg::Transfer { to: "recipient0".to_string(), coins: vec![coin(10, "uatom")] },
        ]
    );
}
