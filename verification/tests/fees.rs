use fair_burn::{calculate_payouts, split, Coin, Config};

fn coin(amount: u128, denom: &str) -> Coin {
    Coin { denom: denom.to_string(), amount }
}

#[test]
fn split_rounds_the_fee_up() {
    // 50% of 11 rounds up to 6, leaving 5.
    assert_eq!(split(11, 5000), (6, Some(5)));
    // 50% of 1 rounds up to 1, leaving nothing.
    assert_eq!(split(1, 5000), (1, None));
    // 5% of 100 is exactly 5.
    assert_eq!(split(100, 500), (5, Some(95)));
    // 0.01% of 1 rounds up to a whole unit.
    assert_eq!(split(1, 1), (1, None));
    // 33.33% of 3 rounds up to 1.
    assert_eq!(split(3, 3333), (1, Some(2)));
}

#[test]
fn split_rate_zero_charges_nothing() {
    assert_eq!(split(10, 0), (0, Some(10)));
}

#[test]
fn split_rate_full_takes_everything() {
    assert_eq!(split(10, 10000), (10, None));
}

#[test]
fn split_conserves_the_amount() {
    for &(amount, bps) in
        &[(1u128, 0u64), (1, 9999), (11, 5000), (1000, 123), (u128::MAX, 10000), (u128::MAX, 1)]
    {
        let (fee, rem) = split(amount, bps);
        assert_eq!(fee + rem.unwrap_or(0), amount);
    }
}

#[test]
fn split_handles_the_largest_amount() {
    let (fee, rem) = split(u128::MAX, 5000);
    assert_eq!(fee + rem.unwrap_or(0), u128::MAX);
    assert_eq!(fee, u128::MAX / 2 + 1);
}

#[test]
fn calculate_payouts_splits_one_coin() {
    let config = Config::new(5000);
    let (fee_coin, dist_coin) = calculate_payouts(&coin(11, "ustars"), &config);
    assert_eq!(fee_coin, coin(6, "ustars"));
    assert_eq!(dist_coin, Some(coin(5, "ustars")));

    let (fee_coin, dist_coin) = calculate_payouts(&coin(1, "ustars"), &config);
    assert_eq!(fee_coin, coin(1, "ustars"));
    assert_eq!(dist_coin, None);
}
