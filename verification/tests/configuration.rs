use fair_burn::{update_fee_rate, Config, UpdateEvent};

#[test]
fn try_instantiate() {
    let config = Config::new(500);
    assert_eq!(config.fee_rate_bps, 500);
}

#[test]
fn try_sudo_update() {
    let mut config = Config::new(5000);
    assert_eq!(config.fee_rate_bps, 5000);

    let event = update_fee_rate(&mut config, Some(4000));
    assert_eq!(config.fee_rate_bps, 4000);
    assert_eq!(event, UpdateEvent { fee_rate_bps: Some(4000) });
}

#[test]
fn update_without_a_rate_changes_nothing() {
    let mut config = Config::new(5000);
    let event = update_fee_rate(&mut config, None);
    assert_eq!(config, Config::new(5000));
    assert_eq!(event, UpdateEvent { fee_rate_bps: None });
}

#[test]
fn update_performs_no_bounds_validation() {
    // Bounds enforcement belongs to the authorizing caller; the update
    // itself stores whatever it is given.
    let mut config = Config::new(5000);
    update_fee_rate(&mut config, Some(20000));
    assert_eq!(config.fee_rate_bps, 20000);
}
