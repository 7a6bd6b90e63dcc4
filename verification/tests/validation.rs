use portfolio_rebalancer::config::{ApiSettingsError, Config};
use portfolio_rebalancer::editor::{Field, PortfolioAllocationEditor, ValidationError};

fn editor(btc: &str, eth: &str, ltc: &str, threshold: &str, inflow: &str) -> PortfolioAllocationEditor {
    PortfolioAllocationEditor {
        btc_usdt_allocation: btc.to_string(),
        eth_usdt_allocation: eth.to_string(),
        ltc_usdt_allocation: ltc.to_string(),
        usdt_allocation: String::new(),
        rebalance_threshold: threshold.to_string(),
        min_usdt_inflow: inflow.to_string(),
    }
}

#[test]
fn validate_accepts_in_range_allocation() {
    let e = editor("25", "15", "10", "5", "5");
    let c = e.validate(&Config::default()).expect("in-range fields must pass");
    assert_eq!(c.portfolio_allocation.btc_usdt, 25_000_000_000);
    assert_eq!(c.portfolio_allocation.eth_usdt, 15_000_000_000);
    assert_eq!(c.portfolio_allocation.ltc_usdt, 10_000_000_000);
    assert_eq!(c.portfolio_allocation.usdt, 50_000_000_000);
    assert_eq!(c.rebalance_threshold, 5_000_000_000);
    assert_eq!(c.min_usdt_inflow, 5_000_000_000);
}

#[test]
fn validate_derives_cash_exactly() {
    // 33.3 three times leaves exactly 0.1 percent of cash
    let e = editor("33.3", "33.3", "33.3", "0.5", "1");
    let c = e.validate(&Config::default()).expect("99.9 percent must pass");
    assert_eq!(c.portfolio_allocation.usdt, 100_000_000);
    // the full hundred leaves exactly zero
    let e = editor("100", "0", "0", "0", "0");
    let c = e.validate(&Config::default()).expect("exactly 100 percent must pass");
    assert_eq!(c.portfolio_allocation.usdt, 0);
}

#[test]
fn validate_keeps_base_credentials() {
    let mut base = Config::default();
    base.api_key = "kept-key".to_string();
    base.api_secret = "kept-secret".to_string();
    let c = editor("1", "2", "3", "4", "5").validate(&base).expect("must pass");
    assert_eq!(c.api_key, "kept-key");
    assert_eq!(c.api_secret, "kept-secret");
}

#[test]
fn validate_rejects_sum_over_hundred() {
    let e = editor("60", "50", "0", "5", "5");
    assert_eq!(
        e.validate(&Config::default()),
        Err(ValidationError::SumExceedsHundred(110_000_000_000))
    );
}

#[test]
fn sum_error_leaves_config_unchanged() {
    let mut e = editor("60", "50", "0", "5", "5");
    let mut config = Config::default();
    let before = config.clone();
    let r = e.update_config_from_editor(&mut config);
    assert!(r.is_err());
    assert_eq!(config, before);
}

#[test]
fn validate_rejects_negative_fields_by_name() {
    let base = Config::default();
    assert_eq!(
        editor("-1", "0", "0", "0", "0").validate(&base),
        Err(ValidationError::Negative(Field::BtcUsdt))
    );
    assert_eq!(
        editor("0", "-0.5", "0", "0", "0").validate(&base),
        Err(ValidationError::Negative(Field::EthUsdt))
    );
    assert_eq!(
        editor("0", "0", "-100", "0", "0").validate(&base),
        Err(ValidationError::Negative(Field::LtcUsdt))
    );
    assert_eq!(
        editor("0", "0", "0", "-2", "0").validate(&base),
        Err(ValidationError::Negative(Field::RebalanceThreshold))
    );
    assert_eq!(
        editor("0", "0", "0", "0", "-0.000000001").validate(&base),
        Err(ValidationError::Negative(Field::MinUsdtInflow))
    );
}

#[test]
fn validate_rejects_unparseable_fields_by_name() {
    let base = Config::default();
    assert_eq!(
        editor("abc", "0", "0", "0", "0").validate(&base),
        Err(ValidationError::Invalid(Field::BtcUsdt))
    );
    assert_eq!(
        editor("0", "", "0", "0", "0").validate(&base),
        Err(ValidationError::Invalid(Field::EthUsdt))
    );
    assert_eq!(
        editor("0", "0", "1.2.3", "0", "0").validate(&base),
        Err(ValidationError::Invalid(Field::LtcUsdt))
    );
    assert_eq!(
        editor("0", "0", "0", "1e3", "0").validate(&base),
        Err(ValidationError::Invalid(Field::RebalanceThreshold))
    );
    assert_eq!(
        editor("0", "0", "0", "0", "0.0000000001").validate(&base),
        Err(ValidationError::Invalid(Field::MinUsdtInflow))
    );
}

#[test]
fn validate_accepts_flexible_decimal_forms() {
    let c = editor("+25", ".5", "10.", "0", "0")
        .validate(&Config::default())
        .expect("signs and bare dots on one side must pass");
    assert_eq!(c.portfolio_allocation.btc_usdt, 25_000_000_000);
    assert_eq!(c.portfolio_allocation.eth_usdt, 500_000_000);
    assert_eq!(c.portfolio_allocation.ltc_usdt, 10_000_000_000);
    // minus zero is zero, not a negative value
    let c = editor("-0", "0", "0", "-0.0", "0").validate(&Config::default()).expect("-0 is zero");
    assert_eq!(c.portfolio_allocation.btc_usdt, 0);
    assert_eq!(c.rebalance_threshold, 0);
}

#[test]
fn usdt_display_shows_remainder() {
    let e = editor("25", "15", "10", "5", "5");
    assert_eq!(e.calculate_usdt(), 50_000_000_000);
    assert_eq!(e.get_usdt_display(), "50.0");
}

#[test]
fn usdt_display_treats_unparseable_as_zero() {
    let e = editor("nonsense", "", "10", "5", "5");
    assert_eq!(e.get_usdt_display(), "90.0");
}

#[test]
fn usdt_display_is_zero_past_hundred() {
    let e = editor("60", "50", "0", "5", "5");
    assert_eq!(e.get_usdt_display(), "0.0");
}

#[test]
fn usdt_display_can_exceed_hundred_on_negative_entry() {
    let e = editor("-50", "0", "0", "5", "5");
    assert_eq!(e.get_usdt_display(), "150.0");
}

#[test]
fn usdt_display_rounds_half_up_to_tenths() {
    // 100 - 99.99 = 0.01 rounds down to 0.0
    let e = editor("33.33", "33.33", "33.33", "0", "0");
    assert_eq!(e.get_usdt_display(), "0.0");
    // 100 - 99.95 = 0.05 rounds up to 0.1
    let e = editor("99.95", "0", "0", "0", "0");
    assert_eq!(e.get_usdt_display(), "0.1");
}

#[test]
fn update_config_from_editor_stores_and_refreshes_display() {
    let mut e = editor("30", "20", "10", "2.5", "7");
    let mut config = Config::default();
    e.update_config_from_editor(&mut config).expect("must pass");
    assert_eq!(config.portfolio_allocation.btc_usdt, 30_000_000_000);
    assert_eq!(config.portfolio_allocation.usdt, 40_000_000_000);
    assert_eq!(config.rebalance_threshold, 2_500_000_000);
    assert_eq!(config.min_usdt_inflow, 7_000_000_000);
    assert_eq!(e.usdt_allocation, "40.0");
}

#[test]
fn editor_from_config_renders_fields() {
    let mut config = Config::default();
    config.portfolio_allocation.btc_usdt = 12_500_000_000;
    let e = PortfolioAllocationEditor::from_config(&config);
    assert_eq!(e.btc_usdt_allocation, "12.5");
    assert_eq!(e.eth_usdt_allocation, "15");
    assert_eq!(e.ltc_usdt_allocation, "10");
    assert_eq!(e.usdt_allocation, "50.0");
    assert_eq!(e.rebalance_threshold, "5");
    assert_eq!(e.min_usdt_inflow, "5");
}

#[test]
fn api_settings_store_trimmed_credentials() {
    let mut config = Config::default();
    config.update_api_settings("  my-key \n", "\tmy-secret ").expect("must pass");
    assert_eq!(config.api_key, "my-key");
    assert_eq!(config.api_secret, "my-secret");
}

#[test]
fn api_settings_reject_blank_credentials() {
    let mut config = Config::default();
    let before = config.clone();
    assert_eq!(
        config.update_api_settings("   ", "secret"),
        Err(ApiSettingsError::EmptyCredentials)
    );
    assert_eq!(config.update_api_settings("key", ""), Err(ApiSettingsError::EmptyCredentials));
    assert_eq!(config, before);
}
