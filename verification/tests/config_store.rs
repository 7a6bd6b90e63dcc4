use portfolio_rebalancer::config::{Config, PortfolioAllocation};
use portfolio_rebalancer::store::{load, load_or_default, to_json_pretty, LoadError};

fn sample_config() -> Config {
    Config {
        api_key: "key-123".to_string(),
        api_secret: "secret-456".to_string(),
        portfolio_allocation: PortfolioAllocation {
            btc_usdt: 25_000_000_000,
            eth_usdt: 15_000_000_000,
            ltc_usdt: 10_000_000_000,
            usdt: 50_000_000_000,
        },
        rebalance_threshold: 5_000_000_000,
        min_usdt_inflow: 5_000_000_000,
    }
}

#[test]
fn default_config_values() {
    let c = Config::default();
    assert_eq!(c.api_key, "");
    assert_eq!(c.api_secret, "");
    assert_eq!(c.portfolio_allocation.btc_usdt, 25_000_000_000);
    assert_eq!(c.portfolio_allocation.eth_usdt, 15_000_000_000);
    assert_eq!(c.portfolio_allocation.ltc_usdt, 10_000_000_000);
    assert_eq!(c.portfolio_allocation.usdt, 50_000_000_000);
    assert_eq!(c.rebalance_threshold, 5_000_000_000);
    assert_eq!(c.min_usdt_inflow, 5_000_000_000);
}

#[test]
fn save_then_load_round_trip() {
    let c = sample_config();
    let text = to_json_pretty(&c);
    let back = load(Some(text.as_str())).expect("rendered text must parse");
    assert_eq!(back, c);
}

#[test]
fn round_trip_with_escaped_credentials() {
    let mut c = sample_config();
    c.api_key = "a\"b\\c\nd\te\u{1}f".to_string();
    c.api_secret = "line1\r\nline2".to_string();
    let text = to_json_pretty(&c);
    let back = load(Some(text.as_str())).expect("rendered text must parse");
    assert_eq!(back, c);
}

#[test]
fn round_trip_with_fractional_values() {
    let mut c = sample_config();
    c.portfolio_allocation.btc_usdt = 12_500_000_000; // 12.5
    c.portfolio_allocation.eth_usdt = 100_000; // 0.0001
    c.portfolio_allocation.ltc_usdt = 1; // 0.000000001
    c.portfolio_allocation.usdt = 87_499_899_999;
    c.rebalance_threshold = 2_718_281_828;
    c.min_usdt_inflow = 0;
    let text = to_json_pretty(&c);
    let back = load(Some(text.as_str())).expect("rendered text must parse");
    assert_eq!(back, c);
}

#[test]
fn rendered_text_has_expected_shape() {
    let text = to_json_pretty(&sample_config());
    let expected = "{\n  \"api_key\": \"key-123\",\n  \"api_secret\": \"secret-456\",\n  \"portfolio_allocation\": {\n    \"BTC_USDT\": 25.0,\n    \"ETH_USDT\": 15.0,\n    \"LTC_USDT\": 10.0,\n    \"USDT\": 50.0\n  },\n  \"rebalance_threshold\": 5.0,\n  \"min_usdt_inflow\": 5.0\n}";
    assert_eq!(text, expected);
}

#[test]
fn rendered_text_is_valid_json_for_serde() {
    let text = to_json_pretty(&sample_config());
    let v: serde_json::Value = serde_json::from_str(&text).expect("serde_json must accept it");
    assert_eq!(v["api_key"].as_str(), Some("key-123"));
    assert_eq!(v["api_secret"].as_str(), Some("secret-456"));
    assert_eq!(v["portfolio_allocation"]["BTC_USDT"].as_f64(), Some(25.0));
    assert_eq!(v["portfolio_allocation"]["ETH_USDT"].as_f64(), Some(15.0));
    assert_eq!(v["portfolio_allocation"]["LTC_USDT"].as_f64(), Some(10.0));
    assert_eq!(v["portfolio_allocation"]["USDT"].as_f64(), Some(50.0));
    assert_eq!(v["rebalance_threshold"].as_f64(), Some(5.0));
    assert_eq!(v["min_usdt_inflow"].as_f64(), Some(5.0));
}

#[test]
fn load_missing_file_yields_default() {
    let c = load_or_default(None);
    assert_eq!(c, Config::default());
    assert_eq!(load(None), Err(LoadError::NotFound));
}

#[test]
fn load_garbage_yields_default() {
    assert_eq!(load(Some("not json at all")), Err(LoadError::Parse));
    assert_eq!(load(Some("{")), Err(LoadError::Parse));
    assert_eq!(load_or_default(Some("not json at all")), Config::default());
}

#[test]
fn parse_accepts_reordered_members() {
    let text = "  { \"min_usdt_inflow\": 7.25 , \"api_secret\": \"s\", \"portfolio_allocation\": { \"USDT\": 50.0, \"LTC_USDT\": 10.0, \"ETH_USDT\": 15.0, \"BTC_USDT\": 25.0 }, \"api_key\": \"k\", \"rebalance_threshold\": 1.5 }  ";
    let c = load(Some(text)).expect("reordered members must parse");
    assert_eq!(c.api_key, "k");
    assert_eq!(c.api_secret, "s");
    assert_eq!(c.portfolio_allocation.btc_usdt, 25_000_000_000);
    assert_eq!(c.rebalance_threshold, 1_500_000_000);
    assert_eq!(c.min_usdt_inflow, 7_250_000_000);
}

#[test]
fn parse_decodes_unicode_escape() {
    let text = "{ \"api_key\": \"a\\u0041b\", \"api_secret\": \"\\u00e9\", \"portfolio_allocation\": { \"BTC_USDT\": 0.0, \"ETH_USDT\": 0.0, \"LTC_USDT\": 0.0, \"USDT\": 100.0 }, \"rebalance_threshold\": 0.0, \"min_usdt_inflow\": 0.0 }";
    let c = load(Some(text)).expect("unicode escapes must parse");
    assert_eq!(c.api_key, "aAb");
    assert_eq!(c.api_secret, "\u{e9}");
}

#[test]
fn parse_rejects_malformed_documents() {
    let good = to_json_pretty(&sample_config());
    // a duplicated member
    let dup = good.replace(
        "\"rebalance_threshold\": 5.0",
        "\"rebalance_threshold\": 5.0,\n  \"rebalance_threshold\": 5.0",
    );
    assert_eq!(load(Some(dup.as_str())), Err(LoadError::Parse));
    // a missing member
    let missing = good.replace(",\n  \"min_usdt_inflow\": 5.0", "");
    assert_eq!(load(Some(missing.as_str())), Err(LoadError::Parse));
    // an unknown member
    let unknown = good.replace("\"api_key\"", "\"api_keys\"");
    assert_eq!(load(Some(unknown.as_str())), Err(LoadError::Parse));
    // trailing text after the object
    let trailing = format!("{} x", good);
    assert_eq!(load(Some(trailing.as_str())), Err(LoadError::Parse));
    // a negative weight does not fit the schema
    let negative = good.replace("\"BTC_USDT\": 25.0", "\"BTC_USDT\": -25.0");
    assert_eq!(load(Some(negative.as_str())), Err(LoadError::Parse));
    // more than nine fraction digits
    let deep = good.replace("\"BTC_USDT\": 25.0", "\"BTC_USDT\": 25.0000000001");
    assert_eq!(load(Some(deep.as_str())), Err(LoadError::Parse));
}
