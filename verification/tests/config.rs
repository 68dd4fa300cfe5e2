//! Configuration validation, over the values a YAML file holds.

use maul::budget::{DecimalAmount, MicroUsd, MicroUsdError};
use maul::config::{Budget, ConfigError, RawBudget, RawConfig, RawPrice};
use maul::openai::ModelIdError;
use rust_decimal::Decimal;

fn dec(text: &str) -> DecimalAmount {
    let d: Decimal = text.parse().expect("decimal");
    DecimalAmount {
        negative: d.is_sign_negative(),
        mantissa: d.mantissa().unsigned_abs(),
        scale: d.scale(),
    }
}

fn probability_ok(p: f64) -> bool {
    p.is_finite() && (0.0..=1.0).contains(&p)
}

fn raw(scenarios: &[&str], max_llm_calls: u64, max_cost_usd: &str) -> RawConfig {
    RawConfig {
        proxy_listen: "0.0.0.0:7777".to_owned(),
        upstream_base_url: "https://api.openai.com".to_owned(),
        scenarios: scenarios.iter().map(|s| s.to_string()).collect(),
        seed: 0,
        budget: RawBudget {
            max_llm_calls,
            max_cost_usd: dec(max_cost_usd),
        },
        model_prices: Vec::new(),
    }
}

#[test]
fn load_parses_complete_config() {
    let mut input = raw(&["force_500", "malformed_tool_call_json"], 10, "1.5");
    input.proxy_listen = "127.0.0.1:7777".to_owned();
    input.seed = 99;
    let config = input
        .validate(probability_ok(0.25))
        .expect("amounts in range")
        .expect("valid");
    assert_eq!(config.proxy_listen, "127.0.0.1:7777");
    assert_eq!(config.upstream_base_url, "https://api.openai.com");
    assert_eq!(
        config.scenarios,
        vec!["force_500".to_owned(), "malformed_tool_call_json".to_owned()]
    );
    assert_eq!(config.seed, 99);
    assert_eq!(
        config.budget,
        Budget {
            max_llm_calls: 10,
            max_cost_usd: MicroUsd::from_micro_usd(1_500_000),
        }
    );
    assert!(config.model_prices.is_empty());
}

#[test]
fn load_parses_empty_scenarios() {
    let config = raw(&[], 100, "5.0")
        .validate(probability_ok(0.0))
        .expect("amounts in range")
        .expect("valid");
    assert!(config.scenarios.is_empty());
    assert_eq!(config.seed, 0);
}

#[test]
fn load_rejects_unknown_scenario() {
    let error = raw(&["not_a_real_fault"], 100, "5.0")
        .validate(true)
        .expect("amounts in range")
        .unwrap_err();
    assert!(matches!(error, ConfigError::UnknownScenario(name) if name == "not_a_real_fault"));
}

#[test]
fn load_rejects_duplicate_scenario() {
    let error = raw(&["force_500", "force_500"], 100, "5.0")
        .validate(true)
        .expect("amounts in range")
        .unwrap_err();
    assert!(matches!(error, ConfigError::DuplicateScenario(name) if name == "force_500"));
}

#[test]
fn load_rejects_invalid_probability() {
    let error = raw(&[], 100, "5.0")
        .validate(probability_ok(1.1))
        .expect("amounts in range")
        .unwrap_err();
    assert!(matches!(error, ConfigError::InvalidProbability));
}

#[test]
fn load_rejects_zero_call_limit() {
    let error = raw(&[], 0, "5.0")
        .validate(true)
        .expect("amounts in range")
        .unwrap_err();
    assert!(matches!(error, ConfigError::InvalidCallLimit));
}

#[test]
fn load_rejects_costs_more_precise_than_micro_usd() {
    let error = raw(&[], 100, "0.0000001")
        .validate(true)
        .expect("amounts in range")
        .unwrap_err();
    assert!(matches!(
        error,
        ConfigError::InvalidCost(MicroUsdError::TooPrecise(_))
    ));
}

#[test]
fn load_converts_model_price_overrides_to_micro_usd() {
    let mut input = raw(&[], 100, "5.0");
    input.model_prices.push((
        "custom-model".to_owned(),
        RawPrice {
            input_usd_per_million: dec("0.25"),
            output_usd_per_million: dec("1.50"),
        },
    ));
    let config = input
        .validate(true)
        .expect("amounts in range")
        .expect("config should load");
    let (model, price) = &config.model_prices[0];
    assert_eq!(model, "custom-model");
    assert_eq!(price.input_per_million, MicroUsd::from_micro_usd(250_000));
    assert_eq!(
        price.output_per_million,
        MicroUsd::from_micro_usd(1_500_000)
    );
}

#[test]
fn load_rejects_negative_model_price() {
    let mut input = raw(&[], 100, "5.0");
    input.model_prices.push((
        "custom-model".to_owned(),
        RawPrice {
            input_usd_per_million: dec("-0.25"),
            output_usd_per_million: dec("1.50"),
        },
    ));
    let error = input.validate(true).expect("amounts in range").unwrap_err();
    assert!(matches!(
        error,
        ConfigError::InvalidCost(MicroUsdError::Negative)
    ));
}

#[test]
fn empty_addresses_are_rejected_first() {
    let mut input = raw(&["nope"], 0, "5.0");
    input.proxy_listen = "   ".to_owned();
    assert!(matches!(
        input.validate(false).unwrap().unwrap_err(),
        ConfigError::EmptyListenAddress
    ));
    let mut input = raw(&[], 100, "5.0");
    input.upstream_base_url = String::new();
    assert!(matches!(
        input.validate(true).unwrap().unwrap_err(),
        ConfigError::EmptyUpstreamUrl
    ));
}

#[test]
fn invalid_model_identifiers_are_rejected() {
    let mut input = raw(&[], 100, "5.0");
    input.model_prices.push((
        "bad model".to_owned(),
        RawPrice {
            input_usd_per_million: dec("1"),
            output_usd_per_million: dec("1"),
        },
    ));
    let error = input.validate(true).unwrap().unwrap_err();
    assert!(matches!(
        error,
        ConfigError::InvalidModelId { model, source: ModelIdError::Whitespace } if model == "bad model"
    ));
}

#[test]
fn amounts_rust_decimal_cannot_scale_give_no_verdict() {
    let input = RawConfig {
        budget: RawBudget {
            max_llm_calls: 1,
            max_cost_usd: dec("79228162514264337593543950335"),
        },
        ..raw(&[], 1, "1")
    };
    assert!(input.validate(true).is_none());
}

#[test]
fn the_first_refused_scenario_decides() {
    let error = raw(&["force_429", "force_429", "not_a_real_fault"], 100, "5.0")
        .validate(true)
        .expect("amounts in range")
        .unwrap_err();
    assert!(matches!(error, ConfigError::DuplicateScenario(name) if name == "force_429"));
    let error = raw(&["force_500", "bogus", "force_500"], 100, "5.0")
        .validate(true)
        .expect("amounts in range")
        .unwrap_err();
    assert!(matches!(error, ConfigError::UnknownScenario(name) if name == "bogus"));
}
