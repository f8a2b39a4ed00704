use stock_mm::config::{
    load_app_config, EnvValues, FileAppConfig, StrategyConfig, TradingEnv, VenueSecrets,
};
use stock_mm::exchange::session::parse_dec;
use stock_mm::types::ids::StrategyId;

#[test]
fn default_strategy_is_valid() {
    StrategyConfig::default().validate().unwrap();
}

#[test]
fn requote_must_be_inside_grid() {
    let mut cfg = StrategyConfig::default();
    cfg.pricing.requote_threshold = parse_dec("0.002").unwrap();
    assert!(cfg.validate().is_err());
}

#[test]
fn force_exit_must_follow_fast() {
    let mut cfg = StrategyConfig::default();
    cfg.exit.force_exit_timeout_ms = 1_000;
    assert!(cfg.validate().is_err());
}

#[test]
fn strategy_id_rejects_dash() {
    let mut cfg = StrategyConfig::default();
    cfg.id = StrategyId::new("bad-id");
    assert!(cfg.validate().is_err());
}

fn fault(change: impl FnOnce(&mut StrategyConfig)) -> String {
    let mut cfg = StrategyConfig::default();
    change(&mut cfg);
    cfg.validate().unwrap_err()
}

#[test]
fn each_rule_of_the_settings_has_its_message() {
    let zero = parse_dec("0").unwrap();
    let less = parse_dec("-1").unwrap();
    let lots = parse_dec("1000000").unwrap();
    assert_eq!(fault(|c| c.id = StrategyId::new("")), "strategy id is required");
    assert_eq!(
        fault(|c| c.id = StrategyId::new("a-b")),
        "strategy id must not contain '-' (used in client_order_id)"
    );
    assert_eq!(fault(|c| c.name = "  ".to_string()), "strategy name is required");
    assert_eq!(fault(|c| c.market.fx = zero), "fx must be > 0");
    assert_eq!(fault(|c| c.market.multiplier = zero), "multiplier must be > 0");
    assert_eq!(
        fault(|c| c.pricing.grid.clear()),
        "at least one grid level is required"
    );
    assert_eq!(
        fault(|c| c.pricing.grid[0].distance = zero),
        "grid[0].distance must be > 0"
    );
    assert_eq!(
        fault(|c| c.pricing.grid[1].size = zero),
        "grid[1].size must be > 0"
    );
    assert_eq!(
        fault(|c| c.pricing.grid[0].size = lots),
        "grid[0].size exceeds max_order_size"
    );
    assert_eq!(
        fault(|c| c.pricing.requote_threshold = zero),
        "requote_threshold must be > 0"
    );
    assert_eq!(
        fault(|c| c.pricing.requote_threshold = lots),
        "requote_threshold must be < smallest grid distance"
    );
    assert_eq!(
        fault(|c| c.pricing.jump_threshold = zero),
        "jump_threshold must be > 0"
    );
    assert_eq!(
        fault(|c| c.pricing.spread_window_ms = 999),
        "spread_window_ms must be >= 1000"
    );
    assert_eq!(fault(|c| c.exit.take_profit = zero), "take_profit must be > 0");
    assert_eq!(fault(|c| c.exit.max_loss = zero), "max_loss must be > 0");
    assert_eq!(
        fault(|c| c.exit.fast_exit_timeout_ms = 0),
        "fast_exit_timeout_ms must be > 0"
    );
    assert_eq!(
        fault(|c| c.exit.force_exit_timeout_ms = 1),
        "force_exit_timeout_ms must be > fast_exit_timeout_ms"
    );
    assert_eq!(
        fault(|c| c.risk.max_long = less),
        "position/order limits must be non-negative; max_order_size > 0"
    );
    assert_eq!(
        fault(|c| c.risk.max_long = lots),
        "max_long/max_short cannot exceed max_position"
    );
    assert_eq!(
        fault(|c| c.risk.max_book_age_ms = 0),
        "max_book_age_ms must be > 0"
    );
}

#[test]
fn trading_environments_by_name() {
    assert_eq!(TradingEnv::parse("MAINNET"), TradingEnv::Mainnet);
    assert_eq!(TradingEnv::parse("prod"), TradingEnv::Mainnet);
    assert_eq!(TradingEnv::parse("anything"), TradingEnv::Testnet);
}

#[test]
fn settings_of_the_application() {
    let env = EnvValues {
        api_listen: None,
        database_url: None,
        trading_env: None,
        rust_log: None,
        web_dir: None,
        binance_key: Some("k".to_string()),
        binance_secret: Some("s".to_string()),
        gate_key: Some(" ".to_string()),
        gate_secret: None,
    };
    let app = load_app_config(env, FileAppConfig::default());
    assert_eq!(app.trading_env, TradingEnv::Testnet);
    assert_eq!(app.web_dir, "web/dist");
    assert_eq!(app.recommended_underlyings.len(), 20);
    assert!(app.venues.has_binance());
    assert!(!app.venues.has_gate());
    let none = VenueSecrets {
        binance_key: Some("k".to_string()),
        binance_secret: None,
        gate_key: None,
        gate_secret: None,
    };
    assert!(!none.has_binance());
}
