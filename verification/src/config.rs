//! Settings of the application and of a strategy.
use crate::text::{
    cat2, cat3, digits, digits_text, lower_text, lowered, opt_view, same_text, trim, trimmed,
};
use crate::types::decimal::{
    dec_int, dec_one, dec_zero, decimal_abs, decimal_sum, decimal_text, law_order_transitive,
    Decimal,
};
use crate::types::ids::{canonical, RunMode, StrategyId, SymbolId, VenueId};
use vstd::prelude::*;

verus! {

#[derive(Clone, Copy, Debug, PartialEq, Eq, Structural)]
pub enum TradingEnv {
    Testnet,
    Mainnet,
}

impl TradingEnv {
    /// The environment that a name means; the test network where it means none.
    pub open spec fn named(s: Seq<char>) -> TradingEnv {
        let l = lowered(s);
        if l == "mainnet"@ || l == "prod"@ || l == "live"@ {
            TradingEnv::Mainnet
        } else {
            TradingEnv::Testnet
        }
    }

    pub fn parse(s: &str) -> (r: TradingEnv)
        ensures
            r == TradingEnv::named(s@),
    {
        let l = lower_text(s);
        if same_text(&l, "mainnet") || same_text(&l, "prod") || same_text(&l, "live") {
            TradingEnv::Mainnet
        } else {
            TradingEnv::Testnet
        }
    }
}

#[derive(Clone, Copy, Debug)]
pub struct GlobalRiskConfig {
    pub max_notional: Decimal,
    pub max_notional_per_venue: Decimal,
    pub max_daily_loss: Decimal,
}

impl Default for GlobalRiskConfig {
    fn default() -> (r: Self)
        ensures
            r.max_notional == dec_int(50_000),
            r.max_notional_per_venue == dec_int(30_000),
            r.max_daily_loss == dec_int(1_000),
    {
        GlobalRiskConfig {
            max_notional: Decimal::from_int(50_000),
            max_notional_per_venue: Decimal::from_int(30_000),
            max_daily_loss: Decimal::from_int(1_000),
        }
    }
}

#[derive(Clone, Debug)]
pub struct VenueSecrets {
    pub binance_key: Option<String>,
    pub binance_secret: Option<String>,
    pub gate_key: Option<String>,
    pub gate_secret: Option<String>,
}

impl Default for VenueSecrets {
    fn default() -> (r: Self)
        ensures
            r.binance_key is None,
            r.binance_secret is None,
            r.gate_key is None,
            r.gate_secret is None,
    {
        VenueSecrets { binance_key: None, binance_secret: None, gate_key: None, gate_secret: None }
    }
}

/// A text is there and is not empty.
pub open spec fn given(s: Option<Seq<char>>) -> bool {
    s matches Some(t) && t.len() > 0
}

fn is_given(s: &Option<String>) -> (r: bool)
    ensures
        r == given(opt_view(*s)),
{
    match s {
        Some(t) => {
            let empty = same_text(t, "");
            proof {
                reveal_strlit("");
                if t@.len() == 0 {
                    assert(t@ =~= ""@);
                }
            }
            !empty
        },
        None => false,
    }
}

/// A text without its value where the value is empty.
fn keep_given(s: Option<String>) -> (r: Option<String>)
    ensures
        r == (if given(opt_view(s)) {
            s
        } else {
            None
        }),
{
    if is_given(&s) {
        s
    } else {
        None
    }
}

impl VenueSecrets {
    pub fn has_binance(&self) -> (r: bool)
        ensures
            r == (given(opt_view(self.binance_key)) && given(opt_view(self.binance_secret))),
    {
        is_given(&self.binance_key) && is_given(&self.binance_secret)
    }

    pub fn has_gate(&self) -> (r: bool)
        ensures
            r == (given(opt_view(self.gate_key)) && given(opt_view(self.gate_secret))),
    {
        is_given(&self.gate_key) && is_given(&self.gate_secret)
    }
}

/// What the settings file says.
#[derive(Clone, Debug)]
pub struct FileAppConfig {
    pub listen: String,
    pub recommended_underlyings: Vec<String>,
    pub global_risk: GlobalRiskConfig,
}

pub fn default_listen() -> (r: String)
    ensures
        r@ == "127.0.0.1:8080"@,
{
    "127.0.0.1:8080".to_owned()
}

impl Default for FileAppConfig {
    fn default() -> (r: Self)
        ensures
            r.listen@ == "127.0.0.1:8080"@,
            names(r.recommended_underlyings@) == usual_underlyings(),
            r.global_risk.max_notional == dec_int(50_000),
            r.global_risk.max_notional_per_venue == dec_int(30_000),
            r.global_risk.max_daily_loss == dec_int(1_000),
    {
        FileAppConfig {
            listen: default_listen(),
            recommended_underlyings: default_underlyings(),
            global_risk: GlobalRiskConfig::default(),
        }
    }
}

/// What a list of texts says.
pub open spec fn names(v: Seq<String>) -> Seq<Seq<char>> {
    v.map_values(|s: String| s@)
}

/// The stocks that are quoted where nothing else is known.
pub open spec fn usual_underlyings() -> Seq<Seq<char>> {
    seq![
        "AAPL"@,
        "TSLA"@,
        "NVDA"@,
        "MSFT"@,
        "AMZN"@,
        "GOOGL"@,
        "META"@,
        "NFLX"@,
        "AMD"@,
        "BABA"@,
        "COIN"@,
        "MSTR"@,
        "PLTR"@,
        "AVGO"@,
        "INTC"@,
        "CRM"@,
        "ORCL"@,
        "QCOM"@,
        "HOOD"@,
        "SMCI"@,
    ]
}

pub fn default_underlyings() -> (r: Vec<String>)
    ensures
        names(r@) == usual_underlyings(),
{
    let r = vec![
        "AAPL".to_owned(),
        "TSLA".to_owned(),
        "NVDA".to_owned(),
        "MSFT".to_owned(),
        "AMZN".to_owned(),
        "GOOGL".to_owned(),
        "META".to_owned(),
        "NFLX".to_owned(),
        "AMD".to_owned(),
        "BABA".to_owned(),
        "COIN".to_owned(),
        "MSTR".to_owned(),
        "PLTR".to_owned(),
        "AVGO".to_owned(),
        "INTC".to_owned(),
        "CRM".to_owned(),
        "ORCL".to_owned(),
        "QCOM".to_owned(),
        "HOOD".to_owned(),
        "SMCI".to_owned(),
    ];
    assert(names(r@) =~= usual_underlyings());
    r
}

/// What the environment says, each value as it stands there.
#[derive(Clone, Debug)]
pub struct EnvValues {
    pub trading_env: Option<String>,
    pub api_listen: Option<String>,
    pub database_url: Option<String>,
    pub rust_log: Option<String>,
    pub web_dir: Option<String>,
    pub binance_key: Option<String>,
    pub binance_secret: Option<String>,
    pub gate_key: Option<String>,
    pub gate_secret: Option<String>,
}

#[derive(Clone, Debug)]
pub struct AppConfig {
    pub listen: String,
    pub database_url: String,
    pub trading_env: TradingEnv,
    pub log_filter: String,
    pub web_dir: String,
    pub recommended_underlyings: Vec<String>,
    pub global_risk: GlobalRiskConfig,
    pub venues: VenueSecrets,
}

/// A value, or what stands in for it.
pub open spec fn or_text(s: Option<String>, fallback: Seq<char>) -> Seq<char> {
    match s {
        Some(t) => t@,
        None => fallback,
    }
}

fn text_or(s: Option<String>, fallback: &str) -> (r: String)
    ensures
        r@ == or_text(s, fallback@),
{
    match s {
        Some(t) => t,
        None => fallback.to_owned(),
    }
}

/// The settings that the environment and the settings file make up. The environment goes first;
/// an empty key counts as none.
pub fn load_app_config(env: EnvValues, file: FileAppConfig) -> (r: AppConfig)
    ensures
        r.listen@ == or_text(env.api_listen, file.listen@),
        r.database_url@ == or_text(env.database_url, "sqlite://data/mm.db"@),
        r.trading_env == TradingEnv::named(or_text(env.trading_env, "testnet"@)),
        r.log_filter@ == or_text(env.rust_log, "stock_mm=info,warn"@),
        r.web_dir@ == or_text(env.web_dir, "web/dist"@),
        names(r.recommended_underlyings@) == (if file.recommended_underlyings@.len() == 0 {
            usual_underlyings()
        } else {
            names(file.recommended_underlyings@)
        }),
        r.global_risk == file.global_risk,
        r.venues.binance_key == (if given(opt_view(env.binance_key)) {
            env.binance_key
        } else {
            None
        }),
        r.venues.binance_secret == (if given(opt_view(env.binance_secret)) {
            env.binance_secret
        } else {
            None
        }),
        r.venues.gate_key == (if given(opt_view(env.gate_key)) {
            env.gate_key
        } else {
            None
        }),
        r.venues.gate_secret == (if given(opt_view(env.gate_secret)) {
            env.gate_secret
        } else {
            None
        }),
{
    let trading_env = TradingEnv::parse(&text_or(env.trading_env, "testnet"));
    AppConfig {
        listen: match env.api_listen {
            Some(l) => l,
            None => file.listen,
        },
        database_url: text_or(env.database_url, "sqlite://data/mm.db"),
        trading_env,
        log_filter: text_or(env.rust_log, "stock_mm=info,warn"),
        web_dir: text_or(env.web_dir, "web/dist"),
        recommended_underlyings: if file.recommended_underlyings.len() == 0 {
            default_underlyings()
        } else {
            file.recommended_underlyings
        },
        global_risk: file.global_risk,
        venues: VenueSecrets {
            binance_key: keep_given(env.binance_key),
            binance_secret: keep_given(env.binance_secret),
            gate_key: keep_given(env.gate_key),
            gate_secret: keep_given(env.gate_secret),
        },
    }
}

impl Default for RunMode {
    fn default() -> (r: Self)
        ensures
            r == RunMode::Observe,
    {
        RunMode::Observe
    }
}

#[derive(Debug)]
pub struct MarketConfig {
    pub maker_venue: VenueId,
    pub maker_symbol: SymbolId,
    pub ref_venue: VenueId,
    pub ref_symbol: SymbolId,
    pub fx: Decimal,
    pub multiplier: Decimal,
}

impl Clone for MarketConfig {
    fn clone(&self) -> (r: Self)
        ensures
            r == *self,
    {
        MarketConfig {
            maker_venue: self.maker_venue,
            maker_symbol: self.maker_symbol.clone(),
            ref_venue: self.ref_venue,
            ref_symbol: self.ref_symbol.clone(),
            fx: self.fx,
            multiplier: self.multiplier,
        }
    }
}

#[derive(Clone, Copy, Debug)]
pub struct GridLevel {
    /// Fractional distance from fair, e.g. 0.001 = 10 bps.
    pub distance: Decimal,
    /// Quote notional in USDT.
    pub size: Decimal,
}

#[derive(Clone, Debug)]
pub struct PricingConfig {
    pub spread_window_ms: u64,
    pub min_samples: usize,
    pub bucket_ms: u64,
    pub grid: Vec<GridLevel>,
    pub requote_threshold: Decimal,
    pub jump_threshold: Decimal,
}

pub fn spread_window_default() -> (r: u64)
    ensures
        r == 120_000,
{
    120_000
}

pub fn min_samples_default() -> (r: usize)
    ensures
        r == 30,
{
    30
}

pub fn bucket_ms_default() -> (r: u64)
    ensures
        r == 100,
{
    100
}

pub fn default_true() -> (r: bool)
    ensures
        r,
{
    true
}

#[derive(Clone, Copy, Debug)]
pub struct ExitConfig {
    pub take_profit: Decimal,
    pub fast_exit_timeout_ms: u64,
    pub force_exit_timeout_ms: u64,
    pub max_loss: Decimal,
}

#[derive(Clone, Copy, Debug)]
pub struct RiskLimitsConfig {
    pub max_position: Decimal,
    pub max_long: Decimal,
    pub max_short: Decimal,
    pub max_order_size: Decimal,
    pub max_book_age_ms: u64,
    pub max_spread_dev_k: Decimal,
    pub max_abs_spread_dev: Option<Decimal>,
}

#[derive(Clone, Debug)]
pub struct StrategyConfig {
    pub id: StrategyId,
    pub name: String,
    pub enabled: bool,
    pub mode: RunMode,
    pub market: MarketConfig,
    pub pricing: PricingConfig,
    pub exit: ExitConfig,
    pub risk: RiskLimitsConfig,
}

/// The number is above zero.
pub open spec fn positive(d: Decimal) -> bool {
    dec_zero().is_below(d)
}

/// What is wrong with one level of a grid.
pub open spec fn level_error(lvl: GridLevel, i: nat, max_order: Decimal) -> Option<Seq<char>> {
    if !positive(lvl.distance) {
        Some("grid["@ + digits(i) + "].distance must be > 0"@)
    } else if !positive(lvl.size) {
        Some("grid["@ + digits(i) + "].size must be > 0"@)
    } else if max_order.is_below(lvl.size) {
        Some("grid["@ + digits(i) + "].size exceeds max_order_size"@)
    } else {
        None
    }
}

/// What is wrong with the first faulty level from `i` on.
pub open spec fn grid_error(grid: Seq<GridLevel>, i: nat, max_order: Decimal) -> Option<Seq<char>>
    decreases grid.len() - i,
{
    if i >= grid.len() {
        None
    } else {
        match level_error(grid[i as int], i, max_order) {
            Some(e) => Some(e),
            None => grid_error(grid, i + 1, max_order),
        }
    }
}

/// The smallest distance of a grid level among `start` and those from `i` on.
pub open spec fn least_distance(grid: Seq<GridLevel>, i: nat, start: Decimal) -> Decimal
    decreases grid.len() - i,
{
    if i >= grid.len() {
        start
    } else {
        least_distance(
            grid,
            i + 1,
            if grid[i as int].distance.is_below(start) {
                grid[i as int].distance
            } else {
                start
            },
        )
    }
}

/// What is wrong with the limits.
pub open spec fn limits_error(r: RiskLimitsConfig) -> Option<Seq<char>> {
    if r.max_position.is_below(dec_zero()) || r.max_long.is_below(dec_zero())
        || r.max_short.is_below(dec_zero()) || !positive(r.max_order_size) {
        Some("position/order limits must be non-negative; max_order_size > 0"@)
    } else if r.max_position.is_below(r.max_long) || r.max_position.is_below(r.max_short) {
        Some("max_long/max_short cannot exceed max_position"@)
    } else if r.max_book_age_ms == 0 {
        Some("max_book_age_ms must be > 0"@)
    } else {
        None
    }
}

impl StrategyConfig {
    /// What is wrong with the identity and the market of a strategy.
    pub open spec fn identity_error(self) -> Option<Seq<char>> {
        if self.id@.len() == 0 {
            Some("strategy id is required"@)
        } else if self.id@.contains('-') {
            Some("strategy id must not contain '-' (used in client_order_id)"@)
        } else if trimmed(self.name@).len() == 0 {
            Some("strategy name is required"@)
        } else if !positive(self.market.fx) {
            Some("fx must be > 0"@)
        } else if !positive(self.market.multiplier) {
            Some("multiplier must be > 0"@)
        } else if self.pricing.grid@.len() == 0 {
            Some("at least one grid level is required"@)
        } else {
            None
        }
    }

    /// What is wrong with the thresholds and the exit rules of a strategy.
    pub open spec fn rules_error(self) -> Option<Seq<char>> {
        let grid = self.pricing.grid@;
        if !positive(self.pricing.requote_threshold) {
            Some("requote_threshold must be > 0"@)
        } else if least_distance(grid, 0, grid[0].distance).is_at_most(
            self.pricing.requote_threshold,
        ) {
            Some("requote_threshold must be < smallest grid distance"@)
        } else if !positive(self.pricing.jump_threshold) {
            Some("jump_threshold must be > 0"@)
        } else if self.pricing.spread_window_ms < 1_000 {
            Some("spread_window_ms must be >= 1000"@)
        } else if !positive(self.exit.take_profit) {
            Some("take_profit must be > 0"@)
        } else if !positive(self.exit.max_loss) {
            Some("max_loss must be > 0"@)
        } else if self.exit.fast_exit_timeout_ms == 0 {
            Some("fast_exit_timeout_ms must be > 0"@)
        } else if self.exit.force_exit_timeout_ms <= self.exit.fast_exit_timeout_ms {
            Some("force_exit_timeout_ms must be > fast_exit_timeout_ms"@)
        } else {
            None
        }
    }

    /// The first thing that is wrong with the settings of a strategy.
    pub open spec fn error(self) -> Option<Seq<char>> {
        match self.identity_error() {
            Some(e) => Some(e),
            None => match grid_error(self.pricing.grid@, 0, self.risk.max_order_size) {
                Some(e) => Some(e),
                None => match self.rules_error() {
                    Some(e) => Some(e),
                    None => limits_error(self.risk),
                },
            },
        }
    }

    pub fn validate(&self) -> (r: Result<(), String>)
        ensures
            match r {
                Ok(_) => self.error() is None,
                Err(e) => self.error() == Some(e@),
            },
    {
        self.check_identity()?;
        self.check_grid()?;
        self.check_rules()?;
        check_limits(&self.risk)
    }

    fn check_identity(&self) -> (r: Result<(), String>)
        ensures
            match r {
                Ok(_) => self.identity_error() is None,
                Err(e) => self.identity_error() == Some(e@),
            },
    {
        let id = crate::text::chars_of(self.id.as_str());
        if id.len() == 0 {
            return Err("strategy id is required".to_owned());
        }
        if crate::text::find_char(&id, '-').is_some() {
            return Err("strategy id must not contain '-' (used in client_order_id)".to_owned());
        }
        let name = crate::text::chars_of(&trim(&self.name));
        if name.len() == 0 {
            return Err("strategy name is required".to_owned());
        }
        if !self.market.fx.is_positive() {
            return Err("fx must be > 0".to_owned());
        }
        if !self.market.multiplier.is_positive() {
            return Err("multiplier must be > 0".to_owned());
        }
        if self.pricing.grid.len() == 0 {
            return Err("at least one grid level is required".to_owned());
        }
        Ok(())
    }

    fn check_grid(&self) -> (r: Result<(), String>)
        ensures
            match r {
                Ok(_) => grid_error(self.pricing.grid@, 0, self.risk.max_order_size) is None,
                Err(e) => grid_error(self.pricing.grid@, 0, self.risk.max_order_size) == Some(e@),
            },
    {
        let mut i: usize = 0;
        while i < self.pricing.grid.len()
            invariant
                i <= self.pricing.grid.len(),
                grid_error(self.pricing.grid@, 0, self.risk.max_order_size) == grid_error(
                    self.pricing.grid@,
                    i as nat,
                    self.risk.max_order_size,
                ),
            decreases self.pricing.grid.len() - i,
        {
            let lvl = self.pricing.grid[i];
            if !lvl.distance.is_positive() {
                return Err(cat3("grid[", &digits_text(i as u64), "].distance must be > 0"));
            }
            if !lvl.size.is_positive() {
                return Err(cat3("grid[", &digits_text(i as u64), "].size must be > 0"));
            }
            if self.risk.max_order_size.below(lvl.size) {
                return Err(cat3("grid[", &digits_text(i as u64), "].size exceeds max_order_size"));
            }
            i = i + 1;
        }
        Ok(())
    }

    fn check_rules(&self) -> (r: Result<(), String>)
        requires
            self.pricing.grid@.len() > 0,
        ensures
            match r {
                Ok(_) => self.rules_error() is None,
                Err(e) => self.rules_error() == Some(e@),
            },
    {
        let mut least = self.pricing.grid[0].distance;
        let ghost start = least;
        let mut i: usize = 0;
        while i < self.pricing.grid.len()
            invariant
                i <= self.pricing.grid.len(),
                least_distance(self.pricing.grid@, 0, start) == least_distance(
                    self.pricing.grid@,
                    i as nat,
                    least,
                ),
            decreases self.pricing.grid.len() - i,
        {
            let d = self.pricing.grid[i].distance;
            if d.below(least) {
                least = d;
            }
            i = i + 1;
        }
        if !self.pricing.requote_threshold.is_positive() {
            return Err("requote_threshold must be > 0".to_owned());
        }
        if least.at_most(self.pricing.requote_threshold) {
            return Err("requote_threshold must be < smallest grid distance".to_owned());
        }
        if !self.pricing.jump_threshold.is_positive() {
            return Err("jump_threshold must be > 0".to_owned());
        }
        if self.pricing.spread_window_ms < 1_000 {
            return Err("spread_window_ms must be >= 1000".to_owned());
        }
        if !self.exit.take_profit.is_positive() {
            return Err("take_profit must be > 0".to_owned());
        }
        if !self.exit.max_loss.is_positive() {
            return Err("max_loss must be > 0".to_owned());
        }
        if self.exit.fast_exit_timeout_ms == 0 {
            return Err("fast_exit_timeout_ms must be > 0".to_owned());
        }
        if self.exit.force_exit_timeout_ms <= self.exit.fast_exit_timeout_ms {
            return Err("force_exit_timeout_ms must be > fast_exit_timeout_ms".to_owned());
        }
        Ok(())
    }

    /// What is wrong with the profit that a strategy takes, where the sum of two fees comes out.
    pub open spec fn fees_error(self, maker_fee: Decimal, round_trip: Decimal) -> Option<Seq<char>> {
        if self.exit.take_profit.is_at_most(round_trip) && positive(maker_fee) {
            Some(
                "take_profit "@ + decimal_text(self.exit.take_profit)
                    + " must exceed two-way maker fee "@ + decimal_text(round_trip),
            )
        } else {
            None
        }
    }

    /// Whether the profit that a strategy takes pays for two maker fees. `None` where twice the
    /// fee is no decimal of 96 bits.
    pub fn validate_fees(&self, maker_fee: Decimal, taker_fee: Decimal) -> (r: Option<
        Result<(), String>,
    >)
        ensures
            match decimal_abs(maker_fee) {
                None => r is None,
                Some(fee) => match decimal_sum(fee, fee) {
                    None => r is None,
                    Some(round_trip) => match r {
                        None => false,
                        Some(Ok(_)) => self.fees_error(maker_fee, round_trip) is None,
                        Some(Err(e)) => self.fees_error(maker_fee, round_trip) == Some(e@),
                    },
                },
            },
    {
        let fee = maker_fee.checked_abs()?;
        let round_trip = fee.checked_add(fee)?;
        let _ = taker_fee;
        if self.exit.take_profit.at_most(round_trip) && maker_fee.is_positive() {
            let head = cat2("take_profit ", &self.exit.take_profit.text());
            return Some(
                Err(cat3(&head, " must exceed two-way maker fee ", &round_trip.text())),
            );
        }
        Some(Ok(()))
    }
}

fn check_limits(risk: &RiskLimitsConfig) -> (r: Result<(), String>)
    ensures
        match r {
            Ok(_) => limits_error(*risk) is None,
            Err(e) => limits_error(*risk) == Some(e@),
        },
{
    if risk.max_position.is_negative() || risk.max_long.is_negative()
        || risk.max_short.is_negative() || !risk.max_order_size.is_positive() {
        return Err("position/order limits must be non-negative; max_order_size > 0".to_owned());
    }
    if risk.max_position.below(risk.max_long) || risk.max_position.below(risk.max_short) {
        return Err("max_long/max_short cannot exceed max_position".to_owned());
    }
    if risk.max_book_age_ms == 0 {
        return Err("max_book_age_ms must be > 0".to_owned());
    }
    Ok(())
}

impl Default for StrategyConfig {
    fn default() -> (r: Self)
        ensures
            r.id@ == "demo"@,
            r.name@ == "Demo"@,
            r.enabled,
            r.mode == RunMode::Observe,
            r.market.maker_venue == VenueId::Gate,
            r.market.maker_symbol@ == canonical("AAPLUSDT"@),
            r.market.ref_venue == VenueId::Binance,
            r.market.ref_symbol@ == canonical("AAPLUSDT"@),
            r.market.fx == dec_one(),
            r.market.multiplier == dec_one(),
            r.pricing.spread_window_ms == 120_000,
            r.pricing.min_samples == 30,
            r.pricing.bucket_ms == 100,
            r.pricing.grid@ == usual_grid(),
            r.pricing.requote_threshold == (Decimal { mantissa: 5, scale: 4 }),
            r.pricing.jump_threshold == (Decimal { mantissa: 4, scale: 3 }),
            r.exit.take_profit == (Decimal { mantissa: 12, scale: 4 }),
            r.exit.fast_exit_timeout_ms == 5_000,
            r.exit.force_exit_timeout_ms == 12_000,
            r.exit.max_loss == (Decimal { mantissa: 4, scale: 3 }),
            r.risk.max_position == dec_int(20_000),
            r.risk.max_long == dec_int(10_000),
            r.risk.max_short == dec_int(10_000),
            r.risk.max_order_size == dec_int(2_000),
            r.risk.max_book_age_ms == 15_000,
            r.risk.max_spread_dev_k == dec_int(6),
            r.risk.max_abs_spread_dev == Some(Decimal { mantissa: 1, scale: 2 }),
    {
        let grid = vec![
            GridLevel { distance: Decimal::new(1, 3), size: Decimal::from_int(100) },
            GridLevel { distance: Decimal::new(2, 3), size: Decimal::from_int(200) },
            GridLevel { distance: Decimal::new(35, 4), size: Decimal::from_int(300) },
        ];
        assert(grid@ =~= usual_grid());
        StrategyConfig {
            id: StrategyId::new("demo"),
            name: "Demo".to_owned(),
            enabled: true,
            mode: RunMode::Observe,
            market: MarketConfig {
                maker_venue: VenueId::Gate,
                maker_symbol: SymbolId::new("AAPLUSDT"),
                ref_venue: VenueId::Binance,
                ref_symbol: SymbolId::new("AAPLUSDT"),
                fx: Decimal::one(),
                multiplier: Decimal::one(),
            },
            pricing: PricingConfig {
                spread_window_ms: 120_000,
                min_samples: 30,
                bucket_ms: 100,
                grid,
                requote_threshold: Decimal::new(5, 4),
                jump_threshold: Decimal::new(4, 3),
            },
            exit: ExitConfig {
                take_profit: Decimal::new(12, 4),
                fast_exit_timeout_ms: 5_000,
                force_exit_timeout_ms: 12_000,
                max_loss: Decimal::new(4, 3),
            },
            risk: RiskLimitsConfig {
                max_position: Decimal::from_int(20_000),
                max_long: Decimal::from_int(10_000),
                max_short: Decimal::from_int(10_000),
                max_order_size: Decimal::from_int(2_000),
                max_book_age_ms: 15_000,
                max_spread_dev_k: Decimal::from_int(6),
                max_abs_spread_dev: Some(Decimal::new(1, 2)),
            },
        }
    }
}

/// The grid of a strategy that nobody has set up.
pub open spec fn usual_grid() -> Seq<GridLevel> {
    seq![
        GridLevel { distance: Decimal { mantissa: 1, scale: 3 }, size: dec_int(100) },
        GridLevel { distance: Decimal { mantissa: 2, scale: 3 }, size: dec_int(200) },
        GridLevel { distance: Decimal { mantissa: 35, scale: 4 }, size: dec_int(300) },
    ]
}

proof fn lemma_least(grid: Seq<GridLevel>, i: nat, start: Decimal)
    ensures
        least_distance(grid, i, start).is_at_most(start),
        forall|j: int|
            i <= j < grid.len() ==> least_distance(grid, i, start).is_at_most(
                (#[trigger] grid[j]).distance,
            ),
    decreases grid.len() - i,
{
    law_order_transitive(start, start, start);
    if i < grid.len() {
        let d = grid[i as int].distance;
        let next = if d.is_below(start) {
            d
        } else {
            start
        };
        lemma_least(grid, i + 1, next);
        let least = least_distance(grid, i + 1, next);
        law_order_transitive(least, next, start);
        law_order_transitive(d, start, start);
        law_order_transitive(least, next, d);
        law_order_transitive(d, d, d);
    }
}

proof fn lemma_grid_clean(grid: Seq<GridLevel>, i: nat, max_order: Decimal)
    requires
        grid_error(grid, i, max_order) is None,
    ensures
        forall|j: int|
            i <= j < grid.len() ==> level_error(#[trigger] grid[j], j as nat, max_order) is None,
    decreases grid.len() - i,
{
    if i < grid.len() {
        lemma_grid_clean(grid, i + 1, max_order);
    }
}

/// Settings that pass are sound: the id can be read back out of an order's id, the price of an
/// order moves only in steps that are smaller than every distance of the grid, every level is
/// one that may be ordered, an exit is forced only after it was tried, and no side may hold
/// more than the whole.
pub proof fn law_valid_settings(c: StrategyConfig)
    requires
        c.error() is None,
    ensures
        c.id@.len() > 0,
        !c.id@.contains('-'),
        positive(c.market.fx),
        positive(c.market.multiplier),
        c.pricing.grid@.len() > 0,
        forall|i: int|
            0 <= i < c.pricing.grid@.len() ==> {
                let lvl = #[trigger] c.pricing.grid@[i];
                &&& positive(lvl.distance)
                &&& positive(lvl.size)
                &&& lvl.size.is_at_most(c.risk.max_order_size)
                &&& c.pricing.requote_threshold.is_below(lvl.distance)
            },
        c.exit.fast_exit_timeout_ms < c.exit.force_exit_timeout_ms,
        c.risk.max_long.is_at_most(c.risk.max_position),
        c.risk.max_short.is_at_most(c.risk.max_position),
{
    let grid = c.pricing.grid@;
    lemma_grid_clean(grid, 0, c.risk.max_order_size);
    lemma_least(grid, 0, grid[0].distance);
    let least = least_distance(grid, 0, grid[0].distance);
    assert forall|i: int| 0 <= i < grid.len() implies ({
        let lvl = #[trigger] grid[i];
        &&& positive(lvl.distance)
        &&& positive(lvl.size)
        &&& lvl.size.is_at_most(c.risk.max_order_size)
        &&& c.pricing.requote_threshold.is_below(lvl.distance)
    }) by {
        assert(level_error(grid[i], i as nat, c.risk.max_order_size) is None);
        law_order_transitive(c.pricing.requote_threshold, least, grid[i].distance);
    }
}

proof fn lemma_grid_fine(grid: Seq<GridLevel>, i: nat, max_order: Decimal)
    requires
        i <= grid.len(),
        forall|j: int|
            0 <= j < grid.len() ==> positive((#[trigger] grid[j]).distance) && positive(grid[j].size)
                && grid[j].size.is_at_most(max_order),
    ensures
        grid_error(grid, i, max_order) is None,
    decreases grid.len() - i,
{
    if i < grid.len() {
        assert(positive(grid[i as int].distance));
        lemma_grid_fine(grid, i + 1, max_order);
    }
}

proof fn lemma_least_above(grid: Seq<GridLevel>, i: nat, start: Decimal, bound: Decimal)
    requires
        i <= grid.len(),
        bound.is_below(start),
        forall|j: int| 0 <= j < grid.len() ==> bound.is_below((#[trigger] grid[j]).distance),
    ensures
        bound.is_below(least_distance(grid, i, start)),
    decreases grid.len() - i,
{
    if i < grid.len() {
        let d = grid[i as int].distance;
        assert(bound.is_below(d));
        lemma_least_above(
            grid,
            i + 1,
            if d.is_below(start) {
                d
            } else {
                start
            },
            bound,
        );
    }
}

/// Settings that are sound pass: nothing else is asked of them.
pub proof fn law_sound_settings_pass(c: StrategyConfig)
    requires
        c.id@.len() > 0 && !c.id@.contains('-') && trimmed(c.name@).len() > 0,
        positive(c.market.fx) && positive(c.market.multiplier),
        c.pricing.grid@.len() > 0,
        forall|i: int|
            0 <= i < c.pricing.grid@.len() ==> {
                let lvl = #[trigger] c.pricing.grid@[i];
                &&& positive(lvl.distance) && positive(lvl.size)
                &&& lvl.size.is_at_most(c.risk.max_order_size)
                &&& c.pricing.requote_threshold.is_below(lvl.distance)
            },
        positive(c.pricing.requote_threshold) && positive(c.pricing.jump_threshold),
        c.pricing.spread_window_ms >= 1_000,
        positive(c.exit.take_profit) && positive(c.exit.max_loss),
        0 < c.exit.fast_exit_timeout_ms < c.exit.force_exit_timeout_ms,
        dec_zero().is_at_most(c.risk.max_long) && dec_zero().is_at_most(c.risk.max_short)
            && dec_zero().is_at_most(c.risk.max_position) && positive(c.risk.max_order_size),
        c.risk.max_long.is_at_most(c.risk.max_position),
        c.risk.max_short.is_at_most(c.risk.max_position),
        c.risk.max_book_age_ms > 0,
    ensures
        c.error() is None,
{
    let grid = c.pricing.grid@;
    lemma_grid_fine(grid, 0, c.risk.max_order_size);
    assert(c.pricing.requote_threshold.is_below(grid[0].distance));
    lemma_least_above(grid, 0, grid[0].distance, c.pricing.requote_threshold);
}

/// Settings that are not sound do not pass, whichever of these they break.
pub proof fn law_unsound_settings_are_refused(c: StrategyConfig)
    requires
        c.error() is None,
    ensures
        trimmed(c.name@).len() > 0,
        positive(c.pricing.requote_threshold) && positive(c.pricing.jump_threshold),
        c.pricing.spread_window_ms >= 1_000,
        positive(c.exit.take_profit) && positive(c.exit.max_loss),
        c.exit.fast_exit_timeout_ms > 0,
        dec_zero().is_at_most(c.risk.max_long) && dec_zero().is_at_most(c.risk.max_short)
            && dec_zero().is_at_most(c.risk.max_position) && positive(c.risk.max_order_size),
        c.risk.max_book_age_ms > 0,
{
}

/// A profit that does not pay for two positive maker fees is refused, and any other passes.
pub proof fn law_profit_must_pay_the_fees(c: StrategyConfig, maker_fee: Decimal, round_trip: Decimal)
    ensures
        c.fees_error(maker_fee, round_trip) is Some <==> maker_fee.mantissa > 0
            && !round_trip.is_below(c.exit.take_profit),
{
    crate::types::decimal::lemma_sign(maker_fee);
}

/// The main network is traded on only where it is asked for by name.
pub proof fn law_main_network_is_asked_for(s: Seq<char>)
    ensures
        TradingEnv::named(s) == TradingEnv::Mainnet <==> lowered(s) == "mainnet"@ || lowered(s)
            == "prod"@ || lowered(s) == "live"@,
{
}

} // verus!
