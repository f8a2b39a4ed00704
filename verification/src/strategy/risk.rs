//! What a strategy may quote.
use crate::config::{positive, StrategyConfig};
use crate::strategy::state::{count_state, CoreState, StateV};
use crate::text::opt_view;
use crate::types::book::TopOfBook;
use crate::types::decimal::{
    dec_one, dec_zero, decimal_abs, decimal_difference, decimal_product, decimal_quotient,
    difference_fits, divides, law_order_is_by_worth, lemma_sign, multiplies, product_fits,
    reads_as, subtracts, unit_worth, worth, Decimal,
};
use crate::types::double::{double_above, double_key, is_above};
use crate::types::ids::{RunMode, Side, StrategyMode};
use crate::types::instrument::{Instrument, InstrumentStatus};
use crate::types::num::Px;
use crate::types::order::SlotStateKind;
use crate::types::snapshot::{LinkStatus, PermV, QuotePermission};
use crate::types::time::{as_signed, to_signed, Ts};
use vstd::prelude::*;

verus! {

/// Nothing new may be quoted and everything is taken back.
pub open spec fn take_back(reason: Seq<char>, flatten: bool) -> PermV {
    PermV {
        allow_new_buy: false,
        allow_new_sell: false,
        force_cancel_all: true,
        force_flatten: flatten,
        reason: Some(reason),
    }
}

/// The connection that is missing.
pub open spec fn missing_link(links: LinkStatus, mode: RunMode) -> Option<Seq<char>> {
    if !links.ref_md {
        Some("ref_md_down"@)
    } else if !links.maker_md {
        Some("maker_md_down"@)
    } else if mode == RunMode::Live && !links.private {
        Some("private_down"@)
    } else if mode == RunMode::Live && !links.trading {
        Some("trading_down"@)
    } else {
        None
    }
}

/// What is wrong with a book.
pub open spec fn book_fault(b: TopOfBook, crossed: Seq<char>, invalid: Seq<char>) -> Option<
    Seq<char>,
> {
    if b.two_sided() {
        None
    } else if positive(b.bid_px.0) && positive(b.ask_px.0) && b.ask_px.0.is_at_most(b.bid_px.0) {
        Some(crossed)
    } else {
        Some(invalid)
    }
}

/// A book is older than allowed. `None` where its age does not fit 64 bits.
pub open spec fn is_stale(now: Ts, b: TopOfBook, max_age_ms: u64) -> Option<bool> {
    match now.ms_since(b.exchange_ts) {
        None => None,
        Some(age) => Some(age > as_signed(max_age_ms)),
    }
}

/// The spread has left the range in which it is trusted.
pub open spec fn spread_fault(
    cfg: StrategyConfig,
    st: StateV,
    gap: u64,
    band: u64,
    most: u64,
) -> Option<Seq<char>> {
    match (st.last_spread, st.last_natural, st.last_vol) {
        (Some(_), Some(_), Some(vol)) => if double_above(vol, 0) && double_above(gap, band) {
            Some("spread_regime_break"@)
        } else {
            match cfg.risk.max_abs_spread_dev {
                Some(_) => if double_above(gap, most) {
                    Some("spread_abs_break"@)
                } else {
                    None
                },
                None => None,
            }
        },
        _ => None,
    }
}

/// The contract size that amounts are worked out with.
pub open spec fn unit_size(inst: Instrument) -> Decimal {
    inst.contract_size.larger(Decimal { mantissa: 1, scale: 8 })
}

/// The price that amounts are worked out with.
pub open spec fn unit_px(st: StateV) -> Decimal {
    match st.last_fair {
        Some(p) => p.0,
        None => dec_one(),
    }
}

/// The notional amount of a quantity.
pub open spec fn notional_of(qty: Decimal, px: Decimal, size: Decimal) -> Option<Decimal> {
    match decimal_abs(qty) {
        None => None,
        Some(a) => match decimal_product(a, px) {
            None => None,
            Some(p) => decimal_product(p, size),
        },
    }
}

/// What may be quoted as far as the position goes.
pub open spec fn position_permission(cfg: StrategyConfig, net: Decimal, amount: Decimal) -> PermV {
    let long = if positive(net) {
        amount
    } else {
        dec_zero()
    };
    let short = if net.is_below(dec_zero()) {
        amount
    } else {
        dec_zero()
    };
    let full = cfg.risk.max_position.is_at_most(amount);
    let no_buy = cfg.risk.max_long.is_at_most(long) || full;
    let no_sell = cfg.risk.max_short.is_at_most(short) || full;
    PermV {
        allow_new_buy: !no_buy,
        allow_new_sell: !no_sell,
        force_cancel_all: false,
        force_flatten: false,
        reason: if no_buy && no_sell {
            Some("position_cap"@)
        } else if no_buy {
            Some("max_long"@)
        } else if no_sell {
            Some("max_short"@)
        } else {
            None
        },
    }
}

/// What may be quoted once the books are there and everything else is well.
pub open spec fn market_permission(
    cfg: StrategyConfig,
    st: StateV,
    inst: Instrument,
    now: Ts,
    gap: u64,
    band: u64,
    most: u64,
    ref_book: TopOfBook,
    maker_book: TopOfBook,
) -> Option<PermV> {
    match book_fault(ref_book, "ref_crossed"@, "ref_invalid"@) {
        Some(e) => Some(PermV::only_reduce(e)),
        None => match book_fault(maker_book, "maker_crossed"@, "maker_invalid"@) {
            Some(e) => Some(PermV::only_reduce(e)),
            None => match is_stale(now, ref_book, cfg.risk.max_book_age_ms) {
                None => None,
                Some(true) => Some(PermV::only_reduce("ref_stale"@)),
                Some(false) => match is_stale(now, maker_book, cfg.risk.max_book_age_ms) {
                    None => None,
                    Some(true) => Some(PermV::only_reduce("maker_stale"@)),
                    Some(false) => if st.window.samples.len() < cfg.pricing.min_samples {
                        Some(PermV::only_reduce("warmup"@))
                    } else {
                        match spread_fault(cfg, st, gap, band, most) {
                            Some(e) => Some(PermV::only_reduce(e)),
                            None => match notional_of(st.net_qty.0, unit_px(st), unit_size(inst)) {
                                None => None,
                                Some(amount) => Some(
                                    position_permission(cfg, st.net_qty.0, amount),
                                ),
                            },
                        }
                    },
                },
            },
        },
    }
}

/// What may be quoted. `gap` is how far the spread lies from its natural value, and `band` how
/// far it may; `most` is how far it may at the very most, where there is such a limit: bits of
/// doubles. `None` where a figure does not fit.
pub open spec fn permitted(
    cfg: StrategyConfig,
    st: StateV,
    inst: Instrument,
    now: Ts,
    gap: u64,
    band: u64,
    most: u64,
) -> Option<PermV> {
    if !st.started || st.lifecycle == StrategyMode::Stopped {
        Some(PermV::only_reduce("stopped"@))
    } else if st.flatten_requested {
        Some(take_back("flatten"@, true))
    } else if inst.status != InstrumentStatus::Trading {
        Some(PermV::only_reduce("instrument_halt"@))
    } else {
        match missing_link(st.links, cfg.mode) {
            Some(e) => Some(take_back(e, false)),
            None => if count_state(st.slots, SlotStateKind::Unknown) > 0 {
                Some(PermV::only_reduce("unknown_slots"@))
            } else if st.cooldown_until matches Some(until) && now.0 < until.0 {
                Some(take_back("jump_cooldown"@, false))
            } else {
                match (st.ref_book, st.maker_book) {
                    (None, _) => Some(PermV::only_reduce("no_ref_book"@)),
                    (Some(_), None) => Some(PermV::only_reduce("no_maker_book"@)),
                    (Some(r), Some(m)) => market_permission(
                        cfg,
                        st,
                        inst,
                        now,
                        gap,
                        band,
                        most,
                        r,
                        m,
                    ),
                }
            },
        }
    }
}

fn withdraw(reason: &str, flatten: bool) -> (r: QuotePermission)
    ensures
        r@ == take_back(reason@, flatten),
{
    QuotePermission {
        allow_new_buy: false,
        allow_new_sell: false,
        force_cancel_all: true,
        force_flatten: flatten,
        reason: Some(reason.to_owned()),
    }
}

pub fn link_reason(links: &LinkStatus, mode: RunMode) -> (r: Option<String>)
    ensures
        opt_view(r) == missing_link(*links, mode),
{
    if !links.ref_md {
        return Some("ref_md_down".to_owned());
    }
    if !links.maker_md {
        return Some("maker_md_down".to_owned());
    }
    if mode == RunMode::Live {
        if !links.private {
            return Some("private_down".to_owned());
        }
        if !links.trading {
            return Some("trading_down".to_owned());
        }
    }
    None
}

fn stale(now: Ts, book: &TopOfBook, max_age_ms: u64) -> (r: Option<bool>)
    ensures
        r == is_stale(now, *book, max_age_ms),
{
    let age = now.checked_ms_since(book.exchange_ts)?;
    Some(age > to_signed(max_age_ms))
}

fn spread_broken(
    cfg: &StrategyConfig,
    state: &CoreState,
    gap: u64,
    band: u64,
    most: u64,
) -> (r: Option<&'static str>)
    ensures
        match r {
            Some(e) => spread_fault(*cfg, state@, gap, band, most) == Some(e@),
            None => spread_fault(*cfg, state@, gap, band, most) is None,
        },
{
    match (state.last_spread, state.last_natural, state.last_vol) {
        (Some(_), Some(_), Some(vol)) => {
            if is_above(vol, 0) && is_above(gap, band) {
                return Some("spread_regime_break");
            }
            match cfg.risk.max_abs_spread_dev {
                Some(_) => if is_above(gap, most) {
                    Some("spread_abs_break")
                } else {
                    None
                },
                None => None,
            }
        },
        _ => None,
    }
}

/// The notional amount of a quantity. `None` where it is no decimal of 96 bits.
pub fn notional(qty: Decimal, px: Decimal, size: Decimal) -> (r: Option<Decimal>)
    ensures
        r == notional_of(qty, px, size),
        r is Some ==> amount_multiplies(qty, px, size),
{
    qty.checked_abs()?.times(px)?.times(size)
}

/// A notional amount is worked out as decimals are multiplied.
pub open spec fn amount_multiplies(qty: Decimal, px: Decimal, size: Decimal) -> bool {
    &&& multiplies(qty.magnitude(), px)
    &&& decimal_product(qty.magnitude(), px) matches Some(p) ==> multiplies(p, size)
}

/// The amount of a quantity is the quantity without its sign, times the price, times the contract size, where
/// the products fit.
pub proof fn law_amount_is_quantity_times_price(qty: Decimal, px: Decimal, size: Decimal)
    requires
        amount_multiplies(qty, px, size),
        product_fits(qty.magnitude(), px),
        product_fits(decimal_product(qty.magnitude(), px)->0, size),
        notional_of(qty, px, size) is Some,
    ensures
        worth(notional_of(qty, px, size)->0) * unit_worth() * unit_worth() == worth(
            qty.magnitude(),
        ) * worth(px) * worth(size),
        qty.mantissa >= 0 ==> qty.magnitude() == qty,
        qty.mantissa < 0 && qty.wf() ==> qty.magnitude().mantissa == -qty.mantissa
            && qty.magnitude().scale == qty.scale,
{
    let p = decimal_product(qty.magnitude(), px)->0;
    let x = worth(notional_of(qty, px, size)->0);
    let a = worth(qty.magnitude());
    let b = worth(px);
    let c = worth(size);
    let y = worth(p);
    let u = unit_worth();
    assert(x * u * u == a * b * c) by (nonlinear_arith)
        requires
            x * u == y * c,
            y * u == a * b,
    ;
}

fn by_position(cfg: &StrategyConfig, net: Decimal, amount: Decimal) -> (r: QuotePermission)
    ensures
        r@ == position_permission(*cfg, net, amount),
{
    let long = if net.is_positive() {
        amount
    } else {
        Decimal::zero()
    };
    let short = if net.is_negative() {
        amount
    } else {
        Decimal::zero()
    };
    let mut perm = QuotePermission::open();
    let full = cfg.risk.max_position.at_most(amount);
    if cfg.risk.max_long.at_most(long) || full {
        perm.allow_new_buy = false;
        perm.reason = Some("max_long".to_owned());
    }
    if cfg.risk.max_short.at_most(short) || full {
        perm.allow_new_sell = false;
        perm.reason = Some("max_short".to_owned());
    }
    if !perm.allow_new_buy && !perm.allow_new_sell {
        perm.reason = Some("position_cap".to_owned());
    }
    perm
}

fn by_market(
    cfg: &StrategyConfig,
    state: &CoreState,
    inst: &Instrument,
    now: Ts,
    gap: u64,
    band: u64,
    most: u64,
    ref_book: &TopOfBook,
    maker_book: &TopOfBook,
) -> (r: Option<QuotePermission>)
    ensures
        match r {
            Some(p) => market_permission(
                *cfg,
                state@,
                *inst,
                now,
                gap,
                band,
                most,
                *ref_book,
                *maker_book,
            ) == Some(p@),
            None => market_permission(
                *cfg,
                state@,
                *inst,
                now,
                gap,
                band,
                most,
                *ref_book,
                *maker_book,
            ) is None,
        },
{
    if !ref_book.is_valid() {
        return Some(
            QuotePermission::reduce_only(
                if ref_book.crossed() {
                    "ref_crossed"
                } else {
                    "ref_invalid"
                },
            ),
        );
    }
    if !maker_book.is_valid() {
        return Some(
            QuotePermission::reduce_only(
                if maker_book.crossed() {
                    "maker_crossed"
                } else {
                    "maker_invalid"
                },
            ),
        );
    }
    if stale(now, ref_book, cfg.risk.max_book_age_ms)? {
        return Some(QuotePermission::reduce_only("ref_stale"));
    }
    if stale(now, maker_book, cfg.risk.max_book_age_ms)? {
        return Some(QuotePermission::reduce_only("maker_stale"));
    }
    if state.window.len() < cfg.pricing.min_samples {
        return Some(QuotePermission::reduce_only("warmup"));
    }
    match spread_broken(cfg, state, gap, band, most) {
        Some(e) => {
            return Some(QuotePermission::reduce_only(e));
        },
        None => {},
    }
    let px = match state.last_fair {
        Some(p) => p.0,
        None => Decimal::one(),
    };
    let size = inst.contract_size.max(Decimal::new(1, 8));
    let amount = notional(state.net_qty.0, px, size)?;
    Some(by_position(cfg, state.net_qty.0, amount))
}

/// What may be quoted. `gap` is how far the spread lies from its natural value, and `band` how
/// far it may; `most` is how far it may at the very most, where there is such a limit: bits of
/// doubles. `None` where a figure does not fit.
pub fn evaluate(
    cfg: &StrategyConfig,
    state: &CoreState,
    inst: &Instrument,
    now: Ts,
    gap: u64,
    band: u64,
    most: u64,
) -> (r: Option<QuotePermission>)
    ensures
        match r {
            Some(p) => permitted(*cfg, state@, *inst, now, gap, band, most) == Some(p@),
            None => permitted(*cfg, state@, *inst, now, gap, band, most) is None,
        },
{
    if !state.started || state.lifecycle == StrategyMode::Stopped {
        return Some(QuotePermission::reduce_only("stopped"));
    }
    if state.flatten_requested {
        return Some(withdraw("flatten", true));
    }
    if inst.status != InstrumentStatus::Trading {
        return Some(QuotePermission::reduce_only("instrument_halt"));
    }
    match link_reason(&state.links, cfg.mode) {
        Some(e) => {
            return Some(withdraw(&e, false));
        },
        None => {},
    }
    if state.unknown_slots() > 0 {
        return Some(QuotePermission::reduce_only("unknown_slots"));
    }
    if let Some(until) = state.cooldown_until {
        if now.0 < until.0 {
            return Some(withdraw("jump_cooldown", false));
        }
    }
    match (&state.ref_book, &state.maker_book) {
        (None, _) => Some(QuotePermission::reduce_only("no_ref_book")),
        (Some(_), None) => Some(QuotePermission::reduce_only("no_maker_book")),
        (Some(r), Some(m)) => by_market(cfg, state, inst, now, gap, band, most, r, m),
    }
}

/// The fraction that a lot has lost.
pub open spec fn loss_fraction(entry: Px, fair: Px, side: Side) -> Option<Decimal> {
    let diff = match side {
        Side::Buy => decimal_difference(entry.0, fair.0),
        Side::Sell => decimal_difference(fair.0, entry.0),
    };
    match diff {
        None => None,
        Some(d) => decimal_quotient(d, entry.0),
    }
}

/// The fraction that a lot has lost is worked out as decimals are subtracted and divided.
pub open spec fn loss_counts(entry: Px, fair: Px, side: Side) -> bool {
    let (more, less) = match side {
        Side::Buy => (entry.0, fair.0),
        Side::Sell => (fair.0, entry.0),
    };
    &&& subtracts(more, less)
    &&& decimal_difference(more, less) matches Some(d) ==> divides(d, entry.0)
}

/// Bits that the fraction that a lot has lost may be read as. A lot that cost nothing loses
/// nothing.
pub open spec fn loss_reads_as(entry: Px, fair: Px, side: Side, loss: Option<u64>) -> bool {
    if entry.0.zero_valued() {
        loss == Some(0u64)
    } else {
        &&& loss_counts(entry, fair, side)
        &&& match loss_fraction(entry, fair, side) {
            None => loss is None,
            Some(q) => loss matches Some(bits) && reads_as(q, bits),
        }
    }
}

/// A lot whose price moved against it has not gained, one whose price moved for it has not lost, and one whose
/// price stayed has lost nothing: a long one loses as the fair price falls below the price it was bought at, a
/// short one as the fair price rises above the price it was sold at.
pub proof fn law_loss_has_the_sign_of_the_move(entry: Px, fair: Px, side: Side, loss: u64)
    requires
        loss_reads_as(entry, fair, side, Some(loss)),
        entry.0.mantissa > 0,
        difference_fits(entry.0, fair.0),
    ensures
        side == Side::Buy && entry.0.is_at_most(fair.0) ==> double_key(loss) <= 0,
        side == Side::Buy && fair.0.is_at_most(entry.0) ==> double_key(loss) >= 0,
        side == Side::Sell && fair.0.is_at_most(entry.0) ==> double_key(loss) <= 0,
        side == Side::Sell && entry.0.is_at_most(fair.0) ==> double_key(loss) >= 0,
{
    let (more, less) = match side {
        Side::Buy => (entry.0, fair.0),
        Side::Sell => (fair.0, entry.0),
    };
    assert(difference_fits(more, less));
    let d = decimal_difference(more, less)->0;
    let q = decimal_quotient(d, entry.0)->0;
    law_order_is_by_worth(entry.0, fair.0);
    law_order_is_by_worth(fair.0, entry.0);
    law_order_is_by_worth(d, d);
    lemma_sign(d);
}

/// The fraction that a lot has lost. `None` where it is no decimal of 96 bits.
pub fn loss_share(entry: Px, fair: Px, side: Side) -> (r: Option<Decimal>)
    ensures
        r == loss_fraction(entry, fair, side),
        loss_counts(entry, fair, side),
{
    let d = match side {
        Side::Buy => entry.0.minus(fair.0)?,
        Side::Sell => fair.0.minus(entry.0)?,
    };
    d.over(entry.0)
}

/// The fraction that a lot has lost: bits of a double. `None` where the fraction is no decimal of
/// 96 bits. How one that is no integer is rounded is left unsaid.
pub fn float_loss(entry: Px, fair: Px, side: Side) -> (r: Option<u64>)
    ensures
        loss_reads_as(entry, fair, side, r),
{
    if entry.0.is_zero() {
        return Some(0);
    }
    Some(loss_share(entry, fair, side)?.as_double())
}

/// Whether the venue's answer is not known for some slot.
pub fn pending_unknown_reason(state: &CoreState) -> (r: bool)
    ensures
        r == (count_state(state@.slots, SlotStateKind::Unknown) > 0),
{
    state.unknown_slots() > 0
}

/// Whoever may quote something new is started and not flattening, trades an open instrument over
/// connections that are up, knows what became of every order, is not cooling down, and has two
/// sound books that are fresh enough and samples enough.
pub proof fn law_new_quotes_need_health(
    cfg: StrategyConfig,
    st: StateV,
    inst: Instrument,
    now: Ts,
    gap: u64,
    band: u64,
    most: u64,
)
    requires
        permitted(cfg, st, inst, now, gap, band, most) matches Some(p) && (p.allow_new_buy
            || p.allow_new_sell),
    ensures
        st.started && st.lifecycle != StrategyMode::Stopped && !st.flatten_requested,
        inst.status == InstrumentStatus::Trading,
        st.links.ref_md && st.links.maker_md,
        cfg.mode == RunMode::Live ==> st.links.private && st.links.trading,
        count_state(st.slots, SlotStateKind::Unknown) == 0,
        st.cooldown_until matches Some(until) ==> now.0 >= until.0,
        st.ref_book matches Some(b) && b.two_sided() && is_stale(
            now,
            b,
            cfg.risk.max_book_age_ms,
        ) == Some(false),
        st.maker_book matches Some(b) && b.two_sided() && is_stale(
            now,
            b,
            cfg.risk.max_book_age_ms,
        ) == Some(false),
        st.window.samples.len() >= cfg.pricing.min_samples,
        spread_fault(cfg, st, gap, band, most) is None,
{
}

/// Whoever may buy is below the limits for buying, and whoever may sell below those for selling.
pub proof fn law_limits_hold(
    cfg: StrategyConfig,
    st: StateV,
    inst: Instrument,
    now: Ts,
    gap: u64,
    band: u64,
    most: u64,
)
    requires
        permitted(cfg, st, inst, now, gap, band, most) is Some,
    ensures
        ({
            let p = permitted(cfg, st, inst, now, gap, band, most)->0;
            let amount = notional_of(st.net_qty.0, unit_px(st), unit_size(inst));
            &&& p.allow_new_buy ==> (amount matches Some(a) && a.is_below(cfg.risk.max_position)
                && (positive(st.net_qty.0) ==> a.is_below(cfg.risk.max_long)))
            &&& p.allow_new_sell ==> (amount matches Some(a) && a.is_below(cfg.risk.max_position)
                && (st.net_qty.0.is_below(dec_zero()) ==> a.is_below(cfg.risk.max_short)))
        }),
{
}

/// A book is there, with both sides and the bid below the ask, and was stamped no longer ago than allowed.
pub open spec fn fresh_book(b: Option<TopOfBook>, now: Ts, max_age_ms: u64) -> bool {
    b matches Some(k) && {
        &&& k.bid_px.0.mantissa > 0 && k.ask_px.0.mantissa > 0
        &&& k.bid_qty.0.mantissa > 0 && k.ask_qty.0.mantissa > 0
        &&& k.bid_px.0.is_below(k.ask_px.0)
        &&& i64::MIN <= now.0 - k.exchange_ts.0 <= i64::MAX
        &&& if as_signed(max_age_ms) >= 0 {
            now.0 - k.exchange_ts.0 < (as_signed(max_age_ms) + 1) * 1_000_000
        } else {
            now.0 - k.exchange_ts.0 <= as_signed(max_age_ms) * 1_000_000
        }
    }
}

/// The spread is trusted: it lies no further from its natural value than the band allows while there is any
/// movement, nor further than the limit where there is one.
pub open spec fn spread_trusted(cfg: StrategyConfig, st: StateV, gap: u64, band: u64, most: u64) -> bool {
    st.last_spread is Some && st.last_natural is Some && st.last_vol is Some ==> {
        &&& double_above(st.last_vol->0, 0) ==> !double_above(gap, band)
        &&& cfg.risk.max_abs_spread_dev is Some ==> !double_above(gap, most)
    }
}

/// Everything is as it must be for new quotes.
pub open spec fn healthy(
    cfg: StrategyConfig,
    st: StateV,
    inst: Instrument,
    now: Ts,
    gap: u64,
    band: u64,
    most: u64,
) -> bool {
    &&& st.started && st.lifecycle != StrategyMode::Stopped && !st.flatten_requested
    &&& inst.status == InstrumentStatus::Trading
    &&& st.links.ref_md && st.links.maker_md
    &&& cfg.mode == RunMode::Live ==> st.links.private && st.links.trading
    &&& forall|i: int|
        0 <= i < st.slots.len() ==> (#[trigger] st.slots[i]).1.state != SlotStateKind::Unknown
    &&& st.cooldown_until matches Some(until) ==> now.0 >= until.0
    &&& fresh_book(st.ref_book, now, cfg.risk.max_book_age_ms)
    &&& fresh_book(st.maker_book, now, cfg.risk.max_book_age_ms)
    &&& st.window.samples.len() >= cfg.pricing.min_samples
    &&& spread_trusted(cfg, st, gap, band, most)
}

proof fn lemma_no_unknown(st: StateV)
    ensures
        count_state(st.slots, SlotStateKind::Unknown) == 0 <==> forall|i: int|
            0 <= i < st.slots.len() ==> (#[trigger] st.slots[i]).1.state != SlotStateKind::Unknown,
{
    let p = |e: (crate::types::ids::SlotKey, crate::strategy::state::SlotV)| e.1.state == SlotStateKind::Unknown;
    let f = st.slots.filter(p);
    if f.len() > 0 {
        st.slots.lemma_filter_contains_rev(p, f[0]);
        assert(f.contains(f[0]));
        let i = choose|i: int| 0 <= i < st.slots.len() && st.slots[i] == f[0];
        st.slots.lemma_filter_pred(p, 0);
        assert(p(f[0]));
    }
    if exists|i: int|
        0 <= i < st.slots.len() && (#[trigger] st.slots[i]).1.state == SlotStateKind::Unknown {
        let i = choose|i: int|
            0 <= i < st.slots.len() && (#[trigger] st.slots[i]).1.state == SlotStateKind::Unknown;
        st.slots.lemma_filter_contains(p, i);
    }
}

proof fn lemma_fresh(b: TopOfBook, now: Ts, max_age_ms: u64)
    ensures
        fresh_book(Some(b), now, max_age_ms) <==> b.two_sided() && is_stale(now, b, max_age_ms)
            == Some(false),
{
    lemma_sign(b.bid_px.0);
    lemma_sign(b.ask_px.0);
    lemma_sign(b.bid_qty.0);
    lemma_sign(b.ask_qty.0);
}

/// New quotes are allowed exactly where everything is healthy and the limit of the side is not reached: the
/// amount held is below the limit of the whole position, and what is long, or short, is below the limit of
/// buying, or selling.
pub proof fn law_health_and_room_allow_quotes(
    cfg: StrategyConfig,
    st: StateV,
    inst: Instrument,
    now: Ts,
    gap: u64,
    band: u64,
    most: u64,
)
    requires
        permitted(cfg, st, inst, now, gap, band, most) is Some,
        notional_of(st.net_qty.0, unit_px(st), unit_size(inst)) is Some,
    ensures
        ({
            let p = permitted(cfg, st, inst, now, gap, band, most)->0;
            let amount = notional_of(st.net_qty.0, unit_px(st), unit_size(inst))->0;
            let well = healthy(cfg, st, inst, now, gap, band, most);
            let long = if st.net_qty.0.mantissa > 0 {
                amount
            } else {
                dec_zero()
            };
            let short = if st.net_qty.0.mantissa < 0 {
                amount
            } else {
                dec_zero()
            };
            &&& p.allow_new_buy <==> well && amount.is_below(cfg.risk.max_position) && long.is_below(
                cfg.risk.max_long,
            )
            &&& p.allow_new_sell <==> well && amount.is_below(cfg.risk.max_position)
                && short.is_below(cfg.risk.max_short)
            &&& p.reason is None <==> p.allow_new_buy && p.allow_new_sell
        }),
{
    lemma_no_unknown(st);
    lemma_sign(st.net_qty.0);
    if let Some(b) = st.ref_book {
        lemma_fresh(b, now, cfg.risk.max_book_age_ms);
    }
    if let Some(b) = st.maker_book {
        lemma_fresh(b, now, cfg.risk.max_book_age_ms);
    }
}

/// All orders are taken back where the strategy is to leave, where a connection is down, or while it rests after
/// a jump, and as long as nothing that comes before speaks against it; only leaving flattens.
pub proof fn law_orders_are_taken_back(
    cfg: StrategyConfig,
    st: StateV,
    inst: Instrument,
    now: Ts,
    gap: u64,
    band: u64,
    most: u64,
)
    requires
        permitted(cfg, st, inst, now, gap, band, most) is Some,
        st.started && st.lifecycle != StrategyMode::Stopped,
    ensures
        ({
            let p = permitted(cfg, st, inst, now, gap, band, most)->0;
            let down = !st.links.ref_md || !st.links.maker_md || (cfg.mode == RunMode::Live && (
            !st.links.private || !st.links.trading));
            let rests = st.cooldown_until matches Some(until) && now.0 < until.0;
            let known = forall|i: int|
                0 <= i < st.slots.len() ==> (#[trigger] st.slots[i]).1.state != SlotStateKind::Unknown;
            &&& p.force_flatten <==> st.flatten_requested
            &&& p.force_cancel_all <==> st.flatten_requested || (inst.status
                == InstrumentStatus::Trading && (down || (known && rests)))
        }),
{
    lemma_no_unknown(st);
}

/// The first thing that speaks against new quotes is the one that is named.
pub proof fn law_first_fault_is_named(
    cfg: StrategyConfig,
    st: StateV,
    inst: Instrument,
    now: Ts,
    gap: u64,
    band: u64,
    most: u64,
)
    requires
        permitted(cfg, st, inst, now, gap, band, most) is Some,
    ensures
        ({
            let reason = (permitted(cfg, st, inst, now, gap, band, most)->0).reason;
            let off = !st.started || st.lifecycle == StrategyMode::Stopped;
            let live = cfg.mode == RunMode::Live;
            let up = st.links.ref_md && st.links.maker_md && (live ==> st.links.private
                && st.links.trading);
            let known = forall|i: int|
                0 <= i < st.slots.len() ==> (#[trigger] st.slots[i]).1.state != SlotStateKind::Unknown;
            let quiet = st.cooldown_until matches Some(until) ==> now.0 >= until.0;
            let open = !off && !st.flatten_requested && inst.status == InstrumentStatus::Trading;
            let fresh = fresh_book(st.ref_book, now, cfg.risk.max_book_age_ms) && fresh_book(
                st.maker_book,
                now,
                cfg.risk.max_book_age_ms,
            );
            &&& off ==> reason == Some("stopped"@)
            &&& !off && st.flatten_requested ==> reason == Some("flatten"@)
            &&& !off && !st.flatten_requested && inst.status != InstrumentStatus::Trading ==> reason
                == Some("instrument_halt"@)
            &&& open && !st.links.ref_md ==> reason == Some("ref_md_down"@)
            &&& open && st.links.ref_md && !st.links.maker_md ==> reason == Some("maker_md_down"@)
            &&& open && up && !known ==> reason == Some("unknown_slots"@)
            &&& open && up && known && !quiet ==> reason == Some("jump_cooldown"@)
            &&& open && up && known && quiet && st.ref_book is None ==> reason == Some("no_ref_book"@)
            &&& open && up && known && quiet && st.ref_book is Some && st.maker_book is None ==> reason
                == Some("no_maker_book"@)
            &&& open && up && known && quiet && fresh && st.window.samples.len() < cfg.pricing.min_samples
                ==> reason == Some("warmup"@)
        }),
{
    lemma_no_unknown(st);
    if let Some(b) = st.ref_book {
        lemma_fresh(b, now, cfg.risk.max_book_age_ms);
    }
    if let Some(b) = st.maker_book {
        lemma_fresh(b, now, cfg.risk.max_book_age_ms);
    }
}

} // verus!
