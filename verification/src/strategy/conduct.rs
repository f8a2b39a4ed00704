//! What a strategy's prices, its lots and its position come to, event by event.
use crate::config::{positive, StrategyConfig};
use crate::strategy::machine::{
    advanced_from, all_wanted, before_quoting, begun, event_applied, executed, fair_set, fast_note,
    fill_adds, fill_subtracts, filled_from, goes_in, inventory_counts, lot_advanced, lots_rebuilt,
    net_after, norm_px, open_lots, quoted, report_counts, resting, stepped, takes_part, terms_of,
    Doubles, PriceDoubles, QuoteDoubles, SpreadMath, Step,
};
use crate::strategy::quote::{settled, settled_from, DesiredSlot, Terms};
use crate::strategy::state::{slot_of_order, StateV};
use crate::types::action::ActionV;
use crate::types::book::TopOfBook;
use crate::types::decimal::{
    at_scale, common_scale, dec_int, dec_one, decimal_difference, decimal_product,
    decimal_quotient, decimal_sum, difference_fits, fits, law_order_is_by_worth, lemma_adds, lemma_multiplies, lemma_sign, pow10,
    product_fits, subtracts, sum_fits, unit_worth, worth, Decimal, MAX_SCALE,
};
use crate::types::double::double_above;
use crate::types::event::{ControlCmd, Event};
use crate::types::ids::{LinkKind, Purpose, Side, StrategyMode};
use crate::types::instrument::Instrument;
use crate::types::num::{Px, Qty};
use crate::types::order::{ExecKind, ExecReport, ExecV};
use crate::types::position::{ExitPhase, Lot};
use crate::types::snapshot::LinkStatus;
use crate::types::time::Ts;
use vstd::arithmetic::power::{lemma_pow_adds, lemma_pow_positive};
use vstd::prelude::*;

verus! {

/// An event makes a strategy work out prices and bring orders about: the commands to start and to leave
/// do, the command to stop does not, and anything else does as long as the strategy runs.
pub open spec fn acts(st: StateV, ev: Event) -> bool {
    match ev {
        Event::Control(ControlCmd::Start) => true,
        Event::Control(ControlCmd::Flatten) => true,
        Event::Control(ControlCmd::Stop) => false,
        _ => st.lifecycle != StrategyMode::Stopped && st.lifecycle != StrategyMode::Init,
    }
}

proof fn lemma_settled_keeps(
    st: StateV,
    out: Seq<ActionV>,
    desired: Seq<DesiredSlot>,
    i: int,
    t: Terms,
    gaps: Seq<Option<u64>>,
)
    requires
        0 <= i <= desired.len(),
    ensures
        settled_from(st, out, desired, i, t, gaps) matches Some(n) ==> n.0 == (StateV {
            slots: n.0.slots,
            next_seq: n.0.next_seq,
            ..st
        }),
    decreases desired.len() - i,
{
    if i < desired.len() {
        match settled(st, out, desired[i], t, gaps[i]) {
            None => {},
            Some(n) => {
                lemma_settled_keeps(n.0, n.1, desired, i + 1, t, gaps);
            },
        }
    }
}

/// Bringing orders about changes slots and order numbers, and nothing else.
pub proof fn law_quoting_changes_only_slots(
    st: StateV,
    cfg: StrategyConfig,
    maker: Instrument,
    now: Ts,
    requote: u64,
    gaps: Seq<Option<u64>>,
    out: Seq<ActionV>,
)
    ensures
        quoted(st, cfg, maker, now, requote, gaps, out) matches Some(n) ==> n.0 == (StateV {
            slots: n.0.slots,
            next_seq: n.0.next_seq,
            ..st
        }),
{
    if !resting(st, now) {
        match all_wanted(st, cfg, maker) {
            None => {},
            Some(d) => {
                let noted = match st.permission.reason {
                    Some(reason) => out.push(
                        ActionV::Emit(crate::types::action::TelemetryV::Guard { reason }),
                    ),
                    None => out,
                };
                lemma_settled_keeps(st, noted, d, 0, terms_of(st, cfg, now, requote), gaps);
            },
        }
    }
}

/// What an event says of the world is what is known of it afterwards.
pub open spec fn remembered(st: StateV, ev: Event, n: StateV) -> bool {
    &&& n.ref_book == (match ev {
        Event::RefBook(u) => Some(u.book),
        _ => st.ref_book,
    })
    &&& n.maker_book == (match ev {
        Event::MakerBook(u) => Some(u.book),
        _ => st.maker_book,
    })
    &&& n.fx == (match ev {
        Event::Fx(x) => if x.rate.mantissa > 0 {
            x.rate
        } else {
            st.fx
        },
        _ => st.fx,
    })
    &&& n.links == (match ev {
        Event::Link { kind: LinkKind::Private, up, .. } => LinkStatus { private: up, ..st.links },
        Event::Link { kind: LinkKind::Trading, up, .. } => LinkStatus { trading: up, ..st.links },
        _ => st.links,
    })
}

/// The same prices and figures were seen last.
pub open spec fn same_prices(st: StateV, n: StateV) -> bool {
    &&& n.last_ref_mid == st.last_ref_mid
    &&& n.last_fair == st.last_fair
    &&& n.last_natural == st.last_natural
    &&& n.last_vol == st.last_vol
    &&& n.last_spread == st.last_spread
}

/// A report changes slots, lots, the position and the numbers of lots, and nothing else.
pub proof fn lemma_executed_keeps(st: StateV, cfg: StrategyConfig, now: Ts, rep: ExecV, out: Seq<ActionV>)
    ensures
        executed(st, cfg, now, rep, out) matches Some(n) ==> n.0 == (StateV {
            slots: n.0.slots,
            lots: n.0.lots,
            net_qty: n.0.net_qty,
            next_lot: n.0.next_lot,
            ..st
        }),
{
}

pub proof fn lemma_applied(st: StateV, cfg: StrategyConfig, now: Ts, ev: Event, out: Seq<ActionV>)
    ensures
        event_applied(st, cfg, now, ev, out) matches Some(a) ==> remembered(st, ev, a.0)
            && same_prices(st, a.0) && takes_part(a.0, ev) == acts(st, ev),
{
    match ev {
        Event::Fx(x) => {
            lemma_sign(x.rate);
        },
        Event::Exec(rep) => {
            lemma_executed_keeps(st, cfg, now, rep@, out);
        },
        Event::PositionSync(p) => {},
        Event::Control(cmd) => {},
        _ => {},
    }
}

/// Looking at prices changes the reference price, the spread, the window, the rest and which requests are
/// given up, and nothing else.
pub proof fn lemma_begun(
    st: StateV,
    cfg: StrategyConfig,
    now: Ts,
    ev: Event,
    p: PriceDoubles,
    out: Seq<ActionV>,
)
    ensures
        begun(st, cfg, now, ev, p, out) matches Some(b) ==> {
            &&& event_applied(st, cfg, now, ev, out) matches Some(a) && b.1 == a.1 && b.0 == (StateV {
                slots: b.0.slots,
                last_ref_mid: b.0.last_ref_mid,
                cooldown_until: b.0.cooldown_until,
                last_spread: b.0.last_spread,
                window: b.0.window,
                ..a.0
            })
            &&& b.2.proceed == acts(st, ev)
            &&& if acts(st, ev) && (b.0.ref_book matches Some(k) && k.two_sided()) {
                &&& b.2.norm is Some && b.0.last_ref_mid == b.2.norm
                &&& b.2.norm == norm_px(b.0.ref_book->0, b.0.fx, cfg.market.multiplier)
                &&& b.2.sampled == ((b.0.maker_book matches Some(m) && m.two_sided()) && positive(
                    (b.2.norm->0).0,
                ))
                &&& b.2.sampled ==> b.0.last_spread == Some(p.spread)
            } else {
                b.2.norm is None && b.0.last_ref_mid == st.last_ref_mid && b.0.last_spread
                    == st.last_spread
            }
        },
{
    lemma_applied(st, cfg, now, ev, out);
}

/// The rest but for the orders changes the fair price and its figures, lots, what may be quoted and the
/// mode, and nothing else.
proof fn lemma_before_quoting(
    st: StateV,
    cfg: StrategyConfig,
    maker: Instrument,
    now: Ts,
    step: Step,
    q: QuoteDoubles,
    out: Seq<ActionV>,
)
    ensures
        before_quoting(st, cfg, maker, now, step, q, out) matches Some(s) ==> {
            &&& fair_set(st, step.norm, step.sampled, q.figures) matches Some(priced) && (
            advanced_from(
                priced.lots,
                0,
                Seq::empty(),
                priced.last_fair,
                q.losses,
                q.max_loss,
                now,
                out,
            ) matches Some(exits) && s.1 == exits.1 && s.0 == (StateV {
                lots: exits.0,
                permission: s.0.permission,
                started: s.0.started,
                lifecycle: s.0.lifecycle,
                ..priced
            }))
        },
{
}

/// What an event says of the world is what the strategy knows of it afterwards: the books, the rate and
/// the connections. A rate that is not positive is not taken.
pub proof fn law_events_are_remembered(
    st: StateV,
    cfg: StrategyConfig,
    maker: Instrument,
    now: Ts,
    ev: Event,
    f: Doubles,
    out: Seq<ActionV>,
)
    requires
        stepped(st, cfg, maker, now, ev, f, out) is Some,
    ensures
        remembered(st, ev, (stepped(st, cfg, maker, now, ev, f, out)->0).0),
{
    lemma_applied(st, cfg, now, ev, out);
    lemma_stages(st, cfg, maker, now, ev, f, out);
}

/// What an event comes to, stage by stage.
pub proof fn lemma_stages(
    st: StateV,
    cfg: StrategyConfig,
    maker: Instrument,
    now: Ts,
    ev: Event,
    f: Doubles,
    out: Seq<ActionV>,
)
    requires
        stepped(st, cfg, maker, now, ev, f, out) is Some,
    ensures
        ({
            let n = (stepped(st, cfg, maker, now, ev, f, out)->0).0;
            let a = event_applied(st, cfg, now, ev, out)->0;
            let b = begun(st, cfg, now, ev, f.price, out)->0;
            let priced = fair_set(b.0, b.2.norm, b.2.sampled, f.quote.figures);
            let exits = advanced_from(
                (priced->0).lots,
                0,
                Seq::empty(),
                (priced->0).last_fair,
                f.quote.losses,
                f.quote.max_loss,
                now,
                b.1,
            );
            &&& event_applied(st, cfg, now, ev, out) is Some
            &&& begun(st, cfg, now, ev, f.price, out) is Some
            &&& b.0.lots == a.0.lots
            &&& !acts(st, ev) ==> n == b.0
            &&& acts(st, ev) ==> priced is Some && exits is Some && n == (StateV {
                lots: (exits->0).0,
                permission: n.permission,
                started: n.started,
                lifecycle: n.lifecycle,
                slots: n.slots,
                next_seq: n.next_seq,
                ..priced->0
            })
        }),
{
    lemma_begun(st, cfg, now, ev, f.price, out);
    let b = begun(st, cfg, now, ev, f.price, out)->0;
    if b.2.proceed {
        lemma_before_quoting(b.0, cfg, maker, now, b.2, f.quote, b.1);
        let s = before_quoting(b.0, cfg, maker, now, b.2, f.quote, b.1)->0;
        law_quoting_changes_only_slots(s.0, cfg, maker, now, f.quote.requote, f.quote.gaps, s.1);
    }
}

/// Both sides of a book are there, and the bid lies below the ask.
pub open spec fn sound_book(b: TopOfBook) -> bool {
    &&& b.bid_px.0.mantissa > 0 && b.ask_px.0.mantissa > 0
    &&& b.bid_qty.0.mantissa > 0 && b.ask_qty.0.mantissa > 0
    &&& b.bid_px.0.is_below(b.ask_px.0)
}

pub proof fn lemma_sound_book(b: TopOfBook)
    ensures
        b.two_sided() <==> sound_book(b),
{
    lemma_sign(b.bid_px.0);
    lemma_sign(b.ask_px.0);
    lemma_sign(b.bid_qty.0);
    lemma_sign(b.ask_qty.0);
}

/// A reference price in the maker's terms: the middle of the book, times the rate, times the multiplier.
pub open spec fn is_ref_px(b: TopOfBook, fx: Decimal, multiplier: Decimal, norm: Decimal) -> bool {
    decimal_sum(b.bid_px.0, b.ask_px.0) matches Some(both) && (decimal_quotient(both, dec_int(2))
        matches Some(mid) && (decimal_product(mid, fx) matches Some(p) && decimal_product(
        p,
        multiplier,
    ) == Some(norm)))
}

/// After an event on which a strategy acts, with a sound reference book, the last reference price is that
/// of the book; the fair price is its product with the factor that the natural spread gives, or itself as
/// long as no natural spread is known. Without a sound book neither price changes.
pub proof fn law_fair_price_follows_the_reference(
    st: StateV,
    cfg: StrategyConfig,
    maker: Instrument,
    now: Ts,
    ev: Event,
    f: Doubles,
    out: Seq<ActionV>,
)
    requires
        stepped(st, cfg, maker, now, ev, f, out) is Some,
    ensures
        ({
            let n = (stepped(st, cfg, maker, now, ev, f, out)->0).0;
            let scale = f.quote.figures.scale;
            if acts(st, ev) && (n.ref_book matches Some(b) && sound_book(b)) {
                &&& n.last_ref_mid matches Some(norm) && is_ref_px(
                    n.ref_book->0,
                    n.fx,
                    cfg.market.multiplier,
                    norm.0,
                )
                &&& n.last_natural is None ==> n.last_fair == n.last_ref_mid
                &&& n.last_natural is Some ==> (n.last_fair matches Some(fair) && decimal_product(
                    (n.last_ref_mid->0).0,
                    if scale.wf() {
                        scale
                    } else {
                        dec_one()
                    },
                ) == Some(fair.0))
                &&& (n.maker_book matches Some(m) && sound_book(m)) && (n.last_ref_mid->0).0.mantissa > 0
                    ==> n.last_natural == f.quote.figures.natural && n.last_vol
                    == f.quote.figures.vol && n.last_spread == Some(f.price.spread)
            } else {
                n.last_ref_mid == st.last_ref_mid && n.last_fair == st.last_fair && n.last_natural
                    == st.last_natural && n.last_vol == st.last_vol && n.last_spread
                    == st.last_spread
            }
        }),
{
    lemma_applied(st, cfg, now, ev, out);
    lemma_begun(st, cfg, now, ev, f.price, out);
    lemma_stages(st, cfg, maker, now, ev, f, out);
    let n = (stepped(st, cfg, maker, now, ev, f, out)->0).0;
    let b = begun(st, cfg, now, ev, f.price, out)->0;
    if let Some(k) = n.ref_book {
        lemma_sound_book(k);
    }
    if let Some(k) = n.maker_book {
        lemma_sound_book(k);
    }
    if let Some(norm) = b.2.norm {
        lemma_sign(norm.0);
    }
}

/// Where the product of a positive reference price and the factor fits, the fair price is that product: it
/// lies above the reference price exactly if the factor lies above one, and below it exactly if the factor
/// lies below one.
pub proof fn law_fair_price_lies_where_the_spread_says<M: SpreadMath>(
    math: M,
    st: StateV,
    cfg: StrategyConfig,
    maker: Instrument,
    now: Ts,
    ev: Event,
    f: Doubles,
    out: Seq<ActionV>,
)
    requires
        goes_in(math, st, cfg, maker, now, ev, f, out),
        stepped(st, cfg, maker, now, ev, f, out) is Some,
        acts(st, ev),
        ({
            let n = (stepped(st, cfg, maker, now, ev, f, out)->0).0;
            &&& n.ref_book matches Some(b) && sound_book(b)
            &&& n.last_natural is Some
            &&& (n.last_ref_mid->0).0.mantissa > 0
            &&& product_fits((n.last_ref_mid->0).0, f.quote.figures.scale)
        }),
    ensures
        ({
            let n = (stepped(st, cfg, maker, now, ev, f, out)->0).0;
            let norm = (n.last_ref_mid->0).0;
            let fair = (n.last_fair->0).0;
            let scale = f.quote.figures.scale;
            &&& worth(fair) * unit_worth() == worth(norm) * worth(scale)
            &&& norm.is_below(fair) <==> dec_one().is_below(scale)
            &&& fair.is_below(norm) <==> scale.is_below(dec_one())
        }),
{
    law_fair_price_follows_the_reference(st, cfg, maker, now, ev, f, out);
    let n = (stepped(st, cfg, maker, now, ev, f, out)->0).0;
    let norm = (n.last_ref_mid->0).0;
    let fair = (n.last_fair->0).0;
    let scale = f.quote.figures.scale;
    let b = begun(st, cfg, now, ev, f.price, out)->0;
    lemma_begun(st, cfg, now, ev, f.price, out);
    lemma_stages(st, cfg, maker, now, ev, f, out);
    lemma_sound_book(n.ref_book->0);
    assert(b.2.norm == Some(Px(norm)));
    lemma_multiplies(norm, scale);
    law_order_is_by_worth(norm, fair);
    law_order_is_by_worth(fair, norm);
    law_order_is_by_worth(dec_one(), scale);
    law_order_is_by_worth(scale, dec_one());
    lemma_pow_positive(10, 28);
    let x = worth(norm);
    let y = worth(scale);
    let z = worth(fair);
    let u = unit_worth();
    assert(worth(dec_one()) == u) by {
        assert(1 * u == u);
    }
    assert(z > x <==> y > u) by (nonlinear_arith)
        requires
            z * u == x * y,
            x > 0,
            u > 0,
    ;
    assert(z < x <==> y < u) by (nonlinear_arith)
        requires
            z * u == x * y,
            x > 0,
            u > 0,
    ;
}

/// A lot that is still open, before and after an event: everything but the phase of its exit stays. It goes
/// to the taker if it was there before, has lost too much, or its time is up, and not otherwise; it goes to
/// the fast exit if the first part of its time is up, and not otherwise.
pub open spec fn moves_on(a: Lot, b: Lot, lost: bool, now: Ts) -> bool {
    let taker = a.phase == ExitPhase::TakerExit || lost || now.0 >= a.force_deadline.0;
    &&& !is_over(a)
    &&& b == (Lot { phase: b.phase, ..a })
    &&& b.phase == ExitPhase::TakerExit <==> taker
    &&& b.phase == ExitPhase::FastMaker <==> !taker && (a.phase == ExitPhase::FastMaker || now.0
        >= a.fast_deadline.0)
    &&& b.phase != ExitPhase::Closed
}

/// A lot has lost more than it may, as far as there is a fair price.
pub open spec fn too_much(fair: Option<Px>, loss: Option<u64>, most: u64) -> bool {
    fair is Some && (loss matches Some(l) && double_above(l, most))
}

/// A lot is closed or holds nothing.
pub open spec fn is_over(lot: Lot) -> bool {
    lot.phase == ExitPhase::Closed || lot.remaining.0.mantissa == 0
}

/// `r` are the lots of a list that are not over, in their order, each moved on: `at` says which.
pub open spec fn all_move_on(
    lots: Seq<Lot>,
    r: Seq<Lot>,
    at: Seq<int>,
    fair: Option<Px>,
    losses: Seq<Option<u64>>,
    most: u64,
    now: Ts,
) -> bool {
    &&& r.len() == at.len()
    &&& forall|j: int| 0 <= j < at.len() ==> 0 <= #[trigger] at[j] < lots.len()
    &&& forall|j: int, k: int| 0 <= j < k < at.len() ==> #[trigger] at[j] < #[trigger] at[k]
    &&& forall|j: int|
        #![trigger r[j]]
        0 <= j < r.len() ==> moves_on(
            lots[at[j]],
            r[j],
            too_much(fair, losses[at[j]], most),
            now,
        )
    &&& forall|i: int| 0 <= i < lots.len() && !is_over(#[trigger] lots[i]) ==> at.contains(i)
}

proof fn lemma_moved_on(
    lots: Seq<Lot>,
    i: int,
    kept: Seq<Lot>,
    at: Seq<int>,
    fair: Option<Px>,
    losses: Seq<Option<u64>>,
    most: u64,
    now: Ts,
    out: Seq<ActionV>,
) -> (full: Seq<int>)
    requires
        0 <= i <= lots.len(),
        all_move_on(lots.take(i), kept, at, fair, losses, most, now),
        advanced_from(lots, i, kept, fair, losses, most, now, out) is Some,
    ensures
        all_move_on(
            lots,
            (advanced_from(lots, i, kept, fair, losses, most, now, out)->0).0,
            full,
            fair,
            losses,
            most,
            now,
        ),
    decreases lots.len() - i,
{
    if i < lots.len() {
        let n = lot_advanced(lots[i], fair, losses[i], most, now)->0;
        let next_out = if n.1 {
            out.push(fast_note(lots[i].id))
        } else {
            out
        };
        assert(lots.take(i + 1) =~= lots.take(i).push(lots[i]));
        let now_lots = lots.take(i + 1);
        if n.0.phase == ExitPhase::Closed {
            assert(is_over(lots[i]));
            assert(all_move_on(now_lots, kept, at, fair, losses, most, now)) by {
                assert forall|j: int| #![trigger kept[j]] 0 <= j < kept.len() implies moves_on(
                    now_lots[at[j]],
                    kept[j],
                    too_much(fair, losses[at[j]], most),
                    now,
                ) by {
                    let w = at[j];
                    assert(0 <= w < lots.take(i).len());
                    assert(now_lots[w] == lots.take(i)[w]);
                }
                assert forall|j: int| 0 <= j < at.len() implies 0 <= #[trigger] at[j]
                    < now_lots.len() by {}
                assert forall|k: int| 0 <= k < now_lots.len() && !is_over(
                    #[trigger] now_lots[k],
                ) implies at.contains(k) by {
                    assert(now_lots[k] == lots.take(i)[k]);
                }
            }
            lemma_moved_on(lots, i + 1, kept, at, fair, losses, most, now, next_out)
        } else {
            let more = kept.push(n.0);
            let more_at = at.push(i);
            assert(all_move_on(now_lots, more, more_at, fair, losses, most, now)) by {
                assert forall|j: int| #![trigger more[j]] 0 <= j < more.len() implies moves_on(
                    now_lots[more_at[j]],
                    more[j],
                    too_much(fair, losses[more_at[j]], most),
                    now,
                ) by {
                    if j < kept.len() {
                        assert(more[j] == kept[j] && more_at[j] == at[j]);
                        let w = at[j];
                        assert(0 <= w < lots.take(i).len());
                        assert(now_lots[w] == lots.take(i)[w]);
                    } else {
                        assert(now_lots[more_at[j]] == lots[i]);
                    }
                }
                assert forall|j: int| 0 <= j < more_at.len() implies 0 <= #[trigger] more_at[j]
                    < now_lots.len() by {
                    if j < at.len() {
                        assert(more_at[j] == at[j]);
                    }
                }
                assert forall|j: int, k: int| 0 <= j < k < more_at.len() implies (
                #[trigger] more_at[j]) < (#[trigger] more_at[k]) by {
                    assert(more_at[j] == at[j]);
                    assert(0 <= at[j] < lots.take(i).len());
                    if k < at.len() {
                        assert(more_at[k] == at[k]);
                    }
                }
                assert forall|k: int| 0 <= k < now_lots.len() && !is_over(
                    #[trigger] now_lots[k],
                ) implies more_at.contains(k) by {
                    if k < i {
                        assert(now_lots[k] == lots.take(i)[k]);
                        let j = choose|j: int| 0 <= j < at.len() && at[j] == k;
                        assert(more_at[j] == k);
                    } else {
                        assert(more_at[at.len() as int] == k);
                    }
                }
            }
            lemma_moved_on(lots, i + 1, more, more_at, fair, losses, most, now, next_out)
        }
    } else {
        assert(lots.take(i) =~= lots);
        at
    }
}

/// Lots move on towards their exit: those that are over are gone, all others stay, in their order, each in
/// the phase that its time and its loss call for.
pub proof fn law_lots_leave_in_time(
    lots: Seq<Lot>,
    fair: Option<Px>,
    losses: Seq<Option<u64>>,
    most: u64,
    now: Ts,
    out: Seq<ActionV>,
)
    requires
        advanced_from(lots, 0, Seq::empty(), fair, losses, most, now, out) is Some,
    ensures
        exists|at: Seq<int>| #[trigger]
            all_move_on(
                lots,
                (advanced_from(lots, 0, Seq::empty(), fair, losses, most, now, out)->0).0,
                at,
                fair,
                losses,
                most,
                now,
            ),
{
    let at = lemma_moved_on(
        lots,
        0,
        Seq::empty(),
        Seq::empty(),
        fair,
        losses,
        most,
        now,
        out,
    );
}

/// After an event on which a strategy acts, every lot that is left holds something and is not closed; one
/// whose time is up is with the taker, and one with its maker has time left.
pub proof fn law_overdue_lots_go_to_the_taker(
    st: StateV,
    cfg: StrategyConfig,
    maker: Instrument,
    now: Ts,
    ev: Event,
    f: Doubles,
    out: Seq<ActionV>,
    j: int,
)
    requires
        stepped(st, cfg, maker, now, ev, f, out) is Some,
        acts(st, ev),
        0 <= j < (stepped(st, cfg, maker, now, ev, f, out)->0).0.lots.len(),
    ensures
        ({
            let lot = (stepped(st, cfg, maker, now, ev, f, out)->0).0.lots[j];
            &&& lot.remaining.0.mantissa != 0 && lot.phase != ExitPhase::Closed
            &&& now.0 >= lot.force_deadline.0 ==> lot.phase == ExitPhase::TakerExit
            &&& now.0 >= lot.fast_deadline.0 ==> lot.phase != ExitPhase::MakerTp
        }),
{
    lemma_stages(st, cfg, maker, now, ev, f, out);
    let b = begun(st, cfg, now, ev, f.price, out)->0;
    let priced = fair_set(b.0, b.2.norm, b.2.sampled, f.quote.figures)->0;
    let lots = (stepped(st, cfg, maker, now, ev, f, out)->0).0.lots;
    law_lots_leave_in_time(
        priced.lots,
        priced.last_fair,
        f.quote.losses,
        f.quote.max_loss,
        now,
        b.1,
    );
    let at = choose|at: Seq<int>| #[trigger]
        all_move_on(
            priced.lots,
            lots,
            at,
            priced.last_fair,
            f.quote.losses,
            f.quote.max_loss,
            now,
        );
    assert(moves_on(
        priced.lots[at[j]],
        lots[j],
        too_much(priced.last_fair, f.quote.losses[at[j]], f.quote.max_loss),
        now,
    ));
}

/// A number that is not negative, of at most `s` fractional digits, with room for `s`.
pub open spec fn counts(d: Decimal, s: u32) -> bool {
    d.mantissa >= 0 && within(d, s)
}

/// A number of at most `s` fractional digits, with room for `s`.
pub open spec fn within(d: Decimal, s: u32) -> bool {
    d.wf() && d.scale <= s <= MAX_SCALE && fits(at_scale(d, s))
}

/// A number written with fewer digits, where it has no more, is no larger an integer.
proof fn lemma_fewer_digits(d: Decimal, c: u32, s: u32)
    requires
        d.scale <= c <= s <= MAX_SCALE,
    ensures
        at_scale(d, c) * pow10((s - c) as nat) == at_scale(d, s),
        pow10((s - c) as nat) >= 1,
        fits(at_scale(d, s)) ==> fits(at_scale(d, c)),
{
    let a = pow10((c - d.scale) as nat);
    let b = pow10((s - c) as nat);
    lemma_pow_positive(10, (s - c) as nat);
    lemma_pow_adds(10, (c - d.scale) as nat, (s - c) as nat);
    assert((d.mantissa * a) * b == d.mantissa * (a * b)) by (nonlinear_arith);
    lemma_shrinks(at_scale(d, c), b);
}

proof fn lemma_shrinks(x: int, g: int)
    requires
        g >= 1,
    ensures
        fits(x * g) ==> fits(x),
{
    assert(x >= 0 ==> x <= x * g) by (nonlinear_arith)
        requires
            g >= 1,
    ;
    assert(x <= 0 ==> x * g <= x) by (nonlinear_arith)
        requires
            g >= 1,
    ;
}

/// What a number is worth grows with the integer that it is at some scale.
proof fn lemma_worth_at(d: Decimal, s: u32)
    requires
        d.scale <= s <= MAX_SCALE,
    ensures
        at_scale(d, s) * pow10((MAX_SCALE - s) as nat) == worth(d),
        pow10((MAX_SCALE - s) as nat) >= 1,
        d.mantissa >= 0 ==> at_scale(d, s) >= 0,
{
    lemma_fewer_digits(d, s, MAX_SCALE);
    lemma_pow_positive(10, (s - d.scale) as nat);
    let g = pow10((s - d.scale) as nat);
    assert(d.mantissa >= 0 ==> d.mantissa * g >= 0) by (nonlinear_arith)
        requires
            g > 0,
    ;
}

/// A smaller number taken from a larger one.
pub proof fn lemma_take(a: Decimal, b: Decimal, s: u32)
    requires
        counts(a, s),
        counts(b, s),
        worth(b) <= worth(a),
        subtracts(a, b),
    ensures
        decimal_difference(a, b) matches Some(d) && counts(d, s) && worth(d) == worth(a) - worth(b),
{
    let c = common_scale(a, b);
    lemma_fewer_digits(a, c, s);
    lemma_fewer_digits(b, c, s);
    lemma_worth_at(a, c);
    lemma_worth_at(b, c);
    let g = pow10((MAX_SCALE - c) as nat);
    let x = at_scale(a, c);
    let y = at_scale(b, c);
    assert(y <= x) by (nonlinear_arith)
        requires
            y * g <= x * g,
            g >= 1,
    ;
    assert(difference_fits(a, b));
    let d = decimal_difference(a, b)->0;
    law_order_is_by_worth(d, d);
    lemma_sign(d);
    lemma_worth_at(d, s);
    lemma_worth_at(a, s);
    lemma_worth_at(b, s);
    let h = pow10((MAX_SCALE - s) as nat);
    let z = at_scale(d, s);
    let w = at_scale(a, s);
    let v = at_scale(b, s);
    assert(v * h >= 0) by (nonlinear_arith)
        requires
            v >= 0,
            h >= 1,
    ;
    assert(z <= w) by (nonlinear_arith)
        requires
            z * h <= w * h,
            h >= 1,
    ;
}

/// What a lot adds to a position.
pub open spec fn lot_worth(lot: Lot) -> int {
    if lot.side == Side::Buy {
        worth(lot.remaining.0)
    } else {
        -worth(lot.remaining.0)
    }
}

/// What lots add to a position together.
pub open spec fn lots_worth(lots: Seq<Lot>) -> int
    decreases lots.len(),
{
    if lots.len() == 0 {
        0
    } else {
        lots_worth(lots.drop_last()) + lot_worth(lots.last())
    }
}

/// What the lots from `i` on hold that an exit on a side can close.
pub open spec fn closable(lots: Seq<Lot>, i: int, exit_side: Side) -> int
    decreases lots.len() - i,
{
    if !(0 <= i < lots.len()) {
        0
    } else {
        closable(lots, i + 1, exit_side) + (if lots[i].side != exit_side {
            worth(lots[i].remaining.0)
        } else {
            0
        })
    }
}

/// Lots of sizes that are not negative, of at most `s` digits; a closed one holds nothing.
pub open spec fn lots_count(lots: Seq<Lot>, s: u32) -> bool {
    forall|i: int|
        0 <= i < lots.len() ==> counts((#[trigger] lots[i]).remaining.0, s) && (lots[i].phase
            == ExitPhase::Closed ==> lots[i].remaining.0.mantissa == 0)
}

proof fn lemma_update_worth(lots: Seq<Lot>, i: int, x: Lot)
    requires
        0 <= i < lots.len(),
    ensures
        lots_worth(lots.update(i, x)) == lots_worth(lots) - lot_worth(lots[i]) + lot_worth(x),
    decreases lots.len(),
{
    let next = lots.update(i, x);
    if i == lots.len() - 1 {
        assert(next.drop_last() =~= lots.drop_last());
    } else {
        lemma_update_worth(lots.drop_last(), i, x);
        assert(next.drop_last() =~= lots.drop_last().update(i, x));
    }
}

proof fn lemma_closable_ahead(lots: Seq<Lot>, i: int, j: int, x: Lot, exit_side: Side)
    requires
        0 <= i < j <= lots.len(),
    ensures
        closable(lots.update(i, x), j, exit_side) == closable(lots, j, exit_side),
    decreases lots.len() - j,
{
    if j < lots.len() {
        lemma_closable_ahead(lots, i, j + 1, x, exit_side);
    }
}

pub proof fn lemma_subtracts_ahead(lots: Seq<Lot>, i: int, j: int, x: Lot, exit_side: Side, left: Decimal)
    requires
        0 <= i < j <= lots.len(),
    ensures
        fill_subtracts(lots.update(i, x), j, exit_side, left) == fill_subtracts(
            lots,
            j,
            exit_side,
            left,
        ),
    decreases lots.len() - j,
{
    if j < lots.len() {
        let take = lots[j].remaining.0.smaller(left);
        lemma_subtracts_ahead(lots, i, j + 1, x, exit_side, left);
        if let Some(over) = decimal_difference(left, take) {
            lemma_subtracts_ahead(lots, i, j + 1, x, exit_side, over);
        }
    }
}

/// An exit that the lots can bear takes its size out of them.
proof fn lemma_filled_worth(lots: Seq<Lot>, i: int, exit_side: Side, left: Decimal, s: u32)
    requires
        0 <= i <= lots.len(),
        lots_count(lots, s),
        counts(left, s),
        left.mantissa > 0,
        worth(left) <= closable(lots, i, exit_side),
        fill_subtracts(lots, i, exit_side, left),
    ensures
        filled_from(lots, i, exit_side, left) matches Some(r) && lots_count(r, s) && lots_worth(r)
            == lots_worth(lots) + (if exit_side == Side::Buy {
            worth(left)
        } else {
            -worth(left)
        }),
    decreases lots.len() - i,
{
    law_order_is_by_worth(left, left);
    lemma_sign(left);
    if i < lots.len() {
        let lot = lots[i];
        let rem = lot.remaining.0;
        law_order_is_by_worth(rem, left);
        law_order_is_by_worth(left, rem);
        lemma_sign(rem);
        assert(lot.side.other() == exit_side <==> lot.side != exit_side);
        if lot.side.other() != exit_side || rem.zero_valued() {
            lemma_filled_worth(lots, i + 1, exit_side, left, s);
        } else {
            let take = rem.smaller(left);
            lemma_take(rem, take, s);
            lemma_take(left, take, s);
            let rest = decimal_difference(rem, take)->0;
            let over = decimal_difference(left, take)->0;
            law_order_is_by_worth(rest, over);
            law_order_is_by_worth(over, rest);
            lemma_sign(over);
            let x = Lot {
                remaining: Qty(rest),
                phase: if rest.zero_valued() {
                    ExitPhase::Closed
                } else {
                    lot.phase
                },
                ..lot
            };
            let next = lots.update(i, x);
            lemma_update_worth(lots, i, x);
            assert(lots_count(next, s)) by {
                assert forall|k: int| 0 <= k < next.len() implies counts(
                    (#[trigger] next[k]).remaining.0,
                    s,
                ) && (next[k].phase == ExitPhase::Closed ==> next[k].remaining.0.mantissa == 0) by {
                    if k != i {
                        assert(next[k] == lots[k]);
                    }
                }
            }
            if positive(over) {
                lemma_closable_ahead(lots, i, i + 1, x, exit_side);
                lemma_subtracts_ahead(lots, i, i + 1, x, exit_side, over);
                lemma_filled_worth(next, i + 1, exit_side, over, s);
            }
        }
    }
}

proof fn lemma_open_worth(lots: Seq<Lot>, s: u32)
    requires
        lots_count(lots, s),
    ensures
        lots_worth(open_lots(lots)) == lots_worth(lots),
        lots_count(open_lots(lots), s),
    decreases lots.len(),
{
    reveal(Seq::filter);
    let p = |l: Lot| !l.remaining.0.zero_valued();
    if lots.len() > 0 {
        let before = lots.drop_last();
        assert(lots_count(before, s)) by {
            assert forall|k: int| 0 <= k < before.len() implies counts(
                (#[trigger] before[k]).remaining.0,
                s,
            ) && (before[k].phase == ExitPhase::Closed ==> before[k].remaining.0.mantissa == 0) by {
                assert(before[k] == lots[k]);
            }
        }
        lemma_open_worth(before, s);
        let kept = before.filter(p);
        let l = lots.last();
        assert(counts(lots[lots.len() - 1].remaining.0, s));
        law_order_is_by_worth(l.remaining.0, l.remaining.0);
        if p(l) {
            assert(lots.filter(p) == kept.push(l));
            assert(kept.push(l).drop_last() =~= kept);
            let r = kept.push(l);
            assert(lots_count(r, s)) by {
                assert forall|k: int| 0 <= k < r.len() implies counts(
                    (#[trigger] r[k]).remaining.0,
                    s,
                ) && (r[k].phase == ExitPhase::Closed ==> r[k].remaining.0.mantissa == 0) by {
                    if k < kept.len() {
                        assert(r[k] == kept[k]);
                    }
                }
            }
        } else {
            assert(lots.filter(p) == kept);
        }
    }
}

/// The number of a position after a fill of a positive size: higher by the size after a buy, lower by it
/// after a sell.
proof fn lemma_net_worth(net: Qty, qty: Qty, side: Side, s: u32)
    requires
        within(net.0, s),
        counts(qty.0, s),
        qty.0.mantissa > 0,
        fits(at_scale(net.0, s) + signed(side, at_scale(qty.0, s))),
        fill_adds(net, qty, side),
    ensures
        net_after(net, qty, side) matches Some(n) && within(n.0, s) && worth(n.0) == worth(net.0)
            + signed(side, worth(qty.0)),
{
    let sign = if side == Side::Buy {
        dec_int(1)
    } else {
        dec_int(-1)
    };
    let m = qty.0.mantissa;
    assert(m * 1 == m && m * (-1) == -m) by (nonlinear_arith);
    assert(m * sign.mantissa == signed(side, m as int));
    let d = Decimal { mantissa: (m * sign.mantissa) as i128, scale: qty.0.scale };
    lemma_multiplies(qty.0, sign);
    assert(d.mantissa == signed(side, m as int));
    assert(decimal_product(qty.0, sign) == Some(d));
    let c = common_scale(net.0, d);
    lemma_fewer_digits(net.0, c, s);
    lemma_fewer_digits(d, c, s);
    let g = pow10((s - qty.0.scale) as nat);
    assert((-m) * g == -(m * g)) by (nonlinear_arith);
    assert(at_scale(d, s) == signed(side, at_scale(qty.0, s)));
    let e = pow10((MAX_SCALE - qty.0.scale) as nat);
    assert((-m) * e == -(m * e)) by (nonlinear_arith);
    assert(worth(d) == signed(side, worth(qty.0)));
    let h = pow10((s - c) as nat);
    let x = at_scale(net.0, c);
    let y = at_scale(d, c);
    assert((x + y) * h == x * h + y * h) by (nonlinear_arith);
    lemma_shrinks(x + y, h);
    assert(fits(x));
    assert(fits(y));
    assert(sum_fits(net.0, d));
    lemma_adds(net.0, d);
    let n = decimal_sum(net.0, d)->0;
    lemma_worth_at(n, s);
    lemma_worth_at(net.0, s);
    lemma_worth_at(d, s);
    let k = pow10((MAX_SCALE - s) as nat);
    let a = at_scale(n, s);
    let v = at_scale(net.0, s);
    let w = at_scale(d, s);
    let b = v + w;
    assert((v + w) * k == v * k + w * k) by (nonlinear_arith);
    assert(a == b) by (nonlinear_arith)
        requires
            a * k == b * k,
            k >= 1,
    ;
}

/// A figure as a side counts it: a buy up, a sell down.
pub open spec fn signed(side: Side, n: int) -> int {
    if side == Side::Buy {
        n
    } else {
        -n
    }
}

/// A report about an order that a slot holds tells of a fill of a positive size.
pub open spec fn tells_of_fill(st: StateV, rep: ExecV) -> bool {
    &&& slot_of_order(st.slots, rep.coid) is Some
    &&& rep.kind == ExecKind::PartialFill || rep.kind == ExecKind::Fill
    &&& rep.last_qty matches Some(q) && q.0.mantissa > 0
}

/// A fill raises the position by its size if it is of a buy and lowers it by its size if it is of a sell,
/// as long as the figures fit 96 bits when written with the same number of digits.
pub proof fn law_fill_moves_the_position<M: SpreadMath>(
    math: M,
    st: StateV,
    cfg: StrategyConfig,
    maker: Instrument,
    now: Ts,
    rep: ExecReport,
    f: Doubles,
    out: Seq<ActionV>,
    s: u32,
)
    requires
        goes_in(math, st, cfg, maker, now, Event::Exec(rep), f, out),
        stepped(st, cfg, maker, now, Event::Exec(rep), f, out) is Some,
        tells_of_fill(st, rep@),
        within(st.net_qty.0, s),
        counts((rep.last_qty->0).0, s),
        fits(
            at_scale(st.net_qty.0, s) + signed(
                (slot_of_order(st.slots, rep.coid@)->0).side,
                at_scale((rep.last_qty->0).0, s),
            ),
        ),
    ensures
        ({
            let n = (stepped(st, cfg, maker, now, Event::Exec(rep), f, out)->0).0;
            let side = (slot_of_order(st.slots, rep.coid@)->0).side;
            let before = worth(st.net_qty.0);
            let after = worth(n.net_qty.0);
            &&& side == Side::Buy ==> after == before + worth((rep.last_qty->0).0) && after > before
            &&& side == Side::Sell ==> after == before - worth((rep.last_qty->0).0) && after < before
            &&& within(n.net_qty.0, s)
        }),
{
    let ev = Event::Exec(rep);
    let q = rep.last_qty->0;
    let k = slot_of_order(st.slots, rep.coid@)->0;
    lemma_begun(st, cfg, now, ev, f.price, out);
    lemma_stages(st, cfg, maker, now, ev, f, out);
    lemma_sign(q.0);
    law_order_is_by_worth(q.0, q.0);
    assert(event_applied(st, cfg, now, ev, out) == executed(st, cfg, now, rep@, out));
    assert(inventory_counts(st, k, rep@));
    lemma_net_worth(st.net_qty, q, k.side, s);
}

/// What is in hand is what the lots hold: their sizes, buys up and sells down, add up to the position. All
/// are written with at most `s` digits.
pub open spec fn balanced(st: StateV, s: u32) -> bool {
    &&& lots_count(st.lots, s)
    &&& within(st.net_qty.0, s)
    &&& lots_worth(st.lots) == worth(st.net_qty.0)
}

/// An event leaves the figures of a position such that they fit: a fill is counted with at most `s` digits
/// and leaves a position that fits, an exit closes no more than the lots hold, and a reported position has at
/// most `s` digits.
pub open spec fn stays_countable(st: StateV, ev: Event, s: u32) -> bool {
    match ev {
        Event::Exec(rep) => tells_of_fill(st, rep@) ==> {
            let q = rep.last_qty->0;
            let k = slot_of_order(st.slots, rep.coid@)->0;
            &&& counts(q.0, s)
            &&& fits(at_scale(st.net_qty.0, s) + signed(k.side, at_scale(q.0, s)))
            &&& k.purpose == Purpose::Exit ==> worth(q.0) <= closable(st.lots, 0, k.side)
        },
        Event::PositionSync(p) => within(p.net_qty.0, s),
        _ => true,
    }
}

proof fn lemma_moved_worth(
    lots: Seq<Lot>,
    i: int,
    kept: Seq<Lot>,
    fair: Option<Px>,
    losses: Seq<Option<u64>>,
    most: u64,
    now: Ts,
    out: Seq<ActionV>,
    s: u32,
)
    requires
        0 <= i <= lots.len(),
        lots_count(lots, s),
        lots_count(kept, s),
        lots_worth(kept) == lots_worth(lots.take(i)),
        advanced_from(lots, i, kept, fair, losses, most, now, out) is Some,
    ensures
        ({
            let r = (advanced_from(lots, i, kept, fair, losses, most, now, out)->0).0;
            lots_count(r, s) && lots_worth(r) == lots_worth(lots)
        }),
    decreases lots.len() - i,
{
    if i < lots.len() {
        let n = lot_advanced(lots[i], fair, losses[i], most, now)->0;
        let next_out = if n.1 {
            out.push(fast_note(lots[i].id))
        } else {
            out
        };
        assert(lots.take(i + 1).drop_last() =~= lots.take(i));
        law_order_is_by_worth(lots[i].remaining.0, lots[i].remaining.0);
        if n.0.phase == ExitPhase::Closed {
            lemma_moved_worth(lots, i + 1, kept, fair, losses, most, now, next_out, s);
        } else {
            let more = kept.push(n.0);
            assert(more.drop_last() =~= kept);
            assert(lots_count(more, s)) by {
                assert forall|k: int| 0 <= k < more.len() implies counts(
                    (#[trigger] more[k]).remaining.0,
                    s,
                ) && (more[k].phase == ExitPhase::Closed ==> more[k].remaining.0.mantissa == 0) by {
                    if k < kept.len() {
                        assert(more[k] == kept[k]);
                    }
                }
            }
            lemma_moved_worth(lots, i + 1, more, fair, losses, most, now, next_out, s);
        }
    } else {
        assert(lots.take(i) =~= lots);
    }
}

proof fn lemma_executed_balance(
    st: StateV,
    cfg: StrategyConfig,
    now: Ts,
    rep: ExecReport,
    out: Seq<ActionV>,
    s: u32,
)
    requires
        balanced(st, s),
        stays_countable(st, Event::Exec(rep), s),
        report_counts(st, rep@),
        executed(st, cfg, now, rep@, out) is Some,
    ensures
        balanced((executed(st, cfg, now, rep@, out)->0).0, s),
{
    if let Some(q) = rep.last_qty {
        lemma_sign(q.0);
    }
    if tells_of_fill(st, rep@) {
        let q = rep.last_qty->0;
        let k = slot_of_order(st.slots, rep.coid@)->0;
        let n = (executed(st, cfg, now, rep@, out)->0).0;
        assert(inventory_counts(st, k, rep@));
        lemma_net_worth(st.net_qty, q, k.side, s);
        if k.purpose == Purpose::Exit {
            lemma_filled_worth(st.lots, 0, k.side, q.0, s);
            let r = filled_from(st.lots, 0, k.side, q.0)->0;
            lemma_open_worth(r, s);
            assert(n.lots == open_lots(r));
        } else {
            let lot = n.lots.last();
            assert(n.lots.drop_last() =~= st.lots);
            assert(lots_count(n.lots, s)) by {
                assert forall|i: int| 0 <= i < n.lots.len() implies counts(
                    (#[trigger] n.lots[i]).remaining.0,
                    s,
                ) && (n.lots[i].phase == ExitPhase::Closed ==> n.lots[i].remaining.0.mantissa
                    == 0) by {
                    if i < st.lots.len() {
                        assert(n.lots[i] == st.lots[i]);
                    }
                }
            }
        }
    }
}

proof fn lemma_rebuilt_balance(
    st: StateV,
    cfg: StrategyConfig,
    now: Ts,
    net: Qty,
    avg: Option<Px>,
    s: u32,
)
    requires
        within(net.0, s),
        lots_rebuilt(st, cfg, now, net, avg) is Some,
    ensures
        balanced(lots_rebuilt(st, cfg, now, net, avg)->0, s),
{
    let n = lots_rebuilt(st, cfg, now, net, avg)->0;
    law_order_is_by_worth(net.0, net.0);
    lemma_sign(net.0);
    if !net.0.zero_valued() {
        let m = net.0.mantissa;
        let g = pow10((s - net.0.scale) as nat);
        let e = pow10((MAX_SCALE - net.0.scale) as nat);
        assert((-m) * g == -(m * g)) by (nonlinear_arith);
        assert((-m) * e == -(m * e)) by (nonlinear_arith);
        assert(n.lots.drop_last() =~= Seq::<Lot>::empty());
        assert(lots_worth(n.lots.drop_last()) == 0);
        assert(lots_worth(n.lots) == lot_worth(n.lots[0]));
    }
}

/// Through every event what the lots hold adds up to the position, as long as the figures fit and an exit
/// closes no more than there is.
pub proof fn law_lots_add_up_to_the_position<M: SpreadMath>(
    math: M,
    st: StateV,
    cfg: StrategyConfig,
    maker: Instrument,
    now: Ts,
    ev: Event,
    f: Doubles,
    out: Seq<ActionV>,
    s: u32,
)
    requires
        goes_in(math, st, cfg, maker, now, ev, f, out),
        stepped(st, cfg, maker, now, ev, f, out) is Some,
        balanced(st, s),
        stays_countable(st, ev, s),
    ensures
        balanced((stepped(st, cfg, maker, now, ev, f, out)->0).0, s),
{
    lemma_begun(st, cfg, now, ev, f.price, out);
    lemma_stages(st, cfg, maker, now, ev, f, out);
    let a = event_applied(st, cfg, now, ev, out)->0;
    match ev {
        Event::Exec(rep) => {
            lemma_executed_balance(st, cfg, now, rep, out, s);
        },
        Event::PositionSync(p) => {
            if !p.net_qty.0.is_same(st.net_qty.0) {
                lemma_rebuilt_balance(st, cfg, now, p.net_qty, p.avg_px, s);
            }
        },
        _ => {
            assert(a.0.lots == st.lots && a.0.net_qty == st.net_qty);
        },
    }
    assert(balanced(a.0, s));
    let b = begun(st, cfg, now, ev, f.price, out)->0;
    if acts(st, ev) {
        let priced = fair_set(b.0, b.2.norm, b.2.sampled, f.quote.figures)->0;
        lemma_moved_worth(
            priced.lots,
            0,
            Seq::empty(),
            priced.last_fair,
            f.quote.losses,
            f.quote.max_loss,
            now,
            b.1,
            s,
        );
    }
}

/// A position that the venue reports is the position afterwards, and any other event but a fill leaves it as
/// it was.
pub proof fn law_position_changes_only_by_fills_and_reports(
    st: StateV,
    cfg: StrategyConfig,
    maker: Instrument,
    now: Ts,
    ev: Event,
    f: Doubles,
    out: Seq<ActionV>,
)
    requires
        stepped(st, cfg, maker, now, ev, f, out) is Some,
    ensures
        ({
            let n = (stepped(st, cfg, maker, now, ev, f, out)->0).0;
            match ev {
                Event::Exec(rep) => !tells_of_fill(st, rep@) ==> n.net_qty == st.net_qty,
                Event::PositionSync(p) => n.net_qty.0.is_same(p.net_qty.0),
                _ => n.net_qty == st.net_qty,
            }
        }),
{
    lemma_begun(st, cfg, now, ev, f.price, out);
    lemma_stages(st, cfg, maker, now, ev, f, out);
    match ev {
        Event::Exec(rep) => {
            if let Some(q) = rep.last_qty {
                lemma_sign(q.0);
            }
            assert(event_applied(st, cfg, now, ev, out) == executed(st, cfg, now, rep@, out));
        },
        Event::PositionSync(p) => {},
        _ => {
            assert((event_applied(st, cfg, now, ev, out)->0).0.net_qty == st.net_qty);
        },
    }
}

} // verus!
