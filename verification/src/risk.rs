//! The limits that hold for all strategies together.
use crate::config::GlobalRiskConfig;
use crate::types::decimal::{
    dec_one, dec_zero, decimal_abs, decimal_product, decimal_sum, decimal_text, Decimal,
};
use crate::types::ids::VenueId;
use crate::types::snapshot::StateSnapshot;
use vstd::prelude::*;

verus! {

/// The switch that stops everything, and the limits for all strategies together.
#[derive(Debug)]
pub struct GlobalRisk {
    pub kill: bool,
    pub cfg: GlobalRiskConfig,
}

/// The limits as they are shown.
#[derive(Debug)]
pub struct GlobalRiskView {
    pub kill: bool,
    pub total_abs_qty: String,
    pub max_notional: String,
    pub max_notional_per_venue: String,
    pub max_daily_loss: String,
}

/// What is held in all, whatever the direction, on top of a sum; `None` where a sum is no decimal.
pub open spec fn held_from(snaps: Seq<StateSnapshot>, i: int, acc: Decimal) -> Option<Decimal>
    decreases snaps.len() - i,
{
    if i < 0 || i >= snaps.len() {
        Some(acc)
    } else {
        match decimal_abs(snaps[i].net_qty.0) {
            Some(q) => match decimal_sum(acc, q) {
                Some(sum) => held_from(snaps, i + 1, sum),
                None => None,
            },
            None => None,
        }
    }
}

/// The value of what a strategy holds, at its fair price or at one.
pub open spec fn worth(s: StateSnapshot) -> Option<Decimal> {
    match decimal_abs(s.net_qty.0) {
        Some(q) => decimal_product(
            q,
            match s.fair_price {
                Some(p) => p.0,
                None => dec_one(),
            },
        ),
        None => None,
    }
}

/// The value of what is held at a venue, on top of a sum; `None` where a number is no decimal.
pub open spec fn worth_from(
    snaps: Seq<StateSnapshot>,
    venue: VenueId,
    i: int,
    acc: Decimal,
) -> Option<Decimal>
    decreases snaps.len() - i,
{
    if i < 0 || i >= snaps.len() {
        Some(acc)
    } else if snaps[i].maker_venue != venue {
        worth_from(snaps, venue, i + 1, acc)
    } else {
        match worth(snaps[i]) {
            Some(w) => match decimal_sum(acc, w) {
                Some(sum) => worth_from(snaps, venue, i + 1, sum),
                None => None,
            },
            None => None,
        }
    }
}

impl GlobalRisk {
    pub fn new(cfg: GlobalRiskConfig) -> (r: Self)
        ensures
            !r.kill,
            r.cfg == cfg,
    {
        GlobalRisk { kill: false, cfg }
    }

    pub fn is_killed(&self) -> (r: bool)
        ensures
            r == self.kill,
    {
        self.kill
    }

    pub fn set_kill(&mut self, v: bool)
        ensures
            final(self).kill == v,
            final(self).cfg == old(self).cfg,
    {
        self.kill = v;
    }

    /// The limits as they are shown, beside what is held in all; `None` where that is no decimal of 96
    /// bits.
    pub fn view(&self, snaps: &Vec<StateSnapshot>) -> (r: Option<GlobalRiskView>)
        ensures
            match r {
                Some(v) => held_from(snaps@, 0, dec_zero()) matches Some(total) && v.kill == self.kill
                    && v.total_abs_qty@ == decimal_text(total) && v.max_notional@ == decimal_text(
                    self.cfg.max_notional,
                ) && v.max_notional_per_venue@ == decimal_text(self.cfg.max_notional_per_venue)
                    && v.max_daily_loss@ == decimal_text(self.cfg.max_daily_loss),
                None => held_from(snaps@, 0, dec_zero()) is None,
            },
    {
        let ghost goal = held_from(snaps@, 0, dec_zero());
        let mut total = Decimal::zero();
        let mut i: usize = 0;
        while i < snaps.len()
            invariant
                i <= snaps@.len(),
                goal == held_from(snaps@, 0, dec_zero()),
                goal == held_from(snaps@, i as int, total),
            decreases snaps@.len() - i,
        {
            let q = snaps[i].net_qty.0.checked_abs()?;
            total = total.checked_add(q)?;
            i = i + 1;
        }
        Some(
            GlobalRiskView {
                kill: self.kill,
                total_abs_qty: total.text(),
                max_notional: self.cfg.max_notional.text(),
                max_notional_per_venue: self.cfg.max_notional_per_venue.text(),
                max_daily_loss: self.cfg.max_daily_loss.text(),
            },
        )
    }

    /// Whether what is held at a venue is worth more than is allowed there; `None` where that is no
    /// decimal of 96 bits.
    pub fn venue_notional_breach(&self, snaps: &Vec<StateSnapshot>, venue: VenueId) -> (r: Option<bool>)
        ensures
            match r {
                Some(b) => worth_from(snaps@, venue, 0, dec_zero()) matches Some(q) && b
                    == self.cfg.max_notional_per_venue.is_below(q),
                None => worth_from(snaps@, venue, 0, dec_zero()) is None,
            },
    {
        let ghost goal = worth_from(snaps@, venue, 0, dec_zero());
        let mut total = Decimal::zero();
        let mut i: usize = 0;
        while i < snaps.len()
            invariant
                i <= snaps@.len(),
                goal == worth_from(snaps@, venue, 0, dec_zero()),
                goal == worth_from(snaps@, venue, i as int, total),
            decreases snaps@.len() - i,
        {
            if snaps[i].maker_venue == venue {
                let q = snaps[i].net_qty.0.checked_abs()?;
                let px = match snaps[i].fair_price {
                    Some(p) => p.0,
                    None => Decimal::one(),
                };
                let w = q.checked_mul(px)?;
                total = total.checked_add(w)?;
            }
            i = i + 1;
        }
        Some(self.cfg.max_notional_per_venue.below(total))
    }
}

proof fn lemma_worth_push(
    snaps: Seq<StateSnapshot>,
    s: StateSnapshot,
    venue: VenueId,
    i: int,
    acc: Decimal,
)
    requires
        0 <= i <= snaps.len(),
    ensures
        worth_from(snaps.push(s), venue, i, acc) == (match worth_from(snaps, venue, i, acc) {
            None => None,
            Some(sum) => if s.maker_venue != venue {
                Some(sum)
            } else {
                match worth(s) {
                    Some(w) => decimal_sum(sum, w),
                    None => None,
                }
            },
        }),
    decreases snaps.len() - i,
{
    let more = snaps.push(s);
    if i < snaps.len() {
        assert(more[i] == snaps[i]);
        if snaps[i].maker_venue != venue {
            lemma_worth_push(snaps, s, venue, i + 1, acc);
        } else {
            match worth(snaps[i]) {
                Some(w) => match decimal_sum(acc, w) {
                    Some(sum) => {
                        lemma_worth_push(snaps, s, venue, i + 1, sum);
                    },
                    None => {},
                },
                None => {},
            }
        }
    } else {
        assert(more[i] == s);
        assert(worth_from(more, venue, i + 1, acc) == Some(acc));
        match worth(s) {
            Some(w) => match decimal_sum(acc, w) {
                Some(sum) => {
                    assert(worth_from(more, venue, i + 1, sum) == Some(sum));
                },
                None => {},
            },
            None => {},
        }
    }
}

/// Each strategy that quotes at a venue adds what it holds there, long or short, at its fair price, or at one
/// where it knows none; a strategy of another venue adds nothing.
pub proof fn law_every_holding_counts_at_its_venue(
    snaps: Seq<StateSnapshot>,
    s: StateSnapshot,
    venue: VenueId,
    held: Decimal,
)
    requires
        worth_from(snaps, venue, 0, dec_zero()) == Some(held),
    ensures
        s.maker_venue != venue ==> worth_from(snaps.push(s), venue, 0, dec_zero()) == Some(held),
        s.maker_venue == venue && s.net_qty.0.wf() ==> ({
            let size = Decimal {
                mantissa: (if s.net_qty.0.mantissa < 0 {
                    -s.net_qty.0.mantissa
                } else {
                    s.net_qty.0.mantissa as int
                }) as i128,
                scale: s.net_qty.0.scale,
            };
            let px = match s.fair_price {
                Some(p) => p.0,
                None => dec_one(),
            };
            decimal_product(size, px) matches Some(w) ==> worth_from(
                snaps.push(s),
                venue,
                0,
                dec_zero(),
            ) == decimal_sum(held, w)
        }),
{
    lemma_worth_push(snaps, s, venue, 0, dec_zero());
}

proof fn lemma_held_push(snaps: Seq<StateSnapshot>, s: StateSnapshot, i: int, acc: Decimal)
    requires
        0 <= i <= snaps.len(),
    ensures
        held_from(snaps.push(s), i, acc) == (match held_from(snaps, i, acc) {
            None => None,
            Some(sum) => match decimal_abs(s.net_qty.0) {
                Some(q) => decimal_sum(sum, q),
                None => None,
            },
        }),
    decreases snaps.len() - i,
{
    let more = snaps.push(s);
    if i < snaps.len() {
        assert(more[i] == snaps[i]);
        if let Some(q) = decimal_abs(snaps[i].net_qty.0) {
            if let Some(sum) = decimal_sum(acc, q) {
                lemma_held_push(snaps, s, i + 1, sum);
            }
        }
    } else {
        assert(more[i] == s);
        if let Some(q) = decimal_abs(s.net_qty.0) {
            if let Some(sum) = decimal_sum(acc, q) {
                assert(held_from(more, i + 1, sum) == Some(sum));
            }
        }
    }
}

/// Each strategy adds what it holds to what is held in all, long or short alike.
pub proof fn law_every_holding_counts(snaps: Seq<StateSnapshot>, s: StateSnapshot, held: Decimal)
    requires
        held_from(snaps, 0, dec_zero()) == Some(held),
        s.net_qty.0.wf(),
    ensures
        held_from(Seq::<StateSnapshot>::empty(), 0, dec_zero()) == Some(dec_zero()),
        held_from(snaps.push(s), 0, dec_zero()) == decimal_sum(
            held,
            Decimal {
                mantissa: (if s.net_qty.0.mantissa < 0 {
                    -s.net_qty.0.mantissa
                } else {
                    s.net_qty.0.mantissa as int
                }) as i128,
                scale: s.net_qty.0.scale,
            },
        ),
{
    lemma_held_push(snaps, s, 0, dec_zero());
}

} // verus!
