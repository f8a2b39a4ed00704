//! What is known of all strategies and venues: whose feeds are up, which symbols are watched, and what a
//! strategy shows before it runs.
use crate::config::{
    default_underlyings, given, names, usual_underlyings, StrategyConfig, VenueSecrets,
};
use crate::exchange::venue::{native_of, native_symbol, VenueHealth};
use crate::marketdata::{found_from, holds_symbol, symbols, Catalog};
use crate::text::{
    cat2, is_before, lemma_text_order, lemma_text_total, opt_view, same_text, text_before,
};
use crate::types::decimal::{dec_one, dec_zero, Decimal};
use crate::types::ids::{canonical, LinkKind, StrategyMode, SymbolId, VenueId};
use crate::types::instrument::{ContractKind, InstV, Instrument, InstrumentStatus};
use crate::types::num::Qty;
use crate::types::snapshot::{LinkStatus, PermV, QuotePermission, StateSnapshot};
use vstd::prelude::*;

verus! {

/// Which links of the venues are up, as far as anything was heard of them.
#[derive(Debug)]
pub struct HealthBoard {
    pub binance: Option<VenueHealth>,
    pub gate: Option<VenueHealth>,
}

/// There are keys for a venue.
pub open spec fn keys_for(secrets: VenueSecrets, venue: VenueId) -> bool {
    match venue {
        VenueId::Binance => given(opt_view(secrets.binance_key)) && given(
            opt_view(secrets.binance_secret),
        ),
        VenueId::Gate => given(opt_view(secrets.gate_key)) && given(opt_view(secrets.gate_secret)),
    }
}

/// What is known of a venue once one of its links came up or went down.
pub open spec fn link_heard(
    known: Option<VenueHealth>,
    venue: VenueId,
    kind: LinkKind,
    up: bool,
    keys: bool,
) -> VenueHealth {
    let h = match known {
        Some(h) => h,
        None => VenueHealth { venue, md: false, private: false, trading: false, has_keys: keys },
    };
    match kind {
        LinkKind::MarketData => VenueHealth { md: up, ..h },
        LinkKind::Private => VenueHealth { private: up, ..h },
        LinkKind::Trading => VenueHealth { trading: up, ..h },
    }
}

impl HealthBoard {
    /// What is known of a venue.
    pub open spec fn of(self, venue: VenueId) -> Option<VenueHealth> {
        match venue {
            VenueId::Binance => self.binance,
            VenueId::Gate => self.gate,
        }
    }

    /// Nothing is known.
    pub fn new() -> (r: Self)
        ensures
            r.binance is None,
            r.gate is None,
    {
        HealthBoard { binance: None, gate: None }
    }

    /// What is known of a venue.
    pub fn get(&self, venue: VenueId) -> (r: Option<VenueHealth>)
        ensures
            r == self.of(venue),
    {
        match venue {
            VenueId::Binance => self.binance,
            VenueId::Gate => self.gate,
        }
    }

    /// A link came up or went down.
    pub fn set_health(&mut self, venue: VenueId, kind: LinkKind, up: bool, secrets: &VenueSecrets)
        ensures
            final(self).of(venue) == Some(
                link_heard(old(self).of(venue), venue, kind, up, keys_for(*secrets, venue)),
            ),
            forall|other: VenueId| other != venue ==> final(self).of(other) == old(self).of(other),
    {
        let keys = match venue {
            VenueId::Binance => secrets.has_binance(),
            VenueId::Gate => secrets.has_gate(),
        };
        let mut h = match self.get(venue) {
            Some(h) => h,
            None => VenueHealth {
                venue,
                md: false,
                private: false,
                trading: false,
                has_keys: keys,
            },
        };
        match kind {
            LinkKind::MarketData => {
                h.md = up;
            },
            LinkKind::Private => {
                h.private = up;
            },
            LinkKind::Trading => {
                h.trading = up;
            },
        }
        match venue {
            VenueId::Binance => {
                self.binance = Some(h);
            },
            VenueId::Gate => {
                self.gate = Some(h);
            },
        }
    }

    /// What is known of the venues of which anything was heard.
    pub fn health_list(&self) -> (r: Vec<VenueHealth>)
        ensures
            r@ == (match self.binance {
                Some(h) => seq![h],
                None => Seq::empty(),
            }) + (match self.gate {
                Some(h) => seq![h],
                None => Seq::empty(),
            }),
    {
        let mut out: Vec<VenueHealth> = Vec::new();
        match self.binance {
            Some(h) => {
                out.push(h);
            },
            None => {},
        }
        match self.gate {
            Some(h) => {
                out.push(h);
            },
            None => {},
        }
        assert(out@ =~= (match self.binance {
            Some(h) => seq![h],
            None => Seq::empty(),
        }) + (match self.gate {
            Some(h) => seq![h],
            None => Seq::empty(),
        }));
        out
    }
}

/// Texts in order, each once.
pub open spec fn ascending(v: Seq<Seq<char>>) -> bool {
    forall|i: int, j: int| 0 <= i < j < v.len() ==> text_before(#[trigger] v[i], #[trigger] v[j])
}

/// Puts a symbol where it belongs, if it is not there yet.
fn insert_symbol(v: &mut Vec<SymbolId>, s: &SymbolId)
    requires
        ascending(symbols(old(v)@)),
    ensures
        ascending(symbols(final(v)@)),
        forall|x: Seq<char>| #[trigger]
            symbols(final(v)@).contains(x) <==> x == s@ || symbols(old(v)@).contains(x),
{
    let ghost before = symbols(v@);
    let mut at: usize = 0;
    while at < v.len() && is_before(v[at].as_str(), s.as_str())
        invariant
            at <= v@.len(),
            v@ == old(v)@,
            before == symbols(v@),
            forall|j: int| 0 <= j < at ==> text_before(#[trigger] before[j], s@),
        decreases v@.len() - at,
    {
        at = at + 1;
    }
    if at < v.len() && same_text(v[at].as_str(), s.as_str()) {
        assert(before[at as int] == s@);
        assert(before.contains(s@));
        return;
    }
    proof {
        if at < before.len() {
            assert(!text_before(before[at as int], s@));
            lemma_text_total(before[at as int], s@, 0);
        }
    }
    v.insert(at, s.clone());
    proof {
        let after = symbols(v@);
        assert(after =~= before.insert(at as int, s@));
        assert forall|x: Seq<char>| #[trigger] after.contains(x) <==> x == s@ || before.contains(x) by {
            if before.contains(x) {
                let i = choose|i: int| 0 <= i < before.len() && before[i] == x;
                assert(after[if i < at {
                    i
                } else {
                    i + 1
                }] == x);
            }
            assert(after[at as int] == s@);
        }
        assert forall|i: int, j: int| 0 <= i < j < after.len() implies text_before(
            #[trigger] after[i],
            #[trigger] after[j],
        ) by {
            if j < at {
                assert(after[i] == before[i] && after[j] == before[j]);
            } else if i > at {
                assert(after[i] == before[i - 1] && after[j] == before[j - 1]);
            } else if i == at {
                assert(after[j] == before[j - 1]);
                if j - 1 > at {
                    lemma_text_order(s@, before[at as int], before[j - 1]);
                }
            } else if j == at {
                assert(after[i] == before[i]);
            } else {
                assert(after[i] == before[i] && after[j] == before[j - 1]);
            }
        }
    }
}

/// The symbols that are watched where nothing else is known.
pub open spec fn usual_symbols() -> Seq<Seq<char>> {
    usual_underlyings().map_values(|u: Seq<char>| canonical(u + "USDT"@))
}

fn insert_symbols(v: &Vec<SymbolId>, out: &mut Vec<SymbolId>)
    requires
        ascending(symbols(old(out)@)),
    ensures
        ascending(symbols(final(out)@)),
        forall|x: Seq<char>| #[trigger]
            symbols(final(out)@).contains(x) <==> symbols(v@).contains(x) || symbols(
                old(out)@,
            ).contains(x),
{
    let mut i: usize = 0;
    while i < v.len()
        invariant
            i <= v@.len(),
            ascending(symbols(out@)),
            forall|x: Seq<char>| #[trigger]
                symbols(out@).contains(x) <==> symbols(v@.take(i as int)).contains(x) || symbols(
                    old(out)@,
                ).contains(x),
        decreases v@.len() - i,
    {
        let ghost before = symbols(out@);
        insert_symbol(out, &v[i]);
        proof {
            let a = symbols(v@.take(i as int));
            let b = symbols(v@.take(i + 1));
            assert(b =~= a.push(v@[i as int]@));
            assert forall|x: Seq<char>| #[trigger] symbols(out@).contains(x) <==> b.contains(x)
                || symbols(old(out)@).contains(x) by {
                if a.contains(x) {
                    let k = choose|k: int| 0 <= k < a.len() && a[k] == x;
                    assert(b[k] == x);
                }
                assert(b[i as int] == v@[i as int]@);
                assert(b.contains(x) ==> a.contains(x) || x == v@[i as int]@) by {
                    if b.contains(x) {
                        let k = choose|k: int| 0 <= k < b.len() && b[k] == x;
                        if k < i {
                            assert(a[k] == x);
                        }
                    }
                }
                assert(before.contains(x) <==> a.contains(x) || symbols(old(out)@).contains(x));
            }
        }
        i = i + 1;
    }
    assert(v@.take(i as int) =~= v@);
}

/// The symbols to watch at the start: what is recommended and what strategies use, in order and each once;
/// the usual ones where there is nothing.
pub fn universe(recommended: &Vec<SymbolId>, used: &Vec<SymbolId>) -> (r: Vec<SymbolId>)
    ensures
        recommended@.len() + used@.len() == 0 ==> symbols(r@) == usual_symbols(),
        recommended@.len() + used@.len() > 0 ==> ascending(symbols(r@)) && forall|x: Seq<char>| #[trigger]
            symbols(r@).contains(x) <==> symbols(recommended@).contains(x) || symbols(
                used@,
            ).contains(x),
{
    let mut out: Vec<SymbolId> = Vec::new();
    assert(symbols(out@) =~= Seq::<Seq<char>>::empty());
    insert_symbols(recommended, &mut out);
    let ghost half = symbols(out@);
    insert_symbols(used, &mut out);
    assert forall|x: Seq<char>| #[trigger] symbols(out@).contains(x) <==> symbols(recommended@).contains(x)
        || symbols(used@).contains(x) by {
        assert(half.contains(x) <==> symbols(recommended@).contains(x));
    }
    if out.len() == 0 {
        proof {
            if recommended@.len() > 0 {
                let x = symbols(recommended@)[0];
                assert(symbols(recommended@).contains(x));
                assert(symbols(out@).contains(x));
            }
            if used@.len() > 0 {
                let x = symbols(used@)[0];
                assert(symbols(used@).contains(x));
                assert(symbols(out@).contains(x));
            }
        }
        let u = default_underlyings();
        let mut i: usize = 0;
        while i < u.len()
            invariant
                i <= u@.len(),
                names(u@) == usual_underlyings(),
                symbols(out@) == usual_symbols().take(i as int),
            decreases u@.len() - i,
        {
            let s = SymbolId::new(cat2(u[i].as_str(), "USDT").as_str());
            let ghost before = symbols(out@);
            assert(names(u@)[i as int] == u@[i as int]@);
            assert(usual_symbols()[i as int] == s@);
            out.push(s);
            assert(symbols(out@) =~= before.push(s@));
            i = i + 1;
            assert(usual_symbols().take(i as int) =~= before.push(usual_symbols()[i - 1]));
        }
        assert(names(u@).len() == u@.len());
        assert(usual_symbols().take(i as int) =~= usual_symbols());
    } else {
        proof {
            assert(symbols(out@).contains(symbols(out@)[0]));
            if recommended@.len() + used@.len() == 0 {
                assert(symbols(recommended@) =~= Seq::<Seq<char>>::empty());
                assert(symbols(used@) =~= Seq::<Seq<char>>::empty());
            }
        }
    }
    out
}

/// Adds symbols to those that are watched. If any of them is new, all that are watched then are to be
/// subscribed to; else there is nothing to do.
pub fn subscribe_md(watched: &mut Vec<SymbolId>, more: &Vec<SymbolId>) -> (r: Option<Vec<SymbolId>>)
    requires
        ascending(symbols(old(watched)@)),
    ensures
        ascending(symbols(final(watched)@)),
        forall|x: Seq<char>| #[trigger]
            symbols(final(watched)@).contains(x) <==> symbols(more@).contains(x) || symbols(
                old(watched)@,
            ).contains(x),
        r is Some <==> exists|i: int|
            0 <= i < more@.len() && !symbols(old(watched)@).contains((#[trigger] more@[i])@),
        r matches Some(v) ==> symbols(v@) == symbols(final(watched)@),
{
    let mut fresh = false;
    let mut i: usize = 0;
    while i < more.len()
        invariant
            i <= more@.len(),
            watched@ == old(watched)@,
            fresh == exists|j: int|
                0 <= j < i && !symbols(watched@).contains((#[trigger] more@[j])@),
        decreases more@.len() - i,
    {
        if !holds_symbol(watched, more[i].as_str()) {
            fresh = true;
            assert(!symbols(watched@).contains(more@[i as int]@));
        }
        i = i + 1;
    }
    insert_symbols(more, watched);
    if !fresh {
        return None;
    }
    let mut all: Vec<SymbolId> = Vec::new();
    let mut k: usize = 0;
    while k < watched.len()
        invariant
            k <= watched@.len(),
            symbols(all@) == symbols(watched@).take(k as int),
        decreases watched@.len() - k,
    {
        let ghost before = symbols(all@);
        all.push(watched[k].clone());
        assert(symbols(all@) =~= before.push(watched@[k as int]@));
        k = k + 1;
        assert(symbols(watched@).take(k as int) =~= before.push(symbols(watched@)[k - 1]));
    }
    assert(symbols(watched@).take(k as int) =~= symbols(watched@));
    Some(all)
}

/// An instrument of which only the symbol is known.
pub open spec fn unknown_instrument(venue: VenueId, symbol: Seq<char>) -> InstV {
    InstV {
        venue,
        symbol,
        native_symbol: native_of(venue, symbol),
        tick_size: Decimal { mantissa: 1, scale: 2 },
        lot_size: Decimal { mantissa: 1, scale: 2 },
        contract_size: dec_one(),
        min_qty: Decimal { mantissa: 1, scale: 2 },
        min_notional: dec_zero(),
        quote_ccy: "USDT"@,
        maker_fee: Decimal { mantissa: 2, scale: 4 },
        taker_fee: Decimal { mantissa: 5, scale: 4 },
        kind: ContractKind::Stock,
        status: InstrumentStatus::Trading,
        volume_24h: dec_zero(),
    }
}

/// An instrument of which only the symbol is known.
pub fn dummy_instrument(venue: VenueId, symbol: &SymbolId) -> (r: Instrument)
    ensures
        r@ == unknown_instrument(venue, symbol@),
{
    Instrument {
        venue,
        symbol: symbol.clone(),
        native_symbol: native_symbol(venue, symbol.as_str()),
        tick_size: Decimal::new(1, 2),
        lot_size: Decimal::new(1, 2),
        contract_size: Decimal::one(),
        min_qty: Decimal::new(1, 2),
        min_notional: Decimal::zero(),
        quote_ccy: "USDT".to_owned(),
        maker_fee: Decimal::new(2, 4),
        taker_fee: Decimal::new(5, 4),
        kind: ContractKind::Stock,
        status: InstrumentStatus::Trading,
        volume_24h: Decimal::zero(),
    }
}

/// The instrument that a strategy quotes: the catalogue's, or one of which only the symbol is known.
pub fn instrument_for(catalog: &Catalog, cfg: &StrategyConfig) -> (r: Instrument)
    ensures
        match found_from(
            catalog.by_venue.of(cfg.market.maker_venue),
            cfg.market.maker_symbol@,
            0,
        ) {
            Some(i) => r == i,
            None => r@ == unknown_instrument(cfg.market.maker_venue, cfg.market.maker_symbol@),
        },
{
    match catalog.find(cfg.market.maker_venue, &cfg.market.maker_symbol) {
        Some(i) => i,
        None => dummy_instrument(cfg.market.maker_venue, &cfg.market.maker_symbol),
    }
}

/// What a strategy that does not run shows of itself.
pub open spec fn is_idle(r: StateSnapshot, cfg: StrategyConfig) -> bool {
    &&& r.strategy_id == cfg.id
    &&& r.name == cfg.name
    &&& r.lifecycle == StrategyMode::Init
    &&& r.run_mode == cfg.mode
    &&& r.maker_venue == cfg.market.maker_venue
    &&& r.maker_symbol == cfg.market.maker_symbol
    &&& r.ref_venue == cfg.market.ref_venue
    &&& r.ref_symbol == cfg.market.ref_symbol
    &&& r.fair_price is None
    &&& r.natural_spread is None
    &&& r.spread_vol is None
    &&& r.spread_t is None
    &&& r.ref_book is None
    &&& r.maker_book is None
    &&& r.permission@ == PermV::only_reduce("idle"@)
    &&& r.slots@.len() == 0
    &&& r.lots@.len() == 0
    &&& r.net_qty == Qty(dec_zero())
    &&& r.links == (LinkStatus { ref_md: false, maker_md: false, private: false, trading: false })
    &&& r.warmup_samples == 0
    &&& r.warmup_needed == cfg.pricing.min_samples
    &&& r.enabled == cfg.enabled
}

/// What a strategy that does not run shows of itself.
pub fn idle_snapshot(cfg: &StrategyConfig) -> (r: StateSnapshot)
    ensures
        is_idle(r, *cfg),
{
    StateSnapshot {
        strategy_id: cfg.id.clone(),
        name: cfg.name.clone(),
        lifecycle: StrategyMode::Init,
        run_mode: cfg.mode,
        maker_venue: cfg.market.maker_venue,
        maker_symbol: cfg.market.maker_symbol.clone(),
        ref_venue: cfg.market.ref_venue,
        ref_symbol: cfg.market.ref_symbol.clone(),
        fair_price: None,
        natural_spread: None,
        spread_vol: None,
        spread_t: None,
        ref_book: None,
        maker_book: None,
        permission: QuotePermission::reduce_only("idle"),
        slots: Vec::new(),
        lots: Vec::new(),
        net_qty: Qty::default(),
        links: LinkStatus::default(),
        warmup_samples: 0,
        warmup_needed: cfg.pricing.min_samples,
        enabled: cfg.enabled,
    }
}

/// Takes a strategy's settings in: the symbols that it needs watched, and what it shows of itself until it
/// runs; or what is wrong with the settings.
pub fn take_in(cfg: &StrategyConfig) -> (r: Result<(Vec<SymbolId>, StateSnapshot), String>)
    ensures
        match r {
            Ok((watch, snap)) => cfg.error() is None && symbols(watch@) == seq![
                cfg.market.maker_symbol@,
                cfg.market.ref_symbol@,
            ] && is_idle(snap, *cfg),
            Err(e) => cfg.error() == Some(e@),
        },
{
    cfg.validate()?;
    let mut watch: Vec<SymbolId> = Vec::new();
    watch.push(cfg.market.maker_symbol.clone());
    watch.push(cfg.market.ref_symbol.clone());
    assert(symbols(watch@) =~= seq![cfg.market.maker_symbol@, cfg.market.ref_symbol@]);
    Ok((watch, idle_snapshot(cfg)))
}

/// What is heard of one link of a venue changes what is known of that link, and of nothing else.
pub proof fn law_links_are_told_apart(known: VenueHealth, venue: VenueId, kind: LinkKind, up: bool, keys: bool)
    ensures
        ({
            let h = link_heard(Some(known), venue, kind, up, keys);
            let n = link_heard(None, venue, kind, up, keys);
            &&& h.md == (if kind == LinkKind::MarketData {
                up
            } else {
                known.md
            })
            &&& h.private == (if kind == LinkKind::Private {
                up
            } else {
                known.private
            })
            &&& h.trading == (if kind == LinkKind::Trading {
                up
            } else {
                known.trading
            })
            &&& h.venue == known.venue && h.has_keys == known.has_keys
            &&& n.venue == venue && n.has_keys == keys
            &&& n.md == (kind == LinkKind::MarketData && up) && n.private == (kind == LinkKind::Private
                && up) && n.trading == (kind == LinkKind::Trading && up)
        }),
{
}

} // verus!
