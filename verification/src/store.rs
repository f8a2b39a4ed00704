//! What stands in the rows of the database.
use crate::text::{opt_view, same_text};
use crate::types::decimal::{decimal_parsed, decimal_text, Decimal};
use crate::types::ids::{canonical, ClientOrderId, Side, SymbolId, VenueId};
use crate::types::num::{to_px, to_qty, Px, Qty};
use crate::types::order::{FillRecord, FillV};
use crate::types::time::{clamp_i64, cut_quotient, Ts};
use vstd::prelude::*;

verus! {

/// The cells of a row of fills.
#[derive(Debug)]
pub struct FillCells {
    pub id: i64,
    pub strategy_id: String,
    pub coid: String,
    pub venue: String,
    pub symbol: String,
    pub side: String,
    pub px: String,
    pub qty: String,
    pub fee: Option<String>,
    pub ts: i64,
}

/// What the cells of a row of fills say.
#[verifier::ext_equal]
pub struct FillCellsV {
    pub id: i64,
    pub strategy_id: Seq<char>,
    pub coid: Seq<char>,
    pub venue: Seq<char>,
    pub symbol: Seq<char>,
    pub side: Seq<char>,
    pub px: Seq<char>,
    pub qty: Seq<char>,
    pub fee: Option<Seq<char>>,
    pub ts: i64,
}

impl View for FillCells {
    type V = FillCellsV;

    open spec fn view(&self) -> FillCellsV {
        FillCellsV {
            id: self.id,
            strategy_id: self.strategy_id@,
            coid: self.coid@,
            venue: self.venue@,
            symbol: self.symbol@,
            side: self.side@,
            px: self.px@,
            qty: self.qty@,
            fee: opt_view(self.fee),
            ts: self.ts,
        }
    }
}

/// The cell of a row that cannot be read.
#[derive(Clone, Copy, Debug, PartialEq, Eq, Structural)]
pub enum RowFault {
    Venue,
    Px,
    Qty,
    Fee,
}

/// The cells of a fill.
pub open spec fn written(f: FillV) -> FillCellsV {
    FillCellsV {
        id: f.id,
        strategy_id: f.strategy_id,
        coid: f.coid,
        venue: f.venue.name(),
        symbol: f.symbol,
        side: f.side.name(),
        px: decimal_text(f.px.0),
        qty: decimal_text(f.qty.0),
        fee: match f.fee {
            Some(d) => Some(decimal_text(d)),
            None => None,
        },
        ts: cut_quotient(f.ts.0 as int, 1_000_000) as i64,
    }
}

/// A fee that a cell may hold.
pub open spec fn fee_read(cell: Option<Seq<char>>) -> Option<Option<Decimal>> {
    match cell {
        Some(t) => match decimal_parsed(t) {
            Some(d) => Some(Some(d)),
            None => None,
        },
        None => Some(None),
    }
}

/// The fill that cells describe: anything but a sale is a purchase.
pub open spec fn read(c: FillCellsV) -> Result<FillV, RowFault> {
    match VenueId::named(c.venue) {
        None => Err(RowFault::Venue),
        Some(venue) => match decimal_parsed(c.px) {
            None => Err(RowFault::Px),
            Some(px) => match decimal_parsed(c.qty) {
                None => Err(RowFault::Qty),
                Some(qty) => match fee_read(c.fee) {
                    None => Err(RowFault::Fee),
                    Some(fee) => Ok(
                        FillV {
                            id: c.id,
                            strategy_id: c.strategy_id,
                            coid: c.coid,
                            venue,
                            symbol: canonical(c.symbol),
                            side: if c.side == "sell"@ {
                                Side::Sell
                            } else {
                                Side::Buy
                            },
                            px: Px(px),
                            qty: Qty(qty),
                            fee,
                            ts: Ts(clamp_i64(c.ts * 1_000_000) as i64),
                        },
                    ),
                },
            },
        },
    }
}

/// The fill that comes back: its symbol is canonical, and its time is cut off to milliseconds.
pub open spec fn kept(f: FillV) -> FillV {
    FillV {
        symbol: canonical(f.symbol),
        ts: Ts((cut_quotient(f.ts.0 as int, 1_000_000) * 1_000_000) as i64),
        ..f
    }
}

/// The numbers of a fill are decimals of 96 bits.
pub open spec fn decimals_sound(f: FillV) -> bool {
    f.px.0.wf() && f.qty.0.wf() && (f.fee matches Some(d) ==> d.wf())
}

/// The cells of a fill. Reading them gives the fill back, its symbol canonical and its time cut off to
/// milliseconds.
pub fn fill_cells(f: &FillRecord) -> (r: FillCells)
    ensures
        r@ == written(f@),
        decimals_sound(f@) ==> read(r@) == Ok::<FillV, RowFault>(kept(f@)),
{
    let fee = match f.fee {
        Some(d) => Some(d.text()),
        None => None,
    };
    let r = FillCells {
        id: f.id,
        strategy_id: f.strategy_id.clone(),
        coid: f.coid.as_str().to_owned(),
        venue: f.venue.as_str().to_owned(),
        symbol: f.symbol.as_str().to_owned(),
        side: f.side.as_str().to_owned(),
        px: f.px.0.text(),
        qty: f.qty.0.text(),
        fee,
        ts: f.ts.millis(),
    };
    proof {
        reveal_strlit("binance");
        reveal_strlit("gate");
        reveal_strlit("bn");
        reveal_strlit("gateio");
        reveal_strlit("buy");
        reveal_strlit("sell");
        assert(crate::text::lowered(f.venue.name()) =~= f.venue.name());
        assert("buy"@.len() != "sell"@.len());
        if f.venue == VenueId::Gate {
            assert("gate"@.len() != "binance"@.len());
            assert("gate"@.len() != "bn"@.len());
        }
    }
    r
}

/// The fill that cells describe.
pub fn row_to_fill(c: FillCells) -> (r: Result<FillRecord, RowFault>)
    ensures
        match r {
            Ok(f) => read(c@) == Ok::<FillV, RowFault>(f@),
            Err(e) => read(c@) == Err::<FillV, RowFault>(e),
        },
{
    let venue = match VenueId::parse(c.venue.as_str()) {
        Ok(v) => v,
        Err(_) => {
            return Err(RowFault::Venue);
        },
    };
    let side = if same_text(c.side.as_str(), "sell") {
        Side::Sell
    } else {
        Side::Buy
    };
    let px = match parse_px(c.px.as_str()) {
        Some(p) => p,
        None => {
            return Err(RowFault::Px);
        },
    };
    let qty = match parse_qty(c.qty.as_str()) {
        Some(q) => q,
        None => {
            return Err(RowFault::Qty);
        },
    };
    let fee = match c.fee {
        Some(t) => match Decimal::parse(t.as_str()) {
            Some(d) => Some(d),
            None => {
                return Err(RowFault::Fee);
            },
        },
        None => None,
    };
    Ok(
        FillRecord {
            id: c.id,
            strategy_id: c.strategy_id,
            coid: ClientOrderId(c.coid),
            venue,
            symbol: SymbolId::new(c.symbol.as_str()),
            side,
            px,
            qty,
            fee,
            ts: Ts::from_millis(c.ts),
        },
    )
}

/// The price that a cell holds.
pub fn parse_px(s: &str) -> (r: Option<Px>)
    ensures
        r == to_px(decimal_parsed(s@)),
{
    match Decimal::parse(s) {
        Some(d) => Some(Px(d)),
        None => None,
    }
}

/// The size that a cell holds.
pub fn parse_qty(s: &str) -> (r: Option<Qty>)
    ensures
        r == to_qty(decimal_parsed(s@)),
{
    match Decimal::parse(s) {
        Some(d) => Some(Qty(d)),
        None => None,
    }
}

/// What is kept of a position.
#[derive(Debug)]
pub struct PositionRow {
    pub strategy_id: String,
    pub net_qty: Qty,
    pub avg_px: Option<Px>,
    pub updated_at: Ts,
}

/// A note that was kept.
#[derive(Debug)]
pub struct JournalRow {
    pub id: i64,
    pub strategy_id: Option<String>,
    pub kind: String,
    pub payload: String,
    pub ts: Ts,
}

/// The cells of a row of positions.
#[derive(Debug)]
pub struct PositionCells {
    pub strategy_id: String,
    pub net_qty: String,
    pub avg_px: Option<String>,
    pub updated_at: i64,
}

/// A price that a cell may hold.
pub open spec fn avg_read(cell: Option<Seq<char>>) -> Option<Option<Px>> {
    match cell {
        Some(t) => match decimal_parsed(t) {
            Some(d) => Some(Some(Px(d))),
            None => None,
        },
        None => Some(None),
    }
}

/// The cells of a position at a time. The size and the price can be read back.
pub fn position_cells(strategy_id: &str, net_qty: Qty, avg_px: Option<Px>, now: Ts) -> (r: PositionCells)
    ensures
        r.strategy_id@ == strategy_id@,
        r.net_qty@ == decimal_text(net_qty.0),
        opt_view(r.avg_px) == (match avg_px {
            Some(p) => Some(decimal_text(p.0)),
            None => None,
        }),
        r.updated_at == cut_quotient(now.0 as int, 1_000_000),
        net_qty.0.wf() ==> decimal_parsed(r.net_qty@) == Some(net_qty.0),
        (avg_px matches Some(p) ==> p.0.wf()) ==> avg_read(opt_view(r.avg_px)) == Some(avg_px),
{
    PositionCells {
        strategy_id: strategy_id.to_owned(),
        net_qty: net_qty.0.text(),
        avg_px: match avg_px {
            Some(p) => Some(p.0.text()),
            None => None,
        },
        updated_at: now.millis(),
    }
}

/// The position that cells describe.
pub fn row_to_position(c: PositionCells) -> (r: Result<PositionRow, RowFault>)
    ensures
        match decimal_parsed(c.net_qty@) {
            None => r matches Err(e) && e == RowFault::Qty,
            Some(q) => match avg_read(opt_view(c.avg_px)) {
                None => r matches Err(e) && e == RowFault::Px,
                Some(px) => r matches Ok(p) && p.strategy_id@ == c.strategy_id@ && p.net_qty == Qty(q)
                    && p.avg_px == px && p.updated_at.0 == clamp_i64(c.updated_at * 1_000_000),
            },
        },
{
    let net_qty = match parse_qty(c.net_qty.as_str()) {
        Some(q) => q,
        None => {
            return Err(RowFault::Qty);
        },
    };
    let avg_px = match c.avg_px {
        Some(t) => match parse_px(t.as_str()) {
            Some(p) => Some(p),
            None => {
                return Err(RowFault::Px);
            },
        },
        None => None,
    };
    Ok(
        PositionRow {
            strategy_id: c.strategy_id,
            net_qty,
            avg_px,
            updated_at: Ts::from_millis(c.updated_at),
        },
    )
}

/// A fill that is read back is the one that was written in all but the notation of its symbol and what its time has
/// beyond milliseconds.
pub proof fn law_fills_are_kept(f: FillV)
    ensures
        ({
            let k = kept(f);
            &&& k.id == f.id && k.strategy_id == f.strategy_id && k.coid == f.coid && k.venue == f.venue
            &&& k.side == f.side && k.px == f.px && k.qty == f.qty && k.fee == f.fee
            &&& k.symbol == canonical(f.symbol)
            &&& f.ts.0 >= 0 ==> k.ts.0 <= f.ts.0 < k.ts.0 + 1_000_000 && k.ts.0 % 1_000_000 == 0
        }),
{
}

} // verus!
