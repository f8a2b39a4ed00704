use stock_mm::exchange::session::parse_dec;
use stock_mm::json::{parse_int, parse_uint, Json};
use stock_mm::store::{
    fill_cells, parse_px, parse_qty, position_cells, row_to_fill, row_to_position, FillCells,
    PositionCells, RowFault,
};
use stock_mm::text::{split_first, split_last, trim};
use stock_mm::types::ids::{ClientOrderId, Side, SymbolId, VenueId};
use stock_mm::types::num::{Px, Qty};
use stock_mm::types::order::FillRecord;
use stock_mm::types::time::Ts;

fn fill() -> FillRecord {
    FillRecord {
        id: 4,
        strategy_id: "s1".to_string(),
        coid: ClientOrderId("s1-grid-buy-0-1".to_string()),
        venue: VenueId::Gate,
        symbol: SymbolId::new("AAPLUSDT"),
        side: Side::Sell,
        px: Px::new(parse_dec("10.50").unwrap()),
        qty: Qty::new(parse_dec("-0.000").unwrap()),
        fee: Some(parse_dec("-79228162514264337593543950335").unwrap()),
        ts: Ts(1_234_567_890),
    }
}

#[test]
fn fills_come_back() {
    let c = fill_cells(&fill());
    assert_eq!((c.px.as_str(), c.side.as_str(), c.ts), ("10.50", "sell", 1_234));
    let f = row_to_fill(c).unwrap();
    assert_eq!(f.px.0.scale, 2);
    assert_eq!(f.fee, fill().fee);
    assert_eq!(f.venue, VenueId::Gate);
    assert_eq!(f.side, Side::Sell);
    assert_eq!(f.ts, Ts(1_234_000_000));
    assert_eq!(f.coid.as_str(), "s1-grid-buy-0-1");
}

fn broken(change: impl FnOnce(&mut FillCells)) -> RowFault {
    let mut c = fill_cells(&fill());
    change(&mut c);
    row_to_fill(c).unwrap_err()
}

#[test]
fn cells_that_cannot_be_read() {
    assert_eq!(broken(|c| c.venue = "nyse".to_string()), RowFault::Venue);
    assert_eq!(broken(|c| c.px = "x".to_string()), RowFault::Px);
    assert_eq!(broken(|c| c.qty = String::new()), RowFault::Qty);
    assert_eq!(broken(|c| c.fee = Some("?".to_string())), RowFault::Fee);
    let mut c = fill_cells(&fill());
    c.side = "anything".to_string();
    c.fee = None;
    let f = row_to_fill(c).unwrap();
    assert_eq!(f.side, Side::Buy);
    assert!(f.fee.is_none());
}

#[test]
fn positions_come_back() {
    let q = Qty::new(parse_dec("-2.5").unwrap());
    let px = Px::new(parse_dec("9").unwrap());
    let c = position_cells("s1", q, Some(px), Ts::from_millis(9));
    assert_eq!((c.net_qty.as_str(), c.updated_at), ("-2.5", 9));
    let p = row_to_position(c).unwrap();
    assert_eq!((p.net_qty, p.avg_px), (q, Some(px)));
    assert_eq!(p.updated_at, Ts::from_millis(9));
    let bad = |net_qty: &str, avg_px: &str| PositionCells {
        strategy_id: "s".to_string(),
        net_qty: net_qty.to_string(),
        avg_px: Some(avg_px.to_string()),
        updated_at: 0,
    };
    assert_eq!(row_to_position(bad("x", "1")).unwrap_err(), RowFault::Qty);
    assert_eq!(row_to_position(bad("1", "x")).unwrap_err(), RowFault::Px);
    assert!(parse_px("1e").is_none());
    assert_eq!(parse_qty("2").unwrap(), Qty::new(parse_dec("2.0").unwrap()));
}

#[test]
fn numbers_and_texts() {
    assert_eq!(parse_int("-9223372036854775808"), Some(i64::MIN));
    assert_eq!(parse_int("9223372036854775808"), None);
    assert_eq!(parse_int("+5"), Some(5));
    assert_eq!(parse_int("-"), None);
    assert_eq!(parse_uint("18446744073709551615"), Some(u64::MAX));
    assert_eq!(parse_uint("18446744073709551616"), None);
    assert_eq!(parse_uint("-1"), None);
    assert_eq!(parse_uint("+7"), Some(7));
    assert_eq!(trim("\u{3000} a b\t"), "a b");
    assert_eq!(
        split_first("a.b.c", '.'),
        Some(("a".to_string(), "b.c".to_string()))
    );
    assert_eq!(
        split_last("a.b.c", '.'),
        Some(("a.b".to_string(), "c".to_string()))
    );
    assert_eq!(split_first("abc", '.'), None);
}

#[test]
fn values_are_read_and_written() {
    let v = Json::parse(r#"{"b":[1,-2,"x",null,true],"a":{"n":18446744073709551615}}"#).unwrap();
    let again = Json::parse(&v.to_text()).unwrap();
    assert_eq!(again.get_list("b").unwrap().len(), 5);
    assert_eq!(again.get("a").unwrap().get_uint("n"), Some(u64::MAX));
    assert!(Json::parse("{").is_none());
    assert_eq!(Json::parse("1.9").unwrap().as_whole(), Some(1));
    assert_eq!(Json::parse("\"12\"").unwrap().as_whole(), Some(12));
    assert!(Json::parse("0.1").unwrap().as_loose_decimal().is_some());
}
