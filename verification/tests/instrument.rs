use stock_mm::exchange::session::parse_dec;
use stock_mm::types::book::TopOfBook;
use stock_mm::types::decimal::Decimal;
use stock_mm::types::ids::{Side, SymbolId, VenueId};
use stock_mm::types::instrument::{
    ceil_to_tick, floor_to_tick, notional_to_qty, round_buy_px, round_exit_px, round_qty_down,
    round_sell_px,
};
use stock_mm::types::num::{Px, Qty};
use stock_mm::types::time::{Clock, SystemClock, TestClock, Ts};

fn dec(s: &str) -> Decimal {
    parse_dec(s).unwrap()
}

#[test]
fn buy_rounds_down_sell_rounds_up() {
    assert_eq!(round_buy_px(dec("100.125"), dec("0.01")), Some(dec("100.12")));
    assert_eq!(round_sell_px(dec("100.121"), dec("0.01")), Some(dec("100.13")));
    assert_eq!(round_qty_down(dec("1.29"), dec("0.1")), Some(dec("1.2")));
}

#[test]
fn exit_rounding_preserves_profit() {
    assert_eq!(
        round_exit_px(Side::Sell, dec("100.121"), dec("0.01")),
        Some(dec("100.13"))
    );
    assert_eq!(
        round_exit_px(Side::Buy, dec("99.889"), dec("0.01")),
        Some(dec("99.88"))
    );
}

#[test]
fn notional_converts_with_multiplier() {
    let q = notional_to_qty(dec("200"), Px::new(dec("100")), dec("1"));
    assert_eq!(q, Some(dec("2")));
}

#[test]
fn rounding_of_grid_points_and_odd_ticks() {
    assert_eq!(floor_to_tick(dec("1.25"), dec("0.05")), Some(dec("1.25")));
    assert_eq!(ceil_to_tick(dec("1.25"), dec("0.05")), Some(dec("1.25")));
    assert_eq!(floor_to_tick(dec("-1.01"), dec("1")), Some(dec("-2")));
    assert_eq!(floor_to_tick(dec("1.234"), dec("0")), Some(dec("1.234")));
}

#[test]
fn decimals_compare_as_numbers() {
    assert_eq!(dec("1.50"), dec("1.5"));
    assert!(dec("-0.1") < dec("0"));
    assert!(dec("2").below(dec("2.0001")));
    assert_eq!(dec("-3").checked_abs(), Some(dec("3")));
    assert_eq!(dec("1.2300").normal().unwrap().scale, 2);
    assert!(parse_dec("x").is_none());
    assert!(!Decimal { mantissa: 1, scale: 29 }.valid());
}

#[test]
fn prices_and_sizes() {
    assert_eq!(Px::from_str_exact("10.5").unwrap().text(), "10.5");
    assert!(Px::from_str_exact("ten").is_none());
    let m = Px::mid(Px::new(dec("1")), Px::new(dec("2"))).unwrap();
    assert_eq!(m.0, dec("1.5"));
    assert_eq!(Qty::new(dec("-2")).signum(), -1);
    assert_eq!(
        Qty::new(dec("1")).minus(Qty::new(dec("3"))).unwrap().0,
        dec("-2")
    );
    assert_eq!(
        Px::new(dec("3")).times(dec("0.5")).unwrap().0,
        dec("1.5")
    );
    let huge = Decimal {
        mantissa: 79228162514264337593543950335,
        scale: 0,
    };
    assert!(Px::new(huge).plus(Px::new(huge)).is_none());
}

#[test]
fn books_are_valid_or_crossed() {
    let t = Ts::from_millis(1);
    let mut b = TopOfBook {
        venue: VenueId::Gate,
        symbol: SymbolId::new("AAPLUSDT"),
        bid_px: Px::new(dec("10")),
        bid_qty: Qty::new(dec("1")),
        ask_px: Px::new(dec("11")),
        ask_qty: Qty::new(dec("1")),
        exchange_ts: t,
        recv_ts: t,
    };
    assert!(b.is_valid() && !b.crossed());
    assert_eq!(b.mid().unwrap().0, dec("10.5"));
    b.ask_px = Px::new(dec("10"));
    assert!(!b.is_valid() && b.crossed());
    assert!(b.mid().is_none());
}

#[test]
fn clocks_and_times() {
    let mut c = TestClock::new(Ts::from_secs(5));
    c.advance_ms(250);
    assert_eq!(c.now().millis(), 5_250);
    c.set(Ts::from_micros(7));
    assert_eq!(c.now().0, 7_000);
    assert!(SystemClock.now().millis() > 1_600_000_000_000);
    assert_eq!(
        Ts::from_millis(30).duration_since_ms(Ts::from_millis(10)),
        20
    );
    assert_eq!(Ts(i64::MAX).saturating_add_millis(1).0, i64::MAX);
    assert!(Ts(i64::MAX).checked_ms_since(Ts(-1)).is_none());
}

#[test]
fn rounding_stays_within_a_tick_on_either_side_of_zero() {
    assert_eq!(floor_to_tick(dec("-1.01"), dec("0.25")), Some(dec("-1.25")));
    assert_eq!(ceil_to_tick(dec("-1.01"), dec("0.25")), Some(dec("-1")));
    assert_eq!(floor_to_tick(dec("0"), dec("0.25")), Some(dec("0")));
    assert_eq!(floor_to_tick(dec("1"), dec("0.3")), Some(dec("0.9")));
    assert_eq!(ceil_to_tick(dec("1"), dec("0.3")), Some(dec("1.2")));
}

#[test]
fn whole_numbers_of_ticks_stay_as_they_are() {
    for (px, tick) in [
        ("1", "0.5"),
        ("3", "0.0000000001"),
        ("7", "0.00000000000000000007"),
        ("123456789012345678900", "0.000003"),
        ("-21", "0.0007"),
        ("1000000000", "0.0000000016"),
        ("99999999999999999999999", "0.0009"),
        ("49382715604938271560", "0.00012345678901234567890"),
        ("70368744177664", "3.6893488147419103232"),
    ] {
        assert_eq!(floor_to_tick(dec(px), dec(tick)), Some(dec(px)), "{px} {tick}");
        assert_eq!(ceil_to_tick(dec(px), dec(tick)), Some(dec(px)), "{px} {tick}");
    }
}

#[test]
fn large_figures_are_rounded_to_ticks() {
    let most = "79228162514264337593543950335";
    assert_eq!(
        floor_to_tick(dec(most), dec("16")),
        Some(dec("79228162514264337593543950320"))
    );
    let px = dec("7922816251426433759354395033.5");
    assert_eq!(floor_to_tick(px, dec("0.3")), Some(px));
    assert_eq!(ceil_to_tick(px, dec("0.3")), Some(px));
    assert_eq!(
        floor_to_tick(px, dec("1.6")),
        Some(dec("7922816251426433759354395032"))
    );
    assert_eq!(
        round_exit_px(Side::Buy, px, dec("1.6")),
        Some(dec("7922816251426433759354395032"))
    );
    assert_eq!(
        ceil_to_tick(dec("-7922816251426433759354395033.5"), dec("1.6")),
        Some(dec("-7922816251426433759354395032"))
    );
}

#[test]
fn products_that_outgrow_their_digits_stay_exact() {
    let px = dec("100000000000");
    let tick = dec("0.0000000000000000025");
    assert_eq!(floor_to_tick(px, tick), Some(px));
    assert_eq!(ceil_to_tick(px, tick), Some(px));
}

#[test]
fn whole_numbers_are_read_as_doubles() {
    assert_eq!(f64::from_bits(dec("3").as_double()), 3.0);
    assert_eq!(f64::from_bits(dec("-12.00").as_double()), -12.0);
    assert!((f64::from_bits(dec("0.0005").as_double()) - 0.0005).abs() < 1e-15);
    assert_eq!(Decimal { mantissa: 1, scale: 99 }.as_double(), 0);
}
