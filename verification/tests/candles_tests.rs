use investa::candles::{chart_bars_from_candles, parse_u64_text, price_bars_from_candles, TossCandle};
use investa::dates::parse_rfc3339_ms;
use investa::market::CandleInterval;

fn candle(timestamp: &str) -> TossCandle {
    TossCandle {
        timestamp: timestamp.to_owned(),
        open_price: "71600".to_owned(),
        high_price: "72300".to_owned(),
        low_price: "71500".to_owned(),
        close_price: "72000".to_owned(),
        volume: "3521000".to_owned(),
        currency: "KRW".to_owned(),
    }
}

#[test]
fn normalizes_newest_first_candles_to_point_in_time_bars() {
    let bars = price_bars_from_candles(
        "005930",
        CandleInterval::OneDay,
        vec![
            TossCandle {
                timestamp: "2026-03-25T09:00:00+09:00".to_owned(),
                open_price: "71600".to_owned(),
                high_price: "72300".to_owned(),
                low_price: "71500".to_owned(),
                close_price: "72000".to_owned(),
                volume: "3521000".to_owned(),
                currency: "KRW".to_owned(),
            },
            TossCandle {
                timestamp: "2026-03-24T09:00:00+09:00".to_owned(),
                open_price: "71200".to_owned(),
                high_price: "71800".to_owned(),
                low_price: "71000".to_owned(),
                close_price: "71600".to_owned(),
                volume: "2984000".to_owned(),
                currency: "KRW".to_owned(),
            },
        ],
        1_800_000_000_000,
    )
    .expect("valid candles");

    assert_eq!(bars.len(), 2);
    assert!(bars[0].period_start_ms < bars[1].period_start_ms);
    assert_eq!(bars[0].available_at_ms, bars[0].period_end_ms);
    assert_eq!(bars[0].source, "TOSS_OPEN_API");
}

#[test]
fn excludes_an_incomplete_candle_at_ingestion_time() {
    let bars = price_bars_from_candles(
        "005930",
        CandleInterval::OneDay,
        vec![TossCandle {
            timestamp: "2026-03-25T09:00:00+09:00".to_owned(),
            open_price: "71600".to_owned(),
            high_price: "72300".to_owned(),
            low_price: "71500".to_owned(),
            close_price: "72000".to_owned(),
            volume: "3521000".to_owned(),
            currency: "KRW".to_owned(),
        }],
        parse_rfc3339_ms("2026-03-25T12:00:00+09:00").expect("fixture time"),
    )
    .expect("valid candle response");

    assert!(bars.is_empty());
}

#[test]
fn uses_the_next_observed_start_when_daily_candles_are_less_than_24_hours_apart() {
    let bars = price_bars_from_candles(
        "005930",
        CandleInterval::OneDay,
        vec![candle("2026-03-24T15:30:00+09:00"), candle("2026-03-25T09:00:00+09:00")],
        parse_rfc3339_ms("2026-03-27T09:00:00+09:00").expect("fixture time"),
    )
    .expect("valid candles");

    assert_eq!(bars[0].period_end_ms, bars[1].period_start_ms);
    assert_eq!(bars[0].available_at_ms, bars[1].period_start_ms);
}

#[test]
fn candle_bars_keep_exact_prices_and_volume() {
    let bars = price_bars_from_candles(
        "AAPL",
        CandleInterval::OneMinute,
        vec![TossCandle {
            timestamp: "1970-01-01T00:00:00Z".to_owned(),
            open_price: "185.705".to_owned(),
            high_price: "186".to_owned(),
            low_price: "185.1".to_owned(),
            close_price: "185.5".to_owned(),
            volume: "+42".to_owned(),
            currency: "USD".to_owned(),
        }],
        60_000,
    )
    .expect("valid candle");
    assert_eq!(bars.len(), 1);
    assert_eq!(bars[0].period_end_ms, 60_000);
    assert_eq!(bars[0].open_minor, 18_571);
    assert_eq!(bars[0].high_minor, 18_600);
    assert_eq!(bars[0].low_minor, 18_510);
    assert_eq!(bars[0].close_minor, 18_550);
    assert_eq!(bars[0].volume, 42);
    assert_eq!(bars[0].symbol, "AAPL");
    assert_eq!(bars[0].currency, "USD");
}

#[test]
fn candle_refusals_name_the_broken_field() {
    let mut bad_time = candle("yesterday");
    assert_eq!(
        price_bars_from_candles("005930", CandleInterval::OneDay, vec![bad_time.clone()], 1_800_000_000_000)
            .unwrap_err(),
        "토스증권 캔들 시각을 해석하지 못했습니다."
    );
    bad_time.timestamp = "2026-03-24T09:00:00+09:00".to_owned();
    bad_time.low_price = "73000".to_owned();
    assert_eq!(
        price_bars_from_candles("005930", CandleInterval::OneDay, vec![bad_time.clone()], 1_800_000_000_000)
            .unwrap_err(),
        "토스증권 캔들 OHLC 관계가 올바르지 않습니다."
    );
    bad_time.low_price = "71500".to_owned();
    bad_time.volume = "-1".to_owned();
    assert_eq!(
        price_bars_from_candles("005930", CandleInterval::OneDay, vec![bad_time], 1_800_000_000_000).unwrap_err(),
        "토스증권 캔들 거래량을 해석하지 못했습니다."
    );
}

#[test]
fn unsigned_text_parses_like_str_parse() {
    assert_eq!(parse_u64_text("0"), Some(0));
    assert_eq!(parse_u64_text("+7"), Some(7));
    assert_eq!(parse_u64_text("18446744073709551615"), Some(u64::MAX));
    assert_eq!(parse_u64_text("18446744073709551616"), None);
    assert_eq!(parse_u64_text("+"), None);
    assert_eq!(parse_u64_text(""), None);
    assert_eq!(parse_u64_text("1.0"), None);
}

#[test]
fn chart_contract_keeps_ohlcv_and_marks_incomplete_bars() {
    let start = parse_rfc3339_ms("2026-08-21T15:30:00+09:00").expect("time");
    let (currency, bars) = chart_bars_from_candles(
        CandleInterval::OneDay,
        vec![TossCandle {
            timestamp: "2026-08-21T15:30:00+09:00".to_owned(),
            open_price: "70000".to_owned(),
            high_price: "73000".to_owned(),
            low_price: "69000".to_owned(),
            close_price: "72000".to_owned(),
            volume: "123456".to_owned(),
            currency: "KRW".to_owned(),
        }],
        start + 1_000,
    )
    .expect("chart bars");
    assert_eq!(currency, "KRW");
    assert_eq!(bars[0].high_minor, 73_000);
    assert_eq!(bars[0].low_minor, 69_000);
    assert_eq!(bars[0].volume, 123_456);
    assert!(!bars[0].completed);
}

#[test]
fn normalizes_fractional_us_stock_candles_to_cents() {
    let (currency, bars) = chart_bars_from_candles(
        CandleInterval::OneDay,
        vec![TossCandle {
            timestamp: "2026-03-25T09:00:00-04:00".to_owned(),
            open_price: "9.1234".to_owned(),
            high_price: "9.5678".to_owned(),
            low_price: "8.9999".to_owned(),
            close_price: "9.4321".to_owned(),
            volume: "3521000".to_owned(),
            currency: "USD".to_owned(),
        }],
        1_800_000_000_000,
    )
    .expect("fractional US candle");

    assert_eq!(currency, "USD");
    assert_eq!(bars.len(), 1);
    assert_eq!(bars[0].open_minor, 912);
    assert_eq!(bars[0].high_minor, 957);
    assert_eq!(bars[0].low_minor, 900);
    assert_eq!(bars[0].close_minor, 943);
}

#[test]
fn chart_bars_come_in_start_order_in_one_currency() {
    let newer = candle("2026-03-25T09:00:00+09:00");
    let older = candle("2026-03-24T09:00:00+09:00");
    let (currency, bars) =
        chart_bars_from_candles(CandleInterval::OneDay, vec![newer.clone(), older.clone()], 1_800_000_000_000)
            .expect("bars");
    assert_eq!(currency, "KRW");
    assert!(bars[0].period_start_ms < bars[1].period_start_ms);
    assert!(bars.iter().all(|bar| bar.completed));
    assert_eq!(bars[0].available_at_ms, Some(bars[0].period_end_ms));
    let mut usd = older.clone();
    usd.currency = "USD".to_owned();
    assert_eq!(
        chart_bars_from_candles(CandleInterval::OneDay, vec![newer.clone(), usd], 1).unwrap_err(),
        "서로 다른 통화의 캔들이 한 응답에 섞여 있습니다."
    );
    assert_eq!(
        chart_bars_from_candles(CandleInterval::OneDay, Vec::new(), 1).unwrap_err(),
        "조회된 캔들이 없습니다."
    );
    let mut zero_low = newer;
    zero_low.low_price = "0".to_owned();
    assert_eq!(
        chart_bars_from_candles(CandleInterval::OneDay, vec![zero_low], 1).unwrap_err(),
        "토스증권 캔들 OHLC 관계가 올바르지 않습니다."
    );
}
