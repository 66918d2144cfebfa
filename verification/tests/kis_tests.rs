use investa::dates::{civil_from_days, days_from_civil, format_yyyymmdd};
use investa::kis::{kis_futures_bars, kis_futures_connection_status_of, KisFuturesDailyRow, parse_kis_business_date, resolve_kis_futures_contract, status, valid_plain_secret, valid_request_id, validate, KisPaperConfigRequest};

#[test]
fn validates_kis_paper_account_parts_and_secrets() {
    let valid = KisPaperConfigRequest {
        app_key: "12345678".to_owned(),
        app_secret: "abcdefgh".to_owned(),
        hts_id: "tester".to_owned(),
        account_number: "12345678".to_owned(),
        product_code: "01".to_owned(),
    };
    assert!(validate(&valid).is_ok());
    let invalid = KisPaperConfigRequest { account_number: "1234-678".to_owned(), ..valid };
    assert!(validate(&invalid).is_err());
}

#[test]
fn resolves_explicit_kis_futures_contract_without_guessing_nearby_month() {
    assert_eq!(resolve_kis_futures_contract("KIS 지수선물 101W09 일봉").expect("contract"), "101W09");
    assert!(resolve_kis_futures_contract("코스피200 근월물 분석").is_err());
    assert!(resolve_kis_futures_contract("BTCUSDT 코인 선물").is_err());
}

#[test]
fn contract_codes_are_uppercased_and_bounded() {
    assert_eq!(resolve_kis_futures_contract("  a01w09 분석 ").unwrap(), "A01W09");
    assert!(resolve_kis_futures_contract("").is_err());
    assert!(resolve_kis_futures_contract("ABCDEFGHIJK1234").is_err());
}

#[test]
fn plain_secrets_refuse_padding_and_control_characters() {
    assert!(valid_plain_secret("abcdefgh", 8, 256));
    assert!(!valid_plain_secret(" abcdefg", 8, 256));
    assert!(!valid_plain_secret("abc\u{7}defg", 8, 256));
    assert!(!valid_plain_secret("abc", 8, 256));
    assert!(valid_request_id("order-1.a"));
    assert!(!valid_request_id("order 1"));
}

#[test]
fn status_masks_the_account_and_never_enables_live_orders() {
    let config = KisPaperConfigRequest {
        app_key: "12345678".to_owned(),
        app_secret: "abcdefgh".to_owned(),
        hts_id: "tester".to_owned(),
        account_number: "12345678".to_owned(),
        product_code: "01".to_owned(),
    };
    let shown = status(Some(&config));
    assert_eq!(shown.masked_account_number.as_deref(), Some("1234****"));
    assert!(shown.paper_order_enabled && !shown.live_order_enabled);
    let empty = status(None);
    assert!(!empty.configured && empty.masked_account_number.is_none());
}

#[test]
fn rejects_invalid_kis_business_dates_and_oversized_points() {
    assert!(parse_kis_business_date("20260231").is_none());
    assert!(parse_kis_business_date("20261301").is_none());
}

#[test]
fn business_dates_start_at_korean_midnight() {
    assert_eq!(parse_kis_business_date("20260827"), Some(1_787_756_400_000));
    assert_eq!(parse_kis_business_date("19700102"), Some(86_400_000 - 32_400_000));
    assert!(parse_kis_business_date("19700101").is_none());
    assert!(parse_kis_business_date("20240229").is_some());
    assert!(parse_kis_business_date("20230229").is_none());
    assert!(parse_kis_business_date("2026-827").is_none());
    assert!(parse_kis_business_date("202608270").is_none());
}

#[test]
fn civil_dates_round_trip_through_day_counts() {
    assert_eq!(civil_from_days(0), (1970, 1, 1));
    assert_eq!(civil_from_days(-1), (1969, 12, 31));
    assert_eq!(civil_from_days(11_016), (2000, 2, 29));
    assert_eq!(civil_from_days(20_692), (2026, 8, 27));
    assert_eq!(format_yyyymmdd(20_692), "20260827");
    assert_eq!(format_yyyymmdd(-719_468), "00000301");
    assert_eq!(days_from_civil(2026, 8, 27), Some(20_692));
    for days in [-800_000_i64, -1, 0, 59, 10_956, 20_692, 2_932_896] {
        let (year, month, day) = civil_from_days(days);
        assert_eq!(days_from_civil(year as i64, month, day), Some(days));
    }
}

#[test]
fn a_formatted_business_date_parses_back_to_its_day() {
    for days in [1_i64, 59, 10_957, 11_016, 20_692, 2_932_896] {
        let text = format_yyyymmdd(days);
        assert_eq!(parse_kis_business_date(&text), Some((days as u64) * 86_400_000 - 32_400_000));
    }
}

fn daily_row(session: &str, open: u64, high: u64, low: u64, close: u64) -> KisFuturesDailyRow {
    KisFuturesDailyRow {
        session_id: session.to_owned(),
        open_minor: Some(open),
        high_minor: Some(high),
        low_minor: Some(low),
        close_minor: Some(close),
        volume: Some(1_200),
    }
}

#[test]
fn kis_futures_daily_rows_become_bars_in_start_order() {
    let code = "A01606".to_owned();
    let rows = vec![
        daily_row("20240103", 35_100, 35_400, 35_000, 35_200),
        daily_row("20240102", 35_000, 35_300, 34_900, 35_100),
    ];
    let bars = kis_futures_bars(&rows, &code, 1_704_207_600_000).unwrap();
    assert_eq!(bars.len(), 2);
    assert_eq!(bars[0].period_start_ms, 1_704_121_200_000);
    assert_eq!(bars[0].period_end_ms, 1_704_207_600_000);
    assert!(bars[0].completed);
    assert!(!bars[1].completed);
    assert_eq!(bars[0].session_id.as_deref(), Some("20240102"));
    assert_eq!(bars[1].contract_code.as_deref(), Some("A01606"));
    assert_eq!(bars[1].available_at_ms, Some(1_704_294_000_000));
    assert_eq!(bars[1].ingested_at_ms, Some(1_704_207_600_000));
}

#[test]
fn kis_futures_daily_rows_refuse_bad_prices_dates_and_repeats() {
    let code = "A01606".to_owned();
    let repeated = vec![
        daily_row("20240102", 35_000, 35_300, 34_900, 35_100),
        daily_row("20240102", 35_000, 35_300, 34_900, 35_100),
    ];
    assert_eq!(kis_futures_bars(&repeated, &code, 0).unwrap_err(), "KIS 선물 일봉에 중복 또는 역순 영업일자가 있습니다.");
    let inverted = vec![daily_row("20240102", 35_000, 34_000, 34_900, 35_100)];
    assert_eq!(kis_futures_bars(&inverted, &code, 0).unwrap_err(), "KIS 선물 일봉 OHLC 관계가 올바르지 않습니다.");
    let bad_date = vec![daily_row("20240230", 35_000, 35_300, 34_900, 35_100)];
    assert_eq!(kis_futures_bars(&bad_date, &code, 0).unwrap_err(), "KIS 선물 일봉의 영업일자를 해석하지 못했습니다.");
    let mut no_volume = daily_row("20240102", 35_000, 35_300, 34_900, 35_100);
    no_volume.volume = None;
    assert_eq!(kis_futures_bars(&vec![no_volume], &code, 0).unwrap_err(), "KIS 선물 일봉 거래량을 해석하지 못했습니다.");
}

#[test]
fn parses_kis_futures_daily_bars_with_contract_and_pit_boundary() {
    // The feed's decimal points ("357.40") arrive as hundredths of a point.
    let rows = vec![KisFuturesDailyRow {
        session_id: "20260825".to_owned(),
        open_minor: Some(35_510),
        high_minor: Some(35_825),
        low_minor: Some(35_280),
        close_minor: Some(35_740),
        volume: Some(123_456),
    }];
    let fetched_at_ms = parse_kis_business_date("20260827").expect("date");
    let bars = kis_futures_bars(&rows, &"101W09".to_owned(), fetched_at_ms).expect("bars");
    assert_eq!(bars.len(), 1);
    assert_eq!(bars[0].contract_code.as_deref(), Some("101W09"));
    assert_eq!(bars[0].session_id.as_deref(), Some("20260825"));
    assert_eq!(bars[0].close_minor, 35_740);
    assert!(bars[0].settlement_price_minor.is_none());
    assert!(bars[0].completed);
}

#[test]
fn kis_futures_status_is_read_only_and_ready_only_when_configured() {
    let ready = kis_futures_connection_status_of(true);
    assert!(ready.configured && ready.market_data_ready && !ready.connected);
    assert_eq!(ready.provider, "KIS_VIRTUAL_MARKET_DATA");
    let missing = kis_futures_connection_status_of(false);
    assert!(!missing.configured && !missing.market_data_ready && !missing.connected);
    assert_eq!(missing.message, "KIS 모의 App Key·Secret을 연결하면 국내 지수선물 일봉을 읽기 전용으로 조회합니다.");
}
