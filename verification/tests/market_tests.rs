use investa::market::{check_paper_market_order, check_paper_order_currency, TossPaperMarketOrderRequest};
use investa::orders::TradeSide;
use investa::dates::{days_from_civil, parse_rfc3339_ms};
use investa::market::{
    ApiError, ApiErrorKind, toss_connection_status_of, toss_account_snapshot_of, quote_from_prices, validate_chart_request,
    validate_stock_search, StockSearchRequest, TossChartRequest, TossPrice,
    ensure_regular_market_session, mask_account_no, normalize_calendar_session, normalize_market_calendars,
    parse_krw_price_minor, parse_official_session_timestamp_ms, parse_price_minor, validate_calendar_date,
    validate_credentials, CandleInterval, KrMarketCalendarResponse, KrMarketDay, MarketSessionTime,
    NormalizedMarketCalendar, NormalizedMarketSession, TossCredentialsRequest, TossMarketCalendars,
    UsMarketCalendarResponse, UsMarketDay,
};

#[test]
fn official_market_calendar_preserves_holiday_and_overnight_sessions() {
    let session = |start: &str, end: &str| {
        Some(MarketSessionTime { start_time: start.to_owned(), end_time: end.to_owned() })
    };
    let kr = KrMarketCalendarResponse {
        today: KrMarketDay { date: "2026-05-05".to_owned(), integrated: None },
        previous_business_day: KrMarketDay { date: "2026-05-04".to_owned(), integrated: None },
        next_business_day: KrMarketDay { date: "2026-05-06".to_owned(), integrated: None },
    };
    let us = UsMarketCalendarResponse {
        today: UsMarketDay {
            date: "2026-03-25".to_owned(),
            day_market: None,
            pre_market: None,
            regular_market: session("2026-03-25T22:30:00+09:00", "2026-03-26T05:00:00+09:00"),
            after_market: None,
        },
        previous_business_day: UsMarketDay {
            date: "2026-03-24".to_owned(),
            day_market: None,
            pre_market: None,
            regular_market: None,
            after_market: None,
        },
        next_business_day: UsMarketDay {
            date: "2026-03-26".to_owned(),
            day_market: None,
            pre_market: None,
            regular_market: None,
            after_market: None,
        },
    };
    let normalized = normalize_market_calendars(kr, us, 123).expect("official calendar");
    assert!(normalized.calendars[0].holiday);
    assert!(!normalized.calendars[1].holiday);
    assert_eq!(normalized.calendars[1].sessions[0].name, "regularMarket");
    assert_eq!(normalized.calendars[1].sessions[0].end_time, "2026-03-26T05:00:00+09:00");
}

#[test]
fn market_calendar_rejects_malformed_dates_and_session_times() {
    assert_eq!(parse_official_session_timestamp_ms("1970-01-01T09:00:00+09:00").unwrap(), 0);
    assert_eq!(parse_official_session_timestamp_ms("1970-01-01T00:00:00Z").unwrap(), 0);
    assert!(validate_calendar_date("2026/03/25").is_err());
    assert!(parse_official_session_timestamp_ms("2026-02-30T09:00:00+09:00").is_err());
    assert!(normalize_calendar_session(
        "regularMarket",
        Some(MarketSessionTime {
            start_time: "2026-03-25T15:30:00+09:00".to_owned(),
            end_time: "2026-03-25T09:00:00+09:00".to_owned(),
        })
    )
    .is_err());
}

#[test]
fn stock_paper_market_order_gate_allows_only_fresh_regular_session() {
    let session = NormalizedMarketSession {
        name: "regularMarket".to_owned(),
        start_time: "2026-08-27T09:00:00+09:00".to_owned(),
        end_time: "2026-08-27T15:30:00+09:00".to_owned(),
    };
    let now = parse_official_session_timestamp_ms("2026-08-27T10:00:00+09:00").unwrap();
    let calendars = TossMarketCalendars {
        fetched_at_ms: now,
        calendars: vec![NormalizedMarketCalendar {
            market: "KR".to_owned(),
            provider: "TOSS".to_owned(),
            fetched_at_ms: now,
            date: "2026-08-27".to_owned(),
            holiday: false,
            previous_business_day: "2026-08-26".to_owned(),
            next_business_day: "2026-08-28".to_owned(),
            sessions: vec![session],
        }],
    };
    assert!(ensure_regular_market_session(&calendars, "KRW", now).is_ok());
    assert!(ensure_regular_market_session(
        &calendars,
        "KRW",
        parse_official_session_timestamp_ms("2026-08-27T16:00:00+09:00").unwrap()
    )
    .is_err());

    let mut holiday = calendars.clone();
    holiday.calendars[0].holiday = true;
    assert!(ensure_regular_market_session(&holiday, "KRW", now).is_err());

    let mut stale = calendars;
    stale.fetched_at_ms = now - 300_001;
    assert!(ensure_regular_market_session(&stale, "KRW", now).is_err());
}

#[test]
fn masks_toss_account_numbers_before_they_cross_ipc() {
    assert_eq!(mask_account_no("12345678901"), "*******8901");
    assert_eq!(mask_account_no("123"), "***");
}

#[test]
fn accepts_only_positive_whole_krw_prices_for_the_krw_ledger() {
    assert_eq!(parse_krw_price_minor("72000").unwrap(), 72_000);
    assert!(parse_krw_price_minor("72.50").is_err());
    assert!(parse_krw_price_minor("0").is_err());
}

#[test]
fn credential_validation_rejects_whitespace_and_control_characters() {
    assert!(validate_credentials(TossCredentialsRequest {
        client_id: " client-id".to_owned(),
        client_secret: "secret-value".to_owned()
    })
    .is_err());
    assert!(validate_credentials(TossCredentialsRequest {
        client_id: "client-id".to_owned(),
        client_secret: "secret\nvalue".to_owned()
    })
    .is_err());
}

#[test]
fn parses_toss_candle_time_and_currency_minor_units() {
    assert_eq!(parse_rfc3339_ms("1970-01-01T09:00:00+09:00"), Some(0));
    assert_eq!(parse_price_minor("72000", "KRW"), Some(72_000));
    assert_eq!(parse_price_minor("72000.49", "KRW"), Some(72_000));
    assert_eq!(parse_price_minor("72000.50", "KRW"), Some(72_001));
    assert_eq!(parse_price_minor("185.70", "USD"), Some(18_570));
    assert_eq!(parse_price_minor("185.701", "USD"), Some(18_570));
    assert_eq!(parse_price_minor("185.705", "USD"), Some(18_571));
    assert_eq!(parse_price_minor("0.0049", "USD"), Some(0));
    assert_eq!(parse_price_minor("0.005", "USD"), Some(1));
}

#[test]
fn timestamps_honour_fractions_offsets_and_reject_bad_dates() {
    assert_eq!(parse_rfc3339_ms("1970-01-02T00:00:00.5Z"), Some(86_400_500));
    assert_eq!(parse_rfc3339_ms("1970-01-01T00:00:01.2349Z"), Some(1_234));
    assert_eq!(parse_rfc3339_ms("2026-03-25T09:00:00-04:00"), Some(1_774_443_600_000));
    assert_eq!(parse_rfc3339_ms("1969-12-31T23:59:59Z"), None);
    assert_eq!(parse_rfc3339_ms("2024-02-29T00:00:00Z"), Some(1_709_164_800_000));
    assert_eq!(parse_rfc3339_ms("2023-02-29T00:00:00Z"), None);
    assert_eq!(parse_rfc3339_ms("2026-03-25T24:00:00Z"), None);
    assert_eq!(parse_rfc3339_ms("2026-03-25 09:00:00Z"), None);
    assert_eq!(days_from_civil(1970, 1, 1), Some(0));
    assert_eq!(days_from_civil(2000, 3, 1), Some(11_017));
    assert_eq!(days_from_civil(1969, 12, 31), Some(-1));
    assert_eq!(days_from_civil(2026, 4, 31), None);
}

#[test]
fn prices_refuse_signs_other_currencies_and_overflow() {
    assert_eq!(parse_price_minor("-1", "KRW"), None);
    assert_eq!(parse_price_minor("+1", "USD"), None);
    assert_eq!(parse_price_minor("1", "EUR"), None);
    assert_eq!(parse_price_minor(".5", "USD"), None);
    assert_eq!(parse_price_minor("1.2.3", "USD"), None);
    assert_eq!(parse_price_minor("184467440737095517", "USD"), None);
    assert_eq!(parse_price_minor("184467440737095516", "USD"), Some(18_446_744_073_709_551_600));
    assert!(parse_krw_price_minor("18446744073709551616").is_err());
    assert_eq!(CandleInterval::OneDay.duration_ms(), 86_400_000);
    assert_eq!(CandleInterval::OneMinute.as_str(), "1m");
}

#[test]
fn broker_errors_separate_permission_rate_limit_and_maintenance() {
    assert_eq!(ApiError::provider_status(403, "permission").kind, ApiErrorKind::IpDenied);
    assert_eq!(ApiError::provider_status(429, "rate").kind, ApiErrorKind::RateLimited);
    assert_eq!(ApiError::provider_status(503, "maintenance").kind, ApiErrorKind::Maintenance);
}

#[test]
fn toss_status_reports_stored_credentials_without_claiming_a_connection() {
    let stored = toss_connection_status_of(true);
    assert!(stored.configured && !stored.connected);
    assert_eq!(stored.message, "연결 정보 저장됨 · 시세 요청 시 연결 확인");
    let missing = toss_connection_status_of(false);
    assert!(!missing.configured && !missing.connected);
    assert_eq!(missing.message, "토스증권 Open API 연결 정보가 없습니다.");
}

#[test]
fn account_snapshot_is_read_only_and_counts_accounts() {
    let empty = toss_account_snapshot_of(Vec::new(), 42);
    assert_eq!(empty.provider, "TOSS_OPEN_API");
    assert!(empty.read_only && !empty.live_order_enabled);
    assert_eq!(empty.fetched_at_ms, 42);
    assert_eq!(empty.message, "조회 가능한 종합매매 계좌가 없습니다.");
}

#[test]
fn chart_requests_need_a_symbol_and_20_to_500_candles() {
    let request = |symbol: &str, count: u16| TossChartRequest {
        symbol: symbol.to_owned(),
        interval: CandleInterval::OneDay,
        count,
        adjusted: true,
    };
    assert_eq!(validate_chart_request(&request(" aapl ", 20)).unwrap(), "AAPL");
    assert_eq!(
        validate_chart_request(&request("AAPL", 19)).unwrap_err(),
        "차트 캔들 개수는 20개에서 500개 사이여야 합니다."
    );
    assert!(validate_chart_request(&request("AAPL", 501)).is_err());
    assert_eq!(
        validate_chart_request(&request("A PL", 100)).unwrap_err(),
        "영문·숫자·점·하이픈으로 된 유효한 종목 코드가 필요합니다."
    );
}

#[test]
fn a_quote_takes_the_first_listing_of_the_symbol_in_its_currency() {
    let price = |symbol: &str, last: &str, currency: &str| TossPrice {
        symbol: symbol.to_owned(),
        last_price: last.to_owned(),
        currency: currency.to_owned(),
    };
    let prices = vec![price("MSFT", "410.00", "USD"), price("aapl", "187.255", "USD"), price("AAPL", "1.00", "USD")];
    let quote = quote_from_prices("AAPL".to_owned(), &prices, 7).unwrap();
    assert_eq!(quote.last_price_minor, 18_726);
    assert_eq!(quote.currency, "USD");
    assert_eq!(quote.symbol, "AAPL");
    assert_eq!(quote.observed_at_ms, 7);
    assert_eq!(
        quote_from_prices("NVDA".to_owned(), &prices, 7).unwrap_err(),
        "토스증권 현재가 응답에서 요청 종목을 찾지 못했습니다."
    );
    let broken = vec![price("AAPL", "abc", "USD")];
    assert_eq!(quote_from_prices("AAPL".to_owned(), &broken, 7).unwrap_err(), "토스증권 현재가를 해석하지 못했습니다.");
}

#[test]
fn stock_searches_are_bounded_before_the_catalog_is_read() {
    let search = |market: &str, query: &str| StockSearchRequest { market: market.to_owned(), query: query.to_owned() };
    assert_eq!(validate_stock_search(&search(" KR ", " 삼성 ")).unwrap(), ("kr".to_owned(), "삼성".to_owned()));
    assert_eq!(validate_stock_search(&search("jp", "toyota")).unwrap_err(), "국장 또는 미장 검색만 지원합니다.");
    assert_eq!(validate_stock_search(&search("us", "   ")).unwrap_err(), "검색어는 1자에서 60자 사이로 입력해 주세요.");
    assert_eq!(
        validate_stock_search(&search("us", "a\u{7}b")).unwrap_err(),
        "검색어에 줄바꿈이나 제어 문자를 사용할 수 없습니다."
    );
}

#[test]
fn a_paper_market_order_is_checked_before_any_price_is_fetched() {
    let order = |symbol: &str, currency: &str, quantity: u64, key: &str| TossPaperMarketOrderRequest {
        symbol: symbol.to_owned(),
        expected_currency: currency.to_owned(),
        side: TradeSide::Buy,
        quantity,
        idempotency_key: key.to_owned(),
    };
    assert_eq!(
        check_paper_market_order(&order(" aapl ", "USD", 3, "key-1")),
        Ok(("AAPL".to_owned(), "paper-key-1".to_owned()))
    );
    assert_eq!(
        check_paper_market_order(&order("AA PL", "USD", 3, "key-1")).unwrap_err(),
        "영문·숫자·점·하이픈으로 된 유효한 종목 코드가 필요합니다."
    );
    for (quantity, key) in [(0u64, "key-1"), (1, ""), (1, "key 1"), (1, "키")] {
        assert_eq!(
            check_paper_market_order(&order("005930", "KRW", quantity, key)).unwrap_err(),
            "유효한 종목 코드와 1주 이상의 모의주문 수량이 필요합니다."
        );
    }
    assert!(check_paper_market_order(&order("005930", "KRW", 1, &"k".repeat(120))).is_ok());
    assert!(check_paper_market_order(&order("005930", "KRW", 1, &"k".repeat(121))).is_err());
    assert_eq!(
        check_paper_market_order(&order("005930", "JPY", 1, "key")).unwrap_err(),
        "국장·미장 시장가 주문 통화를 확인해 주세요."
    );
    assert_eq!(check_paper_order_currency("KRW", "KRW"), Ok(()));
    assert_eq!(
        check_paper_order_currency("KRW", "USD").unwrap_err(),
        "선택한 시장의 통화와 토스증권 종목 통화가 일치하지 않습니다."
    );
}
