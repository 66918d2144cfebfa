use investa::analysis::{
    analysis_availability, analysis_snapshot_id, automatic_order_quantity, backtest_warnings,
    check_backtest_request, completed_bars, plan_analysis_snapshot, validate_analysis_request,
    research_backtest_warnings, research_order_quantity, AnalysisSnapshotRequest, SecOutcome, TossBacktestRequest,
};
use investa::market::CandleInterval;
use investa::candles::TossChartBar;
use investa::stocks::StockSearchResult;

fn stock(symbol: &str, market: &str, currency: &str) -> StockSearchResult {
    StockSearchResult {
        symbol: symbol.to_owned(),
        name: symbol.to_owned(),
        market: market.to_owned(),
        currency: currency.to_owned(),
        security_type: "STOCK".to_owned(),
    }
}

fn bar(start: u64, close: u64, completed: bool) -> TossChartBar {
    TossChartBar {
        period_start_ms: start,
        period_end_ms: start + 86_400_000,
        open_minor: close,
        high_minor: close,
        low_minor: close,
        close_minor: close,
        volume: 1,
        completed,
        available_at_ms: None,
        ingested_at_ms: None,
        session_id: None,
        contract_code: None,
        settlement_price_minor: None,
        mark_price_minor: None,
        index_price_minor: None,
        funding_rate_bps: None,
        funding_time_ms: None,
    }
}

#[test]
fn an_analysis_request_is_one_line_of_bounded_length_with_a_bounded_count() {
    let ok = validate_analysis_request(&AnalysisSnapshotRequest { query: "  애플 분석  ".to_owned(), count: 120 });
    assert_eq!(ok, Ok("애플 분석".to_owned()));
    let blank = validate_analysis_request(&AnalysisSnapshotRequest { query: "   ".to_owned(), count: 120 });
    assert_eq!(blank, Err("분석 요청은 한 줄 1자 이상 500자 이하여야 합니다.".to_owned()));
    let two_lines =
        validate_analysis_request(&AnalysisSnapshotRequest { query: "애플\n분석".to_owned(), count: 120 });
    assert_eq!(two_lines, Err("분석 요청은 한 줄 1자 이상 500자 이하여야 합니다.".to_owned()));
    let long = validate_analysis_request(&AnalysisSnapshotRequest { query: "가".repeat(501), count: 120 });
    assert!(long.is_err());
    let longest = validate_analysis_request(&AnalysisSnapshotRequest { query: "가".repeat(500), count: 120 });
    assert!(longest.is_ok());
    for count in [59u16, 501] {
        let r = validate_analysis_request(&AnalysisSnapshotRequest { query: "AAPL".to_owned(), count });
        assert_eq!(r, Err("분석 스냅샷 캔들은 60개에서 500개 사이여야 합니다.".to_owned()));
    }
    for count in [60u16, 500] {
        assert!(validate_analysis_request(&AnalysisSnapshotRequest { query: "AAPL".to_owned(), count }).is_ok());
    }
}

#[test]
fn an_analysis_snapshot_is_about_exactly_one_stock() {
    let one = plan_analysis_snapshot("AAPL", 120, vec![stock("AAPL", "NASDAQ", "USD")]).unwrap();
    assert_eq!(one.symbol, "AAPL");
    assert_eq!(
        plan_analysis_snapshot("없는 종목", 120, vec![]).unwrap_err(),
        "분석 요청에서 국장·미장 종목명 또는 티커를 확정하지 못했습니다."
    );
    assert_eq!(
        plan_analysis_snapshot("삼성전자 AAPL", 120, vec![stock("005930", "KOSPI", "KRW"), stock("AAPL", "NASDAQ", "USD")])
            .unwrap_err(),
        "분석 요청에 국장·미장 종목이 함께 감지됐습니다. 공통 스냅샷은 한 종목씩 요청해 주세요."
    );
    assert_eq!(
        plan_analysis_snapshot("AAPL", 10, vec![stock("AAPL", "NASDAQ", "USD")]).unwrap_err(),
        "분석 스냅샷 캔들은 60개에서 500개 사이여야 합니다."
    );
}

#[test]
fn an_analysis_rests_on_completed_bars_only() {
    let bars = vec![bar(0, 10, true), bar(86_400_000, 11, false), bar(172_800_000, 12, true)];
    let kept = completed_bars(bars).unwrap();
    assert_eq!(kept.len(), 2);
    assert_eq!(kept[0].close_minor, 10);
    assert_eq!(kept[1].close_minor, 12);
    assert_eq!(
        completed_bars(vec![bar(0, 10, false)]).unwrap_err(),
        "완료된 일봉이 없어 분석 스냅샷을 만들 수 없습니다."
    );
}

#[test]
fn a_us_snapshot_reports_what_the_sec_returned() {
    let fundamentals = SecOutcome::Found { item_count: 2, missing_metrics: vec!["EPS".to_owned()] };
    let filings = SecOutcome::Found { item_count: 0, missing_metrics: vec![] };
    let (availability, missing) = analysis_availability("USD", &fundamentals, &filings);
    assert_eq!(availability.price, "available");
    assert_eq!(availability.technical, "available");
    assert_eq!(availability.fundamentals, "available");
    assert_eq!(availability.filings, "provider_no_point_in_time_data");
    assert_eq!(availability.news, "provider_not_connected");
    assert_eq!(availability.macro_supply, "provider_not_connected");
    assert_eq!(
        missing,
        vec![
            "분석 기준일 이전 SEC 주요 공시가 없습니다.".to_owned(),
            "SEC 일부 재무 항목 결측: EPS".to_owned(),
            "뉴스 공급자 미연결".to_owned(),
            "수급·거시 공급자 미연결".to_owned(),
        ]
    );
    let (availability, missing) = analysis_availability("USD", &SecOutcome::NotConfigured, &SecOutcome::Failed);
    assert_eq!(availability.fundamentals, "provider_not_configured");
    assert_eq!(availability.filings, "provider_error");
    assert_eq!(missing[0], "SEC 공식 공시 조회 실패");
    assert_eq!(missing[1], "SEC 요청 연락처 미등록");
}

#[test]
fn a_kr_snapshot_has_no_official_source_connected() {
    let (availability, missing) = analysis_availability("KRW", &SecOutcome::Failed, &SecOutcome::Failed);
    assert_eq!(availability.fundamentals, "provider_not_connected");
    assert_eq!(availability.filings, "provider_not_connected");
    assert_eq!(
        missing,
        vec![
            "국장 공식 공시 공급자 미연결".to_owned(),
            "국장 공식 재무 공급자 미연결".to_owned(),
            "뉴스 공급자 미연결".to_owned(),
            "수급·거시 공급자 미연결".to_owned(),
        ]
    );
}

#[test]
fn a_snapshot_id_names_the_symbol_and_the_time() {
    assert_eq!(analysis_snapshot_id("AAPL", 123), "toss-AAPL-123");
    assert_eq!(analysis_snapshot_id("005930", 0), "toss-005930-0");
}

#[test]
fn a_research_backtest_needs_a_bounded_count_and_an_executable_report() {
    assert_eq!(check_backtest_request(20, true), Ok(()));
    assert_eq!(check_backtest_request(200, true), Ok(()));
    assert_eq!(check_backtest_request(19, true), Err("캔들 조회 수는 20~200개여야 합니다.".to_owned()));
    assert_eq!(check_backtest_request(201, false), Err("캔들 조회 수는 20~200개여야 합니다.".to_owned()));
    assert_eq!(
        check_backtest_request(100, false),
        Err("검증 오류나 미해결 항목이 있는 연구 보고서는 백테스트할 수 없습니다.".to_owned())
    );
}

#[test]
fn automatic_sizing_spends_a_fifth_of_the_cash_at_the_first_open() {
    assert_eq!(automatic_order_quantity(1_000_000, 1, Some(70_000)), Ok(2));
    assert_eq!(automatic_order_quantity(10_000_000, 1, Some(70_000)), Ok(28));
    assert_eq!(automatic_order_quantity(1_000, 1, Some(70_000)), Ok(1));
    assert_eq!(automatic_order_quantity(1_000_000, 100, Some(70_000)), Ok(285));
    assert_eq!(
        automatic_order_quantity(1_000_000, 1, None),
        Err("자동 주문 수량을 계산할 첫 시가가 없습니다.".to_owned())
    );
    assert_eq!(
        automatic_order_quantity(1_000_000, 1, Some(0)),
        Err("자동 주문 수량을 계산할 첫 시가가 없습니다.".to_owned())
    );
    assert_eq!(
        automatic_order_quantity(u64::MAX, u64::MAX, Some(1)),
        Err("자동 주문 수량 계산이 지원 범위를 초과했습니다.".to_owned())
    );
}

#[test]
fn research_backtest_warnings_follow_the_run() {
    let all = backtest_warnings(Some(2), true, true);
    assert_eq!(all.len(), 4);
    assert_eq!(all[0], "최대 200개 최신 캔들만 사용하는 탐색 백테스트이며 성과 합격 판정은 하지 않습니다.");
    assert_eq!(all[1], "자동 연구 실행은 첫 시가 기준 초기 예수금의 20% 이내인 2주로 고정 수량을 산정했습니다.");
    assert!(all[2].starts_with("1분봉 200개는"));
    assert!(all[3].starts_with("거래 비용이 모두 0bp"));
    let plain = backtest_warnings(None, false, false);
    assert_eq!(plain.len(), 1);
}

fn backtest_request(order_quantity: u64, interval: CandleInterval) -> TossBacktestRequest {
    TossBacktestRequest {
        requested_at_ms: None,
        interval,
        count: 200,
        adjusted: true,
        order_quantity,
        initial_cash_minor: 1_000_000,
        quantity_scale: 1,
    }
}

#[test]
fn a_configured_quantity_is_kept_and_zero_asks_for_sizing() {
    assert_eq!(research_order_quantity(&backtest_request(7, CandleInterval::OneDay), None), Ok(7));
    assert_eq!(research_order_quantity(&backtest_request(0, CandleInterval::OneDay), Some(70_000)), Ok(2));
    assert_eq!(
        research_order_quantity(&backtest_request(0, CandleInterval::OneDay), None).unwrap_err(),
        "자동 주문 수량을 계산할 첫 시가가 없습니다."
    );
    let sized = research_backtest_warnings(&backtest_request(0, CandleInterval::OneMinute), 2, false);
    assert_eq!(sized.len(), 3);
    assert!(sized[1].contains("2주로"));
    assert!(sized[2].starts_with("1분봉"));
    let fixed = research_backtest_warnings(&backtest_request(7, CandleInterval::OneDay), 7, false);
    assert_eq!(fixed.len(), 1);
}
