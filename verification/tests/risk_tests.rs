use investa::controls::{PaperRiskLimits, PaperRiskMonitorRequest, RiskMark};
use investa::risk::{evaluate_paper_risk, ClosedTrade, RiskAccount, RiskPosition};

fn limits() -> PaperRiskLimits {
    PaperRiskLimits {
        policy_revision: "risk-v1".into(),
        day_start_ms: 1,
        maximum_trade_loss_minor: 100_000,
        maximum_daily_loss_minor: 100_000,
        maximum_drawdown_bps: 5_000,
        maximum_symbol_exposure_bps: 500,
        maximum_sector_exposure_bps: 500,
        maximum_market_exposure_bps: 500,
        maximum_consecutive_losses: 3,
        maximum_mark_age_ms: 5,
    }
}

fn mark(symbol: &str, market: &str, sector: &str, price: u64, observed: u64) -> RiskMark {
    RiskMark {
        symbol: symbol.into(),
        market: market.into(),
        sector: sector.into(),
        mark_price_minor: price,
        observed_at_ms: observed,
    }
}

/// The account after opening 1,000,000 KRW and buying 10 TEST at 10,000 without costs.
fn bought_account() -> RiskAccount {
    RiskAccount {
        currency: "KRW".into(),
        cash_minor: 900_000,
        realized_pnl_minor: 0,
        positions: vec![RiskPosition {
            symbol: "TEST".into(),
            quantity: 10,
            quantity_scale: 1,
            cost_basis_minor: 100_000,
        }],
    }
}

#[test]
fn risk_monitor_uses_ledger_losses_marks_and_exposure_without_live_permission() {
    let report = evaluate_paper_risk(
        &bought_account(),
        1_000_000,
        &vec![],
        PaperRiskMonitorRequest {
            currency: "KRW".into(),
            as_of_ms: 10,
            marks: vec![mark("TEST", "kr", "tech", 9_000, 9)],
            limits: limits(),
        },
    )
    .unwrap();
    assert_eq!(report.unrealized_pnl_minor, -10_000);
    assert!(!report.new_entries_allowed);
    assert!(!report.live_order_allowed);
    assert!(report.violations.iter().any(|item| item.contains("노출")));
}

#[test]
fn risk_monitor_measures_exposure_against_marked_equity() {
    let report = evaluate_paper_risk(
        &bought_account(),
        1_000_000,
        &vec![],
        PaperRiskMonitorRequest {
            currency: "KRW".into(),
            as_of_ms: 10,
            marks: vec![mark("TEST", "kr", "tech", 9_000, 9)],
            limits: limits(),
        },
    )
    .unwrap();
    assert_eq!(report.current_equity_minor, 990_000);
    assert_eq!(report.symbol_exposure.len(), 1);
    assert_eq!(report.symbol_exposure[0].key, "TEST");
    assert_eq!(report.symbol_exposure[0].notional_minor, 90_000);
    assert_eq!(report.symbol_exposure[0].exposure_bps, 909);
    assert_eq!(report.sector_exposure[0].key, "tech");
    assert_eq!(report.market_exposure[0].key, "kr");
    assert_eq!(
        report.violations,
        vec!["종목 노출 한도 초과", "섹터 노출 한도 초과", "시장 노출 한도 초과"]
    );
    assert_eq!(report.recommendation, "reduce");
}

#[test]
fn risk_monitor_groups_sectors_in_key_order() {
    let account = RiskAccount {
        currency: "KRW".into(),
        cash_minor: 1_000_000,
        realized_pnl_minor: 0,
        positions: vec![
            RiskPosition { symbol: "A".into(), quantity: 1, quantity_scale: 1, cost_basis_minor: 1_000 },
            RiskPosition { symbol: "B".into(), quantity: 2, quantity_scale: 1, cost_basis_minor: 2_000 },
            RiskPosition { symbol: "C".into(), quantity: 3, quantity_scale: 1, cost_basis_minor: 3_000 },
        ],
    };
    let mut generous = limits();
    generous.maximum_symbol_exposure_bps = 10_000;
    generous.maximum_sector_exposure_bps = 10_000;
    generous.maximum_market_exposure_bps = 10_000;
    let report = evaluate_paper_risk(
        &account,
        1_000_000,
        &vec![],
        PaperRiskMonitorRequest {
            currency: "KRW".into(),
            as_of_ms: 10,
            marks: vec![
                mark("C", "kr", "tech", 1_000, 9),
                mark("A", "kr", "tech", 1_000, 9),
                mark("B", "kr", "bank", 1_000, 9),
            ],
            limits: generous,
        },
    )
    .unwrap();
    let sectors: Vec<(String, u64)> =
        report.sector_exposure.iter().map(|b| (b.key.clone(), b.notional_minor)).collect();
    assert_eq!(sectors, vec![("bank".to_string(), 2_000), ("tech".to_string(), 4_000)]);
    assert_eq!(report.market_exposure.len(), 1);
    assert_eq!(report.market_exposure[0].notional_minor, 6_000);
    assert!(report.violations.is_empty());
    assert_eq!(report.recommendation, "continue");
    assert!(report.new_entries_allowed);
}

#[test]
fn risk_monitor_follows_losses_drawdown_and_streaks() {
    let account = RiskAccount {
        currency: "KRW".into(),
        cash_minor: 700_000,
        realized_pnl_minor: -300_000,
        positions: vec![],
    };
    let closed = vec![
        ClosedTrade { net_pnl_minor: -100_000, closed_at_ms: 0 },
        ClosedTrade { net_pnl_minor: -100_000, closed_at_ms: 2 },
        ClosedTrade { net_pnl_minor: -100_000, closed_at_ms: 3 },
    ];
    let report = evaluate_paper_risk(
        &account,
        1_000_000,
        &closed,
        PaperRiskMonitorRequest {
            currency: "KRW".into(),
            as_of_ms: 10,
            marks: vec![],
            limits: limits(),
        },
    )
    .unwrap();
    assert_eq!(report.largest_trade_loss_minor, 100_000);
    assert_eq!(report.daily_realized_pnl_minor, -200_000);
    assert_eq!(report.maximum_drawdown_bps, 3_000);
    assert_eq!(report.consecutive_loss_count, 3);
    assert_eq!(report.violations, vec!["일일 손실 한도 초과", "연속 손실 한도 도달"]);
    assert_eq!(report.recommendation, "stop");
}

#[test]
fn risk_monitor_reports_winning_trades_as_a_wrapped_loss() {
    let account = RiskAccount {
        currency: "USD".into(),
        cash_minor: 1_000_005,
        realized_pnl_minor: 5,
        positions: vec![],
    };
    let closed = vec![ClosedTrade { net_pnl_minor: 5, closed_at_ms: 2 }];
    let report = evaluate_paper_risk(
        &account,
        1_000_000,
        &closed,
        PaperRiskMonitorRequest {
            currency: "USD".into(),
            as_of_ms: 10,
            marks: vec![],
            limits: limits(),
        },
    )
    .unwrap();
    assert_eq!(report.largest_trade_loss_minor, u64::MAX - 4);
    assert_eq!(report.violations, vec!["거래당 손실 한도 초과"]);
    assert_eq!(report.recommendation, "stop");
}

#[test]
fn risk_monitor_refuses_missing_marks_and_foreign_currency() {
    let request = PaperRiskMonitorRequest {
        currency: "KRW".into(),
        as_of_ms: 10,
        marks: vec![mark("OTHER", "kr", "tech", 9_000, 9)],
        limits: limits(),
    };
    assert_eq!(
        evaluate_paper_risk(&bought_account(), 1_000_000, &vec![], request.clone()).unwrap_err(),
        "TEST의 위험 감시 시세가 없습니다."
    );
    let mut usd = request;
    usd.currency = "USD".into();
    assert_eq!(
        evaluate_paper_risk(&bought_account(), 1_000_000, &vec![], usd).unwrap_err(),
        "위험 감시 통화와 모의원장 통화가 일치하지 않습니다."
    );
}

#[test]
fn risk_monitor_stops_on_a_stale_mark() {
    let report = evaluate_paper_risk(
        &bought_account(),
        1_000_000,
        &vec![],
        PaperRiskMonitorRequest {
            currency: "KRW".into(),
            as_of_ms: 100,
            marks: vec![mark("TEST", "kr", "tech", 9_000, 9)],
            limits: limits(),
        },
    )
    .unwrap();
    assert_eq!(report.violations[0], "TEST 시세 지연");
    assert_eq!(report.recommendation, "stop");
}
