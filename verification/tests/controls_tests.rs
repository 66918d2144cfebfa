use investa::controls::{
    analyze_trade_quality, drill_scenario_db, evaluate_operations_drill, validate_crypto_policy,
    validate_risk_request, ExecutionObservation, OperationsDrillRequest, OperationsDrillScenario,
    PaperRiskLimits, PaperRiskMonitorRequest, RiskMark, SaveCryptoRiskPolicyRequest, TradeQualityRequest,
    TradeSide,
};

fn observation() -> ExecutionObservation {
    ExecutionObservation {
        event_id: "event-1".into(),
        order_id: "order-1".into(),
        idempotency_key: "key-1".into(),
        symbol: "TEST".into(),
        market: "kr".into(),
        side: TradeSide::Buy,
        reference_price_minor: 1000,
        average_fill_price_minor: 1010,
        requested_quantity: 10,
        filled_quantity: 5,
        quantity_scale: 1,
        fee_minor: 3,
        tax_minor: 0,
        fx_cost_minor: 0,
        funding_minor: 0,
        submitted_at_ms: 1,
        first_fill_at_ms: 2,
        completed_at_ms: 100,
    }
}

#[test]
fn trade_quality_separates_price_and_explicit_costs_and_flags_duplicates() {
    let observation = observation();
    let mut duplicate = observation.clone();
    duplicate.event_id = "event-2".into();
    let report = analyze_trade_quality(TradeQualityRequest {
        observations: vec![observation, duplicate],
        maximum_execution_loss_bps: 10,
        maximum_latency_ms: 50,
        maximum_order_quantity: 100,
    })
    .unwrap();
    assert_eq!(report.duplicate_order_count, 1);
    assert_eq!(report.duplicate_idempotency_count, 1);
    assert!(report.pause_new_orders_candidate);
    assert!(!report.ledger_mutated);
}

#[test]
fn trade_quality_measures_adverse_price_fees_and_latency_exactly() {
    let report = analyze_trade_quality(TradeQualityRequest {
        observations: vec![observation()],
        maximum_execution_loss_bps: 500,
        maximum_latency_ms: 1_000,
        maximum_order_quantity: 100,
    })
    .unwrap();
    let item = &report.items[0];
    // (1010 - 1000) * 5 / 1 = 50 adverse, plus 3 in fees, over a 5000 notional
    assert_eq!(item.execution_loss_minor, 53);
    assert_eq!(item.explicit_cost_minor, 3);
    assert_eq!(item.execution_loss_bps, 106);
    assert_eq!(item.latency_ms, 99);
    assert!(item.partial_fill);
    assert_eq!(item.flags, vec!["partial_fill".to_owned()]);
    assert_eq!(report.total_execution_loss_minor, 53);
    assert!(!report.pause_new_orders_candidate);
    assert!(!report.live_order_allowed);
}

#[test]
fn trade_quality_sell_gains_are_negative_losses_rounded_toward_zero() {
    let mut sell = observation();
    sell.side = TradeSide::Sell;
    sell.reference_price_minor = 1000;
    sell.average_fill_price_minor = 1003;
    sell.filled_quantity = 7;
    sell.requested_quantity = 7;
    sell.quantity_scale = 2;
    sell.fee_minor = 0;
    let report = analyze_trade_quality(TradeQualityRequest {
        observations: vec![sell],
        maximum_execution_loss_bps: 500,
        maximum_latency_ms: 1_000,
        maximum_order_quantity: 100,
    })
    .unwrap();
    // -3 * 7 / 2 = -10.5, truncated to -10
    assert_eq!(report.items[0].execution_loss_minor, -10);
    assert_eq!(report.items[0].execution_loss_bps, -28);
}

#[test]
fn trade_quality_rejects_empty_or_malformed_observations() {
    assert!(analyze_trade_quality(TradeQualityRequest {
        observations: vec![],
        maximum_execution_loss_bps: 10,
        maximum_latency_ms: 50,
        maximum_order_quantity: 100,
    })
    .is_err());
    let mut bad = observation();
    bad.first_fill_at_ms = 0;
    assert!(analyze_trade_quality(TradeQualityRequest {
        observations: vec![bad],
        maximum_execution_loss_bps: 10,
        maximum_latency_ms: 50,
        maximum_order_quantity: 100,
    })
    .is_err());
}

fn limits() -> PaperRiskLimits {
    PaperRiskLimits {
        policy_revision: "risk-v1".into(),
        day_start_ms: 1,
        maximum_trade_loss_minor: 100_000,
        maximum_daily_loss_minor: 100_000,
        maximum_drawdown_bps: 5_000,
        maximum_symbol_exposure_bps: 500,
        maximum_sector_exposure_bps: 500,
        maximum_market_exposure_bps: 500,
        maximum_consecutive_losses: 3,
        maximum_mark_age_ms: 5,
    }
}

fn mark(symbol: &str) -> RiskMark {
    RiskMark {
        symbol: symbol.into(),
        market: "kr".into(),
        sector: "tech".into(),
        mark_price_minor: 9_000,
        observed_at_ms: 9,
    }
}

#[test]
fn risk_request_needs_one_mark_per_symbol_and_sane_limits() {
    let ok = PaperRiskMonitorRequest { currency: "KRW".into(), as_of_ms: 10, marks: vec![mark("TEST")], limits: limits() };
    assert!(validate_risk_request(&ok).is_ok());
    let duplicate = PaperRiskMonitorRequest { marks: vec![mark("TEST"), mark("TEST")], ..ok.clone() };
    assert!(validate_risk_request(&duplicate).is_err());
    let future = PaperRiskMonitorRequest { as_of_ms: 8, ..ok.clone() };
    assert!(validate_risk_request(&future).is_err());
    let mut wrong_currency = ok.clone();
    wrong_currency.currency = "EUR".into();
    assert!(validate_risk_request(&wrong_currency).is_err());
}

#[test]
fn operational_drills_fail_closed_but_keep_cancellation_available() {
    for scenario in [
        OperationsDrillScenario::PartialFill,
        OperationsDrillScenario::StaleMarketData,
        OperationsDrillScenario::BrokerOutage,
        OperationsDrillScenario::LossLimit,
        OperationsDrillScenario::ReconciliationMismatch,
    ] {
        let result = evaluate_operations_drill(OperationsDrillRequest {
            drill_id: format!("drill-{:?}", scenario).to_ascii_lowercase(),
            scenario,
            observation: "  격리된 운영 장애 훈련 ".into(),
            executed_at_ms: 1,
        })
        .expect("drill");
        assert!(!result.new_entries_allowed);
        assert!(result.cancellation_allowed);
        assert!(!result.live_order_allowed);
        assert_eq!(result.observation, "격리된 운영 장애 훈련");
        assert_eq!(result.recommended_actions.len(), 3);
    }
    let rejected = evaluate_operations_drill(OperationsDrillRequest {
        drill_id: "drill-1".into(),
        scenario: OperationsDrillScenario::OrderRejected,
        observation: "ok".into(),
        executed_at_ms: 1,
    });
    assert!(rejected.is_err());
    assert_eq!(drill_scenario_db(OperationsDrillScenario::BrokerOutage), "broker_outage");
}

#[test]
fn crypto_leverage_policy_requires_exact_confirmation_and_is_idempotent() {
    let request = SaveCryptoRiskPolicyRequest {
        change_id: "crypto-risk-1".into(),
        policy_revision: "crypto-v1".into(),
        leverage_enabled: true,
        maximum_leverage_bps: 15_000,
        reason: "격리된 모의환경 검증".into(),
        confirmation: "레버리지 위험을 확인했습니다".into(),
        created_at_ms: 1,
    };
    assert!(validate_crypto_policy(&request).is_ok());
    let mut off = request.clone();
    off.leverage_enabled = false;
    assert!(validate_crypto_policy(&off).is_err());
    let mut unconfirmed = request.clone();
    unconfirmed.confirmation = "확인".into();
    assert!(validate_crypto_policy(&unconfirmed).is_err());
}
