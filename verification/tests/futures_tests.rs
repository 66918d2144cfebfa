use investa::futures::{
    build_lifecycle_event, checked_notional, lifecycle_arithmetic_fits, lifecycle_kind_db, log_computable, margin, plan_close, plan_mark,
    plan_open, pnl, replay, snapshot, validate_open, CloseFuturesPositionRequest, MarkFuturesPositionRequest,
    FuturesEvent, FuturesKind, FuturesLifecycleKind, FuturesLifecycleRequest, FuturesPosition, FuturesSide,
    OpenFuturesPositionRequest,
};

fn position(side: FuturesSide) -> FuturesPosition {
    FuturesPosition {
        position_id: "p1".into(),
        symbol: "TEST".into(),
        name: "테스트".into(),
        kind: FuturesKind::Index,
        side,
        contracts: 2,
        entry_price_minor: 1000,
        mark_price_minor: 1000,
        contract_multiplier: 250,
        price_scale: 1,
        initial_margin_bps: 1500,
        maintenance_margin_bps: 1000,
        reserved_margin_minor: 75_000,
        unrealized_pnl_minor: 0,
        maintenance_required_minor: 50_000,
        liquidation_warning: false,
        opened_at_ms: 1,
        marked_at_ms: 1,
    }
}

#[test]
fn lifecycle_records_settlement_and_rejects_automatic_rollover() {
    let settlement = build_lifecycle_event(FuturesLifecycleRequest {
        event_id: "settle-1".into(),
        request_id: "request-1".into(),
        contract_symbol: "KOSPI200M6".into(),
        kind: FuturesLifecycleKind::DailySettlement,
        previous_settlement_price_minor: 1000,
        settlement_price_minor: 1010,
        contracts: 2,
        contract_multiplier: 250,
        price_scale: 1,
        rollover_to_symbol: None,
        automatic: false,
        occurred_at_ms: 1,
    })
    .expect("settlement");
    assert_eq!(settlement.variation_margin_minor, 5_000);
    assert!(!settlement.live_order_allowed);
    let error = build_lifecycle_event(FuturesLifecycleRequest {
        event_id: "roll-1".into(),
        request_id: "request-2".into(),
        contract_symbol: "OLD".into(),
        kind: FuturesLifecycleKind::ManualRollover,
        previous_settlement_price_minor: 1000,
        settlement_price_minor: 1000,
        contracts: 1,
        contract_multiplier: 1,
        price_scale: 1,
        rollover_to_symbol: Some("NEW".into()),
        automatic: true,
        occurred_at_ms: 2,
    })
    .unwrap_err();
    assert!(error.contains("자동 실행"));
}

#[test]
fn manual_rollover_uppercases_codes_and_needs_a_new_contract() {
    let request = FuturesLifecycleRequest {
        event_id: "roll-2".into(),
        request_id: "request-3".into(),
        contract_symbol: "kospi200m6".into(),
        kind: FuturesLifecycleKind::ManualRollover,
        previous_settlement_price_minor: 1010,
        settlement_price_minor: 1000,
        contracts: 3,
        contract_multiplier: 1,
        price_scale: 2,
        rollover_to_symbol: Some("kospi200u6".into()),
        automatic: false,
        occurred_at_ms: 3,
    };
    let event = build_lifecycle_event(request.clone()).unwrap();
    assert_eq!(event.contract_symbol, "KOSPI200M6");
    assert_eq!(event.rollover_to_symbol.as_deref(), Some("KOSPI200U6"));
    assert_eq!(event.variation_margin_minor, -15);
    assert_eq!(lifecycle_kind_db(&event.kind), "manual_rollover");
    let same = FuturesLifecycleRequest { rollover_to_symbol: Some("kospi200m6".into()), ..request.clone() };
    assert!(build_lifecycle_event(same).is_err());
    let stray = FuturesLifecycleRequest { kind: FuturesLifecycleKind::DailySettlement, ..request };
    assert!(build_lifecycle_event(stray).is_err());
}

#[test]
fn long_and_short_pnl_are_symmetric() {
    assert_eq!(pnl(&position(FuturesSide::Long), 1100), Ok(50_000));
    assert_eq!(pnl(&position(FuturesSide::Short), 1100), Ok(-50_000));
}

#[test]
fn marks_liquidation_warning_below_maintenance_margin() {
    let events = vec![
        FuturesEvent::AccountOpened { initial_cash_minor: 100_000, occurred_at_ms: 1 },
        FuturesEvent::PositionOpened {
            request_id: "o1".into(),
            position: position(FuturesSide::Long),
            fee_minor: 0,
            occurred_at_ms: 2,
        },
        FuturesEvent::PositionMarked {
            request_id: "m1".into(),
            position_id: "p1".into(),
            mark_price_minor: 900,
            occurred_at_ms: 3,
        },
    ];
    let state = replay(&events).unwrap();
    assert!(state.positions[0].liquidation_warning);
    assert_eq!(state.positions[0].unrealized_pnl_minor, -50_000);
}

#[test]
fn validates_margin_ordering_and_contract_limit() {
    let request = OpenFuturesPositionRequest {
        request_id: "r1".into(),
        symbol: "KOSPI200".into(),
        name: "코스피200 선물".into(),
        kind: FuturesKind::Index,
        side: FuturesSide::Long,
        contracts: 101,
        entry_price_minor: 35000,
        price_scale: 100,
        contract_multiplier: 250_000,
        initial_margin_bps: 1000,
        maintenance_margin_bps: 1200,
        fee_minor: 0,
    };
    assert!(validate_open(&request).is_err());
    let fixed = OpenFuturesPositionRequest { contracts: 1, maintenance_margin_bps: 800, ..request };
    assert!(validate_open(&fixed).is_ok());
}

#[test]
fn replays_the_append_only_ledger_into_a_snapshot() {
    let events = vec![
        FuturesEvent::AccountOpened { initial_cash_minor: 100_000, occurred_at_ms: 1 },
        FuturesEvent::PositionOpened {
            request_id: "open-1".into(),
            position: FuturesPosition { opened_at_ms: 10, marked_at_ms: 10, ..position(FuturesSide::Long) },
            fee_minor: 100,
            occurred_at_ms: 10,
        },
        FuturesEvent::PositionMarked {
            request_id: "mark-1".into(),
            position_id: "p1".into(),
            mark_price_minor: 1_100,
            occurred_at_ms: 20,
        },
    ];
    let result = snapshot(&events).unwrap();
    assert_eq!(result.event_count, 3);
    assert_eq!(result.available_cash_minor, 24_900);
    assert_eq!(result.unrealized_pnl_minor, 50_000);
    assert_eq!(result.equity_minor, 149_900);
    assert!(!result.live_order_enabled);
}

#[test]
fn closing_releases_margin_with_realised_profit_and_refuses_unknown_positions() {
    let events = vec![
        FuturesEvent::AccountOpened { initial_cash_minor: 100_000, occurred_at_ms: 1 },
        FuturesEvent::PositionOpened {
            request_id: "open-1".into(),
            position: position(FuturesSide::Short),
            fee_minor: 100,
            occurred_at_ms: 2,
        },
        FuturesEvent::PositionClosed {
            request_id: "close-1".into(),
            position_id: "p1".into(),
            exit_price_minor: 990,
            fee_minor: 50,
            occurred_at_ms: 3,
        },
    ];
    let state = replay(&events).unwrap();
    assert!(state.positions.is_empty());
    // short from 1000 to 990: 10 * 250 * 2 = 5000 profit, less 50 in fees
    assert_eq!(state.available_cash_minor, 100_000 - 100 + 4_950);
    assert_eq!(state.realized_pnl_minor, -100 + 4_950);
    let unknown = vec![FuturesEvent::PositionClosed {
        request_id: "close-2".into(),
        position_id: "missing".into(),
        exit_price_minor: 990,
        fee_minor: 0,
        occurred_at_ms: 3,
    }];
    assert!(replay(&unknown).is_err());
    let reopened = vec![
        FuturesEvent::AccountOpened { initial_cash_minor: 1, occurred_at_ms: 1 },
        FuturesEvent::AccountOpened { initial_cash_minor: 1, occurred_at_ms: 2 },
    ];
    assert!(replay(&reopened).is_err());
}

#[test]
fn notional_and_margin_round_up() {
    assert_eq!(checked_notional(35_001, 250_000, 1, 100), Ok(87_502_500));
    assert_eq!(checked_notional(1, 1, 1, 3), Ok(1));
    assert!(checked_notional(1, 1, 1, 0).is_err());
    assert!(checked_notional(u64::MAX, u64::MAX, 2, 1).is_err());
    assert_eq!(margin(87_502_500, 1_000), Ok(8_750_250));
    assert_eq!(margin(1, 1), Ok(1));
}

fn open_request(request_id: &str) -> OpenFuturesPositionRequest {
    OpenFuturesPositionRequest {
        request_id: request_id.into(),
        symbol: " kospi200 ".into(),
        name: " 코스피200 선물 ".into(),
        kind: FuturesKind::Index,
        side: FuturesSide::Long,
        contracts: 2,
        entry_price_minor: 1_000,
        price_scale: 1,
        contract_multiplier: 250,
        initial_margin_bps: 1_500,
        maintenance_margin_bps: 1_000,
        fee_minor: 100,
    }
}

#[test]
fn requests_plan_append_only_events_once_each() {
    let mut events = vec![FuturesEvent::AccountOpened { initial_cash_minor: 100_000, occurred_at_ms: 1 }];
    let opened = plan_open(&open_request("open-1"), &events, 10).unwrap().expect("new position");
    match &opened {
        FuturesEvent::PositionOpened { request_id, position, fee_minor, occurred_at_ms } => {
            assert_eq!(request_id, "open-1");
            assert_eq!(*fee_minor, 100);
            assert_eq!(*occurred_at_ms, 10);
            assert_eq!(position.position_id, "futures-open-1");
            assert_eq!(position.symbol, "KOSPI200");
            assert_eq!(position.name, "코스피200 선물");
            assert_eq!(position.reserved_margin_minor, 75_000);
            assert_eq!(position.maintenance_required_minor, 50_000);
        }
        other => panic!("unexpected event {other:?}"),
    }
    events.push(opened);
    assert!(plan_open(&open_request("open-1"), &events, 11).unwrap().is_none());

    let mark = MarkFuturesPositionRequest {
        request_id: "mark-1".into(),
        position_id: "futures-open-1".into(),
        mark_price_minor: 1_100,
    };
    let marked = plan_mark(&mark, &events, 20).unwrap().expect("mark");
    events.push(marked);
    assert!(plan_mark(&mark, &events, 21).unwrap().is_none());
    let missing = MarkFuturesPositionRequest { request_id: "mark-2".into(), position_id: "nope".into(), mark_price_minor: 1 };
    assert_eq!(plan_mark(&missing, &events, 22).unwrap_err(), "시가평가할 선물 포지션을 찾지 못했습니다.");

    let close = CloseFuturesPositionRequest {
        request_id: "close-1".into(),
        position_id: "futures-open-1".into(),
        exit_price_minor: 1_050,
        fee_minor: 100,
    };
    let closed = plan_close(&close, &events, 30).unwrap().expect("close");
    events.push(closed);
    assert!(log_computable(&events));
    let result = snapshot(&events).unwrap();
    assert_eq!(result.event_count, 4);
    assert!(result.positions.is_empty());
    assert!(plan_close(&close, &events, 31).unwrap().is_none());
    let again = CloseFuturesPositionRequest { request_id: "close-2".into(), ..close };
    assert_eq!(plan_close(&again, &events, 32).unwrap_err(), "청산할 선물 포지션을 찾지 못했습니다.");
}

#[test]
fn an_open_needs_cash_for_margin_and_fee() {
    let events = vec![FuturesEvent::AccountOpened { initial_cash_minor: 75_099, occurred_at_ms: 1 }];
    assert_eq!(
        plan_open(&open_request("open-1"), &events, 10).unwrap_err(),
        "선물 모의계좌의 가용현금이 개시증거금과 수수료보다 부족합니다."
    );
    let enough = vec![FuturesEvent::AccountOpened { initial_cash_minor: 75_100, occurred_at_ms: 1 }];
    assert!(plan_open(&open_request("open-1"), &enough, 10).unwrap().is_some());
    let bad = OpenFuturesPositionRequest { contracts: 0, ..open_request("open-2") };
    assert!(plan_open(&bad, &enough, 10).is_err());
    assert_eq!(
        plan_mark(
            &MarkFuturesPositionRequest { request_id: "m 1".into(), position_id: "p".into(), mark_price_minor: 1 },
            &enough,
            1
        )
        .unwrap_err(),
        "시가평가 요청 ID와 가격을 확인해 주세요."
    );
}

#[test]
fn a_log_with_unbounded_profit_is_refused_before_replay() {
    let mut huge = position(FuturesSide::Long);
    huge.contract_multiplier = u64::MAX;
    huge.contracts = 100;
    let events = vec![
        FuturesEvent::AccountOpened { initial_cash_minor: 1, occurred_at_ms: 1 },
        FuturesEvent::PositionOpened { request_id: "o".into(), position: huge, fee_minor: 0, occurred_at_ms: 2 },
        FuturesEvent::PositionMarked {
            request_id: "m".into(),
            position_id: "p1".into(),
            mark_price_minor: u64::MAX,
            occurred_at_ms: 3,
        },
    ];
    assert!(!log_computable(&events));
}

#[test]
fn persists_and_replays_the_append_only_futures_ledger() {
    // The store appends these rows in order; the replay reads them back.
    let opened_at = 10;
    let events = vec![
        FuturesEvent::AccountOpened { initial_cash_minor: 100_000, occurred_at_ms: 1 },
        FuturesEvent::PositionOpened {
            request_id: "open-1".into(),
            position: FuturesPosition { opened_at_ms: opened_at, marked_at_ms: opened_at, ..position(FuturesSide::Long) },
            fee_minor: 100,
            occurred_at_ms: opened_at,
        },
        FuturesEvent::PositionMarked {
            request_id: "mark-1".into(),
            position_id: "p1".into(),
            mark_price_minor: 1_100,
            occurred_at_ms: 20,
        },
    ];
    assert!(log_computable(&events));
    let result = snapshot(&events).unwrap();
    assert_eq!(result.event_count, 3);
    assert_eq!(result.available_cash_minor, 24_900);
    assert_eq!(result.unrealized_pnl_minor, 50_000);
    assert_eq!(result.equity_minor, 149_900);
}

#[test]
fn a_position_is_held_only_to_its_own_marks_and_exits() {
    let big = FuturesPosition {
        position_id: "big".into(),
        entry_price_minor: 1,
        contract_multiplier: 1 << 63,
        price_scale: 1 << 63,
        contracts: 4,
        ..position(FuturesSide::Long)
    };
    let mut events = vec![
        FuturesEvent::AccountOpened { initial_cash_minor: 100_000, occurred_at_ms: 1 },
        FuturesEvent::PositionOpened { request_id: "open-big".into(), position: big, fee_minor: 0, occurred_at_ms: 2 },
        FuturesEvent::PositionOpened { request_id: "open-p1".into(), position: position(FuturesSide::Long), fee_minor: 0, occurred_at_ms: 3 },
        FuturesEvent::PositionMarked {
            request_id: "mark-p1".into(),
            position_id: "p1".into(),
            mark_price_minor: 1 << 63,
            occurred_at_ms: 4,
        },
    ];
    assert!(log_computable(&events));
    events.push(FuturesEvent::PositionMarked {
        request_id: "mark-big".into(),
        position_id: "big".into(),
        mark_price_minor: 1 << 63,
        occurred_at_ms: 5,
    });
    assert!(!log_computable(&events));
}

#[test]
fn an_open_too_large_to_price_is_refused_by_name() {
    let events = vec![FuturesEvent::AccountOpened { initial_cash_minor: 100_000, occurred_at_ms: 1 }];
    let huge = OpenFuturesPositionRequest {
        entry_price_minor: u64::MAX,
        contract_multiplier: u64::MAX,
        ..open_request("open-3")
    };
    assert_eq!(plan_open(&huge, &events, 10).unwrap_err(), "계약 명목금액이 지원 범위를 초과했습니다.");
    let bad = OpenFuturesPositionRequest { contracts: 0, ..open_request("open-2") };
    assert_eq!(
        plan_open(&bad, &events, 10).unwrap_err(),
        "상품명·계약 수·가격·계약승수의 허용 범위를 확인해 주세요."
    );
}

fn lifecycle(previous: u64, settlement: u64, multiplier: u64, event_id: &str) -> FuturesLifecycleRequest {
    FuturesLifecycleRequest {
        event_id: event_id.into(),
        request_id: "request-1".into(),
        contract_symbol: "KOSPI200M6".into(),
        kind: FuturesLifecycleKind::DailySettlement,
        previous_settlement_price_minor: previous,
        settlement_price_minor: settlement,
        contracts: u32::MAX,
        contract_multiplier: multiplier,
        price_scale: 1,
        rollover_to_symbol: None,
        automatic: false,
        occurred_at_ms: 1,
    }
}

#[test]
fn a_lifecycle_variation_that_overflows_is_caught_before_it_is_computed() {
    assert!(lifecycle_arithmetic_fits(&lifecycle(1, 2, 250, "settle-1")));
    assert!(!lifecycle_arithmetic_fits(&lifecycle(1, u64::MAX, u64::MAX, "settle-1")));
    assert!(lifecycle_arithmetic_fits(&lifecycle(1, u64::MAX, u64::MAX, "bad id")));
    let too_large = lifecycle(1, u64::MAX, 1, "settle-2");
    assert!(lifecycle_arithmetic_fits(&too_large));
    assert_eq!(
        build_lifecycle_event(too_large).unwrap_err(),
        "일일정산 변동증거금이 지원 범위를 초과했습니다."
    );
}

#[test]
fn a_log_that_cannot_be_replayed_names_its_first_refused_event() {
    let unknown = vec![FuturesEvent::PositionClosed {
        request_id: "close-2".into(),
        position_id: "missing".into(),
        exit_price_minor: 990,
        fee_minor: 0,
        occurred_at_ms: 3,
    }];
    assert_eq!(replay(&unknown).unwrap_err(), "존재하지 않는 선물 포지션의 청산 사건입니다.");
    let reopened = vec![
        FuturesEvent::AccountOpened { initial_cash_minor: 1, occurred_at_ms: 1 },
        FuturesEvent::AccountOpened { initial_cash_minor: 1, occurred_at_ms: 2 },
    ];
    assert_eq!(replay(&reopened).unwrap_err(), "선물 모의계좌 개설 사건이 중복됐습니다.");
    assert_eq!(snapshot(&reopened).unwrap_err(), "선물 모의계좌 개설 사건이 중복됐습니다.");
}

#[test]
fn a_snapshot_totals_reserved_margin_before_unrealized_profit() {
    let mut first = position(FuturesSide::Long);
    first.reserved_margin_minor = u64::MAX;
    first.unrealized_pnl_minor = i64::MAX;
    let mut second = position(FuturesSide::Long);
    second.position_id = "p2".into();
    second.reserved_margin_minor = 1;
    second.unrealized_pnl_minor = 1;
    let opened = |p: FuturesPosition, id: &str| FuturesEvent::PositionOpened {
        request_id: id.into(),
        position: p,
        fee_minor: 0,
        occurred_at_ms: 2,
    };
    let events = vec![
        FuturesEvent::AccountOpened { initial_cash_minor: 100_000, occurred_at_ms: 1 },
        opened(first.clone(), "open-1"),
        opened(second.clone(), "open-2"),
    ];
    assert!(log_computable(&events));
    assert_eq!(snapshot(&events).unwrap_err(), "예약 증거금 합계가 범위를 초과했습니다.");
    first.reserved_margin_minor = 1;
    let events = vec![
        FuturesEvent::AccountOpened { initial_cash_minor: 100_000, occurred_at_ms: 1 },
        opened(first, "open-1"),
        opened(second, "open-2"),
    ];
    assert_eq!(snapshot(&events).unwrap_err(), "미실현손익 합계가 범위를 초과했습니다.");
    let mut third = position(FuturesSide::Long);
    third.position_id = "p3".into();
    third.reserved_margin_minor = u64::MAX;
    let mut events = events;
    events.push(opened(third, "open-3"));
    assert_eq!(snapshot(&events).unwrap_err(), "예약 증거금 합계가 범위를 초과했습니다.");
}
