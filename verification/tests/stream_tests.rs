use investa::aggregation::MINUTE_MS;
use investa::stream::{
    aggregation_status, apply_official_gap_backfill, begin_gap_backfill, complete_gap_backfill,
    decimal_to_units, end_gap_backfill, flush_streams, ingest_stream_tick, normalize_stream_tick,
    official_provider_for_stream, plan_gap_backfill, rounded_rescale, stream_identity,
    CheckpointStore, MarketAggregationBridge, MarketStreamTickInput, OfficialMinuteBar,
    MarketGapBackfillRequest, PitOfficialProvider, QUANTITY_SCALE,
};

fn stream_input(event_at_ms: u64, sequence: u64, price: &str, quantity: &str) -> MarketStreamTickInput {
    MarketStreamTickInput {
        stream_id: "upbit_spot".to_owned(),
        provider: "Upbit".to_owned(),
        asset_class: "crypto_spot".to_owned(),
        symbol: "KRW-BTC".to_owned(),
        currency: "KRW".to_owned(),
        event_at_ms,
        received_at_ms: event_at_ms + 10,
        sequence: Some(sequence),
        price: price.to_owned(),
        quantity: quantity.to_owned(),
    }
}

fn official_minute_bar(minute: u64, price: i64, ingested_at_ms: u64) -> OfficialMinuteBar {
    OfficialMinuteBar {
        period_start_ms: minute * MINUTE_MS,
        period_end_ms: (minute + 1) * MINUTE_MS,
        available_at_ms: (minute + 1) * MINUTE_MS,
        ingested_at_ms,
        open_scaled: price * 100_000_000,
        high_scaled: (price + 2) * 100_000_000,
        low_scaled: (price - 2) * 100_000_000,
        close_scaled: (price + 1) * 100_000_000,
        volume_scaled: 100_000_000,
        price_scale: 100_000_000,
        quantity_scale: QUANTITY_SCALE,
    }
}

fn runtime_with_gap() -> (MarketAggregationBridge, CheckpointStore) {
    let mut store = CheckpointStore::new();
    let mut runtime = MarketAggregationBridge::new();
    ingest_stream_tick(&mut runtime, &mut store, stream_input(MINUTE_MS + 1_000, 1, "100", "0.1"))
        .expect("first minute");
    ingest_stream_tick(&mut runtime, &mut store, stream_input(4 * MINUTE_MS + 1_000, 2, "110", "0.1"))
        .expect("gap minute");
    (runtime, store)
}

#[test]
fn official_rest_backfill_repairs_only_the_recorded_gap() {
    let (runtime, _store) = runtime_with_gap();
    let mut state = runtime.state("upbit_spot").expect("state");
    assert_eq!(state.gaps[0].missing_unit_count, 2);
    let inserted = apply_official_gap_backfill(
        &mut state,
        2 * MINUTE_MS,
        4 * MINUTE_MS,
        vec![
            official_minute_bar(2, 102, 5 * MINUTE_MS),
            official_minute_bar(3, 105, 5 * MINUTE_MS),
        ],
    )
    .expect("backfill");
    assert_eq!(inserted, 2);
    assert!(state.gaps.is_empty());
    assert_eq!(state.completed_minute_bars.len(), 3);
    assert_eq!(state.completed_minute_bars[1].open_minor, 102);
    assert_eq!(state.completed_minute_bars[2].close_minor, 106);
    assert_eq!(state.last_sequence, Some(2));
}

#[test]
fn official_rest_backfill_rejects_bars_outside_the_gap_or_observation_time() {
    let (runtime, _store) = runtime_with_gap();
    let mut state = runtime.state("upbit_spot").expect("state");
    assert!(apply_official_gap_backfill(
        &mut state,
        2 * MINUTE_MS,
        4 * MINUTE_MS,
        vec![official_minute_bar(1, 100, 5 * MINUTE_MS)],
    )
    .is_err());
    assert!(apply_official_gap_backfill(
        &mut state,
        2 * MINUTE_MS,
        4 * MINUTE_MS,
        vec![official_minute_bar(2, 102, 2 * MINUTE_MS)],
    )
    .is_err());
    assert_eq!(state.gaps[0].missing_unit_count, 2);
}

#[test]
fn official_rest_backfill_rejects_overlap_and_request_bursts() {
    let mut runtime = MarketAggregationBridge::new();
    begin_gap_backfill(&mut runtime, "upbit_spot", 10_000).expect("first attempt");
    assert!(begin_gap_backfill(&mut runtime, "upbit_spot", 10_001)
        .err()
        .expect("overlap")
        .contains("진행 중"));
    end_gap_backfill(&mut runtime, "upbit_spot");
    assert!(begin_gap_backfill(&mut runtime, "upbit_spot", 11_999)
        .err()
        .expect("rate limit")
        .contains("2초"));
    assert!(begin_gap_backfill(&mut runtime, "upbit_spot", 12_000).is_ok());
}

#[test]
fn stateful_stream_ingestion_restores_partial_and_completed_bars() {
    let mut store = CheckpointStore::new();
    let mut first_runtime = MarketAggregationBridge::new();
    let first = ingest_stream_tick(&mut first_runtime, &mut store, stream_input(1_000, 1, "100000000", "0.1"))
        .expect("first tick");
    assert!(first.completed_minute_bars.is_empty());
    assert_eq!(first.partial_bar.expect("partial").source_count, 1);

    let second = ingest_stream_tick(
        &mut first_runtime,
        &mut store,
        stream_input(MINUTE_MS + 1_000, 2, "100000100", "0.2"),
    )
    .expect("next minute");
    assert_eq!(second.completed_minute_bars.len(), 1);

    let mut restored_runtime = MarketAggregationBridge::new();
    let restored = ingest_stream_tick(
        &mut restored_runtime,
        &mut store,
        stream_input(MINUTE_MS + 2_000, 3, "100000200", "0.3"),
    )
    .expect("restored tick");
    assert!(restored.restored_from_checkpoint);
    assert_eq!(restored.partial_bar.expect("restored partial").source_count, 2);

    let flushed = flush_streams(&mut restored_runtime, &mut store, 2 * MINUTE_MS)
        .expect("flush completed minute");
    assert_eq!(flushed.len(), 1);
    assert_eq!(flushed[0].completed_minute_bars.len(), 1);
}

#[test]
fn stateful_stream_rejects_duplicate_sequence_and_unsupported_precision() {
    let mut store = CheckpointStore::new();
    let mut runtime = MarketAggregationBridge::new();
    ingest_stream_tick(&mut runtime, &mut store, stream_input(1_000, 1, "100000000", "0.1"))
        .expect("first tick");
    assert!(ingest_stream_tick(&mut runtime, &mut store, stream_input(2_000, 1, "100000001", "0.1"))
        .expect_err("duplicate sequence")
        .contains("중복"));

    let mut invalid = stream_input(3_000, 2, "100000000.1", "0.1");
    invalid.currency = "KRW".to_owned();
    assert!(normalize_stream_tick(invalid)
        .expect_err("KRW precision")
        .contains("정밀도"));
}

#[test]
fn flush_restores_a_saved_partial_before_any_new_tick_arrives() {
    let mut store = CheckpointStore::new();
    let mut first_runtime = MarketAggregationBridge::new();
    ingest_stream_tick(&mut first_runtime, &mut store, stream_input(1_000, 1, "100000000", "0.1"))
        .expect("partial checkpoint");

    let mut restarted_runtime = MarketAggregationBridge::new();
    let updates = flush_streams(&mut restarted_runtime, &mut store, MINUTE_MS).expect("restart flush");
    assert_eq!(updates.len(), 1);
    assert_eq!(updates[0].completed_minute_bars.len(), 1);
    assert!(updates[0].partial_bar.is_none());
}

#[test]
fn decimal_strings_convert_to_exact_units() {
    assert_eq!(decimal_to_units(" 0.1 ", QUANTITY_SCALE, "수량"), Ok(10_000_000));
    assert_eq!(decimal_to_units("12.3400", 100, "가격"), Ok(1_234));
    assert_eq!(decimal_to_units("7", 1, "가격"), Ok(7));
    assert_eq!(
        decimal_to_units("-1", 1, "가격").unwrap_err(),
        "가격은 0보다 큰 일반 소수 문자열이어야 합니다."
    );
    assert_eq!(decimal_to_units("1e3", 1, "가격").unwrap_err(), "가격은 0보다 큰 일반 소수 문자열이어야 합니다.");
    assert_eq!(decimal_to_units(".5", 100, "가격").unwrap_err(), "가격 소수 형식이 올바르지 않습니다.");
    assert_eq!(decimal_to_units("1.2.3", 100, "가격").unwrap_err(), "가격 소수 형식이 올바르지 않습니다.");
    assert_eq!(decimal_to_units("1", 30, "가격").unwrap_err(), "가격 단위는 10의 거듭제곱이어야 합니다.");
    assert_eq!(
        decimal_to_units("1.001", 100, "가격").unwrap_err(),
        "가격의 소수 정밀도가 지원 단위를 초과했습니다."
    );
    assert_eq!(
        decimal_to_units("99999999999999999999", 1, "가격").unwrap_err(),
        "가격 정수부가 지원 범위를 초과했습니다."
    );
    assert_eq!(
        decimal_to_units("200000000000", QUANTITY_SCALE, "수량").unwrap_err(),
        "수량 값이 지원 범위를 초과했습니다."
    );
    assert_eq!(decimal_to_units("0.00", 100, "가격").unwrap_err(), "가격은 0보다 커야 합니다.");
}

#[test]
fn stream_ids_carry_fixed_sources_and_official_providers() {
    assert_eq!(stream_identity("binance_coinm"), Ok(("Binance", "crypto_futures", "BTCUSD_PERP", "USD")));
    assert!(stream_identity("kraken").is_err());
    assert_eq!(official_provider_for_stream("binance_usdm"), Ok(PitOfficialProvider::BinanceUsdm));
    assert!(official_provider_for_stream("kraken").is_err());
}

#[test]
fn official_prices_rescale_with_half_up_rounding() {
    assert_eq!(rounded_rescale(10_250, 100, 1), Ok(103));
    assert_eq!(rounded_rescale(10_249, 100, 1), Ok(102));
    assert!(rounded_rescale(-1, 100, 1).is_err());
    assert!(rounded_rescale(100, 30, 100).is_err());
    assert!(rounded_rescale(40, 100, 1).is_err());
}

#[test]
fn planned_repair_completes_and_is_saved() {
    let (mut runtime, mut store) = runtime_with_gap();
    let plan = plan_gap_backfill(&store, &MarketGapBackfillRequest { stream_id: " upbit_spot ".to_owned() }).expect("plan");
    assert_eq!(plan.period_start_ms, 2 * MINUTE_MS);
    assert_eq!(plan.period_end_ms, 4 * MINUTE_MS);
    let result = complete_gap_backfill(
        &mut runtime,
        &mut store,
        plan,
        vec![
            official_minute_bar(2, 102, 5 * MINUTE_MS),
            official_minute_bar(3, 105, 5 * MINUTE_MS),
        ],
        "official".to_owned(),
    )
    .expect("complete");
    assert_eq!(result.inserted_bar_count, 2);
    assert_eq!(result.remaining_gap_count, 0);
    assert!(!result.live_order_allowed);
    let status = aggregation_status(&store).expect("status");
    assert_eq!(status.len(), 1);
    assert_eq!(status[0].retained_minute_bar_count, 3);
    assert_eq!(status[0].gap_count, 0);
}

#[test]
fn ingest_refuses_a_tick_from_another_source() {
    let mut store = CheckpointStore::new();
    let mut runtime = MarketAggregationBridge::new();
    let mut input = stream_input(1_000, 1, "100", "0.1");
    input.symbol = "KRW-ETH".to_owned();
    assert_eq!(
        ingest_stream_tick(&mut runtime, &mut store, input).unwrap_err(),
        "스트림 ID와 공급자·자산·종목·통화 계약이 일치하지 않습니다."
    );
    assert!(flush_streams(&mut runtime, &mut store, 0).is_err());
}
