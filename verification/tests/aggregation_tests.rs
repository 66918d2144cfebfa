use investa::aggregation::{
    aggregate_completed_minute_bars, aggregate_ticks_to_one_minute, bar_from_tick, floor_to_interval,
    merge_bars, NormalizedMarketTick, MINUTE_MS,
};

fn tick(minute: u64, offset_ms: u64, sequence: u64, price: u64, quantity: u64) -> NormalizedMarketTick {
    let event_at_ms = minute * MINUTE_MS + offset_ms;
    NormalizedMarketTick {
        provider: "TEST_STREAM".to_owned(),
        asset_class: "crypto_spot".to_owned(),
        symbol: "KRW-BTC".to_owned(),
        currency: "KRW".to_owned(),
        event_at_ms,
        received_at_ms: event_at_ms + 10,
        sequence: Some(sequence),
        price_minor: price,
        quantity_base_units: quantity,
        quantity_scale: 100_000_000,
    }
}

#[test]
fn aggregates_ticks_into_completed_ohlcv_without_using_partial_bar() {
    let ticks = vec![
        tick(10, 1_000, 1, 100, 2),
        tick(10, 20_000, 2, 120, 3),
        tick(10, 50_000, 3, 90, 5),
        tick(11, 1_000, 4, 110, 7),
    ];
    let result = aggregate_ticks_to_one_minute(&ticks, 11 * MINUTE_MS + 30_000).unwrap();
    assert_eq!(result.completed_bars.len(), 1);
    assert_eq!(result.partial_bar.as_ref().unwrap().period_start_ms, 11 * MINUTE_MS);
    let bar = &result.completed_bars[0];
    assert_eq!((bar.open_minor, bar.high_minor, bar.low_minor, bar.close_minor), (100, 120, 90, 90));
    assert_eq!(bar.volume_base_units, 10);
    assert_eq!(bar.source_count, 3);
    assert_eq!(bar.available_at_ms, bar.period_end_ms);
}

#[test]
fn records_missing_minutes_without_fabricating_flat_bars() {
    let ticks = vec![tick(1, 1, 1, 100, 1), tick(4, 1, 2, 110, 1)];
    let result = aggregate_ticks_to_one_minute(&ticks, 5 * MINUTE_MS).unwrap();
    assert_eq!(result.completed_bars.len(), 2);
    assert_eq!(result.gaps.len(), 1);
    assert_eq!(result.gaps[0].missing_unit_count, 2);
}

#[test]
fn rejects_duplicate_regressing_future_and_mixed_ticks() {
    let first = tick(1, 1, 1, 100, 1);
    assert!(aggregate_ticks_to_one_minute(&vec![first.clone(), first.clone()], 2 * MINUTE_MS).is_err());
    assert!(aggregate_ticks_to_one_minute(&vec![tick(2, 1, 2, 100, 1), tick(1, 1, 3, 100, 1)], 3 * MINUTE_MS).is_err());
    assert!(aggregate_ticks_to_one_minute(&vec![tick(1, 1, 2, 100, 1), tick(1, 2, 1, 100, 1)], 2 * MINUTE_MS).is_err());
    assert!(aggregate_ticks_to_one_minute(&vec![tick(3, 1, 1, 100, 1)], 2 * MINUTE_MS).is_err());
    let mut future_receive = tick(1, 1, 1, 100, 1);
    future_receive.received_at_ms = 3 * MINUTE_MS;
    assert!(aggregate_ticks_to_one_minute(&vec![future_receive], 2 * MINUTE_MS).is_err());
    let mut mixed = tick(1, 2, 2, 101, 1);
    mixed.symbol = "KRW-ETH".to_owned();
    assert!(aggregate_ticks_to_one_minute(&vec![first, mixed], 2 * MINUTE_MS).is_err());
}

#[test]
fn builds_only_fully_aligned_higher_timeframe_bars() {
    let ticks = (0..15).map(|minute| tick(minute, 1, minute + 1, 100 + minute, 1)).collect::<Vec<_>>();
    let one_minute = aggregate_ticks_to_one_minute(&ticks, 15 * MINUTE_MS).unwrap().completed_bars;
    let (five_minute, gaps) = aggregate_completed_minute_bars(&one_minute, 5).unwrap();
    assert_eq!(five_minute.len(), 3);
    assert!(gaps.is_empty());
    assert_eq!(five_minute[0].open_minor, 100);
    assert_eq!(five_minute[0].close_minor, 104);
    assert_eq!(five_minute[0].source_count, 5);
}

#[test]
fn refuses_to_emit_a_higher_bar_when_one_minute_is_missing() {
    let ticks = [0, 1, 3, 4]
        .into_iter()
        .enumerate()
        .map(|(index, minute)| tick(minute, 1, index as u64 + 1, 100 + minute, 1))
        .collect::<Vec<_>>();
    let one_minute = aggregate_ticks_to_one_minute(&ticks, 5 * MINUTE_MS).unwrap().completed_bars;
    let (five_minute, gaps) = aggregate_completed_minute_bars(&one_minute, 5).unwrap();
    assert!(five_minute.is_empty());
    assert!(gaps.iter().any(|gap| gap.missing_unit_count == 1));
}

#[test]
fn supports_the_declared_upper_minute_intervals_and_rejects_others() {
    let one_minute = aggregate_ticks_to_one_minute(&vec![tick(0, 1, 1, 100, 1)], MINUTE_MS).unwrap().completed_bars;
    for interval in [3, 5, 15, 30, 60, 240] {
        assert!(aggregate_completed_minute_bars(&one_minute, interval).is_ok());
    }
    for interval in [0, 1, 2, 120] {
        assert!(aggregate_completed_minute_bars(&one_minute, interval).is_err());
    }
}

#[test]
fn detects_volume_overflow_in_tick_and_higher_bar_aggregation() {
    let ticks = vec![tick(0, 1, 1, 100, u64::MAX), tick(0, 2, 2, 100, 1)];
    assert!(aggregate_ticks_to_one_minute(&ticks, MINUTE_MS).is_err());

    let first = bar_from_tick(&tick(0, 1, 1, 100, u64::MAX), 1).unwrap();
    let second = bar_from_tick(&tick(1, 1, 2, 100, 1), 1).unwrap();
    let third = bar_from_tick(&tick(2, 1, 3, 100, 1), 1).unwrap();
    assert!(aggregate_completed_minute_bars(&vec![first, second, third], 3).is_err());
}

#[test]
fn rejects_misaligned_or_overflowing_completed_minute_bars() {
    let valid = bar_from_tick(&tick(0, 1, 1, 100, 1), 1).unwrap();
    let mut misaligned = valid.clone();
    misaligned.period_start_ms = 1;
    misaligned.period_end_ms = MINUTE_MS + 1;
    assert!(aggregate_completed_minute_bars(&vec![misaligned], 3).is_err());

    let mut overflowing = valid;
    overflowing.period_start_ms = u64::MAX;
    overflowing.period_end_ms = u64::MAX;
    assert!(aggregate_completed_minute_bars(&vec![overflowing], 3).is_err());
}

#[test]
fn tick_volume_and_count_are_conserved_across_minute_bars() {
    let ticks = vec![
        tick(2, 5, 1, 100, 4),
        tick(2, 59_000, 2, 101, 6),
        tick(3, 0, 3, 99, 1),
        tick(6, 30, 4, 98, 9),
    ];
    let result = aggregate_ticks_to_one_minute(&ticks, 10 * MINUTE_MS).unwrap();
    let volume: u64 = result.completed_bars.iter().map(|bar| bar.volume_base_units).sum();
    let count: u32 = result.completed_bars.iter().map(|bar| bar.source_count).sum();
    assert_eq!(volume, 20);
    assert_eq!(count, 4);
    assert!(result.partial_bar.is_none());
    assert!(result.completed_bars.iter().all(|bar| bar.period_end_ms <= 10 * MINUTE_MS));
    assert_eq!(result.gaps.len(), 1);
    assert_eq!(result.gaps[0].missing_unit_count, 2);
    assert_eq!(result.gaps[0].reason, "관측 Tick이 없는 1분 구간");
}

#[test]
fn higher_timeframe_gaps_are_ordered_and_keep_their_reasons() {
    let ticks = [0, 1, 2, 4, 6, 7, 8]
        .into_iter()
        .enumerate()
        .map(|(index, minute)| tick(minute, 1, index as u64 + 1, 100 + minute, 1))
        .collect::<Vec<_>>();
    let one_minute = aggregate_ticks_to_one_minute(&ticks, 9 * MINUTE_MS).unwrap().completed_bars;
    let (three_minute, gaps) = aggregate_completed_minute_bars(&one_minute, 3).unwrap();
    assert_eq!(three_minute.len(), 2);
    assert_eq!((three_minute[0].period_start_ms, three_minute[0].period_end_ms), (0, 3 * MINUTE_MS));
    assert_eq!(three_minute[1].period_start_ms, 6 * MINUTE_MS);
    let spans = gaps
        .iter()
        .map(|gap| (gap.period_start_ms, gap.period_end_ms, gap.missing_unit_count, gap.reason.as_str()))
        .collect::<Vec<_>>();
    assert_eq!(
        spans,
        vec![
            (3 * MINUTE_MS, 4 * MINUTE_MS, 1, "원천 1분봉 누락"),
            (3 * MINUTE_MS, 6 * MINUTE_MS, 2, "3분봉 생성에 필요한 완료 1분봉이 부족합니다."),
            (5 * MINUTE_MS, 6 * MINUTE_MS, 1, "원천 1분봉 누락"),
        ]
    );
}

#[test]
fn merged_bar_takes_first_open_last_close_and_extremes() {
    let bars = vec![
        bar_from_tick(&tick(0, 1, 1, 100, 2), 1).unwrap(),
        bar_from_tick(&tick(1, 1, 2, 130, 3), 1).unwrap(),
        bar_from_tick(&tick(2, 1, 3, 90, 5), 1).unwrap(),
    ];
    let merged = merge_bars(&bars, 0, 3, 3, 0, 3 * MINUTE_MS).unwrap();
    assert_eq!((merged.open_minor, merged.high_minor, merged.low_minor, merged.close_minor), (100, 130, 90, 90));
    assert_eq!(merged.volume_base_units, 10);
    assert_eq!(merged.source_count, 3);
    assert_eq!(merged.available_at_ms, 3 * MINUTE_MS);
    assert!(merge_bars(&bars, 1, 1, 3, 0, 3 * MINUTE_MS).is_err());
}

#[test]
fn floors_timestamps_to_their_bucket() {
    assert_eq!(floor_to_interval(5 * MINUTE_MS + 59_999, 5 * MINUTE_MS), 5 * MINUTE_MS);
    assert_eq!(floor_to_interval(299_999, 300_000), 0);
    assert_eq!(floor_to_interval(17, 1), 17);
}

#[test]
fn a_refused_tick_batch_names_its_first_issue() {
    let first = tick(1, 1, 1, 100, 1);
    assert_eq!(
        aggregate_ticks_to_one_minute(&vec![first.clone(), first.clone()], 2 * MINUTE_MS).unwrap_err(),
        "Tick 공급자 순번이 중복되거나 역행했습니다."
    );
    let mut unsequenced = first.clone();
    unsequenced.sequence = None;
    assert_eq!(
        aggregate_ticks_to_one_minute(&vec![unsequenced.clone(), unsequenced], 2 * MINUTE_MS).unwrap_err(),
        "동일한 Tick이 중복 입력됐습니다."
    );
    assert_eq!(
        aggregate_ticks_to_one_minute(&vec![tick(2, 1, 2, 100, 1), tick(1, 1, 3, 100, 1)], 3 * MINUTE_MS)
            .unwrap_err(),
        "Tick 이벤트 시각이 역행했습니다."
    );
    let mut mixed = tick(1, 2, 2, 101, 1);
    mixed.symbol = "KRW-ETH".to_owned();
    assert_eq!(
        aggregate_ticks_to_one_minute(&vec![first.clone(), mixed], 2 * MINUTE_MS).unwrap_err(),
        "서로 다른 공급자·자산·종목·통화·수량 단위 Tick을 함께 집계할 수 없습니다."
    );
    assert_eq!(
        aggregate_ticks_to_one_minute(&vec![tick(3, 1, 1, 100, 1)], 2 * MINUTE_MS).unwrap_err(),
        "Tick의 식별자·가격·수량·시각 계약이 올바르지 않습니다."
    );
}

#[test]
fn refused_one_minute_input_names_its_first_issue() {
    let ticks = (0..3).map(|minute| tick(minute, 1, minute + 1, 100, 1)).collect::<Vec<_>>();
    let bars = aggregate_ticks_to_one_minute(&ticks, 3 * MINUTE_MS).unwrap().completed_bars;
    assert_eq!(
        aggregate_completed_minute_bars(&bars, 2).unwrap_err(),
        "상위 봉 주기는 3·5·15·30·60·240분 중 하나여야 합니다."
    );
    let reversed = vec![bars[1].clone(), bars[0].clone()];
    assert_eq!(
        aggregate_completed_minute_bars(&reversed, 3).unwrap_err(),
        "1분봉이 중복되거나 시각이 역행했습니다."
    );
    let mut other = bars[1].clone();
    other.symbol = "KRW-ETH".to_owned();
    assert_eq!(
        aggregate_completed_minute_bars(&vec![bars[0].clone(), other], 3).unwrap_err(),
        "서로 다른 원천의 1분봉을 함께 집계할 수 없습니다."
    );
    let mut open = bars[0].clone();
    open.period_end_ms += 1;
    assert_eq!(
        aggregate_completed_minute_bars(&vec![open], 3).unwrap_err(),
        "상위 봉 입력에는 유효한 완료 1분봉만 사용할 수 있습니다."
    );
    let mut last = bars[0].clone();
    last.period_start_ms = u64::MAX - 1_000;
    assert_eq!(
        aggregate_completed_minute_bars(&vec![last], 3).unwrap_err(),
        "1분봉 종료 시각이 지원 범위를 초과했습니다."
    );
}

#[test]
fn merged_volume_is_judged_before_merged_tick_counts() {
    let mut a = bar_from_tick(&tick(0, 1, 1, 100, 1), 1).unwrap();
    a.source_count = u32::MAX;
    let b = bar_from_tick(&tick(1, 1, 2, 100, 1), 1).unwrap();
    let c = bar_from_tick(&tick(2, 1, 3, 100, u64::MAX), 1).unwrap();
    let bars = vec![a.clone(), b.clone(), c];
    assert_eq!(
        merge_bars(&bars, 0, 3, 3, 0, 3 * MINUTE_MS).unwrap_err(),
        "상위 봉 거래량 합계가 지원 범위를 초과했습니다."
    );
    assert_eq!(
        merge_bars(&bars, 0, 2, 3, 0, 3 * MINUTE_MS).unwrap_err(),
        "상위 봉 원천 Tick 수가 지원 범위를 초과했습니다."
    );
    assert_eq!(merge_bars(&bars, 1, 1, 3, 0, 3 * MINUTE_MS).unwrap_err(), "집계할 1분봉이 없습니다.");
    let merged = merge_bars(&vec![b.clone(), b], 0, 2, 3, 0, 3 * MINUTE_MS).unwrap();
    assert_eq!(merged.source_count, 2);
    assert_eq!(merged.volume_base_units, 2);
}
