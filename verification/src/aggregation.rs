//! Tick-to-bar aggregation: one-minute OHLCV bars from point-in-time trade
//! ticks, aligned higher-timeframe bars from completed one-minute bars, and the
//! gaps where no data was observed (never filled with fabricated flat bars).
use vstd::prelude::*;
use crate::text::{all_ws, concat_str, decimal, decimal_string, is_blank, str_eq};

verus! {

pub const MINUTE_MS: u64 = 60_000;

#[derive(Debug, Clone, PartialEq, Eq)]
pub struct NormalizedMarketTick {
    pub provider: String,
    pub asset_class: String,
    pub symbol: String,
    pub currency: String,
    pub event_at_ms: u64,
    pub received_at_ms: u64,
    pub sequence: Option<u64>,
    pub price_minor: u64,
    pub quantity_base_units: u64,
    pub quantity_scale: u64,
}

#[derive(Debug, Clone, PartialEq, Eq)]
pub struct CompletedMarketBar {
    pub provider: String,
    pub asset_class: String,
    pub symbol: String,
    pub currency: String,
    pub interval_minutes: u16,
    pub period_start_ms: u64,
    pub period_end_ms: u64,
    pub available_at_ms: u64,
    pub ingested_at_ms: u64,
    pub open_minor: u64,
    pub high_minor: u64,
    pub low_minor: u64,
    pub close_minor: u64,
    pub volume_base_units: u64,
    pub quantity_scale: u64,
    pub source_count: u32,
}

#[derive(Debug, Clone, PartialEq, Eq)]
pub struct MarketDataGap {
    pub period_start_ms: u64,
    pub period_end_ms: u64,
    pub missing_unit_count: u32,
    pub reason: String,
}

#[derive(Debug, Clone, PartialEq, Eq)]
pub struct TickAggregationResult {
    pub completed_bars: Vec<CompletedMarketBar>,
    pub partial_bar: Option<CompletedMarketBar>,
    pub gaps: Vec<MarketDataGap>,
}

/// The numeric span of a gap: start, end and number of missing units.
pub open spec fn gap_span(g: MarketDataGap) -> (u64, u64, u32) {
    (g.period_start_ms, g.period_end_ms, g.missing_unit_count)
}

pub open spec fn gap_spans(gaps: Seq<MarketDataGap>) -> Seq<(u64, u64, u32)> {
    gaps.map_values(|g: MarketDataGap| gap_span(g))
}

// ---------------------------------------------------------------- copies

pub fn copy_string(s: &String) -> (r: String)
    ensures
        r == *s,
{
    s.clone()
}

pub fn copy_bar(b: &CompletedMarketBar) -> (r: CompletedMarketBar)
    ensures
        r == *b,
{
    CompletedMarketBar {
        provider: copy_string(&b.provider),
        asset_class: copy_string(&b.asset_class),
        symbol: copy_string(&b.symbol),
        currency: copy_string(&b.currency),
        interval_minutes: b.interval_minutes,
        period_start_ms: b.period_start_ms,
        period_end_ms: b.period_end_ms,
        available_at_ms: b.available_at_ms,
        ingested_at_ms: b.ingested_at_ms,
        open_minor: b.open_minor,
        high_minor: b.high_minor,
        low_minor: b.low_minor,
        close_minor: b.close_minor,
        volume_base_units: b.volume_base_units,
        quantity_scale: b.quantity_scale,
        source_count: b.source_count,
    }
}

pub fn copy_gap(g: &MarketDataGap) -> (r: MarketDataGap)
    ensures
        r == *g,
{
    MarketDataGap {
        period_start_ms: g.period_start_ms,
        period_end_ms: g.period_end_ms,
        missing_unit_count: g.missing_unit_count,
        reason: copy_string(&g.reason),
    }
}

pub fn copy_tick(t: &NormalizedMarketTick) -> (r: NormalizedMarketTick)
    ensures
        r == *t,
{
    NormalizedMarketTick {
        provider: copy_string(&t.provider),
        asset_class: copy_string(&t.asset_class),
        symbol: copy_string(&t.symbol),
        currency: copy_string(&t.currency),
        event_at_ms: t.event_at_ms,
        received_at_ms: t.received_at_ms,
        sequence: t.sequence,
        price_minor: t.price_minor,
        quantity_base_units: t.quantity_base_units,
        quantity_scale: t.quantity_scale,
    }
}

pub fn copy_bars(v: &Vec<CompletedMarketBar>) -> (r: Vec<CompletedMarketBar>)
    ensures
        r@ == v@,
{
    let mut r: Vec<CompletedMarketBar> = Vec::new();
    let mut i: usize = 0;
    while i < v.len()
        invariant
            i <= v.len(),
            r@ == v@.subrange(0, i as int),
        decreases v.len() - i,
    {
        r.push(copy_bar(&v[i]));
        i = i + 1;
    }
    assert(r@ == v@);
    r
}

pub fn copy_gaps(v: &Vec<MarketDataGap>) -> (r: Vec<MarketDataGap>)
    ensures
        r@ == v@,
{
    let mut r: Vec<MarketDataGap> = Vec::new();
    let mut i: usize = 0;
    while i < v.len()
        invariant
            i <= v.len(),
            r@ == v@.subrange(0, i as int),
        decreases v.len() - i,
    {
        r.push(copy_gap(&v[i]));
        i = i + 1;
    }
    assert(r@ == v@);
    r
}

// ---------------------------------------------------------------- time buckets

/// `timestamp_ms / interval_ms * interval_ms`.
pub open spec fn floor_to(t: u64, interval: u64) -> u64 {
    (t / interval * interval) as u64
}

pub fn floor_to_interval(timestamp_ms: u64, interval_ms: u64) -> (r: u64)
    requires
        interval_ms > 0,
    ensures
        r == floor_to(timestamp_ms, interval_ms),
        r <= timestamp_ms,
        timestamp_ms < r + interval_ms,
        r % interval_ms == 0,
{
    let q = timestamp_ms / interval_ms;
    proof {
        vstd::arithmetic::div_mod::lemma_fundamental_div_mod(timestamp_ms as int, interval_ms as int);
        vstd::arithmetic::div_mod::lemma_mod_multiples_basic(q as int, interval_ms as int);
        vstd::arithmetic::mul::lemma_mul_is_commutative(q as int, interval_ms as int);
    }
    q * interval_ms
}

pub fn minute_floor(timestamp_ms: u64) -> (r: u64)
    ensures
        r == floor_to(timestamp_ms, MINUTE_MS),
        r <= timestamp_ms,
        timestamp_ms < r + MINUTE_MS,
        r % MINUTE_MS == 0,
{
    floor_to_interval(timestamp_ms, MINUTE_MS)
}

// ---------------------------------------------------------------- tick validation

/// The per-tick contract: named source, positive price and quantity, a non-zero
/// event time, received no earlier than the event, and nothing after the watermark.
pub open spec fn tick_ok(t: NormalizedMarketTick, watermark_ms: u64) -> bool {
    &&& !all_ws(t.provider@)
    &&& !all_ws(t.asset_class@)
    &&& !all_ws(t.symbol@)
    &&& !all_ws(t.currency@)
    &&& t.price_minor != 0
    &&& t.quantity_base_units != 0
    &&& t.quantity_scale != 0
    &&& t.event_at_ms != 0
    &&& t.received_at_ms >= t.event_at_ms
    &&& t.received_at_ms <= watermark_ms
    &&& t.event_at_ms <= watermark_ms
}

pub open spec fn same_tick_source(a: NormalizedMarketTick, b: NormalizedMarketTick) -> bool {
    &&& a.provider@ == b.provider@
    &&& a.asset_class@ == b.asset_class@
    &&& a.symbol@ == b.symbol@
    &&& a.currency@ == b.currency@
    &&& a.quantity_scale == b.quantity_scale
}

/// Two ticks that agree on event time, sequence, price and quantity are duplicates.
pub open spec fn same_tick_key(a: NormalizedMarketTick, b: NormalizedMarketTick) -> bool {
    &&& a.event_at_ms == b.event_at_ms
    &&& a.sequence == b.sequence
    &&& a.price_minor == b.price_minor
    &&& a.quantity_base_units == b.quantity_base_units
}

pub open spec fn tick_follows(prev: NormalizedMarketTick, t: NormalizedMarketTick) -> bool {
    &&& same_tick_source(prev, t)
    &&& prev.event_at_ms <= t.event_at_ms
    &&& (prev.sequence is Some && t.sequence is Some ==> prev.sequence->0 < t.sequence->0)
}

/// A tick batch that may be aggregated: every tick is well formed, all come from one
/// source, event times never regress, sequences strictly increase, and no tick repeats.
pub open spec fn ticks_valid(ticks: Seq<NormalizedMarketTick>, watermark_ms: u64) -> bool {
    &&& forall|i: int| 0 <= i < ticks.len() ==> tick_ok(#[trigger] ticks[i], watermark_ms)
    &&& forall|i: int| 0 < i < ticks.len() ==> tick_follows(ticks[i - 1], #[trigger] ticks[i])
    &&& forall|i: int, j: int|
        0 <= i < j < ticks.len() ==> !same_tick_key(#[trigger] ticks[i], #[trigger] ticks[j])
}

pub fn tick_ok_exec(t: &NormalizedMarketTick, watermark_ms: u64) -> (r: bool)
    ensures
        r == tick_ok(*t, watermark_ms),
{
    !is_blank(&t.provider) && !is_blank(&t.asset_class) && !is_blank(&t.symbol) && !is_blank(
        &t.currency,
    ) && t.price_minor != 0 && t.quantity_base_units != 0 && t.quantity_scale != 0
        && t.event_at_ms != 0 && t.received_at_ms >= t.event_at_ms && t.received_at_ms
        <= watermark_ms && t.event_at_ms <= watermark_ms
}

fn tick_follows_exec(prev: &NormalizedMarketTick, t: &NormalizedMarketTick) -> (r: bool)
    ensures
        r == tick_follows(*prev, *t),
{
    let source = prev.provider == t.provider && prev.asset_class == t.asset_class && prev.symbol
        == t.symbol && prev.currency == t.currency && prev.quantity_scale == t.quantity_scale;
    if !source || t.event_at_ms < prev.event_at_ms {
        return false;
    }
    match (prev.sequence, t.sequence) {
        (Some(a), Some(b)) => a < b,
        _ => true,
    }
}

fn same_tick_key_exec(a: &NormalizedMarketTick, b: &NormalizedMarketTick) -> (r: bool)
    ensures
        r == same_tick_key(*a, *b),
{
    a.event_at_ms == b.event_at_ms && a.sequence == b.sequence && a.price_minor == b.price_minor
        && a.quantity_base_units == b.quantity_base_units
}

/// Whether `ticks[i]` repeats the key of an earlier tick.
fn repeats_earlier_tick(ticks: &Vec<NormalizedMarketTick>, i: usize) -> (r: bool)
    requires
        i < ticks.len(),
    ensures
        r == exists|a: int| 0 <= a < i && same_tick_key(#[trigger] ticks@[a], ticks@[i as int]),
{
    let mut j: usize = 0;
    while j < i
        invariant
            j <= i < ticks.len(),
            forall|a: int| 0 <= a < j ==> !same_tick_key(#[trigger] ticks@[a], ticks@[i as int]),
        decreases i - j,
    {
        if same_tick_key_exec(&ticks[j], &ticks[i]) {
            return true;
        }
        j = j + 1;
    }
    false
}

/// What is wrong with `ticks[i]`, the ticks before it being sound, checked in
/// the order the batch is read: the tick's own contract, its source against
/// the previous tick's, event time, provider sequence, then a repeat.
#[verifier::opaque]
pub open spec fn tick_issue(ticks: Seq<NormalizedMarketTick>, i: int, watermark_ms: u64) -> Option<Seq<char>> {
    let t = ticks[i];
    if !tick_ok(t, watermark_ms) {
        Some("Tick의 식별자·가격·수량·시각 계약이 올바르지 않습니다."@)
    } else if i > 0 && !same_tick_source(ticks[i - 1], t) {
        Some("서로 다른 공급자·자산·종목·통화·수량 단위 Tick을 함께 집계할 수 없습니다."@)
    } else if i > 0 && t.event_at_ms < ticks[i - 1].event_at_ms {
        Some("Tick 이벤트 시각이 역행했습니다."@)
    } else if i > 0 && ticks[i - 1].sequence is Some && t.sequence is Some && t.sequence->0 <= ticks[i
        - 1].sequence->0 {
        Some("Tick 공급자 순번이 중복되거나 역행했습니다."@)
    } else if exists|a: int| 0 <= a < i && same_tick_key(#[trigger] ticks[a], t) {
        Some("동일한 Tick이 중복 입력됐습니다."@)
    } else {
        None
    }
}

/// `e` is the refusal of the first tick with an issue.
pub open spec fn first_tick_issue_is(ticks: Seq<NormalizedMarketTick>, watermark_ms: u64, e: Seq<char>) -> bool {
    exists|i: int|
        #![trigger tick_issue(ticks, i, watermark_ms)]
        0 <= i < ticks.len() && (forall|k: int| 0 <= k < i ==> (#[trigger] tick_issue(ticks, k, watermark_ms)) is None)
            && tick_issue(ticks, i, watermark_ms) == Some(e)
}

proof fn lemma_first_tick_issue(ticks: Seq<NormalizedMarketTick>, watermark_ms: u64, i: int, e: Seq<char>)
    requires
        0 <= i < ticks.len(),
        forall|k: int| 0 <= k < i ==> (#[trigger] tick_issue(ticks, k, watermark_ms)) is None,
        tick_issue(ticks, i, watermark_ms) == Some(e),
    ensures
        first_tick_issue_is(ticks, watermark_ms, e),
{
}

/// Checks a tick batch against [`ticks_valid`], refusing it for the first
/// tick with an issue (see [`tick_issue`]).
#[verifier::spinoff_prover]
pub fn validate_ticks(ticks: &Vec<NormalizedMarketTick>, watermark_ms: u64) -> (r: Result<
    (),
    String,
>)
    ensures
        r is Ok <==> ticks_valid(ticks@, watermark_ms),
        r matches Err(e) ==> first_tick_issue_is(ticks@, watermark_ms, e@),
{
    let n = ticks.len();
    let mut i: usize = 0;
    while i < n
        invariant
            n == ticks.len(),
            i <= n,
            forall|k: int| 0 <= k < i ==> tick_ok(#[trigger] ticks@[k], watermark_ms),
            forall|k: int| 0 < k < i ==> tick_follows(ticks@[k - 1], #[trigger] ticks@[k]),
            forall|a: int, b: int|
                0 <= a < b < i ==> !same_tick_key(#[trigger] ticks@[a], #[trigger] ticks@[b]),
            forall|k: int| 0 <= k < i ==> (#[trigger] tick_issue(ticks@, k, watermark_ms)) is None,
        decreases n - i,
    {
        if !tick_ok_exec(&ticks[i], watermark_ms) {
            proof {
                assert(tick_issue(ticks@, i as int, watermark_ms) == Some("Tick의 식별자·가격·수량·시각 계약이 올바르지 않습니다."@)) by {
                    reveal(tick_issue);
                }
                lemma_first_tick_issue(ticks@, watermark_ms, i as int, "Tick의 식별자·가격·수량·시각 계약이 올바르지 않습니다."@);
            }
            return Err("Tick의 식별자·가격·수량·시각 계약이 올바르지 않습니다.".to_owned());
        }
        if i > 0 {
            let prev = &ticks[i - 1];
            let t = &ticks[i];
            if !(prev.provider == t.provider && prev.asset_class == t.asset_class && prev.symbol == t.symbol
                && prev.currency == t.currency && prev.quantity_scale == t.quantity_scale) {
                proof {
                    assert(tick_issue(ticks@, i as int, watermark_ms) == Some("서로 다른 공급자·자산·종목·통화·수량 단위 Tick을 함께 집계할 수 없습니다."@)) by {
                        reveal(tick_issue);
                    }
                    lemma_first_tick_issue(ticks@, watermark_ms, i as int, "서로 다른 공급자·자산·종목·통화·수량 단위 Tick을 함께 집계할 수 없습니다."@);
                }
                return Err("서로 다른 공급자·자산·종목·통화·수량 단위 Tick을 함께 집계할 수 없습니다.".to_owned());
            }
            if t.event_at_ms < prev.event_at_ms {
                proof {
                    assert(tick_issue(ticks@, i as int, watermark_ms) == Some("Tick 이벤트 시각이 역행했습니다."@)) by {
                        reveal(tick_issue);
                    }
                    lemma_first_tick_issue(ticks@, watermark_ms, i as int, "Tick 이벤트 시각이 역행했습니다."@);
                }
                return Err("Tick 이벤트 시각이 역행했습니다.".to_owned());
            }
            match (prev.sequence, t.sequence) {
                (Some(a), Some(b)) => {
                    if b <= a {
                        proof {
                            assert(tick_issue(ticks@, i as int, watermark_ms) == Some("Tick 공급자 순번이 중복되거나 역행했습니다."@)) by {
                                reveal(tick_issue);
                            }
                            lemma_first_tick_issue(ticks@, watermark_ms, i as int, "Tick 공급자 순번이 중복되거나 역행했습니다."@);
                        }
                        return Err("Tick 공급자 순번이 중복되거나 역행했습니다.".to_owned());
                    }
                },
                _ => {},
            }
            assert(tick_follows(ticks@[i - 1], ticks@[i as int]));
        }
        if repeats_earlier_tick(ticks, i) {
            proof {
                assert(tick_issue(ticks@, i as int, watermark_ms) == Some("동일한 Tick이 중복 입력됐습니다."@)) by {
                    reveal(tick_issue);
                }
                lemma_first_tick_issue(ticks@, watermark_ms, i as int, "동일한 Tick이 중복 입력됐습니다."@);
            }
            return Err("동일한 Tick이 중복 입력됐습니다.".to_owned());
        }
        assert(tick_issue(ticks@, i as int, watermark_ms) is None) by {
            reveal(tick_issue);
        }
        i = i + 1;
    }
    Ok(())
}

// ---------------------------------------------------------------- one-minute bars

/// The one-minute bar opened by a single tick, or `None` when its end time overflows.
pub open spec fn bar_of_tick(t: NormalizedMarketTick, interval_minutes: u16) -> Option<
    CompletedMarketBar,
> {
    let start = floor_to(t.event_at_ms, MINUTE_MS);
    if start + MINUTE_MS > u64::MAX {
        None
    } else {
        Some(
            CompletedMarketBar {
                provider: t.provider,
                asset_class: t.asset_class,
                symbol: t.symbol,
                currency: t.currency,
                interval_minutes,
                period_start_ms: start,
                period_end_ms: (start + MINUTE_MS) as u64,
                available_at_ms: (start + MINUTE_MS) as u64,
                ingested_at_ms: t.received_at_ms,
                open_minor: t.price_minor,
                high_minor: t.price_minor,
                low_minor: t.price_minor,
                close_minor: t.price_minor,
                volume_base_units: t.quantity_base_units,
                quantity_scale: t.quantity_scale,
                source_count: 1,
            },
        )
    }
}

pub open spec fn max_u64(a: u64, b: u64) -> u64 {
    if a >= b {
        a
    } else {
        b
    }
}

pub open spec fn min_u64(a: u64, b: u64) -> u64 {
    if a <= b {
        a
    } else {
        b
    }
}

/// A later tick of the same minute folded into its bar: high/low widen, close moves,
/// volume and tick count add up; `None` when volume or count overflow.
pub open spec fn add_tick(bar: CompletedMarketBar, t: NormalizedMarketTick) -> Option<
    CompletedMarketBar,
> {
    if bar.volume_base_units + t.quantity_base_units > u64::MAX || bar.source_count + 1 > u32::MAX {
        None
    } else {
        Some(
            CompletedMarketBar {
                high_minor: max_u64(bar.high_minor, t.price_minor),
                low_minor: min_u64(bar.low_minor, t.price_minor),
                close_minor: t.price_minor,
                volume_base_units: (bar.volume_base_units + t.quantity_base_units) as u64,
                source_count: (bar.source_count + 1) as u32,
                ingested_at_ms: max_u64(bar.ingested_at_ms, t.received_at_ms),
                ..bar
            },
        )
    }
}

/// The one-minute bars of a time-ordered tick batch: consecutive ticks of the same
/// minute form one bar, in order. `None` when a bar's arithmetic overflows.
pub open spec fn minute_bars_of(ticks: Seq<NormalizedMarketTick>) -> Option<Seq<CompletedMarketBar>>
    decreases ticks.len(),
{
    if ticks.len() == 0 {
        Some(Seq::empty())
    } else {
        match minute_bars_of(ticks.drop_last()) {
            None => None,
            Some(prev) => {
                let t = ticks.last();
                if prev.len() > 0 && floor_to(t.event_at_ms, MINUTE_MS) == prev.last().period_start_ms {
                    match add_tick(prev.last(), t) {
                        None => None,
                        Some(b) => Some(prev.drop_last().push(b)),
                    }
                } else {
                    match bar_of_tick(t, 1) {
                        None => None,
                        Some(b) => Some(prev.push(b)),
                    }
                }
            },
        }
    }
}

pub fn bar_from_tick(tick: &NormalizedMarketTick, interval_minutes: u16) -> (r: Result<
    CompletedMarketBar,
    String,
>)
    ensures
        match bar_of_tick(*tick, interval_minutes) {
            Some(b) => r == Ok::<CompletedMarketBar, String>(b),
            None => r matches Err(e) && e@ == "1분봉 종료 시각이 지원 범위를 초과했습니다."@,
        },
{
    let period_start_ms = minute_floor(tick.event_at_ms);
    if period_start_ms > u64::MAX - MINUTE_MS {
        return Err("1분봉 종료 시각이 지원 범위를 초과했습니다.".to_owned());
    }
    let period_end_ms = period_start_ms + MINUTE_MS;
    Ok(
        CompletedMarketBar {
            provider: copy_string(&tick.provider),
            asset_class: copy_string(&tick.asset_class),
            symbol: copy_string(&tick.symbol),
            currency: copy_string(&tick.currency),
            interval_minutes,
            period_start_ms,
            period_end_ms,
            available_at_ms: period_end_ms,
            ingested_at_ms: tick.received_at_ms,
            open_minor: tick.price_minor,
            high_minor: tick.price_minor,
            low_minor: tick.price_minor,
            close_minor: tick.price_minor,
            volume_base_units: tick.quantity_base_units,
            quantity_scale: tick.quantity_scale,
            source_count: 1,
        },
    )
}

fn add_tick_exec(bar: CompletedMarketBar, t: &NormalizedMarketTick) -> (r: Result<
    CompletedMarketBar,
    String,
>)
    ensures
        match add_tick(bar, *t) {
            Some(b) => r == Ok::<CompletedMarketBar, String>(b),
            None => r is Err,
        },
{
    if bar.volume_base_units > u64::MAX - t.quantity_base_units {
        return Err("1분봉 거래량 합계가 지원 범위를 초과했습니다.".to_owned());
    }
    if bar.source_count == u32::MAX {
        return Err("1분봉 원천 Tick 수가 지원 범위를 초과했습니다.".to_owned());
    }
    let mut b = bar;
    b.high_minor = if b.high_minor >= t.price_minor {
        b.high_minor
    } else {
        t.price_minor
    };
    b.low_minor = if b.low_minor <= t.price_minor {
        b.low_minor
    } else {
        t.price_minor
    };
    b.close_minor = t.price_minor;
    b.volume_base_units = b.volume_base_units + t.quantity_base_units;
    b.source_count = b.source_count + 1;
    b.ingested_at_ms = if b.ingested_at_ms >= t.received_at_ms {
        b.ingested_at_ms
    } else {
        t.received_at_ms
    };
    Ok(b)
}

/// The spans of the gaps between consecutive bars, in units of `unit_ms`;
/// `None` when a missing-unit count does not fit a `u32`.
pub open spec fn gaps_between(bars: Seq<CompletedMarketBar>, unit_ms: u64) -> Option<
    Seq<(u64, u64, u32)>,
>
    decreases bars.len(),
{
    if bars.len() < 2 {
        Some(Seq::empty())
    } else {
        match gaps_between(bars.drop_last(), unit_ms) {
            None => None,
            Some(prev) => {
                let a = bars[bars.len() - 2];
                let b = bars.last();
                if b.period_start_ms > a.period_end_ms {
                    let missing = (b.period_start_ms - a.period_end_ms) / (unit_ms as int);
                    if missing > u32::MAX {
                        None
                    } else {
                        Some(prev.push((a.period_end_ms, b.period_start_ms, missing as u32)))
                    }
                } else {
                    Some(prev)
                }
            },
        }
    }
}

pub proof fn lemma_gaps_between_none_extends(bars: Seq<CompletedMarketBar>, k: int, unit_ms: u64)
    requires
        0 <= k <= bars.len(),
        gaps_between(bars.subrange(0, k), unit_ms) is None,
    ensures
        gaps_between(bars, unit_ms) is None,
    decreases bars.len() - k,
{
    if k < bars.len() {
        let next = bars.subrange(0, k + 1);
        assert(next.drop_last() =~= bars.subrange(0, k));
        lemma_gaps_between_none_extends(bars, k + 1, unit_ms);
    } else {
        assert(bars.subrange(0, k) =~= bars);
    }
}

/// The gaps between consecutive bars, all with the given reason.
pub fn gaps_between_bars(bars: &Vec<CompletedMarketBar>, unit_ms: u64, reason: &str) -> (r: Result<
    Vec<MarketDataGap>,
    String,
>)
    requires
        unit_ms > 0,
    ensures
        match gaps_between(bars@, unit_ms) {
            Some(spans) => r is Ok && gap_spans(r->Ok_0@) == spans && forall|i: int|
                0 <= i < r->Ok_0@.len() ==> (#[trigger] r->Ok_0@[i]).reason@ == reason@,
            None => r matches Err(e) && e@ == "시장 데이터 gap 길이가 지원 범위를 초과했습니다."@,
        },
{
    let mut gaps: Vec<MarketDataGap> = Vec::new();
    if bars.len() < 2 {
        assert(gap_spans(gaps@) =~= Seq::<(u64, u64, u32)>::empty());
        return Ok(gaps);
    }
    let mut i: usize = 1;
    while i < bars.len()
        invariant
            1 <= i <= bars.len(),
            unit_ms > 0,
            gaps_between(bars@.subrange(0, i as int), unit_ms) == Some(gap_spans(gaps@)),
            forall|k: int| 0 <= k < gaps@.len() ==> (#[trigger] gaps@[k]).reason@ == reason@,
        decreases bars.len() - i,
    {
        let ghost prefix = bars@.subrange(0, i as int + 1);
        proof {
            assert(prefix.drop_last() =~= bars@.subrange(0, i as int));
            assert(prefix[prefix.len() - 2] == bars@[i - 1]);
            assert(prefix.last() == bars@[i as int]);
        }
        if bars[i].period_start_ms > bars[i - 1].period_end_ms {
            let duration = bars[i].period_start_ms - bars[i - 1].period_end_ms;
            let missing = duration / unit_ms;
            if missing > u32::MAX as u64 {
                proof {
                    lemma_gaps_between_none_extends(bars@, i as int + 1, unit_ms);
                }
                return Err("시장 데이터 gap 길이가 지원 범위를 초과했습니다.".to_owned());
            }
            let ghost before = gaps@;
            gaps.push(
                MarketDataGap {
                    period_start_ms: bars[i - 1].period_end_ms,
                    period_end_ms: bars[i].period_start_ms,
                    missing_unit_count: missing as u32,
                    reason: reason.to_owned(),
                },
            );
            assert(gap_spans(gaps@) =~= gap_spans(before).push(
                (bars@[i - 1].period_end_ms, bars@[i as int].period_start_ms, missing as u32),
            ));
        }
        i = i + 1;
    }
    assert(bars@.subrange(0, bars.len() as int) =~= bars@);
    Ok(gaps)
}

/// The aggregation of a tick batch: bars that ended by the watermark are completed;
/// the bar still open at the watermark, if any, is returned apart as the partial bar.
pub open spec fn split_at_watermark(bars: Seq<CompletedMarketBar>, watermark_ms: u64) -> (
    Seq<CompletedMarketBar>,
    Option<CompletedMarketBar>,
) {
    if bars.len() > 0 && bars.last().period_end_ms > watermark_ms {
        (bars.drop_last(), Some(bars.last()))
    } else {
        (bars, None)
    }
}

/// Bars in strictly increasing, non-overlapping minute order.
pub open spec fn bars_ordered(bars: Seq<CompletedMarketBar>) -> bool {
    forall|i: int| 0 < i < bars.len() ==> bars[i - 1].period_end_ms <= #[trigger] bars[i].period_start_ms
}

/// Every bar spans one aligned minute and is internally consistent (low ≤ open, close ≤ high).
pub open spec fn minute_bar_shape(b: CompletedMarketBar) -> bool {
    &&& b.period_start_ms % MINUTE_MS == 0
    &&& b.period_end_ms == b.period_start_ms + MINUTE_MS
    &&& b.low_minor <= b.open_minor <= b.high_minor
    &&& b.low_minor <= b.close_minor <= b.high_minor
    &&& b.source_count >= 1
}


pub open spec fn sum_sources(bars: Seq<CompletedMarketBar>) -> int
    decreases bars.len(),
{
    if bars.len() == 0 {
        0
    } else {
        sum_sources(bars.drop_last()) + bars.last().source_count
    }
}

pub open spec fn sum_volume(bars: Seq<CompletedMarketBar>) -> int
    decreases bars.len(),
{
    if bars.len() == 0 {
        0
    } else {
        sum_volume(bars.drop_last()) + bars.last().volume_base_units
    }
}

pub open spec fn sum_quantity(ticks: Seq<NormalizedMarketTick>) -> int
    decreases ticks.len(),
{
    if ticks.len() == 0 {
        0
    } else {
        sum_quantity(ticks.drop_last()) + ticks.last().quantity_base_units
    }
}

pub proof fn lemma_minute_bars_none_extends(ticks: Seq<NormalizedMarketTick>, k: int)
    requires
        0 <= k <= ticks.len(),
        minute_bars_of(ticks.subrange(0, k)) is None,
    ensures
        minute_bars_of(ticks) is None,
    decreases ticks.len() - k,
{
    if k < ticks.len() {
        let next = ticks.subrange(0, k + 1);
        assert(next.drop_last() =~= ticks.subrange(0, k));
        lemma_minute_bars_none_extends(ticks, k + 1);
    } else {
        assert(ticks.subrange(0, k) =~= ticks);
    }
}

pub proof fn lemma_floor_monotone(a: u64, b: u64)
    requires
        a <= b,
    ensures
        floor_to(a, MINUTE_MS) <= floor_to(b, MINUTE_MS),
        floor_to(a, MINUTE_MS) <= a,
        a < floor_to(a, MINUTE_MS) + MINUTE_MS,
        floor_to(a, MINUTE_MS) % MINUTE_MS == 0,
{
    vstd::arithmetic::div_mod::lemma_div_is_ordered(a as int, b as int, MINUTE_MS as int);
    vstd::arithmetic::div_mod::lemma_fundamental_div_mod(a as int, MINUTE_MS as int);
    vstd::arithmetic::div_mod::lemma_mod_multiples_basic((a / MINUTE_MS) as int, MINUTE_MS as int);
    vstd::arithmetic::mul::lemma_mul_is_commutative((a / MINUTE_MS) as int, MINUTE_MS as int);
}

/// What the ticks of the minute starting at `m` amount to, in order: how many,
/// the first and the last price, the highest and the lowest price, and the
/// summed quantity.
pub open spec fn minute_stats(ticks: Seq<NormalizedMarketTick>, m: u64) -> (nat, u64, u64, u64, u64, int)
    decreases ticks.len(),
{
    if ticks.len() == 0 {
        (0, 0, 0, 0, 0, 0)
    } else {
        let st = minute_stats(ticks.drop_last(), m);
        let t = ticks.last();
        if floor_to(t.event_at_ms, MINUTE_MS) != m {
            st
        } else if st.0 == 0 {
            (1, t.price_minor, t.price_minor, t.price_minor, t.price_minor, t.quantity_base_units as int)
        } else {
            (
                st.0 + 1,
                st.1,
                t.price_minor,
                max_u64(st.3, t.price_minor),
                min_u64(st.4, t.price_minor),
                st.5 + t.quantity_base_units,
            )
        }
    }
}

/// A bar is exactly its minute's ticks: their count, first and last price,
/// highest and lowest price and summed quantity.
pub open spec fn bar_is_its_minute(b: CompletedMarketBar, ticks: Seq<NormalizedMarketTick>) -> bool {
    let st = minute_stats(ticks, b.period_start_ms);
    &&& st.0 == b.source_count
    &&& st.1 == b.open_minor
    &&& st.2 == b.close_minor
    &&& st.3 == b.high_minor
    &&& st.4 == b.low_minor
    &&& st.5 == b.volume_base_units
}

pub open spec fn events_sorted(ticks: Seq<NormalizedMarketTick>) -> bool {
    forall|a: int, b: int| 0 <= a <= b < ticks.len() ==> (#[trigger] ticks[a]).event_at_ms <= (
    #[trigger] ticks[b]).event_at_ms
}

proof fn lemma_minute_stats_absent(ticks: Seq<NormalizedMarketTick>, m: u64)
    requires
        forall|k: int| 0 <= k < ticks.len() ==> floor_to((#[trigger] ticks[k]).event_at_ms, MINUTE_MS) != m,
    ensures
        minute_stats(ticks, m).0 == 0,
    decreases ticks.len(),
{
    if ticks.len() > 0 {
        let init = ticks.drop_last();
        assert forall|k: int| 0 <= k < init.len() implies floor_to((#[trigger] init[k]).event_at_ms, MINUTE_MS) != m by {
            assert(init[k] == ticks[k]);
        }
        lemma_minute_stats_absent(init, m);
        assert(ticks.last() == ticks[ticks.len() - 1]);
    }
}

proof fn lemma_minute_bars_stats(ticks: Seq<NormalizedMarketTick>)
    requires
        events_sorted(ticks),
        minute_bars_of(ticks) is Some,
    ensures
        ({
            let bars = minute_bars_of(ticks)->0;
            &&& forall|i: int| 0 <= i < bars.len() ==> bar_is_its_minute(#[trigger] bars[i], ticks)
            &&& forall|i: int|
                0 <= i < bars.len() ==> (#[trigger] bars[i]).period_start_ms % MINUTE_MS == 0
                    && bars[i].period_end_ms == bars[i].period_start_ms + MINUTE_MS
            &&& forall|i: int, j: int|
                0 <= i < j < bars.len() ==> (#[trigger] bars[i]).period_start_ms < (#[trigger] bars[j]).period_start_ms
            &&& forall|k: int|
                0 <= k < ticks.len() ==> exists|i: int|
                    0 <= i < bars.len() && (#[trigger] bars[i]).period_start_ms == floor_to(
                        (#[trigger] ticks[k]).event_at_ms,
                        MINUTE_MS,
                    )
            &&& ticks.len() > 0 ==> bars.len() > 0 && bars.last().period_start_ms == floor_to(
                ticks.last().event_at_ms,
                MINUTE_MS,
            )
        }),
    decreases ticks.len(),
{
    if ticks.len() == 0 {
        return;
    }
    let init = ticks.drop_last();
    assert forall|a: int, b: int| 0 <= a <= b < init.len() implies (#[trigger] init[a]).event_at_ms <= (
    #[trigger] init[b]).event_at_ms by {
        assert(init[a] == ticks[a] && init[b] == ticks[b]);
    }
    let pb = minute_bars_of(init)->0;
    lemma_minute_bars_stats(init);
    let t = ticks.last();
    assert(t == ticks[ticks.len() - 1]);
    let m = floor_to(t.event_at_ms, MINUTE_MS);
    lemma_floor_monotone(t.event_at_ms, t.event_at_ms);
    let bars = minute_bars_of(ticks)->0;
    // every earlier tick lies in a minute no later than the last bar's
    if pb.len() > 0 {
        let lt = init.last();
        assert(lt == ticks[ticks.len() - 2]);
        lemma_floor_monotone(lt.event_at_ms, t.event_at_ms);
    }
    if pb.len() > 0 && m == pb.last().period_start_ms {
        let b = add_tick(pb.last(), t)->0;
        assert(bars == pb.drop_last().push(b));
        assert forall|i: int| 0 <= i < bars.len() implies bar_is_its_minute(#[trigger] bars[i], ticks) by {
            if i < bars.len() - 1 {
                assert(bars[i] == pb[i]);
                assert(pb[i].period_start_ms < pb[pb.len() - 1].period_start_ms);
                assert(bar_is_its_minute(pb[i], init));
            } else {
                assert(bar_is_its_minute(pb[pb.len() - 1], init));
                assert(pb[pb.len() - 1].source_count >= 1);
            }
        }
        assert forall|k: int| 0 <= k < ticks.len() implies exists|i: int|
            0 <= i < bars.len() && (#[trigger] bars[i]).period_start_ms == floor_to(
                (#[trigger] ticks[k]).event_at_ms,
                MINUTE_MS,
            ) by {
            if k < init.len() {
                assert(init[k] == ticks[k]);
                let i = choose|i: int|
                    0 <= i < pb.len() && (#[trigger] pb[i]).period_start_ms == floor_to(init[k].event_at_ms, MINUTE_MS);
                if i < pb.len() - 1 {
                    assert(bars[i] == pb[i]);
                } else {
                    assert(bars[bars.len() - 1].period_start_ms == pb[i].period_start_ms);
                }
            } else {
                assert(bars[bars.len() - 1].period_start_ms == m);
            }
        }
        assert forall|i: int, j: int| 0 <= i < j < bars.len() implies (#[trigger] bars[i]).period_start_ms < (
        #[trigger] bars[j]).period_start_ms by {
            assert(bars[i].period_start_ms == pb[i].period_start_ms);
            assert(bars[j].period_start_ms == pb[j].period_start_ms);
        }
        assert forall|i: int| 0 <= i < bars.len() implies (#[trigger] bars[i]).period_start_ms % MINUTE_MS == 0
            && bars[i].period_end_ms == bars[i].period_start_ms + MINUTE_MS by {
            if i < bars.len() - 1 {
                assert(bars[i] == pb[i]);
            } else {
                assert(pb[pb.len() - 1].period_start_ms % MINUTE_MS == 0);
            }
        }
    } else {
        let b = bar_of_tick(t, 1)->0;
        assert(bars == pb.push(b));
        if pb.len() > 0 {
            assert(pb.last() == pb[pb.len() - 1]);
            assert(m > pb[pb.len() - 1].period_start_ms);
        }
        assert forall|k: int| 0 <= k < init.len() implies floor_to((#[trigger] init[k]).event_at_ms, MINUTE_MS) != m by {
            let i = choose|i: int|
                0 <= i < pb.len() && (#[trigger] pb[i]).period_start_ms == floor_to(init[k].event_at_ms, MINUTE_MS);
            if i < pb.len() - 1 {
                assert(pb[i].period_start_ms < pb[pb.len() - 1].period_start_ms);
            }
        }
        lemma_minute_stats_absent(init, m);
        assert forall|i: int| 0 <= i < bars.len() implies bar_is_its_minute(#[trigger] bars[i], ticks) by {
            if i < pb.len() {
                assert(bars[i] == pb[i]);
                assert(bar_is_its_minute(pb[i], init));
                if pb.len() > 0 && i < pb.len() - 1 {
                    assert(pb[i].period_start_ms < pb[pb.len() - 1].period_start_ms);
                }
            }
        }
        assert forall|k: int| 0 <= k < ticks.len() implies exists|i: int|
            0 <= i < bars.len() && (#[trigger] bars[i]).period_start_ms == floor_to(
                (#[trigger] ticks[k]).event_at_ms,
                MINUTE_MS,
            ) by {
            if k < init.len() {
                assert(init[k] == ticks[k]);
                let i = choose|i: int|
                    0 <= i < pb.len() && (#[trigger] pb[i]).period_start_ms == floor_to(init[k].event_at_ms, MINUTE_MS);
                assert(bars[i] == pb[i]);
            } else {
                assert(bars[bars.len() - 1].period_start_ms == m);
            }
        }
        assert forall|i: int, j: int| 0 <= i < j < bars.len() implies (#[trigger] bars[i]).period_start_ms < (
        #[trigger] bars[j]).period_start_ms by {
            if j < pb.len() {
                assert(bars[i] == pb[i] && bars[j] == pb[j]);
            } else {
                assert(bars[i] == pb[i]);
                if i < pb.len() - 1 {
                    assert(pb[i].period_start_ms < pb[pb.len() - 1].period_start_ms);
                }
            }
        }
        assert forall|i: int| 0 <= i < bars.len() implies (#[trigger] bars[i]).period_start_ms % MINUTE_MS == 0
            && bars[i].period_end_ms == bars[i].period_start_ms + MINUTE_MS by {
            if i < pb.len() {
                assert(bars[i] == pb[i]);
            }
        }
    }
}

/// Each one-minute bar of a valid tick batch is exactly its minute's ticks (the
/// first and last price, the highest and lowest, the summed quantity and the
/// count) over one aligned minute; the bars' minutes strictly increase, and
/// every tick's minute has its bar.
pub proof fn lemma_minute_bars_are_their_ticks(ticks: Seq<NormalizedMarketTick>, watermark_ms: u64)
    requires
        ticks_valid(ticks, watermark_ms),
        minute_bars_of(ticks) is Some,
    ensures
        ({
            let bars = minute_bars_of(ticks)->0;
            &&& forall|i: int| 0 <= i < bars.len() ==> bar_is_its_minute(#[trigger] bars[i], ticks)
            &&& forall|i: int|
                0 <= i < bars.len() ==> (#[trigger] bars[i]).period_start_ms % MINUTE_MS == 0
                    && bars[i].period_end_ms == bars[i].period_start_ms + MINUTE_MS
            &&& forall|i: int, j: int|
                0 <= i < j < bars.len() ==> (#[trigger] bars[i]).period_start_ms < (#[trigger] bars[j]).period_start_ms
            &&& forall|k: int|
                0 <= k < ticks.len() ==> exists|i: int|
                    0 <= i < bars.len() && (#[trigger] bars[i]).period_start_ms == floor_to(
                        (#[trigger] ticks[k]).event_at_ms,
                        MINUTE_MS,
                    )
        }),
{
    assert(events_sorted(ticks)) by {
        assert forall|a: int, b: int| 0 <= a <= b < ticks.len() implies (#[trigger] ticks[a]).event_at_ms <= (
        #[trigger] ticks[b]).event_at_ms by {
            lemma_events_chain(ticks, watermark_ms, a, b);
        }
    }
    lemma_minute_bars_stats(ticks);
}

proof fn lemma_events_chain(ticks: Seq<NormalizedMarketTick>, watermark_ms: u64, a: int, b: int)
    requires
        ticks_valid(ticks, watermark_ms),
        0 <= a <= b < ticks.len(),
    ensures
        ticks[a].event_at_ms <= ticks[b].event_at_ms,
    decreases b - a,
{
    if a < b {
        lemma_events_chain(ticks, watermark_ms, a, b - 1);
        assert(tick_follows(ticks[b - 1], ticks[b]));
    }
}

/// What the one-minute bars of a valid tick batch satisfy: each is an aligned,
/// consistent minute bar that was observed; bars are in order and start no later than
/// the watermark; the last one holds the last tick; tick counts and volumes add up.
#[verifier::spinoff_prover]
pub proof fn lemma_minute_bars_props(ticks: Seq<NormalizedMarketTick>, watermark_ms: u64)
    requires
        ticks_valid(ticks, watermark_ms),
        minute_bars_of(ticks) is Some,
    ensures
        ({
            let bars = minute_bars_of(ticks)->0;
            &&& bars.len() > 0 <==> ticks.len() > 0
            &&& bars_ordered(bars)
            &&& forall|i: int| 0 <= i < bars.len() ==> minute_bar_shape(#[trigger] bars[i])
            &&& forall|i: int| 0 <= i < bars.len() ==> (#[trigger] bars[i]).period_start_ms <= watermark_ms
            &&& ticks.len() > 0 ==> bars.last().period_start_ms == floor_to(ticks.last().event_at_ms, MINUTE_MS)
            &&& sum_sources(bars) == ticks.len()
            &&& sum_volume(bars) == sum_quantity(ticks)
        }),
    decreases ticks.len(),
{
    if ticks.len() > 0 {
        let init = ticks.drop_last();
        assert(ticks_valid(init, watermark_ms)) by {
            assert forall|i: int| 0 <= i < init.len() implies tick_ok(#[trigger] init[i], watermark_ms) by {
                assert(init[i] == ticks[i]);
            }
            assert forall|i: int| 0 < i < init.len() implies tick_follows(init[i - 1], #[trigger] init[i]) by {
                assert(init[i] == ticks[i]);
                assert(init[i - 1] == ticks[i - 1]);
            }
            assert forall|i: int, j: int| 0 <= i < j < init.len() implies !same_tick_key(#[trigger] init[i], #[trigger] init[j]) by {
                assert(init[i] == ticks[i]);
                assert(init[j] == ticks[j]);
            }
        }
        lemma_minute_bars_props(init, watermark_ms);
        let prev = minute_bars_of(init)->0;
        let t = ticks.last();
        assert(tick_ok(ticks[ticks.len() - 1], watermark_ms));
        lemma_floor_monotone(t.event_at_ms, t.event_at_ms);
        lemma_floor_monotone(t.event_at_ms, watermark_ms);
        if prev.len() > 0 {
            assert(tick_follows(ticks[ticks.len() - 2], ticks[ticks.len() - 1]));
            assert(init.last() == ticks[ticks.len() - 2]);
            lemma_floor_monotone(init.last().event_at_ms, t.event_at_ms);
        }
        let bars = minute_bars_of(ticks)->0;
        if prev.len() > 0 && floor_to(t.event_at_ms, MINUTE_MS) == prev.last().period_start_ms {
            let b = add_tick(prev.last(), t)->0;
            assert(bars == prev.drop_last().push(b));
            assert(minute_bar_shape(prev[prev.len() - 1]));
            assert(bars.drop_last() =~= prev.drop_last());
            assert(prev.drop_last().drop_last() =~= prev.drop_last().drop_last());
            assert(sum_sources(prev) == sum_sources(prev.drop_last()) + prev.last().source_count);
            assert(sum_volume(prev) == sum_volume(prev.drop_last()) + prev.last().volume_base_units);
            assert forall|i: int| 0 <= i < bars.len() implies minute_bar_shape(#[trigger] bars[i]) by {
                if i < bars.len() - 1 {
                    assert(bars[i] == prev[i]);
                }
            }
            assert forall|i: int| 0 < i < bars.len() implies bars[i - 1].period_end_ms <= #[trigger] bars[i].period_start_ms by {
                assert(bars[i - 1] == prev[i - 1]);
                if i < bars.len() - 1 {
                    assert(bars[i] == prev[i]);
                } else {
                    assert(prev[i - 1].period_end_ms <= prev[i].period_start_ms);
                }
            }
            assert forall|i: int| 0 <= i < bars.len() implies (#[trigger] bars[i]).period_start_ms <= watermark_ms by {
                if i < bars.len() - 1 {
                    assert(bars[i] == prev[i]);
                }
            }
        } else {
            let b = bar_of_tick(t, 1)->0;
            assert(bars == prev.push(b));
            assert(bars.drop_last() =~= prev);
            assert forall|i: int| 0 <= i < bars.len() implies minute_bar_shape(#[trigger] bars[i]) by {
                if i < bars.len() - 1 {
                    assert(bars[i] == prev[i]);
                }
            }
            assert forall|i: int| 0 < i < bars.len() implies bars[i - 1].period_end_ms <= #[trigger] bars[i].period_start_ms by {
                assert(bars[i - 1] == prev[i - 1]);
                if i < bars.len() - 1 {
                    assert(bars[i] == prev[i]);
                } else {
                    assert(minute_bar_shape(prev[i - 1]));
                    assert(prev.last() == prev[i - 1]);
                }
            }
            assert forall|i: int| 0 <= i < bars.len() implies (#[trigger] bars[i]).period_start_ms <= watermark_ms by {
                if i < bars.len() - 1 {
                    assert(bars[i] == prev[i]);
                }
            }
        }
    }
}

/// In a valid batch, every bar but the last ended by the watermark.
pub proof fn lemma_only_last_bar_open(ticks: Seq<NormalizedMarketTick>, watermark_ms: u64, i: int)
    requires
        ticks_valid(ticks, watermark_ms),
        minute_bars_of(ticks) is Some,
        0 <= i < minute_bars_of(ticks)->0.len() - 1,
    ensures
        minute_bars_of(ticks)->0[i].period_end_ms <= watermark_ms,
{
    lemma_minute_bars_props(ticks, watermark_ms);
    let bars = minute_bars_of(ticks)->0;
    assert(bars[i].period_end_ms <= bars[i + 1].period_start_ms);
}

/// The one-minute bars of a non-empty tick batch, per [`minute_bars_of`].
fn build_minute_bars(ticks: &Vec<NormalizedMarketTick>) -> (r: Result<Vec<CompletedMarketBar>, String>)
    requires
        ticks.len() > 0,
    ensures
        match minute_bars_of(ticks@) {
            Some(bars) => r is Ok && r->Ok_0@ == bars,
            None => r is Err,
        },
{
    let mut bars: Vec<CompletedMarketBar> = Vec::new();
    proof {
        let one = ticks@.subrange(0, 1);
        assert(one.drop_last() =~= Seq::<NormalizedMarketTick>::empty());
        assert(minute_bars_of(one.drop_last()) == Some(Seq::<CompletedMarketBar>::empty()));
        assert(one.last() == ticks@[0]);
    }
    let mut current = match bar_from_tick(&ticks[0], 1) {
        Ok(b) => b,
        Err(e) => {
            proof {
                lemma_minute_bars_none_extends(ticks@, 1);
            }
            return Err(e);
        },
    };
    assert(bars@.push(current) =~= seq![current]);
    let mut i: usize = 1;
    while i < ticks.len()
        invariant
            1 <= i <= ticks.len(),
            minute_bars_of(ticks@.subrange(0, i as int)) == Some(bars@.push(current)),
        decreases ticks.len() - i,
    {
        let ghost prefix = ticks@.subrange(0, i as int + 1);
        let ghost prev = bars@.push(current);
        proof {
            assert(prefix.drop_last() =~= ticks@.subrange(0, i as int));
            assert(prefix.last() == ticks@[i as int]);
            assert(prev.last() == current);
            assert(prev.drop_last() =~= bars@);
        }
        let bucket_start = minute_floor(ticks[i].event_at_ms);
        if bucket_start == current.period_start_ms {
            current = match add_tick_exec(current, &ticks[i]) {
                Ok(b) => b,
                Err(e) => {
                    proof {
                        lemma_minute_bars_none_extends(ticks@, i as int + 1);
                    }
                    return Err(e);
                },
            };
        } else {
            let next = match bar_from_tick(&ticks[i], 1) {
                Ok(b) => b,
                Err(e) => {
                    proof {
                        lemma_minute_bars_none_extends(ticks@, i as int + 1);
                    }
                    return Err(e);
                },
            };
            bars.push(current);
            current = next;
        }
        i = i + 1;
    }
    bars.push(current);
    assert(ticks@.subrange(0, ticks.len() as int) =~= ticks@);
    Ok(bars)
}

/// Aggregates a time-ordered tick batch into one-minute OHLCV bars. Bars that ended by
/// `watermark_ms` are completed; the minute still open is returned apart as the
/// partial bar; minutes without ticks become gaps, never flat bars.
#[verifier::spinoff_prover]
#[verifier::rlimit(40)]
pub fn aggregate_ticks_to_one_minute(ticks: &Vec<NormalizedMarketTick>, watermark_ms: u64) -> (r:
    Result<TickAggregationResult, String>)
    ensures
        !ticks_valid(ticks@, watermark_ms) ==> (r matches Err(e) && first_tick_issue_is(ticks@, watermark_ms, e@)),
        ticks_valid(ticks@, watermark_ms) ==> match minute_bars_of(ticks@) {
            None => r is Err,
            Some(bars) => match gaps_between(bars, MINUTE_MS) {
                None => r is Err,
                Some(spans) => {
                    &&& r is Ok
                    &&& r->Ok_0.completed_bars@ == split_at_watermark(bars, watermark_ms).0
                    &&& r->Ok_0.partial_bar == split_at_watermark(bars, watermark_ms).1
                    &&& gap_spans(r->Ok_0.gaps@) == spans
                },
            },
        },
        r is Ok ==> {
            let out = r->Ok_0;
            &&& forall|i: int|
                0 <= i < out.completed_bars@.len() ==> (#[trigger] out.completed_bars@[i]).period_end_ms
                    <= watermark_ms
            &&& forall|i: int|
                0 <= i < out.completed_bars@.len() ==> minute_bar_shape(#[trigger] out.completed_bars@[i])
            &&& bars_ordered(out.completed_bars@)
            &&& (out.partial_bar matches Some(p) ==> p.period_end_ms > watermark_ms && minute_bar_shape(p))
            &&& forall|i: int| 0 <= i < out.gaps@.len() ==> (#[trigger] out.gaps@[i]).missing_unit_count >= 1
            &&& forall|i: int| 0 <= i < out.gaps@.len() ==> (#[trigger] out.gaps@[i]).reason@
                == "관측 Tick이 없는 1분 구간"@
        },
{
    match validate_ticks(ticks, watermark_ms) {
        Ok(()) => {},
        Err(e) => {
            return Err(e);
        },
    }
    if ticks.len() == 0 {
        assert(ticks@ =~= Seq::<NormalizedMarketTick>::empty());
        let out = TickAggregationResult { completed_bars: Vec::new(), partial_bar: None, gaps: Vec::new() };
        assert(out.completed_bars@ =~= Seq::<CompletedMarketBar>::empty());
        assert(gap_spans(out.gaps@) =~= Seq::<(u64, u64, u32)>::empty());
        return Ok(out);
    }
    let mut bars = match build_minute_bars(ticks) {
        Ok(b) => b,
        Err(e) => {
            return Err(e);
        },
    };
    proof {
        lemma_minute_bars_props(ticks@, watermark_ms);
    }
    let gaps = match gaps_between_bars(&bars, MINUTE_MS, "관측 Tick이 없는 1분 구간") {
        Ok(g) => g,
        Err(e) => {
            return Err(e);
        },
    };
    proof {
        assert forall|k: int| 0 <= k < bars@.len() implies (#[trigger] bars@[k]).period_start_ms % MINUTE_MS == 0 by {
            assert(minute_bar_shape(bars@[k]));
        }
        assert forall|k: int| 0 <= k < bars@.len() implies (#[trigger] bars@[k]).period_end_ms % MINUTE_MS == 0 by {
            assert(minute_bar_shape(bars@[k]));
        }
        lemma_gaps_positive(bars@, MINUTE_MS);
        let spans = gaps_between(bars@, MINUTE_MS)->0;
        assert forall|k: int| 0 <= k < gaps@.len() implies (#[trigger] gaps@[k]).missing_unit_count >= 1 by {
            assert(gap_spans(gaps@)[k] == gap_span(gaps@[k]));
            assert(spans[k].2 >= 1);
        }
        assert(minute_bar_shape(bars@[bars@.len() - 1]));
    }
    let ghost all_bars = bars@;
    let last_end = bars[bars.len() - 1].period_end_ms;
    let partial_bar = if last_end > watermark_ms {
        bars.pop()
    } else {
        None
    };
    proof {
        assert forall|k: int| 0 <= k < bars@.len() implies (#[trigger] bars@[k]).period_end_ms <= watermark_ms by {
            if k < all_bars.len() - 1 {
                lemma_only_last_bar_open(ticks@, watermark_ms, k);
                assert(bars@[k] == all_bars[k]);
            }
        }
        assert forall|k: int| 0 <= k < bars@.len() implies minute_bar_shape(#[trigger] bars@[k]) by {
            assert(bars@[k] == all_bars[k]);
        }
        assert forall|k: int| 0 < k < bars@.len() implies bars@[k - 1].period_end_ms <= #[trigger] bars@[k].period_start_ms by {
            assert(bars@[k] == all_bars[k]);
            assert(bars@[k - 1] == all_bars[k - 1]);
        }
        if last_end > watermark_ms {
            assert(bars@ =~= all_bars.drop_last());
        }
    }
    Ok(TickAggregationResult { completed_bars: bars, partial_bar, gaps })
}

pub proof fn lemma_gaps_positive(bars: Seq<CompletedMarketBar>, unit_ms: u64)
    requires
        unit_ms > 0,
        gaps_between(bars, unit_ms) is Some,
        forall|i: int| 0 < i < bars.len() ==> bars[i - 1].period_end_ms <= #[trigger] bars[i].period_start_ms,
        forall|i: int| 0 <= i < bars.len() ==> (#[trigger] bars[i]).period_start_ms % unit_ms == 0,
        forall|i: int| 0 <= i < bars.len() ==> (#[trigger] bars[i]).period_end_ms % unit_ms == 0,
    ensures
        forall|k: int| 0 <= k < gaps_between(bars, unit_ms)->0.len() ==> (#[trigger] gaps_between(bars, unit_ms)->0[k]).2 >= 1,
    decreases bars.len(),
{
    if bars.len() >= 2 {
        let init = bars.drop_last();
        assert forall|i: int| 0 < i < init.len() implies init[i - 1].period_end_ms <= #[trigger] init[i].period_start_ms by {
            assert(init[i] == bars[i]);
            assert(init[i - 1] == bars[i - 1]);
        }
        assert forall|i: int| 0 <= i < init.len() implies (#[trigger] init[i]).period_start_ms % unit_ms == 0 by {
            assert(init[i] == bars[i]);
        }
        assert forall|i: int| 0 <= i < init.len() implies (#[trigger] init[i]).period_end_ms % unit_ms == 0 by {
            assert(init[i] == bars[i]);
        }
        lemma_gaps_positive(init, unit_ms);
        let a = bars[bars.len() - 2];
        let b = bars.last();
        if b.period_start_ms > a.period_end_ms {
            let d = (b.period_start_ms - a.period_end_ms) as int;
            assert(b.period_start_ms % unit_ms == 0);
            assert(a.period_end_ms % unit_ms == 0);
            vstd::arithmetic::div_mod::lemma_fundamental_div_mod(b.period_start_ms as int, unit_ms as int);
            vstd::arithmetic::div_mod::lemma_fundamental_div_mod(a.period_end_ms as int, unit_ms as int);
            assert(d == unit_ms * ((b.period_start_ms / unit_ms) - (a.period_end_ms / unit_ms))) by (nonlinear_arith)
                requires
                    d == b.period_start_ms - a.period_end_ms,
                    b.period_start_ms == unit_ms * (b.period_start_ms / unit_ms),
                    a.period_end_ms == unit_ms * (a.period_end_ms / unit_ms);
            assert(d / (unit_ms as int) >= 1) by (nonlinear_arith)
                requires
                    d > 0,
                    unit_ms > 0,
                    d == unit_ms * ((b.period_start_ms / unit_ms) - (a.period_end_ms / unit_ms));
        }
    }
}


// ---------------------------------------------------------------- higher-timeframe bars

/// One input bar of the higher-timeframe aggregation: an aligned, consistent,
/// observed one-minute bar whose end time fits.
pub open spec fn minute_bar_ok(b: CompletedMarketBar) -> bool {
    &&& b.period_start_ms + MINUTE_MS <= u64::MAX
    &&& b.interval_minutes == 1
    &&& b.period_start_ms % MINUTE_MS == 0
    &&& b.period_end_ms == b.period_start_ms + MINUTE_MS
    &&& b.available_at_ms >= b.period_end_ms
    &&& b.open_minor != 0
    &&& b.low_minor <= b.open_minor
    &&& b.low_minor <= b.close_minor
    &&& b.high_minor >= b.open_minor
    &&& b.high_minor >= b.close_minor
    &&& b.quantity_scale != 0
    &&& b.source_count != 0
}

pub open spec fn same_bar_source(a: CompletedMarketBar, b: CompletedMarketBar) -> bool {
    &&& a.provider@ == b.provider@
    &&& a.asset_class@ == b.asset_class@
    &&& a.symbol@ == b.symbol@
    &&& a.currency@ == b.currency@
    &&& a.quantity_scale == b.quantity_scale
}

/// Valid one-minute input: each bar is [`minute_bar_ok`], all share one source, and
/// start times strictly increase.
pub open spec fn minute_bars_valid(bars: Seq<CompletedMarketBar>) -> bool {
    &&& forall|i: int| 0 <= i < bars.len() ==> minute_bar_ok(#[trigger] bars[i])
    &&& forall|i: int|
        0 < i < bars.len() ==> same_bar_source(bars[i - 1], #[trigger] bars[i]) && bars[i
            - 1].period_start_ms < bars[i].period_start_ms
}

fn minute_bar_ok_exec(b: &CompletedMarketBar) -> (r: bool)
    ensures
        r == minute_bar_ok(*b),
{
    if b.period_start_ms > u64::MAX - MINUTE_MS {
        return false;
    }
    b.interval_minutes == 1 && b.period_start_ms % MINUTE_MS == 0 && b.period_end_ms
        == b.period_start_ms + MINUTE_MS && b.available_at_ms >= b.period_end_ms && b.open_minor
        != 0 && b.low_minor <= b.open_minor && b.low_minor <= b.close_minor && b.high_minor
        >= b.open_minor && b.high_minor >= b.close_minor && b.quantity_scale != 0
        && b.source_count != 0
}

/// What is wrong with `bars[i]`, the bars before it being sound, in the order
/// the input is read: its end time overflows, it is no completed one-minute
/// bar, it comes from another source than the previous bar, or it does not
/// start after it.
#[verifier::opaque]
pub open spec fn minute_bar_issue(bars: Seq<CompletedMarketBar>, i: int) -> Option<Seq<char>> {
    let b = bars[i];
    if b.period_start_ms + MINUTE_MS > u64::MAX {
        Some("1분봉 종료 시각이 지원 범위를 초과했습니다."@)
    } else if !minute_bar_ok(b) {
        Some("상위 봉 입력에는 유효한 완료 1분봉만 사용할 수 있습니다."@)
    } else if i > 0 && !same_bar_source(bars[i - 1], b) {
        Some("서로 다른 원천의 1분봉을 함께 집계할 수 없습니다."@)
    } else if i > 0 && b.period_start_ms <= bars[i - 1].period_start_ms {
        Some("1분봉이 중복되거나 시각이 역행했습니다."@)
    } else {
        None
    }
}

/// `e` is the refusal of the first bar with an issue.
pub open spec fn first_minute_bar_issue_is(bars: Seq<CompletedMarketBar>, e: Seq<char>) -> bool {
    exists|i: int|
        #![trigger minute_bar_issue(bars, i)]
        0 <= i < bars.len() && (forall|k: int| 0 <= k < i ==> (#[trigger] minute_bar_issue(bars, k)) is None)
            && minute_bar_issue(bars, i) == Some(e)
}

proof fn lemma_first_minute_bar_issue(bars: Seq<CompletedMarketBar>, i: int, e: Seq<char>)
    requires
        0 <= i < bars.len(),
        forall|k: int| 0 <= k < i ==> (#[trigger] minute_bar_issue(bars, k)) is None,
        minute_bar_issue(bars, i) == Some(e),
    ensures
        first_minute_bar_issue_is(bars, e),
{
}

/// Checks one-minute bars against [`minute_bars_valid`], refusing them for the
/// first bar with an issue (see [`minute_bar_issue`]).
#[verifier::spinoff_prover]
pub fn validate_minute_bars(bars: &Vec<CompletedMarketBar>) -> (r: Result<(), String>)
    ensures
        r is Ok <==> minute_bars_valid(bars@),
        r matches Err(e) ==> first_minute_bar_issue_is(bars@, e@),
{
    let mut i: usize = 0;
    while i < bars.len()
        invariant
            i <= bars.len(),
            forall|k: int| 0 <= k < i ==> minute_bar_ok(#[trigger] bars@[k]),
            forall|k: int|
                0 < k < i ==> same_bar_source(bars@[k - 1], #[trigger] bars@[k]) && bars@[k
                    - 1].period_start_ms < bars@[k].period_start_ms,
            forall|k: int| 0 <= k < i ==> (#[trigger] minute_bar_issue(bars@, k)) is None,
        decreases bars.len() - i,
    {
        if bars[i].period_start_ms > u64::MAX - MINUTE_MS {
            proof {
                assert(minute_bar_issue(bars@, i as int) == Some("1분봉 종료 시각이 지원 범위를 초과했습니다."@)) by {
                    reveal(minute_bar_issue);
                }
                lemma_first_minute_bar_issue(bars@, i as int, "1분봉 종료 시각이 지원 범위를 초과했습니다."@);
            }
            return Err("1분봉 종료 시각이 지원 범위를 초과했습니다.".to_owned());
        }
        if !minute_bar_ok_exec(&bars[i]) {
            proof {
                assert(minute_bar_issue(bars@, i as int) == Some("상위 봉 입력에는 유효한 완료 1분봉만 사용할 수 있습니다."@))
                    by {
                    reveal(minute_bar_issue);
                }
                lemma_first_minute_bar_issue(bars@, i as int, "상위 봉 입력에는 유효한 완료 1분봉만 사용할 수 있습니다."@);
            }
            return Err("상위 봉 입력에는 유효한 완료 1분봉만 사용할 수 있습니다.".to_owned());
        }
        if i > 0 {
            let a = &bars[i - 1];
            let b = &bars[i];
            if !(a.provider == b.provider && a.asset_class == b.asset_class && a.symbol == b.symbol
                && a.currency == b.currency && a.quantity_scale == b.quantity_scale) {
                proof {
                    assert(minute_bar_issue(bars@, i as int) == Some("서로 다른 원천의 1분봉을 함께 집계할 수 없습니다."@)) by {
                        reveal(minute_bar_issue);
                    }
                    lemma_first_minute_bar_issue(bars@, i as int, "서로 다른 원천의 1분봉을 함께 집계할 수 없습니다."@);
                }
                return Err("서로 다른 원천의 1분봉을 함께 집계할 수 없습니다.".to_owned());
            }
            if b.period_start_ms <= a.period_start_ms {
                proof {
                    assert(minute_bar_issue(bars@, i as int) == Some("1분봉이 중복되거나 시각이 역행했습니다."@)) by {
                        reveal(minute_bar_issue);
                    }
                    lemma_first_minute_bar_issue(bars@, i as int, "1분봉이 중복되거나 시각이 역행했습니다."@);
                }
                return Err("1분봉이 중복되거나 시각이 역행했습니다.".to_owned());
            }
        }
        assert(minute_bar_issue(bars@, i as int) is None) by {
            reveal(minute_bar_issue);
        }
        i = i + 1;
    }
    Ok(())
}

pub open spec fn sum_sources_int(bars: Seq<CompletedMarketBar>) -> int {
    sum_sources(bars)
}

pub open spec fn max_high(bars: Seq<CompletedMarketBar>) -> u64
    decreases bars.len(),
{
    if bars.len() <= 1 {
        bars[0].high_minor
    } else {
        max_u64(max_high(bars.drop_last()), bars.last().high_minor)
    }
}

pub open spec fn min_low(bars: Seq<CompletedMarketBar>) -> u64
    decreases bars.len(),
{
    if bars.len() <= 1 {
        bars[0].low_minor
    } else {
        min_u64(min_low(bars.drop_last()), bars.last().low_minor)
    }
}

pub open spec fn max_ingested(bars: Seq<CompletedMarketBar>) -> u64
    decreases bars.len(),
{
    if bars.len() <= 1 {
        bars[0].ingested_at_ms
    } else {
        max_u64(max_ingested(bars.drop_last()), bars.last().ingested_at_ms)
    }
}

/// The highest high of a non-empty run is at least every bar's high and is the
/// high of one of them; the lowest low likewise.
pub proof fn lemma_run_extremes(src: Seq<CompletedMarketBar>)
    requires
        src.len() > 0,
    ensures
        forall|k: int| 0 <= k < src.len() ==> max_high(src) >= (#[trigger] src[k]).high_minor,
        exists|k: int| 0 <= k < src.len() && max_high(src) == (#[trigger] src[k]).high_minor,
        forall|k: int| 0 <= k < src.len() ==> min_low(src) <= (#[trigger] src[k]).low_minor,
        exists|k: int| 0 <= k < src.len() && min_low(src) == (#[trigger] src[k]).low_minor,
        forall|k: int| 0 <= k < src.len() ==> max_ingested(src) >= (#[trigger] src[k]).ingested_at_ms,
        exists|k: int| 0 <= k < src.len() && max_ingested(src) == (#[trigger] src[k]).ingested_at_ms,
    decreases src.len(),
{
    if src.len() == 1 {
        assert(max_high(src) == src[0].high_minor);
        assert(min_low(src) == src[0].low_minor);
        assert(max_ingested(src) == src[0].ingested_at_ms);
    } else {
        let init = src.drop_last();
        lemma_run_extremes(init);
        let n = src.len() - 1;
        assert forall|k: int| 0 <= k < src.len() implies max_high(src) >= (#[trigger] src[k]).high_minor
            && min_low(src) <= src[k].low_minor && max_ingested(src) >= src[k].ingested_at_ms by {
            if k < n {
                assert(src[k] == init[k]);
            }
        }
        if max_high(init) >= src.last().high_minor {
            let w = choose|k: int| 0 <= k < init.len() && max_high(init) == (#[trigger] init[k]).high_minor;
            assert(src[w] == init[w]);
        } else {
            assert(max_high(src) == src[n].high_minor);
        }
        if min_low(init) <= src.last().low_minor {
            let w = choose|k: int| 0 <= k < init.len() && min_low(init) == (#[trigger] init[k]).low_minor;
            assert(src[w] == init[w]);
        } else {
            assert(min_low(src) == src[n].low_minor);
        }
        if max_ingested(init) >= src.last().ingested_at_ms {
            let w = choose|k: int| 0 <= k < init.len() && max_ingested(init) == (#[trigger] init[k]).ingested_at_ms;
            assert(src[w] == init[w]);
        } else {
            assert(max_ingested(src) == src[n].ingested_at_ms);
        }
    }
}

/// Volume and tick count add up over a run: the total of a run is the total of
/// any split of it into a head and a tail, and a single bar's total is its own.
pub proof fn lemma_run_sums_add_up(src: Seq<CompletedMarketBar>, k: int)
    requires
        0 <= k <= src.len(),
    ensures
        sum_volume(src) == sum_volume(src.subrange(0, k)) + sum_volume(src.subrange(k, src.len() as int)),
        sum_sources(src) == sum_sources(src.subrange(0, k)) + sum_sources(src.subrange(k, src.len() as int)),
        src.len() == 1 ==> sum_volume(src) == src[0].volume_base_units && sum_sources(src) == src[0].source_count,
    decreases src.len(),
{
    if src.len() == 1 {
        let e = src.drop_last();
        assert(e.len() == 0);
        assert(sum_volume(e) == 0 && sum_sources(e) == 0);
        assert(src.last() == src[0]);
    }
    if k == src.len() {
        assert(src.subrange(0, k) =~= src);
        assert(src.subrange(k, src.len() as int).len() == 0);
    } else {
        let init = src.drop_last();
        lemma_run_sums_add_up(init, k);
        assert(src.subrange(0, k) =~= init.subrange(0, k));
        let tail = src.subrange(k, src.len() as int);
        assert(tail.drop_last() =~= init.subrange(k, init.len() as int));
        assert(tail.last() == src.last());
    }
}

/// The higher-timeframe bar made from `src`: opened by the first bar, closed by the
/// last, high/low the extremes, volume and tick count the sums; `None` on overflow.
pub open spec fn merged_bar(src: Seq<CompletedMarketBar>, interval_minutes: u16, start: u64, end: u64) -> Option<
    CompletedMarketBar,
> {
    if src.len() == 0 || sum_volume(src) > u64::MAX || sum_sources(src) > u32::MAX {
        None
    } else {
        Some(
            CompletedMarketBar {
                provider: src[0].provider,
                asset_class: src[0].asset_class,
                symbol: src[0].symbol,
                currency: src[0].currency,
                interval_minutes,
                period_start_ms: start,
                period_end_ms: end,
                available_at_ms: end,
                ingested_at_ms: max_ingested(src),
                open_minor: src[0].open_minor,
                high_minor: max_high(src),
                low_minor: min_low(src),
                close_minor: src.last().close_minor,
                volume_base_units: sum_volume(src) as u64,
                quantity_scale: src[0].quantity_scale,
                source_count: sum_sources(src) as u32,
            },
        )
    }
}

/// Merges `bars[lo..hi]` into one bar of the higher timeframe.
pub fn merge_bars(
    bars: &Vec<CompletedMarketBar>,
    lo: usize,
    hi: usize,
    interval_minutes: u16,
    period_start_ms: u64,
    period_end_ms: u64,
) -> (r: Result<CompletedMarketBar, String>)
    requires
        lo <= hi <= bars.len(),
    ensures
        match merged_bar(bars@.subrange(lo as int, hi as int), interval_minutes, period_start_ms, period_end_ms) {
            Some(b) => r == Ok::<CompletedMarketBar, String>(b),
            None => r matches Err(e) && e@ == if lo == hi {
                "집계할 1분봉이 없습니다."@
            } else if sum_volume(bars@.subrange(lo as int, hi as int)) > u64::MAX {
                "상위 봉 거래량 합계가 지원 범위를 초과했습니다."@
            } else {
                "상위 봉 원천 Tick 수가 지원 범위를 초과했습니다."@
            },
        },
        r matches Ok(b) ==> {
            &&& forall|i: int| lo <= i < hi ==> b.high_minor >= (#[trigger] bars@[i]).high_minor
                && b.low_minor <= bars@[i].low_minor
            &&& exists|i: int| lo <= i < hi && b.high_minor == (#[trigger] bars@[i]).high_minor
            &&& exists|i: int| lo <= i < hi && b.low_minor == (#[trigger] bars@[i]).low_minor
            &&& b.open_minor == bars@[lo as int].open_minor
            &&& b.close_minor == bars@[hi - 1].close_minor
        },
{
    if lo == hi {
        return Err("집계할 1분봉이 없습니다.".to_owned());
    }
    let ghost src = bars@.subrange(lo as int, hi as int);
    let mut volume: u64 = 0;
    let mut sources: u32 = 0;
    // The volume is summed over every bar before the tick counts are judged.
    let mut sources_overflow = false;
    let mut high = bars[lo].high_minor;
    let mut low = bars[lo].low_minor;
    let mut ingested = bars[lo].ingested_at_ms;
    let mut k: usize = lo;
    while k < hi
        invariant
            lo <= k <= hi <= bars.len(),
            lo < hi,
            src == bars@.subrange(lo as int, hi as int),
            volume == sum_volume(bars@.subrange(lo as int, k as int)),
            !sources_overflow ==> sources == sum_sources(bars@.subrange(lo as int, k as int)),
            sources_overflow ==> sum_sources(bars@.subrange(lo as int, k as int)) > u32::MAX,
            k > lo ==> high == max_high(bars@.subrange(lo as int, k as int)),
            k > lo ==> low == min_low(bars@.subrange(lo as int, k as int)),
            k > lo ==> ingested == max_ingested(bars@.subrange(lo as int, k as int)),
            k == lo ==> high == bars@[lo as int].high_minor && low == bars@[lo as int].low_minor
                && ingested == bars@[lo as int].ingested_at_ms,
        decreases hi - k,
    {
        let ghost next = bars@.subrange(lo as int, k as int + 1);
        proof {
            assert(next.drop_last() =~= bars@.subrange(lo as int, k as int));
            assert(next.last() == bars@[k as int]);
            lemma_sums_prefix_bound(src, (k - lo) as int);
            assert(src.subrange(0, (k - lo) as int + 1) =~= next);
        }
        if volume > u64::MAX - bars[k].volume_base_units {
            proof {
                lemma_sums_prefix_bound(src, (hi - lo - 1) as int);
                assert(src.subrange(0, (hi - lo) as int) =~= src);
            }
            return Err("상위 봉 거래량 합계가 지원 범위를 초과했습니다.".to_owned());
        }
        if !sources_overflow {
            if sources > u32::MAX - bars[k].source_count {
                sources_overflow = true;
            } else {
                sources = sources + bars[k].source_count;
            }
        }
        volume = volume + bars[k].volume_base_units;
        if k > lo {
            if bars[k].high_minor > high {
                high = bars[k].high_minor;
            }
            if bars[k].low_minor < low {
                low = bars[k].low_minor;
            }
            if bars[k].ingested_at_ms > ingested {
                ingested = bars[k].ingested_at_ms;
            }
        } else {
            assert(next.len() == 1);
        }
        k = k + 1;
    }
    assert(bars@.subrange(lo as int, hi as int) == src);
    if sources_overflow {
        return Err("상위 봉 원천 Tick 수가 지원 범위를 초과했습니다.".to_owned());
    }
    proof {
        lemma_run_extremes(src);
        assert forall|i: int| lo <= i < hi implies #[trigger] bars@[i] == src[i - lo] by {}
        let wh = choose|k: int| 0 <= k < src.len() && max_high(src) == (#[trigger] src[k]).high_minor;
        assert(bars@[lo + wh] == src[wh]);
        let wl = choose|k: int| 0 <= k < src.len() && min_low(src) == (#[trigger] src[k]).low_minor;
        assert(bars@[lo + wl] == src[wl]);
    }
    Ok(
        CompletedMarketBar {
            provider: copy_string(&bars[lo].provider),
            asset_class: copy_string(&bars[lo].asset_class),
            symbol: copy_string(&bars[lo].symbol),
            currency: copy_string(&bars[lo].currency),
            interval_minutes,
            period_start_ms,
            period_end_ms,
            available_at_ms: period_end_ms,
            ingested_at_ms: ingested,
            open_minor: bars[lo].open_minor,
            high_minor: high,
            low_minor: low,
            close_minor: bars[hi - 1].close_minor,
            volume_base_units: volume,
            quantity_scale: bars[lo].quantity_scale,
            source_count: sources,
        },
    )
}

/// Partial sums of volumes and tick counts never exceed the totals.
pub proof fn lemma_sums_prefix_bound(src: Seq<CompletedMarketBar>, k: int)
    requires
        0 <= k < src.len(),
    ensures
        sum_volume(src.subrange(0, k + 1)) <= sum_volume(src),
        sum_sources(src.subrange(0, k + 1)) <= sum_sources(src),
        sum_volume(src.subrange(0, k + 1)) == sum_volume(src.subrange(0, k)) + src[k].volume_base_units,
        sum_sources(src.subrange(0, k + 1)) == sum_sources(src.subrange(0, k)) + src[k].source_count,
    decreases src.len() - k,
{
    let p = src.subrange(0, k + 1);
    assert(p.drop_last() =~= src.subrange(0, k));
    if k + 1 == src.len() {
        assert(p =~= src);
    } else {
        lemma_sums_prefix_bound(src, k + 1);
        let q = src.subrange(0, k + 2);
        assert(q.drop_last() =~= p);
    }
}

pub open spec fn supported_upper_interval(m: u16) -> bool {
    m == 3 || m == 5 || m == 15 || m == 30 || m == 60 || m == 240
}

/// The first index at or after `k` whose bar starts at or after `bucket_end`.
pub open spec fn run_end(bars: Seq<CompletedMarketBar>, k: int, bucket_end: u64) -> int
    decreases bars.len() - k,
{
    if 0 <= k < bars.len() && bars[k].period_start_ms < bucket_end {
        run_end(bars, k + 1, bucket_end)
    } else {
        k
    }
}

pub open spec fn contiguous(src: Seq<CompletedMarketBar>) -> bool {
    forall|i: int| 0 < i < src.len() ==> src[i - 1].period_end_ms == #[trigger] src[i].period_start_ms
}

/// A higher-timeframe bucket is complete when it holds exactly `m` contiguous minute
/// bars that start at the bucket start and end at the bucket end.
pub open spec fn bucket_complete(src: Seq<CompletedMarketBar>, m: u16, start: u64, end: u64) -> bool {
    &&& src.len() == m
    &&& src.len() > 0
    &&& src[0].period_start_ms == start
    &&& src.last().period_end_ms == end
    &&& contiguous(src)
}

/// The gap recorded for an incomplete bucket: its span and the minutes it lacks.
pub open spec fn bucket_gap(m: u16, start: u64, end: u64, have: int) -> (u64, u64, u32) {
    (start, end, if have >= m { 0u32 } else { (m - have) as u32 })
}

pub open spec fn upper_result_prepend(
    bar: Option<CompletedMarketBar>,
    gap: Option<(u64, u64, u32)>,
    rest: Option<(Seq<CompletedMarketBar>, Seq<(u64, u64, u32)>)>,
) -> Option<(Seq<CompletedMarketBar>, Seq<(u64, u64, u32)>)> {
    match rest {
        None => None,
        Some((bs, gs)) => Some(
            (
                match bar {
                    Some(b) => seq![b] + bs,
                    None => bs,
                },
                match gap {
                    Some(g) => seq![g] + gs,
                    None => gs,
                },
            ),
        ),
    }
}

/// Higher-timeframe bars and incomplete-bucket gaps of `bars[i..]`, bucket by bucket
/// in time order; `None` when a bucket end or a merged bar overflows.
pub open spec fn upper_from(bars: Seq<CompletedMarketBar>, m: u16, i: int) -> Option<
    (Seq<CompletedMarketBar>, Seq<(u64, u64, u32)>),
>
    decreases bars.len() - i,
{
    if i < 0 || i >= bars.len() {
        Some((Seq::empty(), Seq::empty()))
    } else {
        let ims = (m * MINUTE_MS) as u64;
        let start = floor_to(bars[i].period_start_ms, ims);
        if start + ims > u64::MAX {
            None
        } else {
            let end = (start + ims) as u64;
            let r = run_end(bars, i, end);
            let j = if r > i && r <= bars.len() {
                r
            } else {
                i + 1
            };
            let src = bars.subrange(i, j);
            let rest = upper_from(bars, m, j);
            if bucket_complete(src, m, start, end) {
                match merged_bar(src, m, start, end) {
                    None => None,
                    Some(b) => upper_result_prepend(Some(b), None, rest),
                }
            } else {
                upper_result_prepend(None, Some(bucket_gap(m, start, end, j - i)), rest)
            }
        }
    }
}


/// Higher bar `o` is built from exactly `m` contiguous minute bars of `bars`,
/// at or after index `i`, filling its aligned bucket: opened by the first,
/// closed by the last, high and low their extremes, volume and tick count their
/// sums (see [`merged_bar`]).
pub open spec fn built_from_run(bars: Seq<CompletedMarketBar>, m: u16, o: CompletedMarketBar, i: int) -> bool {
    &&& (o.period_start_ms as int) % (m * MINUTE_MS) == 0
    &&& o.period_end_ms == o.period_start_ms + m * MINUTE_MS
    &&& exists|lo: int|
        i <= lo && lo + m <= bars.len() && bucket_complete(
            #[trigger] bars.subrange(lo, lo + m),
            m,
            o.period_start_ms,
            o.period_end_ms,
        ) && merged_bar(bars.subrange(lo, lo + m), m, o.period_start_ms, o.period_end_ms) == Some(o)
}

/// Every higher-timeframe bar made from `bars[i..]` is built from exactly its
/// aligned minutes (see [`built_from_run`]).
pub proof fn lemma_upper_bars_are_aligned_runs(bars: Seq<CompletedMarketBar>, m: u16, i: int)
    requires
        0 <= i,
        supported_upper_interval(m),
        upper_from(bars, m, i) is Some,
    ensures
        forall|k: int|
            0 <= k < (upper_from(bars, m, i)->0).0.len() ==> built_from_run(
                bars,
                m,
                #[trigger] (upper_from(bars, m, i)->0).0[k],
                i,
            ),
    decreases bars.len() - i,
{
    if i >= bars.len() {
        return;
    }
    let ims = (m * MINUTE_MS) as u64;
    let start = floor_to(bars[i].period_start_ms, ims);
    let end = (start + ims) as u64;
    let r = run_end(bars, i, end);
    let j = if r > i && r <= bars.len() {
        r
    } else {
        i + 1
    };
    let src = bars.subrange(i, j);
    lemma_upper_bars_are_aligned_runs(bars, m, j);
    let rest_res = upper_from(bars, m, j)->0;
    let rest = rest_res.0;
    let res = upper_from(bars, m, i)->0;
    let out = res.0;
    assert((start as int) % (m * MINUTE_MS) == 0) by {
        vstd::arithmetic::div_mod::lemma_mod_multiples_basic((bars[i].period_start_ms / ims) as int, ims as int);
        assert((bars[i].period_start_ms / ims) * ims <= bars[i].period_start_ms) by {
            vstd::arithmetic::div_mod::lemma_fundamental_div_mod(bars[i].period_start_ms as int, ims as int);
        }
    }
    if bucket_complete(src, m, start, end) {
        let b = merged_bar(src, m, start, end)->0;
        assert(out == seq![b] + rest);
        assert(j == i + m);
        assert forall|k: int| 0 <= k < out.len() implies built_from_run(bars, m, #[trigger] out[k], i) by {
            if k == 0 {
                assert(out[0] == b);
                assert(bars.subrange(i, i + m) == src);
            } else {
                assert(out[k] == rest[k - 1]);
                assert(built_from_run(bars, m, rest[k - 1], j));
            }
        }
    } else {
        assert(out == rest);
        assert forall|k: int| 0 <= k < out.len() implies built_from_run(bars, m, #[trigger] out[k], i) by {
            assert(out[k] == rest[k]);
            assert(built_from_run(bars, m, rest[k], j));
        }
    }
}

/// `o` covers `m` consecutive one-minute bars of `bars` that start at its start
/// and end at its end: its open is the first one's open, its close the last
/// one's close, its high the highest of their highs (at least each, and equal
/// to one) and its low the lowest of their lows.
#[verifier::opaque]
pub open spec fn covers_minutes_ohlc(bars: Seq<CompletedMarketBar>, m: u16, o: CompletedMarketBar) -> bool {
    exists|lo: int|
        0 <= lo && lo + m <= bars.len() && (#[trigger] bars[lo]).period_start_ms == o.period_start_ms
            && bars[lo + m - 1].period_end_ms == o.period_end_ms && o.open_minor == bars[lo].open_minor
            && o.close_minor == bars[lo + m - 1].close_minor && (forall|k: int|
            lo <= k < lo + m ==> o.high_minor >= (#[trigger] bars[k]).high_minor && o.low_minor <= bars[k].low_minor)
            && (exists|k: int| lo <= k < lo + m && o.high_minor == (#[trigger] bars[k]).high_minor) && (exists|k: int|
            lo <= k < lo + m && o.low_minor == (#[trigger] bars[k]).low_minor)
}

/// Every higher-timeframe bar rolled up from `bars` is the open, close, high
/// and low of the one-minute bars of its bucket (see [`covers_minutes_ohlc`]).
pub proof fn lemma_upper_bar_is_its_minutes_ohlc(bars: Seq<CompletedMarketBar>, m: u16)
    requires
        supported_upper_interval(m),
        upper_bars_result(bars, m) is Some,
    ensures
        forall|x: int|
            0 <= x < (upper_bars_result(bars, m)->0).0.len() ==> covers_minutes_ohlc(
                bars,
                m,
                #[trigger] (upper_bars_result(bars, m)->0).0[x],
            ),
{
    lemma_upper_from_bars_cover_minutes(bars, m);
}

proof fn lemma_upper_from_bars_cover_minutes(bars: Seq<CompletedMarketBar>, m: u16)
    requires
        supported_upper_interval(m),
        upper_from(bars, m, 0) is Some,
    ensures
        forall|x: int|
            0 <= x < (upper_from(bars, m, 0)->0).0.len() ==> covers_minutes_ohlc(
                bars,
                m,
                #[trigger] (upper_from(bars, m, 0)->0).0[x],
            ),
{
    lemma_upper_bars_are_aligned_runs(bars, m, 0);
    let out = (upper_from(bars, m, 0)->0).0;
    assert forall|x: int| 0 <= x < out.len() implies covers_minutes_ohlc(bars, m, #[trigger] out[x]) by {
        reveal(covers_minutes_ohlc);
        let o = out[x];
        assert(built_from_run(bars, m, o, 0));
        let lo = choose|lo: int|
            0 <= lo && lo + m <= bars.len() && bucket_complete(
                #[trigger] bars.subrange(lo, lo + m),
                m,
                o.period_start_ms,
                o.period_end_ms,
            ) && merged_bar(bars.subrange(lo, lo + m), m, o.period_start_ms, o.period_end_ms) == Some(o);
        let src = bars.subrange(lo, lo + m);
        lemma_run_extremes(src);
        assert forall|k: int| lo <= k < lo + m implies #[trigger] bars[k] == src[k - lo] by {}
        assert(src.last() == bars[lo + m - 1]);
        assert(src[0] == bars[lo]);
        let wh = choose|k: int| 0 <= k < src.len() && max_high(src) == (#[trigger] src[k]).high_minor;
        assert(bars[lo + wh] == src[wh]);
        let wl = choose|k: int| 0 <= k < src.len() && min_low(src) == (#[trigger] src[k]).low_minor;
        assert(bars[lo + wl] == src[wl]);
    }
}

/// The first `bucket_end` index run is at or after `k` and never past the end.
pub proof fn lemma_run_end_bounds(bars: Seq<CompletedMarketBar>, k: int, bucket_end: u64)
    requires
        0 <= k <= bars.len(),
    ensures
        k <= run_end(bars, k, bucket_end) <= bars.len(),
    decreases bars.len() - k,
{
    if k < bars.len() && bars[k].period_start_ms < bucket_end {
        lemma_run_end_bounds(bars, k + 1, bucket_end);
    }
}

/// `bars[lo..hi]` joins end to start with no hole.
fn run_is_contiguous(bars: &Vec<CompletedMarketBar>, lo: usize, hi: usize) -> (r: bool)
    requires
        lo <= hi <= bars.len(),
    ensures
        r == contiguous(bars@.subrange(lo as int, hi as int)),
{
    let ghost src = bars@.subrange(lo as int, hi as int);
    if hi - lo < 2 {
        return true;
    }
    let mut k: usize = lo + 1;
    while k < hi
        invariant
            lo < k <= hi <= bars.len(),
            src == bars@.subrange(lo as int, hi as int),
            forall|i: int|
                0 < i < k - lo ==> src[i - 1].period_end_ms == #[trigger] src[i].period_start_ms,
        decreases hi - k,
    {
        if bars[k - 1].period_end_ms != bars[k].period_start_ms {
            assert(src[(k - lo) as int - 1] == bars@[k - 1]);
            assert(src[(k - lo) as int] == bars@[k as int]);
            return false;
        }
        k = k + 1;
    }
    true
}

pub open spec fn opt_gap_span(g: Option<MarketDataGap>) -> Option<(u64, u64, u32)> {
    match g {
        Some(x) => Some(gap_span(x)),
        None => None,
    }
}

pub open spec fn upper_prefix(
    bs: Seq<CompletedMarketBar>,
    gs: Seq<(u64, u64, u32)>,
    rest: Option<(Seq<CompletedMarketBar>, Seq<(u64, u64, u32)>)>,
) -> Option<(Seq<CompletedMarketBar>, Seq<(u64, u64, u32)>)> {
    match rest {
        None => None,
        Some((x, y)) => Some((bs + x, gs + y)),
    }
}

proof fn lemma_upper_prefix_step(
    bs: Seq<CompletedMarketBar>,
    gs: Seq<(u64, u64, u32)>,
    bar: Option<CompletedMarketBar>,
    gap: Option<(u64, u64, u32)>,
    rest: Option<(Seq<CompletedMarketBar>, Seq<(u64, u64, u32)>)>,
)
    ensures
        upper_prefix(bs, gs, upper_result_prepend(bar, gap, rest)) == upper_prefix(
            match bar {
                Some(b) => bs.push(b),
                None => bs,
            },
            match gap {
                Some(g) => gs.push(g),
                None => gs,
            },
            rest,
        ),
{
    match rest {
        None => {},
        Some((x, y)) => {
            match bar {
                Some(b) => {
                    assert(bs + (seq![b] + x) =~= bs.push(b) + x);
                },
                None => {},
            }
            match gap {
                Some(g) => {
                    assert(gs + (seq![g] + y) =~= gs.push(g) + y);
                },
                None => {},
            }
        },
    }
}

/// One bucket of the higher-timeframe pass, starting at `bars[i]`: the index after
/// the bucket, and either its merged bar or the gap recorded for it.
fn upper_bucket(bars: &Vec<CompletedMarketBar>, m: u16, i: usize, reason: &String) -> (r: Result<
    (usize, Option<CompletedMarketBar>, Option<MarketDataGap>),
    String,
>)
    requires
        supported_upper_interval(m),
        i < bars.len(),
    ensures
        match r {
            Err(_) => upper_from(bars@, m, i as int) is None,
            Ok((j, bar, gap)) => {
                &&& i < j <= bars.len()
                &&& upper_from(bars@, m, i as int) == upper_result_prepend(
                    bar,
                    opt_gap_span(gap),
                    upper_from(bars@, m, j as int),
                )
                &&& (gap matches Some(g) ==> g.reason@ == reason@)
            },
        },
{
    let interval_ms: u64 = m as u64 * MINUTE_MS;
    assert(interval_ms == (m * MINUTE_MS) as u64);
    let bucket_start = floor_to_interval(bars[i].period_start_ms, interval_ms);
    if bucket_start > u64::MAX - interval_ms {
        return Err("상위 봉 종료 시각이 지원 범위를 초과했습니다.".to_owned());
    }
    let bucket_end = bucket_start + interval_ms;
    let mut j: usize = i + 1;
    proof {
        lemma_run_end_bounds(bars@, i as int + 1, bucket_end);
    }
    while j < bars.len() && bars[j].period_start_ms < bucket_end
        invariant
            i < j <= bars.len(),
            bars@[i as int].period_start_ms < bucket_end,
            run_end(bars@, i as int, bucket_end) == run_end(bars@, j as int, bucket_end),
        decreases bars.len() - j,
    {
        j = j + 1;
    }
    assert(run_end(bars@, j as int, bucket_end) == j);
    let ghost src = bars@.subrange(i as int, j as int);
    let complete = j - i == m as usize && bars[i].period_start_ms == bucket_start
        && bars[j - 1].period_end_ms == bucket_end && run_is_contiguous(bars, i, j);
    assert(src.len() == j - i);
    assert(complete == bucket_complete(src, m, bucket_start, bucket_end));
    if complete {
        let bar = merge_bars(bars, i, j, m, bucket_start, bucket_end)?;
        Ok((j, Some(bar), None))
    } else {
        let have = j - i;
        let missing: u32 = if have >= m as usize {
            0
        } else {
            m as u32 - have as u32
        };
        let gap = MarketDataGap {
            period_start_ms: bucket_start,
            period_end_ms: bucket_end,
            missing_unit_count: missing,
            reason: copy_string(reason),
        };
        assert(gap_span(gap) == bucket_gap(m, bucket_start, bucket_end, j - i));
        Ok((j, None, Some(gap)))
    }
}

// ---------------------------------------------------------------- gap lists

/// A gap as plain values: start, end, missing units and reason.
pub type GapModel = (u64, u64, u32, Seq<char>);

pub open spec fn gap_model(g: MarketDataGap) -> GapModel {
    (g.period_start_ms, g.period_end_ms, g.missing_unit_count, g.reason@)
}

pub open spec fn gap_models(gaps: Seq<MarketDataGap>) -> Seq<GapModel> {
    gaps.map_values(|g: MarketDataGap| gap_model(g))
}

pub open spec fn with_reason(spans: Seq<(u64, u64, u32)>, reason: Seq<char>) -> Seq<GapModel> {
    spans.map_values(|p: (u64, u64, u32)| (p.0, p.1, p.2, reason))
}

/// Gap order: by start time, then by end time.
pub open spec fn gap_before(a: GapModel, b: GapModel) -> bool {
    a.0 < b.0 || (a.0 == b.0 && a.1 < b.1)
}

/// The stable merge of two gap lists in [`gap_before`] order (on equal keys the
/// left list's gap comes first), which is what a stable sort of `a + b` gives when
/// each list is already in order.
pub open spec fn merge_gaps(a: Seq<GapModel>, b: Seq<GapModel>) -> Seq<GapModel>
    decreases a.len() + b.len(),
{
    if a.len() == 0 {
        b
    } else if b.len() == 0 {
        a
    } else if gap_before(b[0], a[0]) {
        seq![b[0]] + merge_gaps(a, b.drop_first())
    } else {
        seq![a[0]] + merge_gaps(a.drop_first(), b)
    }
}

/// Removes each gap equal to the one just before it.
pub open spec fn dedup_gaps(s: Seq<GapModel>) -> Seq<GapModel>
    decreases s.len(),
{
    if s.len() < 2 {
        s
    } else {
        let d = dedup_gaps(s.drop_last());
        if s.last() == s[s.len() - 2] {
            d
        } else {
            d.push(s.last())
        }
    }
}

proof fn lemma_gap_models_push(v: Seq<MarketDataGap>, g: MarketDataGap)
    ensures
        gap_models(v.push(g)) == gap_models(v).push(gap_model(g)),
{
    assert(gap_models(v.push(g)) =~= gap_models(v).push(gap_model(g)));
}

pub proof fn lemma_gap_models_reason(v: Seq<MarketDataGap>, reason: Seq<char>)
    requires
        forall|i: int| 0 <= i < v.len() ==> (#[trigger] v[i]).reason@ == reason,
    ensures
        gap_models(v) == with_reason(gap_spans(v), reason),
{
    assert(gap_models(v) =~= with_reason(gap_spans(v), reason));
}

fn merge_gap_lists(a: &Vec<MarketDataGap>, b: &Vec<MarketDataGap>) -> (r: Vec<MarketDataGap>)
    ensures
        gap_models(r@) == merge_gaps(gap_models(a@), gap_models(b@)),
{
    let ghost ma = gap_models(a@);
    let ghost mb = gap_models(b@);
    let mut out: Vec<MarketDataGap> = Vec::new();
    let mut i: usize = 0;
    let mut j: usize = 0;
    assert(ma.subrange(0, ma.len() as int) =~= ma);
    assert(mb.subrange(0, mb.len() as int) =~= mb);
    assert(gap_models(out@) =~= Seq::<GapModel>::empty());
    while i < a.len() || j < b.len()
        invariant
            i <= a.len(),
            j <= b.len(),
            ma == gap_models(a@),
            mb == gap_models(b@),
            gap_models(out@) + merge_gaps(
                ma.subrange(i as int, a.len() as int),
                mb.subrange(j as int, b.len() as int),
            ) == merge_gaps(ma, mb),
        decreases a.len() + b.len() - i - j,
    {
        let ghost ra = ma.subrange(i as int, a.len() as int);
        let ghost rb = mb.subrange(j as int, b.len() as int);
        let take_b = if i == a.len() {
            true
        } else if j == b.len() {
            false
        } else {
            b[j].period_start_ms < a[i].period_start_ms || (b[j].period_start_ms
                == a[i].period_start_ms && b[j].period_end_ms < a[i].period_end_ms)
        };
        let ghost before = gap_models(out@);
        if take_b {
            proof {
                assert(rb.drop_first() =~= mb.subrange(j as int + 1, b.len() as int));
                assert(rb[0] == gap_model(b@[j as int]));
                if ra.len() == 0 {
                    assert(rb =~= seq![rb[0]] + rb.drop_first());
                    assert(merge_gaps(ra, rb.drop_first()) == rb.drop_first());
                }
            }
            out.push(copy_gap(&b[j]));
            proof {
                lemma_gap_models_push(out@.drop_last(), b@[j as int]);
                assert(out@.drop_last() =~= old_out_view(out@));
                assert(before + merge_gaps(ra, rb) == before.push(rb[0]) + merge_gaps(
                    ra,
                    rb.drop_first(),
                )) by {
                    assert(before + (seq![rb[0]] + merge_gaps(ra, rb.drop_first())) =~= before.push(
                        rb[0],
                    ) + merge_gaps(ra, rb.drop_first()));
                }
            }
            j = j + 1;
        } else {
            proof {
                assert(ra.drop_first() =~= ma.subrange(i as int + 1, a.len() as int));
                assert(ra[0] == gap_model(a@[i as int]));
                if rb.len() == 0 {
                    assert(ra =~= seq![ra[0]] + ra.drop_first());
                    assert(merge_gaps(ra.drop_first(), rb) == ra.drop_first());
                }
            }
            out.push(copy_gap(&a[i]));
            proof {
                lemma_gap_models_push(out@.drop_last(), a@[i as int]);
                assert(out@.drop_last() =~= old_out_view(out@));
                assert(before + merge_gaps(ra, rb) == before.push(ra[0]) + merge_gaps(
                    ra.drop_first(),
                    rb,
                )) by {
                    assert(before + (seq![ra[0]] + merge_gaps(ra.drop_first(), rb)) =~= before.push(
                        ra[0],
                    ) + merge_gaps(ra.drop_first(), rb));
                }
            }
            i = i + 1;
        }
    }
    assert(gap_models(out@) + merge_gaps(
        ma.subrange(i as int, a.len() as int),
        mb.subrange(j as int, b.len() as int),
    ) =~= gap_models(out@));
    out
}

spec fn old_out_view(v: Seq<MarketDataGap>) -> Seq<MarketDataGap> {
    v.drop_last()
}

fn dedup_gap_list(v: &Vec<MarketDataGap>) -> (r: Vec<MarketDataGap>)
    ensures
        gap_models(r@) == dedup_gaps(gap_models(v@)),
{
    let ghost mv = gap_models(v@);
    let mut out: Vec<MarketDataGap> = Vec::new();
    let mut k: usize = 0;
    assert(gap_models(out@) =~= dedup_gaps(mv.subrange(0, 0)));
    while k < v.len()
        invariant
            k <= v.len(),
            mv == gap_models(v@),
            gap_models(out@) == dedup_gaps(mv.subrange(0, k as int)),
        decreases v.len() - k,
    {
        let ghost s = mv.subrange(0, k as int + 1);
        proof {
            assert(s.drop_last() =~= mv.subrange(0, k as int));
            assert(s.last() == gap_model(v@[k as int]));
        }
        let same = k > 0 && v[k].period_start_ms == v[k - 1].period_start_ms
            && v[k].period_end_ms == v[k - 1].period_end_ms && v[k].missing_unit_count == v[k
            - 1].missing_unit_count && str_eq(v[k].reason.as_str(), v[k - 1].reason.as_str());
        proof {
            if k > 0 {
                assert(s[s.len() - 2] == gap_model(v@[k - 1]));
            }
        }
        if !same {
            let ghost before = out@;
            out.push(copy_gap(&v[k]));
            proof {
                lemma_gap_models_push(before, v@[k as int]);
                if k == 0 {
                    assert(s =~= seq![gap_model(v@[0])]);
                    assert(dedup_gaps(mv.subrange(0, 0)) =~= Seq::<GapModel>::empty());
                }
            }
        }
        k = k + 1;
    }
    assert(mv.subrange(0, v.len() as int) =~= mv);
    out
}

/// The bucket gap reason: `"{m}분봉 생성에 필요한 완료 1분봉이 부족합니다."`.
pub open spec fn bucket_reason(m: u16) -> Seq<char> {
    decimal(m as nat) + "분봉 생성에 필요한 완료 1분봉이 부족합니다."@
}

/// The reason recorded for minutes missing between two one-minute bars.
pub open spec fn between_reason() -> Seq<char> {
    "원천 1분봉 누락"@
}

/// The higher-timeframe result: the bars of the complete buckets, and the gaps
/// (missing minutes between bars, and incomplete buckets) in time order without
/// repeats; `None` when a count or a time overflows.
pub open spec fn upper_bars_result(bars: Seq<CompletedMarketBar>, m: u16) -> Option<
    (Seq<CompletedMarketBar>, Seq<GapModel>),
> {
    match gaps_between(bars, MINUTE_MS) {
        None => None,
        Some(between) => match upper_from(bars, m, 0) {
            None => None,
            Some((out, bucket)) => Some(
                (
                    out,
                    dedup_gaps(
                        merge_gaps(
                            with_reason(between, between_reason()),
                            with_reason(bucket, bucket_reason(m)),
                        ),
                    ),
                ),
            ),
        },
    }
}

/// Builds aligned 3/5/15/30/60/240-minute bars from completed one-minute bars. A
/// bucket yields a bar only when all of its minutes are present; otherwise it is
/// reported as a gap, never filled.
#[verifier::spinoff_prover]
#[verifier::rlimit(40)]
pub fn aggregate_completed_minute_bars(minute_bars: &Vec<CompletedMarketBar>, interval_minutes: u16) -> (r:
    Result<(Vec<CompletedMarketBar>, Vec<MarketDataGap>), String>)
    ensures
        !supported_upper_interval(interval_minutes) ==> (r matches Err(e) && e@
            == "상위 봉 주기는 3·5·15·30·60·240분 중 하나여야 합니다."@),
        supported_upper_interval(interval_minutes) && !minute_bars_valid(minute_bars@) ==> (r matches Err(e)
            && first_minute_bar_issue_is(minute_bars@, e@)),
        supported_upper_interval(interval_minutes) && minute_bars_valid(minute_bars@) ==> match upper_bars_result(
            minute_bars@,
            interval_minutes,
        ) {
            None => r is Err,
            Some((out, gaps)) => r is Ok && r->Ok_0.0@ == out && gap_models(r->Ok_0.1@) == gaps,
        },
        r matches Ok((out, _gaps)) ==> forall|x: int|
            0 <= x < out@.len() ==> covers_minutes_ohlc(minute_bars@, interval_minutes, #[trigger] out@[x]),
{
    if !(interval_minutes == 3 || interval_minutes == 5 || interval_minutes == 15 || interval_minutes
        == 30 || interval_minutes == 60 || interval_minutes == 240) {
        return Err("상위 봉 주기는 3·5·15·30·60·240분 중 하나여야 합니다.".to_owned());
    }
    validate_minute_bars(minute_bars)?;
    let between = gaps_between_bars(minute_bars, MINUTE_MS, "원천 1분봉 누락")?;
    let reason = concat_str(
        decimal_string(interval_minutes as u64).as_str(),
        "분봉 생성에 필요한 완료 1분봉이 부족합니다.",
    );
    assert(reason@ == bucket_reason(interval_minutes));
    let mut output: Vec<CompletedMarketBar> = Vec::new();
    let mut bucket_gaps: Vec<MarketDataGap> = Vec::new();
    let mut index: usize = 0;
    assert(upper_prefix(output@, gap_spans(bucket_gaps@), upper_from(minute_bars@, interval_minutes, 0))
        == upper_from(minute_bars@, interval_minutes, 0)) by {
        match upper_from(minute_bars@, interval_minutes, 0) {
            None => {},
            Some((x, y)) => {
                assert(output@ + x =~= x);
                assert(gap_spans(bucket_gaps@) + y =~= y);
            },
        }
    }
    while index < minute_bars.len()
        invariant
            index <= minute_bars.len(),
            supported_upper_interval(interval_minutes),
            minute_bars_valid(minute_bars@),
            reason@ == bucket_reason(interval_minutes),
            upper_from(minute_bars@, interval_minutes, 0) == upper_prefix(
                output@,
                gap_spans(bucket_gaps@),
                upper_from(minute_bars@, interval_minutes, index as int),
            ),
            forall|k: int| 0 <= k < bucket_gaps@.len() ==> (#[trigger] bucket_gaps@[k]).reason@
                == reason@,
        decreases minute_bars.len() - index,
    {
        let step = upper_bucket(minute_bars, interval_minutes, index, &reason);
        match step {
            Err(e) => {
                return Err(e);
            },
            Ok((next, bar, gap)) => {
                let ghost gspan = opt_gap_span(gap);
                proof {
                    lemma_upper_prefix_step(
                        output@,
                        gap_spans(bucket_gaps@),
                        bar,
                        gspan,
                        upper_from(minute_bars@, interval_minutes, next as int),
                    );
                }
                match bar {
                    Some(b) => {
                        output.push(b);
                    },
                    None => {},
                }
                match gap {
                    Some(g) => {
                        let ghost before = bucket_gaps@;
                        bucket_gaps.push(g);
                        assert(gap_spans(bucket_gaps@) =~= gap_spans(before).push(gap_span(g)));
                    },
                    None => {},
                }
                index = next;
            },
        }
    }
    assert(upper_from(minute_bars@, interval_minutes, index as int) == Some(
        (Seq::<CompletedMarketBar>::empty(), Seq::<(u64, u64, u32)>::empty()),
    ));
    assert(output@ + Seq::<CompletedMarketBar>::empty() =~= output@);
    assert(gap_spans(bucket_gaps@) + Seq::<(u64, u64, u32)>::empty() =~= gap_spans(bucket_gaps@));
    proof {
        lemma_gap_models_reason(between@, between_reason());
        lemma_gap_models_reason(bucket_gaps@, bucket_reason(interval_minutes));
    }
    let merged = merge_gap_lists(&between, &bucket_gaps);
    let gaps = dedup_gap_list(&merged);
    assert(output@ == (upper_from(minute_bars@, interval_minutes, 0)->0).0);
    assert(forall|x: int|
        0 <= x < output@.len() ==> covers_minutes_ohlc(minute_bars@, interval_minutes, #[trigger] output@[x])) by {
        lemma_upper_from_bars_cover_minutes(minute_bars@, interval_minutes);
    }
    Ok((output, gaps))
}

} // verus!
