//! Toss candles as point-in-time price bars: each candle is parsed to exact minor
//! units, a bar still open at ingestion time is left out, bars come in start
//! order, and a bar that the next observed bar starts inside ends where it starts.
use vstd::prelude::*;
use crate::aggregation::copy_string;
use crate::dates::rfc3339_ms;
use crate::market::{
    all_digit_chars, decimal_value, digits_only, interval_ms, parse_digits_u64, parse_price_minor, price_minor, utf8,
    CandleInterval,
};
use crate::dates::parse_rfc3339_ms;

verus! {

/// A candle as the Toss API reports it.
#[derive(Debug, Clone)]
pub struct TossCandle {
    pub timestamp: String,
    pub open_price: String,
    pub high_price: String,
    pub low_price: String,
    pub close_price: String,
    pub volume: String,
    pub currency: String,
}

/// A completed price bar usable by a backtest.
#[derive(Debug, Clone)]
pub struct PriceBar {
    pub symbol: String,
    pub currency: String,
    pub source: String,
    pub period_start_ms: u64,
    pub period_end_ms: u64,
    pub available_at_ms: u64,
    pub ingested_at_ms: u64,
    pub open_minor: u64,
    pub high_minor: u64,
    pub low_minor: u64,
    pub close_minor: u64,
    pub volume: u64,
}

/// One parsed candle: its period, prices in minor units, volume and currency.
pub struct CandleRow {
    pub start: u64,
    pub end: u64,
    pub open: u64,
    pub high: u64,
    pub low: u64,
    pub close: u64,
    pub volume: u64,
    pub currency: String,
}

/// `str::parse::<u64>`: an optional `+`, then one or more digits, within `u64`.
pub open spec fn u64_text(s: Seq<char>) -> Option<int> {
    let rest = if s.len() > 0 && s[0] == '+' {
        s.drop_first()
    } else {
        s
    };
    if rest.len() > 0 && all_digit_chars(rest) && decimal_value(rest) <= u64::MAX {
        Some(decimal_value(rest))
    } else {
        None
    }
}

pub fn parse_u64_text(s: &str) -> (r: Option<u64>)
    ensures
        match u64_text(s@) {
            Some(v) => r matches Some(x) && x == v,
            None => r is None,
        },
{
    let chars = crate::text::chars_of(s);
    let n = chars.len();
    let lo: usize = if n > 0 && chars[0] == '+' {
        1
    } else {
        0
    };
    let ghost rest = if s@.len() > 0 && s@[0] == '+' {
        s@.drop_first()
    } else {
        s@
    };
    assert(rest =~= chars@.subrange(lo as int, n as int));
    if lo >= n || !digits_only(&chars, lo, n) {
        return None;
    }
    parse_digits_u64(&chars, lo, n)
}

/// The candle at index `k` as a row, `None` when it is still open at `ingested`,
/// or the first refusal in the order the fields are read.
pub open spec fn candle_row(c: TossCandle, interval: CandleInterval, ingested: u64) -> Result<Option<CandleRow>, Seq<char>> {
    let start = rfc3339_ms(utf8(c.timestamp@));
    let o = price_minor(c.open_price@, c.currency@);
    let h = price_minor(c.high_price@, c.currency@);
    let l = price_minor(c.low_price@, c.currency@);
    let cl = price_minor(c.close_price@, c.currency@);
    if start is None {
        Err("토스증권 캔들 시각을 해석하지 못했습니다."@)
    } else if start->0 + interval_ms(interval) > u64::MAX {
        Err("캔들 종료 시각이 범위를 초과했습니다."@)
    } else if start->0 + interval_ms(interval) > ingested {
        Ok(None)
    } else if o is None {
        Err("토스증권 캔들 시가를 해석하지 못했습니다."@)
    } else if h is None {
        Err("토스증권 캔들 고가를 해석하지 못했습니다."@)
    } else if l is None {
        Err("토스증권 캔들 저가를 해석하지 못했습니다."@)
    } else if cl is None {
        Err("토스증권 캔들 종가를 해석하지 못했습니다."@)
    } else if l->0 == 0 || l->0 > o->0 || l->0 > cl->0 || h->0 < o->0 || h->0 < cl->0 {
        Err("토스증권 캔들 OHLC 관계가 올바르지 않습니다."@)
    } else if u64_text(c.volume@) is None {
        Err("토스증권 캔들 거래량을 해석하지 못했습니다."@)
    } else {
        Ok(
            Some(
                CandleRow {
                    start: start->0 as u64,
                    end: (start->0 + interval_ms(interval)) as u64,
                    open: o->0 as u64,
                    high: h->0 as u64,
                    low: l->0 as u64,
                    close: cl->0 as u64,
                    volume: u64_text(c.volume@)->0 as u64,
                    currency: c.currency,
                },
            ),
        )
    }
}

/// The rows of the first `n` candles in response order, or the first refusal.
pub open spec fn candle_rows(
    candles: Seq<TossCandle>,
    interval: CandleInterval,
    ingested: u64,
    n: int,
) -> Result<Seq<CandleRow>, Seq<char>>
    decreases n,
{
    if n <= 0 {
        Ok(Seq::empty())
    } else {
        match candle_rows(candles, interval, ingested, n - 1) {
            Err(e) => Err(e),
            Ok(prev) => match candle_row(candles[n - 1], interval, ingested) {
                Err(e) => Err(e),
                Ok(None) => Ok(prev),
                Ok(Some(row)) => Ok(prev.push(row)),
            },
        }
    }
}

pub open spec fn rows_start_sorted(s: Seq<CandleRow>) -> bool {
    forall|a: int| 0 <= a < s.len() - 1 ==> (#[trigger] s[a]).start <= s[a + 1].start
}

/// `sorted` holds the rows in start order.
pub open spec fn sorted_rows_of(sorted: Seq<CandleRow>, rows: Seq<CandleRow>) -> bool {
    &&& rows_start_sorted(sorted)
    &&& sorted.to_multiset() == rows.to_multiset()
}

/// The end of row `i`: the start of the next row when that starts inside it.
pub open spec fn observed_end(s: Seq<CandleRow>, i: int) -> u64 {
    if i + 1 < s.len() && s[i + 1].start > s[i].start && s[i + 1].start < s[i].end {
        s[i + 1].start
    } else {
        s[i].end
    }
}

/// Bar `i` of the result: row `i` of the sorted rows for `symbol`, available when
/// it (observably) ends.
pub open spec fn price_bar_of(b: PriceBar, symbol: Seq<char>, s: Seq<CandleRow>, i: int, ingested: u64) -> bool {
    &&& b.symbol@ == symbol
    &&& b.currency@ == s[i].currency@
    &&& b.source@ == "TOSS_OPEN_API"@
    &&& b.period_start_ms == s[i].start
    &&& b.period_end_ms == observed_end(s, i)
    &&& b.available_at_ms == observed_end(s, i)
    &&& b.ingested_at_ms == ingested
    &&& b.open_minor == s[i].open
    &&& b.high_minor == s[i].high
    &&& b.low_minor == s[i].low
    &&& b.close_minor == s[i].close
    &&& b.volume == s[i].volume
}

/// The bars are the rows in start order, each as [`price_bar_of`] gives it.
pub open spec fn bars_of_rows(bars: Seq<PriceBar>, rows: Seq<CandleRow>, symbol: Seq<char>, ingested: u64) -> bool {
    exists|sorted: Seq<CandleRow>|
        #[trigger] sorted_rows_of(sorted, rows) && bars.len() == sorted.len() && forall|i: int|
            0 <= i < sorted.len() ==> price_bar_of(#[trigger] bars[i], symbol, sorted, i, ingested)
}

fn copy_row(r: &CandleRow) -> (c: CandleRow)
    ensures
        c == *r,
{
    CandleRow {
        start: r.start,
        end: r.end,
        open: r.open,
        high: r.high,
        low: r.low,
        close: r.close,
        volume: r.volume,
        currency: copy_string(&r.currency),
    }
}

fn parse_candle(c: &TossCandle, interval: CandleInterval, ingested_at_ms: u64) -> (r: Result<Option<CandleRow>, String>)
    ensures
        match candle_row(*c, interval, ingested_at_ms) {
            Ok(x) => r == Ok::<Option<CandleRow>, String>(x),
            Err(e) => r matches Err(m) && m@ == e,
        },
{
    let start = match parse_rfc3339_ms(c.timestamp.as_str()) {
        Some(s) => s,
        None => {
            return Err("토스증권 캔들 시각을 해석하지 못했습니다.".to_owned());
        },
    };
    let duration = interval.duration_ms();
    if start > u64::MAX - duration {
        return Err("캔들 종료 시각이 범위를 초과했습니다.".to_owned());
    }
    let end = start + duration;
    if end > ingested_at_ms {
        return Ok(None);
    }
    let open = match parse_price_minor(c.open_price.as_str(), c.currency.as_str()) {
        Some(v) => v,
        None => {
            return Err("토스증권 캔들 시가를 해석하지 못했습니다.".to_owned());
        },
    };
    let high = match parse_price_minor(c.high_price.as_str(), c.currency.as_str()) {
        Some(v) => v,
        None => {
            return Err("토스증권 캔들 고가를 해석하지 못했습니다.".to_owned());
        },
    };
    let low = match parse_price_minor(c.low_price.as_str(), c.currency.as_str()) {
        Some(v) => v,
        None => {
            return Err("토스증권 캔들 저가를 해석하지 못했습니다.".to_owned());
        },
    };
    let close = match parse_price_minor(c.close_price.as_str(), c.currency.as_str()) {
        Some(v) => v,
        None => {
            return Err("토스증권 캔들 종가를 해석하지 못했습니다.".to_owned());
        },
    };
    if low == 0 || low > open || low > close || high < open || high < close {
        return Err("토스증권 캔들 OHLC 관계가 올바르지 않습니다.".to_owned());
    }
    let volume = match parse_u64_text(c.volume.as_str()) {
        Some(v) => v,
        None => {
            return Err("토스증권 캔들 거래량을 해석하지 못했습니다.".to_owned());
        },
    };
    Ok(
        Some(
            CandleRow { start, end, open, high, low, close, volume, currency: copy_string(&c.currency) },
        ),
    )
}

fn insert_row_by_start(out: &mut Vec<CandleRow>, row: CandleRow)
    requires
        rows_start_sorted(old(out)@),
    ensures
        rows_start_sorted(final(out)@),
        final(out)@.to_multiset() == old(out)@.to_multiset().insert(row),
{
    let mut i: usize = 0;
    while i < out.len() && out[i].start <= row.start
        invariant
            i <= out.len(),
            i > 0 ==> out@[i - 1].start <= row.start,
        decreases out.len() - i,
    {
        i = i + 1;
    }
    let ghost before = out@;
    out.insert(i, row);
    proof {
        vstd::seq_lib::to_multiset_insert(before, i as int, row);
        assert forall|a: int| 0 <= a < out@.len() - 1 implies (#[trigger] out@[a]).start <= out@[a + 1].start by {
            if a + 1 < i {
                assert(out@[a] == before[a] && out@[a + 1] == before[a + 1]);
            } else if a + 1 == i {
                assert(out@[a] == before[a]);
            } else if a == i {
                assert(out@[a + 1] == before[a]);
            } else {
                assert(out@[a] == before[a - 1] && out@[a + 1] == before[a]);
            }
        }
    }
}

proof fn lemma_candle_rows_err(candles: Seq<TossCandle>, interval: CandleInterval, ingested: u64, k: int, n: int)
    requires
        0 <= k <= n,
        candle_rows(candles, interval, ingested, k) is Err,
    ensures
        candle_rows(candles, interval, ingested, n) == candle_rows(candles, interval, ingested, k),
    decreases n - k,
{
    if n > k {
        lemma_candle_rows_err(candles, interval, ingested, k, n - 1);
    }
}

/// The completed candles as price bars for `symbol` (see [`candle_rows`],
/// [`sorted_rows_of`] and [`price_bar_of`]).
pub fn price_bars_from_candles(
    symbol: &str,
    interval: CandleInterval,
    candles: Vec<TossCandle>,
    ingested_at_ms: u64,
) -> (r: Result<Vec<PriceBar>, String>)
    ensures
        match candle_rows(candles@, interval, ingested_at_ms, candles@.len() as int) {
            Err(e) => r matches Err(m) && m@ == e,
            Ok(rows) => r matches Ok(bars) && bars_of_rows(bars@, rows, symbol@, ingested_at_ms),
        },
{
    let mut rows: Vec<CandleRow> = Vec::new();
    let ghost mut kept: Seq<CandleRow> = Seq::empty();
    let mut k: usize = 0;
    while k < candles.len()
        invariant
            k <= candles.len(),
            candle_rows(candles@, interval, ingested_at_ms, k as int) == Ok::<Seq<CandleRow>, Seq<char>>(kept),
            rows_start_sorted(rows@),
            rows@.to_multiset() == kept.to_multiset(),
        decreases candles.len() - k,
    {
        match parse_candle(&candles[k], interval, ingested_at_ms) {
            Err(e) => {
                proof {
                    lemma_candle_rows_err(candles@, interval, ingested_at_ms, k as int + 1, candles@.len() as int);
                }
                return Err(e);
            },
            Ok(None) => {},
            Ok(Some(row)) => {
                proof {
                    vstd::seq_lib::to_multiset_build(kept, row);
                    kept = kept.push(row);
                }
                insert_row_by_start(&mut rows, row);
            },
        }
        k = k + 1;
    }
    let ghost sorted = rows@;
    let mut bars: Vec<PriceBar> = Vec::new();
    let n = rows.len();
    let mut i: usize = 0;
    while i < n
        invariant
            n == rows@.len() == sorted.len(),
            rows@ == sorted,
            i <= n,
            bars@.len() == i,
            forall|x: int| 0 <= x < i ==> price_bar_of(#[trigger] bars@[x], symbol@, sorted, x, ingested_at_ms),
        decreases n - i,
    {
        let row = &rows[i];
        let mut end = row.end;
        if i + 1 < n {
            let next_start = rows[i + 1].start;
            if next_start > row.start && next_start < row.end {
                end = next_start;
            }
        }
        bars.push(
            PriceBar {
                symbol: symbol.to_owned(),
                currency: copy_string(&row.currency),
                source: "TOSS_OPEN_API".to_owned(),
                period_start_ms: row.start,
                period_end_ms: end,
                available_at_ms: end,
                ingested_at_ms,
                open_minor: row.open,
                high_minor: row.high,
                low_minor: row.low,
                close_minor: row.close,
                volume: row.volume,
            },
        );
        i = i + 1;
    }
    assert(sorted_rows_of(sorted, kept));
    assert(bars_of_rows(bars@, kept, symbol@, ingested_at_ms));
    Ok(bars)
}


// ---------------------------------------------------------------- chart bars

/// A bar of the price chart: every candle of the response, marked completed
/// once its period has ended at fetch time.
#[derive(Debug, Clone)]
pub struct TossChartBar {
    pub period_start_ms: u64,
    pub period_end_ms: u64,
    pub open_minor: u64,
    pub high_minor: u64,
    pub low_minor: u64,
    pub close_minor: u64,
    pub volume: u64,
    pub completed: bool,
    pub available_at_ms: Option<u64>,
    pub ingested_at_ms: Option<u64>,
    pub session_id: Option<String>,
    pub contract_code: Option<String>,
    pub settlement_price_minor: Option<u64>,
    pub mark_price_minor: Option<u64>,
    pub index_price_minor: Option<u64>,
    pub funding_rate_bps: Option<i64>,
    pub funding_time_ms: Option<u64>,
}

/// One candle as a chart bar in the response's `currency`, or the first
/// refusal in the order the fields are read.
pub open spec fn chart_bar(c: TossCandle, interval: CandleInterval, fetched: u64, currency: Seq<char>) -> Result<
    TossChartBar,
    Seq<char>,
> {
    let start = rfc3339_ms(utf8(c.timestamp@));
    let o = price_minor(c.open_price@, currency);
    let h = price_minor(c.high_price@, currency);
    let l = price_minor(c.low_price@, currency);
    let cl = price_minor(c.close_price@, currency);
    if c.currency@ != currency {
        Err("서로 다른 통화의 캔들이 한 응답에 섞여 있습니다."@)
    } else if start is None {
        Err("토스증권 캔들 시각을 해석하지 못했습니다."@)
    } else if start->0 + interval_ms(interval) > u64::MAX {
        Err("캔들 종료 시각이 지원 범위를 초과했습니다."@)
    } else if o is None {
        Err("토스증권 캔들 시가를 해석하지 못했습니다."@)
    } else if h is None {
        Err("토스증권 캔들 고가를 해석하지 못했습니다."@)
    } else if l is None {
        Err("토스증권 캔들 저가를 해석하지 못했습니다."@)
    } else if cl is None {
        Err("토스증권 캔들 종가를 해석하지 못했습니다."@)
    } else if l->0 == 0 || l->0 > o->0 || l->0 > cl->0 || h->0 < o->0 || h->0 < cl->0 {
        Err("토스증권 캔들 OHLC 관계가 올바르지 않습니다."@)
    } else if u64_text(c.volume@) is None {
        Err("토스증권 캔들 거래량을 해석하지 못했습니다."@)
    } else {
        let end = (start->0 + interval_ms(interval)) as u64;
        Ok(
            TossChartBar {
                period_start_ms: start->0 as u64,
                period_end_ms: end,
                open_minor: o->0 as u64,
                high_minor: h->0 as u64,
                low_minor: l->0 as u64,
                close_minor: cl->0 as u64,
                volume: u64_text(c.volume@)->0 as u64,
                completed: end <= fetched,
                available_at_ms: Some(end),
                ingested_at_ms: Some(fetched),
                session_id: None,
                contract_code: None,
                settlement_price_minor: None,
                mark_price_minor: None,
                index_price_minor: None,
                funding_rate_bps: None,
                funding_time_ms: None,
            },
        )
    }
}

/// The bars of the first `n` candles in response order, or the first refusal.
pub open spec fn chart_bars(
    candles: Seq<TossCandle>,
    interval: CandleInterval,
    fetched: u64,
    currency: Seq<char>,
    n: int,
) -> Result<Seq<TossChartBar>, Seq<char>>
    decreases n,
{
    if n <= 0 {
        Ok(Seq::empty())
    } else {
        match chart_bars(candles, interval, fetched, currency, n - 1) {
            Err(e) => Err(e),
            Ok(prev) => match chart_bar(candles[n - 1], interval, fetched, currency) {
                Err(e) => Err(e),
                Ok(bar) => Ok(prev.push(bar)),
            },
        }
    }
}

/// `bar` placed after every bar that does not start later.
pub open spec fn insert_after_start(s: Seq<TossChartBar>, bar: TossChartBar) -> Seq<TossChartBar>
    decreases s.len(),
{
    if s.len() == 0 || s.last().period_start_ms <= bar.period_start_ms {
        s.push(bar)
    } else {
        insert_after_start(s.drop_last(), bar).push(s.last())
    }
}

/// The bars in start order, equal starts in response order (a stable sort).
pub open spec fn by_start(s: Seq<TossChartBar>) -> Seq<TossChartBar>
    decreases s.len(),
{
    if s.len() == 0 {
        s
    } else {
        insert_after_start(by_start(s.drop_last()), s.last())
    }
}

proof fn lemma_insert_after_start(s: Seq<TossChartBar>, bar: TossChartBar, i: int)
    requires
        0 <= i <= s.len(),
        i > 0 ==> s[i - 1].period_start_ms <= bar.period_start_ms,
        forall|k: int| i <= k < s.len() ==> (#[trigger] s[k]).period_start_ms > bar.period_start_ms,
    ensures
        insert_after_start(s, bar) == s.take(i).push(bar) + s.skip(i),
    decreases s.len(),
{
    if s.len() == i {
        assert(s.take(i) =~= s);
        assert(s.take(i).push(bar) + s.skip(i) =~= s.push(bar));
    } else {
        lemma_insert_after_start(s.drop_last(), bar, i);
        assert(s.drop_last().take(i) =~= s.take(i));
        assert(s.take(i).push(bar) + s.skip(i) =~= (s.take(i).push(bar) + s.drop_last().skip(i)).push(s.last()));
    }
}

fn chart_bar_of(c: &TossCandle, interval: CandleInterval, fetched_at_ms: u64, currency: &String) -> (r: Result<
    TossChartBar,
    String,
>)
    ensures
        match chart_bar(*c, interval, fetched_at_ms, currency@) {
            Ok(b) => r == Ok::<TossChartBar, String>(b),
            Err(e) => r matches Err(m) && m@ == e,
        },
{
    if !crate::text::str_eq(c.currency.as_str(), currency.as_str()) {
        return Err("서로 다른 통화의 캔들이 한 응답에 섞여 있습니다.".to_owned());
    }
    let start = match parse_rfc3339_ms(c.timestamp.as_str()) {
        Some(s) => s,
        None => {
            return Err("토스증권 캔들 시각을 해석하지 못했습니다.".to_owned());
        },
    };
    let duration = interval.duration_ms();
    if start > u64::MAX - duration {
        return Err("캔들 종료 시각이 지원 범위를 초과했습니다.".to_owned());
    }
    let end = start + duration;
    let open = match parse_price_minor(c.open_price.as_str(), currency.as_str()) {
        Some(v) => v,
        None => {
            return Err("토스증권 캔들 시가를 해석하지 못했습니다.".to_owned());
        },
    };
    let high = match parse_price_minor(c.high_price.as_str(), currency.as_str()) {
        Some(v) => v,
        None => {
            return Err("토스증권 캔들 고가를 해석하지 못했습니다.".to_owned());
        },
    };
    let low = match parse_price_minor(c.low_price.as_str(), currency.as_str()) {
        Some(v) => v,
        None => {
            return Err("토스증권 캔들 저가를 해석하지 못했습니다.".to_owned());
        },
    };
    let close = match parse_price_minor(c.close_price.as_str(), currency.as_str()) {
        Some(v) => v,
        None => {
            return Err("토스증권 캔들 종가를 해석하지 못했습니다.".to_owned());
        },
    };
    if low == 0 || low > open || low > close || high < open || high < close {
        return Err("토스증권 캔들 OHLC 관계가 올바르지 않습니다.".to_owned());
    }
    let volume = match parse_u64_text(c.volume.as_str()) {
        Some(v) => v,
        None => {
            return Err("토스증권 캔들 거래량을 해석하지 못했습니다.".to_owned());
        },
    };
    Ok(
        TossChartBar {
            period_start_ms: start,
            period_end_ms: end,
            open_minor: open,
            high_minor: high,
            low_minor: low,
            close_minor: close,
            volume,
            completed: end <= fetched_at_ms,
            available_at_ms: Some(end),
            ingested_at_ms: Some(fetched_at_ms),
            session_id: None,
            contract_code: None,
            settlement_price_minor: None,
            mark_price_minor: None,
            index_price_minor: None,
            funding_rate_bps: None,
            funding_time_ms: None,
        },
    )
}

/// Places `bar` after every bar that does not start later.
pub(crate) fn insert_chart_bar(bars: &mut Vec<TossChartBar>, bar: TossChartBar)
    requires
        forall|a: int, b: int| 0 <= a < b < old(bars)@.len() ==> (#[trigger] old(bars)@[a]).period_start_ms <= (
        #[trigger] old(bars)@[b]).period_start_ms,
    ensures
        final(bars)@ == insert_after_start(old(bars)@, bar),
        forall|a: int, b: int| 0 <= a < b < final(bars)@.len() ==> (#[trigger] final(bars)@[a]).period_start_ms <= (
        #[trigger] final(bars)@[b]).period_start_ms,
{
    let mut i: usize = bars.len();
    while i > 0 && bars[i - 1].period_start_ms > bar.period_start_ms
        invariant
            i <= bars@.len(),
            forall|x: int| i <= x < bars@.len() ==> (#[trigger] bars@[x]).period_start_ms > bar.period_start_ms,
        decreases i,
    {
        i = i - 1;
    }
    let ghost before = bars@;
    proof {
        lemma_insert_after_start(before, bar, i as int);
    }
    bars.insert(i, bar);
    proof {
        assert(bars@ =~= before.take(i as int).push(bar) + before.skip(i as int));
        assert forall|a: int, b: int| 0 <= a < b < bars@.len() implies (#[trigger] bars@[a]).period_start_ms <= (
        #[trigger] bars@[b]).period_start_ms by {
            if b < i {
                assert(bars@[a] == before[a] && bars@[b] == before[b]);
            } else if b == i {
                assert(bars@[a] == before[a]);
            } else if a < i {
                assert(bars@[a] == before[a] && bars@[b] == before[b - 1]);
            } else if a == i {
                assert(bars@[b] == before[b - 1]);
            } else {
                assert(bars@[a] == before[a - 1] && bars@[b] == before[b - 1]);
            }
        }
    }
}

proof fn lemma_chart_bars_err(
    candles: Seq<TossCandle>,
    interval: CandleInterval,
    fetched: u64,
    currency: Seq<char>,
    k: int,
    n: int,
)
    requires
        0 <= k <= n,
        chart_bars(candles, interval, fetched, currency, k) is Err,
    ensures
        chart_bars(candles, interval, fetched, currency, n) == chart_bars(candles, interval, fetched, currency, k),
    decreases n - k,
{
    if n > k {
        lemma_chart_bars_err(candles, interval, fetched, currency, k, n - 1);
    }
}

/// The chart of a candle response: its currency (that of the first candle,
/// which every candle must share) and its bars in start order (see
/// [`chart_bars`] and [`by_start`]).
pub fn chart_bars_from_candles(interval: CandleInterval, candles: Vec<TossCandle>, fetched_at_ms: u64) -> (r: Result<
    (String, Vec<TossChartBar>),
    String,
>)
    ensures
        candles@.len() == 0 ==> (r matches Err(e) && e@ == "조회된 캔들이 없습니다."@),
        candles@.len() > 0 ==> match chart_bars(
            candles@,
            interval,
            fetched_at_ms,
            candles@[0].currency@,
            candles@.len() as int,
        ) {
            Err(e) => r matches Err(m) && m@ == e,
            Ok(bars) => r matches Ok(p) && p.0@ == candles@[0].currency@ && p.1@ == by_start(bars),
        },
{
    if candles.len() == 0 {
        return Err("조회된 캔들이 없습니다.".to_owned());
    }
    let currency = copy_string(&candles[0].currency);
    let ghost mut parsed: Seq<TossChartBar> = Seq::empty();
    let mut bars: Vec<TossChartBar> = Vec::new();
    let mut k: usize = 0;
    while k < candles.len()
        invariant
            k <= candles@.len(),
            currency@ == candles@[0].currency@,
            chart_bars(candles@, interval, fetched_at_ms, currency@, k as int) == Ok::<Seq<TossChartBar>, Seq<char>>(
                parsed,
            ),
            bars@ == by_start(parsed),
            forall|a: int, b: int| 0 <= a < b < bars@.len() ==> (#[trigger] bars@[a]).period_start_ms <= (
            #[trigger] bars@[b]).period_start_ms,
        decreases candles.len() - k,
    {
        match chart_bar_of(&candles[k], interval, fetched_at_ms, &currency) {
            Err(e) => {
                proof {
                    lemma_chart_bars_err(candles@, interval, fetched_at_ms, currency@, k as int + 1, candles@.len() as int);
                }
                return Err(e);
            },
            Ok(bar) => {
                proof {
                    assert(parsed.push(bar).drop_last() =~= parsed);
                }
                insert_chart_bar(&mut bars, bar);
                proof {
                    parsed = parsed.push(bar);
                }
            },
        }
        k = k + 1;
    }
    Ok((currency, bars))
}

} // verus!
