//! The stateful public-trade stream: ticks from the four allowed crypto streams
//! are normalized, folded into a partial one-minute bar, completed bars and the
//! gaps between them are kept in a bounded checkpoint per stream, aligned
//! higher-timeframe bars are emitted once, and recorded gaps can be repaired
//! from official REST minute bars.
use vstd::prelude::*;
use crate::aggregation::{
    aggregate_completed_minute_bars, first_minute_bar_issue_is, minute_bars_valid, upper_bars_result, validate_minute_bars,
    supported_upper_interval, gaps_between, gaps_between_bars, gap_spans, with_reason, lemma_gap_models_reason,
    add_tick, bar_from_tick, bar_of_tick, copy_bar, copy_bars, copy_gap, copy_gaps, copy_string, floor_to,
    gap_model, gap_models, max_u64, min_u64, minute_floor, tick_ok, tick_ok_exec, CompletedMarketBar, GapModel,
    MarketDataGap, NormalizedMarketTick, MINUTE_MS,
};
use crate::dates::pow10;
use crate::market::{all_digit_chars, decimal_value, digits_only, first_dot, lemma_decimal_nonneg, parse_digits_u64};
use crate::text::{
    byte_len, byte_len_spec, chars_of, concat_str, contains, lemma_seq_lt_asym, lemma_seq_lt_total, seq_lt, str_contains, str_eq, str_lt,
    trim, trimmed,
};

verus! {

// ---------------------------------------------------------------- decimal strings

/// Why a decimal string is refused.
#[derive(Debug, Clone, Copy, PartialEq, Eq, Structural)]
pub enum DecimalIssue {
    Form,
    Syntax,
    Scale,
    Precision,
    WholeRange,
    Range,
    FractionRange,
    Zero,
}

/// `floor(log10(x))`, zero below ten.
pub open spec fn ilog10(x: nat) -> nat
    decreases x,
{
    if x < 10 {
        0
    } else {
        1 + ilog10(x / 10)
    }
}

/// The digits with trailing zeros removed.
pub open spec fn trim_zeros_end(s: Seq<char>) -> Seq<char>
    decreases s.len(),
{
    if s.len() > 0 && s.last() == '0' {
        trim_zeros_end(s.drop_last())
    } else {
        s
    }
}

/// A plain positive decimal string in units of `1/scale`: after trimming, at most
/// 64 bytes with no sign and no exponent; digits with at most one `.` and at least
/// one digit before it; a power-of-ten scale; no more significant fraction digits
/// than the scale holds; and a positive result that fits `u64`.
pub open spec fn decimal_units(raw: Seq<char>, scale: u64) -> Result<int, DecimalIssue> {
    let v = trim(raw);
    let dot = first_dot(v, 0);
    let whole = v.subrange(0, dot);
    let rest = if dot < v.len() {
        v.subrange(dot + 1, v.len() as int)
    } else {
        Seq::empty()
    };
    let second = first_dot(rest, 0);
    let fraction = rest.subrange(0, second);
    let precision = ilog10(scale as nat);
    let sig = trim_zeros_end(fraction);
    let whole_value = decimal_value(whole);
    let padded = decimal_value(sig) * pow10((precision - sig.len()) as nat);
    if v.len() == 0 || byte_len_spec(v) > 64 || v[0] == '-' || v[0] == '+' || contains(v, "e"@) || contains(
        v,
        "E"@,
    ) {
        Err(DecimalIssue::Form)
    } else if second < rest.len() || whole.len() == 0 || !all_digit_chars(whole) || !all_digit_chars(fraction) {
        Err(DecimalIssue::Syntax)
    } else if pow10(precision) != scale {
        Err(DecimalIssue::Scale)
    } else if sig.len() > precision {
        Err(DecimalIssue::Precision)
    } else if whole_value > u64::MAX {
        Err(DecimalIssue::WholeRange)
    } else if whole_value * scale > u64::MAX {
        Err(DecimalIssue::Range)
    } else if padded > u64::MAX {
        Err(DecimalIssue::FractionRange)
    } else if whole_value * scale + padded > u64::MAX {
        Err(DecimalIssue::Range)
    } else if whole_value * scale + padded == 0 {
        Err(DecimalIssue::Zero)
    } else {
        Ok(whole_value * scale + padded)
    }
}

/// The message of a refused decimal string, naming the field.
pub open spec fn decimal_issue_message(issue: DecimalIssue, label: Seq<char>) -> Seq<char> {
    match issue {
        DecimalIssue::Form => label + "은 0보다 큰 일반 소수 문자열이어야 합니다."@,
        DecimalIssue::Syntax => label + " 소수 형식이 올바르지 않습니다."@,
        DecimalIssue::Scale => label + " 단위는 10의 거듭제곱이어야 합니다."@,
        DecimalIssue::Precision => label + "의 소수 정밀도가 지원 단위를 초과했습니다."@,
        DecimalIssue::WholeRange => label + " 정수부가 지원 범위를 초과했습니다."@,
        DecimalIssue::Range => label + " 값이 지원 범위를 초과했습니다."@,
        DecimalIssue::FractionRange => label + " 소수부가 지원 범위를 초과했습니다."@,
        DecimalIssue::Zero => label + "은 0보다 커야 합니다."@,
    }
}

proof fn lemma_pow10_monotone(a: nat, b: nat)
    requires
        a <= b,
    ensures
        1 <= pow10(a) <= pow10(b),
    decreases b,
{
    if b > a {
        lemma_pow10_monotone(a, (b - 1) as nat);
    } else if a > 0 {
        lemma_pow10_monotone((a - 1) as nat, (a - 1) as nat);
    }
}

proof fn lemma_ilog10_pow(x: nat)
    requires
        x >= 1,
    ensures
        pow10(ilog10(x)) <= x,
    decreases x,
{
    if x >= 10 {
        lemma_ilog10_pow(x / 10);
    }
}

proof fn lemma_trim_zeros_prefix(s: Seq<char>)
    ensures
        trim_zeros_end(s).len() <= s.len(),
        trim_zeros_end(s) =~= s.subrange(0, trim_zeros_end(s).len() as int),
    decreases s.len(),
{
    if s.len() > 0 && s.last() == '0' {
        lemma_trim_zeros_prefix(s.drop_last());
        assert(s.drop_last().subrange(0, trim_zeros_end(s).len() as int) =~= s.subrange(
            0,
            trim_zeros_end(s).len() as int,
        ));
    } else {
        assert(s.subrange(0, s.len() as int) =~= s);
    }
}

/// `value * 10^times`, or `None` when it leaves `u64`.
fn scale_up(value: u64, times: usize) -> (r: Option<u64>)
    ensures
        match r {
            Some(x) => x == value * pow10(times as nat),
            None => value * pow10(times as nat) > u64::MAX,
        },
{
    let mut x: u64 = value;
    let mut j: usize = 0;
    assert(value * pow10(0) == value);
    while j < times
        invariant
            j <= times,
            x == value * pow10(j as nat),
        decreases times - j,
    {
        proof {
            lemma_pow10_monotone((j + 1) as nat, times as nat);
            assert(pow10((j + 1) as nat) == 10 * pow10(j as nat));
        }
        if x > u64::MAX / 10 {
            assert(value * pow10(times as nat) > u64::MAX) by (nonlinear_arith)
                requires
                    x > u64::MAX / 10,
                    x == value * pow10(j as nat),
                    pow10((j + 1) as nat) == 10 * pow10(j as nat),
                    pow10((j + 1) as nat) <= pow10(times as nat),
                    value >= 0,
            ;
            return None;
        }
        assert(x * 10 == value * pow10((j + 1) as nat)) by (nonlinear_arith)
            requires
                x == value * pow10(j as nat),
                pow10((j + 1) as nat) == 10 * pow10(j as nat),
        ;
        x = x * 10;
        j = j + 1;
    }
    Some(x)
}

/// A plain decimal string as a positive whole number of `1/scale` units (see
/// [`decimal_units`]); the error names `label`.
pub fn decimal_to_units(raw: &str, scale: u64, label: &str) -> (r: Result<u64, String>)
    requires
        scale > 0,
    ensures
        match decimal_units(raw@, scale) {
            Ok(v) => r == Ok::<u64, String>(v as u64),
            Err(issue) => r matches Err(e) && e@ == decimal_issue_message(issue, label@),
        },
{
    let value = trimmed(raw);
    let v = chars_of(value.as_str());
    let n = v.len();
    if n == 0 || byte_len(value.as_str()) > 64 || v[0] == '-' || v[0] == '+' || str_contains(value.as_str(), "e")
        || str_contains(value.as_str(), "E") {
        return Err(concat_str(label, "은 0보다 큰 일반 소수 문자열이어야 합니다."));
    }
    let mut dot: usize = 0;
    while dot < n && v[dot] != '.'
        invariant
            dot <= n == v.len(),
            first_dot(v@, 0) == first_dot(v@, dot as int),
        decreases n - dot,
    {
        dot = dot + 1;
    }
    let rest_lo: usize = if dot < n {
        dot + 1
    } else {
        n
    };
    let ghost rest = if dot < n {
        v@.subrange(dot + 1, n as int)
    } else {
        Seq::<char>::empty()
    };
    assert(rest =~= v@.subrange(rest_lo as int, n as int));
    let mut second: usize = rest_lo;
    while second < n && v[second] != '.'
        invariant
            rest_lo <= second <= n == v.len(),
            rest =~= v@.subrange(rest_lo as int, n as int),
            first_dot(rest, 0) == first_dot(rest, (second - rest_lo) as int),
        decreases n - second,
    {
        assert(rest[second - rest_lo] == v@[second as int]);
        second = second + 1;
    }
    proof {
        if second < n {
            assert(rest[second - rest_lo] == v@[second as int]);
        }
    }
    if second < n || dot == 0 || !digits_only(&v, 0, dot) || !digits_only(&v, rest_lo, second) {
        proof {
            assert(v@.subrange(rest_lo as int, second as int) =~= rest.subrange(0, (second - rest_lo) as int));
        }
        return Err(concat_str(label, " 소수 형식이 올바르지 않습니다."));
    }
    let ghost whole = v@.subrange(0, dot as int);
    let ghost fraction = rest.subrange(0, (second - rest_lo) as int);
    assert(fraction =~= v@.subrange(rest_lo as int, second as int));
    // precision = ilog10(scale)
    let mut precision: usize = 0;
    let mut x: u64 = scale;
    while x >= 10
        invariant
            x >= 1,
            ilog10(scale as nat) == precision + ilog10(x as nat),
            pow10(precision as nat) * x <= scale,
        decreases x,
    {
        proof {
            lemma_pow10_monotone(0, precision as nat);
            assert(pow10((precision + 1) as nat) == 10 * pow10(precision as nat));
            assert(pow10((precision + 1) as nat) * (x / 10) <= pow10(precision as nat) * x) by (nonlinear_arith)
                requires
                    pow10(precision as nat) >= 1,
                    pow10((precision + 1) as nat) == 10 * pow10(precision as nat),
                    x >= 10,
            ;
            assert(pow10(precision as nat) <= pow10(precision as nat) * x) by (nonlinear_arith)
                requires
                    pow10(precision as nat) >= 1,
                    x >= 1,
            ;
            if precision >= 20 {
                lemma_pow10_monotone(20, precision as nat);
                assert(pow10(20) > u64::MAX) by {
                    reveal_with_fuel(pow10, 21);
                }
            }
        }
        x = x / 10;
        precision = precision + 1;
    }
    proof {
        lemma_ilog10_pow(scale as nat);
    }
    let mut power: u64 = 1;
    let mut k: usize = 0;
    while k < precision
        invariant
            k <= precision,
            precision == ilog10(scale as nat),
            pow10(precision as nat) <= scale,
            power == pow10(k as nat),
        decreases precision - k,
    {
        proof {
            lemma_pow10_monotone((k + 1) as nat, precision as nat);
        }
        power = power * 10;
        k = k + 1;
    }
    if power != scale {
        return Err(concat_str(label, " 단위는 10의 거듭제곱이어야 합니다."));
    }
    // significant fraction digits: trailing zeros dropped
    let mut sig_hi: usize = second;
    while sig_hi > rest_lo && v[sig_hi - 1] == '0'
        invariant
            rest_lo <= sig_hi <= second <= n == v.len(),
            trim_zeros_end(fraction) == trim_zeros_end(v@.subrange(rest_lo as int, sig_hi as int)),
        decreases sig_hi,
    {
        assert(v@.subrange(rest_lo as int, sig_hi as int).drop_last() =~= v@.subrange(rest_lo as int, sig_hi - 1));
        sig_hi = sig_hi - 1;
    }
    let ghost sig = v@.subrange(rest_lo as int, sig_hi as int);
    assert(trim_zeros_end(fraction) == sig) by {
        if sig.len() > 0 {
            assert(sig.last() == v@[sig_hi - 1]);
        }
    }
    let sig_len = sig_hi - rest_lo;
    if sig_len > precision {
        return Err(concat_str(label, "의 소수 정밀도가 지원 단위를 초과했습니다."));
    }
    let whole_value = match parse_digits_u64(&v, 0, dot) {
        Some(w) => w,
        None => {
            return Err(concat_str(label, " 정수부가 지원 범위를 초과했습니다."));
        },
    };
    if whole_value > u64::MAX / scale {
        assert(whole_value * scale > u64::MAX) by (nonlinear_arith)
            requires
                whole_value > u64::MAX / scale,
                scale > 0,
        ;
        return Err(concat_str(label, " 값이 지원 범위를 초과했습니다."));
    }
    assert(whole_value * scale <= u64::MAX) by (nonlinear_arith)
        requires
            whole_value <= u64::MAX / scale,
            scale > 0,
    ;
    let whole_units = whole_value * scale;
    assert(all_digit_chars(sig)) by {
        assert forall|i: int| 0 <= i < sig.len() implies crate::market::is_digit(#[trigger] sig[i]) by {
            assert(sig[i] == fraction[i]);
        }
    }
    let ghost padded = decimal_value(sig) * pow10((precision - sig_len) as nat);
    proof {
        lemma_decimal_nonneg(sig);
        lemma_pow10_monotone(0, (precision - sig_len) as nat);
    }
    let sig_value = match parse_digits_u64(&v, rest_lo, sig_hi) {
        Some(s) => s,
        None => {
            assert(padded > u64::MAX) by (nonlinear_arith)
                requires
                    decimal_value(sig) > u64::MAX,
                    pow10((precision - sig_len) as nat) >= 1,
                    padded == decimal_value(sig) * pow10((precision - sig_len) as nat),
            ;
            return Err(concat_str(label, " 소수부가 지원 범위를 초과했습니다."));
        },
    };
    assert(decimal_value(sig) * pow10(0) == decimal_value(sig));
    let fraction_units = match scale_up(sig_value, precision - sig_len) {
        Some(f) => f,
        None => {
            return Err(concat_str(label, " 소수부가 지원 범위를 초과했습니다."));
        },
    };
    if whole_units > u64::MAX - fraction_units {
        return Err(concat_str(label, " 값이 지원 범위를 초과했습니다."));
    }
    let units = whole_units + fraction_units;
    if units == 0 {
        return Err(concat_str(label, "은 0보다 커야 합니다."));
    }
    Ok(units)
}

// ---------------------------------------------------------------- stream ticks

pub const QUANTITY_SCALE: u64 = 100_000_000;
pub const RETAINED_MINUTE_BAR_LIMIT: usize = 480;
pub const RETAINED_GAP_LIMIT: usize = 256;

/// A public trade as a stream worker reports it, before normalization.
#[derive(Debug, Clone)]
pub struct MarketStreamTickInput {
    pub stream_id: String,
    pub provider: String,
    pub asset_class: String,
    pub symbol: String,
    pub currency: String,
    pub event_at_ms: u64,
    pub received_at_ms: u64,
    pub sequence: Option<u64>,
    pub price: String,
    pub quantity: String,
}

/// The provider, asset class, symbol and currency each allowed stream carries.
pub open spec fn stream_identity_spec(id: Seq<char>) -> Option<(Seq<char>, Seq<char>, Seq<char>, Seq<char>)> {
    if id == "upbit_spot"@ {
        Some(("Upbit"@, "crypto_spot"@, "KRW-BTC"@, "KRW"@))
    } else if id == "binance_spot"@ {
        Some(("Binance"@, "crypto_spot"@, "BTCUSDT"@, "USD"@))
    } else if id == "binance_usdm"@ {
        Some(("Binance"@, "crypto_futures"@, "BTCUSDT"@, "USD"@))
    } else if id == "binance_coinm"@ {
        Some(("Binance"@, "crypto_futures"@, "BTCUSD_PERP"@, "USD"@))
    } else {
        None
    }
}

pub fn stream_identity(stream_id: &str) -> (r: Result<(&'static str, &'static str, &'static str, &'static str), String>)
    ensures
        match stream_identity_spec(stream_id@) {
            Some(x) => r matches Ok(y) && (y.0@, y.1@, y.2@, y.3@) == x,
            None => r matches Err(e) && e@ == "허용되지 않은 공개 시장 스트림입니다."@,
        },
{
    if str_eq(stream_id, "upbit_spot") {
        Ok(("Upbit", "crypto_spot", "KRW-BTC", "KRW"))
    } else if str_eq(stream_id, "binance_spot") {
        Ok(("Binance", "crypto_spot", "BTCUSDT", "USD"))
    } else if str_eq(stream_id, "binance_usdm") {
        Ok(("Binance", "crypto_futures", "BTCUSDT", "USD"))
    } else if str_eq(stream_id, "binance_coinm") {
        Ok(("Binance", "crypto_futures", "BTCUSD_PERP", "USD"))
    } else {
        Err("허용되지 않은 공개 시장 스트림입니다.".to_owned())
    }
}

/// Prices of won streams are whole won; other streams keep cents.
pub open spec fn price_scale_of(currency: Seq<char>) -> u64 {
    if currency == "KRW"@ {
        1
    } else {
        100
    }
}

/// The normalized tick of a stream input, or the first refusal: an unknown
/// stream, a source that is not the stream's, a missing sequence, a price or a
/// quantity that is not a plain decimal in the stream's units, or a tick that
/// fails the tick contract at its own receipt time.
pub open spec fn normalized_tick(input: MarketStreamTickInput) -> Result<NormalizedMarketTick, Seq<char>> {
    let price = decimal_units(input.price@, price_scale_of(input.currency@));
    let quantity = decimal_units(input.quantity@, QUANTITY_SCALE);
    match stream_identity_spec(input.stream_id@) {
        None => Err("허용되지 않은 공개 시장 스트림입니다."@),
        Some(x) => if (input.provider@, input.asset_class@, input.symbol@, input.currency@) != x {
            Err("스트림 ID와 공급자·자산·종목·통화 계약이 일치하지 않습니다."@)
        } else if input.sequence is None {
            Err("공개 체결 Tick에는 공급자 순번이 필요합니다."@)
        } else if price is Err {
            Err(decimal_issue_message(price->Err_0, "체결 가격"@))
        } else if quantity is Err {
            Err(decimal_issue_message(quantity->Err_0, "체결 수량"@))
        } else {
            let tick = NormalizedMarketTick {
                provider: input.provider,
                asset_class: input.asset_class,
                symbol: input.symbol,
                currency: input.currency,
                event_at_ms: input.event_at_ms,
                received_at_ms: input.received_at_ms,
                sequence: input.sequence,
                price_minor: price->Ok_0 as u64,
                quantity_base_units: quantity->Ok_0 as u64,
                quantity_scale: QUANTITY_SCALE,
            };
            if !tick_ok(tick, tick.received_at_ms) {
                Err("Tick의 식별자·가격·수량·시각 계약이 올바르지 않습니다."@)
            } else {
                Ok(tick)
            }
        },
    }
}

pub fn normalize_stream_tick(input: MarketStreamTickInput) -> (r: Result<NormalizedMarketTick, String>)
    ensures
        match normalized_tick(input) {
            Ok(t) => r == Ok::<NormalizedMarketTick, String>(t),
            Err(e) => r matches Err(m) && m@ == e,
        },
{
    let expected = stream_identity(input.stream_id.as_str())?;
    if !(str_eq(input.provider.as_str(), expected.0) && str_eq(input.asset_class.as_str(), expected.1) && str_eq(
        input.symbol.as_str(),
        expected.2,
    ) && str_eq(input.currency.as_str(), expected.3)) {
        return Err("스트림 ID와 공급자·자산·종목·통화 계약이 일치하지 않습니다.".to_owned());
    }
    if input.sequence.is_none() {
        return Err("공개 체결 Tick에는 공급자 순번이 필요합니다.".to_owned());
    }
    let price_scale: u64 = if str_eq(input.currency.as_str(), "KRW") {
        1
    } else {
        100
    };
    let price_minor = decimal_to_units(input.price.as_str(), price_scale, "체결 가격")?;
    let quantity_base_units = decimal_to_units(input.quantity.as_str(), QUANTITY_SCALE, "체결 수량")?;
    let tick = NormalizedMarketTick {
        provider: input.provider,
        asset_class: input.asset_class,
        symbol: input.symbol,
        currency: input.currency,
        event_at_ms: input.event_at_ms,
        received_at_ms: input.received_at_ms,
        sequence: input.sequence,
        price_minor,
        quantity_base_units,
        quantity_scale: QUANTITY_SCALE,
    };
    if !tick_ok_exec(&tick, tick.received_at_ms) {
        return Err("Tick의 식별자·가격·수량·시각 계약이 올바르지 않습니다.".to_owned());
    }
    Ok(tick)
}

// ---------------------------------------------------------------- stream state

/// The checkpointed aggregation state of one stream.
#[derive(Debug, Clone)]
pub struct StreamAggregationState {
    pub stream_id: String,
    pub provider: String,
    pub asset_class: String,
    pub symbol: String,
    pub currency: String,
    pub partial_bar: Option<CompletedMarketBar>,
    pub completed_minute_bars: Vec<CompletedMarketBar>,
    pub gaps: Vec<MarketDataGap>,
    /// For each higher interval, the end of the last bar already emitted.
    pub emitted_upper_end_ms: Vec<(u16, u64)>,
    pub last_event_at_ms: Option<u64>,
    pub last_sequence: Option<u64>,
    pub last_price_minor: Option<u64>,
    pub last_quantity_base_units: Option<u64>,
    pub updated_at_ms: u64,
}

/// The part of a stream state that ticks, flushes and repairs change.
pub struct StreamModel {
    pub partial: Option<CompletedMarketBar>,
    pub completed: Seq<CompletedMarketBar>,
    pub gaps: Seq<GapModel>,
    pub emitted: Seq<(u16, u64)>,
    pub last_event: Option<u64>,
    pub last_sequence: Option<u64>,
    pub last_price: Option<u64>,
    pub last_quantity: Option<u64>,
    pub updated_at: u64,
}

pub open spec fn model(s: StreamAggregationState) -> StreamModel {
    StreamModel {
        partial: s.partial_bar,
        completed: s.completed_minute_bars@,
        gaps: gap_models(s.gaps@),
        emitted: s.emitted_upper_end_ms@,
        last_event: s.last_event_at_ms,
        last_sequence: s.last_sequence,
        last_price: s.last_price_minor,
        last_quantity: s.last_quantity_base_units,
        updated_at: s.updated_at_ms,
    }
}

/// The stream's identity fields agree.
pub open spec fn same_identity(a: StreamAggregationState, b: StreamAggregationState) -> bool {
    &&& a.stream_id@ == b.stream_id@
    &&& a.provider@ == b.provider@
    &&& a.asset_class@ == b.asset_class@
    &&& a.symbol@ == b.symbol@
    &&& a.currency@ == b.currency@
}

/// The last `n` items of `s` (all of them when there are no more than `n`).
pub open spec fn keep_last<A>(s: Seq<A>, n: int) -> Seq<A> {
    if s.len() > n {
        s.subrange(s.len() - n, s.len() as int)
    } else {
        s
    }
}

pub fn copy_opt_bar(b: &Option<CompletedMarketBar>) -> (r: Option<CompletedMarketBar>)
    ensures
        r == *b,
{
    match b {
        Some(x) => Some(copy_bar(x)),
        None => None,
    }
}

fn keep_last_bars(v: Vec<CompletedMarketBar>, n: usize) -> (r: Vec<CompletedMarketBar>)
    ensures
        r@ == keep_last(v@, n as int),
{
    if v.len() <= n {
        return v;
    }
    let mut out: Vec<CompletedMarketBar> = Vec::new();
    let start = v.len() - n;
    let mut i = start;
    while i < v.len()
        invariant
            start <= i <= v.len(),
            start == v.len() - n,
            out@ == v@.subrange(start as int, i as int),
        decreases v.len() - i,
    {
        out.push(copy_bar(&v[i]));
        i = i + 1;
    }
    out
}

fn keep_last_gaps(v: Vec<MarketDataGap>, n: usize) -> (r: Vec<MarketDataGap>)
    ensures
        r@ == keep_last(v@, n as int),
{
    if v.len() <= n {
        return v;
    }
    let mut out: Vec<MarketDataGap> = Vec::new();
    let start = v.len() - n;
    let mut i = start;
    while i < v.len()
        invariant
            start <= i <= v.len(),
            start == v.len() - n,
            out@ == v@.subrange(start as int, i as int),
        decreases v.len() - i,
    {
        out.push(copy_gap(&v[i]));
        i = i + 1;
    }
    out
}

proof fn lemma_keep_last_gap_models(v: Seq<MarketDataGap>, n: int)
    requires
        n >= 0,
    ensures
        gap_models(keep_last(v, n)) == keep_last(gap_models(v), n),
{
    if v.len() > n {
        let a = gap_models(keep_last(v, n));
        let b = keep_last(gap_models(v), n);
        assert(a.len() == b.len());
        assert forall|i: int| 0 <= i < a.len() implies a[i] == b[i] by {
            assert(keep_last(v, n)[i] == v[v.len() - n + i]);
        }
        assert(a =~= b);
    }
}

/// A fresh state for a stream whose first tick is `tick`.
pub fn empty_stream_state(stream_id: String, tick: &NormalizedMarketTick) -> (r: StreamAggregationState)
    ensures
        r.stream_id == stream_id,
        r.provider@ == tick.provider@,
        r.asset_class@ == tick.asset_class@,
        r.symbol@ == tick.symbol@,
        r.currency@ == tick.currency@,
        model(r) == (StreamModel {
            partial: None,
            completed: Seq::empty(),
            gaps: Seq::empty(),
            emitted: Seq::empty(),
            last_event: None,
            last_sequence: None,
            last_price: None,
            last_quantity: None,
            updated_at: tick.received_at_ms,
        }),
{
    let r = StreamAggregationState {
        stream_id,
        provider: copy_string(&tick.provider),
        asset_class: copy_string(&tick.asset_class),
        symbol: copy_string(&tick.symbol),
        currency: copy_string(&tick.currency),
        partial_bar: None,
        completed_minute_bars: Vec::new(),
        gaps: Vec::new(),
        emitted_upper_end_ms: Vec::new(),
        last_event_at_ms: None,
        last_sequence: None,
        last_price_minor: None,
        last_quantity_base_units: None,
        updated_at_ms: tick.received_at_ms,
    };
    assert(gap_models(r.gaps@) =~= Seq::<GapModel>::empty());
    r
}

/// The source a stream state aggregates: provider, asset class, symbol, currency.
pub type Ident = (Seq<char>, Seq<char>, Seq<char>, Seq<char>);

pub open spec fn ident(s: StreamAggregationState) -> Ident {
    (s.provider@, s.asset_class@, s.symbol@, s.currency@)
}

/// Why a tick cannot be applied to a stream state, checked in this order: a
/// different source, a tick inside an already completed bar, an event time before
/// the last one, a sequence not after the last one, or a repeated unsequenced tick.
pub open spec fn tick_error_model(id: Ident, m: StreamModel, t: NormalizedMarketTick) -> Option<Seq<char>> {
    if id != (t.provider@, t.asset_class@, t.symbol@, t.currency@) {
        Some("복구된 집계 상태와 새 Tick의 원천 계약이 다릅니다."@)
    } else if m.completed.len() > 0 && t.event_at_ms < m.completed.last().period_end_ms {
        Some("이미 완료된 봉 구간의 지연 Tick은 반영하지 않습니다."@)
    } else if m.last_event is Some && t.event_at_ms < m.last_event->0 {
        Some("Tick 이벤트 시각이 복구된 상태보다 역행했습니다."@)
    } else if m.last_sequence is Some && t.sequence is Some && t.sequence->0 <= m.last_sequence->0 {
        Some("Tick 공급자 순번이 복구된 상태와 중복되거나 역행했습니다."@)
    } else if m.last_event == Some(t.event_at_ms) && m.last_sequence is None && t.sequence is None && m.last_price
        == Some(t.price_minor) && m.last_quantity == Some(t.quantity_base_units) {
        Some("순번 없는 동일 Tick이 중복 입력됐습니다."@)
    } else {
        None
    }
}

pub open spec fn tick_state_error(s: StreamAggregationState, t: NormalizedMarketTick) -> Option<Seq<char>> {
    tick_error_model(ident(s), model(s), t)
}

pub fn validate_tick_against_state(state: &StreamAggregationState, tick: &NormalizedMarketTick) -> (r: Result<
    (),
    String,
>)
    ensures
        match tick_state_error(*state, *tick) {
            None => r is Ok,
            Some(e) => r matches Err(m) && m@ == e,
        },
{
    if !(str_eq(state.provider.as_str(), tick.provider.as_str()) && str_eq(
        state.asset_class.as_str(),
        tick.asset_class.as_str(),
    ) && str_eq(state.symbol.as_str(), tick.symbol.as_str()) && str_eq(
        state.currency.as_str(),
        tick.currency.as_str(),
    )) {
        return Err("복구된 집계 상태와 새 Tick의 원천 계약이 다릅니다.".to_owned());
    }
    let n = state.completed_minute_bars.len();
    if n > 0 && tick.event_at_ms < state.completed_minute_bars[n - 1].period_end_ms {
        return Err("이미 완료된 봉 구간의 지연 Tick은 반영하지 않습니다.".to_owned());
    }
    match state.last_event_at_ms {
        Some(last) => {
            if tick.event_at_ms < last {
                return Err("Tick 이벤트 시각이 복구된 상태보다 역행했습니다.".to_owned());
            }
        },
        None => {},
    }
    match (state.last_sequence, tick.sequence) {
        (Some(last), Some(sequence)) => {
            if sequence <= last {
                return Err("Tick 공급자 순번이 복구된 상태와 중복되거나 역행했습니다.".to_owned());
            }
        },
        _ => {},
    }
    if state.last_event_at_ms == Some(tick.event_at_ms) && state.last_sequence.is_none() && tick.sequence.is_none()
        && state.last_price_minor == Some(tick.price_minor) && state.last_quantity_base_units == Some(
        tick.quantity_base_units,
    ) {
        return Err("순번 없는 동일 Tick이 중복 입력됐습니다.".to_owned());
    }
    Ok(())
}

/// The gap reason of minutes without any public trade.
pub open spec fn tick_gap_reason() -> Seq<char> {
    "공개 체결 Tick이 없는 1분 구간"@
}

/// Records the minutes between the last completed bar and a new partial bar
/// starting at `start` as a gap, keeping the latest 256 gaps; `Err` (state
/// unchanged) when the minute count does not fit `u32`.
pub open spec fn gap_append_model(m: StreamModel, start: u64) -> Result<StreamModel, Seq<char>> {
    if m.completed.len() > 0 && start > m.completed.last().period_end_ms {
        let end = m.completed.last().period_end_ms;
        let missing = (start - end) / (MINUTE_MS as int);
        if missing > u32::MAX {
            Err("시장 데이터 gap 길이가 지원 범위를 초과했습니다."@)
        } else {
            Ok(StreamModel { gaps: keep_last(m.gaps.push((end, start, missing as u32, tick_gap_reason())), 256), ..m })
        }
    } else {
        Ok(StreamModel { gaps: keep_last(m.gaps, 256), ..m })
    }
}

pub fn append_gap_before_partial(state: &mut StreamAggregationState, partial_start_ms: u64) -> (r: Result<
    (),
    String,
>)
    ensures
        same_identity(*old(state), *final(state)),
        match gap_append_model(model(*old(state)), partial_start_ms) {
            Ok(m) => r is Ok && model(*final(state)) == m,
            Err(e) => r matches Err(x) && x@ == e && *final(state) == *old(state),
        },
{
    let n = state.completed_minute_bars.len();
    let ghost old_gaps = state.gaps@;
    if n > 0 && partial_start_ms > state.completed_minute_bars[n - 1].period_end_ms {
        let end = state.completed_minute_bars[n - 1].period_end_ms;
        let missing = (partial_start_ms - end) / MINUTE_MS;
        if missing > 0xffff_ffffu64 {
            return Err("시장 데이터 gap 길이가 지원 범위를 초과했습니다.".to_owned());
        }
        state.gaps.push(
            MarketDataGap {
                period_start_ms: end,
                period_end_ms: partial_start_ms,
                missing_unit_count: missing as u32,
                reason: "공개 체결 Tick이 없는 1분 구간".to_owned(),
            },
        );
        assert(gap_models(state.gaps@) =~= gap_models(old_gaps).push(
            (end, partial_start_ms, missing as u32, tick_gap_reason()),
        ));
    }
    let mut gaps: Vec<MarketDataGap> = Vec::new();
    std::mem::swap(&mut gaps, &mut state.gaps);
    let ghost pushed = gaps@;
    state.gaps = keep_last_gaps(gaps, RETAINED_GAP_LIMIT);
    proof {
        lemma_keep_last_gap_models(pushed, 256);
    }
    Ok(())
}

/// Completes the partial bar when forced or when it ended by the watermark: it
/// becomes available at the later of its end and the watermark, joins the
/// completed bars (keeping the latest 480), and is returned.
pub open spec fn finalize_model(m: StreamModel, watermark: u64, force: bool) -> (StreamModel, Option<CompletedMarketBar>) {
    if m.partial is Some && (force || m.partial->0.period_end_ms <= watermark) {
        let p = m.partial->0;
        let c = CompletedMarketBar { available_at_ms: max_u64(p.period_end_ms, watermark), ..p };
        (StreamModel { partial: None, completed: keep_last(m.completed.push(c), 480), ..m }, Some(c))
    } else {
        (m, None)
    }
}

pub fn finalize_partial(state: &mut StreamAggregationState, watermark_ms: u64, force: bool) -> (r: Option<
    CompletedMarketBar,
>)
    ensures
        same_identity(*old(state), *final(state)),
        model(*final(state)) == finalize_model(model(*old(state)), watermark_ms, force).0,
        r == finalize_model(model(*old(state)), watermark_ms, force).1,
{
    let should_finalize = match &state.partial_bar {
        Some(bar) => force || bar.period_end_ms <= watermark_ms,
        None => false,
    };
    if !should_finalize {
        return None;
    }
    let mut taken: Option<CompletedMarketBar> = None;
    std::mem::swap(&mut taken, &mut state.partial_bar);
    let mut completed = match taken {
        Some(b) => b,
        None => {
            return None;
        },
    };
    completed.available_at_ms = if completed.period_end_ms >= watermark_ms {
        completed.period_end_ms
    } else {
        watermark_ms
    };
    let mut bars: Vec<CompletedMarketBar> = Vec::new();
    std::mem::swap(&mut bars, &mut state.completed_minute_bars);
    bars.push(copy_bar(&completed));
    state.completed_minute_bars = keep_last_bars(bars, RETAINED_MINUTE_BAR_LIMIT);
    Some(completed)
}

/// The last-tick bookkeeping after a tick is applied.
pub open spec fn after_tick(m: StreamModel, t: NormalizedMarketTick) -> StreamModel {
    StreamModel {
        last_event: Some(t.event_at_ms),
        last_sequence: if t.sequence is Some {
            t.sequence
        } else {
            m.last_sequence
        },
        last_price: Some(t.price_minor),
        last_quantity: Some(t.quantity_base_units),
        updated_at: t.received_at_ms,
        ..m
    }
}

/// A tick applied to the stream: a tick of an earlier minute than the partial bar
/// is refused; a tick of a later minute first completes the partial bar (forced,
/// at the tick's receipt time) and opens a new one after recording the minutes
/// without trades as a gap; a tick of the same minute folds into the partial bar.
/// The state reached before a refusal is kept as it stands.
pub open spec fn merge_model(m: StreamModel, t: NormalizedMarketTick) -> (
    StreamModel,
    Result<Option<CompletedMarketBar>, Seq<char>>,
) {
    let start = floor_to(t.event_at_ms, MINUTE_MS);
    if m.partial is Some && start < m.partial->0.period_start_ms {
        (m, Err("새 Tick이 현재 partial 봉보다 이전 구간입니다."@))
    } else {
        let f = if m.partial is Some && start > m.partial->0.period_start_ms {
            finalize_model(m, t.received_at_ms, true)
        } else {
            (m, None)
        };
        let m1 = f.0;
        if m1.partial is None {
            match gap_append_model(m1, start) {
                Err(e) => (m1, Err(e)),
                Ok(m2) => match bar_of_tick(t, 1) {
                    None => (m2, Err("1분봉 종료 시각이 지원 범위를 초과했습니다."@)),
                    Some(b) => (after_tick(StreamModel { partial: Some(b), ..m2 }, t), Ok(f.1)),
                },
            }
        } else {
            let p = m1.partial->0;
            let p1 = CompletedMarketBar {
                high_minor: max_u64(p.high_minor, t.price_minor),
                low_minor: min_u64(p.low_minor, t.price_minor),
                close_minor: t.price_minor,
                ..p
            };
            if p1.volume_base_units + t.quantity_base_units > u64::MAX {
                (StreamModel { partial: Some(p1), ..m1 }, Err("1분봉 거래량 합계가 지원 범위를 초과했습니다."@))
            } else {
                let p2 = CompletedMarketBar {
                    volume_base_units: (p1.volume_base_units + t.quantity_base_units) as u64,
                    ..p1
                };
                if p2.source_count + 1 > u32::MAX {
                    (StreamModel { partial: Some(p2), ..m1 }, Err("1분봉 원천 Tick 수가 지원 범위를 초과했습니다."@))
                } else {
                    let p3 = CompletedMarketBar {
                        source_count: (p2.source_count + 1) as u32,
                        ingested_at_ms: max_u64(p2.ingested_at_ms, t.received_at_ms),
                        ..p2
                    };
                    (after_tick(StreamModel { partial: Some(p3), ..m1 }, t), Ok(f.1))
                }
            }
        }
    }
}

pub fn merge_tick_into_partial(state: &mut StreamAggregationState, tick: &NormalizedMarketTick) -> (r: Result<
    Option<CompletedMarketBar>,
    String,
>)
    ensures
        same_identity(*old(state), *final(state)),
        model(*final(state)) == merge_model(model(*old(state)), *tick).0,
        match merge_model(model(*old(state)), *tick).1 {
            Ok(c) => r == Ok::<Option<CompletedMarketBar>, String>(c),
            Err(e) => r matches Err(x) && x@ == e,
        },
{
    let tick_start = minute_floor(tick.event_at_ms);
    let mut completed: Option<CompletedMarketBar> = None;
    let partial_start: Option<u64> = match &state.partial_bar {
        Some(p) => Some(p.period_start_ms),
        None => None,
    };
    match partial_start {
        Some(ps) => {
            if tick_start < ps {
                return Err("새 Tick이 현재 partial 봉보다 이전 구간입니다.".to_owned());
            }
            if tick_start > ps {
                completed = finalize_partial(state, tick.received_at_ms, true);
            }
        },
        None => {},
    }
    if state.partial_bar.is_none() {
        append_gap_before_partial(state, tick_start)?;
        let bar = bar_from_tick(tick, 1)?;
        state.partial_bar = Some(bar);
    } else {
        match &mut state.partial_bar {
            Some(partial) => {
                partial.high_minor = if partial.high_minor >= tick.price_minor {
                    partial.high_minor
                } else {
                    tick.price_minor
                };
                partial.low_minor = if partial.low_minor <= tick.price_minor {
                    partial.low_minor
                } else {
                    tick.price_minor
                };
                partial.close_minor = tick.price_minor;
                if partial.volume_base_units > u64::MAX - tick.quantity_base_units {
                    return Err("1분봉 거래량 합계가 지원 범위를 초과했습니다.".to_owned());
                }
                partial.volume_base_units = partial.volume_base_units + tick.quantity_base_units;
                if partial.source_count == 0xffff_ffffu32 {
                    return Err("1분봉 원천 Tick 수가 지원 범위를 초과했습니다.".to_owned());
                }
                partial.source_count = partial.source_count + 1;
                partial.ingested_at_ms = if partial.ingested_at_ms >= tick.received_at_ms {
                    partial.ingested_at_ms
                } else {
                    tick.received_at_ms
                };
            },
            None => {},
        }
    }
    state.last_event_at_ms = Some(tick.event_at_ms);
    state.last_sequence = match tick.sequence {
        Some(q) => Some(q),
        None => state.last_sequence,
    };
    state.last_price_minor = Some(tick.price_minor);
    state.last_quantity_base_units = Some(tick.quantity_base_units);
    state.updated_at_ms = tick.received_at_ms;
    Ok(completed)
}

// ---------------------------------------------------------------- higher-timeframe emission

/// The higher intervals a stream emits, in the order they are collected.
pub open spec fn upper_intervals() -> Seq<u16> {
    seq![3u16, 5u16, 15u16, 30u16, 60u16, 240u16]
}

/// The first index at or after `i` whose entry is for interval `k`.
pub open spec fn emitted_index(e: Seq<(u16, u64)>, k: u16, i: int) -> Option<int>
    decreases e.len() - i,
{
    if i < 0 || i >= e.len() {
        None
    } else if e[i].0 == k {
        Some(i)
    } else {
        emitted_index(e, k, i + 1)
    }
}

/// The end of the last bar emitted for interval `k` (zero when none was).
pub open spec fn emitted_end(e: Seq<(u16, u64)>, k: u16) -> u64 {
    match emitted_index(e, k, 0) {
        Some(i) => e[i].1,
        None => 0,
    }
}

/// Records `v` as the end of the last bar emitted for interval `k`.
pub open spec fn emitted_set(e: Seq<(u16, u64)>, k: u16, v: u64) -> Seq<(u16, u64)> {
    match emitted_index(e, k, 0) {
        Some(i) => e.update(i, (k, v)),
        None => e.push((k, v)),
    }
}

/// The bars among the first `n` of `bars` that end after `last`, in order.
pub open spec fn bars_after(bars: Seq<CompletedMarketBar>, last: u64, n: int) -> Seq<CompletedMarketBar>
    decreases n,
{
    if n <= 0 {
        Seq::empty()
    } else if bars[n - 1].period_end_ms > last {
        bars_after(bars, last, n - 1).push(bars[n - 1])
    } else {
        bars_after(bars, last, n - 1)
    }
}

/// The complete higher bars of interval `m` (empty when refused).
pub open spec fn upper_bars_of(completed: Seq<CompletedMarketBar>, m: u16) -> Seq<CompletedMarketBar> {
    match upper_bars_result(completed, m) {
        Some(x) => x.0,
        None => Seq::empty(),
    }
}

/// The higher bars not emitted before, over the first `k` higher intervals: for
/// each interval, its complete buckets ending after the last emitted end, whose
/// end becomes the new last emitted end. Stops (flag false) at an interval whose
/// aggregation is refused, keeping what was recorded so far.
#[verifier::opaque]
pub open spec fn higher_fold(completed: Seq<CompletedMarketBar>, emitted: Seq<(u16, u64)>, k: int) -> (
    Seq<(u16, u64)>,
    Seq<CompletedMarketBar>,
    bool,
)
    decreases k,
{
    if k <= 0 {
        (emitted, Seq::empty(), true)
    } else {
        let prev = higher_fold(completed, emitted, k - 1);
        let m = upper_intervals()[k - 1];
        if !prev.2 {
            prev
        } else if !minute_bars_valid(completed) || upper_bars_result(completed, m) is None {
            (prev.0, prev.1, false)
        } else {
            let ub = upper_bars_of(completed, m);
            let nb = bars_after(ub, emitted_end(prev.0, m), ub.len() as int);
            let e = if nb.len() > 0 {
                emitted_set(prev.0, m, nb.last().period_end_ms)
            } else {
                prev.0
            };
            (e, prev.1 + nb, true)
        }
    }
}

/// Emission order: by end time, then by interval.
pub open spec fn emit_le(a: CompletedMarketBar, b: CompletedMarketBar) -> bool {
    a.period_end_ms < b.period_end_ms || (a.period_end_ms == b.period_end_ms && a.interval_minutes
        <= b.interval_minutes)
}

pub open spec fn emit_sorted(s: Seq<CompletedMarketBar>) -> bool {
    forall|a: int| 0 <= a < s.len() - 1 ==> emit_le(#[trigger] s[a], s[a + 1])
}

fn find_emitted(e: &Vec<(u16, u64)>, k: u16) -> (r: Option<usize>)
    ensures
        match r {
            Some(i) => emitted_index(e@, k, 0) == Some(i as int) && i < e.len(),
            None => emitted_index(e@, k, 0) is None,
        },
{
    let mut i: usize = 0;
    while i < e.len() && e[i].0 != k
        invariant
            i <= e.len(),
            emitted_index(e@, k, 0) == emitted_index(e@, k, i as int),
        decreases e.len() - i,
    {
        i = i + 1;
    }
    if i < e.len() {
        Some(i)
    } else {
        None
    }
}

fn set_emitted(e: &mut Vec<(u16, u64)>, k: u16, v: u64)
    ensures
        final(e)@ == emitted_set(old(e)@, k, v),
{
    match find_emitted(e, k) {
        Some(i) => {
            e.set(i, (k, v));
        },
        None => {
            e.push((k, v));
        },
    }
}

/// Inserts a bar after every bar that does not come after it in emission order.
fn insert_emit_sorted(out: &mut Vec<CompletedMarketBar>, bar: CompletedMarketBar)
    requires
        emit_sorted(old(out)@),
    ensures
        emit_sorted(final(out)@),
        final(out)@.to_multiset() == old(out)@.to_multiset().insert(bar),
{
    let mut i: usize = 0;
    while i < out.len() && !(bar.period_end_ms < out[i].period_end_ms || (bar.period_end_ms
        == out[i].period_end_ms && bar.interval_minutes < out[i].interval_minutes))
        invariant
            i <= out.len(),
            i > 0 ==> emit_le(out@[i - 1], bar),
        decreases out.len() - i,
    {
        i = i + 1;
    }
    let ghost before = out@;
    out.insert(i, bar);
    proof {
        vstd::seq_lib::to_multiset_insert(before, i as int, bar);
        assert forall|a: int| 0 <= a < out@.len() - 1 implies emit_le(#[trigger] out@[a], out@[a + 1]) by {
            if a + 1 < i {
                assert(out@[a] == before[a] && out@[a + 1] == before[a + 1]);
            } else if a + 1 == i {
                assert(out@[a] == before[a]);
            } else if a == i {
                assert(out@[a + 1] == before[a]);
            } else {
                assert(out@[a] == before[a - 1] && out@[a + 1] == before[a]);
            }
        }
    }
}

/// Collects the higher-timeframe bars not emitted before (see [`higher_fold`]),
/// in emission order (by end, then interval, a stable order).
#[verifier::spinoff_prover]
#[verifier::rlimit(30)]
pub fn collect_new_higher_bars(state: &mut StreamAggregationState) -> (r: Result<Vec<CompletedMarketBar>, String>)
    ensures
        same_identity(*old(state), *final(state)),
        model(*final(state)) == (StreamModel {
            emitted: higher_fold(old(state).completed_minute_bars@, old(state).emitted_upper_end_ms@, 6).0,
            ..model(*old(state))
        }),
        higher_fold(old(state).completed_minute_bars@, old(state).emitted_upper_end_ms@, 6).2 <==> r is Ok,
        r matches Ok(v) ==> emit_sorted(v@) && v@.to_multiset() == higher_fold(
            old(state).completed_minute_bars@,
            old(state).emitted_upper_end_ms@,
            6,
        ).1.to_multiset(),
{
    reveal(higher_fold);
    let intervals: [u16; 6] = [3, 5, 15, 30, 60, 240];
    let ghost completed = state.completed_minute_bars@;
    let ghost emitted0 = state.emitted_upper_end_ms@;
    let mut output: Vec<CompletedMarketBar> = Vec::new();
    let ghost mut collected: Seq<CompletedMarketBar> = Seq::empty();
    let mut k: usize = 0;
    assert(collected.to_multiset() =~= output@.to_multiset());
    while k < 6
        invariant
            k <= 6,
            intervals@ == upper_intervals(),
            state.completed_minute_bars@ == completed,
            higher_fold(completed, emitted0, k as int) == (state.emitted_upper_end_ms@, collected, true),
            emit_sorted(output@),
            output@.to_multiset() == collected.to_multiset(),
            same_identity(*old(state), *state),
            model(*state) == (StreamModel { emitted: state.emitted_upper_end_ms@, ..model(*old(state)) }),
            completed == old(state).completed_minute_bars@,
            emitted0 == old(state).emitted_upper_end_ms@,
        decreases 6 - k,
    {
        reveal(higher_fold);
        let m = intervals[k];
        let upper = match aggregate_completed_minute_bars(&state.completed_minute_bars, m) {
            Ok(x) => x,
            Err(e) => {
                proof {
                    lemma_higher_fold_stops(completed, emitted0, k as int + 1, 6);
                }
                return Err(e);
            },
        };
        let bars = upper.0;
        let last = match find_emitted(&state.emitted_upper_end_ms, m) {
            Some(i) => state.emitted_upper_end_ms[i].1,
            None => 0,
        };
        let ghost e0 = state.emitted_upper_end_ms@;
        let mut j: usize = 0;
        while j < bars.len()
            invariant
                j <= bars.len(),
                emit_sorted(output@),
                output@.to_multiset() == (collected + bars_after(bars@, last, j as int)).to_multiset(),
                bars_after(bars@, last, j as int).len() > 0 ==> state.emitted_upper_end_ms@ == emitted_set(
                    e0,
                    m,
                    bars_after(bars@, last, j as int).last().period_end_ms,
                ),
                bars_after(bars@, last, j as int).len() == 0 ==> state.emitted_upper_end_ms@ == e0,
                same_identity(*old(state), *state),
                model(*state) == (StreamModel { emitted: state.emitted_upper_end_ms@, ..model(*old(state)) }),
                state.completed_minute_bars@ == completed,
            decreases bars.len() - j,
        {
            let bar = copy_bar(&bars[j]);
            if bar.period_end_ms > last {
                set_emitted(&mut state.emitted_upper_end_ms, m, bar.period_end_ms);
                proof {
                    lemma_emitted_set_twice(e0, m, bars_after(bars@, last, j as int), bar.period_end_ms);
                }
                let ghost prev_out = output@;
                insert_emit_sorted(&mut output, bar);
                proof {
                    let nb = bars_after(bars@, last, j as int);
                    assert(bars_after(bars@, last, j as int + 1) == nb.push(bars@[j as int]));
                    assert(collected + nb.push(bars@[j as int]) =~= (collected + nb).push(bars@[j as int]));
                    vstd::seq_lib::to_multiset_build(collected + nb, bars@[j as int]);
                }
            }
            j = j + 1;
        }
        proof {
            assert(bars@ == upper_bars_of(completed, m));
            assert(last == emitted_end(e0, m));
            collected = collected + bars_after(bars@, last, bars@.len() as int);
        }
        k = k + 1;
    }
    Ok(output)
}

proof fn lemma_emitted_set_twice(e: Seq<(u16, u64)>, k: u16, nb: Seq<CompletedMarketBar>, v: u64)
    ensures
        nb.len() > 0 ==> emitted_set(emitted_set(e, k, nb.last().period_end_ms), k, v) == emitted_set(e, k, v),
{
    if nb.len() > 0 {
        let w = nb.last().period_end_ms;
        let e1 = emitted_set(e, k, w);
        match emitted_index(e, k, 0) {
            Some(i) => {
                lemma_emitted_index_some(e, k, 0);
                lemma_emitted_index_update(e, k, i, w);
                assert(e1.update(i, (k, v)) =~= e.update(i, (k, v)));
            },
            None => {
                lemma_emitted_index_push(e, k, w);
                assert(e1.update(e.len() as int, (k, v)) =~= e.push((k, v)));
            },
        }
    }
}

proof fn lemma_emitted_index_update(e: Seq<(u16, u64)>, k: u16, i: int, w: u64)
    requires
        emitted_index(e, k, 0) == Some(i),
    ensures
        emitted_index(e.update(i, (k, w)), k, 0) == Some(i),
{
    lemma_emitted_index_some(e, k, 0);
    lemma_emitted_index_prefix(e.update(i, (k, w)), k, 0, i);
}

proof fn lemma_emitted_index_push(e: Seq<(u16, u64)>, k: u16, w: u64)
    requires
        emitted_index(e, k, 0) is None,
    ensures
        emitted_index(e.push((k, w)), k, 0) == Some(e.len() as int),
{
    lemma_emitted_none_all(e, k, 0);
    lemma_emitted_index_prefix(e.push((k, w)), k, 0, e.len() as int);
}

/// With no entry for `k` among `[j, i)`, the search from `j` is the search from `i`.
proof fn lemma_emitted_index_prefix(e: Seq<(u16, u64)>, k: u16, j: int, i: int)
    requires
        0 <= j <= i < e.len(),
        forall|x: int| j <= x < i ==> e[x].0 != k,
        e[i].0 == k,
    ensures
        emitted_index(e, k, j) == Some(i),
    decreases i - j,
{
    if j < i {
        lemma_emitted_index_prefix(e, k, j + 1, i);
    }
}

proof fn lemma_emitted_index_some(e: Seq<(u16, u64)>, k: u16, j: int)
    requires
        0 <= j,
        emitted_index(e, k, j) is Some,
    ensures
        j <= emitted_index(e, k, j)->0 < e.len(),
        e[emitted_index(e, k, j)->0].0 == k,
        forall|x: int| j <= x < emitted_index(e, k, j)->0 ==> e[x].0 != k,
    decreases e.len() - j,
{
    if j < e.len() && e[j].0 != k {
        lemma_emitted_index_some(e, k, j + 1);
    }
}

proof fn lemma_emitted_none_all(e: Seq<(u16, u64)>, k: u16, j: int)
    requires
        0 <= j,
        emitted_index(e, k, j) is None,
    ensures
        forall|x: int| j <= x < e.len() ==> e[x].0 != k,
    decreases e.len() - j,
{
    if j < e.len() {
        lemma_emitted_none_all(e, k, j + 1);
    }
}

proof fn lemma_higher_fold_stops(completed: Seq<CompletedMarketBar>, emitted: Seq<(u16, u64)>, k: int, n: int)
    requires
        1 <= k <= n,
        higher_fold(completed, emitted, k - 1).2,
        !minute_bars_valid(completed) || upper_bars_result(completed, upper_intervals()[k - 1]) is None,
    ensures
        !higher_fold(completed, emitted, n).2,
        higher_fold(completed, emitted, n).0 == higher_fold(completed, emitted, k - 1).0,
    decreases n - k,
{
    reveal(higher_fold);
    if n > k {
        lemma_higher_fold_stops(completed, emitted, k, n - 1);
    }
}

// ---------------------------------------------------------------- checkpoints and updates

/// A checkpoint that may be restored: an allowed stream carrying its own source,
/// a non-zero update time, at most 480 completed bars and 256 gaps, emitted ends
/// only for the higher intervals, valid completed bars, and a valid partial bar
/// that does not start before the last completed bar ends.
#[verifier::opaque]
pub open spec fn checkpoint_ok(s: StreamAggregationState) -> bool {
    let m = model(s);
    let bars = m.completed;
    &&& stream_identity_spec(s.stream_id@) == Some(ident(s))
    &&& m.updated_at != 0
    &&& bars.len() <= 480
    &&& m.gaps.len() <= 256
    &&& forall|i: int| 0 <= i < m.emitted.len() ==> supported_upper_interval((#[trigger] m.emitted[i]).0)
    &&& minute_bars_valid(bars)
    &&& m.partial matches Some(p) ==> minute_bars_valid(seq![p]) && !(bars.len() > 0 && bars.last().period_end_ms
        > p.period_start_ms)
}

/// The refusal of a checkpoint whose message is fixed; invalid bars are refused
/// with the bar check's own message.
#[verifier::opaque]
pub open spec fn checkpoint_message(s: StreamAggregationState) -> Option<Seq<char>> {
    let m = model(s);
    let bars = m.completed;
    if stream_identity_spec(s.stream_id@) is None {
        Some("허용되지 않은 공개 시장 스트림입니다."@)
    } else if stream_identity_spec(s.stream_id@) != Some(ident(s)) || m.updated_at == 0 || bars.len() > 480
        || m.gaps.len() > 256 || exists|i: int|
        0 <= i < m.emitted.len() && !supported_upper_interval((#[trigger] m.emitted[i]).0) {
        Some("시장 집계 체크포인트 계약이 올바르지 않습니다."@)
    } else if !minute_bars_valid(bars) {
        None
    } else if m.partial matches Some(p) && !minute_bars_valid(seq![p]) {
        None
    } else {
        Some("시장 집계 partial 봉이 완료 봉과 겹칩니다."@)
    }
}

/// `e` is what a checkpoint is refused with: its fixed message, else the
/// first issue of its completed bars, else that of its partial bar.
pub open spec fn checkpoint_refused_with(s: StreamAggregationState, e: Seq<char>) -> bool {
    match checkpoint_message(s) {
        Some(m) => e == m,
        None => if !minute_bars_valid(s.completed_minute_bars@) {
            first_minute_bar_issue_is(s.completed_minute_bars@, e)
        } else {
            s.partial_bar matches Some(p) && first_minute_bar_issue_is(seq![p], e)
        },
    }
}

pub fn validate_checkpoint_state(state: &StreamAggregationState) -> (r: Result<(), String>)
    ensures
        r is Ok <==> checkpoint_ok(*state),
        r matches Err(e) ==> (checkpoint_message(*state) matches Some(m) ==> e@ == m),
        r matches Err(e) ==> checkpoint_refused_with(*state, e@),
{
    reveal(checkpoint_ok);
    reveal(checkpoint_message);
    let expected = stream_identity(state.stream_id.as_str())?;
    let mut keys_ok = true;
    let mut i: usize = 0;
    while i < state.emitted_upper_end_ms.len()
        invariant
            i <= state.emitted_upper_end_ms.len(),
            keys_ok == forall|x: int|
                0 <= x < i ==> supported_upper_interval((#[trigger] state.emitted_upper_end_ms@[x]).0),
        decreases state.emitted_upper_end_ms.len() - i,
    {
        let k = state.emitted_upper_end_ms[i].0;
        if !(k == 3 || k == 5 || k == 15 || k == 30 || k == 60 || k == 240) {
            keys_ok = false;
        }
        i = i + 1;
    }
    if !(str_eq(state.provider.as_str(), expected.0) && str_eq(state.asset_class.as_str(), expected.1) && str_eq(
        state.symbol.as_str(),
        expected.2,
    ) && str_eq(state.currency.as_str(), expected.3)) || state.updated_at_ms == 0
        || state.completed_minute_bars.len() > RETAINED_MINUTE_BAR_LIMIT || state.gaps.len() > RETAINED_GAP_LIMIT
        || !keys_ok {
        proof {
            assert(model(*state).gaps.len() == state.gaps@.len());
            if !keys_ok {
                let x = choose|x: int|
                    0 <= x < state.emitted_upper_end_ms@.len() && !supported_upper_interval(
                        (#[trigger] state.emitted_upper_end_ms@[x]).0,
                    );
                assert(!supported_upper_interval(model(*state).emitted[x].0));
            }
        }
        return Err("시장 집계 체크포인트 계약이 올바르지 않습니다.".to_owned());
    }
    validate_minute_bars(&state.completed_minute_bars)?;
    match &state.partial_bar {
        Some(partial) => {
            let single = vec![copy_bar(partial)];
            assert(single@ == seq![*partial]);
            validate_minute_bars(&single)?;
            let n = state.completed_minute_bars.len();
            if n > 0 && state.completed_minute_bars[n - 1].period_end_ms > partial.period_start_ms {
                return Err("시장 집계 partial 봉이 완료 봉과 겹칩니다.".to_owned());
            }
        },
        None => {},
    }
    Ok(())
}

/// What a stream reports after a tick or a flush.
#[derive(Debug, Clone)]
pub struct MarketAggregationUpdate {
    pub stream_id: String,
    pub restored_from_checkpoint: bool,
    pub completed_minute_bars: Vec<CompletedMarketBar>,
    pub completed_higher_bars: Vec<CompletedMarketBar>,
    pub partial_bar: Option<CompletedMarketBar>,
    pub gaps: Vec<MarketDataGap>,
    pub retained_minute_bar_count: usize,
    pub updated_at_ms: u64,
}

/// An update that reports the state `s`: its id, partial bar, gaps, retained
/// count and update time, with the given completed bars and, in emission order,
/// the given higher bars.
pub open spec fn update_reports(
    u: MarketAggregationUpdate,
    s: StreamAggregationState,
    restored: bool,
    completed: Seq<CompletedMarketBar>,
    higher: Seq<CompletedMarketBar>,
) -> bool {
    &&& u.stream_id@ == s.stream_id@
    &&& u.restored_from_checkpoint == restored
    &&& u.completed_minute_bars@ == completed
    &&& emit_sorted(u.completed_higher_bars@)
    &&& u.completed_higher_bars@.to_multiset() == higher.to_multiset()
    &&& u.partial_bar == s.partial_bar
    &&& gap_models(u.gaps@) == gap_models(s.gaps@)
    &&& u.retained_minute_bar_count == s.completed_minute_bars@.len()
    &&& u.updated_at_ms == s.updated_at_ms
}

/// The update of a stream that just completed `completed` bars; higher bars are
/// collected only when a minute bar completed.
pub fn aggregation_update(
    state: &mut StreamAggregationState,
    restored_from_checkpoint: bool,
    completed_minute_bars: Vec<CompletedMarketBar>,
) -> (r: Result<MarketAggregationUpdate, String>)
    ensures
        same_identity(*old(state), *final(state)),
        ({
            let f = higher_fold(old(state).completed_minute_bars@, old(state).emitted_upper_end_ms@, 6);
            let collect = completed_minute_bars@.len() > 0;
            &&& model(*final(state)) == (if collect {
                StreamModel { emitted: f.0, ..model(*old(state)) }
            } else {
                model(*old(state))
            })
            &&& (r is Ok <==> (!collect || f.2))
            &&& r matches Ok(u) ==> update_reports(
                u,
                *final(state),
                restored_from_checkpoint,
                completed_minute_bars@,
                if collect {
                    f.1
                } else {
                    Seq::empty()
                },
            )
        }),
{
    let completed_higher_bars = if completed_minute_bars.len() == 0 {
        Vec::new()
    } else {
        collect_new_higher_bars(state)?
    };
    Ok(
        MarketAggregationUpdate {
            stream_id: copy_string(&state.stream_id),
            restored_from_checkpoint,
            completed_minute_bars,
            completed_higher_bars,
            partial_bar: copy_opt_bar(&state.partial_bar),
            gaps: copy_gaps(&state.gaps),
            retained_minute_bar_count: state.completed_minute_bars.len(),
            updated_at_ms: state.updated_at_ms,
        },
    )
}

pub open spec fn opt_seq(c: Option<CompletedMarketBar>) -> Seq<CompletedMarketBar> {
    match c {
        Some(b) => seq![b],
        None => Seq::empty(),
    }
}

/// A tick applied to a stream state: refused on a tick-state error (state kept);
/// otherwise merged (the state reached is kept even when the merge is refused),
/// then the update is built, collecting higher bars when a minute bar completed.
#[verifier::opaque]
pub open spec fn tick_applied(
    id: Ident,
    m: StreamModel,
    t: NormalizedMarketTick,
) -> (StreamModel, Result<(Seq<CompletedMarketBar>, Seq<CompletedMarketBar>), Option<Seq<char>>>) {
    match tick_error_model(id, m, t) {
        Some(e) => (m, Err(Some(e))),
        None => {
            let mm = merge_model(m, t);
            match mm.1 {
                Err(e) => (mm.0, Err(Some(e))),
                Ok(c) => if c is None {
                    (mm.0, Ok((Seq::empty(), Seq::empty())))
                } else {
                    let f = higher_fold(mm.0.completed, mm.0.emitted, 6);
                    if f.2 {
                        (StreamModel { emitted: f.0, ..mm.0 }, Ok((opt_seq(c), f.1)))
                    } else {
                        (StreamModel { emitted: f.0, ..mm.0 }, Err(None))
                    }
                },
            }
        },
    }
}

/// Validates, merges and reports one tick on one stream state (see [`tick_applied`]).
pub fn apply_tick(state: &mut StreamAggregationState, tick: &NormalizedMarketTick, restored: bool) -> (r: Result<
    MarketAggregationUpdate,
    String,
>)
    ensures
        same_identity(*old(state), *final(state)),
        model(*final(state)) == tick_applied(ident(*old(state)), model(*old(state)), *tick).0,
        match tick_applied(ident(*old(state)), model(*old(state)), *tick).1 {
            Ok((completed, higher)) => r matches Ok(u) && update_reports(u, *final(state), restored, completed, higher),
            Err(Some(e)) => r matches Err(x) && x@ == e,
            Err(None) => r is Err,
        },
{
    reveal(tick_applied);
    validate_tick_against_state(state, tick)?;
    let completed = merge_tick_into_partial(state, tick)?;
    let completed_bars: Vec<CompletedMarketBar> = match completed {
        Some(b) => vec![b],
        None => Vec::new(),
    };
    proof {
        if completed is Some {
            assert(completed_bars@ == opt_seq(completed));
        }
    }
    aggregation_update(state, restored, completed_bars)
}

// ---------------------------------------------------------------- runtime and checkpoint store

/// Everything a stream state holds, as plain values.
pub open spec fn sview(s: StreamAggregationState) -> (Seq<char>, Ident, StreamModel) {
    (s.stream_id@, ident(s), model(s))
}

pub fn copy_state(s: &StreamAggregationState) -> (r: StreamAggregationState)
    ensures
        sview(r) == sview(*s),
{
    let mut emitted: Vec<(u16, u64)> = Vec::new();
    let mut i: usize = 0;
    while i < s.emitted_upper_end_ms.len()
        invariant
            i <= s.emitted_upper_end_ms.len(),
            emitted@ == s.emitted_upper_end_ms@.subrange(0, i as int),
        decreases s.emitted_upper_end_ms.len() - i,
    {
        emitted.push(s.emitted_upper_end_ms[i]);
        i = i + 1;
    }
    assert(emitted@ == s.emitted_upper_end_ms@);
    StreamAggregationState {
        stream_id: copy_string(&s.stream_id),
        provider: copy_string(&s.provider),
        asset_class: copy_string(&s.asset_class),
        symbol: copy_string(&s.symbol),
        currency: copy_string(&s.currency),
        partial_bar: copy_opt_bar(&s.partial_bar),
        completed_minute_bars: copy_bars(&s.completed_minute_bars),
        gaps: copy_gaps(&s.gaps),
        emitted_upper_end_ms: emitted,
        last_event_at_ms: s.last_event_at_ms,
        last_sequence: s.last_sequence,
        last_price_minor: s.last_price_minor,
        last_quantity_base_units: s.last_quantity_base_units,
        updated_at_ms: s.updated_at_ms,
    }
}

/// The first index at or after `i` of the state of stream `id`.
pub open spec fn state_index(states: Seq<StreamAggregationState>, id: Seq<char>, i: int) -> Option<int>
    decreases states.len() - i,
{
    if i < 0 || i >= states.len() {
        None
    } else if states[i].stream_id@ == id {
        Some(i)
    } else {
        state_index(states, id, i + 1)
    }
}

/// The state kept for stream `id`, if any.
pub open spec fn state_of(states: Seq<StreamAggregationState>, id: Seq<char>) -> Option<StreamAggregationState> {
    match state_index(states, id, 0) {
        Some(i) => Some(states[i]),
        None => None,
    }
}

proof fn lemma_state_index_some(states: Seq<StreamAggregationState>, id: Seq<char>, j: int)
    requires
        0 <= j,
        state_index(states, id, j) is Some,
    ensures
        j <= state_index(states, id, j)->0 < states.len(),
        states[state_index(states, id, j)->0].stream_id@ == id,
        forall|x: int| j <= x < state_index(states, id, j)->0 ==> states[x].stream_id@ != id,
    decreases states.len() - j,
{
    if j < states.len() && states[j].stream_id@ != id {
        lemma_state_index_some(states, id, j + 1);
    }
}

proof fn lemma_state_index_none(states: Seq<StreamAggregationState>, id: Seq<char>, j: int)
    requires
        0 <= j,
        state_index(states, id, j) is None,
    ensures
        forall|x: int| j <= x < states.len() ==> states[x].stream_id@ != id,
    decreases states.len() - j,
{
    if j < states.len() {
        lemma_state_index_none(states, id, j + 1);
    }
}

/// Only the ids of the states decide where each id is found.
proof fn lemma_state_index_same_ids(a: Seq<StreamAggregationState>, b: Seq<StreamAggregationState>, id: Seq<char>, j: int)
    requires
        0 <= j,
        a.len() == b.len(),
        forall|x: int| 0 <= x < a.len() ==> a[x].stream_id@ == b[x].stream_id@,
    ensures
        state_index(a, id, j) == state_index(b, id, j),
    decreases a.len() - j,
{
    if j < a.len() {
        lemma_state_index_same_ids(a, b, id, j + 1);
    }
}

/// Pushing a state of stream `k` leaves the other streams where they were.
proof fn lemma_state_index_push(a: Seq<StreamAggregationState>, s: StreamAggregationState, id: Seq<char>, j: int)
    requires
        0 <= j,
        s.stream_id@ != id || state_index(a, id, j) is Some,
    ensures
        state_index(a.push(s), id, j) == state_index(a, id, j),
    decreases a.len() - j,
{
    if j < a.len() {
        assert(a.push(s)[j] == a[j]);
        if a[j].stream_id@ != id {
            lemma_state_index_push(a, s, id, j + 1);
        }
    } else if j == a.len() {
        assert(a.push(s)[j] == s);
        assert(state_index(a.push(s), id, j + 1) is None);
    }
}

proof fn lemma_state_index_push_new(a: Seq<StreamAggregationState>, s: StreamAggregationState, j: int)
    requires
        0 <= j <= a.len(),
        state_index(a, s.stream_id@, j) is None,
    ensures
        state_index(a.push(s), s.stream_id@, j) == Some(a.len() as int),
    decreases a.len() - j,
{
    if j < a.len() {
        lemma_state_index_push_new(a, s, j + 1);
    }
}

fn find_state(states: &Vec<StreamAggregationState>, id: &str) -> (r: Option<usize>)
    ensures
        match r {
            Some(i) => state_index(states@, id@, 0) == Some(i as int) && i < states.len(),
            None => state_index(states@, id@, 0) is None,
        },
{
    let mut i: usize = 0;
    while i < states.len() && !str_eq(states[i].stream_id.as_str(), id)
        invariant
            i <= states.len(),
            state_index(states@, id@, 0) == state_index(states@, id@, i as int),
        decreases states.len() - i,
    {
        i = i + 1;
    }
    if i < states.len() {
        Some(i)
    } else {
        None
    }
}

/// The saved checkpoints, one per stream, in stream-id order.
#[derive(Debug)]
pub struct CheckpointStore {
    pub checkpoints: Vec<StreamAggregationState>,
}

/// Checkpoints are kept strictly in stream-id order.
pub open spec fn store_ok(store: CheckpointStore) -> bool {
    forall|a: int|
        0 <= a < store.checkpoints@.len() - 1 ==> seq_lt(
            #[trigger] store.checkpoints@[a].stream_id@,
            store.checkpoints@[a + 1].stream_id@,
        )
}

impl CheckpointStore {
    pub fn new() -> (r: Self)
        ensures
            r.checkpoints@.len() == 0,
            store_ok(r),
    {
        CheckpointStore { checkpoints: Vec::new() }
    }

    /// The checkpoint of stream `id`, validated before it is handed out.
    pub fn load(&self, id: &str) -> (r: Result<Option<StreamAggregationState>, String>)
        ensures
            match state_of(self.checkpoints@, id@) {
                None => r == Ok::<Option<StreamAggregationState>, String>(None),
                Some(cp) => if checkpoint_ok(cp) {
                    r matches Ok(Some(x)) && sview(x) == sview(cp)
                } else {
                    r is Err && (checkpoint_message(cp) matches Some(m) ==> r->Err_0@ == m)
                        && checkpoint_refused_with(cp, r->Err_0@)
                },
            },
    {
        match find_state(&self.checkpoints, id) {
            None => Ok(None),
            Some(i) => {
                validate_checkpoint_state(&self.checkpoints[i])?;
                Ok(Some(copy_state(&self.checkpoints[i])))
            },
        }
    }

    /// Every checkpoint in stream-id order, each validated.
    pub fn load_all(&self) -> (r: Result<Vec<StreamAggregationState>, String>)
        ensures
            r is Ok <==> forall|i: int| 0 <= i < self.checkpoints@.len() ==> checkpoint_ok(#[trigger] self.checkpoints@[i]),
            r matches Err(e) ==> exists|i: int|
                0 <= i < self.checkpoints@.len() && (forall|x: int| 0 <= x < i ==> checkpoint_ok(#[trigger] self.checkpoints@[x]))
                    && !checkpoint_ok(self.checkpoints@[i]) && checkpoint_refused_with(#[trigger] self.checkpoints@[i], e@),
            r matches Ok(v) ==> v@.len() == self.checkpoints@.len() && forall|i: int|
                0 <= i < v@.len() ==> sview(#[trigger] v@[i]) == sview(self.checkpoints@[i]),
    {
        let mut out: Vec<StreamAggregationState> = Vec::new();
        let mut i: usize = 0;
        while i < self.checkpoints.len()
            invariant
                i <= self.checkpoints.len(),
                out@.len() == i,
                forall|x: int| 0 <= x < i ==> sview(#[trigger] out@[x]) == sview(self.checkpoints@[x]),
                forall|x: int| 0 <= x < i ==> checkpoint_ok(#[trigger] self.checkpoints@[x]),
            decreases self.checkpoints.len() - i,
        {
            match validate_checkpoint_state(&self.checkpoints[i]) {
                Ok(()) => {},
                Err(e) => {
                    assert(checkpoint_refused_with(self.checkpoints@[i as int], e@));
                    return Err(e);
                },
            }
            out.push(copy_state(&self.checkpoints[i]));
            i = i + 1;
        }
        Ok(out)
    }

    /// Saves `state` as the checkpoint of its stream, replacing the earlier one.
    pub fn save(&mut self, state: &StreamAggregationState)
        requires
            store_ok(*old(self)),
        ensures
            store_ok(*final(self)),
            state_of(final(self).checkpoints@, state.stream_id@) matches Some(x) && sview(x) == sview(*state),
            forall|k: Seq<char>| k != state.stream_id@ ==> state_of(final(self).checkpoints@, k) == state_of(
                old(self).checkpoints@,
                k,
            ),
    {
        let ghost before = self.checkpoints@;
        let n = self.checkpoints.len();
        match find_state(&self.checkpoints, state.stream_id.as_str()) {
            Some(i) => {
                proof {
                    lemma_state_index_some(before, state.stream_id@, 0);
                }
                self.checkpoints.set(i, copy_state(state));
                proof {
                    lemma_state_index_same_ids(before, self.checkpoints@, state.stream_id@, 0);
                    assert forall|k: Seq<char>| k != state.stream_id@ implies state_of(self.checkpoints@, k) == state_of(
                        before,
                        k,
                    ) by {
                        lemma_state_index_same_ids(before, self.checkpoints@, k, 0);
                        if state_index(before, k, 0) is Some {
                            lemma_state_index_some(before, k, 0);
                        }
                    }
                    assert forall|a: int| 0 <= a < self.checkpoints@.len() - 1 implies seq_lt(
                        #[trigger] self.checkpoints@[a].stream_id@,
                        self.checkpoints@[a + 1].stream_id@,
                    ) by {
                        assert(self.checkpoints@[a].stream_id@ == before[a].stream_id@);
                        assert(self.checkpoints@[a + 1].stream_id@ == before[a + 1].stream_id@);
                    }
                }
            },
            None => {
                let mut pos: usize = 0;
                while pos < n && str_lt(self.checkpoints[pos].stream_id.as_str(), state.stream_id.as_str())
                    invariant
                        pos <= n == self.checkpoints.len(),
                        self.checkpoints@ == before,
                        pos > 0 ==> seq_lt(before[pos - 1].stream_id@, state.stream_id@),
                    decreases n - pos,
                {
                    pos = pos + 1;
                }
                proof {
                    lemma_state_index_none(before, state.stream_id@, 0);
                    if pos < n {
                        lemma_seq_lt_total(before[pos as int].stream_id@, state.stream_id@);
                    }
                }
                let copy = copy_state(state);
                self.checkpoints.insert(pos, copy);
                proof {
                    let after = self.checkpoints@;
                    assert(after == before.insert(pos as int, copy));
                    assert forall|a: int| 0 <= a < after.len() - 1 implies seq_lt(
                        #[trigger] after[a].stream_id@,
                        after[a + 1].stream_id@,
                    ) by {
                        if a + 1 < pos {
                            assert(after[a] == before[a] && after[a + 1] == before[a + 1]);
                        } else if a + 1 == pos {
                            assert(after[a] == before[a]);
                        } else if a == pos {
                            assert(after[a + 1] == before[a]);
                        } else {
                            assert(after[a] == before[a - 1] && after[a + 1] == before[a]);
                        }
                    }
                    lemma_state_index_insert(before, pos as int, copy);
                }
            },
        }
    }
}

/// Inserting a state of a stream not yet present finds it there and leaves the
/// other streams' states as they were.
proof fn lemma_state_index_insert(a: Seq<StreamAggregationState>, pos: int, s: StreamAggregationState)
    requires
        0 <= pos <= a.len(),
        forall|x: int| 0 <= x < a.len() ==> a[x].stream_id@ != s.stream_id@,
    ensures
        state_of(a.insert(pos, s), s.stream_id@) == Some(s),
        forall|k: Seq<char>| k != s.stream_id@ ==> state_of(a.insert(pos, s), k) == state_of(a, k),
{
    let b = a.insert(pos, s);
    assert forall|x: int| 0 <= x < pos implies b[x].stream_id@ != s.stream_id@ by {
        assert(b[x] == a[x]);
    }
    lemma_state_index_first(b, s.stream_id@, 0, pos);
    assert forall|k: Seq<char>| k != s.stream_id@ implies state_of(b, k) == state_of(a, k) by {
        match state_index(a, k, 0) {
            Some(i) => {
                lemma_state_index_some(a, k, 0);
                let bi = if i < pos { i } else { i + 1 };
                assert(b[bi] == a[i]);
                assert forall|x: int| 0 <= x < bi implies b[x].stream_id@ != k by {
                    if x < pos {
                        assert(b[x] == a[x]);
                    } else if x > pos {
                        assert(b[x] == a[x - 1]);
                    }
                }
                lemma_state_index_first(b, k, 0, bi);
            },
            None => {
                lemma_state_index_none(a, k, 0);
                assert forall|x: int| 0 <= x < b.len() implies b[x].stream_id@ != k by {
                    if x < pos {
                        assert(b[x] == a[x]);
                    } else if x > pos {
                        assert(b[x] == a[x - 1]);
                    }
                }
                lemma_state_index_absent(b, k, 0);
            },
        }
    }
}

proof fn lemma_state_index_first(a: Seq<StreamAggregationState>, id: Seq<char>, j: int, i: int)
    requires
        0 <= j <= i < a.len(),
        forall|x: int| j <= x < i ==> a[x].stream_id@ != id,
        a[i].stream_id@ == id,
    ensures
        state_index(a, id, j) == Some(i),
    decreases i - j,
{
    if j < i {
        lemma_state_index_first(a, id, j + 1, i);
    }
}

proof fn lemma_state_index_absent(a: Seq<StreamAggregationState>, id: Seq<char>, j: int)
    requires
        0 <= j,
        forall|x: int| j <= x < a.len() ==> a[x].stream_id@ != id,
    ensures
        state_index(a, id, j) is None,
    decreases a.len() - j,
{
    if j < a.len() {
        lemma_state_index_absent(a, id, j + 1);
    }
}

/// The in-memory aggregation runtime: one state per stream, the streams with a
/// gap repair in progress, and the time of each stream's last repair attempt.
#[derive(Debug)]
pub struct MarketAggregationBridge {
    pub states: Vec<StreamAggregationState>,
    pub active_backfills: Vec<String>,
    pub last_backfill_attempt_ms: Vec<(String, u64)>,
}

/// One state per stream.
pub open spec fn bridge_ok(b: MarketAggregationBridge) -> bool {
    forall|a: int, c: int| 0 <= a < c < b.states@.len() ==> b.states@[a].stream_id@ != b.states@[c].stream_id@
}

impl MarketAggregationBridge {
    pub fn new() -> (r: Self)
        ensures
            r.states@.len() == 0,
            bridge_ok(r),
            r.active_backfills@.len() == 0,
            r.last_backfill_attempt_ms@.len() == 0,
    {
        MarketAggregationBridge { states: Vec::new(), active_backfills: Vec::new(), last_backfill_attempt_ms: Vec::new() }
    }

    /// A copy of the state kept for stream `id`.
    pub fn state(&self, id: &str) -> (r: Option<StreamAggregationState>)
        ensures
            match state_of(self.states@, id@) {
                Some(s) => r matches Some(x) && sview(x) == sview(s),
                None => r is None,
            },
    {
        match find_state(&self.states, id) {
            Some(i) => Some(copy_state(&self.states[i])),
            None => None,
        }
    }
}

pub open spec fn empty_model(updated_at: u64) -> StreamModel {
    StreamModel {
        partial: None,
        completed: Seq::empty(),
        gaps: Seq::empty(),
        emitted: Seq::empty(),
        last_event: None,
        last_sequence: None,
        last_price: None,
        last_quantity: None,
        updated_at,
    }
}

/// The state a tick of stream `id` starts from: the runtime's, else the saved
/// checkpoint (restored; refused when it is not valid), else a fresh state of
/// the tick's source.
pub open spec fn ingest_start(
    states: Seq<StreamAggregationState>,
    checkpoints: Seq<StreamAggregationState>,
    id: Seq<char>,
    t: NormalizedMarketTick,
) -> Result<(Ident, StreamModel, bool), Option<Seq<char>>> {
    match state_of(states, id) {
        Some(s) => Ok((ident(s), model(s), false)),
        None => match state_of(checkpoints, id) {
            Some(cp) => if checkpoint_ok(cp) {
                Ok((ident(cp), model(cp), true))
            } else {
                Err(checkpoint_message(cp))
            },
            None => Ok(((t.provider@, t.asset_class@, t.symbol@, t.currency@), empty_model(t.received_at_ms), false)),
        },
    }
}

/// Ingests one public trade: normalizes it, finds or restores its stream state,
/// applies it (see [`tick_applied`]) and saves the checkpoint when it succeeds.
pub fn ingest_stream_tick(
    bridge: &mut MarketAggregationBridge,
    store: &mut CheckpointStore,
    input: MarketStreamTickInput,
) -> (r: Result<MarketAggregationUpdate, String>)
    requires
        store_ok(*old(store)),
        bridge_ok(*old(bridge)),
    ensures
        store_ok(*final(store)),
        bridge_ok(*final(bridge)),
        match normalized_tick(input) {
            Err(e) => r matches Err(x) && x@ == e && final(bridge).states@ == old(bridge).states@
                && final(store).checkpoints@ == old(store).checkpoints@,
            Ok(t) => match ingest_start(old(bridge).states@, old(store).checkpoints@, input.stream_id@, t) {
                Err(m) => r is Err && (m matches Some(x) ==> r->Err_0@ == x) && final(bridge).states@ == old(bridge).states@ && final(store).checkpoints@ == old(store).checkpoints@,
                Ok((id4, m0, restored)) => {
                    let out = tick_applied(id4, m0, t);
                    let s1 = state_of(final(bridge).states@, input.stream_id@)->0;
                    &&& state_of(final(bridge).states@, input.stream_id@) is Some
                    &&& ident(s1) == id4
                    &&& model(s1) == out.0
                    &&& forall|k: Seq<char>|
                        k != input.stream_id@ ==> state_of(final(bridge).states@, k) == state_of(
                            old(bridge).states@,
                            k,
                        )
                    &&& match out.1 {
                        Ok((c, h)) => {
                            &&& r matches Ok(u) && update_reports(u, s1, restored, c, h)
                            &&& state_of(final(store).checkpoints@, input.stream_id@) matches Some(x) && sview(x)
                                == sview(s1)
                            &&& forall|k: Seq<char>|
                                k != input.stream_id@ ==> state_of(final(store).checkpoints@, k) == state_of(
                                    old(store).checkpoints@,
                                    k,
                                )
                        },
                        Err(Some(e)) => r matches Err(x) && x@ == e && final(store).checkpoints@ == old(store).checkpoints@,
                        Err(None) => r is Err && final(store).checkpoints@ == old(store).checkpoints@,
                    }
                },
            },
        },
{
    let stream_id = copy_string(&input.stream_id);
    let tick = normalize_stream_tick(input)?;
    let ghost states0 = bridge.states@;
    let (idx, restored) = match find_state(&bridge.states, stream_id.as_str()) {
        Some(i) => {
            proof {
                lemma_state_index_some(states0, stream_id@, 0);
            }
            (i, false)
        },
        None => {
            let loaded = store.load(stream_id.as_str())?;
            match loaded {
                Some(cp) => {
                    proof {
                        lemma_state_index_some(store.checkpoints@, stream_id@, 0);
                    }
                    if !str_eq(cp.stream_id.as_str(), stream_id.as_str()) {
                        return Err("시장 집계 체크포인트의 스트림 ID가 일치하지 않습니다.".to_owned());
                    }
                    proof {
                        lemma_state_index_push_new(states0, cp, 0);
                        assert forall|k: Seq<char>| k != stream_id@ implies state_of(states0.push(cp), k) == state_of(
                            states0,
                            k,
                        ) by {
                            lemma_state_index_push(states0, cp, k, 0);
                            if state_index(states0, k, 0) is Some {
                                lemma_state_index_some(states0, k, 0);
                            }
                        }
                    }
                    proof {
                        lemma_state_index_none(states0, stream_id@, 0);
                    }
                    bridge.states.push(cp);
                    (bridge.states.len() - 1, true)
                },
                None => {
                    let fresh = empty_stream_state(copy_string(&stream_id), &tick);
                    proof {
                        lemma_state_index_push_new(states0, fresh, 0);
                        assert forall|k: Seq<char>| k != stream_id@ implies state_of(states0.push(fresh), k) == state_of(
                            states0,
                            k,
                        ) by {
                            lemma_state_index_push(states0, fresh, k, 0);
                            if state_index(states0, k, 0) is Some {
                                lemma_state_index_some(states0, k, 0);
                            }
                        }
                    }
                    proof {
                        lemma_state_index_none(states0, stream_id@, 0);
                    }
                    bridge.states.push(fresh);
                    (bridge.states.len() - 1, false)
                },
            }
        },
    };
    let ghost states1 = bridge.states@;
    assert(state_index(states1, stream_id@, 0) == Some(idx as int));
    assert(forall|k: Seq<char>| k != stream_id@ ==> state_of(states1, k) == state_of(states0, k));
    let mut state = bridge.states.remove(idx);
    let result = apply_tick(&mut state, &tick, restored);
    bridge.states.insert(idx, state);
    proof {
        let states2 = bridge.states@;
        assert(states2 =~= states1.update(idx as int, states2[idx as int]));
        assert forall|a: int, c: int| 0 <= a < c < states2.len() implies states2[a].stream_id@
            != states2[c].stream_id@ by {
            assert(states2[a].stream_id@ == states1[a].stream_id@);
            assert(states2[c].stream_id@ == states1[c].stream_id@);
        }
        lemma_state_index_same_ids(states1, states2, stream_id@, 0);
        assert forall|k: Seq<char>| k != stream_id@ implies state_of(states2, k) == state_of(states1, k) by {
            lemma_state_index_same_ids(states1, states2, k, 0);
            if state_index(states1, k, 0) is Some {
                lemma_state_index_some(states1, k, 0);
            }
        }
    }
    let update = result?;
    store.save(&bridge.states[idx]);
    Ok(update)
}

// ---------------------------------------------------------------- flushing at a watermark

/// The runtime states after restoring the first `n` checkpoints: a checkpoint is
/// added (at the end) only for a stream the runtime does not hold yet.
pub open spec fn restored_states(
    states: Seq<StreamAggregationState>,
    checkpoints: Seq<StreamAggregationState>,
    n: int,
) -> Seq<StreamAggregationState>
    decreases n,
{
    if n <= 0 {
        states
    } else {
        let prev = restored_states(states, checkpoints, n - 1);
        if state_index(prev, checkpoints[n - 1].stream_id@, 0) is None {
            prev.push(checkpoints[n - 1])
        } else {
            prev
        }
    }
}

/// The minute bar a flush completes: the partial bar, when it ended by the watermark.
#[verifier::opaque]
pub open spec fn flush_completed(m: StreamModel, watermark: u64) -> Option<CompletedMarketBar> {
    finalize_model(m, watermark, false).1
}

/// The higher-bar collection after a flush completed a bar.
#[verifier::opaque]
pub open spec fn flush_fold(m: StreamModel, watermark: u64) -> (Seq<(u16, u64)>, Seq<CompletedMarketBar>, bool) {
    let m1 = finalize_model(m, watermark, false).0;
    higher_fold(m1.completed, m1.emitted, 6)
}

/// A stream after a flush: unchanged when nothing completed; otherwise the bar is
/// completed, the update time becomes the watermark and higher bars are collected.
#[verifier::opaque]
pub open spec fn flushed_model(m: StreamModel, watermark: u64) -> StreamModel {
    match flush_completed(m, watermark) {
        None => m,
        Some(_) => StreamModel {
            updated_at: watermark,
            emitted: flush_fold(m, watermark).0,
            ..finalize_model(m, watermark, false).0
        },
    }
}

pub open spec fn ids_distinct(s: Seq<StreamAggregationState>) -> bool {
    forall|a: int, c: int| 0 <= a < c < s.len() ==> s[a].stream_id@ != s[c].stream_id@
}

/// Updates in stream-id order.
pub open spec fn updates_sorted(u: Seq<MarketAggregationUpdate>) -> bool {
    forall|a: int| 0 <= a < u.len() - 1 ==> !seq_lt(u[a + 1].stream_id@, #[trigger] u[a].stream_id@)
}

proof fn lemma_same_ids_distinct(a: Seq<StreamAggregationState>, b: Seq<StreamAggregationState>)
    requires
        ids_distinct(a),
        a.len() == b.len(),
        forall|x: int| 0 <= x < a.len() ==> a[x].stream_id@ == b[x].stream_id@,
    ensures
        ids_distinct(b),
{
    assert forall|x: int, c: int| 0 <= x < c < b.len() implies b[x].stream_id@ != b[c].stream_id@ by {
        assert(a[x].stream_id@ != a[c].stream_id@);
    }
}

proof fn lemma_restored_distinct(
    states: Seq<StreamAggregationState>,
    checkpoints: Seq<StreamAggregationState>,
    n: int,
)
    requires
        ids_distinct(states),
        0 <= n,
    ensures
        ids_distinct(restored_states(states, checkpoints, n)),
    decreases n,
{
    if n > 0 {
        lemma_restored_distinct(states, checkpoints, n - 1);
        let prev = restored_states(states, checkpoints, n - 1);
        if state_index(prev, checkpoints[n - 1].stream_id@, 0) is None {
            lemma_state_index_none(prev, checkpoints[n - 1].stream_id@, 0);
            let next = prev.push(checkpoints[n - 1]);
            assert forall|x: int, c: int| 0 <= x < c < next.len() implies next[x].stream_id@ != next[c].stream_id@ by {
                if c < prev.len() {
                    assert(next[x] == prev[x] && next[c] == prev[c]);
                } else {
                    assert(next[x] == prev[x]);
                }
            }
        }
    }
}

/// Inserts an update after every update whose stream id does not come after its
/// own; returns where it went.
fn insert_update_sorted(out: &mut Vec<MarketAggregationUpdate>, u: MarketAggregationUpdate) -> (pos: usize)
    requires
        updates_sorted(old(out)@),
    ensures
        pos <= old(out)@.len(),
        final(out)@ == old(out)@.insert(pos as int, u),
        updates_sorted(final(out)@),
{
    let mut i: usize = 0;
    while i < out.len() && !str_lt(u.stream_id.as_str(), out[i].stream_id.as_str())
        invariant
            i <= out.len(),
            i > 0 ==> !seq_lt(u.stream_id@, out@[i - 1].stream_id@),
        decreases out.len() - i,
    {
        i = i + 1;
    }
    let ghost before = out@;
    proof {
        if i < before.len() {
            lemma_seq_lt_asym(u.stream_id@, before[i as int].stream_id@);
        }
    }
    out.insert(i, u);
    proof {
        assert forall|a: int| 0 <= a < out@.len() - 1 implies !seq_lt(out@[a + 1].stream_id@, #[trigger] out@[a].stream_id@) by {
            if a + 1 < i {
                assert(out@[a] == before[a] && out@[a + 1] == before[a + 1]);
            } else if a + 1 == i {
                assert(out@[a] == before[a]);
            } else if a == i {
                assert(out@[a + 1] == before[a]);
            } else {
                assert(out@[a] == before[a - 1] && out@[a + 1] == before[a]);
            }
        }
    }
    i
}

/// Each update reports a distinct flushed stream: `origin[a]` is the stream of
/// update `a`.
pub open spec fn updates_from(
    updates: Seq<MarketAggregationUpdate>,
    origin: Seq<int>,
    fin: Seq<StreamAggregationState>,
    s1: Seq<StreamAggregationState>,
    watermark_ms: u64,
) -> bool {
    &&& origin.len() == updates.len()
    &&& forall|a: int, c: int| 0 <= a < c < origin.len() ==> origin[a] != origin[c]
    &&& forall|a: int|
        0 <= a < origin.len() ==> 0 <= #[trigger] origin[a] < fin.len() && flush_completed(
            model(s1[origin[a]]),
            watermark_ms,
        ) is Some && update_reports(
            updates[a],
            fin[origin[a]],
            false,
            seq![flush_completed(model(s1[origin[a]]), watermark_ms)->0],
            flush_fold(model(s1[origin[a]]), watermark_ms).1,
        )
}

/// Flushes the stream at index `i` (see [`flushed_model`]); saves it and reports
/// it when a bar completed.
fn flush_at(bridge: &mut MarketAggregationBridge, store: &mut CheckpointStore, i: usize, watermark_ms: u64) -> (r:
    Result<Option<MarketAggregationUpdate>, String>)
    requires
        i < old(bridge).states@.len(),
        store_ok(*old(store)),
        ids_distinct(old(bridge).states@),
    ensures
        final(bridge).states@.len() == old(bridge).states@.len(),
        forall|x: int| 0 <= x < old(bridge).states@.len() && x != i ==> final(bridge).states@[x] == old(bridge).states@[x],
        final(bridge).states@[i as int].stream_id@ == old(bridge).states@[i as int].stream_id@,
        ident(final(bridge).states@[i as int]) == ident(old(bridge).states@[i as int]),
        ids_distinct(final(bridge).states@),
        store_ok(*final(store)),
        r is Ok ==> model(final(bridge).states@[i as int]) == flushed_model(model(old(bridge).states@[i as int]), watermark_ms),
        (r matches Ok(None)) <==> flush_completed(model(old(bridge).states@[i as int]), watermark_ms) is None,
        r matches Ok(None) ==> final(store).checkpoints@ == old(store).checkpoints@,
        r is Err ==> flush_completed(model(old(bridge).states@[i as int]), watermark_ms) is Some,
        r is Err ==> !flush_fold(model(old(bridge).states@[i as int]), watermark_ms).2,
        r matches Ok(Some(u)) ==> ({
            let m = model(old(bridge).states@[i as int]);
            let s = final(bridge).states@[i as int];
            &&& flush_fold(m, watermark_ms).2
            &&& update_reports(u, s, false, seq![flush_completed(m, watermark_ms)->0], flush_fold(m, watermark_ms).1)
            &&& state_of(final(store).checkpoints@, s.stream_id@) matches Some(c) && sview(c) == sview(s)
            &&& forall|k: Seq<char>| k != s.stream_id@ ==> state_of(final(store).checkpoints@, k) == state_of(
                old(store).checkpoints@,
                k,
            )
        }),
{
    let ghost before = bridge.states@;
    let mut state = bridge.states.remove(i);
    let result = flush_state(&mut state, watermark_ms);
    bridge.states.insert(i, state);
    proof {
        lemma_same_ids_distinct(before, bridge.states@);
    }
    match result {
        Err(e) => Err(e),
        Ok(None) => Ok(None),
        Ok(Some(update)) => {
            store.save(&bridge.states[i]);
            Ok(Some(update))
        },
    }
}

fn flush_state(state: &mut StreamAggregationState, watermark_ms: u64) -> (r: Result<
    Option<MarketAggregationUpdate>,
    String,
>)
    ensures
        same_identity(*old(state), *final(state)),
        r is Ok ==> model(*final(state)) == flushed_model(model(*old(state)), watermark_ms),
        (r matches Ok(None)) <==> flush_completed(model(*old(state)), watermark_ms) is None,
        r is Err ==> flush_completed(model(*old(state)), watermark_ms) is Some,
        r is Err ==> !flush_fold(model(*old(state)), watermark_ms).2,
        r matches Ok(Some(u)) ==> flush_fold(model(*old(state)), watermark_ms).2 && update_reports(
            u,
            *final(state),
            false,
            seq![flush_completed(model(*old(state)), watermark_ms)->0],
            flush_fold(model(*old(state)), watermark_ms).1,
        ),
{
    reveal(flush_completed);
    reveal(flush_fold);
    reveal(flushed_model);
    let completed = finalize_partial(state, watermark_ms, false);
    match completed {
        None => Ok(None),
        Some(c) => {
            state.updated_at_ms = watermark_ms;
            let completed_bars = vec![c];
            assert(completed_bars@ == seq![c]);
            let update = aggregation_update(state, false, completed_bars)?;
            Ok(Some(update))
        },
    }
}

/// A successful flush: the restored streams, each flushed in place; each stream
/// that completed a bar saved; one update per such stream, in stream-id order.
pub open spec fn flush_ok(
    updates: Seq<MarketAggregationUpdate>,
    states0: Seq<StreamAggregationState>,
    cps: Seq<StreamAggregationState>,
    fin: Seq<StreamAggregationState>,
    stored: Seq<StreamAggregationState>,
    watermark_ms: u64,
) -> bool {
    let s1 = restored_states(states0, cps, cps.len() as int);
    &&& fin.len() == s1.len()
    &&& forall|x: int|
        0 <= x < fin.len() ==> (#[trigger] fin[x]).stream_id@ == s1[x].stream_id@ && ident(fin[x]) == ident(s1[x])
            && model(fin[x]) == flushed_model(model(s1[x]), watermark_ms)
    &&& forall|x: int|
        0 <= x < fin.len() && flush_completed(model(s1[x]), watermark_ms) is Some ==> flush_fold(
            #[trigger] model(s1[x]),
            watermark_ms,
        ).2 && (state_of(stored, fin[x].stream_id@) matches Some(c) && sview(c) == sview(fin[x]))
    &&& updates_sorted(updates)
    &&& exists|origin: Seq<int>| #[trigger] updates_from(updates, origin, fin, s1, watermark_ms)
}

/// Every stream, once the saved checkpoints are restored, that completes a
/// bar at the watermark can also collect its higher-timeframe bars.
pub open spec fn flush_fits(
    states0: Seq<StreamAggregationState>,
    cps: Seq<StreamAggregationState>,
    watermark_ms: u64,
) -> bool {
    let s1 = restored_states(states0, cps, cps.len() as int);
    forall|x: int|
        0 <= x < s1.len() && flush_completed(model(s1[x]), watermark_ms) is Some ==> flush_fold(
            #[trigger] model(s1[x]),
            watermark_ms,
        ).2
}

/// Restores every saved checkpoint the runtime lacks, then completes each
/// stream's partial bar that ended by `watermark_ms`, saving the stream and
/// reporting it; the updates come in stream-id order.
pub fn flush_streams(bridge: &mut MarketAggregationBridge, store: &mut CheckpointStore, watermark_ms: u64) -> (r:
    Result<Vec<MarketAggregationUpdate>, String>)
    requires
        store_ok(*old(store)),
        bridge_ok(*old(bridge)),
    ensures
        store_ok(*final(store)),
        bridge_ok(*final(bridge)),
        watermark_ms == 0 ==> (r matches Err(e) && e@ == "시장 집계 watermark가 올바르지 않습니다."@),
        (watermark_ms != 0 && (exists|i: int|
            0 <= i < old(store).checkpoints@.len() && !checkpoint_ok(#[trigger] old(store).checkpoints@[i]))) ==> r is Err,
        r is Ok <==> (watermark_ms != 0 && (forall|i: int|
            0 <= i < old(store).checkpoints@.len() ==> checkpoint_ok(#[trigger] old(store).checkpoints@[i]))
            && flush_fits(old(bridge).states@, old(store).checkpoints@, watermark_ms)),
        r matches Ok(u) ==> flush_ok(
            u@,
            old(bridge).states@,
            old(store).checkpoints@,
            final(bridge).states@,
            final(store).checkpoints@,
            watermark_ms,
        ),
{
    if watermark_ms == 0 {
        return Err("시장 집계 watermark가 올바르지 않습니다.".to_owned());
    }
    let checkpoints = store.load_all()?;
    let ghost cps = store.checkpoints@;
    let ghost states0 = bridge.states@;
    let mut j: usize = 0;
    proof {
        lemma_restored_distinct(states0, cps, 0);
    }
    while j < checkpoints.len()
        invariant
            j <= checkpoints.len() == cps.len(),
            forall|x: int| 0 <= x < checkpoints@.len() ==> sview(#[trigger] checkpoints@[x]) == sview(cps[x]),
            bridge.states@.len() == restored_states(states0, cps, j as int).len(),
            forall|x: int|
                0 <= x < bridge.states@.len() ==> sview(#[trigger] bridge.states@[x]) == sview(
                    restored_states(states0, cps, j as int)[x],
                ),
            ids_distinct(states0),
            store.checkpoints@ == cps,
        decreases checkpoints.len() - j,
    {
        let ghost prev = restored_states(states0, cps, j as int);
        proof {
            lemma_state_index_same_ids(bridge.states@, prev, checkpoints@[j as int].stream_id@, 0);
            assert(checkpoints@[j as int].stream_id@ == cps[j as int].stream_id@);
        }
        if find_state(&bridge.states, checkpoints[j].stream_id.as_str()).is_none() {
            bridge.states.push(copy_state(&checkpoints[j]));
        }
        j = j + 1;
    }
    let ghost s1 = restored_states(states0, cps, cps.len() as int);
    proof {
        lemma_restored_distinct(states0, cps, cps.len() as int);
        lemma_same_ids_distinct(s1, bridge.states@);
    }
    let n = bridge.states.len();
    let mut updates: Vec<MarketAggregationUpdate> = Vec::new();
    let ghost mut origin: Seq<int> = Seq::empty();
    let mut i: usize = 0;
    while i < n
        invariant
            watermark_ms != 0,
            s1 == restored_states(old(bridge).states@, old(store).checkpoints@, old(store).checkpoints@.len() as int),
            forall|x: int| 0 <= x < old(store).checkpoints@.len() ==> checkpoint_ok(#[trigger] old(store).checkpoints@[x]),
            i <= n == bridge.states@.len() == s1.len(),
            ids_distinct(s1),
            ids_distinct(bridge.states@),
            forall|x: int|
                0 <= x < n ==> (#[trigger] bridge.states@[x]).stream_id@ == s1[x].stream_id@ && ident(bridge.states@[x])
                    == ident(s1[x]),
            forall|x: int|
                0 <= x < i ==> model(#[trigger] bridge.states@[x]) == flushed_model(model(s1[x]), watermark_ms),
            forall|x: int| i <= x < n ==> model(#[trigger] bridge.states@[x]) == model(s1[x]),
            forall|x: int|
                0 <= x < i && flush_completed(model(s1[x]), watermark_ms) is Some ==> flush_fold(
                    #[trigger] model(s1[x]),
                    watermark_ms,
                ).2 && (state_of(store.checkpoints@, bridge.states@[x].stream_id@) matches Some(c) && sview(c)
                    == sview(bridge.states@[x])),
            store_ok(*store),
            updates_sorted(updates@),
            origin.len() == updates@.len(),
            forall|a: int, c: int| 0 <= a < c < origin.len() ==> origin[a] != origin[c],
            forall|a: int|
                0 <= a < origin.len() ==> 0 <= #[trigger] origin[a] < i && flush_completed(
                    model(s1[origin[a]]),
                    watermark_ms,
                ) is Some && update_reports(
                    updates@[a],
                    bridge.states@[origin[a]],
                    false,
                    seq![flush_completed(model(s1[origin[a]]), watermark_ms)->0],
                    flush_fold(model(s1[origin[a]]), watermark_ms).1,
                ),
        decreases n - i,
    {
        let ghost before = bridge.states@;
        let ghost store_before = store.checkpoints@;
        let step = flush_at(bridge, store, i, watermark_ms);
        let ghost after = bridge.states@;
        proof {
            assert(model(before[i as int]) == model(s1[i as int]));
            if step is Ok {
                assert forall|x: int|
                    0 <= x < i && flush_completed(model(s1[x]), watermark_ms) is Some implies (state_of(
                        store.checkpoints@,
                        after[x].stream_id@,
                    ) matches Some(cc) && sview(cc) == sview(after[x])) by {
                    assert(after[x] == before[x]);
                    assert(before[x].stream_id@ != before[i as int].stream_id@);
                }
            }
        }
        match step {
            Err(e) => {
                assert(!flush_fits(old(bridge).states@, old(store).checkpoints@, watermark_ms)) by {
                    assert(model(s1[i as int]) == model(before[i as int]));
                }
                return Err(e);
            },
            Ok(None) => {},
            Ok(Some(update)) => {
                let pos = insert_update_sorted(&mut updates, update);
                proof {
                    let o2 = origin.insert(pos as int, i as int);
                    assert forall|a: int, cc: int| 0 <= a < cc < o2.len() implies o2[a] != o2[cc] by {
                        if a < pos && cc < pos {
                            assert(o2[a] == origin[a] && o2[cc] == origin[cc]);
                        } else if a < pos && cc == pos {
                            assert(o2[a] == origin[a]);
                        } else if a < pos {
                            assert(o2[a] == origin[a] && o2[cc] == origin[cc - 1]);
                        } else if a == pos {
                            assert(o2[cc] == origin[cc - 1]);
                        } else {
                            assert(o2[a] == origin[a - 1] && o2[cc] == origin[cc - 1]);
                        }
                    }
                    assert forall|a: int| 0 <= a < o2.len() implies 0 <= #[trigger] o2[a] < i + 1 && flush_completed(
                        model(s1[o2[a]]),
                        watermark_ms,
                    ) is Some && update_reports(
                        updates@[a],
                        after[o2[a]],
                        false,
                        seq![flush_completed(model(s1[o2[a]]), watermark_ms)->0],
                        flush_fold(model(s1[o2[a]]), watermark_ms).1,
                    ) by {
                        if a < pos {
                            assert(o2[a] == origin[a]);
                            assert(after[origin[a]] == before[origin[a]]);
                        } else if a > pos {
                            assert(o2[a] == origin[a - 1]);
                            assert(after[origin[a - 1]] == before[origin[a - 1]]);
                        }
                    }
                    origin = o2;
                }
            },
        }
        proof {
            assert forall|a: int| 0 <= a < origin.len() implies 0 <= #[trigger] origin[a] < i + 1 && flush_completed(
                model(s1[origin[a]]),
                watermark_ms,
            ) is Some && update_reports(
                updates@[a],
                after[origin[a]],
                false,
                seq![flush_completed(model(s1[origin[a]]), watermark_ms)->0],
                flush_fold(model(s1[origin[a]]), watermark_ms).1,
            ) by {
                if origin[a] != i {
                    assert(after[origin[a]] == before[origin[a]]);
                }
            }
        }
        i = i + 1;
    }
    assert(updates_from(updates@, origin, bridge.states@, s1, watermark_ms));
    assert(s1 == restored_states(old(bridge).states@, old(store).checkpoints@, old(store).checkpoints@.len() as int));
    assert(flush_ok(updates@, old(bridge).states@, old(store).checkpoints@, bridge.states@, store.checkpoints@, watermark_ms));
    Ok(updates)
}

// ---------------------------------------------------------------- official REST repair

/// The official minute-bar source of each stream.
#[derive(Debug, Clone, Copy, PartialEq, Eq, Structural)]
pub enum PitOfficialProvider {
    UpbitSpot,
    BinanceSpot,
    BinanceUsdm,
    BinanceCoinm,
}

/// An official REST minute bar, prices and volume as scaled integers.
#[derive(Debug, Clone, Copy)]
pub struct OfficialMinuteBar {
    pub period_start_ms: u64,
    pub period_end_ms: u64,
    pub available_at_ms: u64,
    pub ingested_at_ms: u64,
    pub open_scaled: i64,
    pub high_scaled: i64,
    pub low_scaled: i64,
    pub close_scaled: i64,
    pub volume_scaled: u64,
    pub price_scale: u64,
    pub quantity_scale: u64,
}

pub open spec fn official_provider_spec(id: Seq<char>) -> Option<PitOfficialProvider> {
    if id == "upbit_spot"@ {
        Some(PitOfficialProvider::UpbitSpot)
    } else if id == "binance_spot"@ {
        Some(PitOfficialProvider::BinanceSpot)
    } else if id == "binance_usdm"@ {
        Some(PitOfficialProvider::BinanceUsdm)
    } else if id == "binance_coinm"@ {
        Some(PitOfficialProvider::BinanceCoinm)
    } else {
        None
    }
}

pub fn official_provider_for_stream(stream_id: &str) -> (r: Result<PitOfficialProvider, String>)
    ensures
        match official_provider_spec(stream_id@) {
            Some(p) => r == Ok::<PitOfficialProvider, String>(p),
            None => r matches Err(e) && e@ == "REST gap 복구를 허용하지 않은 시장 스트림입니다."@,
        },
{
    if str_eq(stream_id, "upbit_spot") {
        Ok(PitOfficialProvider::UpbitSpot)
    } else if str_eq(stream_id, "binance_spot") {
        Ok(PitOfficialProvider::BinanceSpot)
    } else if str_eq(stream_id, "binance_usdm") {
        Ok(PitOfficialProvider::BinanceUsdm)
    } else if str_eq(stream_id, "binance_coinm") {
        Ok(PitOfficialProvider::BinanceCoinm)
    } else {
        Err("REST gap 복구를 허용하지 않은 시장 스트림입니다.".to_owned())
    }
}

/// A non-negative scaled price brought to the market's minor units, rounded half
/// up: the source scale must be a positive multiple of the positive target scale,
/// and the result positive and within `u64`.
pub open spec fn rescaled(value: i64, source_scale: u64, target_scale: u64) -> Result<int, Seq<char>> {
    if value < 0 {
        Err("공식 REST 봉 가격은 양수여야 합니다."@)
    } else if source_scale == 0 || target_scale == 0 || source_scale % target_scale != 0 {
        Err("공식 REST 봉 가격 단위를 시장 최소 단위로 변환할 수 없습니다."@)
    } else {
        let divisor: int = (source_scale / target_scale) as int;
        let rounded: int = value + divisor / 2;
        if rounded > u64::MAX || rounded / divisor == 0 {
            Err("공식 REST 봉 가격 변환 결과가 지원 범위를 벗어났습니다."@)
        } else {
            Ok(rounded / divisor)
        }
    }
}

pub fn rounded_rescale(value: i64, source_scale: u64, target_scale: u64) -> (r: Result<u64, String>)
    ensures
        match rescaled(value, source_scale, target_scale) {
            Ok(v) => r == Ok::<u64, String>(v as u64),
            Err(e) => r matches Err(x) && x@ == e,
        },
{
    if value < 0 {
        return Err("공식 REST 봉 가격은 양수여야 합니다.".to_owned());
    }
    let value = value as u64;
    if source_scale == 0 || target_scale == 0 || source_scale % target_scale != 0 {
        return Err("공식 REST 봉 가격 단위를 시장 최소 단위로 변환할 수 없습니다.".to_owned());
    }
    let divisor = source_scale / target_scale;
    assert(divisor > 0) by (nonlinear_arith)
        requires
            source_scale % target_scale == 0,
            source_scale > 0,
            target_scale > 0,
            divisor == source_scale / target_scale,
    ;
    let half = divisor / 2;
    if value > u64::MAX - half {
        return Err("공식 REST 봉 가격 변환 결과가 지원 범위를 벗어났습니다.".to_owned());
    }
    let scaled = (value + half) / divisor;
    if scaled == 0 {
        return Err("공식 REST 봉 가격 변환 결과가 지원 범위를 벗어났습니다.".to_owned());
    }
    Ok(scaled)
}

/// An official bar as a completed one-minute bar of the stream `s`: volume in the
/// stream's quantity units, prices rescaled to its minor units (open, high, low,
/// close in that order), and the result a valid one-minute bar. `Err(None)` is a
/// bar refused by the one-minute bar check, with that check's message.
pub open spec fn official_bar(s: StreamAggregationState, b: OfficialMinuteBar) -> Result<
    CompletedMarketBar,
    Option<Seq<char>>,
> {
    let scale = price_scale_of(s.currency@);
    let o = rescaled(b.open_scaled, b.price_scale, scale);
    let h = rescaled(b.high_scaled, b.price_scale, scale);
    let l = rescaled(b.low_scaled, b.price_scale, scale);
    let c = rescaled(b.close_scaled, b.price_scale, scale);
    if b.quantity_scale != QUANTITY_SCALE {
        Err(Some("공식 REST 봉 거래량 단위가 스트림 계약과 일치하지 않습니다."@))
    } else if o is Err {
        Err(Some(o->Err_0))
    } else if h is Err {
        Err(Some(h->Err_0))
    } else if l is Err {
        Err(Some(l->Err_0))
    } else if c is Err {
        Err(Some(c->Err_0))
    } else {
        let bar = CompletedMarketBar {
            provider: s.provider,
            asset_class: s.asset_class,
            symbol: s.symbol,
            currency: s.currency,
            interval_minutes: 1,
            period_start_ms: b.period_start_ms,
            period_end_ms: b.period_end_ms,
            available_at_ms: b.available_at_ms,
            ingested_at_ms: b.ingested_at_ms,
            open_minor: o->Ok_0 as u64,
            high_minor: h->Ok_0 as u64,
            low_minor: l->Ok_0 as u64,
            close_minor: c->Ok_0 as u64,
            volume_base_units: b.volume_scaled,
            quantity_scale: b.quantity_scale,
            source_count: 1,
        };
        if minute_bars_valid(seq![bar]) {
            Ok(bar)
        } else {
            Err(None)
        }
    }
}

pub fn official_bar_to_completed(state: &StreamAggregationState, bar: OfficialMinuteBar) -> (r: Result<
    CompletedMarketBar,
    String,
>)
    ensures
        match official_bar(*state, bar) {
            Ok(b) => r == Ok::<CompletedMarketBar, String>(b),
            Err(Some(e)) => r matches Err(x) && x@ == e,
            Err(None) => r is Err,
        },
{
    let price_scale: u64 = if str_eq(state.currency.as_str(), "KRW") {
        1
    } else {
        100
    };
    if bar.quantity_scale != QUANTITY_SCALE {
        return Err("공식 REST 봉 거래량 단위가 스트림 계약과 일치하지 않습니다.".to_owned());
    }
    let open_minor = rounded_rescale(bar.open_scaled, bar.price_scale, price_scale)?;
    let high_minor = rounded_rescale(bar.high_scaled, bar.price_scale, price_scale)?;
    let low_minor = rounded_rescale(bar.low_scaled, bar.price_scale, price_scale)?;
    let close_minor = rounded_rescale(bar.close_scaled, bar.price_scale, price_scale)?;
    let completed = CompletedMarketBar {
        provider: copy_string(&state.provider),
        asset_class: copy_string(&state.asset_class),
        symbol: copy_string(&state.symbol),
        currency: copy_string(&state.currency),
        interval_minutes: 1,
        period_start_ms: bar.period_start_ms,
        period_end_ms: bar.period_end_ms,
        available_at_ms: bar.available_at_ms,
        ingested_at_ms: bar.ingested_at_ms,
        open_minor,
        high_minor,
        low_minor,
        close_minor,
        volume_base_units: bar.volume_scaled,
        quantity_scale: bar.quantity_scale,
        source_count: 1,
    };
    let single = vec![copy_bar(&completed)];
    assert(single@ == seq![completed]);
    validate_minute_bars(&single)?;
    Ok(completed)
}

/// The reasons of the gaps left after a repair.
pub open spec fn repair_between_reason() -> Seq<char> {
    "공식 REST 복구 후에도 남은 1분봉 누락"@
}

pub open spec fn repair_partial_reason() -> Seq<char> {
    "공식 REST 복구 후에도 남은 partial 이전 누락"@
}

/// The gaps recomputed from the completed bars after a repair: the minutes missing
/// between consecutive bars, then those between the last bar and the partial bar,
/// keeping the latest 256.
#[verifier::opaque]
pub open spec fn recomputed_gaps(m: StreamModel) -> Result<Seq<GapModel>, Seq<char>> {
    match gaps_between(m.completed, MINUTE_MS) {
        None => Err("시장 데이터 gap 길이가 지원 범위를 초과했습니다."@),
        Some(spans) => {
            let between = with_reason(spans, repair_between_reason());
            if m.completed.len() > 0 && m.partial is Some && m.partial->0.period_start_ms
                > m.completed.last().period_end_ms {
                let end = m.completed.last().period_end_ms;
                let start = m.partial->0.period_start_ms;
                let missing = (start - end) / (MINUTE_MS as int);
                if missing > u32::MAX {
                    Err("REST 복구 후 gap 길이가 지원 범위를 초과했습니다."@)
                } else {
                    Ok(keep_last(between.push((end, start, missing as u32, repair_partial_reason())), 256))
                }
            } else {
                Ok(keep_last(between, 256))
            }
        },
    }
}

pub fn recompute_state_gaps(state: &mut StreamAggregationState) -> (r: Result<(), String>)
    ensures
        same_identity(*old(state), *final(state)),
        match recomputed_gaps(model(*old(state))) {
            Ok(g) => r is Ok && model(*final(state)) == (StreamModel { gaps: g, ..model(*old(state)) }),
            Err(e) => r matches Err(x) && x@ == e && *final(state) == *old(state),
        },
{
    reveal(recomputed_gaps);
    let mut gaps = gaps_between_bars(
        &state.completed_minute_bars,
        MINUTE_MS,
        "공식 REST 복구 후에도 남은 1분봉 누락",
    )?;
    proof {
        lemma_gap_models_reason(gaps@, repair_between_reason());
    }
    let n = state.completed_minute_bars.len();
    if n > 0 {
        match &state.partial_bar {
            Some(partial) => {
                let end = state.completed_minute_bars[n - 1].period_end_ms;
                if partial.period_start_ms > end {
                    let missing = (partial.period_start_ms - end) / MINUTE_MS;
                    if missing > 0xffff_ffffu64 {
                        return Err("REST 복구 후 gap 길이가 지원 범위를 초과했습니다.".to_owned());
                    }
                    let ghost before = gaps@;
                    gaps.push(
                        MarketDataGap {
                            period_start_ms: end,
                            period_end_ms: partial.period_start_ms,
                            missing_unit_count: missing as u32,
                            reason: "공식 REST 복구 후에도 남은 partial 이전 누락".to_owned(),
                        },
                    );
                    assert(gap_models(gaps@) =~= gap_models(before).push(
                        (end, partial.period_start_ms, missing as u32, repair_partial_reason()),
                    ));
                }
            },
            None => {},
        }
    }
    let ghost all = gaps@;
    state.gaps = keep_last_gaps(gaps, RETAINED_GAP_LIMIT);
    proof {
        lemma_keep_last_gap_models(all, 256);
    }
    Ok(())
}

/// Whether a recorded gap covers `[start, end)`.
pub open spec fn gap_covers(gaps: Seq<GapModel>, start: u64, end: u64) -> bool {
    exists|i: int| 0 <= i < gaps.len() && (#[trigger] gaps[i]).0 <= start && gaps[i].1 >= end
}

pub open spec fn has_start(bars: Seq<CompletedMarketBar>, start: u64) -> bool {
    exists|j: int| 0 <= j < bars.len() && (#[trigger] bars[j]).period_start_ms == start
}

/// The official bars converted in order: each must lie within `[start, end)` and
/// end by its ingestion time; a minute already completed is skipped; the first
/// refusal stops the conversion.
pub open spec fn converted_bars(
    s: StreamAggregationState,
    bars: Seq<OfficialMinuteBar>,
    start: u64,
    end: u64,
    n: int,
) -> Result<Seq<CompletedMarketBar>, Option<Seq<char>>>
    decreases n,
{
    if n <= 0 {
        Ok(Seq::empty())
    } else {
        match converted_bars(s, bars, start, end, n - 1) {
            Err(e) => Err(e),
            Ok(prev) => {
                let b = bars[n - 1];
                if b.period_start_ms < start || b.period_end_ms > end || b.period_end_ms > b.ingested_at_ms {
                    Err(Some("공식 REST 봉이 요청 gap 또는 관측 시각 경계를 벗어났습니다."@))
                } else if has_start(s.completed_minute_bars@, b.period_start_ms) {
                    Ok(prev)
                } else {
                    match official_bar(s, b) {
                        Err(e) => Err(e),
                        Ok(c) => Ok(prev.push(c)),
                    }
                }
            },
        }
    }
}

pub open spec fn starts_distinct(bars: Seq<CompletedMarketBar>) -> bool {
    forall|a: int, c: int| 0 <= a < c < bars.len() ==> bars[a].period_start_ms != bars[c].period_start_ms
}

/// What a repair inserts, or why it is refused: no recorded gap covering the
/// request, a refused official bar, or two official bars of one minute.
pub open spec fn backfill_bars(
    s: StreamAggregationState,
    start: u64,
    end: u64,
    bars: Seq<OfficialMinuteBar>,
) -> Result<Seq<CompletedMarketBar>, Option<Seq<char>>> {
    if !gap_covers(model(s).gaps, start, end) {
        Err(Some("REST 복구 대상 gap이 현재 체크포인트와 일치하지 않습니다."@))
    } else {
        match converted_bars(s, bars, start, end, bars.len() as int) {
            Err(e) => Err(e),
            Ok(conv) => if !starts_distinct(conv) {
                Err(Some("공식 REST 복구 봉에 중복 또는 역순 데이터가 있습니다."@))
            } else {
                Ok(conv)
            },
        }
    }
}

pub open spec fn start_sorted(s: Seq<CompletedMarketBar>) -> bool {
    forall|a: int| 0 <= a < s.len() - 1 ==> (#[trigger] s[a]).period_start_ms <= s[a + 1].period_start_ms
}

/// `merged` is the completed bars and the inserted bars in start order.
pub open spec fn merge_of(
    merged: Seq<CompletedMarketBar>,
    completed: Seq<CompletedMarketBar>,
    inserted: Seq<CompletedMarketBar>,
) -> bool {
    &&& start_sorted(merged)
    &&& merged.to_multiset() == (completed + inserted).to_multiset()
}

pub open spec fn max_ingested_of(bars: Seq<CompletedMarketBar>, n: int, init: u64) -> u64
    decreases n,
{
    if n <= 0 {
        init
    } else {
        max_u64(max_ingested_of(bars, n - 1, init), bars[n - 1].ingested_at_ms)
    }
}

/// A repair once the inserted bars are known: the merged bars are checked (the
/// state keeps them when refused), the latest 480 kept, the gaps recomputed, the
/// update time moved to the latest ingestion, and the whole state checked as a
/// checkpoint.
#[verifier::opaque]
pub open spec fn repaired(
    old_state: StreamAggregationState,
    merged: Seq<CompletedMarketBar>,
    inserted: Seq<CompletedMarketBar>,
    fin: StreamAggregationState,
    r: Result<usize, String>,
) -> bool {
    let m0 = model(old_state);
    let kept = keep_last(merged, 480);
    if !minute_bars_valid(merged) {
        r is Err && model(fin) == (StreamModel { completed: merged, ..m0 })
    } else {
        match recomputed_gaps(StreamModel { completed: kept, ..m0 }) {
            Err(e) => r matches Err(x) && x@ == e && model(fin) == (StreamModel { completed: kept, ..m0 }),
            Ok(g) => {
                &&& model(fin) == (StreamModel {
                    completed: kept,
                    gaps: g,
                    updated_at: max_u64(m0.updated_at, max_ingested_of(inserted, inserted.len() as int, m0.updated_at)),
                    ..m0
                })
                &&& (r is Ok <==> checkpoint_ok(fin))
                &&& r matches Ok(k) ==> k == inserted.len()
                &&& r matches Err(x) ==> (checkpoint_message(fin) matches Some(msg) ==> x@ == msg)
            },
        }
    }
}

fn insert_by_start(out: &mut Vec<CompletedMarketBar>, bar: CompletedMarketBar)
    requires
        start_sorted(old(out)@),
    ensures
        start_sorted(final(out)@),
        final(out)@.to_multiset() == old(out)@.to_multiset().insert(bar),
{
    let mut i: usize = 0;
    while i < out.len() && out[i].period_start_ms <= bar.period_start_ms
        invariant
            i <= out.len(),
            i > 0 ==> out@[i - 1].period_start_ms <= bar.period_start_ms,
        decreases out.len() - i,
    {
        i = i + 1;
    }
    let ghost before = out@;
    out.insert(i, bar);
    proof {
        vstd::seq_lib::to_multiset_insert(before, i as int, bar);
        assert forall|a: int| 0 <= a < out@.len() - 1 implies (#[trigger] out@[a]).period_start_ms
            <= out@[a + 1].period_start_ms by {
            if a + 1 < i {
                assert(out@[a] == before[a] && out@[a + 1] == before[a + 1]);
            } else if a + 1 == i {
                assert(out@[a] == before[a]);
            } else if a == i {
                assert(out@[a + 1] == before[a]);
            } else {
                assert(out@[a] == before[a - 1] && out@[a + 1] == before[a]);
            }
        }
    }
}

/// The bars of `a` then `b`, in start order (stable).
fn merge_by_start(a: &Vec<CompletedMarketBar>, b: &Vec<CompletedMarketBar>) -> (r: Vec<CompletedMarketBar>)
    ensures
        merge_of(r@, a@, b@),
{
    let mut out: Vec<CompletedMarketBar> = Vec::new();
    let mut i: usize = 0;
    assert(a@.subrange(0, 0).to_multiset() =~= out@.to_multiset()) by {
        assert(a@.subrange(0, 0) =~= out@);
    }
    while i < a.len()
        invariant
            i <= a.len(),
            start_sorted(out@),
            out@.to_multiset() == a@.subrange(0, i as int).to_multiset(),
        decreases a.len() - i,
    {
        let bar = copy_bar(&a[i]);
        insert_by_start(&mut out, bar);
        proof {
            assert(a@.subrange(0, i as int + 1) =~= a@.subrange(0, i as int).push(a@[i as int]));
            vstd::seq_lib::to_multiset_build(a@.subrange(0, i as int), a@[i as int]);
        }
        i = i + 1;
    }
    let mut j: usize = 0;
    assert(a@ + b@.subrange(0, 0) =~= a@.subrange(0, a.len() as int));
    while j < b.len()
        invariant
            j <= b.len(),
            start_sorted(out@),
            out@.to_multiset() == (a@ + b@.subrange(0, j as int)).to_multiset(),
        decreases b.len() - j,
    {
        let bar = copy_bar(&b[j]);
        insert_by_start(&mut out, bar);
        proof {
            assert(a@ + b@.subrange(0, j as int + 1) =~= (a@ + b@.subrange(0, j as int)).push(b@[j as int]));
            vstd::seq_lib::to_multiset_build(a@ + b@.subrange(0, j as int), b@[j as int]);
        }
        j = j + 1;
    }
    assert(b@.subrange(0, b.len() as int) =~= b@);
    out
}

fn covers_request(state: &StreamAggregationState, start: u64, end: u64) -> (r: bool)
    ensures
        r == gap_covers(model(*state).gaps, start, end),
{
    let mut covered = false;
    let mut g: usize = 0;
    while g < state.gaps.len()
        invariant
            g <= state.gaps.len(),
            covered == exists|x: int|
                0 <= x < g && (#[trigger] state.gaps@[x]).period_start_ms <= start && state.gaps@[x].period_end_ms
                    >= end,
        decreases state.gaps.len() - g,
    {
        if state.gaps[g].period_start_ms <= start && state.gaps[g].period_end_ms >= end {
            covered = true;
        }
        g = g + 1;
    }
    proof {
        if covered {
            let x = choose|x: int|
                0 <= x < state.gaps@.len() && (#[trigger] state.gaps@[x]).period_start_ms <= start
                    && state.gaps@[x].period_end_ms >= end;
            assert(model(*state).gaps[x] == gap_model(state.gaps@[x]));
        } else {
            assert forall|x: int| 0 <= x < model(*state).gaps.len() implies !((#[trigger] model(*state).gaps[x]).0
                <= start && model(*state).gaps[x].1 >= end) by {
                assert(model(*state).gaps[x] == gap_model(state.gaps@[x]));
            }
        }
    }
    covered
}

fn has_start_exec(bars: &Vec<CompletedMarketBar>, start: u64) -> (r: bool)
    ensures
        r == has_start(bars@, start),
{
    let mut j: usize = 0;
    while j < bars.len()
        invariant
            j <= bars.len(),
            forall|x: int| 0 <= x < j ==> (#[trigger] bars@[x]).period_start_ms != start,
        decreases bars.len() - j,
    {
        if bars[j].period_start_ms == start {
            return true;
        }
        j = j + 1;
    }
    false
}

fn convert_official(state: &StreamAggregationState, bars: &Vec<OfficialMinuteBar>, start: u64, end: u64) -> (r:
    Result<Vec<CompletedMarketBar>, String>)
    ensures
        match converted_bars(*state, bars@, start, end, bars@.len() as int) {
            Ok(c) => r matches Ok(v) && v@ == c,
            Err(Some(e)) => r matches Err(x) && x@ == e,
            Err(None) => r is Err,
        },
{
    let mut converted: Vec<CompletedMarketBar> = Vec::new();
    let mut i: usize = 0;
    while i < bars.len()
        invariant
            i <= bars.len(),
            converted_bars(*state, bars@, start, end, i as int) == Ok::<
                Seq<CompletedMarketBar>,
                Option<Seq<char>>,
            >(converted@),
        decreases bars.len() - i,
    {
        let b = bars[i];
        if b.period_start_ms < start || b.period_end_ms > end || b.period_end_ms > b.ingested_at_ms {
            proof {
                lemma_converted_err_persists(*state, bars@, start, end, i as int + 1, bars@.len() as int);
            }
            return Err("공식 REST 봉이 요청 gap 또는 관측 시각 경계를 벗어났습니다.".to_owned());
        }
        if !has_start_exec(&state.completed_minute_bars, b.period_start_ms) {
            let c = match official_bar_to_completed(state, b) {
                Ok(c) => c,
                Err(e) => {
                    proof {
                        lemma_converted_err_persists(*state, bars@, start, end, i as int + 1, bars@.len() as int);
                    }
                    return Err(e);
                },
            };
            converted.push(c);
        }
        i = i + 1;
    }
    Ok(converted)
}

fn starts_distinct_exec(v: &Vec<CompletedMarketBar>) -> (r: bool)
    ensures
        r == starts_distinct(v@),
{
    let mut a: usize = 0;
    while a < v.len()
        invariant
            a <= v.len(),
            forall|x: int, y: int| 0 <= x < a && x < y < v@.len() ==> v@[x].period_start_ms != v@[y].period_start_ms,
        decreases v.len() - a,
    {
        let mut c: usize = a + 1;
        while c < v.len()
            invariant
                a < c <= v.len(),
                forall|y: int| a < y < c ==> v@[a as int].period_start_ms != v@[y].period_start_ms,
            decreases v.len() - c,
        {
            if v[a].period_start_ms == v[c].period_start_ms {
                return false;
            }
            c = c + 1;
        }
        a = a + 1;
    }
    true
}

/// The tail of a repair once the inserted bars are known (see [`repaired`]).
fn finish_repair(state: &mut StreamAggregationState, converted: Vec<CompletedMarketBar>) -> (r: Result<usize, String>)
    requires
        converted@.len() > 0,
    ensures
        same_identity(*old(state), *final(state)),
        exists|merged: Seq<CompletedMarketBar>|
            #[trigger] merge_of(merged, old(state).completed_minute_bars@, converted@) && repaired(
                *old(state),
                merged,
                converted@,
                *final(state),
                r,
            ),
{
    reveal(repaired);
    let ghost old_state = *state;
    let inserted = converted.len();
    let mut ingested_at: u64 = state.updated_at_ms;
    let mut k: usize = 0;
    while k < converted.len()
        invariant
            k <= converted.len(),
            ingested_at == max_ingested_of(converted@, k as int, state.updated_at_ms),
        decreases converted.len() - k,
    {
        if converted[k].ingested_at_ms > ingested_at {
            ingested_at = converted[k].ingested_at_ms;
        }
        k = k + 1;
    }
    let merged = merge_by_start(&state.completed_minute_bars, &converted);
    let ghost merged_seq = merged@;
    assert(merge_of(merged_seq, old_state.completed_minute_bars@, converted@));
    state.completed_minute_bars = merged;
    match validate_minute_bars(&state.completed_minute_bars) {
        Ok(()) => {},
        Err(e) => {
            return Err(e);
        },
    }
    let mut all: Vec<CompletedMarketBar> = Vec::new();
    std::mem::swap(&mut all, &mut state.completed_minute_bars);
    state.completed_minute_bars = keep_last_bars(all, RETAINED_MINUTE_BAR_LIMIT);
    match recompute_state_gaps(state) {
        Ok(()) => {},
        Err(e) => {
            return Err(e);
        },
    }
    state.updated_at_ms = if state.updated_at_ms >= ingested_at {
        state.updated_at_ms
    } else {
        ingested_at
    };
    let checked = validate_checkpoint_state(state);
    match checked {
        Ok(()) => Ok(inserted),
        Err(e) => Err(e),
    }
}

/// The outcome of a repair of state `s` into `fin` with result `r`.
pub open spec fn backfill_applied(
    s: StreamAggregationState,
    start: u64,
    end: u64,
    bars: Seq<OfficialMinuteBar>,
    fin: StreamAggregationState,
    r: Result<usize, String>,
) -> bool {
    match backfill_bars(s, start, end, bars) {
        Err(Some(e)) => r matches Err(x) && x@ == e && fin == s,
        Err(None) => r is Err && fin == s,
        Ok(conv) => if conv.len() == 0 {
            r == Ok::<usize, String>(0) && fin == s
        } else {
            exists|merged: Seq<CompletedMarketBar>|
                #[trigger] merge_of(merged, s.completed_minute_bars@, conv) && repaired(s, merged, conv, fin, r)
        },
    }
}

/// Repairs the stream from official bars for the request `[start, end)` (see
/// [`backfill_bars`] and [`repaired`]); returns how many bars were inserted.
pub fn apply_official_gap_backfill(
    state: &mut StreamAggregationState,
    request_start_ms: u64,
    request_end_ms: u64,
    bars: Vec<OfficialMinuteBar>,
) -> (r: Result<usize, String>)
    ensures
        same_identity(*old(state), *final(state)),
        backfill_applied(*old(state), request_start_ms, request_end_ms, bars@, *final(state), r),
{
    if !covers_request(state, request_start_ms, request_end_ms) {
        return Err("REST 복구 대상 gap이 현재 체크포인트와 일치하지 않습니다.".to_owned());
    }
    let converted = convert_official(state, &bars, request_start_ms, request_end_ms)?;
    if !starts_distinct_exec(&converted) {
        return Err("공식 REST 복구 봉에 중복 또는 역순 데이터가 있습니다.".to_owned());
    }
    if converted.len() == 0 {
        return Ok(0);
    }
    finish_repair(state, converted)
}

proof fn lemma_converted_err_persists(
    s: StreamAggregationState,
    bars: Seq<OfficialMinuteBar>,
    start: u64,
    end: u64,
    k: int,
    n: int,
)
    requires
        0 <= k <= n,
        converted_bars(s, bars, start, end, k) is Err,
    ensures
        converted_bars(s, bars, start, end, n) == converted_bars(s, bars, start, end, k),
    decreases n - k,
{
    if n > k {
        lemma_converted_err_persists(s, bars, start, end, k, n - 1);
    }
}

// ---------------------------------------------------------------- repair requests

pub open spec fn active_has(active: Seq<String>, id: Seq<char>) -> bool {
    exists|i: int| 0 <= i < active.len() && (#[trigger] active[i])@ == id
}

/// The last repair attempt of stream `id` (the first entry for it).
pub open spec fn attempt_index(attempts: Seq<(String, u64)>, id: Seq<char>, i: int) -> Option<int>
    decreases attempts.len() - i,
{
    if i < 0 || i >= attempts.len() {
        None
    } else if attempts[i].0@ == id {
        Some(i)
    } else {
        attempt_index(attempts, id, i + 1)
    }
}

pub open spec fn attempt_of(attempts: Seq<(String, u64)>, id: Seq<char>) -> Option<u64> {
    match attempt_index(attempts, id, 0) {
        Some(i) => Some(attempts[i].1),
        None => None,
    }
}

/// The shortest time between two repair attempts of one stream.
pub const BACKFILL_MINIMUM_INTERVAL_MS: u64 = 2_000;

proof fn lemma_attempt_index_same_keys(a: Seq<(String, u64)>, b: Seq<(String, u64)>, id: Seq<char>, j: int)
    requires
        0 <= j,
        a.len() == b.len(),
        forall|x: int| 0 <= x < a.len() ==> a[x].0@ == b[x].0@,
    ensures
        attempt_index(a, id, j) == attempt_index(b, id, j),
    decreases a.len() - j,
{
    if j < a.len() {
        lemma_attempt_index_same_keys(a, b, id, j + 1);
    }
}

proof fn lemma_attempt_index_some(a: Seq<(String, u64)>, id: Seq<char>, j: int)
    requires
        0 <= j,
        attempt_index(a, id, j) is Some,
    ensures
        j <= attempt_index(a, id, j)->0 < a.len(),
        a[attempt_index(a, id, j)->0].0@ == id,
        forall|x: int| j <= x < attempt_index(a, id, j)->0 ==> a[x].0@ != id,
    decreases a.len() - j,
{
    if j < a.len() && a[j].0@ != id {
        lemma_attempt_index_some(a, id, j + 1);
    }
}

proof fn lemma_attempt_index_push(a: Seq<(String, u64)>, e: (String, u64), id: Seq<char>, j: int)
    requires
        0 <= j <= a.len(),
        e.0@ != id || attempt_index(a, id, j) is Some,
    ensures
        attempt_index(a.push(e), id, j) == attempt_index(a, id, j),
    decreases a.len() - j,
{
    if j < a.len() {
        assert(a.push(e)[j] == a[j]);
        if a[j].0@ != id {
            lemma_attempt_index_push(a, e, id, j + 1);
        }
    } else {
        assert(a.push(e)[j] == e);
        assert(attempt_index(a.push(e), id, j + 1) is None);
    }
}

proof fn lemma_attempt_index_push_new(a: Seq<(String, u64)>, e: (String, u64), j: int)
    requires
        0 <= j <= a.len(),
        attempt_index(a, e.0@, j) is None,
    ensures
        attempt_index(a.push(e), e.0@, j) == Some(a.len() as int),
    decreases a.len() - j,
{
    if j < a.len() {
        assert(a.push(e)[j] == a[j]);
        lemma_attempt_index_push_new(a, e, j + 1);
    } else {
        assert(a.push(e)[j] == e);
    }
}

/// Starts a repair of stream `id` at `attempted_at_ms`: refused while one is in
/// progress for the stream, or within two seconds of its last attempt; otherwise
/// the stream is marked in progress and the attempt recorded.
pub fn begin_gap_backfill(bridge: &mut MarketAggregationBridge, stream_id: &str, attempted_at_ms: u64) -> (r: Result<
    (),
    String,
>)
    ensures
        final(bridge).states@ == old(bridge).states@,
        if active_has(old(bridge).active_backfills@, stream_id@) {
            r matches Err(e) && e@ == "같은 스트림의 REST gap 복구가 이미 진행 중입니다."@ && final(bridge).active_backfills@
                == old(bridge).active_backfills@ && final(bridge).last_backfill_attempt_ms@ == old(bridge).last_backfill_attempt_ms@
        } else if attempt_of(old(bridge).last_backfill_attempt_ms@, stream_id@) matches Some(p) && (if attempted_at_ms
            >= p {
            attempted_at_ms - p
        } else {
            0
        }) < 2_000 {
            r matches Err(e) && e@ == "REST gap 복구는 스트림별로 2초 뒤 다시 시도할 수 있습니다."@
                && final(bridge).active_backfills@ == old(bridge).active_backfills@ && final(bridge).last_backfill_attempt_ms@ == old(bridge).last_backfill_attempt_ms@
        } else {
            &&& r is Ok
            &&& active_has(final(bridge).active_backfills@, stream_id@)
            &&& forall|k: Seq<char>|
                k != stream_id@ ==> active_has(final(bridge).active_backfills@, k) == active_has(
                    old(bridge).active_backfills@,
                    k,
                )
            &&& attempt_of(final(bridge).last_backfill_attempt_ms@, stream_id@) == Some(attempted_at_ms)
            &&& forall|k: Seq<char>|
                k != stream_id@ ==> attempt_of(final(bridge).last_backfill_attempt_ms@, k) == attempt_of(
                    old(bridge).last_backfill_attempt_ms@,
                    k,
                )
        },
{
    let mut i: usize = 0;
    while i < bridge.active_backfills.len()
        invariant
            i <= bridge.active_backfills.len(),
            forall|x: int| 0 <= x < i ==> (#[trigger] bridge.active_backfills@[x])@ != stream_id@,
        decreases bridge.active_backfills.len() - i,
    {
        if str_eq(bridge.active_backfills[i].as_str(), stream_id) {
            return Err("같은 스트림의 REST gap 복구가 이미 진행 중입니다.".to_owned());
        }
        i = i + 1;
    }
    let mut j: usize = 0;
    while j < bridge.last_backfill_attempt_ms.len() && !str_eq(bridge.last_backfill_attempt_ms[j].0.as_str(), stream_id)
        invariant
            j <= bridge.last_backfill_attempt_ms.len(),
            attempt_index(bridge.last_backfill_attempt_ms@, stream_id@, 0) == attempt_index(
                bridge.last_backfill_attempt_ms@,
                stream_id@,
                j as int,
            ),
        decreases bridge.last_backfill_attempt_ms.len() - j,
    {
        j = j + 1;
    }
    if j < bridge.last_backfill_attempt_ms.len() {
        let previous = bridge.last_backfill_attempt_ms[j].1;
        let elapsed: u64 = if attempted_at_ms >= previous {
            attempted_at_ms - previous
        } else {
            0
        };
        if elapsed < BACKFILL_MINIMUM_INTERVAL_MS {
            return Err("REST gap 복구는 스트림별로 2초 뒤 다시 시도할 수 있습니다.".to_owned());
        }
    }
    let ghost active0 = bridge.active_backfills@;
    bridge.active_backfills.push(stream_id.to_owned());
    proof {
        let a1 = bridge.active_backfills@;
        assert(a1[active0.len() as int]@ == stream_id@);
        assert forall|k: Seq<char>| k != stream_id@ implies active_has(a1, k) == active_has(active0, k) by {
            if active_has(active0, k) {
                let x = choose|x: int| 0 <= x < active0.len() && (#[trigger] active0[x])@ == k;
                assert(a1[x] == active0[x]);
            }
            if active_has(a1, k) {
                let x = choose|x: int| 0 <= x < a1.len() && (#[trigger] a1[x])@ == k;
                assert(x < active0.len());
                assert(a1[x] == active0[x]);
            }
        }
    }
    let ghost att0 = bridge.last_backfill_attempt_ms@;
    if j < bridge.last_backfill_attempt_ms.len() {
        proof {
            lemma_attempt_index_some(att0, stream_id@, 0);
        }
        bridge.last_backfill_attempt_ms.set(j, (stream_id.to_owned(), attempted_at_ms));
        proof {
            let att1 = bridge.last_backfill_attempt_ms@;
            lemma_attempt_index_same_keys(att0, att1, stream_id@, 0);
            assert forall|k: Seq<char>| k != stream_id@ implies attempt_of(att1, k) == attempt_of(att0, k) by {
                lemma_attempt_index_same_keys(att0, att1, k, 0);
                if attempt_index(att0, k, 0) is Some {
                    lemma_attempt_index_some(att0, k, 0);
                }
            }
        }
    } else {
        let entry = (stream_id.to_owned(), attempted_at_ms);
        bridge.last_backfill_attempt_ms.push(entry);
        proof {
            lemma_attempt_index_push_new(att0, entry, 0);
            assert forall|k: Seq<char>| k != stream_id@ implies attempt_of(bridge.last_backfill_attempt_ms@, k)
                == attempt_of(att0, k) by {
                lemma_attempt_index_push(att0, entry, k, 0);
                if attempt_index(att0, k, 0) is Some {
                    lemma_attempt_index_some(att0, k, 0);
                }
            }
        }
    }
    Ok(())
}

/// Ends the repair of stream `id`: it is no longer in progress.
pub fn end_gap_backfill(bridge: &mut MarketAggregationBridge, stream_id: &str)
    ensures
        final(bridge).states@ == old(bridge).states@,
        final(bridge).last_backfill_attempt_ms@ == old(bridge).last_backfill_attempt_ms@,
        !active_has(final(bridge).active_backfills@, stream_id@),
        forall|k: Seq<char>|
            k != stream_id@ ==> active_has(final(bridge).active_backfills@, k) == active_has(
                old(bridge).active_backfills@,
                k,
            ),
{
    let mut kept: Vec<String> = Vec::new();
    let mut i: usize = 0;
    while i < bridge.active_backfills.len()
        invariant
            i <= bridge.active_backfills.len(),
            forall|x: int| 0 <= x < kept@.len() ==> (#[trigger] kept@[x])@ != stream_id@,
            forall|k: Seq<char>|
                k != stream_id@ ==> (active_has(kept@, k) <==> active_has(
                    bridge.active_backfills@.subrange(0, i as int),
                    k,
                )),
        decreases bridge.active_backfills.len() - i,
    {
        let ghost before = kept@;
        let ghost pre = bridge.active_backfills@.subrange(0, i as int);
        let ghost post = bridge.active_backfills@.subrange(0, i as int + 1);
        if !str_eq(bridge.active_backfills[i].as_str(), stream_id) {
            kept.push(copy_string(&bridge.active_backfills[i]));
        }
        proof {
            assert(post == pre.push(bridge.active_backfills@[i as int]));
            assert forall|k: Seq<char>| k != stream_id@ implies (active_has(kept@, k) <==> active_has(post, k)) by {
                if active_has(kept@, k) {
                    let x = choose|x: int| 0 <= x < kept@.len() && (#[trigger] kept@[x])@ == k;
                    if x < before.len() {
                        assert(kept@[x] == before[x]);
                        assert(active_has(before, k));
                        assert(active_has(pre, k));
                        let y = choose|y: int| 0 <= y < pre.len() && (#[trigger] pre[y])@ == k;
                        assert(post[y] == pre[y]);
                        assert(active_has(post, k));
                    } else {
                        assert(post[i as int] == bridge.active_backfills@[i as int]);
                        assert(active_has(post, k));
                    }
                }
                if active_has(post, k) {
                    let y = choose|y: int| 0 <= y < post.len() && (#[trigger] post[y])@ == k;
                    if y < i {
                        assert(pre[y] == post[y]);
                        assert(active_has(pre, k));
                        assert(active_has(before, k));
                        let x = choose|x: int| 0 <= x < before.len() && (#[trigger] before[x])@ == k;
                        assert(kept@[x] == before[x]);
                        assert(active_has(kept@, k));
                    } else {
                        assert(kept@[before.len() as int]@ == k);
                        assert(active_has(kept@, k));
                    }
                }
            }
        }
        i = i + 1;
    }
    proof {
        assert(bridge.active_backfills@.subrange(0, i as int) =~= bridge.active_backfills@);
    }
    bridge.active_backfills = kept;
}

/// A repair ready to fetch: the stream, its official source, the window of its
/// first recorded gap to request, and the checkpoint it was planned from.
#[derive(Debug)]
pub struct GapBackfillPlan {
    pub stream_id: String,
    pub provider: PitOfficialProvider,
    pub symbol: String,
    pub period_start_ms: u64,
    pub period_end_ms: u64,
    pub checkpoint: StreamAggregationState,
}

/// The request window for gap `g`: from its start, at most 200 minutes for Upbit
/// and 1,000 for Binance, never past its end; `None` when the end overflows.
pub open spec fn plan_window(g: GapModel, provider: PitOfficialProvider) -> Option<(u64, u64)> {
    let limit: int = if provider == PitOfficialProvider::UpbitSpot { 200 } else { 1_000 };
    let units: int = if g.2 < limit { g.2 as int } else { limit };
    let end = g.0 + units * 60_000;
    if end > u64::MAX {
        None
    } else {
        Some((g.0, if end < g.1 { end as u64 } else { g.1 }))
    }
}

/// A request to repair a stream's first gap from the official REST source.
#[derive(Debug, Clone)]
pub struct MarketGapBackfillRequest {
    pub stream_id: String,
}

/// Plans the repair of the first recorded gap of the requested stream (its id
/// trimmed).
pub fn plan_gap_backfill(store: &CheckpointStore, request: &MarketGapBackfillRequest) -> (r: Result<
    GapBackfillPlan,
    String,
>)
    ensures
        ({
            let id = trim(request.stream_id@);
            match official_provider_spec(id) {
                None => r matches Err(e) && e@ == "REST gap 복구를 허용하지 않은 시장 스트림입니다."@,
                Some(p) => match state_of(store.checkpoints@, id) {
                    None => r matches Err(e) && e@ == "REST 복구에 필요한 시장 집계 체크포인트가 없습니다."@,
                    Some(cp) => if !checkpoint_ok(cp) {
                        r is Err && (checkpoint_message(cp) matches Some(m) ==> r->Err_0@ == m)
                    } else if model(cp).gaps.len() == 0 {
                        r matches Err(e) && e@ == "복구할 시장 데이터 gap이 없습니다."@
                    } else {
                        match plan_window(model(cp).gaps[0], p) {
                            None => r matches Err(e) && e@ == "REST 복구 종료 시각이 지원 범위를 초과했습니다."@,
                            Some(w) => r matches Ok(plan) && plan.stream_id@ == id && plan.provider == p
                                && plan.symbol@ == cp.symbol@ && plan.period_start_ms == w.0 && plan.period_end_ms
                                == w.1 && sview(plan.checkpoint) == sview(cp),
                        }
                    },
                },
            }
        }),
{
    let id = trimmed(request.stream_id.as_str());
    let provider = official_provider_for_stream(id.as_str())?;
    let checkpoint = match store.load(id.as_str())? {
        Some(cp) => cp,
        None => {
            return Err("REST 복구에 필요한 시장 집계 체크포인트가 없습니다.".to_owned());
        },
    };
    if checkpoint.gaps.len() == 0 {
        return Err("복구할 시장 데이터 gap이 없습니다.".to_owned());
    }
    let start = checkpoint.gaps[0].period_start_ms;
    let gap_end = checkpoint.gaps[0].period_end_ms;
    let missing = checkpoint.gaps[0].missing_unit_count as u64;
    assert(model(checkpoint).gaps[0] == gap_model(checkpoint.gaps@[0]));
    let limit: u64 = if provider == PitOfficialProvider::UpbitSpot {
        200
    } else {
        1_000
    };
    let units: u64 = if missing < limit {
        missing
    } else {
        limit
    };
    let span = units * 60_000;
    if start > u64::MAX - span {
        return Err("REST 복구 종료 시각이 지원 범위를 초과했습니다.".to_owned());
    }
    let end = start + span;
    let period_end_ms = if end < gap_end {
        end
    } else {
        gap_end
    };
    let symbol = copy_string(&checkpoint.symbol);
    Ok(GapBackfillPlan { stream_id: id, provider, symbol, period_start_ms: start, period_end_ms, checkpoint })
}

/// The outcome of a finished repair.
#[derive(Debug, Clone)]
pub struct MarketGapBackfillResult {
    pub stream_id: String,
    pub requested_period_start_ms: u64,
    pub requested_period_end_ms: u64,
    pub official_bar_count: usize,
    pub inserted_bar_count: usize,
    pub remaining_gap_count: usize,
    pub updated_at_ms: u64,
    pub source: String,
    pub credentials_required: bool,
    pub live_order_allowed: bool,
}

/// A repair of a copy of `s0` with `bars` over the plan's window gives `fin` and `r`.
pub open spec fn repair_of(
    s0: StreamAggregationState,
    plan: GapBackfillPlan,
    bars: Seq<OfficialMinuteBar>,
    fin: StreamAggregationState,
    r: Result<usize, String>,
) -> bool {
    exists|c0: StreamAggregationState|
        sview(c0) == sview(s0) && #[trigger] backfill_applied(c0, plan.period_start_ms, plan.period_end_ms, bars, fin, r)
}

/// A repair of a copy of `s0` is refused with `e`.
pub open spec fn repair_failed(s0: StreamAggregationState, plan: GapBackfillPlan, bars: Seq<OfficialMinuteBar>, e: String) -> bool {
    exists|c1: StreamAggregationState| #[trigger] repair_of(s0, plan, bars, c1, Err(e))
}

/// The state a planned repair starts from: the runtime's, else the planned checkpoint.
pub open spec fn repair_start(states: Seq<StreamAggregationState>, plan: GapBackfillPlan) -> StreamAggregationState {
    match state_of(states, plan.stream_id@) {
        Some(s) => s,
        None => plan.checkpoint,
    }
}

/// The outcome of completing a planned repair (see [`complete_gap_backfill`]).
pub open spec fn backfill_completion(
    old_states: Seq<StreamAggregationState>,
    fin_states: Seq<StreamAggregationState>,
    old_cps: Seq<StreamAggregationState>,
    fin_cps: Seq<StreamAggregationState>,
    plan: GapBackfillPlan,
    bars: Seq<OfficialMinuteBar>,
    source: String,
    r: Result<MarketGapBackfillResult, String>,
) -> bool {
            let id = plan.stream_id@;
            let s0 = repair_start(old_states, plan);
            let s1 = state_of(fin_states, id)->0;
            &&& state_of(fin_states, id) is Some
            &&& forall|k: Seq<char>| k != id ==> state_of(fin_states, k) == state_of(old_states, k)
            &&& if s0.updated_at_ms != plan.checkpoint.updated_at_ms {
                &&& r matches Err(e) && e@ == "REST 조회 중 스트림 상태가 변경됐습니다. 최신 gap으로 다시 시도해 주세요."@
                &&& sview(s1) == sview(s0)
                &&& fin_cps == old_cps
            } else {
                match r {
                    Ok(res) => {
                        &&& repair_of(s0, plan, bars, s1, Ok(res.inserted_bar_count))
                        &&& state_of(fin_cps, id) matches Some(c) && sview(c) == sview(s1)
                        &&& forall|k: Seq<char>|
                            k != id ==> state_of(fin_cps, k) == state_of(old_cps, k)
                        &&& res.stream_id@ == id
                        &&& res.requested_period_start_ms == plan.period_start_ms
                        &&& res.requested_period_end_ms == plan.period_end_ms
                        &&& res.official_bar_count == bars.len()
                        &&& res.remaining_gap_count == s1.gaps@.len()
                        &&& res.updated_at_ms == s1.updated_at_ms
                        &&& res.source == source
                        &&& !res.credentials_required
                        &&& !res.live_order_allowed
                    },
                    Err(e) => {
                        &&& repair_failed(s0, plan, bars, e)
                        &&& sview(s1) == sview(s0)
                        &&& fin_cps == old_cps
                    },
                }
            }
        }

proof fn lemma_completion_failed(
    old_states: Seq<StreamAggregationState>,
    fin_states: Seq<StreamAggregationState>,
    cps: Seq<StreamAggregationState>,
    plan: GapBackfillPlan,
    bars: Seq<OfficialMinuteBar>,
    source: String,
    e: String,
    c1: StreamAggregationState,
)
    requires
        state_of(fin_states, plan.stream_id@) is Some,
        forall|k: Seq<char>| k != plan.stream_id@ ==> state_of(fin_states, k) == state_of(old_states, k),
        repair_start(old_states, plan).updated_at_ms == plan.checkpoint.updated_at_ms,
        repair_of(repair_start(old_states, plan), plan, bars, c1, Err(e)),
        sview(state_of(fin_states, plan.stream_id@)->0) == sview(repair_start(old_states, plan)),
    ensures
        backfill_completion(old_states, fin_states, cps, cps, plan, bars, source, Err(e)),
{
    assert(repair_failed(repair_start(old_states, plan), plan, bars, e));
}

/// Applies fetched official bars to the planned stream: the runtime state (or the
/// planned checkpoint, restored) must not have changed since the plan; the repair
/// runs on a copy that replaces the state and is saved only when it succeeds.
pub fn complete_gap_backfill(
    bridge: &mut MarketAggregationBridge,
    store: &mut CheckpointStore,
    plan: GapBackfillPlan,
    bars: Vec<OfficialMinuteBar>,
    source: String,
) -> (r: Result<MarketGapBackfillResult, String>)
    requires
        store_ok(*old(store)),
        bridge_ok(*old(bridge)),
        plan.checkpoint.stream_id@ == plan.stream_id@,
    ensures
        store_ok(*final(store)),
        bridge_ok(*final(bridge)),
        backfill_completion(
            old(bridge).states@,
            final(bridge).states@,
            old(store).checkpoints@,
            final(store).checkpoints@,
            plan,
            bars@,
            source,
            r,
        ),
{
    let official_bar_count = bars.len();
    let ghost states0 = bridge.states@;
    let idx = match find_state(&bridge.states, plan.stream_id.as_str()) {
        Some(i) => {
            proof {
                lemma_state_index_some(states0, plan.stream_id@, 0);
            }
            i
        },
        None => {
            let cp = copy_state(&plan.checkpoint);
            proof {
                lemma_state_index_none(states0, plan.stream_id@, 0);
                lemma_state_index_push_new(states0, cp, 0);
                assert forall|k: Seq<char>| k != plan.stream_id@ implies state_of(states0.push(cp), k) == state_of(
                    states0,
                    k,
                ) by {
                    lemma_state_index_push(states0, cp, k, 0);
                    if state_index(states0, k, 0) is Some {
                        lemma_state_index_some(states0, k, 0);
                    }
                }
            }
            bridge.states.push(cp);
            bridge.states.len() - 1
        },
    };
    let ghost states1 = bridge.states@;
    assert(state_index(states1, plan.stream_id@, 0) == Some(idx as int));
    assert(forall|k: Seq<char>| k != plan.stream_id@ ==> state_of(states1, k) == state_of(states0, k));
    if bridge.states[idx].updated_at_ms != plan.checkpoint.updated_at_ms {
        let r = Err("REST 조회 중 스트림 상태가 변경됐습니다. 최신 gap으로 다시 시도해 주세요.".to_owned());
        assert(backfill_completion(states0, bridge.states@, store.checkpoints@, store.checkpoints@, plan, bars@, source, r));
        return r;
    }
    let ghost s0 = repair_start(states0, plan);
    assert(sview(states1[idx as int]) == sview(s0));
    let mut candidate = copy_state(&bridge.states[idx]);
    let ghost c0 = candidate;
    let applied = apply_official_gap_backfill(&mut candidate, plan.period_start_ms, plan.period_end_ms, bars);
    let inserted_bar_count = match applied {
        Ok(n) => n,
        Err(e) => {
            proof {
                assert(backfill_applied(c0, plan.period_start_ms, plan.period_end_ms, bars@, candidate, Err(e)));
                assert(repair_of(s0, plan, bars@, candidate, Err(e)));
                assert(exists|c1: StreamAggregationState| #[trigger] repair_of(s0, plan, bars@, c1, Err(e)));
                assert(state_of(bridge.states@, plan.stream_id@) == Some(states1[idx as int]));
                assert(sview(state_of(bridge.states@, plan.stream_id@)->0) == sview(s0));
                assert(s0.updated_at_ms == plan.checkpoint.updated_at_ms);
                assert(forall|k: Seq<char>| k != plan.stream_id@ ==> state_of(bridge.states@, k) == state_of(states0, k));
                assert(state_of(bridge.states@, plan.stream_id@) is Some);
                assert(store.checkpoints@ == store.checkpoints@);
                lemma_completion_failed(states0, bridge.states@, store.checkpoints@, plan, bars@, source, e, candidate);
            }
            return Err(e);
        },
    };
    proof {
        assert(backfill_applied(c0, plan.period_start_ms, plan.period_end_ms, bars@, candidate, Ok(inserted_bar_count)));
        assert(repair_of(s0, plan, bars@, candidate, Ok(inserted_bar_count)));
    }
    store.save(&candidate);
    let remaining_gap_count = candidate.gaps.len();
    let updated_at_ms = candidate.updated_at_ms;
    bridge.states.set(idx, candidate);
    proof {
        let states2 = bridge.states@;
        lemma_state_index_same_ids(states1, states2, plan.stream_id@, 0);
        assert forall|k: Seq<char>| k != plan.stream_id@ implies state_of(states2, k) == state_of(states1, k) by {
            lemma_state_index_same_ids(states1, states2, k, 0);
            if state_index(states1, k, 0) is Some {
                lemma_state_index_some(states1, k, 0);
            }
        }
        assert forall|a: int, c: int| 0 <= a < c < states2.len() implies states2[a].stream_id@
            != states2[c].stream_id@ by {
            assert(states2[a].stream_id@ == states1[a].stream_id@);
            assert(states2[c].stream_id@ == states1[c].stream_id@);
        }
    }
    Ok(
        MarketGapBackfillResult {
            stream_id: copy_string(&plan.stream_id),
            requested_period_start_ms: plan.period_start_ms,
            requested_period_end_ms: plan.period_end_ms,
            official_bar_count,
            inserted_bar_count,
            remaining_gap_count,
            updated_at_ms,
            source,
            credentials_required: false,
            live_order_allowed: false,
        },
    )
}

/// A saved stream as the status view shows it.
#[derive(Debug, Clone)]
pub struct MarketAggregationStatus {
    pub stream_id: String,
    pub provider: String,
    pub symbol: String,
    pub currency: String,
    pub partial_period_start_ms: Option<u64>,
    pub retained_minute_bar_count: usize,
    pub latest_completed_at_ms: Option<u64>,
    pub gap_count: usize,
    pub updated_at_ms: u64,
}

pub open spec fn status_of(st: MarketAggregationStatus, s: StreamAggregationState) -> bool {
    &&& st.stream_id@ == s.stream_id@
    &&& st.provider@ == s.provider@
    &&& st.symbol@ == s.symbol@
    &&& st.currency@ == s.currency@
    &&& st.partial_period_start_ms == (match s.partial_bar {
        Some(b) => Some(b.period_start_ms),
        None => None,
    })
    &&& st.retained_minute_bar_count == s.completed_minute_bars@.len()
    &&& st.latest_completed_at_ms == (if s.completed_minute_bars@.len() > 0 {
        Some(s.completed_minute_bars@.last().period_end_ms)
    } else {
        None
    })
    &&& st.gap_count == s.gaps@.len()
    &&& st.updated_at_ms == s.updated_at_ms
}

/// The status of every saved stream in stream-id order, each checkpoint validated.
pub fn aggregation_status(store: &CheckpointStore) -> (r: Result<Vec<MarketAggregationStatus>, String>)
    ensures
        r is Ok <==> forall|i: int| 0 <= i < store.checkpoints@.len() ==> checkpoint_ok(#[trigger] store.checkpoints@[i]),
        r matches Err(e) ==> exists|i: int|
            0 <= i < store.checkpoints@.len() && (forall|x: int| 0 <= x < i ==> checkpoint_ok(#[trigger] store.checkpoints@[x]))
                && !checkpoint_ok(store.checkpoints@[i]) && checkpoint_refused_with(#[trigger] store.checkpoints@[i], e@),
        r matches Ok(v) ==> v@.len() == store.checkpoints@.len() && forall|i: int|
            0 <= i < v@.len() ==> status_of(#[trigger] v@[i], store.checkpoints@[i]),
{
    let mut out: Vec<MarketAggregationStatus> = Vec::new();
    let mut i: usize = 0;
    while i < store.checkpoints.len()
        invariant
            i <= store.checkpoints.len(),
            out@.len() == i,
            forall|x: int| 0 <= x < i ==> checkpoint_ok(#[trigger] store.checkpoints@[x]),
            forall|x: int| 0 <= x < i ==> status_of(#[trigger] out@[x], store.checkpoints@[x]),
        decreases store.checkpoints.len() - i,
    {
        let s = &store.checkpoints[i];
        match validate_checkpoint_state(s) {
            Ok(()) => {},
            Err(e) => {
                assert(checkpoint_refused_with(store.checkpoints@[i as int], e@));
                return Err(e);
            },
        }
        let n = s.completed_minute_bars.len();
        out.push(
            MarketAggregationStatus {
                stream_id: copy_string(&s.stream_id),
                provider: copy_string(&s.provider),
                symbol: copy_string(&s.symbol),
                currency: copy_string(&s.currency),
                partial_period_start_ms: match &s.partial_bar {
                    Some(b) => Some(b.period_start_ms),
                    None => None,
                },
                retained_minute_bar_count: n,
                latest_completed_at_ms: if n > 0 {
                    Some(s.completed_minute_bars[n - 1].period_end_ms)
                } else {
                    None
                },
                gap_count: s.gaps.len(),
                updated_at_ms: s.updated_at_ms,
            },
        );
        i = i + 1;
    }
    Ok(out)
}


/// What a save writes, a load reads back: once a state has been saved, its
/// stream's checkpoint has that state's content, and so passes the load's
/// checks exactly when the state itself does.
pub proof fn lemma_saved_checkpoint_loads(store: CheckpointStore, state: StreamAggregationState)
    requires
        state_of(store.checkpoints@, state.stream_id@) matches Some(x) && sview(x) == sview(state),
    ensures
        state_of(store.checkpoints@, state.stream_id@) matches Some(cp) && sview(cp) == sview(state) && (
        checkpoint_ok(cp) == checkpoint_ok(state)),
{
    reveal(checkpoint_ok);
    let cp = state_of(store.checkpoints@, state.stream_id@)->0;
    assert(cp.stream_id@ == state.stream_id@ && ident(cp) == ident(state) && model(cp) == model(state));
}

} // verus!
