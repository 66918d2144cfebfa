//! Operational controls of the paper-trading desk: risk-monitor request checks,
//! execution-quality analysis of fills, crypto leverage-policy changes and
//! operations drills. None of them ever grants live order permission.
use vstd::prelude::*;
use crate::text::{all_ws, byte_len, byte_len_spec, is_blank, str_eq, trim, trimmed, valid_ident, valid_identifier};

verus! {

/// An identifier of the operational records: 1 to 128 characters from
/// `[A-Za-z0-9._:-]`.
pub open spec fn id_ok(s: Seq<char>) -> bool {
    valid_ident(s, 128, true)
}

pub fn valid_id(value: &str) -> (r: bool)
    ensures
        r == id_ok(value@),
{
    valid_identifier(value, 128, true)
}

#[derive(Debug, Clone, Copy, PartialEq, Eq, Structural)]
pub enum TradeSide {
    Buy,
    Sell,
}

// ---------------------------------------------------------------- risk monitor

#[derive(Debug, Clone)]
pub struct RiskMark {
    pub symbol: String,
    pub market: String,
    pub sector: String,
    pub mark_price_minor: u64,
    pub observed_at_ms: u64,
}

#[derive(Debug, Clone)]
pub struct PaperRiskLimits {
    pub policy_revision: String,
    pub day_start_ms: u64,
    pub maximum_trade_loss_minor: u64,
    pub maximum_daily_loss_minor: u64,
    pub maximum_drawdown_bps: u64,
    pub maximum_symbol_exposure_bps: u64,
    pub maximum_sector_exposure_bps: u64,
    pub maximum_market_exposure_bps: u64,
    pub maximum_consecutive_losses: usize,
    pub maximum_mark_age_ms: u64,
}

#[derive(Debug, Clone)]
pub struct PaperRiskMonitorRequest {
    pub currency: String,
    pub as_of_ms: u64,
    pub marks: Vec<RiskMark>,
    pub limits: PaperRiskLimits,
}

#[derive(Debug, Clone)]
pub struct ExposureBucket {
    pub key: String,
    pub notional_minor: u64,
    pub exposure_bps: u64,
}

#[derive(Debug, Clone)]
pub struct PaperRiskMonitorReport {
    pub currency: String,
    pub policy_revision: String,
    pub as_of_ms: u64,
    pub current_equity_minor: i64,
    pub realized_pnl_minor: i64,
    pub unrealized_pnl_minor: i64,
    pub largest_trade_loss_minor: u64,
    pub daily_realized_pnl_minor: i64,
    pub maximum_drawdown_bps: u64,
    pub consecutive_loss_count: usize,
    pub symbol_exposure: Vec<ExposureBucket>,
    pub sector_exposure: Vec<ExposureBucket>,
    pub market_exposure: Vec<ExposureBucket>,
    pub violations: Vec<String>,
    pub recommendation: String,
    pub new_entries_allowed: bool,
    pub live_order_allowed: bool,
}

pub open spec fn in_bps_range(x: u64) -> bool {
    1 <= x <= 10_000
}

/// The request-level limits: a KRW or USD ledger, a non-zero time not before the
/// start of the day, a policy revision id, and positive limits (bps limits within
/// 1..=10_000) over at most 10_000 marks.
pub open spec fn risk_limits_ok(r: PaperRiskMonitorRequest) -> bool {
    &&& (r.currency@ == "KRW"@ || r.currency@ == "USD"@)
    &&& r.as_of_ms != 0
    &&& r.limits.day_start_ms <= r.as_of_ms
    &&& id_ok(r.limits.policy_revision@)
    &&& r.limits.maximum_trade_loss_minor != 0
    &&& r.limits.maximum_daily_loss_minor != 0
    &&& in_bps_range(r.limits.maximum_drawdown_bps)
    &&& in_bps_range(r.limits.maximum_symbol_exposure_bps)
    &&& in_bps_range(r.limits.maximum_sector_exposure_bps)
    &&& in_bps_range(r.limits.maximum_market_exposure_bps)
    &&& r.limits.maximum_consecutive_losses != 0
    &&& r.limits.maximum_mark_age_ms != 0
    &&& r.marks.len() <= 10_000
}

/// A mark names its symbol (at most 32 bytes), market and sector (at most 64
/// bytes each), has a positive price and was observed at or before `as_of_ms`.
pub open spec fn mark_ok(m: RiskMark, as_of_ms: u64) -> bool {
    &&& !all_ws(m.symbol@)
    &&& byte_len_spec(m.symbol@) <= 32
    &&& !all_ws(m.market@)
    &&& byte_len_spec(m.market@) <= 64
    &&& !all_ws(m.sector@)
    &&& byte_len_spec(m.sector@) <= 64
    &&& m.mark_price_minor != 0
    &&& m.observed_at_ms != 0
    &&& m.observed_at_ms <= as_of_ms
}

pub open spec fn risk_request_ok(r: PaperRiskMonitorRequest) -> bool {
    &&& risk_limits_ok(r)
    &&& forall|i: int| 0 <= i < r.marks.len() ==> mark_ok(#[trigger] r.marks@[i], r.as_of_ms)
    &&& forall|i: int, j: int|
        0 <= i < j < r.marks.len() ==> r.marks@[i].symbol@ != r.marks@[j].symbol@
}

fn risk_limits_ok_exec(request: &PaperRiskMonitorRequest) -> (r: bool)
    ensures
        r == risk_limits_ok(*request),
{
    let l = &request.limits;
    (str_eq(request.currency.as_str(), "KRW") || str_eq(request.currency.as_str(), "USD"))
        && request.as_of_ms != 0 && l.day_start_ms <= request.as_of_ms && valid_id(
        l.policy_revision.as_str(),
    ) && l.maximum_trade_loss_minor != 0 && l.maximum_daily_loss_minor != 0 && 1
        <= l.maximum_drawdown_bps && l.maximum_drawdown_bps <= 10_000 && 1
        <= l.maximum_symbol_exposure_bps && l.maximum_symbol_exposure_bps <= 10_000 && 1
        <= l.maximum_sector_exposure_bps && l.maximum_sector_exposure_bps <= 10_000 && 1
        <= l.maximum_market_exposure_bps && l.maximum_market_exposure_bps <= 10_000
        && l.maximum_consecutive_losses != 0 && l.maximum_mark_age_ms != 0 && request.marks.len()
        <= 10_000
}

fn mark_ok_exec(m: &RiskMark, as_of_ms: u64) -> (r: bool)
    ensures
        r == mark_ok(*m, as_of_ms),
{
    !is_blank(m.symbol.as_str()) && byte_len(m.symbol.as_str()) <= 32 && !is_blank(
        m.market.as_str(),
    ) && byte_len(m.market.as_str()) <= 64 && !is_blank(m.sector.as_str()) && byte_len(
        m.sector.as_str(),
    ) <= 64 && m.mark_price_minor != 0 && m.observed_at_ms != 0 && m.observed_at_ms <= as_of_ms
}

/// The message of a refused risk-monitor request: one for the limits, one for the marks.
pub open spec fn risk_request_message(r: PaperRiskMonitorRequest) -> Seq<char> {
    if !risk_limits_ok(r) {
        "모의 위험 감시의 통화·시각·정책 리비전과 한도를 확인해 주세요."@
    } else {
        "위험 감시 시세는 종목별로 하나이며 시장·섹터·과거 또는 현재 관측 시각이 필요합니다."@
    }
}

/// Checks a risk-monitor request: the limits, every mark, and one mark per symbol.
pub fn validate_risk_request(request: &PaperRiskMonitorRequest) -> (r: Result<(), String>)
    ensures
        r is Ok <==> risk_request_ok(*request),
        r matches Err(e) ==> e@ == risk_request_message(*request),
{
    if !risk_limits_ok_exec(request) {
        return Err("모의 위험 감시의 통화·시각·정책 리비전과 한도를 확인해 주세요.".to_owned());
    }
    let n = request.marks.len();
    let mut i: usize = 0;
    while i < n
        invariant
            n == request.marks.len(),
            i <= n,
            risk_limits_ok(*request),
            forall|k: int| 0 <= k < i ==> mark_ok(#[trigger] request.marks@[k], request.as_of_ms),
            forall|a: int, b: int|
                0 <= a < b < i ==> request.marks@[a].symbol@ != request.marks@[b].symbol@,
        decreases n - i,
    {
        if !mark_ok_exec(&request.marks[i], request.as_of_ms) {
            return Err(
                "위험 감시 시세는 종목별로 하나이며 시장·섹터·과거 또는 현재 관측 시각이 필요합니다.".to_owned(),
            );
        }
        let mut j: usize = 0;
        while j < i
            invariant
                n == request.marks.len(),
                risk_limits_ok(*request),
                j <= i < n,
                forall|a: int| 0 <= a < j ==> request.marks@[a].symbol@ != request.marks@[i as int].symbol@,
            decreases i - j,
        {
            if str_eq(request.marks[j].symbol.as_str(), request.marks[i].symbol.as_str()) {
                return Err(
                    "위험 감시 시세는 종목별로 하나이며 시장·섹터·과거 또는 현재 관측 시각이 필요합니다.".to_owned(),
                );
            }
            j = j + 1;
        }
        i = i + 1;
    }
    Ok(())
}

// ---------------------------------------------------------------- execution quality

#[derive(Debug, Clone)]
pub struct ExecutionObservation {
    pub event_id: String,
    pub order_id: String,
    pub idempotency_key: String,
    pub symbol: String,
    pub market: String,
    pub side: TradeSide,
    pub reference_price_minor: u64,
    pub average_fill_price_minor: u64,
    pub requested_quantity: u64,
    pub filled_quantity: u64,
    pub quantity_scale: u64,
    pub fee_minor: u64,
    pub tax_minor: u64,
    pub fx_cost_minor: u64,
    pub funding_minor: i64,
    pub submitted_at_ms: u64,
    pub first_fill_at_ms: u64,
    pub completed_at_ms: u64,
}

#[derive(Debug, Clone)]
pub struct TradeQualityRequest {
    pub observations: Vec<ExecutionObservation>,
    pub maximum_execution_loss_bps: u64,
    pub maximum_latency_ms: u64,
    pub maximum_order_quantity: u64,
}

#[derive(Debug, Clone)]
pub struct ExecutionQualityItem {
    pub event_id: String,
    pub execution_loss_minor: i64,
    pub execution_loss_bps: i64,
    pub explicit_cost_minor: i64,
    pub latency_ms: u64,
    pub partial_fill: bool,
    pub flags: Vec<String>,
}

#[derive(Debug, Clone)]
pub struct TradeQualityReport {
    pub items: Vec<ExecutionQualityItem>,
    pub duplicate_order_count: usize,
    pub duplicate_idempotency_count: usize,
    pub abnormal_order_count: usize,
    pub total_execution_loss_minor: i64,
    pub pause_new_orders_candidate: bool,
    pub pause_reasons: Vec<String>,
    pub ledger_mutated: bool,
    pub live_order_allowed: bool,
}

pub open spec fn strings_view(v: Seq<String>) -> Seq<Seq<char>> {
    v.map_values(|s: String| s@)
}

/// Division rounding toward zero, as Rust's integer `/` does.
pub open spec fn trunc_div(a: int, b: int) -> int {
    if a >= 0 {
        a / b
    } else {
        -((-a) / b)
    }
}

pub open spec fn fits_i64(x: int) -> bool {
    i64::MIN <= x <= i64::MAX
}

pub open spec fn fits_i128(x: int) -> bool {
    i128::MIN <= x <= i128::MAX
}

/// How much worse than the reference the average fill was, per unit: paid above
/// it on a buy, received below it on a sell.
pub open spec fn adverse_price(o: ExecutionObservation) -> int {
    match o.side {
        TradeSide::Buy => o.average_fill_price_minor - o.reference_price_minor,
        TradeSide::Sell => o.reference_price_minor - o.average_fill_price_minor,
    }
}

pub open spec fn price_loss(o: ExecutionObservation) -> int {
    trunc_div(adverse_price(o) * o.filled_quantity, o.quantity_scale as int)
}

pub open spec fn explicit_cost(o: ExecutionObservation) -> int {
    o.fee_minor + o.tax_minor + o.fx_cost_minor + o.funding_minor
}

pub open spec fn execution_loss(o: ExecutionObservation) -> int {
    price_loss(o) + explicit_cost(o)
}

pub open spec fn reference_notional(o: ExecutionObservation) -> int {
    (o.reference_price_minor * o.filled_quantity) / (o.quantity_scale as int)
}

pub open spec fn execution_loss_bps(o: ExecutionObservation) -> int {
    if reference_notional(o) == 0 {
        0
    } else {
        trunc_div(execution_loss(o) * 10_000, reference_notional(o))
    }
}

pub open spec fn latency(o: ExecutionObservation) -> int {
    o.completed_at_ms - o.submitted_at_ms
}

/// A well-formed observation: ids, named symbol and market, positive prices and
/// quantities, no overfill, and submit <= first fill <= completion.
pub open spec fn observation_ok(o: ExecutionObservation) -> bool {
    &&& id_ok(o.event_id@)
    &&& id_ok(o.order_id@)
    &&& id_ok(o.idempotency_key@)
    &&& !all_ws(o.symbol@)
    &&& !all_ws(o.market@)
    &&& o.reference_price_minor != 0
    &&& o.average_fill_price_minor != 0
    &&& o.requested_quantity != 0
    &&& o.filled_quantity <= o.requested_quantity
    &&& o.quantity_scale != 0
    &&& o.submitted_at_ms != 0
    &&& o.first_fill_at_ms >= o.submitted_at_ms
    &&& o.completed_at_ms >= o.first_fill_at_ms
}

/// The intermediate products that the analysis forms in 128-bit arithmetic fit.
pub open spec fn observation_arith_fits(o: ExecutionObservation) -> bool {
    &&& fits_i128(adverse_price(o) * o.filled_quantity)
    &&& fits_i128(o.reference_price_minor * o.filled_quantity)
    &&& fits_i128(execution_loss(o))
    &&& fits_i128(execution_loss(o) * 10_000)
}

/// The per-item results that must fit an `i64`.
pub open spec fn item_values_fit(o: ExecutionObservation) -> bool {
    &&& fits_i64(execution_loss_bps(o))
    &&& fits_i64(execution_loss(o))
    &&& fits_i64(explicit_cost(o))
}

pub open spec fn repeats_order_id(obs: Seq<ExecutionObservation>, i: int) -> bool {
    exists|j: int| 0 <= j < i && #[trigger] obs[j].order_id@ == obs[i].order_id@
}

pub open spec fn repeats_idempotency_key(obs: Seq<ExecutionObservation>, i: int) -> bool {
    exists|j: int| 0 <= j < i && #[trigger] obs[j].idempotency_key@ == obs[i].idempotency_key@
}

pub open spec fn flag_if(c: bool, flag: Seq<char>) -> Seq<Seq<char>> {
    if c {
        seq![flag]
    } else {
        Seq::empty()
    }
}

pub open spec fn quality_degraded(o: ExecutionObservation, req: TradeQualityRequest) -> bool {
    execution_loss_bps(o) > (req.maximum_execution_loss_bps as i64)
}

pub open spec fn latency_exceeded(o: ExecutionObservation, req: TradeQualityRequest) -> bool {
    latency(o) > req.maximum_latency_ms
}

/// The flags of observation `i`, in the order the analysis raises them.
pub open spec fn quality_flags(obs: Seq<ExecutionObservation>, i: int, req: TradeQualityRequest) -> Seq<
    Seq<char>,
> {
    let o = obs[i];
    flag_if(repeats_order_id(obs, i), "duplicate_order_id"@) + flag_if(
        repeats_idempotency_key(obs, i),
        "duplicate_idempotency_key"@,
    ) + flag_if(o.requested_quantity > req.maximum_order_quantity, "excess_quantity"@) + flag_if(
        quality_degraded(o, req),
        "execution_quality_degraded"@,
    ) + flag_if(latency_exceeded(o, req), "latency_threshold_exceeded"@) + flag_if(
        o.filled_quantity < o.requested_quantity,
        "partial_fill"@,
    )
}

pub open spec fn quality_item_ok(
    it: ExecutionQualityItem,
    obs: Seq<ExecutionObservation>,
    i: int,
    req: TradeQualityRequest,
) -> bool {
    let o = obs[i];
    &&& it.event_id@ == o.event_id@
    &&& it.execution_loss_minor == execution_loss(o)
    &&& it.execution_loss_bps == execution_loss_bps(o)
    &&& it.explicit_cost_minor == explicit_cost(o)
    &&& it.latency_ms == latency(o)
    &&& it.partial_fill == (o.filled_quantity < o.requested_quantity)
    &&& strings_view(it.flags@) == quality_flags(obs, i, req)
}

/// The sum of the execution losses of the first `k` observations.
pub open spec fn loss_total(obs: Seq<ExecutionObservation>, k: int) -> int
    decreases k,
{
    if k <= 0 {
        0
    } else {
        loss_total(obs, k - 1) + execution_loss(obs[k - 1])
    }
}

pub open spec fn dup_order_count(obs: Seq<ExecutionObservation>, k: int) -> int
    decreases k,
{
    if k <= 0 {
        0
    } else {
        dup_order_count(obs, k - 1) + if repeats_order_id(obs, k - 1) {
            1int
        } else {
            0int
        }
    }
}

pub open spec fn dup_key_count(obs: Seq<ExecutionObservation>, k: int) -> int
    decreases k,
{
    if k <= 0 {
        0
    } else {
        dup_key_count(obs, k - 1) + if repeats_idempotency_key(obs, k - 1) {
            1int
        } else {
            0int
        }
    }
}

pub open spec fn excess_count(obs: Seq<ExecutionObservation>, k: int, max_qty: u64) -> int
    decreases k,
{
    if k <= 0 {
        0
    } else {
        excess_count(obs, k - 1, max_qty) + if obs[k - 1].requested_quantity > max_qty {
            1int
        } else {
            0int
        }
    }
}

pub open spec fn threshold_breached(obs: Seq<ExecutionObservation>, k: int, req: TradeQualityRequest) -> bool {
    exists|i: int|
        0 <= i < k && (quality_degraded(#[trigger] obs[i], req) || latency_exceeded(obs[i], req))
}

/// Why new orders should pause, in the analysis' order.
pub open spec fn pause_reasons(req: TradeQualityRequest) -> Seq<Seq<char>> {
    let obs = req.observations@;
    let n = obs.len() as int;
    flag_if(dup_order_count(obs, n) > 0 || dup_key_count(obs, n) > 0, "중복 주문 식별자 감지"@) + flag_if(
        excess_count(obs, n, req.maximum_order_quantity) > 0,
        "주문 수량 임계치 초과"@,
    ) + flag_if(threshold_breached(obs, n, req), "체결 품질 임계치 초과"@)
}

/// When the analysis succeeds: 1..=100_000 observations, positive thresholds,
/// every observation well-formed with its results in `i64`, and every running
/// total of execution losses in `i64`.
pub open spec fn quality_request_ok(req: TradeQualityRequest) -> bool {
    let obs = req.observations@;
    &&& 0 < obs.len() <= 100_000
    &&& req.maximum_execution_loss_bps != 0
    &&& req.maximum_latency_ms != 0
    &&& req.maximum_order_quantity != 0
    &&& forall|i: int| 0 <= i < obs.len() ==> observation_ok(#[trigger] obs[i])
    &&& forall|i: int| 0 <= i < obs.len() ==> item_values_fit(#[trigger] obs[i])
    &&& forall|k: int| 0 < k <= obs.len() ==> fits_i64(#[trigger] loss_total(obs, k))
}

/// Why observation `i` stops the analysis: malformed, or a value that does not
/// fit, in the order they are computed.
pub open spec fn observation_issue(obs: Seq<ExecutionObservation>, i: int) -> Option<Seq<char>> {
    let o = obs[i];
    if !observation_ok(o) {
        Some("거래품질 관측의 식별자·가격·수량·시각 순서를 확인해 주세요."@)
    } else if !fits_i64(execution_loss_bps(o)) {
        Some("실행 손실 비율이 지원 범위를 초과했습니다."@)
    } else if !fits_i64(execution_loss(o)) {
        Some("실행 손실이 지원 범위를 초과했습니다."@)
    } else if !fits_i64(loss_total(obs, i + 1)) {
        Some("실행 손실 합계가 지원 범위를 초과했습니다."@)
    } else if !fits_i64(explicit_cost(o)) {
        Some("명시적 비용이 지원 범위를 초과했습니다."@)
    } else {
        None
    }
}

/// The first issue among the first `k` observations.
pub open spec fn first_observation_issue(obs: Seq<ExecutionObservation>, k: int) -> Option<Seq<char>>
    decreases k,
{
    if k <= 0 {
        None
    } else {
        match first_observation_issue(obs, k - 1) {
            Some(e) => Some(e),
            None => observation_issue(obs, k - 1),
        }
    }
}

/// The message a refused trade-quality request gets.
pub open spec fn quality_refusal(req: TradeQualityRequest) -> Seq<char> {
    let obs = req.observations@;
    if !(0 < obs.len() <= 100_000 && req.maximum_execution_loss_bps != 0 && req.maximum_latency_ms != 0
        && req.maximum_order_quantity != 0) {
        "거래품질 관측과 비용·지연·수량 임계치를 확인해 주세요."@
    } else {
        match first_observation_issue(obs, obs.len() as int) {
            Some(e) => e,
            None => Seq::empty(),
        }
    }
}

proof fn lemma_first_issue_persists(obs: Seq<ExecutionObservation>, k: int, n: int)
    requires
        0 <= k <= n,
        first_observation_issue(obs, k) is Some,
    ensures
        first_observation_issue(obs, n) == first_observation_issue(obs, k),
    decreases n - k,
{
    if n > k {
        lemma_first_issue_persists(obs, k, n - 1);
    }
}

fn observation_ok_exec(o: &ExecutionObservation) -> (r: bool)
    ensures
        r == observation_ok(*o),
{
    valid_id(o.event_id.as_str()) && valid_id(o.order_id.as_str()) && valid_id(
        o.idempotency_key.as_str(),
    ) && !is_blank(o.symbol.as_str()) && !is_blank(o.market.as_str()) && o.reference_price_minor
        != 0 && o.average_fill_price_minor != 0 && o.requested_quantity != 0 && o.filled_quantity
        <= o.requested_quantity && o.quantity_scale != 0 && o.submitted_at_ms != 0
        && o.first_fill_at_ms >= o.submitted_at_ms && o.completed_at_ms >= o.first_fill_at_ms
}

/// Whether an observation before `i` already used the order id (`key == false`) or
/// the idempotency key (`key == true`) of observation `i`.
fn seen_before(obs: &Vec<ExecutionObservation>, i: usize, key: bool) -> (r: bool)
    requires
        i < obs.len(),
    ensures
        !key ==> r == repeats_order_id(obs@, i as int),
        key ==> r == repeats_idempotency_key(obs@, i as int),
{
    let mut j: usize = 0;
    while j < i
        invariant
            i < obs.len(),
            j <= i,
            !key ==> forall|a: int| 0 <= a < j ==> obs@[a].order_id@ != obs@[i as int].order_id@,
            key ==> forall|a: int|
                0 <= a < j ==> obs@[a].idempotency_key@ != obs@[i as int].idempotency_key@,
        decreases i - j,
    {
        let same = if key {
            str_eq(obs[j].idempotency_key.as_str(), obs[i].idempotency_key.as_str())
        } else {
            str_eq(obs[j].order_id.as_str(), obs[i].order_id.as_str())
        };
        if same {
            return true;
        }
        j = j + 1;
    }
    false
}

/// `a / b` rounded toward zero, from the magnitude of `a` and its sign.
fn signed_quotient(magnitude: u128, negative: bool, b: u128) -> (r: i128)
    requires
        b > 0,
        !negative ==> magnitude <= i128::MAX,
        negative ==> magnitude <= i128::MAX as int + 1,
    ensures
        r == trunc_div(
            if negative {
                -(magnitude as int)
            } else {
                magnitude as int
            },
            b as int,
        ),
{
    let q = magnitude / b;
    assert(q <= magnitude) by {
        vstd::arithmetic::div_mod::lemma_div_is_ordered_by_denominator(magnitude as int, 1, b as int);
    }
    if negative && q > 0 {
        -((q - 1) as i128) - 1
    } else {
        q as i128
    }
}

/// The figures of one observation.
fn measure_observation(o: &ExecutionObservation) -> (r: (i128, i128, i128))
    requires
        observation_ok(*o),
        observation_arith_fits(*o),
    ensures
        r.0 == execution_loss(*o),
        r.1 == execution_loss_bps(*o),
        r.2 == explicit_cost(*o),
{
    let (magnitude, negative): (u128, bool) = match o.side {
        TradeSide::Buy => if o.average_fill_price_minor >= o.reference_price_minor {
            ((o.average_fill_price_minor - o.reference_price_minor) as u128, false)
        } else {
            ((o.reference_price_minor - o.average_fill_price_minor) as u128, true)
        },
        TradeSide::Sell => if o.reference_price_minor >= o.average_fill_price_minor {
            ((o.reference_price_minor - o.average_fill_price_minor) as u128, false)
        } else {
            ((o.average_fill_price_minor - o.reference_price_minor) as u128, true)
        },
    };
    let ghost adverse = adverse_price(*o);
    assert(adverse == if negative {
        -(magnitude as int)
    } else {
        magnitude as int
    });
    assert(magnitude * (o.filled_quantity as int) <= u128::MAX) by (nonlinear_arith)
        requires
            magnitude <= u64::MAX,
            o.filled_quantity <= u64::MAX,
    ;
    let product: u128 = magnitude * o.filled_quantity as u128;
    assert(product == if negative { -(adverse * o.filled_quantity) } else { adverse * o.filled_quantity }) by (nonlinear_arith)
        requires
            adverse == if negative { -(magnitude as int) } else { magnitude as int },
            product == magnitude * o.filled_quantity,
    ;
    let price_loss_value = signed_quotient(product, negative, o.quantity_scale as u128);
    assert(price_loss_value == price_loss(*o));
    let explicit: i128 = o.fee_minor as i128 + o.tax_minor as i128 + o.fx_cost_minor as i128
        + o.funding_minor as i128;
    let loss: i128 = price_loss_value + explicit;
    assert(o.reference_price_minor as int * o.filled_quantity as int <= u128::MAX) by (nonlinear_arith)
        requires
            o.reference_price_minor <= u64::MAX,
            o.filled_quantity <= u64::MAX,
    ;
    let notional: u128 = (o.reference_price_minor as u128 * o.filled_quantity as u128) / o.quantity_scale as u128;
    let bps: i128 = if notional == 0 {
        0
    } else {
        let scaled_magnitude: u128 = if loss >= 0 {
            (loss as u128) * 10_000
        } else {
            ((-loss) as u128) * 10_000
        };
        signed_quotient(scaled_magnitude, loss < 0, notional)
    };
    (loss, bps, explicit)
}

/// Measures fills against their reference prices and costs, flags repeated order
/// ids and idempotency keys, oversized orders, degraded or slow executions and
/// partial fills, and says whether new orders should pause. Nothing is written.
#[verifier::rlimit(40)]
pub fn analyze_trade_quality(request: TradeQualityRequest) -> (r: Result<TradeQualityReport, String>)
    requires
        forall|i: int|
            0 <= i < request.observations.len() && observation_ok(#[trigger] request.observations@[i])
                ==> observation_arith_fits(request.observations@[i]),
    ensures
        r is Ok <==> quality_request_ok(request),
        r matches Err(e) ==> e@ == quality_refusal(request),
        r matches Ok(rep) ==> {
            let obs = request.observations@;
            let n = obs.len() as int;
            &&& rep.items.len() == n
            &&& forall|i: int| 0 <= i < n ==> quality_item_ok(#[trigger] rep.items@[i], obs, i, request)
            &&& rep.duplicate_order_count == dup_order_count(obs, n)
            &&& rep.duplicate_idempotency_count == dup_key_count(obs, n)
            &&& rep.abnormal_order_count == excess_count(obs, n, request.maximum_order_quantity)
            &&& rep.total_execution_loss_minor == loss_total(obs, n)
            &&& strings_view(rep.pause_reasons@) == pause_reasons(request)
            &&& rep.pause_new_orders_candidate == (pause_reasons(request).len() > 0)
            &&& !rep.ledger_mutated
            &&& !rep.live_order_allowed
        },
{
    let n = request.observations.len();
    if n == 0 || n > 100_000 || request.maximum_execution_loss_bps == 0
        || request.maximum_latency_ms == 0 || request.maximum_order_quantity == 0 {
        return Err("거래품질 관측과 비용·지연·수량 임계치를 확인해 주세요.".to_owned());
    }
    let ghost obs = request.observations@;
    let mut duplicate_orders: usize = 0;
    let mut duplicate_keys: usize = 0;
    let mut abnormal_orders: usize = 0;
    let mut breached = false;
    let mut total_loss: i64 = 0;
    let mut items: Vec<ExecutionQualityItem> = Vec::new();
    let mut i: usize = 0;
    while i < n
        invariant
            n == request.observations.len(),
            obs == request.observations@,
            0 < n <= 100_000,
            i <= n,
            forall|k: int|
                0 <= k < n && observation_ok(#[trigger] obs[k]) ==> observation_arith_fits(obs[k]),
            forall|k: int| 0 <= k < i ==> observation_ok(#[trigger] obs[k]),
            forall|k: int| 0 <= k < i ==> item_values_fit(#[trigger] obs[k]),
            forall|k: int| 0 < k <= i ==> fits_i64(#[trigger] loss_total(obs, k)),
            items.len() == i,
            forall|k: int| 0 <= k < i ==> quality_item_ok(#[trigger] items@[k], obs, k, request),
            duplicate_orders == dup_order_count(obs, i as int),
            duplicate_keys == dup_key_count(obs, i as int),
            abnormal_orders == excess_count(obs, i as int, request.maximum_order_quantity),
            breached == threshold_breached(obs, i as int, request),
            total_loss == loss_total(obs, i as int),
            duplicate_orders <= i,
            duplicate_keys <= i,
            abnormal_orders <= i,
            first_observation_issue(obs, i as int) is None,
            request.maximum_execution_loss_bps != 0,
            request.maximum_latency_ms != 0,
            request.maximum_order_quantity != 0,
        decreases n - i,
    {
        let o = &request.observations[i];
        if !observation_ok_exec(o) {
            proof {
                lemma_first_issue_persists(obs, i as int + 1, n as int);
            }
            return Err("거래품질 관측의 식별자·가격·수량·시각 순서를 확인해 주세요.".to_owned());
        }
        let mut flags: Vec<String> = Vec::new();
        let dup_order = seen_before(&request.observations, i, false);
        if dup_order {
            duplicate_orders = duplicate_orders + 1;
            flags.push("duplicate_order_id".to_owned());
        }
        let dup_key = seen_before(&request.observations, i, true);
        if dup_key {
            duplicate_keys = duplicate_keys + 1;
            flags.push("duplicate_idempotency_key".to_owned());
        }
        if o.requested_quantity > request.maximum_order_quantity {
            abnormal_orders = abnormal_orders + 1;
            flags.push("excess_quantity".to_owned());
        }
        let (loss, bps, explicit) = measure_observation(o);
        if bps < i64::MIN as i128 || bps > i64::MAX as i128 {
            proof {
                lemma_first_issue_persists(obs, i as int + 1, n as int);
            }
            return Err("실행 손실 비율이 지원 범위를 초과했습니다.".to_owned());
        }
        let latency_ms = o.completed_at_ms - o.submitted_at_ms;
        let degraded = bps > (#[verifier::truncate] (request.maximum_execution_loss_bps as i64)) as i128;
        if degraded {
            flags.push("execution_quality_degraded".to_owned());
        }
        let slow = latency_ms > request.maximum_latency_ms;
        if slow {
            flags.push("latency_threshold_exceeded".to_owned());
        }
        let partial = o.filled_quantity < o.requested_quantity;
        if partial {
            flags.push("partial_fill".to_owned());
        }
        if loss < i64::MIN as i128 || loss > i64::MAX as i128 {
            proof {
                lemma_first_issue_persists(obs, i as int + 1, n as int);
            }
            return Err("실행 손실이 지원 범위를 초과했습니다.".to_owned());
        }
        let loss64 = loss as i64;
        let sum: i128 = total_loss as i128 + loss64 as i128;
        if sum < i64::MIN as i128 || sum > i64::MAX as i128 {
            assert(loss_total(obs, i as int + 1) == sum);
            assert(!fits_i64(loss_total(obs, i as int + 1)));
            proof {
                lemma_first_issue_persists(obs, i as int + 1, n as int);
            }
            return Err("실행 손실 합계가 지원 범위를 초과했습니다.".to_owned());
        }
        if explicit < i64::MIN as i128 || explicit > i64::MAX as i128 {
            proof {
                lemma_first_issue_persists(obs, i as int + 1, n as int);
            }
            return Err("명시적 비용이 지원 범위를 초과했습니다.".to_owned());
        }
        total_loss = sum as i64;
        proof {
            assert(strings_view(flags@) =~= quality_flags(obs, i as int, request));
            assert(loss_total(obs, i as int + 1) == loss_total(obs, i as int) + execution_loss(obs[i as int]));
            assert forall|k: int| 0 < k <= i + 1 implies fits_i64(#[trigger] loss_total(obs, k)) by {
                if k <= i {
                }
            }
            if degraded || slow {
                assert(quality_degraded(obs[i as int], request) || latency_exceeded(obs[i as int], request));
            }
            if breached {
                let w = choose|w: int|
                    0 <= w < i && (quality_degraded(#[trigger] obs[w], request) || latency_exceeded(
                        obs[w],
                        request,
                    ));
                assert(0 <= w < i + 1);
            }
            if !breached && !(degraded || slow) {
                assert forall|w: int| 0 <= w < i + 1 implies !(quality_degraded(
                    #[trigger] obs[w],
                    request,
                ) || latency_exceeded(obs[w], request)) by {
                    if w < i {
                    }
                }
            }
        }
        items.push(
            ExecutionQualityItem {
                event_id: o.event_id.clone(),
                execution_loss_minor: loss64,
                execution_loss_bps: bps as i64,
                explicit_cost_minor: explicit as i64,
                latency_ms,
                partial_fill: partial,
                flags,
            },
        );
        breached = breached || degraded || slow;
        i = i + 1;
    }
    let mut reasons: Vec<String> = Vec::new();
    if duplicate_orders > 0 || duplicate_keys > 0 {
        reasons.push("중복 주문 식별자 감지".to_owned());
    }
    if abnormal_orders > 0 {
        reasons.push("주문 수량 임계치 초과".to_owned());
    }
    if breached {
        reasons.push("체결 품질 임계치 초과".to_owned());
    }
    assert(strings_view(reasons@) =~= pause_reasons(request));
    let candidate = reasons.len() > 0;
    Ok(
        TradeQualityReport {
            items,
            duplicate_order_count: duplicate_orders,
            duplicate_idempotency_count: duplicate_keys,
            abnormal_order_count: abnormal_orders,
            total_execution_loss_minor: total_loss,
            pause_new_orders_candidate: candidate,
            pause_reasons: reasons,
            ledger_mutated: false,
            live_order_allowed: false,
        },
    )
}

// ---------------------------------------------------------------- crypto leverage policy

#[derive(Debug, Clone, PartialEq, Eq)]
pub struct CryptoRiskPolicyChange {
    pub change_id: String,
    pub policy_revision: String,
    pub leverage_enabled: bool,
    pub maximum_leverage_bps: u64,
    pub reason: String,
    pub confirmation_recorded: bool,
    pub created_at_ms: u64,
}

#[derive(Debug, Clone)]
pub struct SaveCryptoRiskPolicyRequest {
    pub change_id: String,
    pub policy_revision: String,
    pub leverage_enabled: bool,
    pub maximum_leverage_bps: u64,
    pub reason: String,
    pub confirmation: String,
    pub created_at_ms: u64,
}

/// The exact sentence a user types to confirm the leverage risk.
pub open spec fn crypto_risk_confirmation() -> Seq<char> {
    "레버리지 위험을 확인했습니다"@
}

/// A policy change carries ids, a 1x..2x limit, a reason of 3..=500 bytes (at least
/// 3 once trimmed), the exact confirmation and a time; with leverage off the
/// limit is exactly 1x.
pub open spec fn crypto_policy_ok(r: SaveCryptoRiskPolicyRequest) -> bool {
    &&& id_ok(r.change_id@)
    &&& id_ok(r.policy_revision@)
    &&& 10_000 <= r.maximum_leverage_bps <= 20_000
    &&& byte_len_spec(trim(r.reason@)) >= 3
    &&& byte_len_spec(r.reason@) <= 500
    &&& r.confirmation@ == crypto_risk_confirmation()
    &&& r.created_at_ms != 0
    &&& (r.leverage_enabled || r.maximum_leverage_bps == 10_000)
}

/// A policy change's fields apart from the leverage switch.
pub open spec fn crypto_policy_fields_ok(r: SaveCryptoRiskPolicyRequest) -> bool {
    &&& id_ok(r.change_id@)
    &&& id_ok(r.policy_revision@)
    &&& 10_000 <= r.maximum_leverage_bps <= 20_000
    &&& byte_len_spec(trim(r.reason@)) >= 3
    &&& byte_len_spec(r.reason@) <= 500
    &&& r.confirmation@ == crypto_risk_confirmation()
    &&& r.created_at_ms != 0
}

pub fn validate_crypto_policy(request: &SaveCryptoRiskPolicyRequest) -> (r: Result<(), String>)
    ensures
        r is Ok <==> crypto_policy_ok(*request),
        r matches Err(e) ==> e@ == if !crypto_policy_fields_ok(*request) {
            "코인 위험정책은 고유 리비전·1~2배 한도·변경 사유와 정확한 위험 확인 문구가 필요합니다."@
        } else {
            "레버리지를 끈 정책의 최대 배율은 1배여야 합니다."@
        },
{
    let reason = trimmed(request.reason.as_str());
    if !valid_id(request.change_id.as_str()) || !valid_id(request.policy_revision.as_str()) || !(
    10_000 <= request.maximum_leverage_bps && request.maximum_leverage_bps <= 20_000) || byte_len(
        reason.as_str(),
    ) < 3 || byte_len(request.reason.as_str()) > 500 || !str_eq(
        request.confirmation.as_str(),
        "레버리지 위험을 확인했습니다",
    ) || request.created_at_ms == 0 {
        return Err(
            "코인 위험정책은 고유 리비전·1~2배 한도·변경 사유와 정확한 위험 확인 문구가 필요합니다.".to_owned(),
        );
    }
    if !request.leverage_enabled && request.maximum_leverage_bps != 10_000 {
        return Err("레버리지를 끈 정책의 최대 배율은 1배여야 합니다.".to_owned());
    }
    Ok(())
}

// ---------------------------------------------------------------- operations drills

#[derive(Debug, Clone, Copy, PartialEq, Eq, Structural)]
pub enum OperationsDrillScenario {
    OrderRejected,
    PartialFill,
    StaleMarketData,
    BrokerOutage,
    LossLimit,
    ReconciliationMismatch,
}

#[derive(Debug, Clone)]
pub struct OperationsDrillRequest {
    pub drill_id: String,
    pub scenario: OperationsDrillScenario,
    pub observation: String,
    pub executed_at_ms: u64,
}

#[derive(Debug, Clone, PartialEq, Eq)]
pub struct OperationsDrillResult {
    pub drill_id: String,
    pub scenario: OperationsDrillScenario,
    pub severity: String,
    pub observation: String,
    pub recommended_actions: Vec<String>,
    pub kill_switch_required: bool,
    pub new_entries_allowed: bool,
    pub cancellation_allowed: bool,
    pub executed_at_ms: u64,
    pub live_order_allowed: bool,
}

pub open spec fn scenario_key(s: OperationsDrillScenario) -> Seq<char> {
    match s {
        OperationsDrillScenario::OrderRejected => "order_rejected"@,
        OperationsDrillScenario::PartialFill => "partial_fill"@,
        OperationsDrillScenario::StaleMarketData => "stale_market_data"@,
        OperationsDrillScenario::BrokerOutage => "broker_outage"@,
        OperationsDrillScenario::LossLimit => "loss_limit"@,
        OperationsDrillScenario::ReconciliationMismatch => "reconciliation_mismatch"@,
    }
}

/// The stored name of a drill scenario.
pub fn drill_scenario_db(scenario: OperationsDrillScenario) -> (r: &'static str)
    ensures
        r@ == scenario_key(scenario),
{
    match scenario {
        OperationsDrillScenario::OrderRejected => "order_rejected",
        OperationsDrillScenario::PartialFill => "partial_fill",
        OperationsDrillScenario::StaleMarketData => "stale_market_data",
        OperationsDrillScenario::BrokerOutage => "broker_outage",
        OperationsDrillScenario::LossLimit => "loss_limit",
        OperationsDrillScenario::ReconciliationMismatch => "reconciliation_mismatch",
    }
}

/// Severity, kill switch, whether new entries stay allowed, and the actions of a
/// drill scenario.
pub open spec fn drill_playbook(s: OperationsDrillScenario) -> (Seq<char>, bool, bool, Seq<Seq<char>>) {
    match s {
        OperationsDrillScenario::OrderRejected => (
            "warning"@,
            false,
            true,
            seq!["거부 사유 확인"@, "동일 주문 자동 재전송 금지"@, "원장 상태 확인"@],
        ),
        OperationsDrillScenario::PartialFill => (
            "warning"@,
            false,
            false,
            seq!["잔량 자동 재전송 금지"@, "부분체결 원장 대사"@, "취소 가능 여부 확인"@],
        ),
        OperationsDrillScenario::StaleMarketData => (
            "critical"@,
            true,
            false,
            seq!["신규 진입 중단"@, "시세 공급자 복구 확인"@, "최신 관측 시각 재검증"@],
        ),
        OperationsDrillScenario::BrokerOutage => (
            "critical"@,
            true,
            false,
            seq!["신규 진입 중단"@, "미체결 주문 조회"@, "브로커 복구 후 전체 대사"@],
        ),
        OperationsDrillScenario::LossLimit => (
            "critical"@,
            true,
            false,
            seq!["신규 진입 중단"@, "손실 한도 원인 확인"@, "사용자 승인 전 재개 금지"@],
        ),
        OperationsDrillScenario::ReconciliationMismatch => (
            "critical"@,
            true,
            false,
            seq!["신규 진입 중단"@, "내부·외부 원장 비교"@, "불일치 해소 전 재전송 금지"@],
        ),
    }
}

pub open spec fn drill_request_ok(r: OperationsDrillRequest) -> bool {
    &&& id_ok(r.drill_id@)
    &&& byte_len_spec(trim(r.observation@)) >= 3
    &&& byte_len_spec(r.observation@) <= 1_000
    &&& r.executed_at_ms != 0
}

fn owned_strings(a: &str, b: &str, c: &str) -> (r: Vec<String>)
    ensures
        strings_view(r@) == seq![a@, b@, c@],
{
    let mut v: Vec<String> = Vec::new();
    v.push(a.to_owned());
    v.push(b.to_owned());
    v.push(c.to_owned());
    assert(strings_view(v@) =~= seq![a@, b@, c@]);
    v
}

/// Evaluates an operations drill: the scenario's playbook, with cancellation always
/// available and live orders never allowed.
pub fn evaluate_operations_drill(request: OperationsDrillRequest) -> (r: Result<OperationsDrillResult, String>)
    ensures
        r is Ok <==> drill_request_ok(request),
        r matches Err(e) ==> e@ == "운영 훈련의 ID·관측 내용·실행 시각을 확인해 주세요."@,
        r matches Ok(res) ==> {
            let (severity, kill, entries, actions) = drill_playbook(request.scenario);
            &&& res.drill_id@ == request.drill_id@
            &&& res.scenario == request.scenario
            &&& res.severity@ == severity
            &&& res.observation@ == trim(request.observation@)
            &&& strings_view(res.recommended_actions@) == actions
            &&& res.kill_switch_required == kill
            &&& res.new_entries_allowed == entries
            &&& res.cancellation_allowed
            &&& res.executed_at_ms == request.executed_at_ms
            &&& !res.live_order_allowed
        },
{
    let observation = trimmed(request.observation.as_str());
    if !valid_id(request.drill_id.as_str()) || byte_len(observation.as_str()) < 3 || byte_len(
        request.observation.as_str(),
    ) > 1_000 || request.executed_at_ms == 0 {
        return Err("운영 훈련의 ID·관측 내용·실행 시각을 확인해 주세요.".to_owned());
    }
    let (severity, kill_switch_required, new_entries_allowed, actions) = match request.scenario {
        OperationsDrillScenario::OrderRejected => (
            "warning",
            false,
            true,
            owned_strings("거부 사유 확인", "동일 주문 자동 재전송 금지", "원장 상태 확인"),
        ),
        OperationsDrillScenario::PartialFill => (
            "warning",
            false,
            false,
            owned_strings("잔량 자동 재전송 금지", "부분체결 원장 대사", "취소 가능 여부 확인"),
        ),
        OperationsDrillScenario::StaleMarketData => (
            "critical",
            true,
            false,
            owned_strings("신규 진입 중단", "시세 공급자 복구 확인", "최신 관측 시각 재검증"),
        ),
        OperationsDrillScenario::BrokerOutage => (
            "critical",
            true,
            false,
            owned_strings("신규 진입 중단", "미체결 주문 조회", "브로커 복구 후 전체 대사"),
        ),
        OperationsDrillScenario::LossLimit => (
            "critical",
            true,
            false,
            owned_strings("신규 진입 중단", "손실 한도 원인 확인", "사용자 승인 전 재개 금지"),
        ),
        OperationsDrillScenario::ReconciliationMismatch => (
            "critical",
            true,
            false,
            owned_strings("신규 진입 중단", "내부·외부 원장 비교", "불일치 해소 전 재전송 금지"),
        ),
    };
    Ok(
        OperationsDrillResult {
            drill_id: request.drill_id,
            scenario: request.scenario,
            severity: severity.to_owned(),
            observation,
            recommended_actions: actions,
            kill_switch_required,
            new_entries_allowed,
            cancellation_allowed: true,
            executed_at_ms: request.executed_at_ms,
            live_order_allowed: false,
        },
    )
}

} // verus!
