//! Operational readiness: workspace preferences, the read-only cloud soak report
//! cache, market order normalisation, provider retry policy, evidence synthesis,
//! exit-reason compatibility and the long-running shadow soak audit.
use vstd::prelude::*;
use std::collections::BTreeMap;
use crate::text::{all_ws, byte_len, byte_len_spec, is_blank, str_eq, valid_ident, valid_identifier};

verus! {

/// The number of indices `i < n` at which `p` holds.
pub open spec fn count_where(n: int, p: spec_fn(int) -> bool) -> int
    decreases n,
{
    if n <= 0 {
        0
    } else {
        count_where(n - 1, p) + if p(n - 1) {
            1int
        } else {
            0int
        }
    }
}

/// Nothing is counted exactly when no index below `n` qualifies.
pub proof fn lemma_count_where_zero(n: int, p: spec_fn(int) -> bool)
    requires
        n >= 0,
    ensures
        count_where(n, p) == 0 <==> forall|i: int| 0 <= i < n ==> !#[trigger] p(i),
    decreases n,
{
    if n > 0 {
        lemma_count_where_zero(n - 1, p);
        lemma_count_where_bounds(n - 1, p);
    }
}

/// Where the first index never qualifies, at most `n - 1` of `n` are counted.
pub proof fn lemma_count_where_skips_first(n: int, p: spec_fn(int) -> bool)
    requires
        n >= 1,
        !p(0),
    ensures
        count_where(n, p) <= n - 1,
    decreases n,
{
    if n > 1 {
        lemma_count_where_skips_first(n - 1, p);
    } else {
        assert(count_where(0, p) == 0);
    }
}

pub proof fn lemma_count_where_bounds(n: int, p: spec_fn(int) -> bool)
    requires
        n >= 0,
    ensures
        0 <= count_where(n, p) <= n,
    decreases n,
{
    if n > 0 {
        lemma_count_where_bounds(n - 1, p);
    }
}

pub open spec fn strings_view(v: Seq<String>) -> Seq<Seq<char>> {
    v.map_values(|s: String| s@)
}

pub open spec fn flag_if(c: bool, text: Seq<char>) -> Seq<Seq<char>> {
    if c {
        seq![text]
    } else {
        Seq::empty()
    }
}

// ---------------------------------------------------------------- workspace preferences

#[derive(Debug, Clone, PartialEq, Eq)]
pub enum PortfolioMandate {
    ObservationOnly,
    Focused,
    Thematic,
    Diversified,
    Custom,
}

impl Default for PortfolioMandate {
    fn default() -> (r: Self)
        ensures
            r == PortfolioMandate::ObservationOnly,
    {
        PortfolioMandate::ObservationOnly
    }
}

#[derive(Debug, Clone, PartialEq, Eq)]
pub struct WorkspacePreferences {
    pub display_timezone: String,
    pub quiet_hours_start: u8,
    pub quiet_hours_end: u8,
    pub stale_after_seconds: u32,
    pub notify_warning: bool,
    pub notify_critical: bool,
    pub portfolio_mandate: PortfolioMandate,
    pub concentration_limits_enabled: bool,
    pub maximum_symbol_exposure_bps: u16,
    pub maximum_sector_exposure_bps: u16,
    pub maximum_market_exposure_bps: u16,
}

impl Default for WorkspacePreferences {
    /// Seoul time, quiet 23:00-07:00, data stale after five minutes, both
    /// notifications on, observation only, concentration limits off at 100%.
    fn default() -> (r: Self)
        ensures
            r.display_timezone@ == "Asia/Seoul"@,
            r.quiet_hours_start == 23,
            r.quiet_hours_end == 7,
            r.stale_after_seconds == 300,
            r.notify_warning,
            r.notify_critical,
            r.portfolio_mandate == PortfolioMandate::ObservationOnly,
            !r.concentration_limits_enabled,
            r.maximum_symbol_exposure_bps == 10_000,
            r.maximum_sector_exposure_bps == 10_000,
            r.maximum_market_exposure_bps == 10_000,
    {
        WorkspacePreferences {
            display_timezone: "Asia/Seoul".to_owned(),
            quiet_hours_start: 23,
            quiet_hours_end: 7,
            stale_after_seconds: 300,
            notify_warning: true,
            notify_critical: true,
            portfolio_mandate: PortfolioMandate::ObservationOnly,
            concentration_limits_enabled: false,
            maximum_symbol_exposure_bps: 10_000,
            maximum_sector_exposure_bps: 10_000,
            maximum_market_exposure_bps: 10_000,
        }
    }
}

/// Saved preferences: KST, ET or UTC; quiet hours within 0..=23; staleness between
/// 30 s and 24 h; every concentration limit within 1..=10_000 bps.
pub open spec fn preferences_ok(p: WorkspacePreferences) -> bool {
    &&& (p.display_timezone@ == "Asia/Seoul"@ || p.display_timezone@ == "America/New_York"@
        || p.display_timezone@ == "UTC"@)
    &&& p.quiet_hours_start <= 23
    &&& p.quiet_hours_end <= 23
    &&& 30 <= p.stale_after_seconds <= 86_400
    &&& 1 <= p.maximum_symbol_exposure_bps <= 10_000
    &&& 1 <= p.maximum_sector_exposure_bps <= 10_000
    &&& 1 <= p.maximum_market_exposure_bps <= 10_000
}

/// The message of the first preference out of range.
pub open spec fn preferences_refusal(p: WorkspacePreferences) -> Seq<char> {
    if !(p.display_timezone@ == "Asia/Seoul"@ || p.display_timezone@ == "America/New_York"@ || p.display_timezone@
        == "UTC"@) {
        "표시 시간대는 KST, ET 또는 UTC만 선택할 수 있습니다."@
    } else if p.quiet_hours_start > 23 || p.quiet_hours_end > 23 {
        "방해 금지 시간은 0~23시여야 합니다."@
    } else if !(30 <= p.stale_after_seconds <= 86_400) {
        "데이터 만료 기준은 30초~24시간이어야 합니다."@
    } else {
        "포트폴리오 집중 한도는 0.01%~100%여야 합니다."@
    }
}

pub fn validate_preferences(value: &WorkspacePreferences) -> (r: Result<(), String>)
    ensures
        r is Ok <==> preferences_ok(*value),
        r matches Err(e) ==> e@ == preferences_refusal(*value),
{
    let tz = value.display_timezone.as_str();
    if !(str_eq(tz, "Asia/Seoul") || str_eq(tz, "America/New_York") || str_eq(tz, "UTC")) {
        return Err("표시 시간대는 KST, ET 또는 UTC만 선택할 수 있습니다.".to_owned());
    }
    if value.quiet_hours_start > 23 || value.quiet_hours_end > 23 {
        return Err("방해 금지 시간은 0~23시여야 합니다.".to_owned());
    }
    if !(30 <= value.stale_after_seconds && value.stale_after_seconds <= 86_400) {
        return Err("데이터 만료 기준은 30초~24시간이어야 합니다.".to_owned());
    }
    if !(1 <= value.maximum_symbol_exposure_bps && value.maximum_symbol_exposure_bps <= 10_000)
        || !(1 <= value.maximum_sector_exposure_bps && value.maximum_sector_exposure_bps <= 10_000)
        || !(1 <= value.maximum_market_exposure_bps && value.maximum_market_exposure_bps
        <= 10_000) {
        return Err("포트폴리오 집중 한도는 0.01%~100%여야 합니다.".to_owned());
    }
    Ok(())
}

// ---------------------------------------------------------------- cloud soak report cache

#[derive(Debug, Clone, PartialEq, Eq)]
pub struct CloudSoakStreamCounters {
    pub messages: u64,
    pub reconnects: u64,
    pub errors: u64,
    pub transport_timeouts: u64,
    pub market_gap_events: u64,
    pub last_message_at_ms: Option<u64>,
}

#[derive(Debug, Clone, PartialEq, Eq)]
pub struct CloudSoakHeartbeat {
    pub streams: BTreeMap<String, CloudSoakStreamCounters>,
    pub event_count: u64,
    pub ledger_count: u64,
    pub failure_count: u64,
    pub reconciliation_passed: bool,
}

#[derive(Debug, Clone, PartialEq, Eq)]
pub struct CloudSoakJobStatus {
    pub mode: String,
    pub job_name: String,
    pub execution_name: Option<String>,
    pub state: String,
    pub started_at_ms: Option<u64>,
    pub completed_at_ms: Option<u64>,
    pub elapsed_ms: Option<u64>,
    pub latest_heartbeat_at_ms: Option<u64>,
    pub heartbeat: Option<CloudSoakHeartbeat>,
    pub passed: Option<bool>,
    pub actual_elapsed24h_qualified: bool,
    pub issues: Vec<String>,
    pub warnings: Vec<String>,
    pub collection_issue: Option<String>,
}

#[derive(Debug, Clone, PartialEq, Eq)]
pub struct CloudSoakReport {
    pub schema: String,
    pub collected_at_ms: u64,
    pub project_id: String,
    pub region: String,
    pub source: String,
    pub status: String,
    pub live_order_enabled: bool,
    pub jobs: Vec<CloudSoakJobStatus>,
}

#[derive(Debug, Clone, PartialEq, Eq)]
pub struct CloudSoakReportSnapshot {
    pub available: bool,
    pub report: Option<CloudSoakReport>,
    pub issue: Option<String>,
}

/// The report's fixed security boundary: the one schema, project, region and
/// read-only source, live orders off, at most four jobs and a known status.
pub open spec fn cloud_report_header_ok(r: CloudSoakReport) -> bool {
    &&& r.schema@ == "investa.cloud-soak-report.v1"@
    &&& r.project_id@ == "investa-remote-bumniverse"@
    &&& r.region@ == "asia-northeast3"@
    &&& r.source@ == "gcloud-read-only"@
    &&& !r.live_order_enabled
    &&& r.jobs.len() <= 4
    &&& (r.status@ == "unavailable"@ || r.status@ == "running"@ || r.status@ == "warning"@
        || r.status@ == "failed"@ || r.status@ == "completed"@)
}

pub open spec fn texts_within(v: Seq<String>, max: usize) -> bool {
    forall|i: int| 0 <= i < v.len() ==> byte_len_spec((#[trigger] v[i])@) <= max
}

pub open spec fn cloud_job_ok(j: CloudSoakJobStatus) -> bool {
    &&& (j.mode@ == "market"@ || j.mode@ == "shadow-contract"@)
    &&& (j.state@ == "unavailable"@ || j.state@ == "running"@ || j.state@ == "cancelled"@
        || j.state@ == "failed"@ || j.state@ == "completed"@)
    &&& byte_len_spec(j.job_name@) <= 128
    &&& (j.execution_name matches Some(e) ==> byte_len_spec(e@) <= 128)
    &&& j.issues.len() <= 50
    &&& j.warnings.len() <= 50
    &&& texts_within(j.issues@, 1_000)
    &&& texts_within(j.warnings@, 1_000)
    &&& (j.heartbeat matches Some(h) ==> h.streams.len() <= 12)
}

pub open spec fn cloud_report_ok(r: CloudSoakReport) -> bool {
    &&& cloud_report_header_ok(r)
    &&& forall|i: int| 0 <= i < r.jobs.len() ==> cloud_job_ok(#[trigger] r.jobs@[i])
}

fn texts_within_exec(v: &Vec<String>, max: usize) -> (r: bool)
    ensures
        r == texts_within(v@, max),
{
    let mut i: usize = 0;
    while i < v.len()
        invariant
            i <= v.len(),
            forall|k: int| 0 <= k < i ==> byte_len_spec((#[trigger] v@[k])@) <= max,
        decreases v.len() - i,
    {
        if byte_len(v[i].as_str()) > max {
            return false;
        }
        i = i + 1;
    }
    true
}

fn cloud_job_ok_exec(j: &CloudSoakJobStatus) -> (r: bool)
    ensures
        r == cloud_job_ok(*j),
{
    let mode = j.mode.as_str();
    let state = j.state.as_str();
    if !(str_eq(mode, "market") || str_eq(mode, "shadow-contract")) {
        return false;
    }
    if !(str_eq(state, "unavailable") || str_eq(state, "running") || str_eq(state, "cancelled")
        || str_eq(state, "failed") || str_eq(state, "completed")) {
        return false;
    }
    if byte_len(j.job_name.as_str()) > 128 {
        return false;
    }
    match &j.execution_name {
        Some(e) => {
            if byte_len(e.as_str()) > 128 {
                return false;
            }
        },
        None => {},
    }
    if j.issues.len() > 50 || j.warnings.len() > 50 {
        return false;
    }
    if !texts_within_exec(&j.issues, 1_000) || !texts_within_exec(&j.warnings, 1_000) {
        return false;
    }
    match &j.heartbeat {
        Some(h) => h.streams.len() <= 12,
        None => true,
    }
}

/// Checks a cached cloud soak report against its fixed schema and limits.
pub fn validate_cloud_soak_report(report: &CloudSoakReport) -> (r: Result<(), String>)
    ensures
        r is Ok <==> cloud_report_ok(*report),
        r matches Err(e) ==> e@ == if !cloud_report_header_ok(*report) {
            "Cloud Run 검사 캐시의 보안 경계 또는 스키마가 올바르지 않습니다."@
        } else {
            "Cloud Run 검사 작업 캐시가 허용 범위를 벗어났습니다."@
        },
{
    let status = report.status.as_str();
    if !str_eq(report.schema.as_str(), "investa.cloud-soak-report.v1") || !str_eq(
        report.project_id.as_str(),
        "investa-remote-bumniverse",
    ) || !str_eq(report.region.as_str(), "asia-northeast3") || !str_eq(
        report.source.as_str(),
        "gcloud-read-only",
    ) || report.live_order_enabled || report.jobs.len() > 4 || !(str_eq(status, "unavailable")
        || str_eq(status, "running") || str_eq(status, "warning") || str_eq(status, "failed")
        || str_eq(status, "completed")) {
        return Err("Cloud Run 검사 캐시의 보안 경계 또는 스키마가 올바르지 않습니다.".to_owned());
    }
    let mut i: usize = 0;
    while i < report.jobs.len()
        invariant
            i <= report.jobs.len(),
            cloud_report_header_ok(*report),
            forall|k: int| 0 <= k < i ==> cloud_job_ok(#[trigger] report.jobs@[k]),
        decreases report.jobs.len() - i,
    {
        if !cloud_job_ok_exec(&report.jobs[i]) {
            return Err("Cloud Run 검사 작업 캐시가 허용 범위를 벗어났습니다.".to_owned());
        }
        i = i + 1;
    }
    Ok(())
}

// ---------------------------------------------------------------- market order rules

#[derive(Debug, Clone, Copy, PartialEq, Eq, Structural)]
pub enum MarketAssetClass {
    KrEquity,
    UsEquity,
    CoinSpot,
    EquityFuture,
    CoinFuture,
}

#[derive(Debug, Clone, PartialEq, Eq)]
pub struct MarketOrderInput {
    pub asset_class: MarketAssetClass,
    pub currency: String,
    pub price_minor: u64,
    pub quantity_base_units: u64,
    pub quantity_scale: u64,
    pub lot_size_base_units: u64,
    pub price_tick_minor: u64,
}

#[derive(Debug, Clone, PartialEq, Eq)]
pub struct NormalizedMarketOrder {
    pub currency: String,
    pub price_minor: u64,
    pub quantity_base_units: u64,
    pub notional_minor: u64,
    pub warnings: Vec<String>,
}

/// Korean equities and coin spot trade in KRW, US equities in USD; futures keep
/// their own currency.
pub open spec fn currency_fits_market(input: MarketOrderInput) -> bool {
    match input.asset_class {
        MarketAssetClass::KrEquity | MarketAssetClass::CoinSpot => input.currency@ == "KRW"@,
        MarketAssetClass::UsEquity => input.currency@ == "USD"@,
        MarketAssetClass::EquityFuture | MarketAssetClass::CoinFuture => true,
    }
}

pub open spec fn is_future(c: MarketAssetClass) -> bool {
    c == MarketAssetClass::EquityFuture || c == MarketAssetClass::CoinFuture
}

pub open spec fn order_notional(input: MarketOrderInput) -> int {
    (input.price_minor * input.quantity_base_units) / (input.quantity_scale as int)
}

pub open spec fn market_order_ok(input: MarketOrderInput) -> bool {
    &&& currency_fits_market(input)
    &&& input.price_minor != 0
    &&& input.quantity_base_units != 0
    &&& input.quantity_scale != 0
    &&& input.lot_size_base_units != 0
    &&& input.price_tick_minor != 0
    &&& input.quantity_base_units % input.lot_size_base_units == 0
    &&& input.price_minor % input.price_tick_minor == 0
    &&& order_notional(input) <= u64::MAX
}

/// The message of the first market rule an order breaks.
pub open spec fn market_order_refusal(input: MarketOrderInput) -> Seq<char> {
    if !(currency_fits_market(input) && input.price_minor != 0 && input.quantity_base_units != 0
        && input.quantity_scale != 0 && input.lot_size_base_units != 0 && input.price_tick_minor != 0) {
        "통화·가격·수량·호가·주문 단위가 시장 규칙과 맞지 않습니다."@
    } else if input.quantity_base_units % input.lot_size_base_units != 0 {
        "수량이 시장의 최소 주문 단위와 맞지 않습니다."@
    } else if input.price_minor % input.price_tick_minor != 0 {
        "가격이 시장의 호가 단위와 맞지 않습니다."@
    } else {
        "주문 금액이 지원 범위를 초과했습니다."@
    }
}

/// Normalises an order to its market's rules: currency, whole lots, whole price
/// ticks, and the notional `price * quantity / scale`.
pub fn normalize_market_order(input: &MarketOrderInput) -> (r: Result<NormalizedMarketOrder, String>)
    ensures
        r is Ok <==> market_order_ok(*input),
        r matches Err(e) ==> e@ == market_order_refusal(*input),
        r matches Ok(o) ==> {
            &&& o.currency@ == input.currency@
            &&& o.price_minor == input.price_minor
            &&& o.quantity_base_units == input.quantity_base_units
            &&& o.notional_minor == order_notional(*input)
            &&& strings_view(o.warnings@) == flag_if(
                is_future(input.asset_class),
                "공식 상품 마스터가 연결되기 전에는 내부 sandbox 가정만 사용합니다."@,
            )
        },
{
    let currency_ok = match input.asset_class {
        MarketAssetClass::KrEquity | MarketAssetClass::CoinSpot => str_eq(input.currency.as_str(), "KRW"),
        MarketAssetClass::UsEquity => str_eq(input.currency.as_str(), "USD"),
        MarketAssetClass::EquityFuture | MarketAssetClass::CoinFuture => true,
    };
    if !currency_ok || input.price_minor == 0 || input.quantity_base_units == 0
        || input.quantity_scale == 0 || input.lot_size_base_units == 0 || input.price_tick_minor
        == 0 {
        return Err("통화·가격·수량·호가·주문 단위가 시장 규칙과 맞지 않습니다.".to_owned());
    }
    if input.quantity_base_units % input.lot_size_base_units != 0 {
        return Err("수량이 시장의 최소 주문 단위와 맞지 않습니다.".to_owned());
    }
    if input.price_minor % input.price_tick_minor != 0 {
        return Err("가격이 시장의 호가 단위와 맞지 않습니다.".to_owned());
    }
    assert(input.price_minor as int * input.quantity_base_units as int <= u128::MAX) by (nonlinear_arith)
        requires
            input.price_minor <= u64::MAX,
            input.quantity_base_units <= u64::MAX,
    ;
    let notional: u128 = (input.price_minor as u128 * input.quantity_base_units as u128)
        / input.quantity_scale as u128;
    if notional > u64::MAX as u128 {
        return Err("주문 금액이 지원 범위를 초과했습니다.".to_owned());
    }
    let mut warnings: Vec<String> = Vec::new();
    match input.asset_class {
        MarketAssetClass::EquityFuture | MarketAssetClass::CoinFuture => {
            warnings.push("공식 상품 마스터가 연결되기 전에는 내부 sandbox 가정만 사용합니다.".to_owned());
        },
        _ => {},
    }
    assert(strings_view(warnings@) =~= flag_if(
        is_future(input.asset_class),
        "공식 상품 마스터가 연결되기 전에는 내부 sandbox 가정만 사용합니다."@,
    ));
    Ok(
        NormalizedMarketOrder {
            currency: input.currency.clone(),
            price_minor: input.price_minor,
            quantity_base_units: input.quantity_base_units,
            notional_minor: notional as u64,
            warnings,
        },
    )
}

// ---------------------------------------------------------------- provider retries

#[derive(Debug, Clone, PartialEq, Eq)]
pub struct ProviderFailure {
    pub status_code: Option<u16>,
    pub timed_out: bool,
    pub attempt: u8,
    pub mutating: bool,
}

#[derive(Debug, Clone, PartialEq, Eq)]
pub struct RetryDecision {
    pub retry: bool,
    pub delay_ms: u64,
    pub fail_closed: bool,
    pub reason: String,
}

/// A timeout, HTTP 429 or any 5xx may be retried.
pub open spec fn retryable(f: ProviderFailure) -> bool {
    f.timed_out || f.status_code == Some(429u16) || (f.status_code matches Some(c) && 500 <= c
        <= 599)
}

/// Only reads retry, and only before the fourth attempt.
pub open spec fn should_retry(f: ProviderFailure) -> bool {
    retryable(f) && f.attempt < 4 && !f.mutating
}

pub open spec fn retry_reason(f: ProviderFailure) -> Seq<char> {
    if f.mutating {
        "변경 요청은 자동 재시도하지 않고 멱등성 키로 상태를 대사합니다."@
    } else if should_retry(f) {
        "조회 요청을 제한 횟수 안에서 지수 백오프로 재시도합니다."@
    } else {
        "재시도 한도를 초과해 신규 진입을 잠급니다."@
    }
}

/// Decides whether a failed provider call is retried: reads with exponential
/// backoff from 500 ms for at most four attempts, mutations never (they fail
/// closed and are reconciled by idempotency key).
pub fn retry_decision(failure: &ProviderFailure) -> (r: RetryDecision)
    ensures
        r.retry == should_retry(*failure),
        r.delay_ms == if should_retry(*failure) {
            500 * vstd::arithmetic::power2::pow2(failure.attempt as nat)
        } else {
            0
        },
        r.fail_closed == (!should_retry(*failure) || failure.mutating),
        r.reason@ == retry_reason(*failure),
{
    let retryable = failure.timed_out || match failure.status_code {
        Some(code) => code == 429 || (500 <= code && code <= 599),
        None => false,
    };
    let retry = retryable && failure.attempt < 4 && !failure.mutating;
    let delay_ms: u64 = if retry {
        proof {
            vstd::arithmetic::power2::lemma2_to64();
        }
        match failure.attempt {
            0 => 500,
            1 => 1_000,
            2 => 2_000,
            _ => 4_000,
        }
    } else {
        0
    };
    let reason = if failure.mutating {
        "변경 요청은 자동 재시도하지 않고 멱등성 키로 상태를 대사합니다."
    } else if retry {
        "조회 요청을 제한 횟수 안에서 지수 백오프로 재시도합니다."
    } else {
        "재시도 한도를 초과해 신규 진입을 잠급니다."
    };
    RetryDecision { retry, delay_ms, fail_closed: !retry || failure.mutating, reason: reason.to_owned() }
}

// ---------------------------------------------------------------- evidence synthesis

#[derive(Debug, Clone, Copy, PartialEq, Eq, Structural)]
pub enum EvidenceKind {
    OfficialFact,
    NewsFact,
    CommunitySentiment,
    DiffusionMetric,
}

#[derive(Debug, Clone, PartialEq, Eq)]
pub struct SynthesisEvidence {
    pub evidence_id: String,
    pub source_revision_id: String,
    pub kind: EvidenceKind,
    pub text: String,
    pub observed_at_ms: u64,
    pub available_at_ms: u64,
    pub corroborated: bool,
    pub suspected_automation: bool,
}

#[derive(Debug, Clone, PartialEq, Eq)]
pub struct EvidenceSynthesis {
    pub facts: Vec<SynthesisEvidence>,
    pub sentiment: Vec<SynthesisEvidence>,
    pub diffusion: Vec<SynthesisEvidence>,
    pub excluded_evidence_ids: Vec<String>,
    pub warnings: Vec<String>,
}

pub const MAX_TEXT_LEN: usize = 8_000;

pub open spec fn evidence_ok(e: SynthesisEvidence) -> bool {
    &&& !all_ws(e.evidence_id@)
    &&& !all_ws(e.source_revision_id@)
    &&& !all_ws(e.text@)
    &&& byte_len_spec(e.text@) <= MAX_TEXT_LEN
}

/// Evidence `i` repeats the source revision and text of an earlier item that was
/// already available.
pub open spec fn evidence_repeats(items: Seq<SynthesisEvidence>, i: int, as_of_ms: u64) -> bool {
    exists|j: int|
        0 <= j < i && (#[trigger] items[j]).available_at_ms <= as_of_ms
            && items[j].source_revision_id@ == items[i].source_revision_id@ && items[j].text@
            == items[i].text@
}

/// Excluded: not yet available at `as_of_ms`, or a repeat.
pub open spec fn evidence_excluded(items: Seq<SynthesisEvidence>, i: int, as_of_ms: u64) -> bool {
    items[i].available_at_ms > as_of_ms || evidence_repeats(items, i, as_of_ms)
}

pub open spec fn is_fact(k: EvidenceKind) -> bool {
    k == EvidenceKind::OfficialFact || k == EvidenceKind::NewsFact
}

/// The kept items among the first `k` whose kind satisfies `p`, in input order.
pub open spec fn kept_where(
    items: Seq<SynthesisEvidence>,
    k: int,
    as_of_ms: u64,
    p: spec_fn(EvidenceKind) -> bool,
) -> Seq<SynthesisEvidence>
    decreases k,
{
    if k <= 0 {
        Seq::empty()
    } else {
        let prev = kept_where(items, k - 1, as_of_ms, p);
        if !evidence_excluded(items, k - 1, as_of_ms) && p(items[k - 1].kind) {
            prev.push(items[k - 1])
        } else {
            prev
        }
    }
}

proof fn lemma_kept_where_step(
    items: Seq<SynthesisEvidence>,
    k: int,
    as_of_ms: u64,
    p: spec_fn(EvidenceKind) -> bool,
)
    requires
        0 <= k,
    ensures
        kept_where(items, k + 1, as_of_ms, p) == if !evidence_excluded(items, k, as_of_ms) && p(
            items[k].kind,
        ) {
            kept_where(items, k, as_of_ms, p).push(items[k])
        } else {
            kept_where(items, k, as_of_ms, p)
        },
{
}

/// The ids of the excluded items among the first `k`, in input order.
pub open spec fn excluded_ids(items: Seq<SynthesisEvidence>, k: int, as_of_ms: u64) -> Seq<Seq<char>>
    decreases k,
{
    if k <= 0 {
        Seq::empty()
    } else {
        let prev = excluded_ids(items, k - 1, as_of_ms);
        if evidence_excluded(items, k - 1, as_of_ms) {
            prev.push(items[k - 1].evidence_id@)
        } else {
            prev
        }
    }
}

pub open spec fn synthesis_warnings(
    sentiment: Seq<SynthesisEvidence>,
    facts: Seq<SynthesisEvidence>,
) -> Seq<Seq<char>> {
    flag_if(
        exists|i: int| 0 <= i < sentiment.len() && (#[trigger] sentiment[i]).suspected_automation,
        "커뮤니티 자료에 자동화 계정 의심 표본이 포함되어 심리 근거를 낮게 평가합니다."@,
    ) + flag_if(
        exists|i: int| 0 <= i < facts.len() && !(#[trigger] facts[i]).corroborated,
        "독립 출처로 확인되지 않은 뉴스 사실은 미확인 주장으로 유지합니다."@,
    )
}

/// The synthesis partitions its input: every item among the first `n` is
/// either excluded or kept in exactly one of the facts, the sentiment and the
/// diffusion metrics, so the four lengths add up to `n`.
pub proof fn lemma_evidence_partition(items: Seq<SynthesisEvidence>, as_of_ms: u64, n: int)
    requires
        0 <= n <= items.len(),
    ensures
        kept_where(items, n, as_of_ms, |k: EvidenceKind| is_fact(k)).len() + kept_where(
            items,
            n,
            as_of_ms,
            |k: EvidenceKind| k == EvidenceKind::CommunitySentiment,
        ).len() + kept_where(items, n, as_of_ms, |k: EvidenceKind| k == EvidenceKind::DiffusionMetric).len()
            + excluded_ids(items, n, as_of_ms).len() == n,
    decreases n,
{
    if n > 0 {
        lemma_evidence_partition(items, as_of_ms, n - 1);
        lemma_kept_where_step(items, n - 1, as_of_ms, |k: EvidenceKind| is_fact(k));
        lemma_kept_where_step(items, n - 1, as_of_ms, |k: EvidenceKind| k == EvidenceKind::CommunitySentiment);
        lemma_kept_where_step(items, n - 1, as_of_ms, |k: EvidenceKind| k == EvidenceKind::DiffusionMetric);
    }
}

pub fn copy_evidence(e: &SynthesisEvidence) -> (r: SynthesisEvidence)
    ensures
        r == *e,
{
    SynthesisEvidence {
        evidence_id: e.evidence_id.clone(),
        source_revision_id: e.source_revision_id.clone(),
        kind: e.kind,
        text: e.text.clone(),
        observed_at_ms: e.observed_at_ms,
        available_at_ms: e.available_at_ms,
        corroborated: e.corroborated,
        suspected_automation: e.suspected_automation,
    }
}

fn evidence_ok_exec(e: &SynthesisEvidence) -> (r: bool)
    ensures
        r == evidence_ok(*e),
{
    !is_blank(e.evidence_id.as_str()) && !is_blank(e.source_revision_id.as_str()) && !is_blank(
        e.text.as_str(),
    ) && byte_len(e.text.as_str()) <= MAX_TEXT_LEN
}

fn evidence_repeats_exec(items: &Vec<SynthesisEvidence>, i: usize, as_of_ms: u64) -> (r: bool)
    requires
        i < items.len(),
    ensures
        r == evidence_repeats(items@, i as int, as_of_ms),
{
    let mut j: usize = 0;
    while j < i
        invariant
            i < items.len(),
            j <= i,
            forall|a: int|
                0 <= a < j ==> !((#[trigger] items@[a]).available_at_ms <= as_of_ms
                    && items@[a].source_revision_id@ == items@[i as int].source_revision_id@
                    && items@[a].text@ == items@[i as int].text@),
        decreases i - j,
    {
        if items[j].available_at_ms <= as_of_ms && str_eq(
            items[j].source_revision_id.as_str(),
            items[i].source_revision_id.as_str(),
        ) && str_eq(items[j].text.as_str(), items[i].text.as_str()) {
            return true;
        }
        j = j + 1;
    }
    false
}

fn any_suspected(v: &Vec<SynthesisEvidence>) -> (r: bool)
    ensures
        r == exists|i: int| 0 <= i < v@.len() && (#[trigger] v@[i]).suspected_automation,
{
    let mut i: usize = 0;
    while i < v.len()
        invariant
            i <= v.len(),
            forall|k: int| 0 <= k < i ==> !(#[trigger] v@[k]).suspected_automation,
        decreases v.len() - i,
    {
        if v[i].suspected_automation {
            return true;
        }
        i = i + 1;
    }
    false
}

fn any_uncorroborated(v: &Vec<SynthesisEvidence>) -> (r: bool)
    ensures
        r == exists|i: int| 0 <= i < v@.len() && !(#[trigger] v@[i]).corroborated,
{
    let mut i: usize = 0;
    while i < v.len()
        invariant
            i <= v.len(),
            forall|k: int| 0 <= k < i ==> (#[trigger] v@[k]).corroborated,
        decreases v.len() - i,
    {
        if !v[i].corroborated {
            return true;
        }
        i = i + 1;
    }
    false
}

/// Sorts evidence available at `as_of_ms` into facts, sentiment and diffusion
/// metrics; future items and repeats of an earlier revision's text are excluded
/// by id; warns about automation-suspected sentiment and uncorroborated facts.
pub fn synthesize_evidence(as_of_ms: u64, input: Vec<SynthesisEvidence>) -> (r: Result<
    EvidenceSynthesis,
    String,
>)
    ensures
        r is Ok <==> forall|i: int| 0 <= i < input.len() ==> evidence_ok(#[trigger] input@[i]),
        r matches Err(e) ==> e@ == "근거 ID·원천 리비전·본문 길이를 확인해 주세요."@,
        r matches Ok(s) ==> {
            let n = input.len() as int;
            &&& s.facts@ == kept_where(input@, n, as_of_ms, |k: EvidenceKind| is_fact(k))
            &&& s.sentiment@ == kept_where(
                input@,
                n,
                as_of_ms,
                |k: EvidenceKind| k == EvidenceKind::CommunitySentiment,
            )
            &&& s.diffusion@ == kept_where(
                input@,
                n,
                as_of_ms,
                |k: EvidenceKind| k == EvidenceKind::DiffusionMetric,
            )
            &&& strings_view(s.excluded_evidence_ids@) == excluded_ids(input@, n, as_of_ms)
            &&& strings_view(s.warnings@) == synthesis_warnings(s.sentiment@, s.facts@)
        },
{
    let ghost pf = |k: EvidenceKind| is_fact(k);
    let ghost ps = |k: EvidenceKind| k == EvidenceKind::CommunitySentiment;
    let ghost pd = |k: EvidenceKind| k == EvidenceKind::DiffusionMetric;
    let mut facts: Vec<SynthesisEvidence> = Vec::new();
    let mut sentiment: Vec<SynthesisEvidence> = Vec::new();
    let mut diffusion: Vec<SynthesisEvidence> = Vec::new();
    let mut excluded: Vec<String> = Vec::new();
    let mut i: usize = 0;
    while i < input.len()
        invariant
            i <= input.len(),
            forall|k: int| 0 <= k < i ==> evidence_ok(#[trigger] input@[k]),
            forall|k: EvidenceKind| #[trigger] pf(k) == is_fact(k),
            forall|k: EvidenceKind| #[trigger] ps(k) == (k == EvidenceKind::CommunitySentiment),
            forall|k: EvidenceKind| #[trigger] pd(k) == (k == EvidenceKind::DiffusionMetric),
            facts@ == kept_where(input@, i as int, as_of_ms, pf),
            sentiment@ == kept_where(input@, i as int, as_of_ms, ps),
            diffusion@ == kept_where(input@, i as int, as_of_ms, pd),
            strings_view(excluded@) == excluded_ids(input@, i as int, as_of_ms),
        decreases input.len() - i,
    {
        if !evidence_ok_exec(&input[i]) {
            return Err("근거 ID·원천 리비전·본문 길이를 확인해 주세요.".to_owned());
        }
        let excluded_now = input[i].available_at_ms > as_of_ms || evidence_repeats_exec(
            &input,
            i,
            as_of_ms,
        );
        proof {
            let ghost k = i as int;
            assert(excluded_now == evidence_excluded(input@, k, as_of_ms));
            lemma_kept_where_step(input@, k, as_of_ms, pf);
            lemma_kept_where_step(input@, k, as_of_ms, ps);
            lemma_kept_where_step(input@, k, as_of_ms, pd);
            assert(pf(input@[k].kind) == is_fact(input@[k].kind));
            assert(ps(input@[k].kind) == (input@[k].kind == EvidenceKind::CommunitySentiment));
            assert(pd(input@[k].kind) == (input@[k].kind == EvidenceKind::DiffusionMetric));
        }
        if excluded_now {
            let ghost before = excluded@;
            excluded.push(input[i].evidence_id.clone());
            assert(strings_view(excluded@) =~= strings_view(before).push(input@[i as int].evidence_id@));
        } else {
            match input[i].kind {
                EvidenceKind::OfficialFact | EvidenceKind::NewsFact => {
                    facts.push(copy_evidence(&input[i]));
                },
                EvidenceKind::CommunitySentiment => {
                    sentiment.push(copy_evidence(&input[i]));
                },
                EvidenceKind::DiffusionMetric => {
                    diffusion.push(copy_evidence(&input[i]));
                },
            }
        }
        i = i + 1;
    }
    let mut warnings: Vec<String> = Vec::new();
    let suspected = any_suspected(&sentiment);
    if suspected {
        warnings.push("커뮤니티 자료에 자동화 계정 의심 표본이 포함되어 심리 근거를 낮게 평가합니다.".to_owned());
    }
    let uncorroborated = any_uncorroborated(&facts);
    if uncorroborated {
        warnings.push("독립 출처로 확인되지 않은 뉴스 사실은 미확인 주장으로 유지합니다.".to_owned());
    }
    assert(strings_view(warnings@) =~= synthesis_warnings(sentiment@, facts@));
    Ok(
        EvidenceSynthesis {
            facts,
            sentiment,
            diffusion,
            excluded_evidence_ids: excluded,
            warnings,
        },
    )
}

// ---------------------------------------------------------------- exit reasons

#[derive(Debug, Clone, Copy, PartialEq, Eq, Structural)]
pub enum ExitReason {
    StopLoss,
    TakeProfit,
    StrategySignal,
    UserManual,
    PeriodEnd,
    Liquidation,
    Rollover,
    Unknown,
}

/// The exit reason a stored value stands for; a legacy record without one (or
/// with `user_manual`) was a manual exit, anything else unknown is `Unknown`.
pub open spec fn exit_reason_of(raw: Option<Seq<char>>, is_legacy: bool) -> ExitReason {
    match raw {
        Some(s) => if s == "stop_loss"@ {
            ExitReason::StopLoss
        } else if s == "take_profit"@ {
            ExitReason::TakeProfit
        } else if s == "strategy_signal"@ {
            ExitReason::StrategySignal
        } else if s == "period_end"@ {
            ExitReason::PeriodEnd
        } else if s == "liquidation"@ {
            ExitReason::Liquidation
        } else if s == "rollover"@ {
            ExitReason::Rollover
        } else if s == "user_manual"@ && is_legacy {
            ExitReason::UserManual
        } else {
            ExitReason::Unknown
        },
        None => if is_legacy {
            ExitReason::UserManual
        } else {
            ExitReason::Unknown
        },
    }
}

pub open spec fn opt_str_view(raw: Option<&str>) -> Option<Seq<char>> {
    match raw {
        Some(s) => Some(s@),
        None => None,
    }
}

impl ExitReason {
    pub fn compatible(raw: Option<&str>, is_legacy: bool) -> (r: Self)
        ensures
            r == exit_reason_of(opt_str_view(raw), is_legacy),
    {
        match raw {
            Some(s) => if str_eq(s, "stop_loss") {
                ExitReason::StopLoss
            } else if str_eq(s, "take_profit") {
                ExitReason::TakeProfit
            } else if str_eq(s, "strategy_signal") {
                ExitReason::StrategySignal
            } else if str_eq(s, "period_end") {
                ExitReason::PeriodEnd
            } else if str_eq(s, "liquidation") {
                ExitReason::Liquidation
            } else if str_eq(s, "rollover") {
                ExitReason::Rollover
            } else if str_eq(s, "user_manual") && is_legacy {
                ExitReason::UserManual
            } else {
                ExitReason::Unknown
            },
            None => if is_legacy {
                ExitReason::UserManual
            } else {
                ExitReason::Unknown
            },
        }
    }
}

// ---------------------------------------------------------------- shadow soak audit

#[derive(Debug, Clone, PartialEq, Eq)]
pub struct SoakSample {
    pub observed_at_ms: u64,
    pub source_observed_at_ms: Option<u64>,
    pub memory_bytes: u64,
    pub timer_count: u32,
    pub sqlite_bytes: u64,
    pub candidate_key: Option<String>,
    pub provider_healthy: bool,
    pub restarted: bool,
    pub reconciliation_passed: bool,
}

/// The value a sample's reconciliation flag takes when a stored sample omits it.
pub fn default_true() -> (r: bool)
    ensures
        r,
{
    true
}

#[derive(Debug, Clone, PartialEq, Eq)]
pub struct SoakAudit {
    pub duration_ms: u64,
    pub duplicate_candidate_count: u32,
    pub memory_growth_bytes: i64,
    pub timer_growth: i32,
    pub sqlite_growth_bytes: i64,
    pub stale_sample_count: u32,
    pub restart_reconciliation_failure_count: u32,
    pub max_observation_gap_ms: u64,
    pub observation_gap_failure_count: u32,
    pub fail_closed: bool,
    pub warnings: Vec<String>,
}

#[derive(Debug, Clone, PartialEq, Eq)]
pub struct SoakSampleRequest {
    pub restarted: bool,
}

#[derive(Debug, Clone, PartialEq, Eq)]
pub struct SaveSoakAuditRequest {
    pub run_id: String,
    pub samples: Vec<SoakSample>,
    pub simulated_timeline: bool,
}

#[derive(Debug, Clone, PartialEq, Eq)]
pub struct StoredSoakAudit {
    pub run_id: String,
    pub sample_count: usize,
    pub audit: SoakAudit,
    pub simulated_timeline: bool,
    pub actual_elapsed_qualified: bool,
    pub created_at_ms: u64,
}

#[derive(Debug, Clone, PartialEq, Eq)]
pub struct OperationsDashboardSnapshot {
    pub observed_at_ms: u64,
    pub source_timestamps_ms: BTreeMap<String, u64>,
    pub counts: BTreeMap<String, u64>,
    pub live_order_enabled: bool,
    pub warnings: Vec<String>,
}

pub const SOAK_DURATION_MS: u64 = 86_400_000;
pub const STALE_SOURCE_MS: u64 = 300_000;
pub const OBSERVATION_GAP_MS: u64 = 180_000;

pub open spec fn sat_sub(a: u64, b: u64) -> int {
    if a > b {
        a - b
    } else {
        0
    }
}

pub open spec fn samples_increasing(s: Seq<SoakSample>) -> bool {
    forall|i: int| 0 < i < s.len() ==> s[i - 1].observed_at_ms < #[trigger] s[i].observed_at_ms
}

pub open spec fn candidate_repeats(s: Seq<SoakSample>, i: int) -> bool {
    s[i].candidate_key is Some && exists|j: int|
        0 <= j < i && (#[trigger] s[j]).candidate_key is Some && s[j].candidate_key->0@
            == s[i].candidate_key->0@
}

pub open spec fn sample_stale(x: SoakSample) -> bool {
    x.source_observed_at_ms matches Some(src) && sat_sub(x.observed_at_ms, src) > STALE_SOURCE_MS
}

pub open spec fn restart_mismatch(x: SoakSample) -> bool {
    x.restarted && !x.reconciliation_passed
}

pub open spec fn observation_gap(s: Seq<SoakSample>, i: int) -> int {
    sat_sub(s[i].observed_at_ms, s[i - 1].observed_at_ms)
}

/// The largest gap between consecutive samples among the first `k`.
pub open spec fn max_gap(s: Seq<SoakSample>, k: int) -> int
    decreases k,
{
    if k < 2 {
        0
    } else {
        let g = observation_gap(s, k - 1);
        let m = max_gap(s, k - 1);
        if g > m {
            g
        } else {
            m
        }
    }
}

/// The largest gap among the first `k` samples is at least the time between
/// every two consecutive ones of them and equal to one of those times; it is 0
/// when there are fewer than two.
pub proof fn lemma_max_gap_is_largest(s: Seq<SoakSample>, k: int)
    requires
        0 <= k <= s.len(),
        samples_increasing(s),
    ensures
        forall|i: int| 0 < i < k ==> max_gap(s, k) >= (#[trigger] s[i]).observed_at_ms - s[i - 1].observed_at_ms,
        k < 2 ==> max_gap(s, k) == 0,
        k >= 2 ==> exists|i: int| 0 < i < k && max_gap(s, k) == (#[trigger] s[i]).observed_at_ms - s[i - 1].observed_at_ms,
    decreases k,
{
    if k >= 2 {
        lemma_max_gap_is_largest(s, k - 1);
        assert(s[k - 2].observed_at_ms < s[k - 1].observed_at_ms);
        assert(observation_gap(s, k - 1) == s[k - 1].observed_at_ms - s[k - 2].observed_at_ms);
        assert forall|i: int| 0 < i < k implies max_gap(s, k) >= (#[trigger] s[i]).observed_at_ms
            - s[i - 1].observed_at_ms by {
            if i < k - 1 {
                assert(max_gap(s, k - 1) >= s[i].observed_at_ms - s[i - 1].observed_at_ms);
            }
        }
        if max_gap(s, k) != observation_gap(s, k - 1) {
            assert(k - 1 >= 2);
            let w = choose|i: int| 0 < i < k - 1 && max_gap(s, k - 1) == (#[trigger] s[i]).observed_at_ms
                - s[i - 1].observed_at_ms;
            assert(max_gap(s, k) == s[w].observed_at_ms - s[w - 1].observed_at_ms);
        }
    }
}

pub open spec fn clamp(x: int, lo: int, hi: int) -> int {
    if x < lo {
        lo
    } else if x > hi {
        hi
    } else {
        x
    }
}

pub open spec fn soak_warnings(
    duration: int,
    duplicates: int,
    memory_growth: int,
    timer_growth: int,
    stale: int,
    restart_failures: int,
) -> Seq<Seq<char>> {
    flag_if(duration < SOAK_DURATION_MS, "24시간 표본이 아니므로 장시간 완료 판정은 보류합니다."@) + flag_if(
        duplicates > 0,
        "동일 완료봉 후보 중복이 감지됐습니다."@,
    ) + flag_if(memory_growth > 128 * 1024 * 1024, "메모리 증가량이 128MB 기준을 초과했습니다."@)
        + flag_if(timer_growth > 4, "타이머 증가량이 기준을 초과했습니다."@) + flag_if(
        stale > 0,
        "5분을 초과한 오래된 공급자 관측값이 감지됐습니다."@,
    ) + flag_if(restart_failures > 0, "재시작 뒤 원장·후보 대사 실패가 감지됐습니다."@)
}

/// The audit of a non-empty, time-ordered sample series.
/// The measured fields of an audit: everything but the verdict and warnings.
pub open spec fn soak_measures_ok(s: Seq<SoakSample>, a: SoakAudit) -> bool {
    let n = s.len() as int;
    &&& a.duration_ms == s[n - 1].observed_at_ms - s[0].observed_at_ms
    &&& a.duplicate_candidate_count == count_where(n, |i: int| candidate_repeats(s, i))
    &&& a.memory_growth_bytes == clamp(s[n - 1].memory_bytes - s[0].memory_bytes, i64::MIN as int, i64::MAX as int)
    &&& a.timer_growth == clamp(s[n - 1].timer_count - s[0].timer_count, i32::MIN as int, i32::MAX as int)
    &&& a.sqlite_growth_bytes == clamp(
        s[n - 1].sqlite_bytes - s[0].sqlite_bytes,
        i64::MIN as int,
        i64::MAX as int,
    )
    &&& a.stale_sample_count == count_where(n, |i: int| sample_stale(s[i]))
    &&& a.restart_reconciliation_failure_count == count_where(n, |i: int| restart_mismatch(s[i]))
    &&& a.max_observation_gap_ms == max_gap(s, n)
    &&& a.observation_gap_failure_count == count_where(
        n,
        |i: int| 0 < i && observation_gap(s, i) > OBSERVATION_GAP_MS,
    )
}

/// The distinct candidate keys named by the first `n` samples.
pub open spec fn candidate_keys(s: Seq<SoakSample>, n: int) -> Set<Seq<char>>
    decreases n,
{
    if n <= 0 {
        Set::empty()
    } else {
        match s[n - 1].candidate_key {
            Some(c) => candidate_keys(s, n - 1).insert(c@),
            None => candidate_keys(s, n - 1),
        }
    }
}

proof fn lemma_candidate_keys(s: Seq<SoakSample>, n: int)
    requires
        0 <= n <= s.len(),
    ensures
        candidate_keys(s, n).finite(),
        forall|x: Seq<char>|
            candidate_keys(s, n).contains(x) <==> exists|j: int|
                0 <= j < n && (#[trigger] s[j]).candidate_key is Some && s[j].candidate_key->0@ == x,
        count_where(n, |i: int| candidate_repeats(s, i)) == count_where(n, |i: int| s[i].candidate_key is Some)
            - candidate_keys(s, n).len(),
    decreases n,
{
    if n > 0 {
        lemma_candidate_keys(s, n - 1);
        let prev = candidate_keys(s, n - 1);
        assert forall|x: Seq<char>|
            candidate_keys(s, n).contains(x) <==> exists|j: int|
                0 <= j < n && (#[trigger] s[j]).candidate_key is Some && s[j].candidate_key->0@ == x by {
            if candidate_keys(s, n).contains(x) && !prev.contains(x) {
                assert(s[n - 1].candidate_key is Some && s[n - 1].candidate_key->0@ == x);
            }
            if exists|j: int| 0 <= j < n && (#[trigger] s[j]).candidate_key is Some && s[j].candidate_key->0@ == x {
                let j = choose|j: int| 0 <= j < n && (#[trigger] s[j]).candidate_key is Some && s[j].candidate_key->0@ == x;
                if j < n - 1 {
                    assert(prev.contains(x));
                }
            }
        }
        match s[n - 1].candidate_key {
            Some(c) => {
                if prev.contains(c@) {
                    let j = choose|j: int|
                        0 <= j < n - 1 && (#[trigger] s[j]).candidate_key is Some && s[j].candidate_key->0@ == c@;
                    assert(candidate_repeats(s, n - 1));
                    assert(candidate_keys(s, n) =~= prev);
                } else {
                    assert(!candidate_repeats(s, n - 1));
                }
            },
            None => {
                assert(!candidate_repeats(s, n - 1));
            },
        }
    }
}

/// The duplicate-candidate count of an audit is the number of samples that
/// name a candidate less the number of distinct candidates named.
pub proof fn lemma_duplicates_are_named_less_distinct(s: Seq<SoakSample>, a: SoakAudit)
    requires
        s.len() > 0,
        soak_measures_ok(s, a),
    ensures
        candidate_keys(s, s.len() as int).finite(),
        a.duplicate_candidate_count == count_where(s.len() as int, |i: int| s[i].candidate_key is Some) - candidate_keys(
            s,
            s.len() as int,
        ).len(),
{
    lemma_candidate_keys(s, s.len() as int);
}

/// The audit fails closed on an unhealthy provider, a repeated candidate, a
/// stale sample or a failed restart reconciliation.
pub open spec fn soak_fails_closed(s: Seq<SoakSample>) -> bool {
    let n = s.len() as int;
    ||| exists|i: int| 0 <= i < n && !(#[trigger] s[i]).provider_healthy
    ||| count_where(n, |i: int| candidate_repeats(s, i)) > 0
    ||| count_where(n, |i: int| sample_stale(s[i])) > 0
    ||| count_where(n, |i: int| restart_mismatch(s[i])) > 0
}

pub open spec fn soak_warnings_of(s: Seq<SoakSample>) -> Seq<Seq<char>> {
    let n = s.len() as int;
    soak_warnings(
        s[n - 1].observed_at_ms - s[0].observed_at_ms,
        count_where(n, |i: int| candidate_repeats(s, i)),
        s[n - 1].memory_bytes - s[0].memory_bytes,
        s[n - 1].timer_count - s[0].timer_count,
        count_where(n, |i: int| sample_stale(s[i])),
        count_where(n, |i: int| restart_mismatch(s[i])),
    )
}

pub open spec fn soak_audit_ok(s: Seq<SoakSample>, a: SoakAudit) -> bool {
    &&& soak_measures_ok(s, a)
    &&& a.fail_closed == soak_fails_closed(s)
    &&& strings_view(a.warnings@) == soak_warnings_of(s)
}

fn candidate_repeats_exec(s: &Vec<SoakSample>, i: usize) -> (r: bool)
    requires
        i < s.len(),
    ensures
        r == candidate_repeats(s@, i as int),
{
    match &s[i].candidate_key {
        None => false,
        Some(key) => {
            let mut j: usize = 0;
            while j < i
                invariant
                    i < s.len(),
                    j <= i,
                    s@[i as int].candidate_key == Some(*key),
                    forall|a: int|
                        0 <= a < j ==> !((#[trigger] s@[a]).candidate_key is Some
                            && s@[a].candidate_key->0@ == key@),
                decreases i - j,
            {
                match &s[j].candidate_key {
                    Some(other) => {
                        if str_eq(other.as_str(), key.as_str()) {
                            return true;
                        }
                    },
                    None => {},
                }
                j = j + 1;
            }
            false
        },
    }
}

pub proof fn lemma_count_where_step(n: int, p: spec_fn(int) -> bool)
    requires
        n >= 0,
    ensures
        count_where(n + 1, p) == count_where(n, p) + if p(n) {
            1int
        } else {
            0int
        },
{
}

/// In an audited soak series the largest sampling gap is at least every gap
/// between consecutive samples and is one of them (0 for a single sample);
/// no gap failure is counted exactly when that largest gap is within the
/// allowed gap; and at most one failure per consecutive pair is counted.
pub proof fn lemma_soak_gap_laws(s: Seq<SoakSample>, a: SoakAudit)
    requires
        s.len() > 0,
        samples_increasing(s),
        soak_audit_ok(s, a),
    ensures
        forall|i: int| 0 < i < s.len() ==> a.max_observation_gap_ms >= (#[trigger] s[i]).observed_at_ms - s[i - 1].observed_at_ms,
        s.len() < 2 ==> a.max_observation_gap_ms == 0,
        s.len() >= 2 ==> exists|i: int|
            0 < i < s.len() && a.max_observation_gap_ms == (#[trigger] s[i]).observed_at_ms - s[i - 1].observed_at_ms,
        a.observation_gap_failure_count == 0 <==> a.max_observation_gap_ms <= OBSERVATION_GAP_MS,
        a.observation_gap_failure_count < s.len(),
{
    let n = s.len() as int;
    lemma_max_gap_is_largest(s, n);
    let pg = |i: int| 0 < i && observation_gap(s, i) > OBSERVATION_GAP_MS;
    assert(a.observation_gap_failure_count == count_where(n, pg));
    lemma_count_where_zero(n, pg);
    lemma_count_where_skips_first(n, pg);
    assert forall|i: int| 0 < i < n implies observation_gap(s, i) == (#[trigger] s[i]).observed_at_ms
        - s[i - 1].observed_at_ms by {
        assert(s[i - 1].observed_at_ms < s[i].observed_at_ms);
    }
    if a.max_observation_gap_ms <= OBSERVATION_GAP_MS {
        assert forall|i: int| 0 <= i < n implies !#[trigger] pg(i) by {
            if 0 < i {
                assert(a.max_observation_gap_ms >= s[i].observed_at_ms - s[i - 1].observed_at_ms);
            }
        }
    } else {
        let w = choose|i: int| 0 < i < n && a.max_observation_gap_ms == (#[trigger] s[i]).observed_at_ms
            - s[i - 1].observed_at_ms;
        assert(pg(w));
    }
}

/// The per-sample counts of a soak series, or `Err` where the times do not increase.
fn soak_counts(samples: &Vec<SoakSample>) -> (r: Result<(u32, u32, u32, u32, u64, bool), String>)
    requires
        0 < samples.len() <= u32::MAX,
    ensures
        r is Ok <==> samples_increasing(samples@),
        r matches Err(e) ==> e@ == "내구 검사 표본은 시각 오름차순이어야 합니다."@,
        r matches Ok((duplicates, stale, restart_failures, gap_failures, max_gap_ms, unhealthy)) ==> {
            let s = samples@;
            let n = s.len() as int;
            &&& duplicates == count_where(n, |i: int| candidate_repeats(s, i))
            &&& stale == count_where(n, |i: int| sample_stale(s[i]))
            &&& restart_failures == count_where(n, |i: int| restart_mismatch(s[i]))
            &&& gap_failures == count_where(n, |i: int| 0 < i && observation_gap(s, i) > OBSERVATION_GAP_MS)
            &&& max_gap_ms == max_gap(s, n)
            &&& unhealthy == exists|k: int| 0 <= k < n && !(#[trigger] s[k]).provider_healthy
        },
{
    let n = samples.len();
    let ghost s = samples@;
    let ghost pdup = |i: int| candidate_repeats(s, i);
    let ghost pstale = |i: int| sample_stale(s[i]);
    let ghost prestart = |i: int| restart_mismatch(s[i]);
    let ghost pgap = |i: int| 0 < i && observation_gap(s, i) > OBSERVATION_GAP_MS;
    let mut duplicates: u32 = 0;
    let mut stale: u32 = 0;
    let mut restart_failures: u32 = 0;
    let mut gap_failures: u32 = 0;
    let mut max_gap_ms: u64 = 0;
    let mut unhealthy = false;
    let mut i: usize = 0;
    while i < n
        invariant
            n == samples.len(),
            s == samples@,
            0 < n <= u32::MAX,
            i <= n,
            forall|k: int| 0 < k < i ==> s[k - 1].observed_at_ms < #[trigger] s[k].observed_at_ms,
            forall|k: int| #[trigger] pdup(k) == candidate_repeats(s, k),
            forall|k: int| #[trigger] pstale(k) == sample_stale(s[k]),
            forall|k: int| #[trigger] prestart(k) == restart_mismatch(s[k]),
            forall|k: int| #[trigger] pgap(k) == (0 < k && observation_gap(s, k) > OBSERVATION_GAP_MS),
            duplicates == count_where(i as int, pdup),
            stale == count_where(i as int, pstale),
            restart_failures == count_where(i as int, prestart),
            gap_failures == count_where(i as int, pgap),
            max_gap_ms == max_gap(s, i as int),
            unhealthy == exists|k: int| 0 <= k < i && !(#[trigger] s[k]).provider_healthy,
        decreases n - i,
    {
        proof {
            lemma_count_where_bounds(i as int, pdup);
            lemma_count_where_bounds(i as int, pstale);
            lemma_count_where_bounds(i as int, prestart);
            lemma_count_where_bounds(i as int, pgap);
            lemma_count_where_step(i as int, pdup);
            lemma_count_where_step(i as int, pstale);
            lemma_count_where_step(i as int, prestart);
            lemma_count_where_step(i as int, pgap);
        }
        let x = &samples[i];
        let mut gap_fail = false;
        if i > 0 {
            if samples[i - 1].observed_at_ms >= x.observed_at_ms {
                return Err("내구 검사 표본은 시각 오름차순이어야 합니다.".to_owned());
            }
            let gap = x.observed_at_ms - samples[i - 1].observed_at_ms;
            if gap > max_gap_ms {
                max_gap_ms = gap;
            }
            gap_fail = gap > OBSERVATION_GAP_MS;
        }
        assert(gap_fail == pgap(i as int));
        if gap_fail {
            gap_failures = gap_failures + 1;
        }
        let dup = candidate_repeats_exec(samples, i);
        assert(dup == pdup(i as int));
        if dup {
            duplicates = duplicates + 1;
        }
        let is_stale = match x.source_observed_at_ms {
            Some(src) => x.observed_at_ms > src && x.observed_at_ms - src > STALE_SOURCE_MS,
            None => false,
        };
        assert(is_stale == pstale(i as int));
        if is_stale {
            stale = stale + 1;
        }
        let mismatch = x.restarted && !x.reconciliation_passed;
        assert(mismatch == prestart(i as int));
        if mismatch {
            restart_failures = restart_failures + 1;
        }
        if !x.provider_healthy {
            unhealthy = true;
        }
        i = i + 1;
    }
    Ok((duplicates, stale, restart_failures, gap_failures, max_gap_ms, unhealthy))
}

/// Audits a soak run's samples: duration, repeated candidates, stale source data,
/// restarts that failed reconciliation, sampling gaps and resource growth. Any
/// unhealthy provider, repeat, stale sample or failed reconciliation fails it closed.
#[verifier::spinoff_prover]
pub fn audit_soak(samples: &Vec<SoakSample>) -> (r: Result<SoakAudit, String>)
    requires
        samples.len() <= u32::MAX,
    ensures
        r is Ok <==> samples.len() > 0 && samples_increasing(samples@),
        r matches Err(e) ==> e@ == if samples.len() == 0 {
            "내구 검사 표본이 필요합니다."@
        } else {
            "내구 검사 표본은 시각 오름차순이어야 합니다."@
        },
        r matches Ok(a) ==> soak_audit_ok(samples@, a),
        r matches Ok(a) ==> {
            &&& forall|i: int|
                0 < i < samples@.len() ==> a.max_observation_gap_ms >= (#[trigger] samples@[i]).observed_at_ms
                    - samples@[i - 1].observed_at_ms
            &&& samples@.len() < 2 ==> a.max_observation_gap_ms == 0
            &&& samples@.len() >= 2 ==> exists|i: int|
                0 < i < samples@.len() && a.max_observation_gap_ms == (#[trigger] samples@[i]).observed_at_ms
                    - samples@[i - 1].observed_at_ms
            &&& a.observation_gap_failure_count == 0 <==> a.max_observation_gap_ms <= OBSERVATION_GAP_MS
            &&& a.observation_gap_failure_count < samples@.len()
        },
{
    let n = samples.len();
    if n == 0 {
        return Err("내구 검사 표본이 필요합니다.".to_owned());
    }
    let (duplicates, stale, restart_failures, gap_failures, max_gap_ms, unhealthy) = soak_counts(samples)?;
    let ghost s = samples@;
    let first = &samples[0];
    let last = &samples[n - 1];
    proof {
        if n > 1 {
            lemma_increasing_first_last(s);
        }
    }
    let duration_ms = last.observed_at_ms - first.observed_at_ms;
    let memory_growth: i128 = last.memory_bytes as i128 - first.memory_bytes as i128;
    let sqlite_growth: i128 = last.sqlite_bytes as i128 - first.sqlite_bytes as i128;
    let timer_growth: i64 = last.timer_count as i64 - first.timer_count as i64;
    let mut warnings: Vec<String> = Vec::new();
    if duration_ms < SOAK_DURATION_MS {
        warnings.push("24시간 표본이 아니므로 장시간 완료 판정은 보류합니다.".to_owned());
    }
    if duplicates > 0 {
        warnings.push("동일 완료봉 후보 중복이 감지됐습니다.".to_owned());
    }
    if memory_growth > 128 * 1024 * 1024 {
        warnings.push("메모리 증가량이 128MB 기준을 초과했습니다.".to_owned());
    }
    if timer_growth > 4 {
        warnings.push("타이머 증가량이 기준을 초과했습니다.".to_owned());
    }
    if stale > 0 {
        warnings.push("5분을 초과한 오래된 공급자 관측값이 감지됐습니다.".to_owned());
    }
    if restart_failures > 0 {
        warnings.push("재시작 뒤 원장·후보 대사 실패가 감지됐습니다.".to_owned());
    }
    assert(strings_view(warnings@) =~= soak_warnings(
        duration_ms as int,
        duplicates as int,
        memory_growth as int,
        timer_growth as int,
        stale as int,
        restart_failures as int,
    ));
    let memory_growth_bytes: i64 = if memory_growth < i64::MIN as i128 {
        i64::MIN
    } else if memory_growth > i64::MAX as i128 {
        i64::MAX
    } else {
        memory_growth as i64
    };
    let sqlite_growth_bytes: i64 = if sqlite_growth < i64::MIN as i128 {
        i64::MIN
    } else if sqlite_growth > i64::MAX as i128 {
        i64::MAX
    } else {
        sqlite_growth as i64
    };
    let timer: i32 = if timer_growth < i32::MIN as i64 {
        i32::MIN
    } else if timer_growth > i32::MAX as i64 {
        i32::MAX
    } else {
        timer_growth as i32
    };
    let audit =
        SoakAudit {
            duration_ms,
            duplicate_candidate_count: duplicates,
            memory_growth_bytes,
            timer_growth: timer,
            sqlite_growth_bytes,
            stale_sample_count: stale,
            restart_reconciliation_failure_count: restart_failures,
            max_observation_gap_ms: max_gap_ms,
            observation_gap_failure_count: gap_failures,
            fail_closed: unhealthy || duplicates > 0 || stale > 0 || restart_failures > 0,
            warnings,
        };
    proof {
        lemma_soak_gap_laws(samples@, audit);
    }
    Ok(audit)
}

proof fn lemma_increasing_first_last(s: Seq<SoakSample>)
    requires
        s.len() > 1,
        samples_increasing(s),
    ensures
        s[0].observed_at_ms <= s[s.len() - 1].observed_at_ms,
    decreases s.len(),
{
    if s.len() > 2 {
        let t = s.drop_last();
        assert forall|i: int| 0 < i < t.len() implies t[i - 1].observed_at_ms < #[trigger] t[i].observed_at_ms by {
            assert(t[i] == s[i]);
            assert(t[i - 1] == s[i - 1]);
        }
        lemma_increasing_first_last(t);
        assert(s[s.len() - 2].observed_at_ms < s[s.len() - 1].observed_at_ms);
    }
}

/// A soak run id: 1 to 128 characters from `[A-Za-z0-9._-]`.
pub open spec fn run_id_ok(s: Seq<char>) -> bool {
    valid_ident(s, 128, false)
}

pub fn valid_run_id(value: &str) -> (r: bool)
    ensures
        r == run_id_ok(value@),
{
    valid_identifier(value, 128, false)
}


// ---------------------------------------------------------------- storing a soak run

/// An actual (not replayed) run whose sampling stopped for too long fails
/// closed with a warning.
pub open spec fn stored_soak_audit_ok(s: Seq<SoakSample>, simulated: bool, a: SoakAudit) -> bool {
    let gap_failed = !simulated && a.observation_gap_failure_count > 0;
    &&& soak_measures_ok(s, a)
    &&& a.fail_closed == (soak_fails_closed(s) || gap_failed)
    &&& strings_view(a.warnings@) == soak_warnings_of(s) + flag_if(
        gap_failed,
        "3분을 초과한 실제 내구 검사 표본 공백이 감지됐습니다."@,
    )
}

/// The record a soak run stores: its id, sample count, audit and whether it
/// ran a full day of actual time. Refuses an invalid id, fewer than two or
/// more than 100,000 samples, and samples out of time order.
pub fn prepare_soak_audit(request: SaveSoakAuditRequest, created_at_ms: u64) -> (r: Result<StoredSoakAudit, String>)
    ensures
        !(run_id_ok(request.run_id@) && 2 <= request.samples@.len() <= 100_000) ==> (r matches Err(e) && e@
            == "내구 검사 실행 ID와 표본 수를 확인해 주세요."@),
        run_id_ok(request.run_id@) && 2 <= request.samples@.len() <= 100_000 ==> (r is Ok <==> samples_increasing(
            request.samples@,
        )),
        r matches Ok(st) ==> {
            &&& st.run_id == request.run_id
            &&& st.sample_count == request.samples@.len()
            &&& st.simulated_timeline == request.simulated_timeline
            &&& st.created_at_ms == created_at_ms
            &&& stored_soak_audit_ok(request.samples@, request.simulated_timeline, st.audit)
            &&& st.actual_elapsed_qualified == (!request.simulated_timeline && st.audit.duration_ms >= 86_400_000)
        },
{
    if !valid_run_id(request.run_id.as_str()) || request.samples.len() < 2 || request.samples.len() > 100_000 {
        return Err("내구 검사 실행 ID와 표본 수를 확인해 주세요.".to_owned());
    }
    let mut audit = audit_soak(&request.samples)?;
    let ghost before = audit.warnings@;
    if !request.simulated_timeline && audit.observation_gap_failure_count > 0 {
        audit.fail_closed = true;
        audit.warnings.push("3분을 초과한 실제 내구 검사 표본 공백이 감지됐습니다.".to_owned());
        assert(strings_view(audit.warnings@) =~= strings_view(before) + seq![
            "3분을 초과한 실제 내구 검사 표본 공백이 감지됐습니다."@,
        ]);
    } else {
        assert(strings_view(audit.warnings@) =~= strings_view(before) + Seq::<Seq<char>>::empty());
    }
    let sample_count = request.samples.len();
    let actual_elapsed_qualified = !request.simulated_timeline && audit.duration_ms >= 86_400_000;
    Ok(
        StoredSoakAudit {
            run_id: request.run_id,
            sample_count,
            actual_elapsed_qualified,
            simulated_timeline: request.simulated_timeline,
            audit,
            created_at_ms,
        },
    )
}

/// Two audits with the same fields and warning texts.
pub open spec fn audit_same(a: SoakAudit, b: SoakAudit) -> bool {
    &&& a.duration_ms == b.duration_ms
    &&& a.duplicate_candidate_count == b.duplicate_candidate_count
    &&& a.memory_growth_bytes == b.memory_growth_bytes
    &&& a.timer_growth == b.timer_growth
    &&& a.sqlite_growth_bytes == b.sqlite_growth_bytes
    &&& a.stale_sample_count == b.stale_sample_count
    &&& a.restart_reconciliation_failure_count == b.restart_reconciliation_failure_count
    &&& a.max_observation_gap_ms == b.max_observation_gap_ms
    &&& a.observation_gap_failure_count == b.observation_gap_failure_count
    &&& a.fail_closed == b.fail_closed
    &&& strings_view(a.warnings@) == strings_view(b.warnings@)
}

/// Whether a stored record answers the same run again: same sample count,
/// audit and timeline kind.
pub fn same_soak_audit(existing: &StoredSoakAudit, stored: &StoredSoakAudit) -> (r: bool)
    ensures
        r == (existing.sample_count == stored.sample_count && audit_same(existing.audit, stored.audit)
            && existing.simulated_timeline == stored.simulated_timeline),
{
    existing.sample_count == stored.sample_count && same_audit(&existing.audit, &stored.audit)
        && existing.simulated_timeline == stored.simulated_timeline
}

fn same_audit(a: &SoakAudit, b: &SoakAudit) -> (r: bool)
    ensures
        r == audit_same(*a, *b),
{
    if !(a.duration_ms == b.duration_ms && a.duplicate_candidate_count == b.duplicate_candidate_count
        && a.memory_growth_bytes == b.memory_growth_bytes && a.timer_growth == b.timer_growth
        && a.sqlite_growth_bytes == b.sqlite_growth_bytes && a.stale_sample_count == b.stale_sample_count
        && a.restart_reconciliation_failure_count == b.restart_reconciliation_failure_count
        && a.max_observation_gap_ms == b.max_observation_gap_ms && a.observation_gap_failure_count
        == b.observation_gap_failure_count && a.fail_closed == b.fail_closed && a.warnings.len()
        == b.warnings.len()) {
        proof {
            if a.warnings@.len() != b.warnings@.len() {
                assert(strings_view(a.warnings@).len() != strings_view(b.warnings@).len());
            }
        }
        return false;
    }
    let mut i: usize = 0;
    while i < a.warnings.len()
        invariant
            a.warnings@.len() == b.warnings@.len(),
            i <= a.warnings@.len(),
            forall|k: int| 0 <= k < i ==> (#[trigger] a.warnings@[k])@ == b.warnings@[k]@,
        decreases a.warnings.len() - i,
    {
        if !str_eq(a.warnings[i].as_str(), b.warnings[i].as_str()) {
            assert(strings_view(a.warnings@)[i as int] != strings_view(b.warnings@)[i as int]);
            return false;
        }
        i = i + 1;
    }
    assert(strings_view(a.warnings@) =~= strings_view(b.warnings@));
    true
}

// ---------------------------------------------------------------- the unattended soak run

pub const HEADLESS_SHADOW_SOAK_DURATION_MS: u64 = 86_400_000;

/// Whether the command line asks for the unattended day-long soak run
/// (`--shadow-soak-autostart`).
pub fn has_headless_shadow_soak_arg(args: &Vec<String>) -> (r: bool)
    ensures
        r == exists|i: int| 0 <= i < args@.len() && (#[trigger] args@[i])@ == "--shadow-soak-autostart"@,
{
    let mut i: usize = 0;
    while i < args.len()
        invariant
            i <= args@.len(),
            forall|k: int| 0 <= k < i ==> (#[trigger] args@[k])@ != "--shadow-soak-autostart"@,
        decreases args.len() - i,
    {
        if str_eq(args[i].as_str(), "--shadow-soak-autostart") {
            return true;
        }
        i = i + 1;
    }
    false
}

pub open spec fn key_seen(samples: Seq<SoakSample>, key: Seq<char>) -> bool {
    exists|i: int| 0 <= i < samples.len() && ((#[trigger] samples[i]).candidate_key matches Some(k) && k@ == key)
}

/// One step of the unattended run: a candidate already sampled is not
/// counted again, and the run ends once a full day has passed since it began.
pub fn next_soak_sample(samples: &Vec<SoakSample>, sample: SoakSample, started_at_ms: u64) -> (r: (SoakSample, bool))
    ensures
        r.0.observed_at_ms == sample.observed_at_ms,
        r.0.source_observed_at_ms == sample.source_observed_at_ms,
        r.0.memory_bytes == sample.memory_bytes,
        r.0.timer_count == sample.timer_count,
        r.0.sqlite_bytes == sample.sqlite_bytes,
        r.0.provider_healthy == sample.provider_healthy,
        r.0.restarted == sample.restarted,
        r.0.reconciliation_passed == sample.reconciliation_passed,
        r.0.candidate_key == (match sample.candidate_key {
            Some(k) => if key_seen(samples@, k@) {
                None
            } else {
                Some(k)
            },
            None => None,
        }),
        r.1 == (sample.observed_at_ms >= started_at_ms && sample.observed_at_ms - started_at_ms
            >= HEADLESS_SHADOW_SOAK_DURATION_MS),
{
    let mut sample = sample;
    let seen = match &sample.candidate_key {
        Some(key) => {
            let mut found = false;
            let mut i: usize = 0;
            while i < samples.len()
                invariant
                    i <= samples@.len(),
                    found == exists|k: int|
                        0 <= k < i && ((#[trigger] samples@[k]).candidate_key matches Some(x) && x@ == key@),
                decreases samples.len() - i,
            {
                if let Some(other) = &samples[i].candidate_key {
                    if str_eq(other.as_str(), key.as_str()) {
                        found = true;
                    }
                }
                i = i + 1;
            }
            found
        },
        None => false,
    };
    if seen {
        sample.candidate_key = None;
    }
    let elapsed = if sample.observed_at_ms >= started_at_ms {
        sample.observed_at_ms - started_at_ms
    } else {
        0
    };
    (sample, elapsed >= HEADLESS_SHADOW_SOAK_DURATION_MS)
}

} // verus!
