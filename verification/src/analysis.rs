//! The decisions of an analysis snapshot: which request is accepted, which
//! single stock it is about, the completed daily bars it rests on, what the
//! official data sources could give, and what the snapshot says is missing.
use vstd::prelude::*;
use crate::aggregation::copy_string;
use crate::candles::TossChartBar;
use crate::meeting::{join_strings, joined};
use crate::readiness::strings_view;
use crate::stocks::StockSearchResult;
use crate::text::{concat_str, decimal, decimal_string, has_no_control, no_control, str_eq, trim, trimmed};

verus! {

#[derive(Debug, Clone)]
pub struct AnalysisSnapshotRequest {
    pub query: String,
    pub count: u16,
}

/// The refusal of an analysis request before any stock is looked up, or of the
/// candidates found for it.
pub open spec fn analysis_refusal(query: Seq<char>, count: u16, candidates: nat) -> Option<Seq<char>> {
    let q = trim(query);
    if q.len() == 0 || q.len() > 500 || !no_control(q) {
        Some("분석 요청은 한 줄 1자 이상 500자 이하여야 합니다."@)
    } else if !(60 <= count <= 500) {
        Some("분석 스냅샷 캔들은 60개에서 500개 사이여야 합니다."@)
    } else if candidates == 0 {
        Some("분석 요청에서 국장·미장 종목명 또는 티커를 확정하지 못했습니다."@)
    } else if candidates > 1 {
        Some("분석 요청에 국장·미장 종목이 함께 감지됐습니다. 공통 스냅샷은 한 종목씩 요청해 주세요."@)
    } else {
        None
    }
}

/// Checks the query (trimmed, one line of 1 to 500 characters) and the candle
/// count (60 to 500) of an analysis request.
pub fn validate_analysis_request(request: &AnalysisSnapshotRequest) -> (r: Result<String, String>)
    ensures
        match analysis_refusal(request.query@, request.count, 1) {
            Some(e) => r matches Err(m) && m@ == e,
            None => r matches Ok(q) && q@ == trim(request.query@),
        },
{
    let query = trimmed(request.query.as_str());
    let n = query.unicode_len();
    if n == 0 || n > 500 || !has_no_control(query.as_str()) {
        return Err("분석 요청은 한 줄 1자 이상 500자 이하여야 합니다.".to_owned());
    }
    if request.count < 60 || request.count > 500 {
        return Err("분석 스냅샷 캔들은 60개에서 500개 사이여야 합니다.".to_owned());
    }
    Ok(query)
}

/// The one stock an analysis is about: the request checked, then exactly one
/// candidate from the KR and US catalogs.
pub fn plan_analysis_snapshot(query: &str, count: u16, candidates: Vec<StockSearchResult>) -> (r: Result<
    StockSearchResult,
    String,
>)
    ensures
        match analysis_refusal(query@, count, candidates@.len()) {
            Some(e) => r matches Err(m) && m@ == e,
            None => r == Ok::<StockSearchResult, String>(candidates@[0]),
        },
{
    let request = AnalysisSnapshotRequest { query: query.to_owned(), count };
    validate_analysis_request(&request)?;
    if candidates.len() == 0 {
        return Err("분석 요청에서 국장·미장 종목명 또는 티커를 확정하지 못했습니다.".to_owned());
    }
    if candidates.len() > 1 {
        return Err("분석 요청에 국장·미장 종목이 함께 감지됐습니다. 공통 스냅샷은 한 종목씩 요청해 주세요.".to_owned());
    }
    let mut candidates = candidates;
    Ok(candidates.remove(0))
}

pub open spec fn completed_of(bars: Seq<TossChartBar>) -> Seq<TossChartBar> {
    bars.filter(|b: TossChartBar| b.completed)
}

/// The completed bars of a chart, in order; refused when there is none.
pub fn completed_bars(bars: Vec<TossChartBar>) -> (r: Result<Vec<TossChartBar>, String>)
    ensures
        completed_of(bars@).len() == 0 ==> (r matches Err(e) && e@ == "완료된 일봉이 없어 분석 스냅샷을 만들 수 없습니다."@),
        completed_of(bars@).len() > 0 ==> (r matches Ok(v) && v@ == completed_of(bars@)),
{
    let mut out: Vec<TossChartBar> = Vec::new();
    let mut rest = bars;
    let ghost all = rest@;
    let mut i: usize = 0;
    let n = rest.len();
    while i < n
        invariant
            n == all.len(),
            i <= n,
            rest@ == all.skip(i as int),
            out@ == all.take(i as int).filter(|b: TossChartBar| b.completed),
        decreases n - i,
    {
        let bar = rest.remove(0);
        proof {
            assert(all.take(i as int + 1).drop_last() =~= all.take(i as int));
            assert(all.take(i as int + 1).last() == bar);
            reveal(Seq::filter);
        }
        if bar.completed {
            out.push(bar);
        }
        proof {
            assert(rest@ =~= all.skip(i as int + 1));
        }
        i = i + 1;
    }
    assert(all.take(n as int) =~= all);
    if out.len() == 0 {
        return Err("완료된 일봉이 없어 분석 스냅샷을 만들 수 없습니다.".to_owned());
    }
    Ok(out)
}

/// What an official source returned for the analysis date.
#[derive(Debug, Clone)]
pub enum SecOutcome {
    /// Found, with how many items and which metrics it lacks.
    Found { item_count: usize, missing_metrics: Vec<String> },
    /// No SEC contact is registered.
    NotConfigured,
    /// The request failed.
    Failed,
}

#[derive(Debug, Clone, PartialEq, Eq)]
pub struct AnalysisDataAvailability {
    pub price: String,
    pub technical: String,
    pub fundamentals: String,
    pub filings: String,
    pub news: String,
    pub macro_supply: String,
}

/// The fundamentals' state and missing-data note.
pub open spec fn fundamentals_state(usd: bool, o: SecOutcome) -> (Seq<char>, Option<Seq<char>>) {
    if !usd {
        ("provider_not_connected"@, Some("국장 공식 재무 공급자 미연결"@))
    } else {
        match o {
            SecOutcome::Found { item_count, missing_metrics } => if item_count > 0 {
                (
                    "available"@,
                    if missing_metrics@.len() == 0 {
                        None
                    } else {
                        Some("SEC 일부 재무 항목 결측: "@ + joined(strings_view(missing_metrics@), ", "@))
                    },
                )
            } else {
                ("provider_no_point_in_time_data"@, Some("분석 기준일 이전 SEC 정기보고서 재무 항목이 없습니다."@))
            },
            SecOutcome::NotConfigured => ("provider_not_configured"@, Some("SEC 요청 연락처 미등록"@)),
            SecOutcome::Failed => ("provider_error"@, Some("SEC 공식 재무 조회 실패"@)),
        }
    }
}

/// The filings' state and missing-data note.
pub open spec fn filings_state(usd: bool, o: SecOutcome) -> (Seq<char>, Option<Seq<char>>) {
    if !usd {
        ("provider_not_connected"@, Some("국장 공식 공시 공급자 미연결"@))
    } else {
        match o {
            SecOutcome::Found { item_count, .. } => if item_count > 0 {
                ("available"@, None)
            } else {
                ("provider_no_point_in_time_data"@, Some("분석 기준일 이전 SEC 주요 공시가 없습니다."@))
            },
            SecOutcome::NotConfigured => ("provider_not_configured"@, Some("SEC 요청 연락처 미등록"@)),
            SecOutcome::Failed => ("provider_error"@, Some("SEC 공식 공시 조회 실패"@)),
        }
    }
}

pub open spec fn note_seq(o: Option<Seq<char>>) -> Seq<Seq<char>> {
    match o {
        Some(s) => seq![s],
        None => Seq::empty(),
    }
}

/// The missing-data list: the filings note, the fundamentals note, then the
/// news and flow/macro providers that are not connected.
pub open spec fn missing_data_of(usd: bool, fundamentals: SecOutcome, filings: SecOutcome) -> Seq<Seq<char>> {
    note_seq(filings_state(usd, filings).1) + note_seq(fundamentals_state(usd, fundamentals).1) + seq![
        "뉴스 공급자 미연결"@,
        "수급·거시 공급자 미연결"@,
    ]
}

fn fundamentals_of(usd: bool, o: &SecOutcome) -> (r: (&'static str, Option<String>))
    ensures
        r.0@ == fundamentals_state(usd, *o).0,
        match r.1 {
            Some(s) => fundamentals_state(usd, *o).1 == Some(s@),
            None => fundamentals_state(usd, *o).1 is None,
        },
{
    if !usd {
        return ("provider_not_connected", Some("국장 공식 재무 공급자 미연결".to_owned()));
    }
    match o {
        SecOutcome::Found { item_count, missing_metrics } => {
            if *item_count > 0 {
                if missing_metrics.len() == 0 {
                    ("available", None)
                } else {
                    let list = join_strings(missing_metrics, ", ");
                    ("available", Some(concat_str("SEC 일부 재무 항목 결측: ", list.as_str())))
                }
            } else {
                ("provider_no_point_in_time_data", Some("분석 기준일 이전 SEC 정기보고서 재무 항목이 없습니다.".to_owned()))
            }
        },
        SecOutcome::NotConfigured => ("provider_not_configured", Some("SEC 요청 연락처 미등록".to_owned())),
        SecOutcome::Failed => ("provider_error", Some("SEC 공식 재무 조회 실패".to_owned())),
    }
}

fn filings_of(usd: bool, o: &SecOutcome) -> (r: (&'static str, Option<String>))
    ensures
        r.0@ == filings_state(usd, *o).0,
        match r.1 {
            Some(s) => filings_state(usd, *o).1 == Some(s@),
            None => filings_state(usd, *o).1 is None,
        },
{
    if !usd {
        return ("provider_not_connected", Some("국장 공식 공시 공급자 미연결".to_owned()));
    }
    match o {
        SecOutcome::Found { item_count, .. } => {
            if *item_count > 0 {
                ("available", None)
            } else {
                ("provider_no_point_in_time_data", Some("분석 기준일 이전 SEC 주요 공시가 없습니다.".to_owned()))
            }
        },
        SecOutcome::NotConfigured => ("provider_not_configured", Some("SEC 요청 연락처 미등록".to_owned())),
        SecOutcome::Failed => ("provider_error", Some("SEC 공식 공시 조회 실패".to_owned())),
    }
}

/// What the snapshot can say it holds: price and technicals always; the
/// fundamentals and filings as the official sources answered (KR stocks have no
/// official source connected yet); news and flow/macro never; and the
/// missing-data list that goes with it.
pub fn analysis_availability(currency: &str, fundamentals: &SecOutcome, filings: &SecOutcome) -> (r: (
    AnalysisDataAvailability,
    Vec<String>,
))
    ensures
        ({
            let usd = currency@ == "USD"@;
            &&& r.0.price@ == "available"@
            &&& r.0.technical@ == "available"@
            &&& r.0.fundamentals@ == fundamentals_state(usd, *fundamentals).0
            &&& r.0.filings@ == filings_state(usd, *filings).0
            &&& r.0.news@ == "provider_not_connected"@
            &&& r.0.macro_supply@ == "provider_not_connected"@
            &&& strings_view(r.1@) == missing_data_of(usd, *fundamentals, *filings)
        }),
{
    let usd = str_eq(currency, "USD");
    let (fund_state, fund_missing) = fundamentals_of(usd, fundamentals);
    let (filing_state, filing_missing) = filings_of(usd, filings);
    let mut missing: Vec<String> = Vec::new();
    if let Some(m) = filing_missing {
        missing.push(m);
    }
    if let Some(m) = fund_missing {
        missing.push(m);
    }
    missing.push("뉴스 공급자 미연결".to_owned());
    missing.push("수급·거시 공급자 미연결".to_owned());
    proof {
        assert(strings_view(missing@) =~= missing_data_of(usd, *fundamentals, *filings));
    }
    (
        AnalysisDataAvailability {
            price: "available".to_owned(),
            technical: "available".to_owned(),
            fundamentals: fund_state.to_owned(),
            filings: filing_state.to_owned(),
            news: "provider_not_connected".to_owned(),
            macro_supply: "provider_not_connected".to_owned(),
        },
        missing,
    )
}

/// The snapshot id: `toss-`, the symbol, `-`, then the time it is as of.
pub fn analysis_snapshot_id(symbol: &str, as_of_ms: u64) -> (r: String)
    ensures
        r@ == "toss-"@ + symbol@ + "-"@ + decimal(as_of_ms as nat),
{
    let head = concat_str("toss-", symbol);
    let dashed = concat_str(head.as_str(), "-");
    let stamp = decimal_string(as_of_ms);
    concat_str(dashed.as_str(), stamp.as_str())
}

// ---------------------------------------------------------------- research backtests

/// Why a research backtest is refused before candles are fetched: 20 to 200
/// candles, and a report that passed its review.
pub open spec fn backtest_refusal(count: u16, report_executable: bool) -> Option<Seq<char>> {
    if !(20 <= count <= 200) {
        Some("캔들 조회 수는 20~200개여야 합니다."@)
    } else if !report_executable {
        Some("검증 오류나 미해결 항목이 있는 연구 보고서는 백테스트할 수 없습니다."@)
    } else {
        None
    }
}

pub fn check_backtest_request(count: u16, report_executable: bool) -> (r: Result<(), String>)
    ensures
        match backtest_refusal(count, report_executable) {
            Some(e) => r matches Err(m) && m@ == e,
            None => r is Ok,
        },
{
    if count < 20 || count > 200 {
        return Err("캔들 조회 수는 20~200개여야 합니다.".to_owned());
    }
    if !report_executable {
        return Err("검증 오류나 미해결 항목이 있는 연구 보고서는 백테스트할 수 없습니다.".to_owned());
    }
    Ok(())
}

/// The order quantity sized automatically: a fifth of the initial cash at the
/// first open, in quantity units, at least one.
pub open spec fn auto_quantity(initial_cash_minor: u64, quantity_scale: u64, first_open: u64) -> int {
    let q = ((initial_cash_minor / 5) as int * quantity_scale as int) / (first_open as int);
    if q < 1 {
        1
    } else {
        q
    }
}

pub fn automatic_order_quantity(initial_cash_minor: u64, quantity_scale: u64, first_open: Option<u64>) -> (r: Result<
    u64,
    String,
>)
    ensures
        match first_open {
            None => r matches Err(e) && e@ == "자동 주문 수량을 계산할 첫 시가가 없습니다."@,
            Some(o) => if o == 0 {
                r matches Err(e) && e@ == "자동 주문 수량을 계산할 첫 시가가 없습니다."@
            } else if ((initial_cash_minor / 5) as int * quantity_scale as int) / (o as int) > u64::MAX {
                r matches Err(e) && e@ == "자동 주문 수량 계산이 지원 범위를 초과했습니다."@
            } else {
                r matches Ok(q) && q == auto_quantity(initial_cash_minor, quantity_scale, o)
            },
        },
{
    let open = match first_open {
        Some(o) => o,
        None => return Err("자동 주문 수량을 계산할 첫 시가가 없습니다.".to_owned()),
    };
    if open == 0 {
        return Err("자동 주문 수량을 계산할 첫 시가가 없습니다.".to_owned());
    }
    let target = initial_cash_minor / 5;
    assert(target as int * quantity_scale as int <= u128::MAX) by (nonlinear_arith)
        requires
            target <= u64::MAX,
            quantity_scale <= u64::MAX,
    ;
    let scaled: u128 = (target as u128 * quantity_scale as u128) / open as u128;
    if scaled > u64::MAX as u128 {
        return Err("자동 주문 수량 계산이 지원 범위를 초과했습니다.".to_owned());
    }
    let q = scaled as u64;
    if q < 1 {
        Ok(1)
    } else {
        Ok(q)
    }
}

/// The warnings of a research backtest: always exploratory; the sized quantity
/// where it was sized automatically; one-minute bars too short; all costs zero.
pub open spec fn backtest_warnings_of(auto_quantity: Option<u64>, one_minute: bool, costs_all_zero: bool) -> Seq<Seq<char>> {
    seq!["최대 200개 최신 캔들만 사용하는 탐색 백테스트이며 성과 합격 판정은 하지 않습니다."@] + match auto_quantity {
        Some(q) => seq![
            "자동 연구 실행은 첫 시가 기준 초기 예수금의 20% 이내인 "@ + decimal(q as nat)
                + "주로 고정 수량을 산정했습니다."@,
        ],
        None => Seq::empty(),
    } + if one_minute {
        seq!["1분봉 200개는 약 3시간 20분의 짧은 구간이므로 강건성·승격 근거로 사용할 수 없습니다."@]
    } else {
        Seq::empty()
    } + if costs_all_zero {
        seq!["거래 비용이 모두 0bp입니다. 실제 비용을 입력하기 전 결과를 승격 근거로 사용할 수 없습니다."@]
    } else {
        Seq::empty()
    }
}

pub fn backtest_warnings(auto_quantity: Option<u64>, one_minute: bool, costs_all_zero: bool) -> (r: Vec<String>)
    ensures
        strings_view(r@) == backtest_warnings_of(auto_quantity, one_minute, costs_all_zero),
{
    let mut warnings: Vec<String> = Vec::new();
    warnings.push("최대 200개 최신 캔들만 사용하는 탐색 백테스트이며 성과 합격 판정은 하지 않습니다.".to_owned());
    if let Some(q) = auto_quantity {
        let head = concat_str("자동 연구 실행은 첫 시가 기준 초기 예수금의 20% 이내인 ", decimal_string(q).as_str());
        warnings.push(concat_str(head.as_str(), "주로 고정 수량을 산정했습니다."));
    }
    if one_minute {
        warnings.push("1분봉 200개는 약 3시간 20분의 짧은 구간이므로 강건성·승격 근거로 사용할 수 없습니다.".to_owned());
    }
    if costs_all_zero {
        warnings.push("거래 비용이 모두 0bp입니다. 실제 비용을 입력하기 전 결과를 승격 근거로 사용할 수 없습니다.".to_owned());
    }
    proof {
        assert(strings_view(warnings@) =~= backtest_warnings_of(auto_quantity, one_minute, costs_all_zero));
    }
    warnings
}

/// A research backtest request, as far as its decisions read it. The research
/// report and the trading costs travel beside it: the report's review gives
/// `report_executable`, the costs give `costs_all_zero`.
#[derive(Debug, Clone)]
pub struct TossBacktestRequest {
    pub requested_at_ms: Option<u64>,
    pub interval: crate::market::CandleInterval,
    pub count: u16,
    pub adjusted: bool,
    /// The configured order quantity; 0 asks for automatic sizing.
    pub order_quantity: u64,
    pub initial_cash_minor: u64,
    pub quantity_scale: u64,
}

/// The order quantity a research backtest runs with: the configured one, or,
/// where none is configured, the one sized from the first open.
pub fn research_order_quantity(request: &TossBacktestRequest, first_open: Option<u64>) -> (r: Result<u64, String>)
    ensures
        request.order_quantity != 0 ==> r == Ok::<u64, String>(request.order_quantity),
        request.order_quantity == 0 ==> match first_open {
            None => r matches Err(e) && e@ == "자동 주문 수량을 계산할 첫 시가가 없습니다."@,
            Some(o) => if o == 0 {
                r matches Err(e) && e@ == "자동 주문 수량을 계산할 첫 시가가 없습니다."@
            } else if ((request.initial_cash_minor / 5) as int * request.quantity_scale as int) / (o as int)
                > u64::MAX {
                r matches Err(e) && e@ == "자동 주문 수량 계산이 지원 범위를 초과했습니다."@
            } else {
                r matches Ok(q) && q == auto_quantity(request.initial_cash_minor, request.quantity_scale, o)
            },
        },
{
    if request.order_quantity != 0 {
        return Ok(request.order_quantity);
    }
    automatic_order_quantity(request.initial_cash_minor, request.quantity_scale, first_open)
}

/// The warnings of a research backtest run on `request` with `order_quantity`.
pub fn research_backtest_warnings(request: &TossBacktestRequest, order_quantity: u64, costs_all_zero: bool) -> (r: Vec<
    String,
>)
    ensures
        strings_view(r@) == backtest_warnings_of(
            if request.order_quantity == 0 {
                Some(order_quantity)
            } else {
                None
            },
            request.interval == crate::market::CandleInterval::OneMinute,
            costs_all_zero,
        ),
{
    let auto = if request.order_quantity == 0 {
        Some(order_quantity)
    } else {
        None
    };
    let one_minute = match request.interval {
        crate::market::CandleInterval::OneMinute => true,
        crate::market::CandleInterval::OneDay => false,
    };
    backtest_warnings(auto, one_minute, costs_all_zero)
}

} // verus!
