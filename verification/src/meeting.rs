//! The hand-off from a completed meeting analysis to paper-trading validation:
//! which meetings may be handed off, the status a hand-off shows from its linked
//! records, and the golden-path audit from analysis to the internal paper ledger.
//! A hand-off never enables live orders.
use vstd::prelude::*;
use crate::aggregation::copy_string as copy_text;
use crate::text::{concat_str, is_ascii_digit, is_ascii_upper, str_eq, trim, trimmed, valid_ident, valid_identifier};

verus! {

#[derive(Debug, Clone)]
pub struct MeetingPaperHandoffPrepareRequest {
    pub workflow_job_id: String,
}

#[derive(Debug, Clone)]
pub struct MeetingPaperHandoffFinalizeRequest {
    pub workflow_job_id: String,
    pub experiment_id: String,
}

#[derive(Debug, Clone)]
pub struct MeetingPaperHandoff {
    pub handoff_id: String,
    pub workflow_job_id: String,
    pub analysis_record_id: String,
    pub symbol: String,
    pub strategy: String,
    pub experiment_id: Option<String>,
    pub paper_candidate_id: Option<String>,
    pub engine_run_id: Option<String>,
    pub status: String,
    pub blocker: Option<String>,
    pub created_at_ms: u64,
    pub updated_at_ms: u64,
    pub live_order_enabled: bool,
}

#[derive(Debug, Clone, PartialEq, Eq)]
pub struct GoldenPathStage {
    pub id: String,
    pub label: String,
    pub status: String,
    pub detail: String,
}

#[derive(Debug, Clone)]
pub struct GoldenPathAudit {
    pub workflow_job_id: String,
    pub handoff_id: String,
    pub status: String,
    pub stages: Vec<GoldenPathStage>,
    pub checked_at_ms: u64,
    pub live_order_enabled: bool,
}

/// A stored hand-off row.
#[derive(Debug, Clone)]
pub struct StoredHandoff {
    pub handoff_id: String,
    pub workflow_job_id: String,
    pub analysis_record_id: String,
    pub symbol: String,
    pub strategy: String,
    pub experiment_id: Option<String>,
    pub paper_candidate_id: Option<String>,
    pub engine_run_id: Option<String>,
    pub created_at_ms: u64,
    pub updated_at_ms: u64,
}

pub open spec fn id_ok(s: Seq<char>) -> bool {
    valid_ident(s, 128, true)
}

pub fn valid_id(value: &str) -> (r: bool)
    ensures
        r == id_ok(value@),
{
    valid_identifier(value, 128, true)
}

pub open spec fn is_symbol_char(c: char) -> bool {
    is_ascii_upper(c) || is_ascii_digit(c) || c == '.' || c == '-'
}

/// A single-listing code: 1 to 32 characters of `[A-Z0-9.-]`.
pub open spec fn symbol_ok(s: Seq<char>) -> bool {
    0 < s.len() <= 32 && forall|i: int| 0 <= i < s.len() ==> is_symbol_char(#[trigger] s[i])
}

pub fn valid_symbol(value: &str) -> (r: bool)
    ensures
        r == symbol_ok(value@),
{
    let n = value.unicode_len();
    if n == 0 || n > 32 {
        return false;
    }
    let mut i: usize = 0;
    while i < n
        invariant
            n == value@.len(),
            i <= n,
            forall|k: int| 0 <= k < i ==> is_symbol_char(#[trigger] value@[k]),
        decreases n - i,
    {
        let c = value.get_char(i);
        if !(('A' <= c && c <= 'Z') || ('0' <= c && c <= '9') || c == '.' || c == '-') {
            return false;
        }
        i = i + 1;
    }
    true
}

// ---------------------------------------------------------------- preparing a hand-off

/// The backtest recommendation of a meeting synthesis, as read from it.
#[derive(Debug, Clone)]
pub struct BacktestRecommendation {
    pub required: Option<bool>,
    pub symbol: Option<String>,
    pub strategy: Option<String>,
}

/// The parts of a meeting synthesis a hand-off depends on.
#[derive(Debug, Clone)]
pub struct MeetingSynthesis {
    pub decision: Option<String>,
    pub recommendation: Option<BacktestRecommendation>,
}

/// What a prepared hand-off records.
#[derive(Debug, Clone)]
pub struct HandoffDraft {
    pub handoff_id: String,
    pub analysis_record_id: String,
    pub symbol: String,
    pub strategy: String,
}

pub open spec fn strategy_ok(s: Seq<char>) -> bool {
    trim(s).len() > 0 && trim(s).len() <= 500
}

/// Why a meeting may not be handed off, if anything.
pub open spec fn prepare_refused(job_id: Seq<char>, status: Seq<char>, synthesis: Option<MeetingSynthesis>) -> bool {
    ||| !id_ok(job_id)
    ||| status != "completed"@
    ||| synthesis is None
    ||| !(synthesis->0.decision matches Some(d) && d@ == "paper_candidate"@)
    ||| synthesis->0.recommendation is None
    ||| synthesis->0.recommendation->0.required != Some(true)
    ||| !(synthesis->0.recommendation->0.symbol matches Some(s) && symbol_ok(s@))
    ||| !(synthesis->0.recommendation->0.strategy matches Some(s) && strategy_ok(s@))
}

/// Decides whether a meeting can be handed off to paper validation: a completed
/// meeting judged a paper candidate with a required backtest of one valid symbol
/// and a described strategy. The draft carries the derived ids and the trimmed
/// strategy.
pub fn prepare_handoff(job_id: &str, status: &str, synthesis: Option<MeetingSynthesis>) -> (r: Result<
    HandoffDraft,
    String,
>)
    ensures
        r is Ok <==> !prepare_refused(job_id@, status@, synthesis),
        r matches Ok(d) ==> {
            &&& d.handoff_id@ == "meeting-handoff:"@ + job_id@
            &&& d.analysis_record_id@ == "analysis-"@ + job_id@
            &&& d.symbol@ == synthesis->0.recommendation->0.symbol->0@
            &&& d.strategy@ == trim(synthesis->0.recommendation->0.strategy->0@)
        },
{
    if !valid_id(job_id) {
        return Err("유효한 회의 작업 ID가 필요합니다.".to_owned());
    }
    if !str_eq(status, "completed") {
        return Err("완료된 회의만 모의투자 검증으로 인계할 수 있습니다.".to_owned());
    }
    let synthesis = match synthesis {
        Some(s) => s,
        None => {
            return Err("회의 종합 보고가 저장되지 않았습니다.".to_owned());
        },
    };
    let candidate = match &synthesis.decision {
        Some(d) => str_eq(d.as_str(), "paper_candidate"),
        None => false,
    };
    if !candidate {
        return Err("모의투자 후보로 판정된 회의만 검증 단계로 인계할 수 있습니다.".to_owned());
    }
    let recommendation = match &synthesis.recommendation {
        Some(rec) => rec,
        None => {
            return Err("회의 종합 보고에 백테스트 권고가 없습니다.".to_owned());
        },
    };
    if recommendation.required != Some(true) {
        return Err("필수 백테스트가 지정되지 않은 회의는 주문 후보로 인계할 수 없습니다.".to_owned());
    }
    let symbol = match &recommendation.symbol {
        Some(s) => {
            if !valid_symbol(s.as_str()) {
                return Err("검증 가능한 단일 종목 코드가 필요합니다.".to_owned());
            }
            s.clone()
        },
        None => {
            return Err("검증 가능한 단일 종목 코드가 필요합니다.".to_owned());
        },
    };
    let strategy = match &recommendation.strategy {
        Some(s) => {
            let t = trimmed(s.as_str());
            if t.unicode_len() == 0 || t.unicode_len() > 500 {
                return Err("검증 가능한 전략 설명이 필요합니다.".to_owned());
            }
            t
        },
        None => {
            return Err("검증 가능한 전략 설명이 필요합니다.".to_owned());
        },
    };
    Ok(
        HandoffDraft {
            handoff_id: concat_str("meeting-handoff:", job_id),
            analysis_record_id: concat_str("analysis-", job_id),
            symbol,
            strategy,
        },
    )
}

// ---------------------------------------------------------------- effective status

/// What the linked engine run looked like: its status, whether it produced a
/// candidate, the blockers its report lists, and the status of its order candidate.
#[derive(Debug, Clone)]
pub struct EngineRunLookup {
    pub status: String,
    pub candidate_ready: bool,
    pub blockers: Vec<String>,
    pub candidate_status: Option<String>,
}

/// The record a hand-off's status is read from, the first of its links that is set:
/// the paper candidate, else the shadow watch of the backtest, else the engine run.
#[derive(Debug, Clone)]
pub enum LinkedRecord {
    PaperCandidate(Option<String>),
    ShadowWatch(Option<(String, Option<String>)>),
    EngineRun(Option<EngineRunLookup>),
    Unlinked,
}

/// Whether `link` is the lookup that the hand-off's links call for.
pub open spec fn link_matches(stored: StoredHandoff, link: LinkedRecord) -> bool {
    if stored.paper_candidate_id is Some {
        link is PaperCandidate
    } else if stored.experiment_id is Some {
        link is ShadowWatch
    } else if stored.engine_run_id is Some {
        link is EngineRun
    } else {
        link is Unlinked
    }
}

/// `parts` joined with `sep` between them.
pub open spec fn joined(parts: Seq<Seq<char>>, sep: Seq<char>) -> Seq<char>
    decreases parts.len(),
{
    if parts.len() == 0 {
        Seq::empty()
    } else if parts.len() == 1 {
        parts[0]
    } else {
        joined(parts.drop_last(), sep) + sep + parts.last()
    }
}

pub open spec fn strings_view(v: Seq<String>) -> Seq<Seq<char>> {
    v.map_values(|s: String| s@)
}

/// The status and blocker a hand-off shows, from its linked record.
pub open spec fn handoff_status(link: LinkedRecord) -> (Seq<char>, Option<Seq<char>>) {
    match link {
        LinkedRecord::PaperCandidate(Some(status)) => (status@, None),
        LinkedRecord::PaperCandidate(None) => (
            "interrupted"@,
            Some("연결된 모의주문 후보를 찾지 못해 복구가 필요합니다."@),
        ),
        LinkedRecord::ShadowWatch(Some((status, last_error))) => if status@ == "watching"@ {
            ("watching_signal"@, None)
        } else {
            match last_error {
                Some(error) => ("blocked"@, Some(error@)),
                None => (status@, None),
            }
        },
        LinkedRecord::ShadowWatch(None) => (
            "backtest_completed"@,
            Some("백테스트는 저장됐지만 섀도우 감시가 시작되지 않았습니다."@),
        ),
        LinkedRecord::EngineRun(None) => (
            "interrupted"@,
            Some("연결된 엔진 실행을 찾지 못해 복구가 필요합니다."@),
        ),
        LinkedRecord::EngineRun(Some(run)) => if !run.candidate_ready {
            (
                run.status@,
                Some(
                    if run.blockers.len() == 0 {
                        "결정론적 엔진 게이트를 통과하지 못했습니다."@
                    } else {
                        joined(strings_view(run.blockers@), " · "@)
                    },
                ),
            )
        } else {
            match run.candidate_status {
                Some(status) => (status@, None),
                None => ("candidate_ready"@, None),
            }
        },
        LinkedRecord::Unlinked => (
            "awaiting_backtest"@,
            Some("회의 분석에서 지원 전략 계약을 만들고 탐색 백테스트를 실행해야 합니다."@),
        ),
    }
}

pub open spec fn opt_view(o: Option<String>) -> Option<Seq<char>> {
    match o {
        Some(s) => Some(s@),
        None => None,
    }
}

/// `parts.join(sep)`.
pub fn join_strings(parts: &Vec<String>, sep: &str) -> (r: String)
    ensures
        r@ == joined(strings_view(parts@), sep@),
{
    if parts.len() == 0 {
        return String::new();
    }
    let mut out = parts[0].clone();
    let mut i: usize = 1;
    assert(strings_view(parts@).subrange(0, 1) =~= seq![parts@[0]@]);
    while i < parts.len()
        invariant
            1 <= i <= parts.len(),
            out@ == joined(strings_view(parts@).subrange(0, i as int), sep@),
        decreases parts.len() - i,
    {
        let with_sep = concat_str(out.as_str(), sep);
        out = concat_str(with_sep.as_str(), parts[i].as_str());
        proof {
            let next = strings_view(parts@).subrange(0, i as int + 1);
            assert(next.drop_last() =~= strings_view(parts@).subrange(0, i as int));
            assert(next.last() == parts@[i as int]@);
        }
        i = i + 1;
    }
    assert(strings_view(parts@).subrange(0, parts.len() as int) =~= strings_view(parts@));
    out
}

/// The hand-off as shown: the stored row with the status and blocker read from its
/// linked record; live orders are never enabled.
pub fn effective_status(stored: StoredHandoff, link: LinkedRecord) -> (r: MeetingPaperHandoff)
    requires
        link_matches(stored, link),
    ensures
        r.handoff_id == stored.handoff_id,
        r.workflow_job_id == stored.workflow_job_id,
        r.analysis_record_id == stored.analysis_record_id,
        r.symbol == stored.symbol,
        r.strategy == stored.strategy,
        r.experiment_id == stored.experiment_id,
        r.paper_candidate_id == stored.paper_candidate_id,
        r.engine_run_id == stored.engine_run_id,
        r.created_at_ms == stored.created_at_ms,
        r.updated_at_ms == stored.updated_at_ms,
        (r.status@, opt_view(r.blocker)) == handoff_status(link),
        !r.live_order_enabled,
{
    let (status, blocker): (String, Option<String>) = match link {
        LinkedRecord::PaperCandidate(Some(status)) => (status, None),
        LinkedRecord::PaperCandidate(None) => (
            "interrupted".to_owned(),
            Some("연결된 모의주문 후보를 찾지 못해 복구가 필요합니다.".to_owned()),
        ),
        LinkedRecord::ShadowWatch(Some((status, last_error))) => {
            if str_eq(status.as_str(), "watching") {
                ("watching_signal".to_owned(), None)
            } else {
                match last_error {
                    Some(error) => ("blocked".to_owned(), Some(error)),
                    None => (status, None),
                }
            }
        },
        LinkedRecord::ShadowWatch(None) => (
            "backtest_completed".to_owned(),
            Some("백테스트는 저장됐지만 섀도우 감시가 시작되지 않았습니다.".to_owned()),
        ),
        LinkedRecord::EngineRun(None) => (
            "interrupted".to_owned(),
            Some("연결된 엔진 실행을 찾지 못해 복구가 필요합니다.".to_owned()),
        ),
        LinkedRecord::EngineRun(Some(run)) => {
            if !run.candidate_ready {
                let blocker = if run.blockers.len() == 0 {
                    "결정론적 엔진 게이트를 통과하지 못했습니다.".to_owned()
                } else {
                    join_strings(&run.blockers, " · ")
                };
                (run.status, Some(blocker))
            } else {
                match run.candidate_status {
                    Some(status) => (status, None),
                    None => ("candidate_ready".to_owned(), None),
                }
            }
        },
        LinkedRecord::Unlinked => (
            "awaiting_backtest".to_owned(),
            Some("회의 분석에서 지원 전략 계약을 만들고 탐색 백테스트를 실행해야 합니다.".to_owned()),
        ),
    };
    MeetingPaperHandoff {
        handoff_id: stored.handoff_id,
        workflow_job_id: stored.workflow_job_id,
        analysis_record_id: stored.analysis_record_id,
        symbol: stored.symbol,
        strategy: stored.strategy,
        experiment_id: stored.experiment_id,
        paper_candidate_id: stored.paper_candidate_id,
        engine_run_id: stored.engine_run_id,
        status,
        blocker,
        created_at_ms: stored.created_at_ms,
        updated_at_ms: stored.updated_at_ms,
        live_order_enabled: false,
    }
}

// ---------------------------------------------------------------- golden-path audit

/// One evidence entry of a backtest record: its kind and source URL, where they
/// are strings.
#[derive(Debug, Clone)]
pub struct EvidenceRef {
    pub kind: Option<String>,
    pub source_url: Option<String>,
}

/// The linked backtest: its symbol and the evidence its report cites.
#[derive(Debug, Clone)]
pub struct BacktestLineage {
    pub symbol: String,
    pub evidence: Vec<EvidenceRef>,
}

/// The order candidate reached from the hand-off, with its status and currency.
#[derive(Debug, Clone)]
pub struct CandidateLookup {
    pub candidate_id: String,
    pub status: String,
    pub currency: String,
}

/// The immutable analysis record a backtest must cite.
pub open spec fn analysis_source(analysis_record_id: Seq<char>) -> Seq<char> {
    "investa://analysis/"@ + analysis_record_id
}

pub open spec fn cites(e: EvidenceRef, source: Seq<char>) -> bool {
    &&& e.kind matches Some(k) && k@ == "local_analysis"@
    &&& e.source_url matches Some(u) && u@ == source
}

/// The backtest is linked, on the hand-off's symbol, and cites its analysis record.
pub open spec fn backtest_lineage_ok(stored: StoredHandoff, backtest: Option<BacktestLineage>) -> bool {
    &&& stored.experiment_id is Some
    &&& backtest matches Some(b)
    &&& b.symbol@ == stored.symbol@
    &&& exists|i: int|
        0 <= i < b.evidence.len() && cites(#[trigger] b.evidence@[i], analysis_source(stored.analysis_record_id@))
}

pub open spec fn safety_status(s: Seq<char>) -> bool {
    s == "safety_approved"@ || s == "user_approved"@ || s == "submitted"@ || s == "partially_filled"@
        || s == "filled"@
}

pub open spec fn approved_status(s: Seq<char>) -> bool {
    s == "user_approved"@ || s == "submitted"@ || s == "partially_filled"@ || s == "filled"@
}

pub type StageModel = (Seq<char>, Seq<char>, Seq<char>, Seq<char>);

pub open spec fn stage_model(s: GoldenPathStage) -> StageModel {
    (s.id@, s.label@, s.status@, s.detail@)
}

/// The five stages of the golden path, in order: the analysis record, the
/// backtest lineage, the safety-gated candidate, the user's approval and the
/// internal ledger fill. A stage passes, fails, waits (`pending`) or is `blocked`
/// behind an earlier one.
pub open spec fn golden_stages(
    stored: StoredHandoff,
    analysis_ok: bool,
    backtest: Option<BacktestLineage>,
    candidate: Option<CandidateLookup>,
    ledger_has_fill: bool,
) -> Seq<StageModel> {
    let lineage = backtest_lineage_ok(stored, backtest);
    let safety = candidate matches Some(c) && safety_status(c.status@);
    let approved = candidate matches Some(c) && approved_status(c.status@);
    let filled = candidate matches Some(c) && c.status@ == "filled"@ && ledger_has_fill;
    seq![
        (
            "analysis"@,
            "불변 분석 기록"@,
            if analysis_ok { "passed"@ } else { "failed"@ },
            if analysis_ok {
                stored.analysis_record_id@ + " 기록이 완료 상태로 보존됩니다."@
            } else {
                "완료된 회의 분석 기록이 없거나 종류가 일치하지 않습니다."@
            },
        ),
        (
            "backtest"@,
            "시점 정합 백테스트"@,
            if lineage {
                "passed"@
            } else if stored.experiment_id is Some {
                "failed"@
            } else {
                "pending"@
            },
            if lineage {
                stored.experiment_id->0@ + " 실험이 분석 근거 ID와 종목을 정확히 참조합니다."@
            } else if stored.experiment_id is Some {
                "연결된 백테스트의 종목 또는 불변 분석 근거 계보가 일치하지 않습니다."@
            } else {
                "회의 이후 실행한 백테스트 연결을 기다립니다."@
            },
        ),
        (
            "safety"@,
            "결정론적 안전 후보"@,
            if safety {
                "passed"@
            } else if candidate is Some {
                "failed"@
            } else {
                "pending"@
            },
            match candidate {
                None => "백테스트 통과 후 안전 게이트가 만든 모의후보를 기다립니다."@,
                Some(c) => c.candidate_id@ + " · 현재 상태 "@ + c.status@,
            },
        ),
        (
            "user_approval"@,
            "사용자 명시 승인"@,
            if approved {
                "passed"@
            } else if safety {
                "pending"@
            } else {
                "blocked"@
            },
            if approved {
                "로컬 사용자의 승인 상태 전이가 확인됐습니다."@
            } else {
                "AI 판단만으로 체결하지 않으며 로컬 사용자 승인을 기다립니다."@
            },
        ),
        (
            "ledger"@,
            "내부 불변 모의원장"@,
            if filled {
                "passed"@
            } else if approved {
                "pending"@
            } else {
                "blocked"@
            },
            if filled {
                "후보 ID와 같은 멱등키의 내부 모의체결이 불변 원장에서 재생됩니다."@
            } else {
                "실전 전송 없이 내부 모의체결 및 원장 재생 확인을 기다립니다."@
            },
        ),
    ]
}

/// `failed` if any stage failed, `passed` if all passed, else `pending`.
pub open spec fn golden_status(stages: Seq<StageModel>) -> Seq<char> {
    if exists|i: int| 0 <= i < stages.len() && (#[trigger] stages[i]).2 == "failed"@ {
        "failed"@
    } else if forall|i: int| 0 <= i < stages.len() ==> (#[trigger] stages[i]).2 == "passed"@ {
        "passed"@
    } else {
        "pending"@
    }
}

fn stage(id: &str, label: &str, status: &str, detail: String) -> (r: GoldenPathStage)
    ensures
        stage_model(r) == (id@, label@, status@, detail@),
{
    GoldenPathStage { id: id.to_owned(), label: label.to_owned(), status: status.to_owned(), detail }
}

fn cites_exec(e: &EvidenceRef, source: &str) -> (r: bool)
    ensures
        r == cites(*e, source@),
{
    let kind_ok = match &e.kind {
        Some(k) => str_eq(k.as_str(), "local_analysis"),
        None => false,
    };
    let url_ok = match &e.source_url {
        Some(u) => str_eq(u.as_str(), source),
        None => false,
    };
    kind_ok && url_ok
}

fn lineage_exec(stored: &StoredHandoff, backtest: &Option<BacktestLineage>) -> (r: bool)
    ensures
        r == backtest_lineage_ok(*stored, *backtest),
{
    if stored.experiment_id.is_none() {
        return false;
    }
    match backtest {
        None => false,
        Some(b) => {
            if !str_eq(b.symbol.as_str(), stored.symbol.as_str()) {
                return false;
            }
            let source = concat_str("investa://analysis/", stored.analysis_record_id.as_str());
            let mut i: usize = 0;
            while i < b.evidence.len()
                invariant
                    i <= b.evidence.len(),
                    source@ == analysis_source(stored.analysis_record_id@),
                    stored.experiment_id is Some,
                    *backtest == Some(*b),
                    b.symbol@ == stored.symbol@,
                    forall|k: int| 0 <= k < i ==> !cites(#[trigger] b.evidence@[k], source@),
                decreases b.evidence.len() - i,
            {
                if cites_exec(&b.evidence[i], source.as_str()) {
                    assert(cites(b.evidence@[i as int], analysis_source(stored.analysis_record_id@)));
                    assert(backtest_lineage_ok(*stored, *backtest)) by {
                        let bb = backtest->0;
                        assert(bb == *b);
                        assert(cites(bb.evidence@[i as int], analysis_source(stored.analysis_record_id@)));
                    }
                    return true;
                }
                i = i + 1;
            }
            false
        },
    }
}

fn status_in(s: &str, safety: bool) -> (r: bool)
    ensures
        safety ==> r == safety_status(s@),
        !safety ==> r == approved_status(s@),
{
    (safety && str_eq(s, "safety_approved")) || str_eq(s, "user_approved") || str_eq(s, "submitted")
        || str_eq(s, "partially_filled") || str_eq(s, "filled")
}

/// Audits a hand-off's path from analysis to the internal paper ledger, from what
/// was read for it: whether the analysis record is complete, the linked backtest,
/// the candidate reached, and whether the paper ledger replays a fill under the
/// candidate's id. Refused for an invalid job id or a job with no hand-off.
pub fn golden_path_audit(
    workflow_job_id: &str,
    stored: Option<StoredHandoff>,
    analysis_ok: bool,
    backtest: Option<BacktestLineage>,
    candidate: Option<CandidateLookup>,
    ledger_has_fill: bool,
    checked_at_ms: u64,
) -> (r: Result<GoldenPathAudit, String>)
    ensures
        r is Ok <==> id_ok(workflow_job_id@) && stored is Some,
        r matches Err(e) ==> e@ == if !id_ok(workflow_job_id@) {
            "유효한 회의 작업 ID가 필요합니다."@
        } else {
            "분석→모의원장 인계 기록이 없습니다."@
        },
        r matches Ok(a) ==> {
            let s = stored->0;
            let stages = golden_stages(s, analysis_ok, backtest, candidate, ledger_has_fill);
            &&& a.workflow_job_id == s.workflow_job_id
            &&& a.handoff_id == s.handoff_id
            &&& a.stages@.map_values(|g: GoldenPathStage| stage_model(g)) == stages
            &&& a.status@ == golden_status(stages)
            &&& a.checked_at_ms == checked_at_ms
            &&& !a.live_order_enabled
        },
{
    if !valid_id(workflow_job_id) {
        return Err("유효한 회의 작업 ID가 필요합니다.".to_owned());
    }
    let stored = match stored {
        Some(s) => s,
        None => {
            return Err("분석→모의원장 인계 기록이 없습니다.".to_owned());
        },
    };
    let lineage = lineage_exec(&stored, &backtest);
    let (safety, approved, filled) = match &candidate {
        Some(c) => (
            status_in(c.status.as_str(), true),
            status_in(c.status.as_str(), false),
            str_eq(c.status.as_str(), "filled") && ledger_has_fill,
        ),
        None => (false, false, false),
    };
    let mut stages: Vec<GoldenPathStage> = Vec::new();
    stages.push(
        stage(
            "analysis",
            "불변 분석 기록",
            if analysis_ok { "passed" } else { "failed" },
            if analysis_ok {
                concat_str(stored.analysis_record_id.as_str(), " 기록이 완료 상태로 보존됩니다.")
            } else {
                "완료된 회의 분석 기록이 없거나 종류가 일치하지 않습니다.".to_owned()
            },
        ),
    );
    let has_experiment = stored.experiment_id.is_some();
    let backtest_detail = if lineage {
        let experiment = match &stored.experiment_id {
            Some(e) => e.clone(),
            None => String::new(),
        };
        concat_str(experiment.as_str(), " 실험이 분석 근거 ID와 종목을 정확히 참조합니다.")
    } else if has_experiment {
        "연결된 백테스트의 종목 또는 불변 분석 근거 계보가 일치하지 않습니다.".to_owned()
    } else {
        "회의 이후 실행한 백테스트 연결을 기다립니다.".to_owned()
    };
    stages.push(
        stage(
            "backtest",
            "시점 정합 백테스트",
            if lineage {
                "passed"
            } else if has_experiment {
                "failed"
            } else {
                "pending"
            },
            backtest_detail,
        ),
    );
    let safety_detail = match &candidate {
        None => "백테스트 통과 후 안전 게이트가 만든 모의후보를 기다립니다.".to_owned(),
        Some(c) => {
            let head = concat_str(c.candidate_id.as_str(), " · 현재 상태 ");
            concat_str(head.as_str(), c.status.as_str())
        },
    };
    stages.push(
        stage(
            "safety",
            "결정론적 안전 후보",
            if safety {
                "passed"
            } else if candidate.is_some() {
                "failed"
            } else {
                "pending"
            },
            safety_detail,
        ),
    );
    stages.push(
        stage(
            "user_approval",
            "사용자 명시 승인",
            if approved {
                "passed"
            } else if safety {
                "pending"
            } else {
                "blocked"
            },
            if approved {
                "로컬 사용자의 승인 상태 전이가 확인됐습니다.".to_owned()
            } else {
                "AI 판단만으로 체결하지 않으며 로컬 사용자 승인을 기다립니다.".to_owned()
            },
        ),
    );
    stages.push(
        stage(
            "ledger",
            "내부 불변 모의원장",
            if filled {
                "passed"
            } else if approved {
                "pending"
            } else {
                "blocked"
            },
            if filled {
                "후보 ID와 같은 멱등키의 내부 모의체결이 불변 원장에서 재생됩니다.".to_owned()
            } else {
                "실전 전송 없이 내부 모의체결 및 원장 재생 확인을 기다립니다.".to_owned()
            },
        ),
    );
    let ghost models = stages@.map_values(|g: GoldenPathStage| stage_model(g));
    assert(models =~= golden_stages(stored, analysis_ok, backtest, candidate, ledger_has_fill));
    let mut any_failed = false;
    let mut all_passed = true;
    let mut i: usize = 0;
    while i < stages.len()
        invariant
            i <= stages.len(),
            models == stages@.map_values(|g: GoldenPathStage| stage_model(g)),
            any_failed == exists|k: int| 0 <= k < i && (#[trigger] models[k]).2 == "failed"@,
            all_passed == forall|k: int| 0 <= k < i ==> (#[trigger] models[k]).2 == "passed"@,
        decreases stages.len() - i,
    {
        let f = str_eq(stages[i].status.as_str(), "failed");
        let p = str_eq(stages[i].status.as_str(), "passed");
        assert(models[i as int].2 == stages@[i as int].status@);
        any_failed = any_failed || f;
        all_passed = all_passed && p;
        i = i + 1;
    }
    let status = if any_failed {
        "failed"
    } else if all_passed {
        "passed"
    } else {
        "pending"
    };
    Ok(
        GoldenPathAudit {
            workflow_job_id: stored.workflow_job_id,
            handoff_id: stored.handoff_id,
            status: status.to_owned(),
            stages,
            checked_at_ms,
            live_order_enabled: false,
        },
    )
}


// ---------------------------------------------------------------- linking a backtest

/// What a stored backtest record says, once its JSON is read.
#[derive(Debug, Clone)]
pub struct BacktestRecordFacts {
    /// `review.executable`, where it is a boolean.
    pub executable: Option<bool>,
    /// `report.evidence`, where it is an array.
    pub evidence: Option<Vec<EvidenceRef>>,
}

/// A stored backtest run, as far as linking it to a hand-off reads it.
#[derive(Debug)]
pub struct BacktestRunFacts {
    pub symbol: String,
    pub currency: String,
    pub created_at_ms: u64,
    /// The record, or why its JSON could not be read.
    pub record: Result<BacktestRecordFacts, String>,
}

pub open spec fn record_cites(r: BacktestRecordFacts, source: Seq<char>) -> bool {
    r.evidence matches Some(ev) && exists|i: int| 0 <= i < ev.len() && cites(#[trigger] ev@[i], source)
}

/// The first refusal of linking a backtest to a hand-off, or the hand-off id.
pub open spec fn backtest_link(
    request: MeetingPaperHandoffFinalizeRequest,
    stored: Option<StoredHandoff>,
    run: Option<BacktestRunFacts>,
) -> Result<Seq<char>, Seq<char>> {
    if !id_ok(request.workflow_job_id@) || !id_ok(request.experiment_id@) {
        Err("유효한 회의 작업 ID와 백테스트 실험 ID가 필요합니다."@)
    } else if stored is None {
        Err("먼저 회의 분석을 백테스트 단계로 인계해 주세요."@)
    } else if stored->0.experiment_id matches Some(x) && x@ != request.experiment_id@ {
        Err("하나의 회의 인계에 다른 백테스트 실험을 덮어쓸 수 없습니다."@)
    } else if run is None {
        Err("완료된 백테스트 기록을 찾지 못했습니다."@)
    } else if run->0.currency@ != "KRW"@ {
        Err("현재 회의 자동 섀도우 후보 연결은 KRW 내부 모의원장만 지원합니다."@)
    } else if run->0.symbol@ != stored->0.symbol@ || run->0.created_at_ms < stored->0.created_at_ms {
        Err("회의 인계 이후 같은 종목으로 실행한 백테스트만 연결할 수 있습니다."@)
    } else if run->0.record is Err {
        Err("백테스트 기록을 해석하지 못했습니다: "@ + run->0.record->Err_0@)
    } else if run->0.record->Ok_0.executable != Some(true) {
        Err("실행 가능 계약 검증을 통과한 백테스트만 연결할 수 있습니다."@)
    } else if !record_cites(run->0.record->Ok_0, analysis_source(stored->0.analysis_record_id@)) {
        Err("백테스트가 이 회의의 불변 분석 기록을 근거로 참조하지 않습니다."@)
    } else {
        Ok(stored->0.handoff_id@)
    }
}

/// Checks that a backtest may be linked to the meeting's hand-off: the one
/// experiment of the hand-off, in KRW, on its symbol, run after it, executable,
/// and citing the meeting's analysis record. Gives the hand-off id to update.
pub fn link_backtest(
    request: &MeetingPaperHandoffFinalizeRequest,
    stored: Option<&StoredHandoff>,
    run: Option<&BacktestRunFacts>,
) -> (r: Result<String, String>)
    ensures
        match backtest_link(
            *request,
            match stored {
                Some(s) => Some(*s),
                None => None,
            },
            match run {
                Some(b) => Some(*b),
                None => None,
            },
        ) {
            Ok(id) => r matches Ok(x) && x@ == id,
            Err(e) => r matches Err(x) && x@ == e,
        },
{
    if !valid_id(request.workflow_job_id.as_str()) || !valid_id(request.experiment_id.as_str()) {
        return Err("유효한 회의 작업 ID와 백테스트 실험 ID가 필요합니다.".to_owned());
    }
    let stored = match stored {
        Some(s) => s,
        None => {
            return Err("먼저 회의 분석을 백테스트 단계로 인계해 주세요.".to_owned());
        },
    };
    if let Some(x) = &stored.experiment_id {
        if !str_eq(x.as_str(), request.experiment_id.as_str()) {
            return Err("하나의 회의 인계에 다른 백테스트 실험을 덮어쓸 수 없습니다.".to_owned());
        }
    }
    let run = match run {
        Some(b) => b,
        None => {
            return Err("완료된 백테스트 기록을 찾지 못했습니다.".to_owned());
        },
    };
    if !str_eq(run.currency.as_str(), "KRW") {
        return Err("현재 회의 자동 섀도우 후보 연결은 KRW 내부 모의원장만 지원합니다.".to_owned());
    }
    if !str_eq(run.symbol.as_str(), stored.symbol.as_str()) || run.created_at_ms < stored.created_at_ms {
        return Err("회의 인계 이후 같은 종목으로 실행한 백테스트만 연결할 수 있습니다.".to_owned());
    }
    let record = match &run.record {
        Err(e) => {
            return Err(concat_str("백테스트 기록을 해석하지 못했습니다: ", e.as_str()));
        },
        Ok(record) => record,
    };
    match record.executable {
        Some(true) => {},
        _ => {
            return Err("실행 가능 계약 검증을 통과한 백테스트만 연결할 수 있습니다.".to_owned());
        },
    }
    let source = concat_str("investa://analysis/", stored.analysis_record_id.as_str());
    let mut cited = false;
    if let Some(evidence) = &record.evidence {
        let mut i: usize = 0;
        while i < evidence.len()
            invariant
                i <= evidence@.len(),
                cited <==> exists|k: int| 0 <= k < i && cites(#[trigger] evidence@[k], source@),
            decreases evidence.len() - i,
        {
            if cites_exec(&evidence[i], source.as_str()) {
                cited = true;
            }
            i = i + 1;
        }
    }
    if !cited {
        return Err("백테스트가 이 회의의 불변 분석 기록을 근거로 참조하지 않습니다.".to_owned());
    }
    Ok(copy_text(&stored.handoff_id))
}


// ---------------------------------------------------------------- linking engine runs

/// A hand-off that no engine run is linked to yet.
#[derive(Debug, Clone)]
pub struct PendingHandoff {
    pub handoff_id: String,
    pub analysis_record_id: String,
    pub symbol: String,
}

/// A completed, candidate-ready engine run, as far as its input is read.
#[derive(Debug, Clone)]
pub struct EngineRunFacts {
    pub run_id: String,
    /// `tradePlan.symbol` of the input, where it is a string.
    pub trade_symbol: Option<String>,
    /// The string entries of the input's `analysisIds`.
    pub analysis_ids: Vec<String>,
}

pub open spec fn run_serves(run: EngineRunFacts, p: PendingHandoff) -> bool {
    &&& run.trade_symbol matches Some(s) && s@ == p.symbol@
    &&& exists|k: int| 0 <= k < run.analysis_ids.len() && (#[trigger] run.analysis_ids@[k])@ == p.analysis_record_id@
}

/// The first run, in the given order, that serves the hand-off.
pub open spec fn first_serving(runs: Seq<EngineRunFacts>, p: PendingHandoff, j: int) -> Option<int>
    decreases runs.len() - j,
{
    if j < 0 || j >= runs.len() {
        None
    } else if run_serves(runs[j], p) {
        Some(j)
    } else {
        first_serving(runs, p, j + 1)
    }
}

pub open spec fn run_taken(links: Seq<(Seq<char>, Seq<char>)>, linked: Seq<Seq<char>>, run_id: Seq<char>) -> bool {
    linked.contains(run_id) || exists|k: int| 0 <= k < links.len() && (#[trigger] links[k]).1 == run_id
}

/// The (hand-off, run) links made for the first `n` pending hand-offs, in
/// order: each takes the first run that serves it, unless that run is already
/// linked, in which case it stays pending.
pub open spec fn engine_links(
    pending: Seq<PendingHandoff>,
    runs: Seq<EngineRunFacts>,
    linked: Seq<Seq<char>>,
    n: int,
) -> Seq<(Seq<char>, Seq<char>)>
    decreases n,
{
    if n <= 0 {
        Seq::empty()
    } else {
        let prev = engine_links(pending, runs, linked, n - 1);
        let p = pending[n - 1];
        match first_serving(runs, p, 0) {
            None => prev,
            Some(j) => if run_taken(prev, linked, runs[j].run_id@) {
                prev
            } else {
                prev.push((p.handoff_id@, runs[j].run_id@))
            },
        }
    }
}

/// A link `l` joins one of the first `n` pending hand-offs to one of `runs`
/// whose trade symbol is the hand-off's symbol and whose analysis ids include
/// the hand-off's analysis record.
pub open spec fn link_is_justified(
    pending: Seq<PendingHandoff>,
    runs: Seq<EngineRunFacts>,
    n: int,
    l: (Seq<char>, Seq<char>),
) -> bool {
    exists|i: int, j: int|
        #![trigger pending[i], runs[j]]
        0 <= i < n && 0 <= j < runs.len() && l.0 == pending[i].handoff_id@ && l.1 == runs[j].run_id@
            && (runs[j].trade_symbol matches Some(s) && s@ == pending[i].symbol@) && exists|k: int|
            0 <= k < runs[j].analysis_ids.len() && (#[trigger] runs[j].analysis_ids@[k])@
                == pending[i].analysis_record_id@
}

proof fn lemma_first_serving_serves(runs: Seq<EngineRunFacts>, p: PendingHandoff, j: int)
    requires
        0 <= j,
        first_serving(runs, p, j) is Some,
    ensures
        j <= first_serving(runs, p, j)->0 < runs.len(),
        run_serves(runs[first_serving(runs, p, j)->0], p),
    decreases runs.len() - j,
{
    if j < runs.len() && !run_serves(runs[j], p) {
        lemma_first_serving_serves(runs, p, j + 1);
    }
}

/// The run trades the hand-off's symbol and was made for its analysis record.
pub open spec fn run_made_for(run: EngineRunFacts, p: PendingHandoff) -> bool {
    &&& run.trade_symbol is Some
    &&& run.trade_symbol->0@ == p.symbol@
    &&& run.analysis_ids@.map_values(|x: String| x@).contains(p.analysis_record_id@)
}

proof fn lemma_made_for_serves(run: EngineRunFacts, p: PendingHandoff)
    ensures
        run_made_for(run, p) <==> run_serves(run, p),
{
    let v = run.analysis_ids@.map_values(|x: String| x@);
    if run_made_for(run, p) {
        let k = choose|k: int| 0 <= k < v.len() && v[k] == p.analysis_record_id@;
        assert(run.analysis_ids@[k]@ == p.analysis_record_id@);
    }
    if run_serves(run, p) {
        let k = choose|k: int| 0 <= k < run.analysis_ids.len() && (#[trigger] run.analysis_ids@[k])@ == p.analysis_record_id@;
        assert(v[k] == p.analysis_record_id@);
    }
}

proof fn lemma_first_serving_found(runs: Seq<EngineRunFacts>, p: PendingHandoff, j: int, w: int)
    requires
        0 <= j <= w < runs.len(),
        run_serves(runs[w], p),
    ensures
        first_serving(runs, p, j) is Some,
    decreases w - j,
{
    if !run_serves(runs[j], p) {
        lemma_first_serving_found(runs, p, j + 1, w);
    }
}

/// A hand-off for which some run was made is linked, unless a run made for it
/// was already linked before, or is linked to another hand-off: where every
/// run made for it is free of both, the hand-off is linked.
pub proof fn lemma_engine_links_are_complete(
    pending: Seq<PendingHandoff>,
    runs: Seq<EngineRunFacts>,
    linked: Seq<Seq<char>>,
    n: int,
    i: int,
)
    requires
        0 <= i < n <= pending.len(),
        exists|j: int| 0 <= j < runs.len() && run_made_for(#[trigger] runs[j], pending[i]),
        forall|j: int|
            0 <= j < runs.len() && run_made_for(#[trigger] runs[j], pending[i]) ==> !linked.contains(
                runs[j].run_id@,
            ) && forall|x: int|
                0 <= x < engine_links(pending, runs, linked, n).len() && (#[trigger] engine_links(
                    pending,
                    runs,
                    linked,
                    n,
                )[x]).1 == runs[j].run_id@ ==> engine_links(pending, runs, linked, n)[x].0
                    == pending[i].handoff_id@,
    ensures
        exists|x: int|
            0 <= x < engine_links(pending, runs, linked, n).len() && (#[trigger] engine_links(
                pending,
                runs,
                linked,
                n,
            )[x]).0 == pending[i].handoff_id@,
    decreases n,
{
    let prev = engine_links(pending, runs, linked, n - 1);
    let cur = engine_links(pending, runs, linked, n);
    let p = pending[n - 1];
    assert(cur == prev || (cur.len() == prev.len() + 1 && cur.subrange(0, prev.len() as int) == prev)) by {
        match first_serving(runs, p, 0) {
            None => {},
            Some(j) => {
                if !run_taken(prev, linked, runs[j].run_id@) {
                    assert(cur.subrange(0, prev.len() as int) =~= prev);
                }
            },
        }
    }
    assert forall|x: int| 0 <= x < prev.len() implies #[trigger] cur[x] == prev[x] by {
        if cur != prev {
            assert(cur.subrange(0, prev.len() as int)[x] == cur[x]);
        }
    }
    if i < n - 1 {
        lemma_engine_links_are_complete(pending, runs, linked, n - 1, i);
        let x = choose|x: int| 0 <= x < prev.len() && (#[trigger] prev[x]).0 == pending[i].handoff_id@;
        assert(cur[x] == prev[x]);
    } else {
        let w = choose|j: int| 0 <= j < runs.len() && run_made_for(#[trigger] runs[j], pending[i]);
        lemma_made_for_serves(runs[w], p);
        lemma_first_serving_found(runs, p, 0, w);
        lemma_first_serving_serves(runs, p, 0);
        let j0 = first_serving(runs, p, 0)->0;
        lemma_made_for_serves(runs[j0], p);
        assert(run_made_for(runs[j0], pending[i]));
        if run_taken(prev, linked, runs[j0].run_id@) {
            assert(!linked.contains(runs[j0].run_id@));
            let k = choose|k: int| 0 <= k < prev.len() && (#[trigger] prev[k]).1 == runs[j0].run_id@;
            assert(cur[k] == prev[k]);
        } else {
            assert(cur == prev.push((p.handoff_id@, runs[j0].run_id@)));
            assert(cur[prev.len() as int].0 == pending[i].handoff_id@);
        }
    }
}

/// Every link made for the first `n` hand-offs joins a hand-off to a run made
/// for it: the run trades the hand-off's symbol and was made for its analysis
/// record. No run already linked is linked again, and no run twice.
pub proof fn lemma_engine_links_are_justified(
    pending: Seq<PendingHandoff>,
    runs: Seq<EngineRunFacts>,
    linked: Seq<Seq<char>>,
    n: int,
)
    requires
        0 <= n <= pending.len(),
    ensures
        forall|x: int|
            0 <= x < engine_links(pending, runs, linked, n).len() ==> link_is_justified(
                pending,
                runs,
                n,
                #[trigger] engine_links(pending, runs, linked, n)[x],
            ),
        forall|x: int|
            0 <= x < engine_links(pending, runs, linked, n).len() ==> !linked.contains(
                (#[trigger] engine_links(pending, runs, linked, n)[x]).1,
            ),
        forall|x: int, y: int|
            0 <= x < y < engine_links(pending, runs, linked, n).len() ==> (#[trigger] engine_links(
                pending,
                runs,
                linked,
                n,
            )[x]).1 != (#[trigger] engine_links(pending, runs, linked, n)[y]).1,
    decreases n,
{
    if n > 0 {
        lemma_engine_links_are_justified(pending, runs, linked, n - 1);
        let prev = engine_links(pending, runs, linked, n - 1);
        let cur = engine_links(pending, runs, linked, n);
        let p = pending[n - 1];
        assert forall|x: int| 0 <= x < prev.len() implies link_is_justified(pending, runs, n, #[trigger] prev[x]) by {
            assert(link_is_justified(pending, runs, n - 1, prev[x]));
            let (i, j) = choose|i: int, j: int|
                #![trigger pending[i], runs[j]]
                0 <= i < n - 1 && 0 <= j < runs.len() && prev[x].0 == pending[i].handoff_id@ && prev[x].1
                    == runs[j].run_id@ && (runs[j].trade_symbol matches Some(s) && s@ == pending[i].symbol@)
                    && exists|k: int|
                    0 <= k < runs[j].analysis_ids.len() && (#[trigger] runs[j].analysis_ids@[k])@
                        == pending[i].analysis_record_id@;
            assert(pending[i] == pending[i] && runs[j] == runs[j]);
        }
        match first_serving(runs, p, 0) {
            None => {},
            Some(j) => {
                if !run_taken(prev, linked, runs[j].run_id@) {
                    lemma_first_serving_serves(runs, p, 0);
                    assert(cur == prev.push((p.handoff_id@, runs[j].run_id@)));
                    assert(run_serves(runs[j], p));
                    assert(link_is_justified(pending, runs, n, cur[prev.len() as int])) by {
                        assert(pending[n - 1] == p && runs[j] == runs[j]);
                    }
                    assert forall|x: int| 0 <= x < cur.len() implies link_is_justified(
                        pending,
                        runs,
                        n,
                        #[trigger] cur[x],
                    ) by {
                        if x < prev.len() {
                            assert(cur[x] == prev[x]);
                        }
                    }
                    assert forall|x: int, y: int| 0 <= x < y < cur.len() implies (#[trigger] cur[x]).1 != (
                    #[trigger] cur[y]).1 by {
                        if y < prev.len() {
                            assert(cur[x] == prev[x] && cur[y] == prev[y]);
                        } else {
                            assert(cur[x] == prev[x]);
                            assert(!(exists|k: int| 0 <= k < prev.len() && (#[trigger] prev[k]).1 == runs[j].run_id@));
                        }
                    }
                    assert forall|x: int| 0 <= x < cur.len() implies !linked.contains((#[trigger] cur[x]).1) by {
                        if x < prev.len() {
                            assert(cur[x] == prev[x]);
                        }
                    }
                }
            },
        }
    }
}

fn serves_exec(run: &EngineRunFacts, p: &PendingHandoff) -> (r: bool)
    ensures
        r == run_serves(*run, *p),
{
    let symbol_ok = match &run.trade_symbol {
        Some(s) => str_eq(s.as_str(), p.symbol.as_str()),
        None => false,
    };
    if !symbol_ok {
        return false;
    }
    let mut k: usize = 0;
    while k < run.analysis_ids.len()
        invariant
            k <= run.analysis_ids@.len(),
            (run.trade_symbol matches Some(s) && s@ == p.symbol@),
            forall|m: int| 0 <= m < k ==> (#[trigger] run.analysis_ids@[m])@ != p.analysis_record_id@,
        decreases run.analysis_ids.len() - k,
    {
        if str_eq(run.analysis_ids[k].as_str(), p.analysis_record_id.as_str()) {
            assert(run.analysis_ids@[k as int]@ == p.analysis_record_id@);
            return true;
        }
        k = k + 1;
    }
    false
}

fn first_serving_exec(runs: &Vec<EngineRunFacts>, p: &PendingHandoff) -> (r: Option<usize>)
    ensures
        r matches Some(j) ==> j < runs@.len(),
        match r {
            Some(j) => first_serving(runs@, *p, 0) == Some(j as int),
            None => first_serving(runs@, *p, 0) is None,
        },
{
    let mut j: usize = runs.len();
    let mut found: Option<usize> = None;
    while j > 0
        invariant
            j <= runs@.len(),
            found matches Some(x) ==> x < runs@.len(),
            match found {
                Some(x) => first_serving(runs@, *p, j as int) == Some(x as int),
                None => first_serving(runs@, *p, j as int) is None,
            },
        decreases j,
    {
        j = j - 1;
        if serves_exec(&runs[j], p) {
            found = Some(j);
        }
    }
    found
}

fn taken_exec(links: &Vec<(String, String)>, linked: &Vec<String>, run_id: &str) -> (r: bool)
    ensures
        r == run_taken(
            links@.map_values(|l: (String, String)| (l.0@, l.1@)),
            linked@.map_values(|x: String| x@),
            run_id@,
        ),
{
    let ghost lv = links@.map_values(|l: (String, String)| (l.0@, l.1@));
    let ghost kv = linked@.map_values(|x: String| x@);
    let mut i: usize = 0;
    while i < linked.len()
        invariant
            i <= linked@.len(),
            kv == linked@.map_values(|x: String| x@),
            forall|m: int| 0 <= m < i ==> (#[trigger] linked@[m])@ != run_id@,
        decreases linked.len() - i,
    {
        if str_eq(linked[i].as_str(), run_id) {
            assert(kv[i as int] == run_id@);
            return true;
        }
        i = i + 1;
    }
    assert(!kv.contains(run_id@)) by {
        if kv.contains(run_id@) {
            let m = choose|m: int| 0 <= m < kv.len() && kv[m] == run_id@;
            assert(linked@[m]@ == kv[m]);
        }
    }
    let mut k: usize = 0;
    while k < links.len()
        invariant
            k <= links@.len(),
            lv == links@.map_values(|l: (String, String)| (l.0@, l.1@)),
            forall|m: int| 0 <= m < k ==> (#[trigger] links@[m]).1@ != run_id@,
        decreases links.len() - k,
    {
        if str_eq(links[k].1.as_str(), run_id) {
            assert(lv[k as int].1 == run_id@);
            return true;
        }
        k = k + 1;
    }
    assert forall|m: int| 0 <= m < lv.len() implies (#[trigger] lv[m]).1 != run_id@ by {
        assert(lv[m].1 == links@[m].1@);
    }
    false
}

/// Pairs pending hand-offs with the engine runs that carry out their plan
/// (see [`engine_links`]); `linked` lists the runs already linked to a hand-off.
pub fn reconcile_engine_links(
    pending: &Vec<PendingHandoff>,
    runs: &Vec<EngineRunFacts>,
    linked: &Vec<String>,
) -> (r: Vec<(String, String)>)
    ensures
        r@.map_values(|l: (String, String)| (l.0@, l.1@)) == engine_links(
            pending@,
            runs@,
            linked@.map_values(|x: String| x@),
            pending@.len() as int,
        ),
        forall|x: int|
            0 <= x < r@.len() ==> link_is_justified(
                pending@,
                runs@,
                pending@.len() as int,
                ((#[trigger] r@[x]).0@, r@[x].1@),
            ),
{
    let ghost kv = linked@.map_values(|x: String| x@);
    let mut links: Vec<(String, String)> = Vec::new();
    let mut i: usize = 0;
    while i < pending.len()
        invariant
            i <= pending@.len(),
            kv == linked@.map_values(|x: String| x@),
            links@.map_values(|l: (String, String)| (l.0@, l.1@)) == engine_links(pending@, runs@, kv, i as int),
        decreases pending.len() - i,
    {
        let ghost before = links@;
        let p = &pending[i];
        match first_serving_exec(runs, p) {
            None => {},
            Some(j) => {
                if !taken_exec(&links, linked, runs[j].run_id.as_str()) {
                    links.push((copy_text(&p.handoff_id), copy_text(&runs[j].run_id)));
                    proof {
                        assert(links@.map_values(|l: (String, String)| (l.0@, l.1@)) =~= before.map_values(
                            |l: (String, String)| (l.0@, l.1@),
                        ).push((p.handoff_id@, runs@[j as int].run_id@)));
                    }
                }
            },
        }
        i = i + 1;
    }
    proof {
        lemma_engine_links_are_justified(pending@, runs@, kv, pending@.len() as int);
        let lv = links@.map_values(|l: (String, String)| (l.0@, l.1@));
        assert forall|x: int| 0 <= x < links@.len() implies link_is_justified(
            pending@,
            runs@,
            pending@.len() as int,
            ((#[trigger] links@[x]).0@, links@[x].1@),
        ) by {
            assert(lv[x] == (links@[x].0@, links@[x].1@));
        }
    }
    links
}

} // verus!
