//! Governance records: audit events free of secrets, de-duplicated operational
//! alerts with acknowledgement, and the health report that gates automated
//! trading on every critical component being healthy.
use vstd::prelude::*;
use crate::text::{all_ws, ascii_lower, chars_of, contains, contains_chars, is_blank, to_ascii_lower_chars};

verus! {

#[derive(Debug, Clone)]
pub struct AuditEvent {
    pub event_id: String,
    pub actor: String,
    pub action: String,
    pub target_id: String,
    pub previous_hash: Option<String>,
    pub next_hash: Option<String>,
    pub correlation_id: String,
    pub occurred_at_ms: u64,
    pub detail: String,
}

/// The markers that betray a credential in free text, matched case-insensitively.
pub open spec fn secret_markers() -> Seq<Seq<char>> {
    seq![
        "client_secret"@,
        "api_secret"@,
        "access_token"@,
        "authorization:"@,
        "password="@,
        "private_key"@,
    ]
}

pub open spec fn has_secret_marker(s: Seq<char>) -> bool {
    exists|i: int| 0 <= i < secret_markers().len() && contains(ascii_lower(s), #[trigger] secret_markers()[i])
}

/// Whether the ASCII-lowercased text contains any secret marker.
pub fn contains_secret_marker(value: &str) -> (r: bool)
    ensures
        r == has_secret_marker(value@),
{
    let lower = to_ascii_lower_chars(value);
    let markers: [&str; 6] = [
        "client_secret",
        "api_secret",
        "access_token",
        "authorization:",
        "password=",
        "private_key",
    ];
    assert(markers@.map_values(|m: &str| m@) =~= secret_markers());
    let mut i: usize = 0;
    while i < 6
        invariant
            i <= 6,
            lower@ == ascii_lower(value@),
            markers@.map_values(|m: &str| m@) == secret_markers(),
            forall|k: int| 0 <= k < i ==> !contains(ascii_lower(value@), #[trigger] secret_markers()[k]),
        decreases 6 - i,
    {
        let pattern = chars_of(markers[i]);
        assert(secret_markers()[i as int] == markers@[i as int]@);
        if contains_chars(&lower, &pattern) {
            return true;
        }
        i = i + 1;
    }
    false
}

pub open spec fn audit_event_ok(e: AuditEvent) -> bool {
    &&& !all_ws(e.event_id@)
    &&& !all_ws(e.actor@)
    &&& !all_ws(e.action@)
    &&& !all_ws(e.target_id@)
    &&& !all_ws(e.correlation_id@)
    &&& e.occurred_at_ms != 0
    &&& !has_secret_marker(e.detail@)
}

/// An audit event names its actor, action, target and correlation, has a time,
/// and carries no credential in its detail.
pub fn validate_audit_event(event: &AuditEvent) -> (r: Result<(), String>)
    ensures
        r is Ok <==> audit_event_ok(*event),
        r matches Err(e) ==> e@ == if all_ws(event.event_id@) || all_ws(event.actor@) || all_ws(event.action@)
            || all_ws(event.target_id@) || all_ws(event.correlation_id@) || event.occurred_at_ms == 0 {
            "감사 사건에는 행위자·시각·대상·상관 ID가 필요합니다."@
        } else {
            "감사 로그에는 API 키·토큰·비밀번호를 기록할 수 없습니다."@
        },
{
    if is_blank(event.event_id.as_str()) || is_blank(event.actor.as_str()) || is_blank(
        event.action.as_str(),
    ) || is_blank(event.target_id.as_str()) || is_blank(event.correlation_id.as_str())
        || event.occurred_at_ms == 0 {
        return Err("감사 사건에는 행위자·시각·대상·상관 ID가 필요합니다.".to_owned());
    }
    if contains_secret_marker(event.detail.as_str()) {
        return Err("감사 로그에는 API 키·토큰·비밀번호를 기록할 수 없습니다.".to_owned());
    }
    Ok(())
}

#[derive(Debug, Clone, Copy, PartialEq, Eq, Structural)]
pub enum AlertSeverity {
    Info,
    Warning,
    Critical,
}

#[derive(Debug, Clone)]
pub struct OperationalAlert {
    pub alert_id: String,
    pub deduplication_key: String,
    pub severity: AlertSeverity,
    pub message: String,
    pub first_seen_at_ms: u64,
    pub last_seen_at_ms: u64,
    pub occurrence_count: u64,
    pub acknowledged_at_ms: Option<u64>,
    pub response: Option<String>,
}

pub open spec fn alert_ok(a: OperationalAlert) -> bool {
    &&& !all_ws(a.alert_id@)
    &&& !all_ws(a.deduplication_key@)
    &&& !all_ws(a.message@)
    &&& a.first_seen_at_ms != 0
    &&& a.last_seen_at_ms >= a.first_seen_at_ms
}

/// `a.saturating_sub(b)`.
pub open spec fn sat_sub(a: u64, b: u64) -> int {
    if a > b {
        a - b
    } else {
        0
    }
}

/// The incoming alert repeats `previous`: same key, and it started no later than
/// `window_ms` after the previous one was last seen.
pub open spec fn repeats_alert(previous: OperationalAlert, incoming: OperationalAlert, window_ms: u64) -> bool {
    previous.deduplication_key@ == incoming.deduplication_key@ && sat_sub(
        incoming.first_seen_at_ms,
        previous.last_seen_at_ms,
    ) <= window_ms
}

/// Validates an incoming alert and folds it into `existing` when it repeats it:
/// the first-seen time carries over, the count grows by one (saturating) and
/// any acknowledgement is cleared so the repeat is seen again.
pub fn merge_alert(
    existing: Option<&OperationalAlert>,
    incoming: OperationalAlert,
    deduplication_window_ms: u64,
) -> (r: Result<OperationalAlert, String>)
    ensures
        r is Ok <==> alert_ok(incoming),
        r matches Err(e) ==> e@ == "운영 알림 계약이 올바르지 않습니다."@,
        r matches Ok(a) ==> {
            let folded = existing matches Some(p) && repeats_alert(*p, incoming, deduplication_window_ms);
            &&& a.alert_id == incoming.alert_id
            &&& a.deduplication_key == incoming.deduplication_key
            &&& a.severity == incoming.severity
            &&& a.message == incoming.message
            &&& a.last_seen_at_ms == incoming.last_seen_at_ms
            &&& folded ==> {
                &&& a.first_seen_at_ms == existing->0.first_seen_at_ms
                &&& a.occurrence_count == if existing->0.occurrence_count == u64::MAX {
                    u64::MAX as int
                } else {
                    existing->0.occurrence_count + 1
                }
                &&& a.acknowledged_at_ms is None
                &&& a.response is None
            }
            &&& !folded ==> a == incoming
        },
{
    if is_blank(incoming.alert_id.as_str()) || is_blank(incoming.deduplication_key.as_str())
        || is_blank(incoming.message.as_str()) || incoming.first_seen_at_ms == 0
        || incoming.last_seen_at_ms < incoming.first_seen_at_ms {
        return Err("운영 알림 계약이 올바르지 않습니다.".to_owned());
    }
    let mut merged = incoming;
    match existing {
        Some(previous) => {
            let gap = if merged.first_seen_at_ms > previous.last_seen_at_ms {
                merged.first_seen_at_ms - previous.last_seen_at_ms
            } else {
                0
            };
            if crate::text::str_eq(
                previous.deduplication_key.as_str(),
                merged.deduplication_key.as_str(),
            ) && gap <= deduplication_window_ms {
                merged.first_seen_at_ms = previous.first_seen_at_ms;
                merged.occurrence_count = if previous.occurrence_count == u64::MAX {
                    u64::MAX
                } else {
                    previous.occurrence_count + 1
                };
                merged.acknowledged_at_ms = None;
                merged.response = None;
            }
        },
        None => {},
    }
    Ok(merged)
}

pub open spec fn acknowledgement_ok(alert: OperationalAlert, acknowledged_at_ms: u64, response: Seq<char>) -> bool {
    &&& !(alert.severity == AlertSeverity::Critical && all_ws(response))
    &&& acknowledged_at_ms >= alert.last_seen_at_ms
}

/// Records an acknowledgement: a critical alert needs a written response, and an
/// alert cannot be acknowledged before it was last seen.
pub fn acknowledge_alert(alert: &mut OperationalAlert, acknowledged_at_ms: u64, response: &str) -> (r:
    Result<(), String>)
    ensures
        r is Ok <==> acknowledgement_ok(*old(alert), acknowledged_at_ms, response@),
        r is Ok ==> {
            &&& final(alert).acknowledged_at_ms == Some(acknowledged_at_ms)
            &&& final(alert).response matches Some(text) && text@ == response@
            &&& final(alert).alert_id == old(alert).alert_id
            &&& final(alert).deduplication_key == old(alert).deduplication_key
            &&& final(alert).severity == old(alert).severity
            &&& final(alert).message == old(alert).message
            &&& final(alert).first_seen_at_ms == old(alert).first_seen_at_ms
            &&& final(alert).last_seen_at_ms == old(alert).last_seen_at_ms
            &&& final(alert).occurrence_count == old(alert).occurrence_count
        },
        r is Err ==> *final(alert) == *old(alert),
{
    if alert.severity == AlertSeverity::Critical && is_blank(response) {
        return Err("치명 알림은 대응 내용을 기록해야 합니다.".to_owned());
    }
    if acknowledged_at_ms < alert.last_seen_at_ms {
        return Err("알림 발생 이전 시각으로 확인 처리할 수 없습니다.".to_owned());
    }
    alert.acknowledged_at_ms = Some(acknowledged_at_ms);
    alert.response = Some(response.to_owned());
    Ok(())
}

#[derive(Debug, Clone)]
pub struct HealthComponent {
    pub component_id: String,
    pub critical: bool,
    pub healthy: bool,
    pub last_success_at_ms: Option<u64>,
    pub retry_action: String,
    pub detail: String,
}

#[derive(Debug, Clone)]
pub struct HealthReport {
    pub generated_at_ms: u64,
    pub automated_trading_ready: bool,
    pub components: Vec<HealthComponent>,
}

pub open spec fn component_ok(c: HealthComponent) -> bool {
    &&& !all_ws(c.component_id@)
    &&& !all_ws(c.retry_action@)
    &&& !has_secret_marker(c.detail@)
}

/// Automated trading is ready when no critical component is unhealthy.
pub open spec fn trading_ready(components: Seq<HealthComponent>) -> bool {
    forall|i: int| 0 <= i < components.len() ==> !(#[trigger] components[i]).critical || components[i].healthy
}

pub fn copy_component(c: &HealthComponent) -> (r: HealthComponent)
    ensures
        r == *c,
{
    HealthComponent {
        component_id: c.component_id.clone(),
        critical: c.critical,
        healthy: c.healthy,
        last_success_at_ms: c.last_success_at_ms,
        retry_action: c.retry_action.clone(),
        detail: c.detail.clone(),
    }
}

/// Builds the health report over named, secret-free components.
pub fn build_health_report(generated_at_ms: u64, components: &Vec<HealthComponent>) -> (r: Result<
    HealthReport,
    String,
>)
    ensures
        r is Ok <==> generated_at_ms != 0 && components.len() > 0 && forall|i: int|
            0 <= i < components.len() ==> component_ok(#[trigger] components@[i]),
        r matches Err(e) ==> e@ == "비밀정보를 제거한 유효한 상태 구성요소가 필요합니다."@,
        r matches Ok(rep) ==> {
            &&& rep.generated_at_ms == generated_at_ms
            &&& rep.automated_trading_ready == trading_ready(components@)
            &&& rep.components@ == components@
        },
{
    if generated_at_ms == 0 || components.len() == 0 {
        return Err("비밀정보를 제거한 유효한 상태 구성요소가 필요합니다.".to_owned());
    }
    let mut copied: Vec<HealthComponent> = Vec::new();
    let mut ready = true;
    let mut i: usize = 0;
    while i < components.len()
        invariant
            i <= components.len(),
            forall|k: int| 0 <= k < i ==> component_ok(#[trigger] components@[k]),
            copied@ == components@.subrange(0, i as int),
            ready == forall|k: int|
                0 <= k < i ==> !(#[trigger] components@[k]).critical || components@[k].healthy,
        decreases components.len() - i,
    {
        let c = &components[i];
        if is_blank(c.component_id.as_str()) || is_blank(c.retry_action.as_str())
            || contains_secret_marker(c.detail.as_str()) {
            return Err("비밀정보를 제거한 유효한 상태 구성요소가 필요합니다.".to_owned());
        }
        ready = ready && (!c.critical || c.healthy);
        copied.push(copy_component(c));
        assert(copied@ =~= components@.subrange(0, i as int + 1));
        i = i + 1;
    }
    assert(components@.subrange(0, components.len() as int) =~= components@);
    Ok(HealthReport { generated_at_ms, automated_trading_ready: ready, components: copied })
}

} // verus!
