use investa::governance::{
    acknowledge_alert, build_health_report, contains_secret_marker, merge_alert, validate_audit_event,
    AlertSeverity, AuditEvent, HealthComponent, OperationalAlert,
};

#[test]
fn audit_rejects_secret_material() {
    let event = AuditEvent {
        event_id: "audit-1".to_owned(),
        actor: "local_user".to_owned(),
        action: "update".to_owned(),
        target_id: "risk-v1".to_owned(),
        previous_hash: None,
        next_hash: Some("hash".to_owned()),
        correlation_id: "trace-1".to_owned(),
        occurred_at_ms: 1,
        detail: "client_secret=plain".to_owned(),
    };
    assert!(validate_audit_event(&event).is_err());
}

#[test]
fn critical_health_failure_disables_automated_trading_readiness() {
    let report = build_health_report(
        10,
        &vec![HealthComponent {
            component_id: "ledger".to_owned(),
            critical: true,
            healthy: false,
            last_success_at_ms: Some(1),
            retry_action: "원장 대사 재실행".to_owned(),
            detail: "원장 불일치".to_owned(),
        }],
    )
    .expect("health");
    assert!(!report.automated_trading_ready);
}

#[test]
fn secret_markers_match_case_insensitively() {
    assert!(contains_secret_marker("Authorization: Bearer x"));
    assert!(contains_secret_marker("PRIVATE_KEY=..."));
    assert!(!contains_secret_marker("private key rotated"));
}

#[test]
fn health_is_ready_when_only_non_critical_components_fail() {
    let component = |id: &str, critical: bool, healthy: bool| HealthComponent {
        component_id: id.to_owned(),
        critical,
        healthy,
        last_success_at_ms: None,
        retry_action: "retry".to_owned(),
        detail: "ok".to_owned(),
    };
    let report =
        build_health_report(5, &vec![component("ledger", true, true), component("news", false, false)]).unwrap();
    assert!(report.automated_trading_ready);
    assert_eq!(report.components.len(), 2);
    assert!(build_health_report(0, &vec![component("ledger", true, true)]).is_err());
    assert!(build_health_report(5, &vec![]).is_err());
}

fn alert(key: &str, first: u64, last: u64) -> OperationalAlert {
    OperationalAlert {
        alert_id: "alert-1".to_owned(),
        deduplication_key: key.to_owned(),
        severity: AlertSeverity::Critical,
        message: "시세 지연".to_owned(),
        first_seen_at_ms: first,
        last_seen_at_ms: last,
        occurrence_count: 1,
        acknowledged_at_ms: None,
        response: None,
    }
}

#[test]
fn repeated_alerts_fold_into_one_and_clear_acknowledgement() {
    let mut previous = alert("feed", 10, 20);
    previous.occurrence_count = 4;
    previous.acknowledged_at_ms = Some(21);
    previous.response = Some("재연결".to_owned());
    let merged = merge_alert(Some(&previous), alert("feed", 25, 30), 10).unwrap();
    assert_eq!(merged.first_seen_at_ms, 10);
    assert_eq!(merged.last_seen_at_ms, 30);
    assert_eq!(merged.occurrence_count, 5);
    assert!(merged.acknowledged_at_ms.is_none() && merged.response.is_none());
    let separate = merge_alert(Some(&previous), alert("feed", 40, 41), 10).unwrap();
    assert_eq!((separate.first_seen_at_ms, separate.occurrence_count), (40, 1));
    assert!(merge_alert(None, alert("feed", 0, 1), 10).is_err());
}

#[test]
fn critical_alerts_need_a_written_response_to_acknowledge() {
    let mut critical = alert("feed", 10, 20);
    assert!(acknowledge_alert(&mut critical, 30, "  ").is_err());
    assert!(critical.acknowledged_at_ms.is_none());
    assert!(acknowledge_alert(&mut critical, 19, "재연결").is_err());
    acknowledge_alert(&mut critical, 30, "재연결").unwrap();
    assert_eq!(critical.acknowledged_at_ms, Some(30));
    assert_eq!(critical.response.as_deref(), Some("재연결"));
}
