use investa::readiness::{
    audit_soak, has_headless_shadow_soak_arg, next_soak_sample, normalize_market_order, prepare_soak_audit,
    same_soak_audit, SaveSoakAuditRequest, retry_decision, synthesize_evidence, validate_cloud_soak_report,
    validate_preferences, valid_run_id, CloudSoakJobStatus, CloudSoakReport, EvidenceKind, ExitReason,
    MarketAssetClass, MarketOrderInput, PortfolioMandate, ProviderFailure, SoakSample, SynthesisEvidence,
    WorkspacePreferences,
};

#[test]
fn enabled_concentration_limits_require_explicit_valid_percentages() {
    let mut preferences = WorkspacePreferences {
        concentration_limits_enabled: true,
        portfolio_mandate: PortfolioMandate::Thematic,
        maximum_symbol_exposure_bps: 7_500,
        maximum_sector_exposure_bps: 9_000,
        maximum_market_exposure_bps: 10_000,
        ..WorkspacePreferences::default()
    };
    validate_preferences(&preferences).expect("explicit thematic limits");
    preferences.maximum_sector_exposure_bps = 0;
    assert!(validate_preferences(&preferences).is_err());
}

#[test]
fn default_preferences_are_observation_only_and_valid() {
    let preferences = WorkspacePreferences::default();
    assert_eq!(preferences.portfolio_mandate, PortfolioMandate::ObservationOnly);
    assert!(!preferences.concentration_limits_enabled);
    assert_eq!(preferences.maximum_symbol_exposure_bps, 10_000);
    validate_preferences(&preferences).expect("safe defaults");
    let mut other_zone = preferences.clone();
    other_zone.display_timezone = "Europe/Paris".to_owned();
    assert!(validate_preferences(&other_zone).is_err());
}

#[test]
fn market_rules_reject_wrong_currency_and_lot() {
    let mut request = MarketOrderInput {
        asset_class: MarketAssetClass::UsEquity,
        currency: "KRW".to_owned(),
        price_minor: 100,
        quantity_base_units: 1,
        quantity_scale: 1,
        lot_size_base_units: 1,
        price_tick_minor: 1,
    };
    assert!(normalize_market_order(&request).is_err());
    request.asset_class = MarketAssetClass::KrEquity;
    request.quantity_base_units = 3;
    request.lot_size_base_units = 2;
    assert!(normalize_market_order(&request).is_err());
}

#[test]
fn market_rules_preserve_krw_usd_and_fractional_coin_units() {
    for request in [
        MarketOrderInput {
            asset_class: MarketAssetClass::KrEquity,
            currency: "KRW".to_owned(),
            price_minor: 70_000,
            quantity_base_units: 2,
            quantity_scale: 1,
            lot_size_base_units: 1,
            price_tick_minor: 1,
        },
        MarketOrderInput {
            asset_class: MarketAssetClass::UsEquity,
            currency: "USD".to_owned(),
            price_minor: 20_050,
            quantity_base_units: 3,
            quantity_scale: 1,
            lot_size_base_units: 1,
            price_tick_minor: 1,
        },
        MarketOrderInput {
            asset_class: MarketAssetClass::CoinSpot,
            currency: "KRW".to_owned(),
            price_minor: 100_000_000,
            quantity_base_units: 10_000_000,
            quantity_scale: 100_000_000,
            lot_size_base_units: 1,
            price_tick_minor: 1,
        },
    ] {
        let normalized = normalize_market_order(&request).expect("representative market order");
        assert_eq!(normalized.currency, request.currency);
        assert!(normalized.notional_minor > 0);
    }
}

#[test]
fn market_order_notional_and_future_warning_are_exact() {
    let coin = normalize_market_order(&MarketOrderInput {
        asset_class: MarketAssetClass::CoinSpot,
        currency: "KRW".to_owned(),
        price_minor: 100_000_000,
        quantity_base_units: 10_000_000,
        quantity_scale: 100_000_000,
        lot_size_base_units: 1,
        price_tick_minor: 1,
    })
    .unwrap();
    assert_eq!(coin.notional_minor, 10_000_000);
    assert!(coin.warnings.is_empty());
    let future = normalize_market_order(&MarketOrderInput {
        asset_class: MarketAssetClass::EquityFuture,
        currency: "KRW".to_owned(),
        price_minor: 35_000,
        quantity_base_units: 2,
        quantity_scale: 1,
        lot_size_base_units: 1,
        price_tick_minor: 5,
    })
    .unwrap();
    assert_eq!(future.notional_minor, 70_000);
    assert_eq!(future.warnings.len(), 1);
}

#[test]
fn retry_is_bounded_and_mutations_fail_closed() {
    assert!(
        retry_decision(&ProviderFailure { status_code: Some(429), timed_out: false, attempt: 1, mutating: false })
            .retry
    );
    let mutation =
        retry_decision(&ProviderFailure { status_code: Some(503), timed_out: false, attempt: 0, mutating: true });
    assert!(!mutation.retry && mutation.fail_closed);
}

#[test]
fn retry_backs_off_exponentially_and_stops_after_four_attempts() {
    let delays = (0..5)
        .map(|attempt| {
            retry_decision(&ProviderFailure { status_code: None, timed_out: true, attempt, mutating: false }).delay_ms
        })
        .collect::<Vec<_>>();
    assert_eq!(delays, vec![500, 1_000, 2_000, 4_000, 0]);
    let not_found =
        retry_decision(&ProviderFailure { status_code: Some(404), timed_out: false, attempt: 0, mutating: false });
    assert!(!not_found.retry && not_found.fail_closed);
}

#[test]
fn synthesis_separates_sources_and_blocks_future_and_duplicate_revisions() {
    let base = SynthesisEvidence {
        evidence_id: "a".to_owned(),
        source_revision_id: "r1".to_owned(),
        kind: EvidenceKind::NewsFact,
        text: "확인 필요".to_owned(),
        observed_at_ms: 1,
        available_at_ms: 2,
        corroborated: false,
        suspected_automation: false,
    };
    let mut future = base.clone();
    future.evidence_id = "b".to_owned();
    future.source_revision_id = "r2".to_owned();
    future.available_at_ms = 20;
    let mut social = base.clone();
    social.evidence_id = "c".to_owned();
    social.source_revision_id = "r3".to_owned();
    social.kind = EvidenceKind::CommunitySentiment;
    social.text = "긍정".to_owned();
    social.suspected_automation = true;
    let output = synthesize_evidence(10, vec![base, future, social]).expect("synthesis");
    assert_eq!(output.facts.len(), 1);
    assert_eq!(output.sentiment.len(), 1);
    assert_eq!(output.excluded_evidence_ids, vec!["b"]);
    assert_eq!(output.warnings.len(), 2);
}

#[test]
fn synthesis_excludes_repeated_revision_text_and_rejects_blank_ids() {
    let first = SynthesisEvidence {
        evidence_id: "a".to_owned(),
        source_revision_id: "r1".to_owned(),
        kind: EvidenceKind::OfficialFact,
        text: "공시".to_owned(),
        observed_at_ms: 1,
        available_at_ms: 2,
        corroborated: true,
        suspected_automation: false,
    };
    let mut repeat = first.clone();
    repeat.evidence_id = "b".to_owned();
    let mut metric = first.clone();
    metric.evidence_id = "c".to_owned();
    metric.kind = EvidenceKind::DiffusionMetric;
    metric.text = "확산 지표".to_owned();
    let output = synthesize_evidence(10, vec![first.clone(), repeat, metric]).unwrap();
    assert_eq!(output.facts.len(), 1);
    assert_eq!(output.diffusion.len(), 1);
    assert_eq!(output.excluded_evidence_ids, vec!["b"]);
    assert!(output.warnings.is_empty());
    let mut blank = first;
    blank.evidence_id = "  ".to_owned();
    assert!(synthesize_evidence(10, vec![blank]).is_err());
}

#[test]
fn legacy_sell_is_manual_and_only_explicit_stop_is_stop_loss() {
    assert_eq!(ExitReason::compatible(None, true), ExitReason::UserManual);
    assert_eq!(ExitReason::compatible(Some("stop_loss"), false), ExitReason::StopLoss);
    assert_eq!(ExitReason::compatible(Some("sell"), false), ExitReason::Unknown);
}

#[test]
fn exit_reason_user_manual_is_only_accepted_for_legacy_records() {
    assert_eq!(ExitReason::compatible(Some("user_manual"), true), ExitReason::UserManual);
    assert_eq!(ExitReason::compatible(Some("user_manual"), false), ExitReason::Unknown);
    assert_eq!(ExitReason::compatible(None, false), ExitReason::Unknown);
    assert_eq!(ExitReason::compatible(Some("rollover"), false), ExitReason::Rollover);
}

fn sample(observed_at_ms: u64, key: Option<&str>, healthy: bool) -> SoakSample {
    SoakSample {
        observed_at_ms,
        source_observed_at_ms: Some(observed_at_ms),
        memory_bytes: 10,
        timer_count: 1,
        sqlite_bytes: 10,
        candidate_key: key.map(str::to_owned),
        provider_healthy: healthy,
        restarted: false,
        reconciliation_passed: true,
    }
}

#[test]
fn soak_audit_detects_duplicate_and_provider_failure() {
    let result = audit_soak(&vec![
        SoakSample {
            observed_at_ms: 1,
            source_observed_at_ms: Some(1),
            memory_bytes: 10,
            timer_count: 1,
            sqlite_bytes: 10,
            candidate_key: Some("bar-1".to_owned()),
            provider_healthy: true,
            restarted: false,
            reconciliation_passed: true,
        },
        SoakSample {
            observed_at_ms: 2,
            source_observed_at_ms: Some(2),
            memory_bytes: 20,
            timer_count: 2,
            sqlite_bytes: 20,
            candidate_key: Some("bar-1".to_owned()),
            provider_healthy: false,
            restarted: false,
            reconciliation_passed: true,
        },
    ])
    .expect("audit");
    assert_eq!(result.duplicate_candidate_count, 1);
    assert!(result.fail_closed);
}

#[test]
fn soak_audit_fails_closed_on_stale_data_and_restart_mismatch() {
    let result = audit_soak(&vec![
        SoakSample {
            observed_at_ms: 1_000_000,
            source_observed_at_ms: Some(1_000_000),
            memory_bytes: 1,
            timer_count: 1,
            sqlite_bytes: 1,
            candidate_key: None,
            provider_healthy: true,
            restarted: false,
            reconciliation_passed: true,
        },
        SoakSample {
            observed_at_ms: 1_400_001,
            source_observed_at_ms: Some(1_000_000),
            memory_bytes: 1,
            timer_count: 1,
            sqlite_bytes: 1,
            candidate_key: None,
            provider_healthy: true,
            restarted: true,
            reconciliation_passed: false,
        },
    ])
    .expect("audit");
    assert_eq!(result.stale_sample_count, 1);
    assert_eq!(result.restart_reconciliation_failure_count, 1);
    assert!(result.fail_closed);
}

#[test]
fn soak_audit_measures_gaps_growth_and_orders_samples() {
    let mut later = sample(200_001, Some("b"), true);
    later.memory_bytes = 5;
    later.timer_count = 7;
    let result = audit_soak(&vec![sample(1, Some("a"), true), later]).unwrap();
    assert_eq!(result.duration_ms, 200_000);
    assert_eq!(result.max_observation_gap_ms, 200_000);
    assert_eq!(result.observation_gap_failure_count, 1);
    assert_eq!(result.memory_growth_bytes, -5);
    assert_eq!(result.timer_growth, 6);
    assert!(!result.fail_closed);
    assert_eq!(result.warnings.len(), 2);
    assert!(audit_soak(&vec![]).is_err());
    assert!(audit_soak(&vec![sample(5, None, true), sample(5, None, true)]).is_err());
}

#[test]
fn cloud_soak_report_keeps_the_fixed_read_only_boundary() {
    let report = CloudSoakReport {
        schema: "investa.cloud-soak-report.v1".to_owned(),
        collected_at_ms: 1,
        project_id: "investa-remote-bumniverse".to_owned(),
        region: "asia-northeast3".to_owned(),
        source: "gcloud-read-only".to_owned(),
        status: "running".to_owned(),
        live_order_enabled: false,
        jobs: vec![CloudSoakJobStatus {
            mode: "market".to_owned(),
            job_name: "soak".to_owned(),
            execution_name: None,
            state: "running".to_owned(),
            started_at_ms: Some(1),
            completed_at_ms: None,
            elapsed_ms: None,
            latest_heartbeat_at_ms: None,
            heartbeat: None,
            passed: None,
            actual_elapsed24h_qualified: false,
            issues: vec![],
            warnings: vec![],
            collection_issue: None,
        }],
    };
    assert!(validate_cloud_soak_report(&report).is_ok());
    let mut live = report.clone();
    live.live_order_enabled = true;
    assert!(validate_cloud_soak_report(&live).is_err());
    let mut unknown_mode = report;
    unknown_mode.jobs[0].mode = "trading".to_owned();
    assert!(validate_cloud_soak_report(&unknown_mode).is_err());
    assert!(valid_run_id("simulated-24h-replay"));
    assert!(!valid_run_id("run:1"));
}

fn timed_sample(observed_at_ms: u64, candidate_key: Option<&str>, restarted: bool) -> SoakSample {
    SoakSample {
        observed_at_ms,
        source_observed_at_ms: Some(observed_at_ms),
        memory_bytes: 1,
        timer_count: 1,
        sqlite_bytes: 1,
        candidate_key: candidate_key.map(str::to_owned),
        provider_healthy: true,
        restarted,
        reconciliation_passed: true,
    }
}

#[test]
fn twenty_four_hour_replay_has_no_duplicate_but_is_not_actual_elapsed_time() {
    let samples = (0..=24)
        .map(|hour| SoakSample {
            observed_at_ms: 1 + hour * 3_600_000,
            source_observed_at_ms: Some(1 + hour * 3_600_000),
            memory_bytes: 100_000_000 + hour * 100_000,
            timer_count: 4,
            sqlite_bytes: 10_000_000 + hour * 1_000,
            candidate_key: Some(format!("completed-bar-{hour}")),
            provider_healthy: true,
            restarted: hour == 12,
            reconciliation_passed: true,
        })
        .collect::<Vec<_>>();
    let stored = prepare_soak_audit(
        SaveSoakAuditRequest {
            run_id: "simulated-24h-replay".into(),
            samples: samples.clone(),
            simulated_timeline: true,
        },
        5,
    )
    .expect("save 24h replay");
    assert_eq!(stored.audit.duration_ms, 86_400_000);
    assert_eq!(stored.audit.duplicate_candidate_count, 0);
    assert!(!stored.audit.fail_closed);
    assert!(stored.audit.warnings.is_empty());
    assert!(!stored.actual_elapsed_qualified);
    let replay = prepare_soak_audit(
        SaveSoakAuditRequest { run_id: "simulated-24h-replay".into(), samples, simulated_timeline: true },
        9,
    )
    .expect("idempotent save");
    assert!(same_soak_audit(&stored, &replay));
}

#[test]
fn actual_soak_save_fails_closed_when_sampling_stops_for_over_three_minutes() {
    let stored = prepare_soak_audit(
        SaveSoakAuditRequest {
            run_id: "actual-gap".to_owned(),
            samples: vec![timed_sample(1, None, false), timed_sample(240_002, None, true)],
            simulated_timeline: false,
        },
        7,
    )
    .expect("save actual gap");
    assert_eq!(stored.audit.observation_gap_failure_count, 1);
    assert!(stored.audit.fail_closed);
    assert!(stored.audit.warnings.iter().any(|warning| warning.contains("표본 공백")));
}

#[test]
fn soak_records_need_an_id_two_samples_and_time_order() {
    let request = |run_id: &str, samples: Vec<SoakSample>| SaveSoakAuditRequest {
        run_id: run_id.to_owned(),
        samples,
        simulated_timeline: true,
    };
    assert_eq!(
        prepare_soak_audit(request("run-1", vec![timed_sample(1, None, false)]), 1).unwrap_err(),
        "내구 검사 실행 ID와 표본 수를 확인해 주세요."
    );
    assert!(prepare_soak_audit(request("run 1", vec![timed_sample(1, None, false), timed_sample(2, None, false)]), 1).is_err());
    assert!(prepare_soak_audit(request("run-1", vec![timed_sample(2, None, false), timed_sample(1, None, false)]), 1).is_err());
    let simulated_gap =
        prepare_soak_audit(request("run-1", vec![timed_sample(1, None, false), timed_sample(240_002, None, false)]), 1).unwrap();
    assert!(!simulated_gap.audit.fail_closed);
    let day = prepare_soak_audit(
        SaveSoakAuditRequest {
            run_id: "day".to_owned(),
            samples: (0..=1_440).map(|minute| timed_sample(minute * 60_000, None, false)).collect(),
            simulated_timeline: false,
        },
        1,
    )
    .unwrap();
    assert!(day.actual_elapsed_qualified);
}

#[test]
fn the_unattended_run_skips_repeated_candidates_and_stops_after_a_day() {
    let earlier = vec![timed_sample(0, Some("bar-1"), false)];
    let (next, done) = next_soak_sample(&earlier, timed_sample(60_000, Some("bar-1"), false), 0);
    assert_eq!(next.candidate_key, None);
    assert!(!done);
    let (fresh, finished) = next_soak_sample(&earlier, timed_sample(86_400_000, Some("bar-2"), false), 0);
    assert_eq!(fresh.candidate_key.as_deref(), Some("bar-2"));
    assert!(finished);
    assert!(has_headless_shadow_soak_arg(&vec!["investa".to_owned(), "--shadow-soak-autostart".to_owned()]));
    assert!(!has_headless_shadow_soak_arg(&vec!["investa".to_owned()]));
}

#[test]
fn headless_shadow_soak_requires_an_explicit_exact_flag() {
    let args = |values: &[&str]| values.iter().map(|value| value.to_string()).collect::<Vec<String>>();
    assert!(has_headless_shadow_soak_arg(&args(&["investa", "--shadow-soak-autostart"])));
    assert!(!has_headless_shadow_soak_arg(&args(&["investa"])));
    assert!(!has_headless_shadow_soak_arg(&args(&["investa", "--shadow-soak-autostart=true"])));
}

#[test]
fn legacy_workspace_preferences_default_to_observation_only() {
    // A record saved before the mandate and concentration fields existed:
    // what it lacks is taken from the defaults.
    let preferences = WorkspacePreferences {
        display_timezone: "Asia/Seoul".to_owned(),
        quiet_hours_start: 23,
        quiet_hours_end: 7,
        stale_after_seconds: 300,
        notify_warning: true,
        notify_critical: true,
        ..WorkspacePreferences::default()
    };
    assert_eq!(preferences.portfolio_mandate, PortfolioMandate::ObservationOnly);
    assert!(!preferences.concentration_limits_enabled);
    assert_eq!(preferences.maximum_symbol_exposure_bps, 10_000);
    validate_preferences(&preferences).expect("safe defaults");
}

#[test]
fn cloud_soak_cache_rejects_unknown_fields_and_live_order_enablement() {
    let report = CloudSoakReport {
        schema: "investa.cloud-soak-report.v1".to_owned(),
        collected_at_ms: 1,
        project_id: "investa-remote-bumniverse".to_owned(),
        region: "asia-northeast3".to_owned(),
        source: "gcloud-read-only".to_owned(),
        status: "running".to_owned(),
        live_order_enabled: true,
        jobs: Vec::new(),
    };
    assert!(validate_cloud_soak_report(&report).is_err());
    let locked = CloudSoakReport { live_order_enabled: false, ..report };
    assert!(validate_cloud_soak_report(&locked).is_ok());
}

#[test]
fn duplicate_candidates_are_named_samples_less_distinct_keys() {
    let samples = vec![
        timed_sample(0, Some("a"), false),
        timed_sample(60_000, Some("a"), false),
        timed_sample(120_000, Some("b"), false),
        timed_sample(180_000, None, false),
        timed_sample(240_000, Some("b"), false),
    ];
    let audit = audit_soak(&samples).expect("audit");
    // four samples name a candidate, two distinct keys
    assert_eq!(audit.duplicate_candidate_count, 4 - 2);
}

#[test]
fn evidence_synthesis_partitions_its_input() {
    let item = |id: &str, revision: &str, kind: EvidenceKind, available_at_ms: u64| SynthesisEvidence {
        evidence_id: id.to_owned(),
        source_revision_id: revision.to_owned(),
        kind,
        text: "본문".to_owned(),
        observed_at_ms: 1,
        available_at_ms,
        corroborated: true,
        suspected_automation: false,
    };
    let input = vec![
        item("a", "r1", EvidenceKind::OfficialFact, 1),
        item("b", "r2", EvidenceKind::CommunitySentiment, 1),
        item("c", "r3", EvidenceKind::DiffusionMetric, 1),
        item("d", "r1", EvidenceKind::NewsFact, 1),
        item("e", "r4", EvidenceKind::NewsFact, 99),
    ];
    let n = input.len();
    let s = synthesize_evidence(10, input).expect("synthesis");
    assert_eq!(s.facts.len() + s.sentiment.len() + s.diffusion.len() + s.excluded_evidence_ids.len(), n);
    assert_eq!(s.excluded_evidence_ids, vec!["d".to_owned(), "e".to_owned()]);
}
