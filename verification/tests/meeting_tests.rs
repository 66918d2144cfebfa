use investa::meeting::{
    effective_status, golden_path_audit, link_backtest, prepare_handoff, reconcile_engine_links, BacktestLineage,
    BacktestRecommendation, BacktestRecordFacts, BacktestRunFacts, CandidateLookup, EngineRunFacts,
    EngineRunLookup, EvidenceRef, LinkedRecord, MeetingPaperHandoffFinalizeRequest, MeetingSynthesis,
    PendingHandoff, StoredHandoff,
};

fn synthesis(decision: &str) -> MeetingSynthesis {
    MeetingSynthesis {
        decision: Some(decision.to_owned()),
        recommendation: Some(BacktestRecommendation {
            required: Some(true),
            symbol: Some("000880".to_owned()),
            strategy: Some("  5/20 이동평균 교차  ".to_owned()),
        }),
    }
}

fn stored(job: &str, experiment_id: Option<&str>) -> StoredHandoff {
    StoredHandoff {
        handoff_id: format!("meeting-handoff:{job}"),
        workflow_job_id: job.to_owned(),
        analysis_record_id: format!("analysis-{job}"),
        symbol: "000880".to_owned(),
        strategy: "5/20 이동평균 교차".to_owned(),
        experiment_id: experiment_id.map(str::to_owned),
        paper_candidate_id: None,
        engine_run_id: None,
        created_at_ms: 10,
        updated_at_ms: 10,
    }
}

fn evidence(source: &str) -> EvidenceRef {
    EvidenceRef { kind: Some("local_analysis".to_owned()), source_url: Some(source.to_owned()) }
}

fn run(symbol: &str, created_at_ms: u64, analysis: &str) -> BacktestRunFacts {
    BacktestRunFacts {
        symbol: symbol.to_owned(),
        currency: "KRW".to_owned(),
        created_at_ms,
        record: Ok(BacktestRecordFacts {
            executable: Some(true),
            evidence: Some(vec![evidence(&format!("investa://analysis/{analysis}"))]),
        }),
    }
}

fn finalize(job: &str, experiment: &str) -> MeetingPaperHandoffFinalizeRequest {
    MeetingPaperHandoffFinalizeRequest { workflow_job_id: job.to_owned(), experiment_id: experiment.to_owned() }
}

#[test]
fn prepares_idempotent_handoff_without_creating_an_order() {
    let draft = prepare_handoff("job-1", "completed", Some(synthesis("paper_candidate"))).expect("handoff");
    assert_eq!(draft.handoff_id, "meeting-handoff:job-1");
    assert_eq!(draft.analysis_record_id, "analysis-job-1");
    assert_eq!(draft.symbol, "000880");
    assert_eq!(draft.strategy, "5/20 이동평균 교차");
    let replay = prepare_handoff("job-1", "completed", Some(synthesis("paper_candidate"))).expect("replay");
    assert_eq!(replay.handoff_id, draft.handoff_id);
    let view = effective_status(stored("job-1", None), LinkedRecord::Unlinked);
    assert_eq!(view.status, "awaiting_backtest");
    assert!(!view.live_order_enabled);
}

#[test]
fn refuses_non_candidate_meeting() {
    let error = prepare_handoff("job-2", "completed", Some(synthesis("hold"))).unwrap_err();
    assert!(error.contains("모의투자 후보"));
    assert!(prepare_handoff("job-2", "running", Some(synthesis("paper_candidate"))).is_err());
    assert!(prepare_handoff("job 2", "completed", Some(synthesis("paper_candidate"))).is_err());
}

#[test]
fn links_only_a_post_handoff_backtest_with_exact_local_analysis_lineage() {
    let handoff = stored("job-4", None);
    let linked = link_backtest(&finalize("job-4", "experiment-4"), Some(&handoff), Some(&run("000880", 11, "analysis-job-4")));
    assert_eq!(linked.unwrap(), "meeting-handoff:job-4");
    let view = effective_status(stored("job-4", Some("experiment-4")), LinkedRecord::ShadowWatch(None));
    assert_eq!(view.status, "backtest_completed");

    let already = stored("job-4", Some("experiment-4"));
    let error = link_backtest(
        &finalize("job-4", "experiment-other"),
        Some(&already),
        Some(&run("000880", 11, "analysis-someone-else")),
    )
    .unwrap_err();
    assert!(error.contains("덮어쓸 수 없습니다"));

    assert_eq!(
        link_backtest(&finalize("job-4", "experiment-5"), Some(&handoff), Some(&run("005930", 11, "analysis-job-4")))
            .unwrap_err(),
        "회의 인계 이후 같은 종목으로 실행한 백테스트만 연결할 수 있습니다."
    );
    assert_eq!(
        link_backtest(&finalize("job-4", "experiment-5"), Some(&handoff), Some(&run("000880", 9, "analysis-job-4")))
            .unwrap_err(),
        "회의 인계 이후 같은 종목으로 실행한 백테스트만 연결할 수 있습니다."
    );
    assert_eq!(
        link_backtest(&finalize("job-4", "experiment-5"), Some(&handoff), Some(&run("000880", 11, "analysis-other")))
            .unwrap_err(),
        "백테스트가 이 회의의 불변 분석 기록을 근거로 참조하지 않습니다."
    );
    let mut unreadable = run("000880", 11, "analysis-job-4");
    unreadable.record = Err("EOF".to_owned());
    assert_eq!(
        link_backtest(&finalize("job-4", "experiment-5"), Some(&handoff), Some(&unreadable)).unwrap_err(),
        "백테스트 기록을 해석하지 못했습니다: EOF"
    );
    assert_eq!(
        link_backtest(&finalize("job-4", "experiment-5"), None, None).unwrap_err(),
        "먼저 회의 분석을 백테스트 단계로 인계해 주세요."
    );
}

#[test]
fn restart_reconciliation_links_only_matching_analysis_and_symbol() {
    let pending = vec![PendingHandoff {
        handoff_id: "meeting-handoff:job-3".to_owned(),
        analysis_record_id: "analysis-job-3".to_owned(),
        symbol: "000880".to_owned(),
    }];
    let runs = vec![
        EngineRunFacts {
            run_id: "wrong-run".to_owned(),
            trade_symbol: Some("005930".to_owned()),
            analysis_ids: vec!["analysis-job-3".to_owned()],
        },
        EngineRunFacts {
            run_id: "matching-run".to_owned(),
            trade_symbol: Some("000880".to_owned()),
            analysis_ids: vec!["analysis-job-3".to_owned()],
        },
    ];
    let links = reconcile_engine_links(&pending, &runs, &Vec::new());
    assert_eq!(links, vec![("meeting-handoff:job-3".to_owned(), "matching-run".to_owned())]);
    assert!(reconcile_engine_links(&pending, &runs, &vec!["matching-run".to_owned()]).is_empty());

    let mut view = stored("job-3", None);
    view.engine_run_id = Some("matching-run".to_owned());
    let status = effective_status(
        view,
        LinkedRecord::EngineRun(Some(EngineRunLookup {
            status: "completed".to_owned(),
            candidate_ready: true,
            blockers: Vec::new(),
            candidate_status: None,
        })),
    );
    assert_eq!(status.status, "candidate_ready");
    assert!(!status.live_order_enabled);
}

#[test]
fn a_run_serves_one_hand_off_only() {
    let pending = vec![
        PendingHandoff {
            handoff_id: "h-1".to_owned(),
            analysis_record_id: "a-1".to_owned(),
            symbol: "000880".to_owned(),
        },
        PendingHandoff {
            handoff_id: "h-2".to_owned(),
            analysis_record_id: "a-1".to_owned(),
            symbol: "000880".to_owned(),
        },
    ];
    let runs = vec![EngineRunFacts {
        run_id: "run-1".to_owned(),
        trade_symbol: Some("000880".to_owned()),
        analysis_ids: vec!["a-0".to_owned(), "a-1".to_owned()],
    }];
    let links = reconcile_engine_links(&pending, &runs, &Vec::new());
    assert_eq!(links, vec![("h-1".to_owned(), "run-1".to_owned())]);
}

#[test]
fn golden_path_audit_passes_only_after_user_approved_internal_fill() {
    let handoff = stored("job-golden", Some("experiment-golden"));
    let lineage = BacktestLineage {
        symbol: "000880".to_owned(),
        evidence: vec![evidence("investa://analysis/analysis-job-golden")],
    };
    let audit = golden_path_audit("job-golden", Some(handoff.clone()), true, Some(lineage.clone()), None, false, 20)
        .expect("audit");
    assert_eq!(audit.status, "pending");
    assert!(!audit.live_order_enabled);
    assert_eq!(audit.stages[0].status, "passed");
    assert_eq!(audit.stages[1].status, "passed");
    assert_eq!(audit.stages[2].status, "pending");

    let proposed = CandidateLookup {
        candidate_id: "candidate-1".to_owned(),
        status: "proposed".to_owned(),
        currency: "KRW".to_owned(),
    };
    let waiting = golden_path_audit("job-golden", Some(handoff.clone()), true, Some(lineage.clone()), Some(proposed), false, 25)
        .expect("audit");
    assert_ne!(waiting.status, "passed");
    let filled = CandidateLookup {
        candidate_id: "candidate-1".to_owned(),
        status: "filled".to_owned(),
        currency: "KRW".to_owned(),
    };
    let done = golden_path_audit("job-golden", Some(handoff), true, Some(lineage), Some(filled), true, 30)
        .expect("audit");
    assert_eq!(done.status, "passed");
    assert!(!done.live_order_enabled);
    assert!(golden_path_audit("job-golden", None, true, None, None, false, 30).is_err());
}
