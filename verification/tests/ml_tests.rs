use investa::ml::stored_manifest;
use investa::shards::TimeSplit;
use investa::ml::{
    decide_completion, CompletionOutcome, register_model_candidate, CurrentDatasetFacts, PreparedJobLineage, MlDatasetSourceKind,
    check_manifest_request, plan_dataset_manifest, plan_training_job, CanonicalDatasetFacts, JobSourceFacts,
    MlDatasetManifestCreateRequest, StoredJobFacts, TrainingSourceFacts,
};
use investa::ml::{
    algorithm_key, is_sha256, oos_tally, plan_completion, CompletionPlan, MlTrainingJobCompleteRequest,
    PreparedJobFacts, validate_artifact, validate_hyperparameters, validate_identifier,
    validate_metrics, HyperparameterValue, MlAlgorithm, MlArtifactDescriptor, MlArtifactFormat, MlOosMetrics,
    MlOosPrediction,
};

fn prediction(id: &str, fold: u32, target: u8, down: u32, flat: u32, up: u32) -> MlOosPrediction {
    MlOosPrediction {
        sample_id: id.to_owned(),
        fold_index: fold,
        target_class: target,
        probability_down_millionths: down,
        probability_flat_millionths: flat,
        probability_up_millionths: up,
    }
}

#[test]
fn oos_probability_overflow_input_is_rejected_without_panicking() {
    let predictions = vec![MlOosPrediction {
        sample_id: "overflow".to_owned(),
        fold_index: 0,
        target_class: 0,
        probability_down_millionths: u32::MAX,
        probability_flat_millionths: u32::MAX,
        probability_up_millionths: u32::MAX,
    }];
    assert!(oos_tally(&predictions, 2_000).is_err());
}

#[test]
fn artifact_rejects_path_traversal_and_format_mismatch() {
    let artifact = MlArtifactDescriptor {
        file_name: "../model.pkl".to_owned(),
        format: MlArtifactFormat::XgboostJson,
        sha256: "b".repeat(64),
        byte_size: 100,
    };
    assert!(validate_artifact(MlAlgorithm::Xgboost, &artifact).is_err());
}

#[test]
fn artifact_accepts_a_plain_name_with_the_format_extension() {
    let mut artifact = MlArtifactDescriptor {
        file_name: "model-v1.json".to_owned(),
        format: MlArtifactFormat::XgboostJson,
        sha256: "b".repeat(64),
        byte_size: 100,
    };
    assert!(validate_artifact(MlAlgorithm::Xgboost, &artifact).is_ok());
    assert!(validate_artifact(MlAlgorithm::Lightgbm, &artifact).is_err());
    artifact.file_name = "model..json".to_owned();
    assert!(validate_artifact(MlAlgorithm::Xgboost, &artifact).is_err());
    artifact.file_name = "model.onnx".to_owned();
    artifact.format = MlArtifactFormat::Onnx;
    assert!(validate_artifact(MlAlgorithm::Timesfm, &artifact).is_ok());
    artifact.byte_size = 0;
    assert_eq!(
        validate_artifact(MlAlgorithm::Timesfm, &artifact).unwrap_err(),
        "모델 아티팩트의 이름·포맷·해시·크기 계약이 올바르지 않습니다."
    );
}

#[test]
fn oos_tally_recomputes_brier_and_calibration_exactly() {
    let predictions = vec![
        prediction("a", 0, 0, 700_000, 200_000, 100_000),
        prediction("b", 1, 2, 500_000, 300_000, 200_000),
    ];
    let tally = oos_tally(&predictions, 2_000).expect("valid predictions");
    assert_eq!(tally.sample_count, 2);
    assert_eq!(tally.fold_count, 2);
    assert_eq!(tally.brier_score_millionths, 186_667);
    assert_eq!(tally.expected_calibration_error_bps, 4_000);
    assert_eq!(tally.class_total, vec![1, 0, 1]);
    assert_eq!(tally.class_correct, vec![1, 0, 0]);
}

#[test]
fn oos_tally_reports_the_first_faulty_prediction() {
    let duplicate = vec![
        prediction("a", 0, 0, 700_000, 200_000, 100_000),
        prediction("a", 0, 0, 700_000, 200_000, 100_000),
    ];
    assert_eq!(
        oos_tally(&duplicate, 1).unwrap_err(),
        "OOS 표본 ID가 중복되었거나 클래스가 올바르지 않습니다."
    );
    let zero_target = vec![prediction("a", 0, 1, 1_000_000, 0, 0)];
    assert_eq!(oos_tally(&zero_target, 1).unwrap_err(), "OOS 정답 클래스 확률은 0일 수 없습니다.");
    let bad_id = vec![prediction("a b", 0, 0, 1_000_000, 0, 0)];
    assert_eq!(
        oos_tally(&bad_id, 1).unwrap_err(),
        "OOS 표본 식별자는 1~128자의 영문·숫자·-_.:만 사용할 수 있습니다."
    );
    let gap = vec![
        prediction("a", 0, 0, 1_000_000, 0, 0),
        prediction("b", 2, 0, 1_000_000, 0, 0),
    ];
    assert_eq!(oos_tally(&gap, 1).unwrap_err(), "OOS fold index는 0부터 빠짐없이 이어져야 합니다.");
    assert_eq!(
        oos_tally(&Vec::new(), 1).unwrap_err(),
        "OOS 원시 예측의 표본 수와 평가 시각이 올바르지 않습니다."
    );
    assert!(oos_tally(&gap, 0).is_err());
}

#[test]
fn identifiers_hashes_and_keys() {
    assert!(validate_identifier("job-1:a.b_c", "학습 작업").is_ok());
    assert_eq!(
        validate_identifier("", "학습 작업").unwrap_err(),
        "학습 작업 식별자는 1~128자의 영문·숫자·-_.:만 사용할 수 있습니다."
    );
    assert!(validate_identifier(&"x".repeat(129), "x").is_err());
    assert!(is_sha256(&"aF09".repeat(16)));
    assert!(!is_sha256(&"g".repeat(64)));
    assert!(!is_sha256(&"a".repeat(63)));
    assert_eq!(algorithm_key(MlAlgorithm::Timesfm), "timesfm");
}

#[test]
fn reported_metrics_and_hyperparameters_are_bounded() {
    let mut metrics = MlOosMetrics {
        sample_count: 10,
        fold_count: 2,
        log_loss_millionths: 700_000,
        brier_score_millionths: 200_000,
        expected_calibration_error_bps: 300,
        balanced_accuracy_bps: 5_000,
        evaluated_at_ms: 1_000,
    };
    assert!(validate_metrics(&metrics, 1_000).is_ok());
    assert!(validate_metrics(&metrics, 999).is_err());
    metrics.balanced_accuracy_bps = 10_001;
    assert!(validate_metrics(&metrics, 1_000).is_err());

    let ok = vec![
        ("max_depth".to_owned(), HyperparameterValue::Number),
        ("objective".to_owned(), HyperparameterValue::Text("multi:softprob".to_owned())),
        ("use-gpu".to_owned(), HyperparameterValue::Bool),
    ];
    assert!(validate_hyperparameters(&ok).is_ok());
    let nested = vec![("grid".to_owned(), HyperparameterValue::Compound)];
    assert_eq!(
        validate_hyperparameters(&nested).unwrap_err(),
        "하이퍼파라미터는 제한된 이름과 짧은 scalar 값만 허용합니다."
    );
    let long_text = vec![("note".to_owned(), HyperparameterValue::Text("가".repeat(43)))];
    assert!(validate_hyperparameters(&long_text).is_err());
    let many: Vec<(String, HyperparameterValue)> =
        (0..65).map(|index| (format!("k{index}"), HyperparameterValue::Number)).collect();
    assert_eq!(validate_hyperparameters(&many).unwrap_err(), "하이퍼파라미터는 최대 64개입니다.");
}

fn job_facts(prepared: bool, same_result_recorded: bool) -> PreparedJobFacts {
    PreparedJobFacts {
        input_sha256: "d".repeat(64),
        created_at_ms: 1_000,
        algorithm: MlAlgorithm::Xgboost,
        prepared,
        same_result_recorded,
    }
}

fn success_request(metrics: MlOosMetrics) -> MlTrainingJobCompleteRequest {
    MlTrainingJobCompleteRequest {
        job_id: "job-1".to_owned(),
        input_sha256: "d".repeat(64),
        completed_at_ms: 2_000,
        succeeded: true,
        failure_code: None,
        model_id: Some("direction-model".to_owned()),
        model_version: Some("1.0.0".to_owned()),
        artifact: Some(MlArtifactDescriptor {
            file_name: "model.json".to_owned(),
            format: MlArtifactFormat::XgboostJson,
            sha256: "a".repeat(64),
            byte_size: 10_000,
        }),
        metrics: Some(metrics),
        predictions: Some(vec![
            prediction("oos-1", 0, 0, 700_000, 200_000, 100_000),
            prediction("oos-2", 0, 1, 100_000, 700_000, 200_000),
            prediction("oos-3", 0, 2, 100_000, 200_000, 700_000),
        ]),
    }
}

fn reported_metrics() -> MlOosMetrics {
    MlOosMetrics {
        sample_count: 3,
        fold_count: 1,
        log_loss_millionths: 356_675,
        brier_score_millionths: 46_667,
        expected_calibration_error_bps: 3_000,
        balanced_accuracy_bps: 10_000,
        evaluated_at_ms: 1_900,
    }
}

#[test]
fn a_worker_failure_is_recorded_without_a_model() {
    let request = MlTrainingJobCompleteRequest {
        job_id: "job-1".to_owned(),
        input_sha256: "d".repeat(64),
        completed_at_ms: 2_000,
        succeeded: false,
        failure_code: Some("worker_timeout".to_owned()),
        model_id: None,
        model_version: None,
        artifact: None,
        metrics: None,
        predictions: None,
    };
    assert!(matches!(plan_completion(&request, &job_facts(true, false)), Ok(CompletionPlan::RecordFailure)));
    assert!(matches!(plan_completion(&request, &job_facts(false, true)), Ok(CompletionPlan::Reconfirm)));
    assert_eq!(
        plan_completion(&request, &job_facts(false, false)).unwrap_err(),
        "이미 종료된 ML 작업에 다른 결과를 저장할 수 없습니다."
    );
    let mut with_model = request.clone();
    with_model.model_id = Some("m".to_owned());
    assert_eq!(
        plan_completion(&with_model, &job_facts(true, false)).unwrap_err(),
        "실패 결과에는 제한된 실패 코드만 기록할 수 있습니다."
    );
}

#[test]
fn a_worker_success_becomes_a_review_candidate_only_when_metrics_recompute() {
    match plan_completion(&success_request(reported_metrics()), &job_facts(true, false)) {
        Ok(CompletionPlan::RegisterCandidate(tally)) => {
            assert_eq!(tally.class_total, vec![1, 1, 1]);
            assert_eq!(tally.class_correct, vec![1, 1, 1]);
        }
        other => panic!("unexpected plan: {other:?}"),
    }
    let mut wrong = reported_metrics();
    wrong.brier_score_millionths += 1;
    assert_eq!(
        plan_completion(&success_request(wrong), &job_facts(true, false)).unwrap_err(),
        "worker OOS 지표가 Rust 재계산 결과와 일치하지 않습니다."
    );
    let mut early = success_request(reported_metrics());
    early.completed_at_ms = 999;
    assert_eq!(
        plan_completion(&early, &job_facts(true, false)).unwrap_err(),
        "완료 시각은 작업 요청 시각보다 빠를 수 없습니다."
    );
    let mut other_input = success_request(reported_metrics());
    other_input.input_sha256 = "e".repeat(64);
    assert_eq!(
        plan_completion(&other_input, &job_facts(true, false)).unwrap_err(),
        "완료 결과의 입력 해시가 준비된 작업과 다릅니다."
    );
    let mut no_predictions = success_request(reported_metrics());
    no_predictions.predictions = None;
    assert_eq!(
        plan_completion(&no_predictions, &job_facts(true, false)).unwrap_err(),
        "성공 결과에는 OOS 원시 예측이 필요합니다."
    );
}

#[test]
fn training_requests_stay_within_worker_bounds() {
    let mut request = investa::ml::MlTrainingJobPrepareRequest {
        job_id: "job-1".to_owned(),
        manifest_id: "manifest-v1".to_owned(),
        algorithm: MlAlgorithm::Xgboost,
        code_version: "git:abc123".to_owned(),
        random_seed: 7,
        horizon_ms: 86_400_000,
        timeout_seconds: 600,
        memory_limit_mb: 2_048,
        max_threads: 4,
        hyperparameters: vec![("max_depth".to_owned(), HyperparameterValue::Number)],
        requested_at_ms: 1_000,
    };
    assert!(investa::ml::validate_training_request(&request).is_ok());
    request.max_threads = 17;
    assert_eq!(
        investa::ml::validate_training_request(&request).unwrap_err(),
        "horizon·timeout·메모리·스레드·요청 시각 제한이 올바르지 않습니다."
    );
    request.max_threads = 4;
    request.code_version = "v 1".to_owned();
    assert_eq!(
        investa::ml::validate_training_request(&request).unwrap_err(),
        "코드 버전 식별자는 1~128자의 영문·숫자·-_.:만 사용할 수 있습니다."
    );
}

const ABC_SHA256: &str = "ba7816bf8f01cfea414140de5dae2223b00361a396177a9cb410ff61f20015ad";

fn training_request(algorithm: MlAlgorithm) -> investa::ml::MlTrainingJobPrepareRequest {
    investa::ml::MlTrainingJobPrepareRequest {
        job_id: "job-1".to_owned(),
        manifest_id: "manifest-v1".to_owned(),
        algorithm,
        code_version: "git:abc123".to_owned(),
        random_seed: 7,
        horizon_ms: 86_400_000,
        timeout_seconds: 600,
        memory_limit_mb: 2_048,
        max_threads: 4,
        hyperparameters: Vec::new(),
        requested_at_ms: 1_000,
    }
}

#[test]
fn training_jobs_are_pinned_by_their_input_digest_and_reused_only_when_identical() {
    let manifest = TrainingSourceFacts::Manifest {
        content_sha256: "c".repeat(64),
        feature_schema_sha256: "d".repeat(64),
    };
    let request = training_request(MlAlgorithm::Lightgbm);
    let plan = plan_training_job(&request, &manifest, &b"abc".to_vec(), None).expect("plan");
    assert_eq!(plan.input_sha256, ABC_SHA256);
    assert!(plan.insert);
    assert_eq!(plan.status, "prepared");
    assert_eq!(plan.contract_version, "investa-ml-worker-v1");
    assert_eq!(plan.anchor_manifest_id, "manifest-v1");

    let lineage = JobSourceFacts {
        source_kind: "manifest".to_owned(),
        source_id: "manifest-v1".to_owned(),
        source_content_sha256: "c".repeat(64),
    };
    let same = StoredJobFacts {
        input_sha256: ABC_SHA256.to_owned(),
        status: "completed".to_owned(),
        updated_at_ms: 5_000,
        source: Some(lineage.clone()),
    };
    let reused = plan_training_job(&request, &manifest, &b"abc".to_vec(), Some(same.clone())).expect("reuse");
    assert!(!reused.insert);
    assert_eq!(reused.status, "completed");
    assert_eq!(reused.updated_at_ms, 5_000);

    let other = StoredJobFacts { input_sha256: "0".repeat(64), ..same.clone() };
    assert_eq!(
        plan_training_job(&request, &manifest, &b"abc".to_vec(), Some(other)).unwrap_err(),
        "같은 학습 작업 ID에 다른 입력이 이미 저장되어 있습니다."
    );
    let moved = StoredJobFacts { source: None, ..same };
    assert_eq!(
        plan_training_job(&request, &manifest, &b"abc".to_vec(), Some(moved)).unwrap_err(),
        "저장된 ML 작업의 데이터 원천 계보가 다릅니다."
    );
    assert_eq!(
        plan_training_job(&request, &TrainingSourceFacts::Missing, &b"abc".to_vec(), None).unwrap_err(),
        "학습 전에 ML 데이터셋 매니페스트 또는 shard set이 필요합니다."
    );
    let shards = TrainingSourceFacts::ShardSet {
        combined_content_sha256: "e".repeat(64),
        feature_schema_sha256: "d".repeat(64),
        first_manifest_id: Some("shard-a".to_owned()),
    };
    assert_eq!(
        plan_training_job(&request, &shards, &b"abc".to_vec(), None).unwrap_err(),
        "현재 shard-aware worker는 XGBoost hist 외부 메모리 학습만 허용합니다."
    );
    let sharded = plan_training_job(&training_request(MlAlgorithm::Xgboost), &shards, &b"abc".to_vec(), None).unwrap();
    assert_eq!(sharded.anchor_manifest_id, "shard-a");
    assert_eq!(sharded.contract_version, "investa-ml-worker-sharded-v1");
}

#[test]
fn dataset_manifests_are_pinned_by_their_payload_and_schema_digests() {
    let request = MlDatasetManifestCreateRequest {
        manifest_id: "manifest-v1".to_owned(),
        audit_id: "audit-1".to_owned(),
        dataset_id: "dataset-1".to_owned(),
    };
    assert!(check_manifest_request(&request, 3, 6).is_ok());
    assert_eq!(
        check_manifest_request(&request, 0, 6).unwrap_err(),
        "ML 데이터셋은 표본 1~20000개, 피처 1~200000개 범위여야 합니다."
    );
    let facts = CanonicalDatasetFacts {
        sample_decision_times_ms: vec![10, 20, 30],
        feature_ingested_at_ms: vec![5, 40, 25],
    };
    let plan = plan_dataset_manifest(&facts, &b"abc".to_vec(), &b"abc".to_vec()).expect("manifest");
    assert_eq!(plan.content_sha256, ABC_SHA256);
    assert_eq!(plan.feature_schema_sha256, ABC_SHA256);
    assert_eq!((plan.sample_count, plan.feature_count), (3, 3));
    assert_eq!((plan.first_decision_time_ms, plan.last_decision_time_ms), (10, 30));
    assert_eq!(plan.created_at_ms, 40);
    let featureless = CanonicalDatasetFacts { sample_decision_times_ms: vec![10], feature_ingested_at_ms: Vec::new() };
    assert_eq!(
        plan_dataset_manifest(&featureless, &b"abc".to_vec(), &b"abc".to_vec()).unwrap_err(),
        "피처 수집 시각이 필요합니다."
    );
}

#[test]
fn a_completion_registers_a_review_candidate_only_on_the_prepared_lineage() {
    let job = PreparedJobLineage {
        job_id: "job-1".to_owned(),
        manifest_id: "manifest-v1".to_owned(),
        dataset_source_kind: MlDatasetSourceKind::Manifest,
        algorithm: MlAlgorithm::Xgboost,
        dataset_content_sha256: "c".repeat(64),
        feature_schema_sha256: "d".repeat(64),
    };
    let artifact = MlArtifactDescriptor {
        file_name: "model.json".to_owned(),
        format: MlArtifactFormat::XgboostJson,
        sha256: "e".repeat(64),
        byte_size: 100,
    };
    let same = CurrentDatasetFacts::Manifest { content_sha256: "c".repeat(64), asset_class: "korea_stock".to_owned() };
    let model = register_model_candidate(
        &job,
        &same,
        "direction-model".to_owned(),
        "1.0.0".to_owned(),
        artifact.clone(),
        reported_metrics(),
        reported_metrics(),
        2_000,
    )
    .expect("candidate");
    assert_eq!(model.status, "candidate_review");
    assert!(!model.live_order_allowed);
    assert_eq!(model.asset_class, "korea_stock");
    assert_eq!(model.created_at_ms, 2_000);

    let changed = CurrentDatasetFacts::Manifest { content_sha256: "f".repeat(64), asset_class: "korea_stock".to_owned() };
    assert_eq!(
        register_model_candidate(&job, &changed, "m".to_owned(), "1".to_owned(), artifact.clone(), reported_metrics(), reported_metrics(), 2_000)
            .unwrap_err(),
        "완료 시점 ML 매니페스트 해시가 준비 시점과 다릅니다."
    );
    let mut off = reported_metrics();
    off.balanced_accuracy_bps -= 1;
    assert_eq!(
        register_model_candidate(&job, &same, "m".to_owned(), "1".to_owned(), artifact, reported_metrics(), off, 2_000)
            .unwrap_err(),
        "worker OOS 지표가 Rust 재계산 결과와 일치하지 않습니다."
    );
}

#[test]
fn a_successful_completion_on_a_changed_dataset_is_refused() {
    let lineage = PreparedJobLineage {
        job_id: "job-1".to_owned(),
        manifest_id: "shards-v1".to_owned(),
        dataset_source_kind: MlDatasetSourceKind::ShardSet,
        algorithm: MlAlgorithm::Xgboost,
        dataset_content_sha256: "c".repeat(64),
        feature_schema_sha256: "d".repeat(64),
    };
    let same = CurrentDatasetFacts::ShardSet {
        combined_content_sha256: "c".repeat(64),
        feature_schema_sha256: "d".repeat(64),
        asset_class: "us_stock".to_owned(),
    };
    let request = success_request(reported_metrics());
    match decide_completion(&request, &job_facts(true, false), &lineage, &same, reported_metrics()) {
        Ok(CompletionOutcome::Registered(model)) => {
            assert_eq!(model.model_id, "direction-model");
            assert_eq!(model.model_version, "1.0.0");
            assert_eq!(model.manifest_id, "shards-v1");
            assert_eq!(model.asset_class, "us_stock");
            assert_eq!(model.status, "candidate_review");
            assert!(!model.live_order_allowed);
        }
        other => panic!("expected a registered candidate, got {:?}", other),
    }
    let new_schema = CurrentDatasetFacts::ShardSet {
        combined_content_sha256: "c".repeat(64),
        feature_schema_sha256: "e".repeat(64),
        asset_class: "us_stock".to_owned(),
    };
    assert_eq!(
        decide_completion(&request, &job_facts(true, false), &lineage, &new_schema, reported_metrics()).unwrap_err(),
        "완료 시점 ML shard set 계보가 준비 시점과 다릅니다."
    );
    let mut log_loss_off = reported_metrics();
    log_loss_off.log_loss_millionths += 1;
    assert_eq!(
        decide_completion(&request, &job_facts(true, false), &lineage, &new_schema, log_loss_off).unwrap_err(),
        "worker OOS 지표가 Rust 재계산 결과와 일치하지 않습니다."
    );
    assert!(matches!(
        decide_completion(&request, &job_facts(false, true), &lineage, &new_schema, reported_metrics()),
        Ok(CompletionOutcome::Reconfirm)
    ));
}

#[test]
fn a_stored_manifest_carries_the_request_ids_and_the_checked_plan() {
    let request = MlDatasetManifestCreateRequest {
        manifest_id: "manifest-v1".to_owned(),
        audit_id: "audit-1".to_owned(),
        dataset_id: "dataset-1".to_owned(),
    };
    let facts = CanonicalDatasetFacts {
        sample_decision_times_ms: vec![10, 20, 30],
        feature_ingested_at_ms: vec![5, 40, 25],
    };
    let plan = plan_dataset_manifest(&facts, &b"abc".to_vec(), &b"abc".to_vec()).expect("manifest");
    let split = TimeSplit { train_end_ms: 10, validation_start_ms: 11, validation_end_ms: 20, test_start_ms: 21 };
    let stored = stored_manifest(&request, plan, b"{}".to_vec(), split);
    assert_eq!(stored.manifest_id, "manifest-v1");
    assert_eq!(stored.audit_id, "audit-1");
    assert_eq!(stored.dataset_id, "dataset-1");
    assert_eq!(stored.asset_json, b"{}".to_vec());
    assert_eq!(stored.sample_count, 3);
    assert_eq!(stored.created_at_ms, 40);
    assert_eq!(stored.split, split);
}
