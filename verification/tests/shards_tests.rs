use investa::shards::{check_shard_set_history_limit, shard_set_history};
use investa::shards::{check_shard_set, check_shard_set_request, seal_shard_set, MlDatasetShardSetCreateRequest, ShardInput, TimeSplit};

const ABC_SHA256: &str = "ba7816bf8f01cfea414140de5dae2223b00361a396177a9cb410ff61f20015ad";

fn split() -> TimeSplit {
    TimeSplit { train_end_ms: 100, validation_start_ms: 101, validation_end_ms: 200, test_start_ms: 201 }
}

fn shard(id: &str, prefix: &str, offset: u64) -> ShardInput {
    ShardInput {
        manifest_id: id.to_owned(),
        content_sha256: ABC_SHA256.to_owned(),
        sample_count: 3,
        feature_count: 6,
        asset_json: b"{\"contractId\":\"KRX:005930\"}".to_vec(),
        split: split(),
        feature_schema_sha256: "d".repeat(64),
        created_at_ms: 10 + offset,
        payload: b"abc".to_vec(),
        samples: vec![
            (format!("{prefix}-1"), 50 + offset),
            (format!("{prefix}-2"), 150 + offset),
            (format!("{prefix}-3"), 250 + offset),
        ],
        payload_feature_count: 6,
    }
}

fn request() -> MlDatasetShardSetCreateRequest {
    MlDatasetShardSetCreateRequest {
        shard_set_id: "shards-1".to_owned(),
        dataset_id: "dataset-1".to_owned(),
        manifest_ids: vec!["shard-a".to_owned(), "shard-b".to_owned()],
    }
}

#[test]
fn shard_set_is_immutable_ordered_and_xgboost_worker_ready() {
    let shards = vec![shard("shard-a", "a", 0), shard("shard-b", "b", 10)];
    let plan = check_shard_set(&request(), &shards).expect("shard set");
    assert_eq!((plan.shard_count, plan.sample_count, plan.feature_count), (2, 6, 12));
    assert_eq!(plan.created_at_ms, 20);
    assert_eq!(plan.shards[1].train.first_decision_time_ms, 60);
    assert_eq!(plan.shards[0].test.last_decision_time_ms, 250);
    let stored = seal_shard_set(&request(), plan, &b"abc".to_vec());
    assert_eq!(stored.combined_content_sha256, ABC_SHA256);
    assert!(!stored.worker_ready && !stored.live_order_allowed);
}

#[test]
fn shard_set_rejects_reversed_overlap_duplicate_and_tampering() {
    let reversed = vec![shard("shard-a", "a", 10), shard("shard-b", "b", 0)];
    assert_eq!(check_shard_set(&request(), &reversed).unwrap_err(), "shard train 구간이 겹치거나 순서가 역전됐습니다.");
    let duplicate = vec![shard("shard-a", "a", 0), shard("shard-b", "a", 10)];
    assert_eq!(check_shard_set(&request(), &duplicate).unwrap_err(), "shard 사이에 중복된 표본 ID가 있습니다.");
    let mut tampered = shard("shard-b", "b", 10);
    tampered.payload = b"abd".to_vec();
    let shards = vec![shard("shard-a", "a", 0), tampered];
    assert_eq!(
        check_shard_set(&request(), &shards).unwrap_err(),
        "ML shard payload의 해시 또는 행 수가 매니페스트와 다릅니다."
    );
    let mut one = request();
    one.manifest_ids = vec!["shard-a".to_owned(), "shard-a".to_owned()];
    let same = vec![shard("shard-a", "a", 0), shard("shard-a", "b", 10)];
    assert_eq!(check_shard_set(&one, &same).unwrap_err(), "shard set 매니페스트 ID는 중복될 수 없습니다.");
    let mut other_split = shard("shard-b", "b", 10);
    other_split.split.test_start_ms = 202;
    let shards = vec![shard("shard-a", "a", 0), other_split];
    assert_eq!(
        check_shard_set(&request(), &shards).unwrap_err(),
        "모든 shard는 동일한 train·validation·test 경계를 사용해야 합니다."
    );
}

#[test]
fn a_shard_set_request_is_refused_before_any_manifest_is_read() {
    assert_eq!(check_shard_set_request(&request()), Ok(()));
    let mut one = request();
    one.manifest_ids.truncate(1);
    assert_eq!(check_shard_set_request(&one), Err("shard set은 2~64개 매니페스트가 필요합니다.".to_owned()));
    let mut twice = request();
    let first = twice.manifest_ids[0].clone();
    twice.manifest_ids.push(first);
    assert_eq!(check_shard_set_request(&twice), Err("shard set 매니페스트 ID는 중복될 수 없습니다.".to_owned()));
    let mut bad = request();
    bad.manifest_ids.push("bad id".to_owned());
    assert!(check_shard_set_request(&bad).is_err());
}

#[test]
fn a_shard_set_history_reads_one_to_a_hundred_sets_never_worker_ready() {
    assert_eq!(check_shard_set_history_limit(1), Ok(()));
    assert_eq!(check_shard_set_history_limit(100), Ok(()));
    assert_eq!(
        check_shard_set_history_limit(0),
        Err("ML shard set 이력은 1~100개까지 조회할 수 있습니다.".to_owned())
    );
    assert!(check_shard_set_history_limit(101).is_err());
    let history = shard_set_history(vec![]);
    assert!(history.shard_sets.is_empty());
    assert!(!history.worker_ready);
    assert!(!history.live_order_allowed);
}
