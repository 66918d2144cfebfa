//! Logical datasets made of several stored manifests (shards): each shard's
//! payload checked against its manifest digest, the shards held to one asset,
//! split and feature schema, every sample id used once, and the shards'
//! train, validation and test windows following one another in time.
use vstd::prelude::*;
use crate::aggregation::copy_string as copy_text;
use crate::ml::{find_text_slot, identifier_message, ml_identifier_ok, strictly_sorted_texts, validate_identifier};
use crate::text::{lemma_seq_lt_asym, seq_lt, str_eq};
use crate::worker::{sha256_hex, sha256_hex_of};

verus! {

// ---------------------------------------------------------------- sample ids used once

pub open spec fn seqs_distinct(s: Seq<Seq<char>>) -> bool {
    forall|a: int, b: int| 0 <= a < b < s.len() ==> s[a] != s[b]
}

/// The ids of a shard's samples, in payload order.
pub open spec fn ids_of(samples: Seq<(String, u64)>) -> Seq<Seq<char>> {
    samples.map_values(|p: (String, u64)| p.0@)
}

/// The sorted texts hold exactly the ids given.
pub open spec fn holds_exactly(seen: Seq<String>, ids: Seq<Seq<char>>) -> bool {
    forall|x: Seq<char>| (exists|k: int| 0 <= k < seen.len() && (#[trigger] seen[k])@ == x) <==> ids.contains(x)
}

/// Adds a shard's sample ids to those seen so far; false as soon as one was
/// seen before.
fn note_ids(seen: &mut Vec<String>, samples: &Vec<(String, u64)>, Ghost(before): Ghost<Seq<Seq<char>>>) -> (r: bool)
    requires
        strictly_sorted_texts(old(seen)@),
        holds_exactly(old(seen)@, before),
        seqs_distinct(before),
    ensures
        r == seqs_distinct(before + ids_of(samples@)),
        r ==> strictly_sorted_texts(final(seen)@) && holds_exactly(final(seen)@, before + ids_of(samples@)),
{
    let ghost all = ids_of(samples@);
    let mut j: usize = 0;
    while j < samples.len()
        invariant
            j <= samples@.len(),
            all == ids_of(samples@),
            strictly_sorted_texts(seen@),
            holds_exactly(seen@, before + all.take(j as int)),
            seqs_distinct(before + all.take(j as int)),
        decreases samples.len() - j,
    {
        let ghost cur = before + all.take(j as int);
        let ghost next = before + all.take(j as int + 1);
        assert(next =~= cur.push(all[j as int]));
        assert(all[j as int] == samples@[j as int].0@);
        let (found, pos) = find_text_slot(seen, &samples[j].0);
        if found {
            proof {
                let x = samples@[j as int].0@;
                assert(seen@[pos as int]@ == x);
                assert(cur.contains(x));
                let idx = choose|idx: int| 0 <= idx < cur.len() && cur[idx] == x;
                let whole = before + all;
                assert(whole[idx] == cur[idx]);
                assert(whole[cur.len() as int] == x);
                assert(!seqs_distinct(whole));
            }
            return false;
        }
        let ghost seen_before = seen@;
        let ghost x = samples@[j as int].0@;
        proof {
            assert(!cur.contains(x)) by {
                if cur.contains(x) {
                    let k = choose|k: int| 0 <= k < seen_before.len() && (#[trigger] seen_before[k])@ == x;
                    if k < pos {
                        lemma_seq_lt_asym(seen_before[k]@, x);
                    } else {
                        lemma_seq_lt_asym(x, seen_before[k]@);
                    }
                }
            }
        }
        seen.insert(pos, copy_text(&samples[j].0));
        proof {
            assert forall|a: int, b: int| 0 <= a < b < seen@.len() implies seq_lt(
                (#[trigger] seen@[a])@,
                (#[trigger] seen@[b])@,
            ) by {
                if b < pos {
                    assert(seen@[a] == seen_before[a] && seen@[b] == seen_before[b]);
                } else if b == pos {
                    assert(seen@[a] == seen_before[a]);
                } else if a < pos {
                    assert(seen@[a] == seen_before[a] && seen@[b] == seen_before[b - 1]);
                } else if a == pos {
                    assert(seen@[b] == seen_before[b - 1]);
                } else {
                    assert(seen@[a] == seen_before[a - 1] && seen@[b] == seen_before[b - 1]);
                }
            }
            assert forall|y: Seq<char>| (exists|k: int| 0 <= k < seen@.len() && (#[trigger] seen@[k])@ == y)
                <==> next.contains(y) by {
                if exists|k: int| 0 <= k < seen@.len() && (#[trigger] seen@[k])@ == y {
                    let k = choose|k: int| 0 <= k < seen@.len() && (#[trigger] seen@[k])@ == y;
                    if k < pos {
                        assert(seen@[k] == seen_before[k]);
                        assert(cur.contains(y));
                    } else if k > pos {
                        assert(seen@[k] == seen_before[k - 1]);
                        assert(cur.contains(y));
                    } else {
                        assert(next[cur.len() as int] == y);
                    }
                    if cur.contains(y) {
                        let i = choose|i: int| 0 <= i < cur.len() && cur[i] == y;
                        assert(next[i] == y);
                    }
                }
                if next.contains(y) {
                    let i = choose|i: int| 0 <= i < next.len() && next[i] == y;
                    if i < cur.len() {
                        assert(cur[i] == y);
                        assert(cur.contains(y));
                        let k = choose|k: int| 0 <= k < seen_before.len() && (#[trigger] seen_before[k])@ == y;
                        if k < pos {
                            assert(seen@[k] == seen_before[k]);
                        } else {
                            assert(seen@[k + 1] == seen_before[k]);
                        }
                    } else {
                        assert(seen@[pos as int]@ == y);
                    }
                }
            }
            assert forall|a: int, b: int| 0 <= a < b < next.len() implies next[a] != next[b] by {
                if b == cur.len() {
                    assert(next[a] == cur[a]);
                } else {
                    assert(next[a] == cur[a] && next[b] == cur[b]);
                }
            }
        }
        j = j + 1;
    }
    assert(all.take(samples@.len() as int) =~= all);
    true
}

// ---------------------------------------------------------------- shards and their windows

pub const MAX_DATASET_SHARDS: usize = 64;
pub const MAX_SHARDED_SAMPLES: usize = 1_000_000;
pub const MAX_SHARDED_FEATURES: usize = 10_000_000;

/// The train, validation and test boundaries of a dataset.
#[derive(Debug, Clone, Copy, PartialEq, Eq, Structural)]
pub struct TimeSplit {
    pub train_end_ms: u64,
    pub validation_start_ms: u64,
    pub validation_end_ms: u64,
    pub test_start_ms: u64,
}

#[derive(Debug, Clone)]
pub struct MlDatasetShardSetCreateRequest {
    pub shard_set_id: String,
    pub dataset_id: String,
    pub manifest_ids: Vec<String>,
}

/// A stored manifest named by a shard set, with the payload stored beside it
/// and what its payload holds.
#[derive(Debug, Clone)]
pub struct ShardInput {
    pub manifest_id: String,
    pub content_sha256: String,
    pub sample_count: usize,
    pub feature_count: usize,
    /// The asset contract as the store serialises it.
    pub asset_json: Vec<u8>,
    pub split: TimeSplit,
    pub feature_schema_sha256: String,
    pub created_at_ms: u64,
    /// The stored payload, byte for byte.
    pub payload: Vec<u8>,
    /// The payload's samples in order: id and decision time.
    pub samples: Vec<(String, u64)>,
    /// How many features the payload holds.
    pub payload_feature_count: usize,
}

#[derive(Debug, Clone, Copy, PartialEq, Eq, Structural)]
pub struct MlDatasetShardExtent {
    pub sample_count: usize,
    pub first_decision_time_ms: u64,
    pub last_decision_time_ms: u64,
}

#[derive(Debug, Clone)]
pub struct MlDatasetShardDescriptor {
    pub manifest_id: String,
    pub content_sha256: String,
    pub sample_count: usize,
    pub feature_count: usize,
    pub train: MlDatasetShardExtent,
    pub validation: MlDatasetShardExtent,
    pub test: MlDatasetShardExtent,
}

/// The samples whose decision time lies in `[lo, hi]`: how many, the first
/// one's time and the last one's, in payload order.
pub open spec fn window_extent(samples: Seq<(String, u64)>, lo: u64, hi: u64) -> (nat, u64, u64)
    decreases samples.len(),
{
    if samples.len() == 0 {
        (0, 0, 0)
    } else {
        let e = window_extent(samples.drop_last(), lo, hi);
        let t = samples.last().1;
        if lo <= t && t <= hi {
            (e.0 + 1, if e.0 == 0 { t } else { e.1 }, t)
        } else {
            e
        }
    }
}

pub open spec fn train_window(s: ShardInput) -> (nat, u64, u64) {
    window_extent(s.samples@, 0, s.split.train_end_ms)
}

pub open spec fn validation_window(s: ShardInput) -> (nat, u64, u64) {
    window_extent(s.samples@, s.split.validation_start_ms, s.split.validation_end_ms)
}

pub open spec fn test_window(s: ShardInput) -> (nat, u64, u64) {
    window_extent(s.samples@, s.split.test_start_ms, u64::MAX)
}

pub open spec fn extent_model(e: MlDatasetShardExtent) -> (nat, u64, u64) {
    (e.sample_count as nat, e.first_decision_time_ms, e.last_decision_time_ms)
}

/// The sample ids of the first `k` shards, in order.
pub open spec fn flat_ids(shards: Seq<ShardInput>, k: int) -> Seq<Seq<char>>
    decreases k,
{
    if k <= 0 {
        Seq::empty()
    } else {
        flat_ids(shards, k - 1) + ids_of(shards[k - 1].samples@)
    }
}

/// Why shard `k` is refused, given the sample and feature totals of the shards
/// before it: its payload against its manifest, its asset, split and schema
/// against the first shard's, a sample id used before, the totals, and a
/// window with no sample.
pub open spec fn shard_issue(shards: Seq<ShardInput>, k: int, samples_before: int, features_before: int) -> Option<
    Seq<char>,
> {
    let s = shards[k];
    if sha256_hex_of(s.payload@) != s.content_sha256@ || s.samples@.len() != s.sample_count || s.payload_feature_count
        != s.feature_count {
        Some("ML shard payload의 해시 또는 행 수가 매니페스트와 다릅니다."@)
    } else if s.asset_json@ != shards[0].asset_json@ {
        Some("모든 shard는 동일한 자산 계약이어야 합니다."@)
    } else if s.split != shards[0].split {
        Some("모든 shard는 동일한 train·validation·test 경계를 사용해야 합니다."@)
    } else if s.feature_schema_sha256@ != shards[0].feature_schema_sha256@ {
        Some("모든 shard는 동일한 피처 스키마를 사용해야 합니다."@)
    } else if !seqs_distinct(flat_ids(shards, k + 1)) {
        Some("shard 사이에 중복된 표본 ID가 있습니다."@)
    } else if samples_before + s.sample_count > usize::MAX {
        Some("shard 표본 수가 범위를 초과했습니다."@)
    } else if features_before + s.feature_count > usize::MAX {
        Some("shard 피처 수가 범위를 초과했습니다."@)
    } else if train_window(s).0 == 0 {
        Some("각 shard의 train 구간에는 최소 한 표본이 필요합니다."@)
    } else if validation_window(s).0 == 0 {
        Some("각 shard의 validation 구간에는 최소 한 표본이 필요합니다."@)
    } else if test_window(s).0 == 0 {
        Some("각 shard의 test 구간에는 최소 한 표본이 필요합니다."@)
    } else {
        None
    }
}

/// The first `k` shards checked in order: their sample and feature totals, or
/// the first refusal.
pub open spec fn shard_fold(shards: Seq<ShardInput>, k: int) -> Result<(int, int), Seq<char>>
    decreases k,
{
    if k <= 0 {
        Ok((0, 0))
    } else {
        match shard_fold(shards, k - 1) {
            Err(e) => Err(e),
            Ok((sc, fc)) => match shard_issue(shards, k - 1, sc, fc) {
                Some(e) => Err(e),
                None => Ok((sc + shards[k - 1].sample_count, fc + shards[k - 1].feature_count)),
            },
        }
    }
}

/// The first pair of neighbouring shards, among the first `n`, whose train,
/// validation or test windows overlap or run backwards.
pub open spec fn order_issue(shards: Seq<ShardInput>, n: int) -> Option<Seq<char>>
    decreases n,
{
    if n <= 1 {
        None
    } else {
        match order_issue(shards, n - 1) {
            Some(e) => Some(e),
            None => {
                let l = shards[n - 2];
                let r = shards[n - 1];
                if train_window(l).2 >= train_window(r).1 {
                    Some("shard train 구간이 겹치거나 순서가 역전됐습니다."@)
                } else if validation_window(l).2 >= validation_window(r).1 {
                    Some("shard validation 구간이 겹치거나 순서가 역전됐습니다."@)
                } else if test_window(l).2 >= test_window(r).1 {
                    Some("shard test 구간이 겹치거나 순서가 역전됐습니다."@)
                } else {
                    None
                }
            },
        }
    }
}

pub open spec fn manifest_ids_distinct(ids: Seq<String>) -> bool {
    forall|a: int, b: int| 0 <= a < b < ids.len() ==> ids[a]@ != ids[b]@
}

/// The first refusal of a shard-set request on its own, before any manifest
/// is read, or `None`.
pub open spec fn shard_set_request_refusal(r: MlDatasetShardSetCreateRequest) -> Option<Seq<char>> {
    let n = r.manifest_ids@.len();
    if !ml_identifier_ok(r.shard_set_id@) {
        Some(identifier_message("shard set"@))
    } else if !ml_identifier_ok(r.dataset_id@) {
        Some(identifier_message("논리 데이터셋"@))
    } else if n < 2 || n > MAX_DATASET_SHARDS {
        Some("shard set은 2~64개 매니페스트가 필요합니다."@)
    } else if !manifest_ids_distinct(r.manifest_ids@) {
        Some("shard set 매니페스트 ID는 중복될 수 없습니다."@)
    } else if exists|i: int| 0 <= i < n && !ml_identifier_ok((#[trigger] r.manifest_ids@[i])@) {
        Some(identifier_message("shard 매니페스트"@))
    } else {
        None
    }
}

/// The first refusal of a shard set, or `None`.
pub open spec fn shard_set_refusal(r: MlDatasetShardSetCreateRequest, shards: Seq<ShardInput>) -> Option<Seq<char>> {
    match shard_set_request_refusal(r) {
        Some(e) => Some(e),
        None => shard_set_rest(shards),
    }
}

/// The refusal of a shard set whose request is well formed: from its shards.
pub open spec fn shard_set_rest(shards: Seq<ShardInput>) -> Option<Seq<char>> {
    match shard_fold(shards, shards.len() as int) {
        Err(e) => Some(e),
        Ok((sc, fc)) => if sc > MAX_SHARDED_SAMPLES || fc > MAX_SHARDED_FEATURES {
            Some("논리 shard set은 표본 1000000개·피처 10000000개를 넘을 수 없습니다."@)
        } else {
            order_issue(shards, shards.len() as int)
        },
    }
}

pub open spec fn shard_set_ok(r: MlDatasetShardSetCreateRequest, shards: Seq<ShardInput>) -> bool {
    shard_set_refusal(r, shards) is None
}

/// A checked shard set, before its combined digest is taken.
#[derive(Debug, Clone)]
pub struct ShardSetPlan {
    pub asset_json: Vec<u8>,
    pub split: TimeSplit,
    pub feature_schema_sha256: String,
    pub shard_count: usize,
    pub sample_count: usize,
    pub feature_count: usize,
    pub shards: Vec<MlDatasetShardDescriptor>,
    pub created_at_ms: u64,
}

pub open spec fn descriptor_of(d: MlDatasetShardDescriptor, s: ShardInput) -> bool {
    &&& d.manifest_id@ == s.manifest_id@
    &&& d.content_sha256@ == s.content_sha256@
    &&& d.sample_count == s.sample_count
    &&& d.feature_count == s.feature_count
    &&& extent_model(d.train) == train_window(s)
    &&& extent_model(d.validation) == validation_window(s)
    &&& extent_model(d.test) == test_window(s)
}

pub open spec fn max_created(shards: Seq<ShardInput>, k: int) -> int
    decreases k,
{
    if k <= 0 {
        0
    } else {
        let m = max_created(shards, k - 1);
        if shards[k - 1].created_at_ms > m {
            shards[k - 1].created_at_ms as int
        } else {
            m
        }
    }
}

fn window_of(samples: &Vec<(String, u64)>, lo: u64, hi: u64) -> (r: MlDatasetShardExtent)
    ensures
        extent_model(r) == window_extent(samples@, lo, hi),
{
    let mut count: usize = 0;
    let mut first: u64 = 0;
    let mut last: u64 = 0;
    let mut i: usize = 0;
    while i < samples.len()
        invariant
            i <= samples@.len(),
            (count as nat, first, last) == window_extent(samples@.take(i as int), lo, hi),
            count <= i,
        decreases samples.len() - i,
    {
        proof {
            assert(samples@.take(i as int + 1).drop_last() =~= samples@.take(i as int));
        }
        let t = samples[i].1;
        if lo <= t && t <= hi {
            if count == 0 {
                first = t;
            }
            last = t;
            count = count + 1;
        }
        i = i + 1;
    }
    assert(samples@.take(samples@.len() as int) =~= samples@);
    MlDatasetShardExtent { sample_count: count, first_decision_time_ms: first, last_decision_time_ms: last }
}

fn bytes_eq(a: &Vec<u8>, b: &Vec<u8>) -> (r: bool)
    ensures
        r == (a@ == b@),
{
    if a.len() != b.len() {
        return false;
    }
    let mut i: usize = 0;
    while i < a.len()
        invariant
            i <= a@.len() == b@.len(),
            forall|k: int| 0 <= k < i ==> a@[k] == b@[k],
        decreases a.len() - i,
    {
        if a[i] != b[i] {
            return false;
        }
        i = i + 1;
    }
    assert(a@ =~= b@);
    true
}

/// Checks shard `k` after the shards before it passed, and describes it.
fn check_one_shard(
    shards: &Vec<ShardInput>,
    k: usize,
    samples_before: usize,
    features_before: usize,
    seen: &mut Vec<String>,
) -> (r: Result<MlDatasetShardDescriptor, String>)
    requires
        k < shards@.len(),
        strictly_sorted_texts(old(seen)@),
        holds_exactly(old(seen)@, flat_ids(shards@, k as int)),
        seqs_distinct(flat_ids(shards@, k as int)),
    ensures
        match shard_issue(shards@, k as int, samples_before as int, features_before as int) {
            Some(e) => r matches Err(m) && m@ == e,
            None => r matches Ok(d) && descriptor_of(d, shards@[k as int]) && strictly_sorted_texts(final(seen)@)
                && holds_exactly(final(seen)@, flat_ids(shards@, k + 1)),
        },
{
    let s = &shards[k];
    let digest = sha256_hex(s.payload.as_slice());
    if !str_eq(digest.as_str(), s.content_sha256.as_str()) || s.samples.len() != s.sample_count
        || s.payload_feature_count != s.feature_count {
        return Err("ML shard payload의 해시 또는 행 수가 매니페스트와 다릅니다.".to_owned());
    }
    let first = &shards[0];
    if !bytes_eq(&s.asset_json, &first.asset_json) {
        return Err("모든 shard는 동일한 자산 계약이어야 합니다.".to_owned());
    }
    if s.split != first.split {
        return Err("모든 shard는 동일한 train·validation·test 경계를 사용해야 합니다.".to_owned());
    }
    if !str_eq(s.feature_schema_sha256.as_str(), first.feature_schema_sha256.as_str()) {
        return Err("모든 shard는 동일한 피처 스키마를 사용해야 합니다.".to_owned());
    }
    proof {
        assert(flat_ids(shards@, k + 1) == flat_ids(shards@, k as int) + ids_of(s.samples@));
    }
    if !note_ids(seen, &s.samples, Ghost(flat_ids(shards@, k as int))) {
        return Err("shard 사이에 중복된 표본 ID가 있습니다.".to_owned());
    }
    if samples_before > usize::MAX - s.sample_count {
        return Err("shard 표본 수가 범위를 초과했습니다.".to_owned());
    }
    if features_before > usize::MAX - s.feature_count {
        return Err("shard 피처 수가 범위를 초과했습니다.".to_owned());
    }
    let train = window_of(&s.samples, 0, s.split.train_end_ms);
    if train.sample_count == 0 {
        return Err("각 shard의 train 구간에는 최소 한 표본이 필요합니다.".to_owned());
    }
    let validation = window_of(&s.samples, s.split.validation_start_ms, s.split.validation_end_ms);
    if validation.sample_count == 0 {
        return Err("각 shard의 validation 구간에는 최소 한 표본이 필요합니다.".to_owned());
    }
    let test = window_of(&s.samples, s.split.test_start_ms, u64::MAX);
    if test.sample_count == 0 {
        return Err("각 shard의 test 구간에는 최소 한 표본이 필요합니다.".to_owned());
    }
    Ok(
        MlDatasetShardDescriptor {
            manifest_id: copy_text(&s.manifest_id),
            content_sha256: copy_text(&s.content_sha256),
            sample_count: s.sample_count,
            feature_count: s.feature_count,
            train,
            validation,
            test,
        },
    )
}

proof fn lemma_shard_fold_err(shards: Seq<ShardInput>, k: int, n: int)
    requires
        0 <= k <= n,
        shard_fold(shards, k) is Err,
    ensures
        shard_fold(shards, n) == shard_fold(shards, k),
    decreases n - k,
{
    if n > k {
        lemma_shard_fold_err(shards, k, n - 1);
    }
}

proof fn lemma_order_issue_stays(shards: Seq<ShardInput>, k: int, n: int)
    requires
        1 <= k <= n,
        order_issue(shards, k) is Some,
    ensures
        order_issue(shards, n) == order_issue(shards, k),
    decreases n - k,
{
    if n > k {
        lemma_order_issue_stays(shards, k, n - 1);
    }
}

/// Checks a shard-set request on its own: its identifiers, 2 to 64 distinct
/// manifest ids. This is what is refused before any manifest is read.
pub fn check_shard_set_request(request: &MlDatasetShardSetCreateRequest) -> (r: Result<(), String>)
    ensures
        match shard_set_request_refusal(*request) {
            Some(e) => r matches Err(m) && m@ == e,
            None => r is Ok,
        },
{
    validate_identifier(request.shard_set_id.as_str(), "shard set")?;
    validate_identifier(request.dataset_id.as_str(), "논리 데이터셋")?;
    let n = request.manifest_ids.len();
    if n < 2 || n > MAX_DATASET_SHARDS {
        return Err("shard set은 2~64개 매니페스트가 필요합니다.".to_owned());
    }
    let mut a: usize = 0;
    while a < n
        invariant
            n == request.manifest_ids@.len(),
            a <= n,
            2 <= n <= MAX_DATASET_SHARDS,
            ml_identifier_ok(request.shard_set_id@),
            ml_identifier_ok(request.dataset_id@),
            forall|x: int, y: int| 0 <= x < y < n && x < a ==> request.manifest_ids@[x]@ != request.manifest_ids@[y]@,
        decreases n - a,
    {
        let mut b: usize = a + 1;
        while b < n
            invariant
                n == request.manifest_ids@.len(),
                a < n,
                a + 1 <= b <= n,
                2 <= n <= MAX_DATASET_SHARDS,
                ml_identifier_ok(request.shard_set_id@),
                ml_identifier_ok(request.dataset_id@),
                forall|x: int, y: int| 0 <= x < y < n && x < a ==> request.manifest_ids@[x]@ != request.manifest_ids@[y]@,
                forall|y: int| a < y < b ==> request.manifest_ids@[a as int]@ != request.manifest_ids@[y]@,
            decreases n - b,
        {
            if str_eq(request.manifest_ids[a].as_str(), request.manifest_ids[b].as_str()) {
                assert(!manifest_ids_distinct(request.manifest_ids@)) by {
                    assert(request.manifest_ids@[a as int]@ == request.manifest_ids@[b as int]@);
                }
                return Err("shard set 매니페스트 ID는 중복될 수 없습니다.".to_owned());
            }
            b = b + 1;
        }
        a = a + 1;
    }
    let mut v: usize = 0;
    while v < n
        invariant
            n == request.manifest_ids@.len(),
            v <= n,
            2 <= n <= MAX_DATASET_SHARDS,
            ml_identifier_ok(request.shard_set_id@),
            ml_identifier_ok(request.dataset_id@),
            manifest_ids_distinct(request.manifest_ids@),
            forall|x: int| 0 <= x < v ==> ml_identifier_ok((#[trigger] request.manifest_ids@[x])@),
        decreases n - v,
    {
        match validate_identifier(request.manifest_ids[v].as_str(), "shard 매니페스트") {
            Err(e) => {
                assert(!ml_identifier_ok(request.manifest_ids@[v as int]@));
                return Err(e);
            },
            Ok(()) => {},
        }
        v = v + 1;
    }
    Ok(())
}

/// Checks a shard set against the manifests it names (see
/// [`shard_set_refusal`]) and gathers its totals and shard descriptors. Each
/// shard's payload must hash to its manifest's content digest.
pub fn check_shard_set(request: &MlDatasetShardSetCreateRequest, shards: &Vec<ShardInput>) -> (r: Result<
    ShardSetPlan,
    String,
>)
    requires
        shards@.len() == request.manifest_ids@.len(),
    ensures
        r is Ok <==> shard_set_ok(*request, shards@),
        r matches Err(e) ==> shard_set_refusal(*request, shards@) == Some(e@),
        r matches Ok(p) ==> {
            let n = shards@.len() as int;
            &&& p.shard_count == n
            &&& shard_fold(shards@, n) == Ok::<(int, int), Seq<char>>((p.sample_count as int, p.feature_count as int))
            &&& p.shards@.len() == n
            &&& forall|i: int| 0 <= i < n ==> descriptor_of(#[trigger] p.shards@[i], shards@[i])
            &&& p.asset_json@ == shards@[0].asset_json@
            &&& p.split == shards@[0].split
            &&& p.feature_schema_sha256@ == shards@[0].feature_schema_sha256@
            &&& p.created_at_ms == max_created(shards@, n)
            &&& forall|i: int| 0 <= i < n ==> sha256_hex_of((#[trigger] shards@[i]).payload@) == shards@[i].content_sha256@
        },
{
    check_shard_set_request(request)?;
    let n = request.manifest_ids.len();
    assert(shard_set_refusal(*request, shards@) == shard_set_rest(shards@));
    let mut seen: Vec<String> = Vec::new();
    let mut descriptors: Vec<MlDatasetShardDescriptor> = Vec::new();
    let mut sample_count: usize = 0;
    let mut feature_count: usize = 0;
    let mut created_at_ms: u64 = 0;
    let mut k: usize = 0;
    assert(flat_ids(shards@, 0) =~= Seq::<Seq<char>>::empty());
    while k < n
        invariant
            n == shards@.len(),
            k <= n,
            n <= MAX_DATASET_SHARDS,
            shard_set_refusal(*request, shards@) == shard_set_rest(shards@),
            shard_fold(shards@, k as int) == Ok::<(int, int), Seq<char>>((sample_count as int, feature_count as int)),
            strictly_sorted_texts(seen@),
            holds_exactly(seen@, flat_ids(shards@, k as int)),
            seqs_distinct(flat_ids(shards@, k as int)),
            descriptors@.len() == k,
            forall|i: int| 0 <= i < k ==> descriptor_of(#[trigger] descriptors@[i], shards@[i]),
            forall|i: int| 0 <= i < k ==> sha256_hex_of((#[trigger] shards@[i]).payload@) == shards@[i].content_sha256@,
            created_at_ms == max_created(shards@, k as int),
        decreases n - k,
    {
        match check_one_shard(shards, k, sample_count, feature_count, &mut seen) {
            Err(e) => {
                proof {
                    lemma_shard_fold_err(shards@, k as int + 1, n as int);
                }
                return Err(e);
            },
            Ok(d) => {
                descriptors.push(d);
                sample_count = sample_count + shards[k].sample_count;
                feature_count = feature_count + shards[k].feature_count;
                if shards[k].created_at_ms > created_at_ms {
                    created_at_ms = shards[k].created_at_ms;
                }
            },
        }
        k = k + 1;
    }
    if sample_count > MAX_SHARDED_SAMPLES || feature_count > MAX_SHARDED_FEATURES {
        return Err("논리 shard set은 표본 1000000개·피처 10000000개를 넘을 수 없습니다.".to_owned());
    }
    let mut i: usize = 2;
    while i <= n
        invariant
            n == shards@.len() == descriptors@.len(),
            2 <= i <= n + 1,
            n <= MAX_DATASET_SHARDS,
            shard_set_refusal(*request, shards@) == shard_set_rest(shards@),
            shard_fold(shards@, n as int) == Ok::<(int, int), Seq<char>>((sample_count as int, feature_count as int)),
            sample_count <= MAX_SHARDED_SAMPLES,
            feature_count <= MAX_SHARDED_FEATURES,
            order_issue(shards@, i as int - 1) is None,
            forall|x: int| 0 <= x < n ==> descriptor_of(#[trigger] descriptors@[x], shards@[x]),
        decreases n + 1 - i,
    {
        let l = &descriptors[i - 2];
        let r = &descriptors[i - 1];
        proof {
            assert(descriptor_of(descriptors@[i - 2], shards@[i - 2]));
            assert(descriptor_of(descriptors@[i - 1], shards@[i - 1]));
        }
        if l.train.last_decision_time_ms >= r.train.first_decision_time_ms {
            proof {
                lemma_order_issue_stays(shards@, i as int, n as int);
            }
            return Err("shard train 구간이 겹치거나 순서가 역전됐습니다.".to_owned());
        }
        if l.validation.last_decision_time_ms >= r.validation.first_decision_time_ms {
            proof {
                lemma_order_issue_stays(shards@, i as int, n as int);
            }
            return Err("shard validation 구간이 겹치거나 순서가 역전됐습니다.".to_owned());
        }
        if l.test.last_decision_time_ms >= r.test.first_decision_time_ms {
            proof {
                lemma_order_issue_stays(shards@, i as int, n as int);
            }
            return Err("shard test 구간이 겹치거나 순서가 역전됐습니다.".to_owned());
        }
        i = i + 1;
    }
    let first = &shards[0];
    Ok(
        ShardSetPlan {
            asset_json: first.asset_json.clone(),
            split: first.split,
            feature_schema_sha256: copy_text(&first.feature_schema_sha256),
            shard_count: n,
            sample_count,
            feature_count,
            shards: descriptors,
            created_at_ms,
        },
    )
}

/// A stored shard set: the checked plan pinned by the SHA-256 of its combined
/// hash input (dataset id, asset, split, schema digest and shard descriptors, as
/// serialised), never worker-ready until a job uses it, never for live orders.
#[derive(Debug, Clone)]
pub struct StoredMlDatasetShardSet {
    pub shard_set_id: String,
    pub dataset_id: String,
    pub asset_json: Vec<u8>,
    pub split: TimeSplit,
    pub feature_schema_sha256: String,
    pub combined_content_sha256: String,
    pub shard_count: usize,
    pub sample_count: usize,
    pub feature_count: usize,
    pub shards: Vec<MlDatasetShardDescriptor>,
    pub created_at_ms: u64,
    pub worker_ready: bool,
    pub live_order_allowed: bool,
}

pub fn seal_shard_set(request: &MlDatasetShardSetCreateRequest, plan: ShardSetPlan, combined_hash_input: &Vec<u8>) -> (r:
    StoredMlDatasetShardSet)
    ensures
        r.shard_set_id == request.shard_set_id,
        r.dataset_id == request.dataset_id,
        r.asset_json@ == plan.asset_json@,
        r.split == plan.split,
        r.feature_schema_sha256 == plan.feature_schema_sha256,
        r.combined_content_sha256@ == sha256_hex_of(combined_hash_input@),
        r.shard_count == plan.shard_count,
        r.sample_count == plan.sample_count,
        r.feature_count == plan.feature_count,
        r.shards@ == plan.shards@,
        r.created_at_ms == plan.created_at_ms,
        !r.worker_ready,
        !r.live_order_allowed,
{
    StoredMlDatasetShardSet {
        shard_set_id: copy_text(&request.shard_set_id),
        dataset_id: copy_text(&request.dataset_id),
        asset_json: plan.asset_json,
        split: plan.split,
        feature_schema_sha256: plan.feature_schema_sha256,
        combined_content_sha256: sha256_hex(combined_hash_input.as_slice()),
        shard_count: plan.shard_count,
        sample_count: plan.sample_count,
        feature_count: plan.feature_count,
        shards: plan.shards,
        created_at_ms: plan.created_at_ms,
        worker_ready: false,
        live_order_allowed: false,
    }
}

// ---------------------------------------------------------------- history

/// How many shard sets one history query may read.
pub const MAX_HISTORY_LIMIT: u16 = 100;

/// Recent shard sets; none of them is worker-ready or for live orders.
#[derive(Debug, Clone)]
pub struct MlDatasetShardSetHistory {
    pub shard_sets: Vec<StoredMlDatasetShardSet>,
    pub worker_ready: bool,
    pub live_order_allowed: bool,
}

/// A history query reads 1 to 100 shard sets.
pub fn check_shard_set_history_limit(limit: u16) -> (r: Result<(), String>)
    ensures
        r is Ok <==> 1 <= limit <= MAX_HISTORY_LIMIT,
        r matches Err(e) ==> e@ == "ML shard set 이력은 1~100개까지 조회할 수 있습니다."@,
{
    if limit == 0 || limit > MAX_HISTORY_LIMIT {
        return Err("ML shard set 이력은 1~100개까지 조회할 수 있습니다.".to_owned());
    }
    Ok(())
}

/// The history of the shard sets read, newest first as read.
pub fn shard_set_history(shard_sets: Vec<StoredMlDatasetShardSet>) -> (r: MlDatasetShardSetHistory)
    ensures
        r.shard_sets@ == shard_sets@,
        !r.worker_ready,
        !r.live_order_allowed,
{
    MlDatasetShardSetHistory { shard_sets, worker_ready: false, live_order_allowed: false }
}

} // verus!
