//! The model-training pipeline's contracts: identifiers, artifacts, reported
//! out-of-sample metrics, hyperparameters, and the integer part of the
//! out-of-sample metrics recomputed from raw predictions.
use vstd::prelude::*;
use crate::aggregation::copy_string as copy_text;
use crate::worker::{sha256_hex, sha256_hex_of};
use crate::text::{
    chars_of, concat_str, contains, contains_chars, is_ascii_alnum, is_hex_digit, occurs_at, occurs_at_exec,
    lemma_seq_lt_asym, lemma_seq_lt_total, lemma_seq_lt_trans, seq_lt, str_eq, str_lt, valid_ident,
    valid_identifier,
};

verus! {

pub const MAX_SAMPLES: usize = 20_000;
pub const MAX_HYPERPARAMETERS: usize = 64;
pub const MAX_ARTIFACT_BYTES: u64 = 2_147_483_648;
pub const PROBABILITY_SCALE: u32 = 1_000_000;

#[derive(Debug, Clone, Copy, PartialEq, Eq, Structural)]
pub enum MlAlgorithm {
    Lightgbm,
    Xgboost,
    Chronos,
    Timesfm,
}

#[derive(Debug, Clone, Copy, PartialEq, Eq, Structural)]
pub enum MlArtifactFormat {
    LightgbmText,
    XgboostJson,
    Safetensors,
    Onnx,
}

#[derive(Debug, Clone, Copy, PartialEq, Eq, Structural)]
pub enum MlDatasetSourceKind {
    Manifest,
    ShardSet,
}

impl Default for MlDatasetSourceKind {
    fn default() -> (r: Self)
        ensures
            r == MlDatasetSourceKind::Manifest,
    {
        MlDatasetSourceKind::Manifest
    }
}

#[derive(Debug, Clone, PartialEq, Eq, Structural)]
pub struct MlOosMetrics {
    pub sample_count: u64,
    pub fold_count: u32,
    pub log_loss_millionths: u64,
    pub brier_score_millionths: u64,
    pub expected_calibration_error_bps: u64,
    pub balanced_accuracy_bps: u64,
    pub evaluated_at_ms: u64,
}

#[derive(Debug, Clone)]
pub struct MlOosPrediction {
    pub sample_id: String,
    pub fold_index: u32,
    pub target_class: u8,
    pub probability_down_millionths: u32,
    pub probability_flat_millionths: u32,
    pub probability_up_millionths: u32,
}

#[derive(Debug, Clone)]
pub struct MlArtifactDescriptor {
    pub file_name: String,
    pub format: MlArtifactFormat,
    pub sha256: String,
    pub byte_size: u64,
}

// ---------------------------------------------------------------- identifiers and keys

/// An identifier: 1 to 128 ASCII letters, digits, `-`, `_`, `.` or `:`.
pub open spec fn ml_identifier_ok(s: Seq<char>) -> bool {
    valid_ident(s, 128, true)
}

pub open spec fn identifier_message(label: Seq<char>) -> Seq<char> {
    label + " 식별자는 1~128자의 영문·숫자·-_.:만 사용할 수 있습니다."@
}

pub fn validate_identifier(value: &str, label: &str) -> (r: Result<(), String>)
    ensures
        r is Ok <==> ml_identifier_ok(value@),
        r matches Err(e) ==> e@ == identifier_message(label@),
{
    if valid_identifier(value, 128, true) {
        Ok(())
    } else {
        Err(concat_str(label, " 식별자는 1~128자의 영문·숫자·-_.:만 사용할 수 있습니다."))
    }
}

/// A SHA-256 digest in hex: 64 hexadecimal digits.
pub open spec fn sha256_hex_ok(s: Seq<char>) -> bool {
    s.len() == 64 && forall|i: int| 0 <= i < s.len() ==> is_hex_digit(#[trigger] s[i])
}

pub fn is_sha256(value: &str) -> (r: bool)
    ensures
        r == sha256_hex_ok(value@),
{
    let n = value.unicode_len();
    if n != 64 {
        return false;
    }
    let mut i: usize = 0;
    while i < n
        invariant
            n == value@.len(),
            i <= n,
            forall|k: int| 0 <= k < i ==> is_hex_digit(#[trigger] value@[k]),
        decreases n - i,
    {
        let c = value.get_char(i);
        if !(('0' <= c && c <= '9') || ('a' <= c && c <= 'f') || ('A' <= c && c <= 'F')) {
            return false;
        }
        i = i + 1;
    }
    true
}

pub fn algorithm_key(algorithm: MlAlgorithm) -> (r: &'static str)
    ensures
        r@ == match algorithm {
            MlAlgorithm::Lightgbm => "lightgbm"@,
            MlAlgorithm::Xgboost => "xgboost"@,
            MlAlgorithm::Chronos => "chronos"@,
            MlAlgorithm::Timesfm => "timesfm"@,
        },
{
    match algorithm {
        MlAlgorithm::Lightgbm => "lightgbm",
        MlAlgorithm::Xgboost => "xgboost",
        MlAlgorithm::Chronos => "chronos",
        MlAlgorithm::Timesfm => "timesfm",
    }
}

pub fn dataset_source_kind_key(kind: MlDatasetSourceKind) -> (r: &'static str)
    ensures
        r@ == match kind {
            MlDatasetSourceKind::Manifest => "manifest"@,
            MlDatasetSourceKind::ShardSet => "shard_set"@,
        },
{
    match kind {
        MlDatasetSourceKind::Manifest => "manifest",
        MlDatasetSourceKind::ShardSet => "shard_set",
    }
}

pub fn artifact_format_key(format: MlArtifactFormat) -> (r: &'static str)
    ensures
        r@ == match format {
            MlArtifactFormat::LightgbmText => "lightgbm_text"@,
            MlArtifactFormat::XgboostJson => "xgboost_json"@,
            MlArtifactFormat::Safetensors => "safetensors"@,
            MlArtifactFormat::Onnx => "onnx"@,
        },
{
    match format {
        MlArtifactFormat::LightgbmText => "lightgbm_text",
        MlArtifactFormat::XgboostJson => "xgboost_json",
        MlArtifactFormat::Safetensors => "safetensors",
        MlArtifactFormat::Onnx => "onnx",
    }
}

// ---------------------------------------------------------------- artifacts

pub open spec fn artifact_name_char(c: char) -> bool {
    is_ascii_alnum(c) || c == '.' || c == '_' || c == '-'
}

/// A plain file name: 1 to 128 characters from ASCII letters, digits, `.`, `_`
/// and `-`, with no `..` in it (so no path separator and no parent step).
pub open spec fn artifact_name_ok(s: Seq<char>) -> bool {
    &&& 0 < s.len() <= 128
    &&& forall|i: int| 0 <= i < s.len() ==> artifact_name_char(#[trigger] s[i])
    &&& !contains(s, ".."@)
}

pub open spec fn ends_with(s: Seq<char>, suffix: Seq<char>) -> bool {
    suffix.len() <= s.len() && s.subrange(s.len() - suffix.len(), s.len() as int) == suffix
}

pub open spec fn format_extension(format: MlArtifactFormat) -> Seq<char> {
    match format {
        MlArtifactFormat::LightgbmText => ".txt"@,
        MlArtifactFormat::XgboostJson => ".json"@,
        MlArtifactFormat::Safetensors => ".safetensors"@,
        MlArtifactFormat::Onnx => ".onnx"@,
    }
}

/// The formats each algorithm may produce: its native one or ONNX.
pub open spec fn algorithm_produces(algorithm: MlAlgorithm, format: MlArtifactFormat) -> bool {
    match algorithm {
        MlAlgorithm::Lightgbm => format == MlArtifactFormat::LightgbmText || format == MlArtifactFormat::Onnx,
        MlAlgorithm::Xgboost => format == MlArtifactFormat::XgboostJson || format == MlArtifactFormat::Onnx,
        MlAlgorithm::Chronos | MlAlgorithm::Timesfm => format == MlArtifactFormat::Safetensors || format
            == MlArtifactFormat::Onnx,
    }
}

pub open spec fn artifact_ok(algorithm: MlAlgorithm, artifact: MlArtifactDescriptor) -> bool {
    &&& artifact_name_ok(artifact.file_name@)
    &&& ends_with(artifact.file_name@, format_extension(artifact.format))
    &&& algorithm_produces(algorithm, artifact.format)
    &&& sha256_hex_ok(artifact.sha256@)
    &&& 0 < artifact.byte_size <= MAX_ARTIFACT_BYTES
}

fn ends_with_exec(s: &Vec<char>, suffix: &str) -> (r: bool)
    ensures
        r == ends_with(s@, suffix@),
{
    let p = chars_of(suffix);
    if p.len() > s.len() {
        return false;
    }
    occurs_at_exec(s, &p, s.len() - p.len())
}

fn artifact_name_ok_exec(name: &str) -> (r: bool)
    ensures
        r == artifact_name_ok(name@),
{
    let s = chars_of(name);
    if s.len() == 0 || s.len() > 128 {
        return false;
    }
    let mut i: usize = 0;
    while i < s.len()
        invariant
            s@ == name@,
            i <= s.len(),
            forall|k: int| 0 <= k < i ==> artifact_name_char(#[trigger] s@[k]),
        decreases s.len() - i,
    {
        let c = s[i];
        if !(('0' <= c && c <= '9') || ('a' <= c && c <= 'z') || ('A' <= c && c <= 'Z') || c == '.' || c == '_' || c
            == '-') {
            return false;
        }
        i = i + 1;
    }
    let dots = chars_of("..");
    !contains_chars(&s, &dots)
}

pub fn validate_artifact(algorithm: MlAlgorithm, artifact: &MlArtifactDescriptor) -> (r: Result<(), String>)
    ensures
        r is Ok <==> artifact_ok(algorithm, *artifact),
        r matches Err(e) ==> e@ == "모델 아티팩트의 이름·포맷·해시·크기 계약이 올바르지 않습니다."@,
{
    let safe_name = artifact_name_ok_exec(artifact.file_name.as_str());
    let name = chars_of(artifact.file_name.as_str());
    let extension_matches = match artifact.format {
        MlArtifactFormat::LightgbmText => ends_with_exec(&name, ".txt"),
        MlArtifactFormat::XgboostJson => ends_with_exec(&name, ".json"),
        MlArtifactFormat::Safetensors => ends_with_exec(&name, ".safetensors"),
        MlArtifactFormat::Onnx => ends_with_exec(&name, ".onnx"),
    };
    let algorithm_matches = match algorithm {
        MlAlgorithm::Lightgbm => matches!(artifact.format, MlArtifactFormat::LightgbmText | MlArtifactFormat::Onnx),
        MlAlgorithm::Xgboost => matches!(artifact.format, MlArtifactFormat::XgboostJson | MlArtifactFormat::Onnx),
        MlAlgorithm::Chronos | MlAlgorithm::Timesfm => matches!(
            artifact.format,
            MlArtifactFormat::Safetensors | MlArtifactFormat::Onnx
        ),
    };
    if !safe_name || !extension_matches || !algorithm_matches || !is_sha256(artifact.sha256.as_str())
        || artifact.byte_size == 0 || artifact.byte_size > MAX_ARTIFACT_BYTES {
        return Err("모델 아티팩트의 이름·포맷·해시·크기 계약이 올바르지 않습니다.".to_owned());
    }
    Ok(())
}

// ---------------------------------------------------------------- reported metrics

pub open spec fn metrics_ok(m: MlOosMetrics, completed_at_ms: u64) -> bool {
    &&& m.sample_count > 0
    &&& m.fold_count > 0
    &&& m.log_loss_millionths <= 100_000_000
    &&& m.brier_score_millionths <= 1_000_000
    &&& m.expected_calibration_error_bps <= 10_000
    &&& m.balanced_accuracy_bps <= 10_000
    &&& 0 < m.evaluated_at_ms <= completed_at_ms
}

pub fn validate_metrics(metrics: &MlOosMetrics, completed_at_ms: u64) -> (r: Result<(), String>)
    ensures
        r is Ok <==> metrics_ok(*metrics, completed_at_ms),
        r matches Err(e) ==> e@ == "OOS 지표의 표본·범위·평가 시각이 올바르지 않습니다."@,
{
    if metrics.sample_count == 0 || metrics.fold_count == 0 || metrics.log_loss_millionths > 100_000_000
        || metrics.brier_score_millionths > 1_000_000 || metrics.expected_calibration_error_bps > 10_000
        || metrics.balanced_accuracy_bps > 10_000 || metrics.evaluated_at_ms == 0 || metrics.evaluated_at_ms
        > completed_at_ms {
        return Err("OOS 지표의 표본·범위·평가 시각이 올바르지 않습니다.".to_owned());
    }
    Ok(())
}

// ---------------------------------------------------------------- hyperparameters

/// A hyperparameter value as far as the checks read it: its JSON kind, and
/// the text of a string.
#[derive(Debug, Clone)]
pub enum HyperparameterValue {
    Bool,
    Number,
    Text(String),
    /// `null`, an array or an object.
    Compound,
}

pub open spec fn hyper_key_char(c: char) -> bool {
    is_ascii_alnum(c) || c == '_' || c == '-'
}

/// A hyperparameter: a name of 1 to 64 ASCII letters, digits, `_` or `-`, and
/// a scalar value, a string one of at most 128 bytes.
pub open spec fn hyperparameter_ok(key: Seq<char>, value: HyperparameterValue) -> bool {
    &&& 0 < key.len() <= 64
    &&& forall|i: int| 0 <= i < key.len() ==> hyper_key_char(#[trigger] key[i])
    &&& match value {
        HyperparameterValue::Compound => false,
        HyperparameterValue::Text(t) => crate::text::byte_len_spec(t@) <= 128,
        _ => true,
    }
}

pub open spec fn hyperparameters_ok(values: Seq<(String, HyperparameterValue)>) -> bool {
    &&& values.len() <= MAX_HYPERPARAMETERS
    &&& forall|i: int| 0 <= i < values.len() ==> hyperparameter_ok((#[trigger] values[i]).0@, values[i].1)
}

fn hyperparameter_ok_exec(key: &String, value: &HyperparameterValue) -> (r: bool)
    ensures
        r == hyperparameter_ok(key@, *value),
{
    let k = chars_of(key.as_str());
    if k.len() == 0 || k.len() > 64 {
        return false;
    }
    let mut i: usize = 0;
    while i < k.len()
        invariant
            k@ == key@,
            i <= k.len(),
            forall|m: int| 0 <= m < i ==> hyper_key_char(#[trigger] k@[m]),
        decreases k.len() - i,
    {
        let c = k[i];
        if !(('0' <= c && c <= '9') || ('a' <= c && c <= 'z') || ('A' <= c && c <= 'Z') || c == '_' || c == '-') {
            return false;
        }
        i = i + 1;
    }
    match value {
        HyperparameterValue::Compound => false,
        HyperparameterValue::Text(t) => crate::text::byte_len(t.as_str()) <= 128,
        _ => true,
    }
}

/// Hyperparameters, by name: at most [`MAX_HYPERPARAMETERS`], each passing
/// [`hyperparameter_ok`].
pub fn validate_hyperparameters(values: &Vec<(String, HyperparameterValue)>) -> (r: Result<(), String>)
    ensures
        r is Ok <==> hyperparameters_ok(values@),
        r matches Err(e) ==> (if values@.len() > MAX_HYPERPARAMETERS {
            e@ == "하이퍼파라미터는 최대 64개입니다."@
        } else {
            e@ == "하이퍼파라미터는 제한된 이름과 짧은 scalar 값만 허용합니다."@
        }),
{
    if values.len() > MAX_HYPERPARAMETERS {
        return Err("하이퍼파라미터는 최대 64개입니다.".to_owned());
    }
    let mut i: usize = 0;
    while i < values.len()
        invariant
            i <= values.len() <= MAX_HYPERPARAMETERS,
            forall|k: int| 0 <= k < i ==> hyperparameter_ok((#[trigger] values@[k]).0@, values@[k].1),
        decreases values.len() - i,
    {
        if !hyperparameter_ok_exec(&values[i].0, &values[i].1) {
            return Err("하이퍼파라미터는 제한된 이름과 짧은 scalar 값만 허용합니다.".to_owned());
        }
        i = i + 1;
    }
    Ok(())
}


// ---------------------------------------------------------------- out-of-sample metrics from predictions

pub open spec fn prob_of(p: MlOosPrediction, c: int) -> int {
    if c == 0 {
        p.probability_down_millionths as int
    } else if c == 1 {
        p.probability_flat_millionths as int
    } else {
        p.probability_up_millionths as int
    }
}

pub open spec fn prob_total(p: MlOosPrediction) -> int {
    prob_of(p, 0) + prob_of(p, 1) + prob_of(p, 2)
}

/// The predicted class: the most probable one, the lowest on a tie.
pub open spec fn predicted_class(p: MlOosPrediction) -> int {
    if prob_of(p, 0) >= prob_of(p, 1) && prob_of(p, 0) >= prob_of(p, 2) {
        0
    } else if prob_of(p, 1) >= prob_of(p, 2) {
        1
    } else {
        2
    }
}

pub open spec fn confidence_of(p: MlOosPrediction) -> int {
    prob_of(p, predicted_class(p))
}

/// The calibration bin of a prediction: tenths of its confidence, the top
/// bin taking certainty too.
pub open spec fn bin_of(p: MlOosPrediction) -> int {
    if confidence_of(p) / 100_000 < 9 {
        confidence_of(p) / 100_000
    } else {
        9
    }
}

pub open spec fn hit(p: MlOosPrediction) -> bool {
    predicted_class(p) == p.target_class as int
}

pub open spec fn square(x: int) -> int {
    x * x
}

/// The squared distance of the predicted distribution from the outcome.
pub open spec fn brier_term(p: MlOosPrediction) -> int {
    let t = p.target_class as int;
    square(prob_of(p, 0) - if t == 0 { 1_000_000int } else { 0int }) + square(prob_of(p, 1) - if t == 1 {
        1_000_000int
    } else {
        0int
    }) + square(prob_of(p, 2) - if t == 2 { 1_000_000int } else { 0int })
}

pub open spec fn brier_sum(preds: Seq<MlOosPrediction>, n: int) -> int
    decreases n,
{
    if n <= 0 {
        0
    } else {
        brier_sum(preds, n - 1) + brier_term(preds[n - 1])
    }
}

pub open spec fn class_count(preds: Seq<MlOosPrediction>, n: int, c: int) -> int
    decreases n,
{
    if n <= 0 {
        0
    } else {
        class_count(preds, n - 1, c) + if preds[n - 1].target_class as int == c { 1int } else { 0int }
    }
}

pub open spec fn class_hits(preds: Seq<MlOosPrediction>, n: int, c: int) -> int
    decreases n,
{
    if n <= 0 {
        0
    } else {
        class_hits(preds, n - 1, c) + if preds[n - 1].target_class as int == c && hit(preds[n - 1]) {
            1int
        } else {
            0int
        }
    }
}

pub open spec fn bin_count(preds: Seq<MlOosPrediction>, n: int, b: int) -> int
    decreases n,
{
    if n <= 0 {
        0
    } else {
        bin_count(preds, n - 1, b) + if bin_of(preds[n - 1]) == b { 1int } else { 0int }
    }
}

pub open spec fn bin_confidence(preds: Seq<MlOosPrediction>, n: int, b: int) -> int
    decreases n,
{
    if n <= 0 {
        0
    } else {
        bin_confidence(preds, n - 1, b) + if bin_of(preds[n - 1]) == b { confidence_of(preds[n - 1]) } else { 0int }
    }
}

pub open spec fn bin_hits(preds: Seq<MlOosPrediction>, n: int, b: int) -> int
    decreases n,
{
    if n <= 0 {
        0
    } else {
        bin_hits(preds, n - 1, b) + if bin_of(preds[n - 1]) == b && hit(preds[n - 1]) { 1int } else { 0int }
    }
}

pub open spec fn abs_diff(a: int, b: int) -> int {
    if a >= b {
        a - b
    } else {
        b - a
    }
}

/// The calibration gap summed over the bins below `b` (empty bins add nothing).
pub open spec fn ece_sum(preds: Seq<MlOosPrediction>, n: int, b: int) -> int
    decreases b,
{
    if b <= 0 {
        0
    } else {
        ece_sum(preds, n, b - 1) + if bin_count(preds, n, b - 1) == 0 {
            0int
        } else {
            abs_diff(bin_hits(preds, n, b - 1) * 1_000_000, bin_confidence(preds, n, b - 1))
        }
    }
}

pub open spec fn has_fold(preds: Seq<MlOosPrediction>, f: int) -> bool {
    exists|j: int| 0 <= j < preds.len() && preds[j].fold_index as int == f
}

/// The fold indices run from 0 without a gap.
pub open spec fn folds_contiguous(preds: Seq<MlOosPrediction>) -> bool {
    forall|j: int, f: int|
        #![trigger preds[j], has_fold(preds, f)]
        0 <= j < preds.len() && 0 <= f <= preds[j].fold_index ==> has_fold(preds, f)
}

pub open spec fn duplicate_before(preds: Seq<MlOosPrediction>, i: int) -> bool {
    exists|j: int| 0 <= j < i && (#[trigger] preds[j]).sample_id@ == preds[i].sample_id@
}

/// What is wrong with prediction `i`: 0 nothing, 1 its identifier, 2 a repeated
/// identifier or an unknown class, 3 probabilities that do not sum to one,
/// 4 no probability on the outcome.
pub open spec fn prediction_issue(preds: Seq<MlOosPrediction>, i: int) -> int {
    let p = preds[i];
    if !ml_identifier_ok(p.sample_id@) {
        1
    } else if duplicate_before(preds, i) || p.target_class > 2 {
        2
    } else if prob_total(p) != 1_000_000 {
        3
    } else if prob_of(p, p.target_class as int) == 0 {
        4
    } else {
        0
    }
}

/// The issue of the first faulty prediction before `n`, or 0.
pub open spec fn first_issue(preds: Seq<MlOosPrediction>, n: int) -> int
    decreases n,
{
    if n <= 0 {
        0
    } else if first_issue(preds, n - 1) != 0 {
        first_issue(preds, n - 1)
    } else {
        prediction_issue(preds, n - 1)
    }
}

pub open spec fn oos_input_ok(preds: Seq<MlOosPrediction>, evaluated_at_ms: u64) -> bool {
    0 < preds.len() <= MAX_SAMPLES && evaluated_at_ms != 0
}

pub open spec fn oos_error(preds: Seq<MlOosPrediction>, evaluated_at_ms: u64) -> Option<Seq<char>> {
    if !oos_input_ok(preds, evaluated_at_ms) {
        Some("OOS 원시 예측의 표본 수와 평가 시각이 올바르지 않습니다."@)
    } else {
        let issue = first_issue(preds, preds.len() as int);
        if issue == 1 {
            Some(identifier_message("OOS 표본"@))
        } else if issue == 2 {
            Some("OOS 표본 ID가 중복되었거나 클래스가 올바르지 않습니다."@)
        } else if issue == 3 {
            Some("OOS 방향 확률 합계는 정확히 1,000,000이어야 합니다."@)
        } else if issue == 4 {
            Some("OOS 정답 클래스 확률은 0일 수 없습니다."@)
        } else if !folds_contiguous(preds) {
            Some("OOS fold index는 0부터 빠짐없이 이어져야 합니다."@)
        } else {
            None
        }
    }
}

/// The integer part of the out-of-sample metrics, recomputed from the raw
/// predictions; the class counts feed the balanced accuracy.
#[derive(Debug, Clone)]
pub struct OosTally {
    pub sample_count: u64,
    pub fold_count: u32,
    pub brier_score_millionths: u64,
    pub expected_calibration_error_bps: u64,
    /// Per class (down, flat, up): how many predictions had it as outcome.
    pub class_total: Vec<u64>,
    /// Per class: how many of those predicted it.
    pub class_correct: Vec<u64>,
}

pub open spec fn tally_of(t: OosTally, preds: Seq<MlOosPrediction>) -> bool {
    let n = preds.len() as int;
    &&& t.sample_count == n
    &&& forall|f: int| 0 <= f ==> (has_fold(preds, f) <==> f < t.fold_count)
    &&& t.brier_score_millionths == (brier_sum(preds, n) + (n * 3_000_000) / 2) / (n * 3_000_000)
    &&& t.expected_calibration_error_bps == (ece_sum(preds, n, 10) * 10_000 + (n * 1_000_000) / 2) / (n
        * 1_000_000)
    &&& t.class_total@.len() == 3
    &&& t.class_correct@.len() == 3
    &&& forall|c: int| 0 <= c < 3 ==> #[trigger] t.class_total@[c] == class_count(preds, n, c)
    &&& forall|c: int| 0 <= c < 3 ==> #[trigger] t.class_correct@[c] == class_hits(preds, n, c)
}


pub open spec fn strictly_sorted_texts(v: Seq<String>) -> bool {
    forall|a: int, b: int| 0 <= a < b < v.len() ==> seq_lt((#[trigger] v[a])@, (#[trigger] v[b])@)
}

/// Where `id` stands among sorted texts: found at the slot, or to be inserted there.
pub(crate) fn find_text_slot(seen: &Vec<String>, id: &String) -> (r: (bool, usize))
    requires
        strictly_sorted_texts(seen@),
    ensures
        r.1 <= seen@.len(),
        r.0 ==> r.1 < seen@.len() && seen@[r.1 as int]@ == id@,
        !r.0 ==> (forall|k: int| 0 <= k < r.1 ==> seq_lt((#[trigger] seen@[k])@, id@)) && (forall|k: int|
            r.1 <= k < seen@.len() ==> seq_lt(id@, (#[trigger] seen@[k])@)),
{
    let mut lo: usize = 0;
    let mut hi: usize = seen.len();
    while lo < hi
        invariant
            lo <= hi <= seen@.len(),
            strictly_sorted_texts(seen@),
            forall|k: int| 0 <= k < lo ==> seq_lt((#[trigger] seen@[k])@, id@),
            forall|k: int| hi <= k < seen@.len() ==> seq_lt(id@, (#[trigger] seen@[k])@),
        decreases hi - lo,
    {
        let mid = lo + (hi - lo) / 2;
        if str_eq(seen[mid].as_str(), id.as_str()) {
            return (true, mid);
        }
        if str_lt(seen[mid].as_str(), id.as_str()) {
            proof {
                assert forall|k: int| 0 <= k < mid + 1 implies seq_lt((#[trigger] seen@[k])@, id@) by {
                    if k < mid {
                        lemma_seq_lt_trans(seen@[k]@, seen@[mid as int]@, id@);
                    }
                }
            }
            lo = mid + 1;
        } else {
            proof {
                lemma_seq_lt_total(seen@[mid as int]@, id@);
                assert forall|k: int| mid <= k < seen@.len() implies seq_lt(id@, (#[trigger] seen@[k])@) by {
                    if k > mid {
                        lemma_seq_lt_trans(id@, seen@[mid as int]@, seen@[k]@);
                    }
                }
            }
            hi = mid;
        }
    }
    (false, lo)
}

pub open spec fn strictly_sorted_folds(v: Seq<u32>) -> bool {
    forall|a: int, b: int| 0 <= a < b < v.len() ==> (#[trigger] v[a]) < (#[trigger] v[b])
}

fn find_fold_slot(folds: &Vec<u32>, f: u32) -> (r: (bool, usize))
    requires
        strictly_sorted_folds(folds@),
    ensures
        r.1 <= folds@.len(),
        r.0 ==> r.1 < folds@.len() && folds@[r.1 as int] == f,
        !r.0 ==> (forall|k: int| 0 <= k < r.1 ==> (#[trigger] folds@[k]) < f) && (forall|k: int|
            r.1 <= k < folds@.len() ==> f < (#[trigger] folds@[k])),
{
    let mut k: usize = 0;
    while k < folds.len() && folds[k] < f
        invariant
            k <= folds@.len(),
            forall|m: int| 0 <= m < k ==> (#[trigger] folds@[m]) < f,
        decreases folds.len() - k,
    {
        k = k + 1;
    }
    if k < folds.len() && folds[k] == f {
        (true, k)
    } else {
        (false, k)
    }
}

/// The squared-error term, the predicted class, its probability and its bin.
fn score_prediction(p: &MlOosPrediction) -> (r: (u64, usize, u32, usize))
    requires
        prob_total(*p) == 1_000_000,
        p.target_class <= 2,
    ensures
        r.0 == brier_term(*p),
        r.0 <= 3_000_000_000_000,
        r.1 == predicted_class(*p),
        r.2 == confidence_of(*p),
        r.2 <= 1_000_000,
        r.3 == bin_of(*p),
{
    let t = p.target_class;
    let d = p.probability_down_millionths;
    let f = p.probability_flat_millionths;
    let u = p.probability_up_millionths;
    let e0: u64 = if t == 0 { 1_000_000 - d as u64 } else { d as u64 };
    let e1: u64 = if t == 1 { 1_000_000 - f as u64 } else { f as u64 };
    let e2: u64 = if t == 2 { 1_000_000 - u as u64 } else { u as u64 };
    proof {
        assert(e0 * e0 <= 1_000_000_000_000) by (nonlinear_arith)
            requires
                e0 <= 1_000_000,
        ;
        assert(e1 * e1 <= 1_000_000_000_000) by (nonlinear_arith)
            requires
                e1 <= 1_000_000,
        ;
        assert(e2 * e2 <= 1_000_000_000_000) by (nonlinear_arith)
            requires
                e2 <= 1_000_000,
        ;
        let t0 = if t == 0 { 1_000_000int } else { 0int };
        let t1 = if t == 1 { 1_000_000int } else { 0int };
        let t2 = if t == 2 { 1_000_000int } else { 0int };
        assert(square(d - t0) == e0 * e0) by (nonlinear_arith)
            requires
                e0 == d - t0 || e0 == t0 - d,
        ;
        assert(square(f - t1) == e1 * e1) by (nonlinear_arith)
            requires
                e1 == f - t1 || e1 == t1 - f,
        ;
        assert(square(u - t2) == e2 * e2) by (nonlinear_arith)
            requires
                e2 == u - t2 || e2 == t2 - u,
        ;
    }
    let brier = e0 * e0 + e1 * e1 + e2 * e2;
    let predicted: usize = if d >= f && d >= u {
        0
    } else if f >= u {
        1
    } else {
        2
    };
    let confidence = if predicted == 0 {
        d
    } else if predicted == 1 {
        f
    } else {
        u
    };
    let tenth = confidence / 100_000;
    let bin: usize = if tenth < 9 {
        tenth as usize
    } else {
        9
    };
    (brier, predicted, confidence, bin)
}


pub open spec fn text_listed(v: Seq<String>, x: Seq<char>) -> bool {
    exists|k: int| 0 <= k < v.len() && (#[trigger] v[k])@ == x
}

pub open spec fn id_seen(preds: Seq<MlOosPrediction>, n: int, x: Seq<char>) -> bool {
    exists|j: int| 0 <= j < n && (#[trigger] preds[j]).sample_id@ == x
}

pub open spec fn fold_listed(v: Seq<u32>, f: int) -> bool {
    exists|k: int| 0 <= k < v.len() && (#[trigger] v[k]) as int == f
}

pub open spec fn fold_seen(preds: Seq<MlOosPrediction>, n: int, f: int) -> bool {
    exists|j: int| 0 <= j < n && (#[trigger] preds[j]).fold_index as int == f
}

/// Once a prediction is faulty, the first fault stays the reported one.
proof fn lemma_first_issue_stays(preds: Seq<MlOosPrediction>, i: int, m: int)
    requires
        0 <= i < m,
        first_issue(preds, i) == 0,
        prediction_issue(preds, i) != 0,
    ensures
        first_issue(preds, m) == prediction_issue(preds, i),
    decreases m - i,
{
    if m > i + 1 {
        lemma_first_issue_stays(preds, i, m - 1);
    }
}

/// The sorted distinct fold indices run 0, 1, 2, ... exactly when the fold
/// indices have no gap.
proof fn lemma_folds_gap(preds: Seq<MlOosPrediction>, folds: Seq<u32>, k: int)
    requires
        strictly_sorted_folds(folds),
        forall|m: int| 0 <= m < folds.len() ==> fold_seen(preds, preds.len() as int, #[trigger] folds[m] as int),
        forall|j: int| 0 <= j < preds.len() ==> fold_listed(folds, (#[trigger] preds[j]).fold_index as int),
        0 <= k < folds.len(),
        folds[k] != k,
        forall|m: int| 0 <= m < k ==> (#[trigger] folds[m]) == m,
    ensures
        !folds_contiguous(preds),
{
    if k > 0 {
        assert(folds[k - 1] < folds[k]);
    }
    assert(folds[k] > k);
    assert(fold_seen(preds, preds.len() as int, folds[k] as int));
    let j = choose|j: int| 0 <= j < preds.len() && (#[trigger] preds[j]).fold_index as int == folds[k] as int;
    if folds_contiguous(preds) {
        assert(has_fold(preds, k)) by {
            assert(0 <= j < preds.len() && 0 <= k <= preds[j].fold_index);
        }
        let j2 = choose|j2: int| 0 <= j2 < preds.len() && preds[j2].fold_index as int == k;
        assert(fold_listed(folds, preds[j2].fold_index as int));
        let m = choose|m: int| 0 <= m < folds.len() && (#[trigger] folds[m]) as int == k;
        if m < k {
            assert(folds[m] == m);
        } else if m > k {
            assert(folds[k] < folds[m]);
        }
    }
}

#[verifier::opaque]
pub open spec fn ids_match(seen: Seq<String>, ps: Seq<MlOosPrediction>, i: int) -> bool {
    &&& strictly_sorted_texts(seen)
    &&& forall|j: int| 0 <= j < i ==> text_listed(seen, (#[trigger] ps[j]).sample_id@)
    &&& forall|k: int| 0 <= k < seen.len() ==> id_seen(ps, i, (#[trigger] seen[k])@)
}

#[verifier::opaque]
pub open spec fn folds_match(folds: Seq<u32>, ps: Seq<MlOosPrediction>, i: int) -> bool {
    &&& strictly_sorted_folds(folds)
    &&& forall|j: int| 0 <= j < i ==> fold_listed(folds, (#[trigger] ps[j]).fold_index as int)
    &&& forall|k: int| 0 <= k < folds.len() ==> fold_seen(ps, i, (#[trigger] folds[k]) as int)
}

/// The running sums over the predictions before some index.
struct OosAccum {
    brier: u64,
    class_total: Vec<u64>,
    class_correct: Vec<u64>,
    bins_count: Vec<u64>,
    bins_conf: Vec<u64>,
    bins_hits: Vec<u64>,
}

#[verifier::opaque]
spec fn accum_of(a: OosAccum, ps: Seq<MlOosPrediction>, i: int) -> bool {
    &&& a.class_total@.len() == 3
    &&& a.class_correct@.len() == 3
    &&& a.bins_count@.len() == 10
    &&& a.bins_conf@.len() == 10
    &&& a.bins_hits@.len() == 10
    &&& a.brier == brier_sum(ps, i)
    &&& a.brier <= i * 3_000_000_000_000
    &&& forall|c: int| 0 <= c < 3 ==> #[trigger] a.class_total@[c] == class_count(ps, i, c)
    &&& forall|c: int| 0 <= c < 3 ==> #[trigger] a.class_correct@[c] == class_hits(ps, i, c)
    &&& forall|c: int| 0 <= c < 3 ==> #[trigger] a.class_total@[c] <= i
    &&& forall|c: int| 0 <= c < 3 ==> #[trigger] a.class_correct@[c] <= i
    &&& forall|b: int| 0 <= b < 10 ==> #[trigger] a.bins_count@[b] == bin_count(ps, i, b)
    &&& forall|b: int| 0 <= b < 10 ==> #[trigger] a.bins_conf@[b] == bin_confidence(ps, i, b)
    &&& forall|b: int| 0 <= b < 10 ==> #[trigger] a.bins_hits@[b] == bin_hits(ps, i, b)
    &&& forall|b: int| 0 <= b < 10 ==> #[trigger] a.bins_count@[b] <= i
    &&& forall|b: int| 0 <= b < 10 ==> #[trigger] a.bins_conf@[b] <= i * 1_000_000
    &&& forall|b: int| 0 <= b < 10 ==> #[trigger] a.bins_hits@[b] <= i
}

/// The message for a prediction's issue.
pub open spec fn issue_message(issue: int) -> Seq<char> {
    if issue == 1 {
        identifier_message("OOS 표본"@)
    } else if issue == 2 {
        "OOS 표본 ID가 중복되었거나 클래스가 올바르지 않습니다."@
    } else if issue == 3 {
        "OOS 방향 확률 합계는 정확히 1,000,000이어야 합니다."@
    } else {
        "OOS 정답 클래스 확률은 0일 수 없습니다."@
    }
}

/// Checks prediction `i`; on success, where its identifier goes among those seen.
fn check_prediction(predictions: &Vec<MlOosPrediction>, i: usize, seen: &Vec<String>) -> (r: Result<usize, String>)
    requires
        i < predictions@.len(),
        ids_match(seen@, predictions@, i as int),
    ensures
        match r {
            Ok(pos) => prediction_issue(predictions@, i as int) == 0 && pos <= seen@.len() && (forall|k: int|
                0 <= k < pos ==> seq_lt((#[trigger] seen@[k])@, predictions@[i as int].sample_id@)) && (forall|k: int|
                pos <= k < seen@.len() ==> seq_lt(predictions@[i as int].sample_id@, (#[trigger] seen@[k])@)),
            Err(e) => prediction_issue(predictions@, i as int) != 0 && e@ == issue_message(
                prediction_issue(predictions@, i as int),
            ),
        },
{
    let ghost ps = predictions@;
    let p = &predictions[i];
    match validate_identifier(p.sample_id.as_str(), "OOS 표본") {
        Err(e) => {
            return Err(e);
        },
        Ok(()) => {},
    }
    proof {
        reveal(ids_match);
    }
    let (found, pos) = find_text_slot(seen, &p.sample_id);
    proof {
        if found {
            assert(id_seen(ps, i as int, seen@[pos as int]@));
            let j = choose|j: int| 0 <= j < i && (#[trigger] ps[j]).sample_id@ == seen@[pos as int]@;
            assert(duplicate_before(ps, i as int));
        } else {
            assert(!duplicate_before(ps, i as int)) by {
                if duplicate_before(ps, i as int) {
                    let j = choose|j: int| 0 <= j < i && (#[trigger] ps[j]).sample_id@ == ps[i as int].sample_id@;
                    assert(text_listed(seen@, ps[j].sample_id@));
                    let k = choose|k: int| 0 <= k < seen@.len() && (#[trigger] seen@[k])@ == ps[j].sample_id@;
                    if k < pos {
                        lemma_seq_lt_asym(seen@[k]@, p.sample_id@);
                    } else {
                        lemma_seq_lt_asym(p.sample_id@, seen@[k]@);
                    }
                }
            }
        }
    }
    if found || p.target_class > 2 {
        return Err("OOS 표본 ID가 중복되었거나 클래스가 올바르지 않습니다.".to_owned());
    }
    let total: u64 = p.probability_down_millionths as u64 + p.probability_flat_millionths as u64
        + p.probability_up_millionths as u64;
    if total != 1_000_000 {
        return Err("OOS 방향 확률 합계는 정확히 1,000,000이어야 합니다.".to_owned());
    }
    let target_probability = if p.target_class == 0 {
        p.probability_down_millionths
    } else if p.target_class == 1 {
        p.probability_flat_millionths
    } else {
        p.probability_up_millionths
    };
    if target_probability == 0 {
        return Err("OOS 정답 클래스 확률은 0일 수 없습니다.".to_owned());
    }
    Ok(pos)
}

/// Records the identifier of prediction `i` at its slot.
fn record_id(seen: &mut Vec<String>, pos: usize, predictions: &Vec<MlOosPrediction>, i: usize)
    requires
        i < predictions@.len(),
        ids_match(old(seen)@, predictions@, i as int),
        pos <= old(seen)@.len(),
        forall|k: int| 0 <= k < pos ==> seq_lt((#[trigger] old(seen)@[k])@, predictions@[i as int].sample_id@),
        forall|k: int| pos <= k < old(seen)@.len() ==> seq_lt(predictions@[i as int].sample_id@, (#[trigger] old(seen)@[k])@),
    ensures
        ids_match(final(seen)@, predictions@, i + 1),
{
    let ghost ps = predictions@;
    let ghost id = ps[i as int].sample_id@;
    let ghost seen_before = seen@;
    proof {
        reveal(ids_match);
    }
    seen.insert(pos, copy_text(&predictions[i].sample_id));
    proof {
        reveal(ids_match);
        assert forall|a: int, b: int| 0 <= a < b < seen@.len() implies seq_lt(
            (#[trigger] seen@[a])@,
            (#[trigger] seen@[b])@,
        ) by {
            if b < pos {
                assert(seen@[a] == seen_before[a] && seen@[b] == seen_before[b]);
            } else if b == pos {
                assert(seen@[a] == seen_before[a]);
            } else if a < pos {
                assert(seen@[a] == seen_before[a] && seen@[b] == seen_before[b - 1]);
                lemma_seq_lt_trans(seen_before[a]@, id, seen_before[b - 1]@);
            } else if a == pos {
                assert(seen@[b] == seen_before[b - 1]);
            } else {
                assert(seen@[a] == seen_before[a - 1] && seen@[b] == seen_before[b - 1]);
            }
        }
        assert forall|j: int| 0 <= j < i + 1 implies text_listed(seen@, (#[trigger] ps[j]).sample_id@) by {
            if j == i {
                assert(seen@[pos as int]@ == ps[j].sample_id@);
            } else {
                assert(text_listed(seen_before, ps[j].sample_id@));
                let k = choose|k: int| 0 <= k < seen_before.len() && (#[trigger] seen_before[k])@ == ps[j].sample_id@;
                if k < pos {
                    assert(seen@[k] == seen_before[k]);
                } else {
                    assert(seen@[k + 1] == seen_before[k]);
                }
            }
        }
        assert forall|k: int| 0 <= k < seen@.len() implies id_seen(ps, i + 1, (#[trigger] seen@[k])@) by {
            if k == pos {
                assert(ps[i as int].sample_id@ == seen@[k]@);
            } else if k < pos {
                assert(seen@[k] == seen_before[k]);
                assert(id_seen(ps, i as int, seen_before[k]@));
            } else {
                assert(seen@[k] == seen_before[k - 1]);
                assert(id_seen(ps, i as int, seen_before[k - 1]@));
            }
        }
    }
}

/// Records the fold of prediction `i` among the sorted distinct folds.
fn record_fold(folds: &mut Vec<u32>, predictions: &Vec<MlOosPrediction>, i: usize)
    requires
        i < predictions@.len(),
        folds_match(old(folds)@, predictions@, i as int),
    ensures
        folds_match(final(folds)@, predictions@, i + 1),
        final(folds)@.len() <= old(folds)@.len() + 1,
{
    let ghost ps = predictions@;
    proof {
        reveal(folds_match);
    }
    let f = predictions[i].fold_index;
    let (fold_found, fold_pos) = find_fold_slot(folds, f);
    let ghost folds_before = folds@;
    if !fold_found {
        folds.insert(fold_pos, f);
    }
    proof {
        reveal(folds_match);
        assert forall|a: int, b: int| 0 <= a < b < folds@.len() implies (#[trigger] folds@[a]) < (#[trigger] folds@[b]) by {
            if !fold_found {
                if b < fold_pos {
                    assert(folds@[a] == folds_before[a] && folds@[b] == folds_before[b]);
                } else if b == fold_pos {
                    assert(folds@[a] == folds_before[a]);
                } else if a < fold_pos {
                    assert(folds@[a] == folds_before[a] && folds@[b] == folds_before[b - 1]);
                } else if a == fold_pos {
                    assert(folds@[b] == folds_before[b - 1]);
                } else {
                    assert(folds@[a] == folds_before[a - 1] && folds@[b] == folds_before[b - 1]);
                }
            }
        }
        assert forall|j: int| 0 <= j < i + 1 implies fold_listed(folds@, (#[trigger] ps[j]).fold_index as int) by {
            if j == i {
                assert(folds@[fold_pos as int] == ps[j].fold_index);
            } else {
                assert(fold_listed(folds_before, ps[j].fold_index as int));
                let k = choose|k: int| 0 <= k < folds_before.len() && (#[trigger] folds_before[k]) as int
                    == ps[j].fold_index as int;
                if fold_found || k < fold_pos {
                    assert(folds@[k] == folds_before[k]);
                } else {
                    assert(folds@[k + 1] == folds_before[k]);
                }
            }
        }
        assert forall|k: int| 0 <= k < folds@.len() implies fold_seen(ps, i + 1, (#[trigger] folds@[k]) as int) by {
            if !fold_found && k == fold_pos {
                assert(ps[i as int].fold_index == folds@[k]);
            } else if fold_found || k < fold_pos {
                assert(folds@[k] == folds_before[k]);
                assert(fold_seen(ps, i as int, folds_before[k] as int));
            } else {
                assert(folds@[k] == folds_before[k - 1]);
                assert(fold_seen(ps, i as int, folds_before[k - 1] as int));
            }
        }
    }
}

/// Adds prediction `i` to the running sums.
fn add_prediction(acc: &mut OosAccum, predictions: &Vec<MlOosPrediction>, i: usize)
    requires
        i < predictions@.len() <= MAX_SAMPLES,
        accum_of(*old(acc), predictions@, i as int),
        prediction_issue(predictions@, i as int) == 0,
    ensures
        accum_of(*final(acc), predictions@, i + 1),
{
    let ghost ps = predictions@;
    proof {
        reveal(accum_of);
    }
    let p = &predictions[i];
    let target = p.target_class as usize;
    let (term, predicted, confidence, bin) = score_prediction(p);
    acc.brier = acc.brier + term;
    acc.class_total.set(target, acc.class_total[target] + 1);
    if predicted == target {
        acc.class_correct.set(target, acc.class_correct[target] + 1);
    }
    acc.bins_count.set(bin, acc.bins_count[bin] + 1);
    acc.bins_conf.set(bin, acc.bins_conf[bin] + confidence as u64);
    if predicted == target {
        acc.bins_hits.set(bin, acc.bins_hits[bin] + 1);
    }
    proof {
        reveal(accum_of);
        assert(brier_sum(ps, i + 1) == brier_sum(ps, i as int) + brier_term(ps[i as int]));
        assert forall|c: int| 0 <= c < 3 implies #[trigger] acc.class_total@[c] == class_count(ps, i + 1, c) by {
            assert(class_count(ps, i + 1, c) == class_count(ps, i as int, c) + if ps[i as int].target_class as int == c {
                1int
            } else {
                0int
            });
        }
        assert forall|c: int| 0 <= c < 3 implies #[trigger] acc.class_correct@[c] == class_hits(ps, i + 1, c) by {
            assert(class_hits(ps, i + 1, c) == class_hits(ps, i as int, c) + if ps[i as int].target_class as int == c
                && hit(ps[i as int]) {
                1int
            } else {
                0int
            });
        }
        assert forall|x: int| 0 <= x < 10 implies #[trigger] acc.bins_count@[x] == bin_count(ps, i + 1, x) by {
            assert(bin_count(ps, i + 1, x) == bin_count(ps, i as int, x) + if bin_of(ps[i as int]) == x {
                1int
            } else {
                0int
            });
        }
        assert forall|x: int| 0 <= x < 10 implies #[trigger] acc.bins_conf@[x] == bin_confidence(ps, i + 1, x) by {
            assert(bin_confidence(ps, i + 1, x) == bin_confidence(ps, i as int, x) + if bin_of(ps[i as int]) == x {
                confidence_of(ps[i as int])
            } else {
                0int
            });
        }
        assert forall|x: int| 0 <= x < 10 implies #[trigger] acc.bins_hits@[x] == bin_hits(ps, i + 1, x) by {
            assert(bin_hits(ps, i + 1, x) == bin_hits(ps, i as int, x) + if bin_of(ps[i as int]) == x && hit(
                ps[i as int],
            ) {
                1int
            } else {
                0int
            });
        }
    }
}

/// The integer part of the out-of-sample metrics (see [`oos_error`] and
/// [`tally_of`]).
pub fn oos_tally(predictions: &Vec<MlOosPrediction>, evaluated_at_ms: u64) -> (r: Result<OosTally, String>)
    ensures
        match r {
            Ok(t) => oos_error(predictions@, evaluated_at_ms) is None && tally_of(t, predictions@),
            Err(e) => oos_error(predictions@, evaluated_at_ms) == Some(e@),
        },
{
    let n = predictions.len();
    if n == 0 || n > MAX_SAMPLES || evaluated_at_ms == 0 {
        return Err("OOS 원시 예측의 표본 수와 평가 시각이 올바르지 않습니다.".to_owned());
    }
    let ghost ps = predictions@;
    let mut seen: Vec<String> = Vec::new();
    let mut folds: Vec<u32> = Vec::new();
    let mut acc = OosAccum {
        brier: 0,
        class_total: vec![0, 0, 0],
        class_correct: vec![0, 0, 0],
        bins_count: vec![0, 0, 0, 0, 0, 0, 0, 0, 0, 0],
        bins_conf: vec![0, 0, 0, 0, 0, 0, 0, 0, 0, 0],
        bins_hits: vec![0, 0, 0, 0, 0, 0, 0, 0, 0, 0],
    };
    proof {
        reveal(ids_match);
        reveal(folds_match);
        reveal(accum_of);
    }
    let mut i: usize = 0;
    while i < n
        invariant
            ps == predictions@,
            n == ps.len(),
            0 < n <= MAX_SAMPLES,
            evaluated_at_ms != 0,
            i <= n,
            first_issue(ps, i as int) == 0,
            ids_match(seen@, ps, i as int),
            folds_match(folds@, ps, i as int),
            folds@.len() <= i,
            accum_of(acc, ps, i as int),
        decreases n - i,
    {
        match check_prediction(predictions, i, &seen) {
            Err(e) => {
                proof {
                    lemma_first_issue_stays(ps, i as int, n as int);
                }
                return Err(e);
            },
            Ok(pos) => {
                record_id(&mut seen, pos, predictions, i);
                record_fold(&mut folds, predictions, i);
                add_prediction(&mut acc, predictions, i);
            },
        }
        i = i + 1;
    }
    proof {
        reveal(folds_match);
    }
    let mut k: usize = 0;
    while k < folds.len() && folds[k] as usize == k
        invariant
            k <= folds@.len(),
            forall|m: int| 0 <= m < k ==> (#[trigger] folds@[m]) == m,
        decreases folds.len() - k,
    {
        k = k + 1;
    }
    if k < folds.len() {
        proof {
            lemma_folds_gap(ps, folds@, k as int);
        }
        return Err("OOS fold index는 0부터 빠짐없이 이어져야 합니다.".to_owned());
    }
    proof {
        assert(folds_contiguous(ps)) by {
            assert forall|j: int, f: int|
                #![trigger ps[j], has_fold(ps, f)]
                0 <= j < ps.len() && 0 <= f <= ps[j].fold_index implies has_fold(ps, f) by {
                assert(fold_listed(folds@, ps[j].fold_index as int));
                let m = choose|m: int| 0 <= m < folds@.len() && (#[trigger] folds@[m]) as int == ps[j].fold_index as int;
                assert(folds@[m] == m);
                assert(folds@[f] == f);
                assert(fold_seen(ps, n as int, folds@[f] as int));
            }
        }
        assert forall|f: int| 0 <= f implies (has_fold(ps, f) <==> f < folds@.len()) by {
            if has_fold(ps, f) {
                let j = choose|j: int| 0 <= j < ps.len() && ps[j].fold_index as int == f;
                assert(fold_listed(folds@, ps[j].fold_index as int));
                let m = choose|m: int| 0 <= m < folds@.len() && (#[trigger] folds@[m]) as int == f;
                assert(folds@[m] == m);
            }
            if f < folds@.len() {
                assert(folds@[f] == f);
                assert(fold_seen(ps, n as int, folds@[f] as int));
            }
        }
        reveal(accum_of);
    }
    let ece = ece_total(&acc, Ghost(ps));
    let sample_count = n as u64;
    let brier_den: u64 = sample_count * 3_000_000;
    let ece_den: u64 = sample_count * 1_000_000;
    let OosAccum { brier, class_total, class_correct, .. } = acc;
    Ok(
        OosTally {
            sample_count,
            fold_count: folds.len() as u32,
            brier_score_millionths: (brier + brier_den / 2) / brier_den,
            expected_calibration_error_bps: (ece * 10_000 + ece_den / 2) / ece_den,
            class_total,
            class_correct,
        },
    )
}

/// The calibration gap summed over all ten bins.
fn ece_total(acc: &OosAccum, Ghost(ps): Ghost<Seq<MlOosPrediction>>) -> (r: u64)
    requires
        0 < ps.len() <= MAX_SAMPLES,
        accum_of(*acc, ps, ps.len() as int),
    ensures
        r == ece_sum(ps, ps.len() as int, 10),
        r <= 200_000_000_000,
{
    proof {
        reveal(accum_of);
    }
    let ghost n = ps.len() as int;
    let mut ece: u64 = 0;
    let mut b: usize = 0;
    while b < 10
        invariant
            b <= 10,
            0 < n <= MAX_SAMPLES,
            acc.bins_count@.len() == 10,
            acc.bins_conf@.len() == 10,
            acc.bins_hits@.len() == 10,
            forall|x: int| 0 <= x < 10 ==> #[trigger] acc.bins_count@[x] == bin_count(ps, n, x),
            forall|x: int| 0 <= x < 10 ==> #[trigger] acc.bins_conf@[x] == bin_confidence(ps, n, x),
            forall|x: int| 0 <= x < 10 ==> #[trigger] acc.bins_hits@[x] == bin_hits(ps, n, x),
            forall|x: int| 0 <= x < 10 ==> #[trigger] acc.bins_conf@[x] <= n * 1_000_000,
            forall|x: int| 0 <= x < 10 ==> #[trigger] acc.bins_hits@[x] <= n,
            ece == ece_sum(ps, n, b as int),
            ece <= b * 20_000_000_000,
        decreases 10 - b,
    {
        if acc.bins_count[b] != 0 {
            let scaled = acc.bins_hits[b] * 1_000_000;
            let conf = acc.bins_conf[b];
            ece = ece + if scaled >= conf {
                scaled - conf
            } else {
                conf - scaled
            };
        }
        b = b + 1;
    }
    ece
}


// ---------------------------------------------------------------- completing a training job

#[derive(Debug, Clone)]
pub struct MlTrainingJobCompleteRequest {
    pub job_id: String,
    pub input_sha256: String,
    pub completed_at_ms: u64,
    pub succeeded: bool,
    pub failure_code: Option<String>,
    pub model_id: Option<String>,
    pub model_version: Option<String>,
    pub artifact: Option<MlArtifactDescriptor>,
    pub metrics: Option<MlOosMetrics>,
    pub predictions: Option<Vec<MlOosPrediction>>,
}

/// What the stored job says that a completion is checked against.
#[derive(Debug, Clone)]
pub struct PreparedJobFacts {
    pub input_sha256: String,
    pub created_at_ms: u64,
    pub algorithm: MlAlgorithm,
    /// The job still waits for its result.
    pub prepared: bool,
    /// The job already ended with exactly this result.
    pub same_result_recorded: bool,
}

/// What to do with a checked completion.
#[derive(Debug)]
pub enum CompletionPlan {
    /// The job already ended with this very result: report it again.
    Reconfirm,
    /// Record the failure; no model is registered.
    RecordFailure,
    /// The integer metrics recomputed from the predictions match: the
    /// success goes on to [`decide_completion`], which registers the model
    /// only once the full metrics match and the dataset lineage is unchanged.
    RegisterCandidate(OosTally),
}

pub open spec fn integer_metrics_match(t: OosTally, m: MlOosMetrics) -> bool {
    &&& t.sample_count == m.sample_count
    &&& t.fold_count == m.fold_count
    &&& t.brier_score_millionths == m.brier_score_millionths
    &&& t.expected_calibration_error_bps == m.expected_calibration_error_bps
}

/// A failure carries a valid failure code and nothing of a model.
pub open spec fn failure_ok(r: MlTrainingJobCompleteRequest) -> bool {
    &&& r.failure_code matches Some(c) && ml_identifier_ok(c@)
    &&& r.model_id is None
    &&& r.model_version is None
    &&& r.artifact is None
    &&& r.metrics is None
    &&& r.predictions is None
}

/// The first refusal of a completion before its predictions are recomputed,
/// or `None`; checked in the order the job's lifecycle reads them.
pub open spec fn completion_refusal(r: MlTrainingJobCompleteRequest, job: PreparedJobFacts) -> Option<Seq<char>> {
    if !ml_identifier_ok(r.job_id@) {
        Some(identifier_message("학습 작업"@))
    } else if !sha256_hex_ok(r.input_sha256@) || r.completed_at_ms == 0 {
        Some("학습 입력 해시와 완료 시각이 필요합니다."@)
    } else if job.input_sha256@ != r.input_sha256@ {
        Some("완료 결과의 입력 해시가 준비된 작업과 다릅니다."@)
    } else if r.completed_at_ms < job.created_at_ms {
        Some("완료 시각은 작업 요청 시각보다 빠를 수 없습니다."@)
    } else if !job.prepared {
        if job.same_result_recorded {
            None
        } else {
            Some("이미 종료된 ML 작업에 다른 결과를 저장할 수 없습니다."@)
        }
    } else if !r.succeeded {
        if failure_ok(r) {
            None
        } else {
            Some("실패 결과에는 제한된 실패 코드만 기록할 수 있습니다."@)
        }
    } else if r.failure_code is Some {
        Some("성공 결과에는 실패 코드를 포함할 수 없습니다."@)
    } else if r.model_id is None {
        Some("성공 결과에는 모델 ID가 필요합니다."@)
    } else if r.model_version is None {
        Some("성공 결과에는 모델 버전이 필요합니다."@)
    } else if !ml_identifier_ok(r.model_id->0@) {
        Some(identifier_message("모델"@))
    } else if !ml_identifier_ok(r.model_version->0@) {
        Some(identifier_message("모델 버전"@))
    } else if r.artifact is None {
        Some("성공 결과에는 모델 아티팩트가 필요합니다."@)
    } else if !artifact_ok(job.algorithm, r.artifact->0) {
        Some("모델 아티팩트의 이름·포맷·해시·크기 계약이 올바르지 않습니다."@)
    } else if r.metrics is None {
        Some("성공 결과에는 OOS 지표가 필요합니다."@)
    } else if !metrics_ok(r.metrics->0, r.completed_at_ms) {
        Some("OOS 지표의 표본·범위·평가 시각이 올바르지 않습니다."@)
    } else if r.predictions is None {
        Some("성공 결과에는 OOS 원시 예측이 필요합니다."@)
    } else {
        None
    }
}

/// Checks a worker's completion against the prepared job and says what to do
/// with it. For a success the predictions are recomputed; the integer metrics
/// must equal those the worker reported.
pub fn plan_completion(request: &MlTrainingJobCompleteRequest, job: &PreparedJobFacts) -> (r: Result<
    CompletionPlan,
    String,
>)
    ensures
        match completion_refusal(*request, *job) {
            Some(e) => r matches Err(m) && m@ == e,
            None => if !job.prepared {
                r matches Ok(CompletionPlan::Reconfirm)
            } else if !request.succeeded {
                r matches Ok(CompletionPlan::RecordFailure)
            } else {
                let preds = request.predictions->0@;
                let m = request.metrics->0;
                match oos_error(preds, m.evaluated_at_ms) {
                    Some(e) => r matches Err(x) && x@ == e,
                    None => exists|t: OosTally|
                        #[trigger] tally_of(t, preds) && if integer_metrics_match(t, m) {
                            r matches Ok(CompletionPlan::RegisterCandidate(u)) && tally_of(u, preds)
                                && integer_metrics_match(u, m)
                        } else {
                            r matches Err(x) && x@ == "worker OOS 지표가 Rust 재계산 결과와 일치하지 않습니다."@
                        },
                }
            },
        },
{
    validate_identifier(request.job_id.as_str(), "학습 작업")?;
    if !is_sha256(request.input_sha256.as_str()) || request.completed_at_ms == 0 {
        return Err("학습 입력 해시와 완료 시각이 필요합니다.".to_owned());
    }
    if !str_eq(job.input_sha256.as_str(), request.input_sha256.as_str()) {
        return Err("완료 결과의 입력 해시가 준비된 작업과 다릅니다.".to_owned());
    }
    if request.completed_at_ms < job.created_at_ms {
        return Err("완료 시각은 작업 요청 시각보다 빠를 수 없습니다.".to_owned());
    }
    if !job.prepared {
        if job.same_result_recorded {
            return Ok(CompletionPlan::Reconfirm);
        }
        return Err("이미 종료된 ML 작업에 다른 결과를 저장할 수 없습니다.".to_owned());
    }
    if !request.succeeded {
        let code_ok = match &request.failure_code {
            Some(code) => validate_identifier(code.as_str(), "실패 코드").is_ok(),
            None => false,
        };
        if !code_ok || request.model_id.is_some() || request.model_version.is_some() || request.artifact.is_some()
            || request.metrics.is_some() || request.predictions.is_some() {
            return Err("실패 결과에는 제한된 실패 코드만 기록할 수 있습니다.".to_owned());
        }
        return Ok(CompletionPlan::RecordFailure);
    }
    if request.failure_code.is_some() {
        return Err("성공 결과에는 실패 코드를 포함할 수 없습니다.".to_owned());
    }
    let model_id = match &request.model_id {
        Some(v) => v,
        None => {
            return Err("성공 결과에는 모델 ID가 필요합니다.".to_owned());
        },
    };
    let model_version = match &request.model_version {
        Some(v) => v,
        None => {
            return Err("성공 결과에는 모델 버전이 필요합니다.".to_owned());
        },
    };
    validate_identifier(model_id.as_str(), "모델")?;
    validate_identifier(model_version.as_str(), "모델 버전")?;
    let artifact = match &request.artifact {
        Some(a) => a,
        None => {
            return Err("성공 결과에는 모델 아티팩트가 필요합니다.".to_owned());
        },
    };
    validate_artifact(job.algorithm, artifact)?;
    let metrics = match &request.metrics {
        Some(m) => m,
        None => {
            return Err("성공 결과에는 OOS 지표가 필요합니다.".to_owned());
        },
    };
    validate_metrics(metrics, request.completed_at_ms)?;
    let predictions = match &request.predictions {
        Some(p) => p,
        None => {
            return Err("성공 결과에는 OOS 원시 예측이 필요합니다.".to_owned());
        },
    };
    let tally = oos_tally(predictions, metrics.evaluated_at_ms)?;
    if tally.sample_count != metrics.sample_count || tally.fold_count != metrics.fold_count
        || tally.brier_score_millionths != metrics.brier_score_millionths || tally.expected_calibration_error_bps
        != metrics.expected_calibration_error_bps {
        return Err("worker OOS 지표가 Rust 재계산 결과와 일치하지 않습니다.".to_owned());
    }
    Ok(CompletionPlan::RegisterCandidate(tally))
}


// ---------------------------------------------------------------- registering a model candidate

/// What a prepared job pinned of its dataset.
#[derive(Debug, Clone)]
pub struct PreparedJobLineage {
    pub job_id: String,
    pub manifest_id: String,
    pub dataset_source_kind: MlDatasetSourceKind,
    pub algorithm: MlAlgorithm,
    pub dataset_content_sha256: String,
    pub feature_schema_sha256: String,
}

/// The job's dataset source as it is stored now, with its asset class.
#[derive(Debug, Clone)]
pub enum CurrentDatasetFacts {
    Manifest { content_sha256: String, asset_class: String },
    ShardSet { combined_content_sha256: String, feature_schema_sha256: String, asset_class: String },
}

/// A registered model version: a candidate for review, never for live orders.
#[derive(Debug, Clone)]
pub struct StoredMlModelVersion {
    pub model_id: String,
    pub model_version: String,
    pub job_id: String,
    pub manifest_id: String,
    pub dataset_source_kind: MlDatasetSourceKind,
    pub asset_class: String,
    pub algorithm: MlAlgorithm,
    pub artifact: MlArtifactDescriptor,
    pub metrics: MlOosMetrics,
    pub status: String,
    pub created_at_ms: u64,
    pub live_order_allowed: bool,
}

/// Why a checked successful completion is not registered: the metrics the
/// library recomputed (floating-point ones included) differ from the worker's,
/// or the dataset the job was prepared on has changed since.
pub open spec fn registration_refusal(
    job: PreparedJobLineage,
    current: CurrentDatasetFacts,
    metrics: MlOosMetrics,
    recomputed: MlOosMetrics,
) -> Option<Seq<char>> {
    if recomputed != metrics {
        Some("worker OOS 지표가 Rust 재계산 결과와 일치하지 않습니다."@)
    } else {
        match job.dataset_source_kind {
            MlDatasetSourceKind::Manifest => match current {
                CurrentDatasetFacts::Manifest { content_sha256, .. } => if content_sha256@
                    != job.dataset_content_sha256@ {
                    Some("완료 시점 ML 매니페스트 해시가 준비 시점과 다릅니다."@)
                } else {
                    None
                },
                CurrentDatasetFacts::ShardSet { .. } => Some("완료 시점 ML 매니페스트 해시가 준비 시점과 다릅니다."@),
            },
            MlDatasetSourceKind::ShardSet => match current {
                CurrentDatasetFacts::ShardSet { combined_content_sha256, feature_schema_sha256, .. } => if combined_content_sha256@
                    != job.dataset_content_sha256@ || feature_schema_sha256@ != job.feature_schema_sha256@ {
                    Some("완료 시점 ML shard set 계보가 준비 시점과 다릅니다."@)
                } else {
                    None
                },
                CurrentDatasetFacts::Manifest { .. } => Some("완료 시점 ML shard set 계보가 준비 시점과 다릅니다."@),
            },
        }
    }
}

pub open spec fn current_asset_class(current: CurrentDatasetFacts) -> Seq<char> {
    match current {
        CurrentDatasetFacts::Manifest { asset_class, .. } => asset_class@,
        CurrentDatasetFacts::ShardSet { asset_class, .. } => asset_class@,
    }
}

/// The model version a successful completion registers, after its recomputed
/// metrics and its dataset lineage are checked (see [`registration_refusal`]):
/// a review candidate created at completion, with live orders off.
pub fn register_model_candidate(
    job: &PreparedJobLineage,
    current: &CurrentDatasetFacts,
    model_id: String,
    model_version: String,
    artifact: MlArtifactDescriptor,
    metrics: MlOosMetrics,
    recomputed: MlOosMetrics,
    completed_at_ms: u64,
) -> (r: Result<StoredMlModelVersion, String>)
    ensures
        match registration_refusal(*job, *current, metrics, recomputed) {
            Some(e) => r matches Err(m) && m@ == e,
            None => r matches Ok(v) && {
                &&& v.model_id == model_id
                &&& v.model_version == model_version
                &&& v.job_id == job.job_id
                &&& v.manifest_id == job.manifest_id
                &&& v.dataset_source_kind == job.dataset_source_kind
                &&& v.asset_class@ == current_asset_class(*current)
                &&& v.algorithm == job.algorithm
                &&& v.artifact == artifact
                &&& v.metrics == metrics
                &&& v.status@ == "candidate_review"@
                &&& v.created_at_ms == completed_at_ms
                &&& !v.live_order_allowed
            },
        },
{
    if recomputed != metrics {
        return Err("worker OOS 지표가 Rust 재계산 결과와 일치하지 않습니다.".to_owned());
    }
    let asset_class = match job.dataset_source_kind {
        MlDatasetSourceKind::Manifest => match current {
            CurrentDatasetFacts::Manifest { content_sha256, asset_class } => {
                if !str_eq(content_sha256.as_str(), job.dataset_content_sha256.as_str()) {
                    return Err("완료 시점 ML 매니페스트 해시가 준비 시점과 다릅니다.".to_owned());
                }
                copy_text(asset_class)
            },
            CurrentDatasetFacts::ShardSet { .. } => {
                return Err("완료 시점 ML 매니페스트 해시가 준비 시점과 다릅니다.".to_owned());
            },
        },
        MlDatasetSourceKind::ShardSet => match current {
            CurrentDatasetFacts::ShardSet { combined_content_sha256, feature_schema_sha256, asset_class } => {
                if !str_eq(combined_content_sha256.as_str(), job.dataset_content_sha256.as_str()) || !str_eq(
                    feature_schema_sha256.as_str(),
                    job.feature_schema_sha256.as_str(),
                ) {
                    return Err("완료 시점 ML shard set 계보가 준비 시점과 다릅니다.".to_owned());
                }
                copy_text(asset_class)
            },
            CurrentDatasetFacts::Manifest { .. } => {
                return Err("완료 시점 ML shard set 계보가 준비 시점과 다릅니다.".to_owned());
            },
        },
    };
    Ok(
        StoredMlModelVersion {
            model_id,
            model_version,
            job_id: copy_text(&job.job_id),
            manifest_id: copy_text(&job.manifest_id),
            dataset_source_kind: job.dataset_source_kind,
            asset_class,
            algorithm: job.algorithm,
            artifact,
            metrics,
            status: "candidate_review".to_owned(),
            created_at_ms: completed_at_ms,
            live_order_allowed: false,
        },
    )
}

fn copy_artifact(a: &MlArtifactDescriptor) -> (r: MlArtifactDescriptor)
    ensures
        r == *a,
{
    MlArtifactDescriptor {
        file_name: copy_text(&a.file_name),
        format: a.format,
        sha256: copy_text(&a.sha256),
        byte_size: a.byte_size,
    }
}

fn copy_metrics(m: &MlOosMetrics) -> (r: MlOosMetrics)
    ensures
        r == *m,
{
    MlOosMetrics {
        sample_count: m.sample_count,
        fold_count: m.fold_count,
        log_loss_millionths: m.log_loss_millionths,
        brier_score_millionths: m.brier_score_millionths,
        expected_calibration_error_bps: m.expected_calibration_error_bps,
        balanced_accuracy_bps: m.balanced_accuracy_bps,
        evaluated_at_ms: m.evaluated_at_ms,
    }
}

/// How a completion ends.
#[derive(Debug)]
pub enum CompletionOutcome {
    /// The job already ended with this very result.
    Reconfirm,
    /// The failure is recorded; no model is registered.
    RecordFailure,
    /// The model version registered for review.
    Registered(StoredMlModelVersion),
}

/// The whole decision on a worker's completion: the checks of
/// [`plan_completion`], then for a success the full recomputed metrics
/// (`recomputed`, which holds the floating-point ones too) and the dataset
/// lineage of [`register_model_candidate`].
pub fn decide_completion(
    request: &MlTrainingJobCompleteRequest,
    job: &PreparedJobFacts,
    lineage: &PreparedJobLineage,
    current: &CurrentDatasetFacts,
    recomputed: MlOosMetrics,
) -> (r: Result<CompletionOutcome, String>)
    ensures
        match completion_refusal(*request, *job) {
            Some(e) => r matches Err(m) && m@ == e,
            None => if !job.prepared {
                r matches Ok(CompletionOutcome::Reconfirm)
            } else if !request.succeeded {
                r matches Ok(CompletionOutcome::RecordFailure)
            } else {
                let preds = request.predictions->0@;
                let m = request.metrics->0;
                match oos_error(preds, m.evaluated_at_ms) {
                    Some(e) => r matches Err(x) && x@ == e,
                    None => exists|t: OosTally|
                        #[trigger] tally_of(t, preds) && if !integer_metrics_match(t, m) {
                            r matches Err(x) && x@ == "worker OOS 지표가 Rust 재계산 결과와 일치하지 않습니다."@
                        } else {
                            match registration_refusal(*lineage, *current, m, recomputed) {
                                Some(e) => r matches Err(x) && x@ == e,
                                None => r matches Ok(CompletionOutcome::Registered(v)) && {
                                    &&& v.model_id == request.model_id->0
                                    &&& v.model_version == request.model_version->0
                                    &&& v.job_id == lineage.job_id
                                    &&& v.manifest_id == lineage.manifest_id
                                    &&& v.dataset_source_kind == lineage.dataset_source_kind
                                    &&& v.asset_class@ == current_asset_class(*current)
                                    &&& v.algorithm == lineage.algorithm
                                    &&& v.artifact == request.artifact->0
                                    &&& v.metrics == m
                                    &&& v.status@ == "candidate_review"@
                                    &&& v.created_at_ms == request.completed_at_ms
                                    &&& !v.live_order_allowed
                                },
                            }
                        },
                }
            },
        },
{
    let plan = plan_completion(request, job)?;
    match plan {
        CompletionPlan::Reconfirm => Ok(CompletionOutcome::Reconfirm),
        CompletionPlan::RecordFailure => Ok(CompletionOutcome::RecordFailure),
        CompletionPlan::RegisterCandidate(_) => {
            let model_id = match &request.model_id {
                Some(v) => copy_text(v),
                None => {
                    return Err("성공 결과에는 모델 ID가 필요합니다.".to_owned());
                },
            };
            let model_version = match &request.model_version {
                Some(v) => copy_text(v),
                None => {
                    return Err("성공 결과에는 모델 버전이 필요합니다.".to_owned());
                },
            };
            let artifact = match &request.artifact {
                Some(a) => copy_artifact(a),
                None => {
                    return Err("성공 결과에는 모델 아티팩트가 필요합니다.".to_owned());
                },
            };
            let metrics = match &request.metrics {
                Some(m) => copy_metrics(m),
                None => {
                    return Err("성공 결과에는 OOS 지표가 필요합니다.".to_owned());
                },
            };
            let model = register_model_candidate(
                lineage,
                current,
                model_id,
                model_version,
                artifact,
                metrics,
                recomputed,
                request.completed_at_ms,
            )?;
            Ok(CompletionOutcome::Registered(model))
        },
    }
}

// ---------------------------------------------------------------- preparing a training job

#[derive(Debug, Clone)]
pub struct MlTrainingJobPrepareRequest {
    pub job_id: String,
    pub manifest_id: String,
    pub algorithm: MlAlgorithm,
    pub code_version: String,
    pub random_seed: u64,
    pub horizon_ms: u64,
    pub timeout_seconds: u32,
    pub memory_limit_mb: u32,
    pub max_threads: u8,
    pub hyperparameters: Vec<(String, HyperparameterValue)>,
    pub requested_at_ms: u64,
}

/// The worker's bounds: a horizon, 60 s to 6 h, 512 MiB to 16 GiB, 1 to 16
/// threads, and a request time.
pub open spec fn training_limits_ok(r: MlTrainingJobPrepareRequest) -> bool {
    &&& r.horizon_ms != 0
    &&& 60 <= r.timeout_seconds <= 21_600
    &&& 512 <= r.memory_limit_mb <= 16_384
    &&& 1 <= r.max_threads <= 16
    &&& r.requested_at_ms != 0
}

/// The first refusal of a training request, or `None`.
pub open spec fn training_request_refusal(r: MlTrainingJobPrepareRequest) -> Option<Seq<char>> {
    if !ml_identifier_ok(r.job_id@) {
        Some(identifier_message("학습 작업"@))
    } else if !ml_identifier_ok(r.manifest_id@) {
        Some(identifier_message("매니페스트"@))
    } else if !ml_identifier_ok(r.code_version@) {
        Some(identifier_message("코드 버전"@))
    } else if !training_limits_ok(r) {
        Some("horizon·timeout·메모리·스레드·요청 시각 제한이 올바르지 않습니다."@)
    } else if r.hyperparameters@.len() > MAX_HYPERPARAMETERS {
        Some("하이퍼파라미터는 최대 64개입니다."@)
    } else if !hyperparameters_ok(r.hyperparameters@) {
        Some("하이퍼파라미터는 제한된 이름과 짧은 scalar 값만 허용합니다."@)
    } else {
        None
    }
}

/// Checks a training request before its dataset is looked up.
pub fn validate_training_request(request: &MlTrainingJobPrepareRequest) -> (r: Result<(), String>)
    ensures
        match training_request_refusal(*request) {
            Some(e) => r matches Err(m) && m@ == e,
            None => r is Ok,
        },
{
    validate_identifier(request.job_id.as_str(), "학습 작업")?;
    validate_identifier(request.manifest_id.as_str(), "매니페스트")?;
    validate_identifier(request.code_version.as_str(), "코드 버전")?;
    if request.horizon_ms == 0 || request.timeout_seconds < 60 || request.timeout_seconds > 21_600
        || request.memory_limit_mb < 512 || request.memory_limit_mb > 16_384 || request.max_threads < 1
        || request.max_threads > 16 || request.requested_at_ms == 0 {
        return Err("horizon·timeout·메모리·스레드·요청 시각 제한이 올바르지 않습니다.".to_owned());
    }
    validate_hyperparameters(&request.hyperparameters)
}

// ---------------------------------------------------------------- dataset manifests

pub const MAX_FEATURES: usize = 200_000;
pub const MAX_PAYLOAD_BYTES: usize = 67_108_864;

/// The identifiers of a dataset manifest to create.
#[derive(Debug, Clone)]
pub struct MlDatasetManifestCreateRequest {
    pub manifest_id: String,
    pub audit_id: String,
    pub dataset_id: String,
}

/// The first refusal of a manifest request before its dataset is audited.
pub open spec fn manifest_request_refusal(
    r: MlDatasetManifestCreateRequest,
    sample_count: nat,
    feature_count: nat,
) -> Option<Seq<char>> {
    if !ml_identifier_ok(r.manifest_id@) {
        Some(identifier_message("매니페스트"@))
    } else if !ml_identifier_ok(r.audit_id@) {
        Some(identifier_message("감사"@))
    } else if !ml_identifier_ok(r.dataset_id@) {
        Some(identifier_message("데이터셋"@))
    } else if sample_count == 0 || sample_count > MAX_SAMPLES || feature_count == 0 || feature_count
        > MAX_FEATURES {
        Some("ML 데이터셋은 표본 1~20000개, 피처 1~200000개 범위여야 합니다."@)
    } else {
        None
    }
}

/// Checks a manifest request's identifiers and its numbers of samples and
/// features, before the dataset is audited and put in canonical order.
pub fn check_manifest_request(request: &MlDatasetManifestCreateRequest, sample_count: usize, feature_count: usize) -> (r:
    Result<(), String>)
    ensures
        match manifest_request_refusal(*request, sample_count as nat, feature_count as nat) {
            Some(e) => r matches Err(m) && m@ == e,
            None => r is Ok,
        },
{
    validate_identifier(request.manifest_id.as_str(), "매니페스트")?;
    validate_identifier(request.audit_id.as_str(), "감사")?;
    validate_identifier(request.dataset_id.as_str(), "데이터셋")?;
    if sample_count == 0 || sample_count > MAX_SAMPLES || feature_count == 0 || feature_count > MAX_FEATURES {
        return Err("ML 데이터셋은 표본 1~20000개, 피처 1~200000개 범위여야 합니다.".to_owned());
    }
    Ok(())
}

/// What the manifest records of a canonical dataset: its samples' decision
/// times in their canonical (increasing) order and its features' ingestion times.
#[derive(Debug, Clone)]
pub struct CanonicalDatasetFacts {
    pub sample_decision_times_ms: Vec<u64>,
    pub feature_ingested_at_ms: Vec<u64>,
}

/// The manifest of a canonical dataset.
#[derive(Debug, Clone)]
pub struct ManifestPlan {
    pub content_sha256: String,
    pub feature_schema_sha256: String,
    pub sample_count: usize,
    pub feature_count: usize,
    pub first_decision_time_ms: u64,
    pub last_decision_time_ms: u64,
    pub created_at_ms: u64,
}

/// A stored dataset manifest: the request's ids, the asset contract as
/// serialised, the checked plan and the dataset's time split.
#[derive(Debug, Clone)]
pub struct StoredMlDatasetManifest {
    pub manifest_id: String,
    pub audit_id: String,
    pub dataset_id: String,
    pub asset_json: Vec<u8>,
    pub content_sha256: String,
    pub feature_schema_sha256: String,
    pub sample_count: usize,
    pub feature_count: usize,
    pub first_decision_time_ms: u64,
    pub last_decision_time_ms: u64,
    pub split: crate::shards::TimeSplit,
    pub created_at_ms: u64,
}

/// The manifest record of a checked request and its plan.
pub fn stored_manifest(
    request: &MlDatasetManifestCreateRequest,
    plan: ManifestPlan,
    asset_json: Vec<u8>,
    split: crate::shards::TimeSplit,
) -> (r: StoredMlDatasetManifest)
    ensures
        r.manifest_id == request.manifest_id,
        r.audit_id == request.audit_id,
        r.dataset_id == request.dataset_id,
        r.asset_json@ == asset_json@,
        r.content_sha256 == plan.content_sha256,
        r.feature_schema_sha256 == plan.feature_schema_sha256,
        r.sample_count == plan.sample_count,
        r.feature_count == plan.feature_count,
        r.first_decision_time_ms == plan.first_decision_time_ms,
        r.last_decision_time_ms == plan.last_decision_time_ms,
        r.split == split,
        r.created_at_ms == plan.created_at_ms,
{
    StoredMlDatasetManifest {
        manifest_id: copy_text(&request.manifest_id),
        audit_id: copy_text(&request.audit_id),
        dataset_id: copy_text(&request.dataset_id),
        asset_json,
        content_sha256: plan.content_sha256,
        feature_schema_sha256: plan.feature_schema_sha256,
        sample_count: plan.sample_count,
        feature_count: plan.feature_count,
        first_decision_time_ms: plan.first_decision_time_ms,
        last_decision_time_ms: plan.last_decision_time_ms,
        split,
        created_at_ms: plan.created_at_ms,
    }
}

pub open spec fn seq_max(s: Seq<u64>) -> int
    decreases s.len(),
{
    if s.len() == 0 {
        0
    } else {
        let m = seq_max(s.drop_last());
        if s.last() > m {
            s.last() as int
        } else {
            m
        }
    }
}

/// The manifest of a canonical dataset serialised as `payload_json`, with its
/// expected-feature schema serialised as `feature_schema_json`: refused above
/// 64 MiB or without features; else pinned by both SHA-256 digests, spanning its
/// first to last decision time, and created when its last feature was ingested.
pub fn plan_dataset_manifest(
    facts: &CanonicalDatasetFacts,
    payload_json: &Vec<u8>,
    feature_schema_json: &Vec<u8>,
) -> (r: Result<ManifestPlan, String>)
    requires
        facts.sample_decision_times_ms@.len() > 0,
    ensures
        payload_json@.len() > MAX_PAYLOAD_BYTES ==> (r matches Err(e) && e@
            == "ML 데이터셋 직렬화 크기가 64MiB 제한을 초과했습니다."@),
        payload_json@.len() <= MAX_PAYLOAD_BYTES && facts.feature_ingested_at_ms@.len() == 0 ==> (r matches Err(e)
            && e@ == "피처 수집 시각이 필요합니다."@),
        payload_json@.len() <= MAX_PAYLOAD_BYTES && facts.feature_ingested_at_ms@.len() > 0 ==> (r matches Ok(p) && {
            let times = facts.sample_decision_times_ms@;
            &&& p.content_sha256@ == sha256_hex_of(payload_json@)
            &&& p.feature_schema_sha256@ == sha256_hex_of(feature_schema_json@)
            &&& p.sample_count == times.len()
            &&& p.feature_count == facts.feature_ingested_at_ms@.len()
            &&& p.first_decision_time_ms == times[0]
            &&& p.last_decision_time_ms == times[times.len() - 1]
            &&& p.created_at_ms == seq_max(facts.feature_ingested_at_ms@)
        }),
{
    if payload_json.len() > MAX_PAYLOAD_BYTES {
        return Err("ML 데이터셋 직렬화 크기가 64MiB 제한을 초과했습니다.".to_owned());
    }
    let content_sha256 = sha256_hex(payload_json.as_slice());
    let feature_schema_sha256 = sha256_hex(feature_schema_json.as_slice());
    let ingested = &facts.feature_ingested_at_ms;
    if ingested.len() == 0 {
        return Err("피처 수집 시각이 필요합니다.".to_owned());
    }
    let mut created_at_ms: u64 = 0;
    let mut i: usize = 0;
    while i < ingested.len()
        invariant
            i <= ingested@.len(),
            created_at_ms == seq_max(ingested@.subrange(0, i as int)),
        decreases ingested.len() - i,
    {
        proof {
            assert(ingested@.subrange(0, i as int + 1).drop_last() =~= ingested@.subrange(0, i as int));
        }
        if ingested[i] > created_at_ms {
            created_at_ms = ingested[i];
        }
        i = i + 1;
    }
    assert(ingested@.subrange(0, ingested@.len() as int) =~= ingested@);
    let times = &facts.sample_decision_times_ms;
    Ok(
        ManifestPlan {
            content_sha256,
            feature_schema_sha256,
            sample_count: times.len(),
            feature_count: ingested.len(),
            first_decision_time_ms: times[0],
            last_decision_time_ms: times[times.len() - 1],
            created_at_ms,
        },
    )
}

// ---------------------------------------------------------------- planning a training job

/// What was found under a training request's dataset id.
#[derive(Debug, Clone)]
pub enum TrainingSourceFacts {
    /// A dataset manifest, with its content and feature-schema digests.
    Manifest { content_sha256: String, feature_schema_sha256: String },
    /// A shard set, with its combined digest, schema digest and first shard.
    ShardSet { combined_content_sha256: String, feature_schema_sha256: String, first_manifest_id: Option<String> },
    /// Neither.
    Missing,
}

/// The data source a stored job was recorded with.
#[derive(Debug, Clone)]
pub struct JobSourceFacts {
    pub source_kind: String,
    pub source_id: String,
    pub source_content_sha256: String,
}

/// A job already stored under the request's job id.
#[derive(Debug, Clone)]
pub struct StoredJobFacts {
    pub input_sha256: String,
    pub status: String,
    pub updated_at_ms: u64,
    pub source: Option<JobSourceFacts>,
}

/// The job to record, or to report again.
#[derive(Debug, Clone)]
pub struct TrainingJobPlan {
    pub dataset_source_kind: MlDatasetSourceKind,
    pub contract_version: String,
    pub dataset_content_sha256: String,
    pub feature_schema_sha256: String,
    pub anchor_manifest_id: String,
    pub input_sha256: String,
    pub status: String,
    pub created_at_ms: u64,
    pub updated_at_ms: u64,
    /// A new job to insert; otherwise the identical stored job is reused.
    pub insert: bool,
}

/// Why the dataset found cannot feed the job, before its input is hashed.
pub open spec fn training_source_refusal(r: MlTrainingJobPrepareRequest, source: TrainingSourceFacts) -> Option<
    Seq<char>,
> {
    match source {
        TrainingSourceFacts::Manifest { .. } => None,
        TrainingSourceFacts::Missing => Some("학습 전에 ML 데이터셋 매니페스트 또는 shard set이 필요합니다."@),
        TrainingSourceFacts::ShardSet { first_manifest_id, .. } => if r.algorithm != MlAlgorithm::Xgboost {
            Some("현재 shard-aware worker는 XGBoost hist 외부 메모리 학습만 허용합니다."@)
        } else if first_manifest_id is None {
            Some("shard set에 기준 매니페스트가 없습니다."@)
        } else {
            None
        },
    }
}

/// Why an identical stored job cannot be reused, or a different one replaced.
pub open spec fn stored_job_refusal(
    r: MlTrainingJobPrepareRequest,
    kind: MlDatasetSourceKind,
    content: Seq<char>,
    input: Seq<char>,
    existing: Option<StoredJobFacts>,
) -> Option<Seq<char>> {
    match existing {
        None => None,
        Some(e) => if e.input_sha256@ != input {
            Some("같은 학습 작업 ID에 다른 입력이 이미 저장되어 있습니다."@)
        } else if !(e.source matches Some(src) && src.source_kind@ == dataset_source_kind_key_spec(kind)
            && src.source_id@ == r.manifest_id@ && src.source_content_sha256@ == content) {
            Some("저장된 ML 작업의 데이터 원천 계보가 다릅니다."@)
        } else {
            None
        },
    }
}

pub open spec fn dataset_source_kind_key_spec(kind: MlDatasetSourceKind) -> Seq<char> {
    match kind {
        MlDatasetSourceKind::Manifest => "manifest"@,
        MlDatasetSourceKind::ShardSet => "shard_set"@,
    }
}

/// Plans a training job: the request checked, its dataset source chosen (a
/// manifest, else a shard set for XGBoost), its input pinned by the SHA-256 of
/// `hash_input` (the job record serialised with an empty input digest), and a
/// stored job under the same id either reused when identical in input and
/// lineage, or refused.
pub fn plan_training_job(
    request: &MlTrainingJobPrepareRequest,
    source: &TrainingSourceFacts,
    hash_input: &Vec<u8>,
    existing: Option<StoredJobFacts>,
) -> (r: Result<TrainingJobPlan, String>)
    ensures
        match training_request_refusal(*request) {
            Some(e) => r matches Err(m) && m@ == e,
            None => match training_source_refusal(*request, *source) {
                Some(e) => r matches Err(m) && m@ == e,
                None => {
                    let (kind, content, schema, anchor, contract) = match *source {
                        TrainingSourceFacts::Manifest { content_sha256, feature_schema_sha256 } => (
                            MlDatasetSourceKind::Manifest,
                            content_sha256@,
                            feature_schema_sha256@,
                            request.manifest_id@,
                            "investa-ml-worker-v1"@,
                        ),
                        TrainingSourceFacts::ShardSet { combined_content_sha256, feature_schema_sha256, first_manifest_id } => (
                            MlDatasetSourceKind::ShardSet,
                            combined_content_sha256@,
                            feature_schema_sha256@,
                            first_manifest_id->0@,
                            "investa-ml-worker-sharded-v1"@,
                        ),
                        TrainingSourceFacts::Missing => (MlDatasetSourceKind::Manifest, Seq::empty(), Seq::empty(), Seq::empty(), Seq::empty()),
                    };
                    let input = sha256_hex_of(hash_input@);
                    match stored_job_refusal(*request, kind, content, input, existing) {
                        Some(e) => r matches Err(m) && m@ == e,
                        None => r matches Ok(p) && {
                            &&& p.dataset_source_kind == kind
                            &&& p.dataset_content_sha256@ == content
                            &&& p.feature_schema_sha256@ == schema
                            &&& p.anchor_manifest_id@ == anchor
                            &&& p.contract_version@ == contract
                            &&& p.input_sha256@ == input
                            &&& p.created_at_ms == request.requested_at_ms
                            &&& p.insert == existing is None
                            &&& (existing matches Some(e) ==> p.status == e.status && p.updated_at_ms == e.updated_at_ms)
                            &&& (existing is None ==> p.status@ == "prepared"@ && p.updated_at_ms == request.requested_at_ms)
                        },
                    }
                },
            },
        },
{
    validate_training_request(request)?;
    let (kind, content, schema, anchor, contract) = match source {
        TrainingSourceFacts::Manifest { content_sha256, feature_schema_sha256 } => (
            MlDatasetSourceKind::Manifest,
            copy_text(content_sha256),
            copy_text(feature_schema_sha256),
            copy_text(&request.manifest_id),
            "investa-ml-worker-v1".to_owned(),
        ),
        TrainingSourceFacts::Missing => {
            return Err("학습 전에 ML 데이터셋 매니페스트 또는 shard set이 필요합니다.".to_owned());
        },
        TrainingSourceFacts::ShardSet { combined_content_sha256, feature_schema_sha256, first_manifest_id } => {
            if request.algorithm != MlAlgorithm::Xgboost {
                return Err("현재 shard-aware worker는 XGBoost hist 외부 메모리 학습만 허용합니다.".to_owned());
            }
            let anchor = match first_manifest_id {
                Some(id) => copy_text(id),
                None => {
                    return Err("shard set에 기준 매니페스트가 없습니다.".to_owned());
                },
            };
            (
                MlDatasetSourceKind::ShardSet,
                copy_text(combined_content_sha256),
                copy_text(feature_schema_sha256),
                anchor,
                "investa-ml-worker-sharded-v1".to_owned(),
            )
        },
    };
    proof {
        reveal_strlit("investa-ml-worker-v1");
        reveal_strlit("investa-ml-worker-sharded-v1");
    }
    let input = sha256_hex(hash_input.as_slice());
    match existing {
        None => Ok(
            TrainingJobPlan {
                dataset_source_kind: kind,
                contract_version: contract,
                dataset_content_sha256: content,
                feature_schema_sha256: schema,
                anchor_manifest_id: anchor,
                input_sha256: input,
                status: "prepared".to_owned(),
                created_at_ms: request.requested_at_ms,
                updated_at_ms: request.requested_at_ms,
                insert: true,
            },
        ),
        Some(e) => {
            if !str_eq(e.input_sha256.as_str(), input.as_str()) {
                return Err("같은 학습 작업 ID에 다른 입력이 이미 저장되어 있습니다.".to_owned());
            }
            let kind_key = dataset_source_kind_key(kind);
            let same_lineage = match &e.source {
                Some(src) => str_eq(src.source_kind.as_str(), kind_key) && str_eq(
                    src.source_id.as_str(),
                    request.manifest_id.as_str(),
                ) && str_eq(src.source_content_sha256.as_str(), content.as_str()),
                None => false,
            };
            if !same_lineage {
                return Err("저장된 ML 작업의 데이터 원천 계보가 다릅니다.".to_owned());
            }
            Ok(
                TrainingJobPlan {
                    dataset_source_kind: kind,
                    contract_version: contract,
                    dataset_content_sha256: content,
                    feature_schema_sha256: schema,
                    anchor_manifest_id: anchor,
                    input_sha256: input,
                    status: e.status,
                    created_at_ms: request.requested_at_ms,
                    updated_at_ms: e.updated_at_ms,
                    insert: false,
                },
            )
        },
    }
}

} // verus!
