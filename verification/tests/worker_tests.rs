use std::io::{Cursor, Read};

use investa::ml::{MlArtifactDescriptor, MlArtifactFormat};
use investa::worker::{worker_failure_code, WorkerOutcomeFacts, absorb_chunk, check_artifact_digest, empty_capped_output, verify_artifact_bytes, CappedOutput, RunningJobs};

fn drain<R: Read>(mut reader: R, limit: usize) -> CappedOutput {
    let mut output = empty_capped_output();
    let mut buffer = [0_u8; 8 * 1024];
    loop {
        match reader.read(&mut buffer) {
            Ok(0) | Err(_) => break,
            Ok(count) => absorb_chunk(&mut output, &buffer[..count], limit),
        }
    }
    output
}

#[test]
fn capped_reader_keeps_prefix_and_reports_overflow() {
    let output = drain(Cursor::new(vec![7_u8; 32]), 10);
    assert_eq!(output.bytes, vec![7_u8; 10]);
    assert!(output.exceeded);
}

#[test]
fn chunks_absorbed_one_by_one_match_the_capped_whole() {
    let mut output = empty_capped_output();
    absorb_chunk(&mut output, &[1, 2, 3], 5);
    assert_eq!(output.bytes, vec![1, 2, 3]);
    assert!(!output.exceeded);
    absorb_chunk(&mut output, &[4, 5], 5);
    assert_eq!(output.bytes, vec![1, 2, 3, 4, 5]);
    assert!(!output.exceeded);
    absorb_chunk(&mut output, &[], 5);
    assert!(!output.exceeded);
    absorb_chunk(&mut output, &[6], 5);
    assert_eq!(output.bytes, vec![1, 2, 3, 4, 5]);
    assert!(output.exceeded);
    let exact = drain(Cursor::new(vec![9_u8; 10]), 10);
    assert_eq!(exact.bytes.len(), 10);
    assert!(!exact.exceeded);
}

#[test]
fn a_running_job_is_claimed_once_until_released() {
    let mut jobs = RunningJobs::new();
    assert!(jobs.claim("job-1").is_ok());
    assert!(jobs.claim("job-2").is_ok());
    assert_eq!(jobs.claim("job-1").unwrap_err(), "동일 ML 작업이 이미 실행 중입니다.");
    jobs.release("job-1");
    assert!(jobs.claim("job-1").is_ok());
    jobs.release("missing");
    assert!(jobs.claim("job-2").is_err());
}

fn descriptor(sha256: &str, byte_size: u64) -> MlArtifactDescriptor {
    MlArtifactDescriptor {
        file_name: "model.txt".to_owned(),
        format: MlArtifactFormat::LightgbmText,
        sha256: sha256.to_owned(),
        byte_size,
    }
}

const ABC_SHA256: &str = "ba7816bf8f01cfea414140de5dae2223b00361a396177a9cb410ff61f20015ad";

#[test]
fn artifact_bytes_match_their_sha256_digest() {
    assert_eq!(verify_artifact_bytes(b"abc", &descriptor(ABC_SHA256, 3)), Ok(()));
}

#[test]
fn artifact_with_other_digest_or_size_is_refused() {
    let other = "0000000000000000000000000000000000000000000000000000000000000000";
    assert_eq!(
        verify_artifact_bytes(b"abc", &descriptor(other, 3)),
        Err("ML worker 아티팩트 해시가 결과 계약과 다릅니다.".to_owned())
    );
    assert_eq!(
        verify_artifact_bytes(b"abc", &descriptor(ABC_SHA256, 4)),
        Err("ML worker 아티팩트 크기가 결과 계약과 다릅니다.".to_owned())
    );
    assert_eq!(check_artifact_digest(3, ABC_SHA256, &descriptor(ABC_SHA256, 3)), Ok(()));
}

#[test]
fn worker_failures_are_coded_in_the_order_they_are_observed() {
    let clean = WorkerOutcomeFacts {
        launched: true,
        timed_out: false,
        stdout_exceeded: false,
        stderr_exceeded: false,
        success: true,
        result_found: true,
        result_is_file: true,
        result_bytes: 1_024,
        result_parsed: true,
        artifact_ok: true,
    };
    assert_eq!(worker_failure_code(&clean), None);
    assert_eq!(worker_failure_code(&WorkerOutcomeFacts { timed_out: true, success: false, ..clean }), Some("worker_timeout"));
    assert_eq!(worker_failure_code(&WorkerOutcomeFacts { launched: false, ..clean }), Some("worker_launch_failure"));
    assert_eq!(
        worker_failure_code(&WorkerOutcomeFacts { result_bytes: 16 * 1024 * 1024 + 1, ..clean }),
        Some("worker_result_limit")
    );
    assert_eq!(worker_failure_code(&WorkerOutcomeFacts { artifact_ok: false, ..clean }), Some("worker_artifact_invalid"));
}
