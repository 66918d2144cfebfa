//! Bookkeeping around the isolated training worker: output kept up to a cap
//! while the rest is drained, and the jobs that are running, each at most once.
use vstd::prelude::*;
use sha2::{Digest, Sha256};
use crate::ml::MlArtifactDescriptor;
use crate::text::str_eq;

verus! {

/// What was kept of an output stream, and whether more arrived than kept.
#[derive(Debug, Clone)]
pub struct CappedOutput {
    pub bytes: Vec<u8>,
    pub exceeded: bool,
}

/// A stream capped at `limit` bytes: its first bytes, and whether it was longer.
pub open spec fn capped(stream: Seq<u8>, limit: nat) -> (Seq<u8>, bool) {
    if stream.len() <= limit {
        (stream, false)
    } else {
        (stream.take(limit as int), true)
    }
}

pub fn empty_capped_output() -> (r: CappedOutput)
    ensures
        (r.bytes@, r.exceeded) == capped(Seq::empty(), 0),
        r.bytes@.len() == 0,
        !r.exceeded,
{
    CappedOutput { bytes: Vec::new(), exceeded: false }
}

/// Takes in one chunk read from the stream: keeps what still fits under the
/// cap and notes any overflow. Having taken in the stream so far capped, it
/// holds the longer stream capped.
pub fn absorb_chunk(out: &mut CappedOutput, chunk: &[u8], limit: usize)
    requires
        old(out).bytes@.len() <= limit,
    ensures
        final(out).bytes@.len() <= limit,
        ({
            let remaining = limit - old(out).bytes@.len();
            let kept = if chunk@.len() <= remaining {
                chunk@
            } else {
                chunk@.take(remaining)
            };
            &&& final(out).bytes@ == old(out).bytes@ + kept
            &&& final(out).exceeded == (old(out).exceeded || chunk@.len() > remaining)
        }),
        forall|stream: Seq<u8>|
            (old(out).bytes@, old(out).exceeded) == capped(stream, limit as nat) ==> #[trigger] capped(
                stream + chunk@,
                limit as nat,
            ) == (final(out).bytes@, final(out).exceeded),
{
    let remaining = limit - out.bytes.len();
    let ghost before = out.bytes@;
    let ghost was_exceeded = out.exceeded;
    let take = if chunk.len() < remaining {
        chunk.len()
    } else {
        remaining
    };
    let mut i: usize = 0;
    while i < take
        invariant
            take <= chunk@.len(),
            take <= remaining,
            i <= take,
            out.bytes@ == before + chunk@.take(i as int),
            out.exceeded == was_exceeded,
        decreases take - i,
    {
        out.bytes.push(chunk[i]);
        assert(before + chunk@.take(i as int + 1) =~= (before + chunk@.take(i as int)).push(chunk@[i as int]));
        i = i + 1;
    }
    if chunk.len() > remaining {
        out.exceeded = true;
    }
    proof {
        if chunk@.len() <= remaining {
            assert(chunk@.take(take as int) =~= chunk@);
        }
        assert forall|stream: Seq<u8>|
            (before, old(out).exceeded) == capped(stream, limit as nat) implies #[trigger] capped(
                stream + chunk@,
                limit as nat,
            ) == (out.bytes@, out.exceeded) by {
            let whole = stream + chunk@;
            if stream.len() <= limit {
                assert(before == stream);
                if whole.len() <= limit {
                    assert(out.bytes@ =~= whole);
                } else {
                    assert(out.bytes@ =~= whole.take(limit as int));
                }
            } else {
                assert(before == stream.take(limit as int));
                assert(out.bytes@ =~= whole.take(limit as int));
            }
        }
    }
}

// ---------------------------------------------------------------- artifact digest

/// The SHA-256 digest of a byte string, in lowercase hex, as `sha2` computes it.
pub uninterp spec fn sha256_hex_of(bytes: Seq<u8>) -> Seq<char>;

pub open spec fn is_lower_hex(c: char) -> bool {
    ('0' <= c && c <= '9') || ('a' <= c && c <= 'f')
}

/// `sha2::Sha256::digest` of the bytes, written with `{:x}`. Claimed: the text
/// is the digest of exactly these bytes (named, not restated), and, as the
/// 32-byte output and generic-array's `LowerHex` show, it has 64 lowercase hex
/// digits.
#[verifier::external_body]
pub(crate) fn sha256_hex(bytes: &[u8]) -> (r: String)
    ensures
        r@ == sha256_hex_of(bytes@),
        r@.len() == 64,
        forall|i: int| 0 <= i < 64 ==> is_lower_hex(#[trigger] r@[i]),
{
    format!("{:x}", Sha256::digest(bytes))
}

/// Why an artifact of `size` bytes with the given digest does not match its
/// descriptor; the size is checked first.
pub open spec fn artifact_refusal(size: int, digest: Seq<char>, descriptor: MlArtifactDescriptor) -> Option<Seq<char>> {
    if size != descriptor.byte_size {
        Some("ML worker 아티팩트 크기가 결과 계약과 다릅니다."@)
    } else if digest != descriptor.sha256@ {
        Some("ML worker 아티팩트 해시가 결과 계약과 다릅니다."@)
    } else {
        None
    }
}

/// Holds an artifact's size and digest against the descriptor the worker
/// reported.
pub fn check_artifact_digest(size: u64, digest: &str, descriptor: &MlArtifactDescriptor) -> (r: Result<(), String>)
    ensures
        match r {
            Ok(()) => artifact_refusal(size as int, digest@, *descriptor) is None,
            Err(e) => artifact_refusal(size as int, digest@, *descriptor) == Some(e@),
        },
{
    if size != descriptor.byte_size {
        Err("ML worker 아티팩트 크기가 결과 계약과 다릅니다.".to_owned())
    } else if !str_eq(digest, descriptor.sha256.as_str()) {
        Err("ML worker 아티팩트 해시가 결과 계약과 다릅니다.".to_owned())
    } else {
        Ok(())
    }
}

/// Checks the bytes of an artifact against its descriptor: the size, then the
/// SHA-256 digest. The bytes are hashed only when the size matches.
pub fn verify_artifact_bytes(bytes: &[u8], descriptor: &MlArtifactDescriptor) -> (r: Result<(), String>)
    ensures
        bytes@.len() != descriptor.byte_size ==> (r matches Err(e) && e@
            == "ML worker 아티팩트 크기가 결과 계약과 다릅니다."@),
        bytes@.len() == descriptor.byte_size ==> match r {
            Ok(()) => artifact_refusal(bytes@.len() as int, sha256_hex_of(bytes@), *descriptor) is None,
            Err(e) => artifact_refusal(bytes@.len() as int, sha256_hex_of(bytes@), *descriptor) == Some(e@),
        },
{
    let size = bytes.len() as u64;
    if size != descriptor.byte_size {
        return Err("ML worker 아티팩트 크기가 결과 계약과 다릅니다.".to_owned());
    }
    let digest = sha256_hex(bytes);
    check_artifact_digest(size, digest.as_str(), descriptor)
}

// ---------------------------------------------------------------- worker outcome

pub const STDOUT_LIMIT_BYTES: usize = 8_388_608;
pub const STDERR_LIMIT_BYTES: usize = 262_144;
pub const RESULT_LIMIT_BYTES: u64 = 16_777_216;

/// What a worker run showed, in the order it is looked at: whether the process
/// started, how it ended, how much it wrote, and the result file it left.
#[derive(Debug, Clone, Copy)]
pub struct WorkerOutcomeFacts {
    pub launched: bool,
    pub timed_out: bool,
    pub stdout_exceeded: bool,
    pub stderr_exceeded: bool,
    pub success: bool,
    pub result_found: bool,
    pub result_is_file: bool,
    pub result_bytes: u64,
    pub result_parsed: bool,
    /// The reported artifact, where there is one, matched its descriptor.
    pub artifact_ok: bool,
}

/// The failure code a worker run is recorded with, or `None` when its result
/// goes on to be checked: the first of launch, timeout, output limits, exit
/// status, a missing, oversized or unreadable result, and the artifact.
pub open spec fn worker_failure(o: WorkerOutcomeFacts) -> Option<Seq<char>> {
    if !o.launched {
        Some("worker_launch_failure"@)
    } else if o.timed_out {
        Some("worker_timeout"@)
    } else if o.stdout_exceeded {
        Some("worker_stdout_limit"@)
    } else if o.stderr_exceeded {
        Some("worker_stderr_limit"@)
    } else if !o.success {
        Some("worker_process_failure"@)
    } else if !o.result_found {
        Some("worker_missing_result"@)
    } else if !o.result_is_file || o.result_bytes > RESULT_LIMIT_BYTES {
        Some("worker_result_limit"@)
    } else if !o.result_parsed {
        Some("worker_invalid_result"@)
    } else if !o.artifact_ok {
        Some("worker_artifact_invalid"@)
    } else {
        None
    }
}

pub fn worker_failure_code(o: &WorkerOutcomeFacts) -> (r: Option<&'static str>)
    ensures
        match worker_failure(*o) {
            Some(c) => r matches Some(s) && s@ == c,
            None => r is None,
        },
{
    if !o.launched {
        Some("worker_launch_failure")
    } else if o.timed_out {
        Some("worker_timeout")
    } else if o.stdout_exceeded {
        Some("worker_stdout_limit")
    } else if o.stderr_exceeded {
        Some("worker_stderr_limit")
    } else if !o.success {
        Some("worker_process_failure")
    } else if !o.result_found {
        Some("worker_missing_result")
    } else if !o.result_is_file || o.result_bytes > RESULT_LIMIT_BYTES {
        Some("worker_result_limit")
    } else if !o.result_parsed {
        Some("worker_invalid_result")
    } else if !o.artifact_ok {
        Some("worker_artifact_invalid")
    } else {
        None
    }
}

/// The training jobs running now; a job can run once at a time.
#[derive(Debug)]
pub struct RunningJobs {
    ids: Vec<String>,
}

impl RunningJobs {
    pub closed spec fn running(&self) -> Set<Seq<char>> {
        Set::new(|id: Seq<char>| exists|k: int| 0 <= k < self.ids@.len() && (#[trigger] self.ids@[k])@ == id)
    }

    pub closed spec fn wf(&self) -> bool {
        forall|a: int, b: int| 0 <= a < b < self.ids@.len() ==> (#[trigger] self.ids@[a])@ != (#[trigger] self.ids@[b])@
    }

    pub fn new() -> (r: Self)
        ensures
            r.wf(),
            r.running() == Set::<Seq<char>>::empty(),
    {
        let r = RunningJobs { ids: Vec::new() };
        assert(r.running() =~= Set::<Seq<char>>::empty());
        r
    }

    fn position(&self, job_id: &str) -> (r: Option<usize>)
        ensures
            match r {
                Some(k) => k < self.ids@.len() && self.ids@[k as int]@ == job_id@,
                None => !self.running().contains(job_id@),
            },
    {
        let mut k: usize = 0;
        while k < self.ids.len()
            invariant
                k <= self.ids@.len(),
                forall|m: int| 0 <= m < k ==> (#[trigger] self.ids@[m])@ != job_id@,
            decreases self.ids.len() - k,
        {
            if str_eq(self.ids[k].as_str(), job_id) {
                return Some(k);
            }
            k = k + 1;
        }
        None
    }

    /// Marks a job as running; refused while it already runs.
    pub fn claim(&mut self, job_id: &str) -> (r: Result<(), String>)
        requires
            old(self).wf(),
        ensures
            final(self).wf(),
            r is Ok <==> !old(self).running().contains(job_id@),
            r is Ok ==> final(self).running() == old(self).running().insert(job_id@),
            r matches Err(e) ==> final(self).running() == old(self).running() && e@
                == "동일 ML 작업이 이미 실행 중입니다."@,
    {
        match self.position(job_id) {
            Some(k) => {
                assert(old(self).running().contains(job_id@)) by {
                    assert(self.ids@[k as int]@ == job_id@);
                }
                Err("동일 ML 작업이 이미 실행 중입니다.".to_owned())
            },
            None => {
                let ghost before = self.ids@;
                self.ids.push(job_id.to_owned());
                proof {
                    assert forall|a: int, b: int| 0 <= a < b < self.ids@.len() implies (#[trigger] self.ids@[a])@
                        != (#[trigger] self.ids@[b])@ by {
                        if b == before.len() {
                            assert(!old(self).running().contains(job_id@));
                            assert(self.ids@[a] == before[a]);
                        } else {
                            assert(self.ids@[a] == before[a] && self.ids@[b] == before[b]);
                        }
                    }
                    assert forall|id: Seq<char>| self.running().contains(id) <==> old(self).running().insert(
                        job_id@,
                    ).contains(id) by {
                        if self.running().contains(id) {
                            let k = choose|k: int| 0 <= k < self.ids@.len() && (#[trigger] self.ids@[k])@ == id;
                            if k < before.len() {
                                assert(before[k]@ == id);
                            }
                        }
                        if old(self).running().contains(id) {
                            let k = choose|k: int| 0 <= k < before.len() && (#[trigger] before[k])@ == id;
                            assert(self.ids@[k]@ == id);
                        }
                        if id == job_id@ {
                            assert(self.ids@[before.len() as int]@ == id);
                        }
                    }
                    assert(self.running() =~= old(self).running().insert(job_id@));
                }
                Ok(())
            },
        }
    }

    /// Marks a job as finished.
    pub fn release(&mut self, job_id: &str)
        requires
            old(self).wf(),
        ensures
            final(self).wf(),
            final(self).running() == old(self).running().remove(job_id@),
    {
        match self.position(job_id) {
            None => {
                assert(self.running() =~= old(self).running().remove(job_id@));
            },
            Some(k) => {
                let ghost before = self.ids@;
                self.ids.remove(k);
                proof {
                    assert forall|a: int, b: int| 0 <= a < b < self.ids@.len() implies (#[trigger] self.ids@[a])@
                        != (#[trigger] self.ids@[b])@ by {
                        let a0 = if a < k { a } else { a + 1 };
                        let b0 = if b < k { b } else { b + 1 };
                        assert(self.ids@[a] == before[a0] && self.ids@[b] == before[b0]);
                    }
                    assert forall|id: Seq<char>| self.running().contains(id) <==> old(self).running().remove(
                        job_id@,
                    ).contains(id) by {
                        if self.running().contains(id) {
                            let m = choose|m: int| 0 <= m < self.ids@.len() && (#[trigger] self.ids@[m])@ == id;
                            let m0 = if m < k { m } else { m + 1 };
                            assert(self.ids@[m] == before[m0]);
                            assert(m0 != k);
                        }
                        if old(self).running().contains(id) && id != job_id@ {
                            let m = choose|m: int| 0 <= m < before.len() && (#[trigger] before[m])@ == id;
                            assert(m != k);
                            if m < k {
                                assert(self.ids@[m] == before[m]);
                            } else {
                                assert(self.ids@[m - 1] == before[m]);
                            }
                        }
                    }
                    assert(self.running() =~= old(self).running().remove(job_id@));
                }
            },
        }
    }
}

/// A job claimed and not yet released cannot be claimed again; once released
/// it can.
pub proof fn lemma_claim_is_exclusive(jobs: RunningJobs, id: Seq<char>)
    requires
        jobs.wf(),
    ensures
        jobs.running().insert(id).contains(id),
        !jobs.running().insert(id).remove(id).contains(id),
{
}

} // verus!
