use vstd::prelude::*;

use crate::text::{dec_digits, u64_to_dec_string};

verus! {

/// What is known of a previous attempt at the target path: the on-disk byte
/// count and, where one was recorded, the etag the bytes were downloaded
/// under.
pub struct LocalPartial {
    pub size: usize,
    pub etag: Option<String>,
}

/// How a transfer starts: from byte zero, from a prior partial file's byte
/// count, or not at all because the file is already complete.
#[derive(PartialEq, Eq, Structural, Clone, Copy, Debug)]
pub enum TransferPlan {
    /// Truncate and download from byte zero.
    Fresh,
    /// Append, asking the server for bytes from `offset` on.
    Resume { offset: usize },
    /// The file on disk already holds every byte; no request is needed.
    AlreadyComplete,
}

/// A recorded etag witnesses that the partial bytes still match the remote
/// content; an absent record cannot witness staleness.
pub open spec fn etag_matches(remote: Seq<char>, recorded: Option<String>) -> bool {
    match recorded {
        Some(e) => e@ == remote,
        None => true,
    }
}

/// The plan the engine must follow for a remote file of `file_size` bytes
/// under `remote_etag`, given what is on disk.
pub open spec fn spec_plan(file_size: usize, remote_etag: Seq<char>, local: Option<
    LocalPartial,
>) -> TransferPlan {
    match local {
        None => TransferPlan::Fresh,
        Some(l) => if !etag_matches(remote_etag, l.etag) {
            TransferPlan::Fresh
        } else if l.size > file_size {
            TransferPlan::Fresh
        } else if l.size == file_size {
            TransferPlan::AlreadyComplete
        } else {
            TransferPlan::Resume { offset: l.size }
        },
    }
}

/// Decides how to start a transfer. An absent target starts fresh; a stale or
/// oversized partial file is discarded and starts fresh; a partial file whose
/// recorded etag still matches resumes at its byte count; a full match short-
/// circuits without any request.
pub fn plan_transfer(file_size: usize, remote_etag: &String, local: &Option<LocalPartial>) -> (r:
    TransferPlan)
    ensures
        r == spec_plan(file_size, remote_etag@, *local),
{
    match local {
        None => TransferPlan::Fresh,
        Some(l) => {
            let stale = match &l.etag {
                Some(e) => !e.eq(remote_etag),
                None => false,
            };
            if stale {
                TransferPlan::Fresh
            } else if l.size > file_size {
                TransferPlan::Fresh
            } else if l.size == file_size {
                TransferPlan::AlreadyComplete
            } else {
                TransferPlan::Resume { offset: l.size }
            }
        },
    }
}

/// A transfer in flight: the declared total and the bytes already on disk,
/// the resumed offset included.
#[derive(PartialEq, Eq, Structural, Clone, Copy, Debug)]
pub struct TransferProgress {
    pub file_size: usize,
    pub written: usize,
}

impl TransferProgress {
    /// The bytes on disk never exceed the declared total.
    pub open spec fn wf(self) -> bool {
        self.written <= self.file_size
    }
}

/// Where one streaming step leaves the transfer.
#[derive(PartialEq, Eq, Structural, Clone, Copy, Debug)]
pub enum StepOutcome {
    /// Keep streaming: the chunk was written and the file is still short.
    Continue { progress: TransferProgress },
    /// Every byte is on disk; the caller persists the etag record.
    Completed,
    /// The cancellation signal was observed: stop writing, keep the partial
    /// file, report the cooperative outcome.
    Cancelled,
    /// The stream does not add up to the declared size: ended early, or
    /// delivered more bytes than declared. The file must not count as
    /// complete.
    SizeMismatch,
}

/// One step of the streaming state machine. Completion is checked first: once
/// the final byte is flushed, cancellation can no longer occur. Then the
/// cancellation signal, polled each step, takes effect. Otherwise the next
/// chunk (`None` when the stream has ended) advances the byte count.
pub open spec fn spec_step(p: TransferProgress, cancelled: bool, chunk: Option<usize>) -> StepOutcome {
    if p.written == p.file_size {
        StepOutcome::Completed
    } else if cancelled {
        StepOutcome::Cancelled
    } else {
        match chunk {
            None => StepOutcome::SizeMismatch,
            Some(len) => if len > p.file_size - p.written {
                StepOutcome::SizeMismatch
            } else if p.written + len == p.file_size {
                StepOutcome::Completed
            } else {
                StepOutcome::Continue {
                    progress: TransferProgress {
                        file_size: p.file_size,
                        written: (p.written + len) as usize,
                    },
                }
            },
        }
    }
}

/// Advances a transfer by one observation: the cancellation signal as polled
/// this step, and the next chunk's length, `None` once the stream has ended.
pub fn transfer_step(p: TransferProgress, cancelled: bool, chunk: Option<usize>) -> (r: StepOutcome)
    requires
        p.wf(),
    ensures
        r == spec_step(p, cancelled, chunk),
        r matches StepOutcome::Continue { progress } ==> progress.wf() && progress.written
            < progress.file_size && progress.file_size == p.file_size,
{
    if p.written == p.file_size {
        StepOutcome::Completed
    } else if cancelled {
        StepOutcome::Cancelled
    } else {
        match chunk {
            None => StepOutcome::SizeMismatch,
            Some(len) => {
                if len > p.file_size - p.written {
                    StepOutcome::SizeMismatch
                } else if p.written + len == p.file_size {
                    StepOutcome::Completed
                } else {
                    StepOutcome::Continue {
                        progress: TransferProgress {
                            file_size: p.file_size,
                            written: p.written + len,
                        },
                    }
                }
            },
        }
    }
}

/// The progress a plan starts from: byte zero for a fresh start, the prior
/// byte count for a resume.
pub open spec fn spec_start(file_size: usize, plan: TransferPlan) -> TransferProgress {
    match plan {
        TransferPlan::Fresh => TransferProgress { file_size, written: 0 },
        TransferPlan::Resume { offset } => TransferProgress { file_size, written: offset },
        TransferPlan::AlreadyComplete => TransferProgress { file_size, written: file_size },
    }
}

/// Builds the progress a plan starts from.
pub fn start_progress(file_size: usize, plan: TransferPlan) -> (r: TransferProgress)
    requires
        plan matches TransferPlan::Resume { offset } ==> offset <= file_size,
    ensures
        r == spec_start(file_size, plan),
        r.wf(),
{
    match plan {
        TransferPlan::Fresh => TransferProgress { file_size, written: 0 },
        TransferPlan::Resume { offset } => TransferProgress { file_size, written: offset },
        TransferPlan::AlreadyComplete => TransferProgress { file_size, written: file_size },
    }
}

/// The `Range` header value asking for bytes from `offset` on.
pub open spec fn spec_range_value(offset: int) -> Seq<char> {
    "bytes="@ + dec_digits(offset) + "-"@
}

/// Writes the `Range` header value for a resumed request: `bytes=<offset>-`.
pub fn range_header_value(offset: u64) -> (r: String)
    ensures
        r@ == spec_range_value(offset as int),
{
    let mut r = String::from_str("bytes=");
    let digits = u64_to_dec_string(offset);
    r.append(digits.as_str());
    r.append("-");
    r
}

/// Resume correctness: a partial file of `k` bytes, `k` short of `fileSize`,
/// whose recorded etag still matches resumes exactly at byte `k`, while a
/// mismatched record discards the partial file and starts from byte zero.
pub proof fn lemma_resume_correctness(file_size: usize, remote: Seq<char>, l: LocalPartial)
    ensures
        l.size < file_size && etag_matches(remote, l.etag) ==> spec_plan(file_size, remote, Some(l))
            == (TransferPlan::Resume { offset: l.size }),
        !etag_matches(remote, l.etag) ==> spec_plan(file_size, remote, Some(l))
            == TransferPlan::Fresh,
{
}

/// Cancellation: while the transfer is still short of `fileSize`, a triggered
/// signal yields the cooperative `Cancelled` outcome — never an error — and
/// the bytes left on disk stay strictly below `fileSize`.
pub proof fn lemma_cancellation(p: TransferProgress, chunk: Option<usize>)
    requires
        p.wf(),
        p.written < p.file_size,
    ensures
        spec_step(p, true, chunk) == StepOutcome::Cancelled,
{
}

/// Completion size: the engine reports `Completed` only when the bytes on
/// disk come to exactly `fileSize`; a stream that ends anywhere else is a
/// `SizeMismatch`, never a completion.
pub proof fn lemma_completion_exact(p: TransferProgress, cancelled: bool, chunk: Option<usize>)
    requires
        p.wf(),
    ensures
        spec_step(p, cancelled, chunk) == StepOutcome::Completed ==> (p.written == p.file_size || (
        chunk matches Some(len) && p.written + len == p.file_size)),
        spec_step(p, cancelled, chunk) matches StepOutcome::Continue { progress } ==> progress.wf(),
{
}

} // verus!
