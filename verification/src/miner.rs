//! The decisions of the worker loop and of the pool session: what a pool
//! message asks for, what one hash attempt yields, when a worker lets go of
//! its job, and how long to wait before connecting again.

use vstd::prelude::*;
use crate::hash256::{is_u256_text, parse_u256, u256_value};
use crate::hasher::{attempt_graph, attempt_result, compute_hash_no_vdf};
use crate::hexfmt::{is_hex_string, lemma_hex_concat};
use crate::models::{Job, ServerMessage, SubmitMessage};
use crate::utils::{is_hex_text, meets_target, random_in_range};
use crate::cycle::has_no_cycle;
use crate::vdf_solution::HCGraphUtil;

verus! {

/// What the session does with a message from the pool.
#[derive(Clone, Debug)]
pub enum PoolAction {
    /// Put the job into the current-job slot, over whatever is there.
    Publish(Job),
    /// Count one accepted share.
    CountAccepted,
    /// Count one rejected share.
    CountRejected,
    /// Drop the message.
    Ignore,
}

/// What happens to the pool session.
#[derive(Clone, Debug)]
pub enum SessionEvent {
    /// The connect failed.
    ConnectFailed,
    /// The session ended: a read failed or the pool closed it.
    Closed,
    /// A message came in.
    Message(ServerMessage),
}

/// What the session does next.
#[derive(Clone, Debug)]
pub enum SessionAction {
    /// Wait so many seconds, then connect again.
    RetryAfter(u64),
    /// Empty the current-job slot, wait so many seconds, then connect again.
    ClearAndRetryAfter(u64),
    /// Act on the message and read on.
    Handle(PoolAction),
}

/// What a worker does with its snapshot of the current-job slot.
#[derive(Clone, Debug)]
pub enum WorkerAction {
    /// No job: wait a moment and look again, without a hash attempt.
    Idle,
    /// A job that cannot be mined: its data or its target is no hex text.
    Skip(Job),
    /// Mine this job until it is solved or replaced.
    Mine(Job),
}

/// What one hash attempt yields.
#[derive(Clone, Debug)]
pub enum AttemptOutcome {
    /// The search found no cycle; draw another nonce.
    Unsolved,
    /// A final hash that does not meet the target.
    Miss,
    /// A final hash below the target, with the message that submits it.
    Share(SubmitMessage),
}

/// Number of workers to run: the request where it is below the number of
/// cores, the number of cores otherwise.
pub open spec fn spec_worker_count(requested: Option<usize>, max_workers: usize) -> usize {
    match requested {
        Some(t) => if t >= max_workers {
            max_workers
        } else {
            t
        },
        None => max_workers,
    }
}

/// Number of workers to run for the requested number and the number of cores.
pub fn select_worker_count(requested: Option<usize>, max_workers: usize) -> (count: usize)
    ensures
        count == spec_worker_count(requested, max_workers),
        count <= max_workers,
{
    match requested {
        Some(t) => {
            if t >= max_workers {
                max_workers
            } else {
                t
            }
        },
        None => max_workers,
    }
}

/// The message is a job with its three fields.
pub open spec fn is_job_message(msg: ServerMessage) -> bool {
    msg.kind@ == "job"@ && msg.job_id is Some && msg.data is Some && msg.target is Some
}

/// What the session does with `msg`: a `job` with an id, data and a target is
/// published, `accepted` and `rejected` are counted, anything else is
/// dropped.
pub fn handle_server_message(msg: &ServerMessage) -> (action: PoolAction)
    ensures
        is_job_message(*msg) ==> (match action {
            PoolAction::Publish(job) => job.job_id@ == msg.job_id->0@ && job.data@ == msg.data->0@
                && job.target@ == msg.target->0@,
            _ => false,
        }),
        msg.kind@ == "accepted"@ <==> action is CountAccepted,
        msg.kind@ == "rejected"@ <==> action is CountRejected,
        action is Publish ==> is_job_message(*msg),
{
    proof {
        reveal_strlit("job");
        reveal_strlit("accepted");
        reveal_strlit("rejected");
        assert("job"@.len() == 3 && "accepted"@.len() == 8 && "rejected"@.len() == 8);
        assert("accepted"@[0] == 'a' && "rejected"@[0] == 'r');
    }
    let kind: &str = msg.kind.as_str();
    if text_equal(kind, "job") {
        match (&msg.job_id, &msg.data, &msg.target) {
            (Some(job_id), Some(data), Some(target)) => PoolAction::Publish(
                Job { job_id: job_id.clone(), data: data.clone(), target: target.clone() },
            ),
            _ => PoolAction::Ignore,
        }
    } else if text_equal(kind, "accepted") {
        PoolAction::CountAccepted
    } else if text_equal(kind, "rejected") {
        PoolAction::CountRejected
    } else {
        PoolAction::Ignore
    }
}

/// Whether the two texts are the same.
pub fn text_equal(a: &str, b: &str) -> (same: bool)
    ensures
        same == (a@ == b@),
{
    let left: String = String::from_str(a);
    let right: String = String::from_str(b);
    left == right
}

/// Whether a worker can mine `job`: its data is hex text for whole bytes and
/// its target is text for a 256-bit integer.
pub open spec fn job_is_minable(job: Job) -> bool {
    is_hex_string(job.data@) && is_u256_text(job.target@)
}

/// Whether a worker can mine `job`.
pub fn check_job(job: &Job) -> (ok: bool)
    ensures
        ok == job_is_minable(*job),
{
    is_hex_text(job.data.as_str()) && parse_u256(job.target.as_str()).is_some()
}

/// Whether a worker lets go of the job it mines: the slot is empty, or holds
/// a job with another id.
pub fn should_abandon(current: &Option<Job>, mining: &Job) -> (abandon: bool)
    ensures
        abandon == (match *current {
            Some(job) => job.job_id@ != mining.job_id@,
            None => true,
        }),
{
    match current {
        Some(job) => !text_equal(job.job_id.as_str(), mining.job_id.as_str()),
        None => true,
    }
}

/// The message that submits a solution of `job`.
pub fn make_submit(miner_id: &str, nonce: &str, job: &Job, path_hex: String) -> (msg:
    SubmitMessage)
    ensures
        msg.kind@ == "submit"@,
        msg.miner_id@ == miner_id@,
        msg.nonce@ == nonce@,
        msg.job_id@ == job.job_id@,
        msg.path@ == path_hex@,
{
    SubmitMessage {
        kind: String::from_str("submit"),
        miner_id: String::from_str(miner_id),
        nonce: String::from_str(nonce),
        job_id: job.job_id.clone(),
        path: path_hex,
    }
}

/// What becomes of a final hash and its path: a share where the hash is
/// below the job's target, a miss where it is not.
pub fn judge_hash(miner_id: &str, nonce: &str, job: &Job, hash: &str, path_hex: String) -> (outcome:
    AttemptOutcome)
    requires
        is_u256_text(hash@),
        is_u256_text(job.target@),
    ensures
        u256_value(hash@) < u256_value(job.target@) <==> outcome is Share,
        !(u256_value(hash@) < u256_value(job.target@)) <==> outcome is Miss,
        outcome matches AttemptOutcome::Share(msg) ==> {
            &&& msg.kind@ == "submit"@
            &&& msg.miner_id@ == miner_id@
            &&& msg.nonce@ == nonce@
            &&& msg.job_id@ == job.job_id@
            &&& msg.path@ == path_hex@
        },
{
    if meets_target(hash, job.target.as_str()) {
        AttemptOutcome::Share(make_submit(miner_id, nonce, job, path_hex))
    } else {
        AttemptOutcome::Miss
    }
}

/// One hash attempt of a worker on `job` with `nonce`: the preimage starts
/// with the job's data followed by the nonce. Yields a share where the search
/// found its cycle and the final hash is below the target, a miss where the
/// hash is not, and `Unsolved` only where the search ran out of time or the
/// graph has no Hamiltonian cycle.
pub fn mine_attempt(job: &Job, miner_id: &str, nonce: &str, hc_util: &mut HCGraphUtil) -> (outcome:
    AttemptOutcome)
    requires
        job_is_minable(*job),
        is_hex_string(nonce@),
    ensures
        final(hc_util).spec_bailout() == old(hc_util).spec_bailout(),
        outcome is Unsolved ==> final(hc_util).spec_expired() || has_no_cycle(
            attempt_graph(job.data@ + nonce@),
        ),
        outcome is Miss ==> exists|hash: Seq<char>, path_hex: Seq<char>|
            {
                &&& #[trigger] attempt_result(job.data@ + nonce@, hash, path_hex)
                &&& !(u256_value(hash) < u256_value(job.target@))
            },
        outcome matches AttemptOutcome::Share(msg) ==> {
            &&& msg.kind@ == "submit"@
            &&& msg.miner_id@ == miner_id@
            &&& msg.nonce@ == nonce@
            &&& msg.job_id@ == job.job_id@
            &&& exists|hash: Seq<char>|
                {
                    &&& #[trigger] attempt_result(job.data@ + nonce@, hash, msg.path@)
                    &&& u256_value(hash) < u256_value(job.target@)
                }
        },
{
    let mut input: String = String::from_str(job.data.as_str());
    input.append(nonce);
    proof {
        lemma_hex_concat(job.data@, nonce@);
    }
    match compute_hash_no_vdf(input.as_str(), hc_util) {
        Some((hash, path_hex)) => {
            proof {
                crate::hash256::lemma_hex_text_is_u256_text(hash@);
            }
            judge_hash(miner_id, nonce, job, hash.as_str(), path_hex)
        },
        None => AttemptOutcome::Unsolved,
    }
}

/// What the session does on `event`. After a failed connect it waits 5 to 29
/// seconds; after a session has ended it empties the slot, so that no worker
/// mines a stale job, and waits 11 to 41 seconds; a message it handles as
/// `handle_server_message` says.
pub fn session_step(event: &SessionEvent) -> (action: SessionAction)
    ensures
        match *event {
            SessionEvent::ConnectFailed => action matches SessionAction::RetryAfter(secs) && 5
                <= secs < 30,
            SessionEvent::Closed => action matches SessionAction::ClearAndRetryAfter(secs) && 11
                <= secs < 42,
            SessionEvent::Message(msg) => action matches SessionAction::Handle(act) && {
                &&& is_job_message(msg) <==> act is Publish
                &&& act matches PoolAction::Publish(job) ==> job.job_id@ == msg.job_id->0@
                    && job.data@ == msg.data->0@ && job.target@ == msg.target->0@
                &&& msg.kind@ == "accepted"@ <==> act is CountAccepted
                &&& msg.kind@ == "rejected"@ <==> act is CountRejected
            },
        },
{
    match event {
        SessionEvent::ConnectFailed => SessionAction::RetryAfter(connect_retry_delay()),
        SessionEvent::Closed => SessionAction::ClearAndRetryAfter(reconnect_delay()),
        SessionEvent::Message(msg) => SessionAction::Handle(handle_server_message(msg)),
    }
}

/// Seconds to wait after a failed connect: drawn at random from 5 up to, and
/// without, 30.
pub fn connect_retry_delay() -> (secs: u64)
    ensures
        5 <= secs < 30,
{
    random_in_range(5, 30)
}

/// Seconds to wait after a session has ended: drawn at random from 11 up to,
/// and without, 42.
pub fn reconnect_delay() -> (secs: u64)
    ensures
        11 <= secs < 42,
{
    random_in_range(11, 42)
}

/// What a worker does with its snapshot of the slot: it idles on an empty
/// slot, mines a job that can be mined, and passes over any other.
pub fn plan_worker(snapshot: Option<Job>) -> (action: WorkerAction)
    ensures
        action == (match snapshot {
            None => WorkerAction::Idle,
            Some(job) => if job_is_minable(job) {
                WorkerAction::Mine(job)
            } else {
                WorkerAction::Skip(job)
            },
        }),
{
    match snapshot {
        None => WorkerAction::Idle,
        Some(job) => {
            if check_job(&job) {
                WorkerAction::Mine(job)
            } else {
                WorkerAction::Skip(job)
            }
        },
    }
}

/// The current-job slot: it holds the latest job or none. A new job takes
/// the place of the one before; readers get copies.
pub struct CurrentJob {
    slot: Option<Job>,
}

impl CurrentJob {
    /// What the slot holds.
    pub closed spec fn held(&self) -> Option<Job> {
        self.slot
    }

    /// An empty slot.
    pub fn new() -> (slot: Self)
        ensures
            slot.held() is None,
    {
        CurrentJob { slot: None }
    }

    /// Puts `job` into the slot, over whatever is there.
    pub fn publish(&mut self, job: Job)
        ensures
            final(self).held() == Some(job),
    {
        self.slot = Some(job);
    }

    /// Empties the slot.
    pub fn clear(&mut self)
        ensures
            final(self).held() is None,
    {
        self.slot = None;
    }

    /// A copy of what the slot holds.
    pub fn snapshot(&self) -> (copy: Option<Job>)
        ensures
            copy == self.held(),
    {
        match &self.slot {
            Some(job) => Some(
                Job {
                    job_id: job.job_id.clone(),
                    data: job.data.clone(),
                    target: job.target.clone(),
                },
            ),
            None => None,
        }
    }

    /// Empties the slot where it still holds the job with the id `job_id`,
    /// and leaves a job that has taken its place where it is. Says whether
    /// it emptied the slot.
    pub fn clear_if_current(&mut self, job_id: &str) -> (cleared: bool)
        ensures
            cleared == (old(self).held() is Some && old(self).held()->0.job_id@ == job_id@),
            cleared ==> final(self).held() is None,
            !cleared ==> final(self).held() == old(self).held(),
    {
        let same: bool = match &self.slot {
            Some(job) => text_equal(job.job_id.as_str(), job_id),
            None => false,
        };
        if same {
            self.slot = None;
        }
        same
    }
}

} // verus!
