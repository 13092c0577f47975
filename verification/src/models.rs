//! Messages exchanged with the pool, and the job they carry.

use vstd::prelude::*;

verus! {

/// A solution on its way to the pool. `kind` is the message's `type` tag.
#[derive(Clone, Debug)]
pub struct SubmitMessage {
    pub kind: String,
    pub miner_id: String,
    pub nonce: String,
    pub job_id: String,
    pub path: String,
}

/// A message from the pool. `kind` is the message's `type` tag.
#[derive(Clone, Debug)]
pub struct ServerMessage {
    pub kind: String,
    pub job_id: Option<String>,
    pub data: Option<String>,
    pub target: Option<String>,
}

/// A unit of work: the hex text that every preimage starts with, and the
/// target that a final hash has to stay below.
#[derive(Clone, Debug)]
pub struct Job {
    pub job_id: String,
    pub data: String,
    pub target: String,
}

} // verus!
