//! Coordination of off-chain private execution jobs: a requester opens a job,
//! a trusted executor settles it exactly once, and a callback dispatch is
//! produced for the requester's contract.

pub mod digits;
pub mod gateway;
pub mod hex;
pub mod job_id;
pub mod receiver;
pub mod policy;
