//! The gateway: single authority over job creation, settlement and callback
//! dispatch.
//!
//! The state is modelled by [`GatewayModel`]: a job table, an append-only
//! pending index, and a receipt table. The existence of a receipt for a job
//! id is the sole source of truth for "already settled" and is checked before
//! any other validation.

use vstd::prelude::*;
use vstd::string::StringExecFns;
use vstd::utf8::encode_utf8;
use crate::job_id::{derive_job_id, job_id_chars};

verus! {

/// A private execution job. Immutable once created, except the `settled`
/// flag, which is flipped exactly once by a successful settlement.
pub struct Job {
    pub job_id: String,
    pub requester: String,
    pub program_id: String,
    pub policy_id: String,
    pub input_commitment: String,
    pub public_inputs: String,
    pub callback_contract: String,
    pub callback_method: String,
    pub created_at_ms: u64,
    pub settled: bool,
}

/// The record of a settlement, created exactly once per job.
pub struct Receipt {
    pub job_id: String,
    pub executor: String,
    pub result_commitment: String,
    pub public_output: String,
    pub settled_at_ms: u64,
}

/// The reasons a settlement is refused, in the order the gates are checked.
#[derive(Clone, Copy, Debug, PartialEq, Eq, Structural)]
pub enum SubmitError {
    AlreadySettled,
    UnknownJob,
    JobAlreadyMarkedSettled,
    UnauthorizedExecutor,
    MissingProof,
}

/// The one callback invocation a successful settlement asks for: a
/// fire-and-forget call of `method` on `contract` with the four payload
/// fields. The caller performs it; the gateway's state is already committed.
pub struct CallbackDispatch {
    pub contract: String,
    pub method: String,
    pub job_id: String,
    pub public_output: String,
    pub result_commitment: String,
    pub receipt_ref: String,
}

/// The gateway's owned state.
pub struct ShadeGateway {
    pub verifier_id: String,
    pub trusted_executor: String,
    pub jobs: Vec<Job>,
    pub pending_job_ids: Vec<String>,
    pub receipts: Vec<Receipt>,
}

/// The mathematical value of a [`Job`].
#[verifier::ext_equal]
pub struct JobModel {
    pub job_id: Seq<char>,
    pub requester: Seq<char>,
    pub program_id: Seq<char>,
    pub policy_id: Seq<char>,
    pub input_commitment: Seq<char>,
    pub public_inputs: Seq<char>,
    pub callback_contract: Seq<char>,
    pub callback_method: Seq<char>,
    pub created_at_ms: u64,
    pub settled: bool,
}

/// The mathematical value of a [`Receipt`].
#[verifier::ext_equal]
pub struct ReceiptModel {
    pub job_id: Seq<char>,
    pub executor: Seq<char>,
    pub result_commitment: Seq<char>,
    pub public_output: Seq<char>,
    pub settled_at_ms: u64,
}

/// The mathematical value of a [`CallbackDispatch`].
#[verifier::ext_equal]
pub struct DispatchModel {
    pub contract: Seq<char>,
    pub method: Seq<char>,
    pub job_id: Seq<char>,
    pub public_output: Seq<char>,
    pub result_commitment: Seq<char>,
    pub receipt_ref: Seq<char>,
}

/// The mathematical value of a [`ShadeGateway`].
#[verifier::ext_equal]
pub struct GatewayModel {
    pub verifier_id: Seq<char>,
    pub trusted_executor: Seq<char>,
    pub jobs: Seq<JobModel>,
    pub pending: Seq<Seq<char>>,
    pub receipts: Seq<ReceiptModel>,
}

impl View for Job {
    type V = JobModel;

    open spec fn view(&self) -> JobModel {
        JobModel {
            job_id: self.job_id@,
            requester: self.requester@,
            program_id: self.program_id@,
            policy_id: self.policy_id@,
            input_commitment: self.input_commitment@,
            public_inputs: self.public_inputs@,
            callback_contract: self.callback_contract@,
            callback_method: self.callback_method@,
            created_at_ms: self.created_at_ms,
            settled: self.settled,
        }
    }
}

impl View for Receipt {
    type V = ReceiptModel;

    open spec fn view(&self) -> ReceiptModel {
        ReceiptModel {
            job_id: self.job_id@,
            executor: self.executor@,
            result_commitment: self.result_commitment@,
            public_output: self.public_output@,
            settled_at_ms: self.settled_at_ms,
        }
    }
}

impl View for CallbackDispatch {
    type V = DispatchModel;

    open spec fn view(&self) -> DispatchModel {
        DispatchModel {
            contract: self.contract@,
            method: self.method@,
            job_id: self.job_id@,
            public_output: self.public_output@,
            result_commitment: self.result_commitment@,
            receipt_ref: self.receipt_ref@,
        }
    }
}

/// The models of a job table, element by element.
pub open spec fn jobs_view(jobs: Seq<Job>) -> Seq<JobModel> {
    jobs.map_values(|j: Job| j@)
}

/// The models of a receipt table, element by element.
pub open spec fn receipts_view(receipts: Seq<Receipt>) -> Seq<ReceiptModel> {
    receipts.map_values(|r: Receipt| r@)
}

/// The character sequences of a table of id strings, element by element.
pub open spec fn ids_view(ids: Seq<String>) -> Seq<Seq<char>> {
    ids.map_values(|s: String| s@)
}

impl View for ShadeGateway {
    type V = GatewayModel;

    open spec fn view(&self) -> GatewayModel {
        GatewayModel {
            verifier_id: self.verifier_id@,
            trusted_executor: self.trusted_executor@,
            jobs: jobs_view(self.jobs@),
            pending: ids_view(self.pending_job_ids@),
            receipts: receipts_view(self.receipts@),
        }
    }
}

impl Clone for Job {
    fn clone(&self) -> (r: Self)
        ensures
            r == *self,
    {
        Job {
            job_id: self.job_id.clone(),
            requester: self.requester.clone(),
            program_id: self.program_id.clone(),
            policy_id: self.policy_id.clone(),
            input_commitment: self.input_commitment.clone(),
            public_inputs: self.public_inputs.clone(),
            callback_contract: self.callback_contract.clone(),
            callback_method: self.callback_method.clone(),
            created_at_ms: self.created_at_ms,
            settled: self.settled,
        }
    }
}

impl Clone for Receipt {
    fn clone(&self) -> (r: Self)
        ensures
            r == *self,
    {
        Receipt {
            job_id: self.job_id.clone(),
            executor: self.executor.clone(),
            result_commitment: self.result_commitment.clone(),
            public_output: self.public_output.clone(),
            settled_at_ms: self.settled_at_ms,
        }
    }
}

/// The first job stored under `id`, scanning the table from the front.
pub open spec fn find_job(jobs: Seq<JobModel>, id: Seq<char>) -> Option<JobModel>
    decreases jobs.len(),
{
    if jobs.len() == 0 {
        None
    } else if jobs[0].job_id == id {
        Some(jobs[0])
    } else {
        find_job(jobs.drop_first(), id)
    }
}

/// The first receipt stored under `id`, scanning the table from the front.
pub open spec fn find_receipt(receipts: Seq<ReceiptModel>, id: Seq<char>) -> Option<ReceiptModel>
    decreases receipts.len(),
{
    if receipts.len() == 0 {
        None
    } else if receipts[0].job_id == id {
        Some(receipts[0])
    } else {
        find_receipt(receipts.drop_first(), id)
    }
}

/// Stores `j` in the job table: replaces the first job with the same id, or
/// appends `j` when the id is new.
pub open spec fn upsert_job(jobs: Seq<JobModel>, j: JobModel) -> Seq<JobModel>
    decreases jobs.len(),
{
    if jobs.len() == 0 {
        seq![j]
    } else if jobs[0].job_id == j.job_id {
        seq![j] + jobs.drop_first()
    } else {
        seq![jobs[0]] + upsert_job(jobs.drop_first(), j)
    }
}

/// Flips the `settled` flag of the first job stored under `id`.
pub open spec fn mark_settled(jobs: Seq<JobModel>, id: Seq<char>) -> Seq<JobModel>
    decreases jobs.len(),
{
    if jobs.len() == 0 {
        jobs
    } else if jobs[0].job_id == id {
        seq![JobModel { settled: true, ..jobs[0] }] + jobs.drop_first()
    } else {
        seq![jobs[0]] + mark_settled(jobs.drop_first(), id)
    }
}

/// Well-formedness of the gateway state: job ids and receipt ids are unique
/// in their tables, and every entry of the pending index refers to a stored
/// job.
pub open spec fn gateway_wf(m: GatewayModel) -> bool {
    &&& forall|i: int, k: int|
        0 <= i < k < m.jobs.len() ==> #[trigger] m.jobs[i].job_id != #[trigger] m.jobs[k].job_id
    &&& forall|i: int, k: int|
        0 <= i < k < m.receipts.len() ==> #[trigger] m.receipts[i].job_id
            != #[trigger] m.receipts[k].job_id
    &&& forall|i: int| 0 <= i < m.pending.len() ==> find_job(m.jobs, #[trigger] m.pending[i]) is Some
}

/// The id `request_job` derives in state `m` for a requester at a time: the
/// sequence nonce is the length of the pending index.
pub open spec fn new_job_id(m: GatewayModel, requester: Seq<char>, created_at_ms: u64) -> Seq<
    char,
> {
    job_id_chars(encode_utf8(requester), created_at_ms, m.pending.len() as u64)
}

/// The job `request_job` stores in state `m`.
pub open spec fn requested_job(
    m: GatewayModel,
    requester: Seq<char>,
    created_at_ms: u64,
    program_id: Seq<char>,
    policy_id: Seq<char>,
    public_inputs: Seq<char>,
    input_commitment: Seq<char>,
    callback_contract: Seq<char>,
    callback_method: Seq<char>,
) -> JobModel {
    JobModel {
        job_id: new_job_id(m, requester, created_at_ms),
        requester,
        program_id,
        policy_id,
        input_commitment,
        public_inputs,
        callback_contract,
        callback_method,
        created_at_ms,
        settled: false,
    }
}

/// The state after `request_job`: the job stored, its id appended to the
/// pending index, everything else unchanged.
pub open spec fn request_step(
    m: GatewayModel,
    requester: Seq<char>,
    created_at_ms: u64,
    program_id: Seq<char>,
    policy_id: Seq<char>,
    public_inputs: Seq<char>,
    input_commitment: Seq<char>,
    callback_contract: Seq<char>,
    callback_method: Seq<char>,
) -> GatewayModel {
    let job = requested_job(
        m,
        requester,
        created_at_ms,
        program_id,
        policy_id,
        public_inputs,
        input_commitment,
        callback_contract,
        callback_method,
    );
    GatewayModel {
        jobs: upsert_job(m.jobs, job),
        pending: m.pending.push(job.job_id),
        ..m
    }
}

/// The decision `submit_result` takes in state `m`, gate by gate: replay
/// guard, existence guard, double-settle guard, authorization, proof
/// presence. `None` means the settlement is accepted.
pub open spec fn submit_decision(
    m: GatewayModel,
    executor: Seq<char>,
    job_id: Seq<char>,
    proof_data: Seq<char>,
) -> Option<SubmitError> {
    if find_receipt(m.receipts, job_id) is Some {
        Some(SubmitError::AlreadySettled)
    } else {
        match find_job(m.jobs, job_id) {
            None => Some(SubmitError::UnknownJob),
            Some(job) => if job.settled {
                Some(SubmitError::JobAlreadyMarkedSettled)
            } else if executor != m.trusted_executor {
                Some(SubmitError::UnauthorizedExecutor)
            } else if proof_data.len() == 0 {
                Some(SubmitError::MissingProof)
            } else {
                None
            },
        }
    }
}

/// The state after an accepted settlement: the job marked settled, a receipt
/// appended, everything else unchanged.
pub open spec fn submit_step(
    m: GatewayModel,
    executor: Seq<char>,
    settled_at_ms: u64,
    job_id: Seq<char>,
    result_commitment: Seq<char>,
    public_output: Seq<char>,
) -> GatewayModel {
    GatewayModel {
        jobs: mark_settled(m.jobs, job_id),
        receipts: m.receipts.push(
            ReceiptModel {
                job_id,
                executor,
                result_commitment,
                public_output,
                settled_at_ms,
            },
        ),
        ..m
    }
}

/// The opaque pointer handed to the callback: `receipt:` followed by the
/// job id.
pub open spec fn receipt_ref_of(job_id: Seq<char>) -> Seq<char> {
    "receipt:"@ + job_id
}

/// The callback invocation an accepted settlement asks for, built from the
/// settled job's callback target.
pub open spec fn dispatch_of(
    job: JobModel,
    job_id: Seq<char>,
    result_commitment: Seq<char>,
    public_output: Seq<char>,
) -> DispatchModel {
    DispatchModel {
        contract: job.callback_contract,
        method: job.callback_method,
        job_id,
        public_output,
        result_commitment,
        receipt_ref: receipt_ref_of(job_id),
    }
}

/// A job id is listed by the pending scan exactly when a job is stored under
/// it, that job is unsettled, and no receipt exists for it.
pub open spec fn is_live(m: GatewayModel, id: Seq<char>) -> bool {
    match find_job(m.jobs, id) {
        Some(j) => !j.settled && find_receipt(m.receipts, id) is None,
        None => false,
    }
}

/// The jobs a pending scan over the index entries `ids` returns: the stored
/// job of each live id, in index order, at most `limit` of them.
pub open spec fn scan_pending(m: GatewayModel, ids: Seq<Seq<char>>, limit: nat) -> Seq<JobModel>
    decreases ids.len(),
{
    if ids.len() == 0 || limit == 0 {
        Seq::empty()
    } else if is_live(m, ids[0]) {
        seq![find_job(m.jobs, ids[0]).unwrap()] + scan_pending(
            m,
            ids.drop_first(),
            (limit - 1) as nat,
        )
    } else {
        scan_pending(m, ids.drop_first(), limit)
    }
}

/// A found job carries the id it was looked up under.
pub proof fn lemma_find_job_id(jobs: Seq<JobModel>, id: Seq<char>)
    requires
        find_job(jobs, id) is Some,
    ensures
        find_job(jobs, id).unwrap().job_id == id,
    decreases jobs.len(),
{
    if jobs.len() > 0 && jobs[0].job_id != id {
        lemma_find_job_id(jobs.drop_first(), id);
    }
}

/// The table lookup finds the first index whose job carries the id.
pub proof fn lemma_find_job_at(jobs: Seq<JobModel>, id: Seq<char>, i: int)
    requires
        0 <= i < jobs.len(),
        jobs[i].job_id == id,
        forall|k: int| 0 <= k < i ==> #[trigger] jobs[k].job_id != id,
    ensures
        find_job(jobs, id) == Some(jobs[i]),
    decreases i,
{
    if i > 0 {
        lemma_find_job_at(jobs.drop_first(), id, i - 1);
    }
}

/// A lookup misses exactly when no job in the table carries the id.
pub proof fn lemma_find_job_none(jobs: Seq<JobModel>, id: Seq<char>)
    requires
        forall|k: int| 0 <= k < jobs.len() ==> #[trigger] jobs[k].job_id != id,
    ensures
        find_job(jobs, id) is None,
    decreases jobs.len(),
{
    if jobs.len() > 0 {
        lemma_find_job_none(jobs.drop_first(), id);
    }
}

/// A lookup hits exactly when some job in the table carries the id.
pub proof fn lemma_find_job_some_iff(jobs: Seq<JobModel>, id: Seq<char>)
    ensures
        find_job(jobs, id) is Some <==> exists|w: int|
            0 <= w < jobs.len() && #[trigger] jobs[w].job_id == id,
    decreases jobs.len(),
{
    if jobs.len() > 0 {
        lemma_find_job_some_iff(jobs.drop_first(), id);
        if jobs[0].job_id != id && find_job(jobs, id) is Some {
            let w = choose|w: int|
                0 <= w < jobs.drop_first().len() && #[trigger] jobs.drop_first()[w].job_id == id;
            assert(jobs[w + 1].job_id == id);
        }
        if exists|w: int| 0 <= w < jobs.len() && #[trigger] jobs[w].job_id == id {
            let w = choose|w: int| 0 <= w < jobs.len() && #[trigger] jobs[w].job_id == id;
            if w > 0 && jobs[0].job_id != id {
                assert(jobs.drop_first()[w - 1].job_id == id);
            }
        }
    }
}

/// The receipt lookup finds the first index whose receipt carries the id.
pub proof fn lemma_find_receipt_at(receipts: Seq<ReceiptModel>, id: Seq<char>, i: int)
    requires
        0 <= i < receipts.len(),
        receipts[i].job_id == id,
        forall|k: int| 0 <= k < i ==> #[trigger] receipts[k].job_id != id,
    ensures
        find_receipt(receipts, id) == Some(receipts[i]),
    decreases i,
{
    if i > 0 {
        lemma_find_receipt_at(receipts.drop_first(), id, i - 1);
    }
}

/// A receipt lookup misses exactly when no receipt carries the id.
pub proof fn lemma_find_receipt_none(receipts: Seq<ReceiptModel>, id: Seq<char>)
    requires
        forall|k: int| 0 <= k < receipts.len() ==> #[trigger] receipts[k].job_id != id,
    ensures
        find_receipt(receipts, id) is None,
    decreases receipts.len(),
{
    if receipts.len() > 0 {
        lemma_find_receipt_none(receipts.drop_first(), id);
    }
}

/// A receipt lookup hits exactly when some receipt carries the id.
pub proof fn lemma_find_receipt_some_iff(receipts: Seq<ReceiptModel>, id: Seq<char>)
    ensures
        find_receipt(receipts, id) is Some <==> exists|w: int|
            0 <= w < receipts.len() && #[trigger] receipts[w].job_id == id,
    decreases receipts.len(),
{
    if receipts.len() > 0 {
        lemma_find_receipt_some_iff(receipts.drop_first(), id);
        if receipts[0].job_id != id && find_receipt(receipts, id) is Some {
            let w = choose|w: int|
                0 <= w < receipts.drop_first().len() && #[trigger] receipts.drop_first()[
                    w
                ].job_id == id;
            assert(receipts[w + 1].job_id == id);
        }
        if exists|w: int| 0 <= w < receipts.len() && #[trigger] receipts[w].job_id == id {
            let w = choose|w: int| 0 <= w < receipts.len() && #[trigger] receipts[w].job_id == id;
            if w > 0 && receipts[0].job_id != id {
                assert(receipts.drop_first()[w - 1].job_id == id);
            }
        }
    }
}

/// Looking a receipt up in a table with one more entry: the new entry is
/// found only where the old table had none and the id matches.
pub proof fn lemma_find_receipt_push(receipts: Seq<ReceiptModel>, r: ReceiptModel, id: Seq<char>)
    ensures
        find_receipt(receipts.push(r), id) == if find_receipt(receipts, id) is Some {
            find_receipt(receipts, id)
        } else if r.job_id == id {
            Some(r)
        } else {
            None
        },
    decreases receipts.len(),
{
    if receipts.len() == 0 {
        assert(receipts.push(r)[0] == r);
        assert(receipts.push(r).drop_first() =~= Seq::<ReceiptModel>::empty());
    } else {
        assert(receipts.push(r).drop_first() =~= receipts.drop_first().push(r));
        lemma_find_receipt_push(receipts.drop_first(), r, id);
    }
}

/// Looking a job up after an upsert: the upserted job is found under its own
/// id, every other id resolves as before.
pub proof fn lemma_find_upsert(jobs: Seq<JobModel>, j: JobModel, id: Seq<char>)
    ensures
        find_job(upsert_job(jobs, j), id) == if id == j.job_id {
            Some(j)
        } else {
            find_job(jobs, id)
        },
    decreases jobs.len(),
{
    let u = upsert_job(jobs, j);
    if jobs.len() == 0 {
        assert(u =~= seq![j]);
        assert(u[0] == j);
        if id != j.job_id {
            assert(u.drop_first() =~= Seq::<JobModel>::empty());
            assert(find_job(u, id) is None);
        }
    } else if jobs[0].job_id == j.job_id {
        assert(u =~= seq![j] + jobs.drop_first());
        assert(u[0] == j);
        if id != j.job_id {
            assert(u.drop_first() =~= jobs.drop_first());
            assert(find_job(u, id) == find_job(jobs.drop_first(), id));
            assert(find_job(jobs, id) == find_job(jobs.drop_first(), id));
        }
    } else {
        assert(u =~= seq![jobs[0]] + upsert_job(jobs.drop_first(), j));
        assert(u[0] == jobs[0]);
        assert(u.drop_first() =~= upsert_job(jobs.drop_first(), j));
        lemma_find_upsert(jobs.drop_first(), j, id);
        if u[0].job_id == id {
            assert(find_job(u, id) == Some(jobs[0]));
            assert(find_job(jobs, id) == Some(jobs[0]));
        } else {
            assert(find_job(u, id) == find_job(upsert_job(jobs.drop_first(), j), id));
            assert(find_job(jobs, id) == find_job(jobs.drop_first(), id));
        }
    }
}

/// An upsert that found its id at the first matching index `i` replaces that
/// entry.
pub proof fn lemma_upsert_found(jobs: Seq<JobModel>, j: JobModel, i: int)
    requires
        0 <= i < jobs.len(),
        jobs[i].job_id == j.job_id,
        forall|k: int| 0 <= k < i ==> #[trigger] jobs[k].job_id != j.job_id,
    ensures
        upsert_job(jobs, j) == jobs.update(i, j),
    decreases i,
{
    if i == 0 {
        assert(upsert_job(jobs, j) =~= jobs.update(0, j));
    } else {
        lemma_upsert_found(jobs.drop_first(), j, i - 1);
        assert(seq![jobs[0]] + jobs.drop_first().update(i - 1, j) =~= jobs.update(i, j));
    }
}

/// An upsert that found no entry under its id appends the job.
pub proof fn lemma_upsert_not_found(jobs: Seq<JobModel>, j: JobModel)
    requires
        forall|k: int| 0 <= k < jobs.len() ==> #[trigger] jobs[k].job_id != j.job_id,
    ensures
        upsert_job(jobs, j) == jobs.push(j),
    decreases jobs.len(),
{
    if jobs.len() == 0 {
        assert(upsert_job(jobs, j) =~= jobs.push(j));
    } else {
        lemma_upsert_not_found(jobs.drop_first(), j);
        assert(seq![jobs[0]] + jobs.drop_first().push(j) =~= jobs.push(j));
    }
}

/// Marking a job settled at the first matching index `i` updates that entry
/// alone.
pub proof fn lemma_mark_settled_found(jobs: Seq<JobModel>, id: Seq<char>, i: int)
    requires
        0 <= i < jobs.len(),
        jobs[i].job_id == id,
        forall|k: int| 0 <= k < i ==> #[trigger] jobs[k].job_id != id,
    ensures
        mark_settled(jobs, id) == jobs.update(i, JobModel { settled: true, ..jobs[i] }),
    decreases i,
{
    if i == 0 {
        assert(mark_settled(jobs, id) =~= jobs.update(0, JobModel { settled: true, ..jobs[0] }));
    } else {
        lemma_mark_settled_found(jobs.drop_first(), id, i - 1);
        assert(seq![jobs[0]] + jobs.drop_first().update(
            i - 1,
            JobModel { settled: true, ..jobs[i] },
        ) =~= jobs.update(i, JobModel { settled: true, ..jobs[i] }));
    }
}

/// Uniqueness, first half: `request_job` derives its id in state `m` from
/// the seed `requester|created_at_ms|pending-length`, and appends one
/// pending entry, so the nonce of every later call is strictly greater.
/// Two calls with distinct nonces hash distinct seeds, whatever the
/// requesters and creation times are.
pub proof fn lemma_new_job_seeds_distinct(
    m1: GatewayModel,
    requester1: Seq<char>,
    created_at_ms1: u64,
    m2: GatewayModel,
    requester2: Seq<char>,
    created_at_ms2: u64,
)
    requires
        m1.pending.len() as u64 != m2.pending.len() as u64,
    ensures
        crate::job_id::seed_of(encode_utf8(requester1), created_at_ms1, m1.pending.len() as u64)
            != crate::job_id::seed_of(
            encode_utf8(requester2),
            created_at_ms2,
            m2.pending.len() as u64,
        ),
{
    crate::job_id::lemma_distinct_nonces_distinct_seeds(
        encode_utf8(requester1),
        created_at_ms1,
        m1.pending.len() as u64,
        encode_utf8(requester2),
        created_at_ms2,
        m2.pending.len() as u64,
    );
}

/// Uniqueness, second half: the ids of two such calls differ whenever the
/// digests of their (distinct) seeds differ. That the digest never collides
/// on distinct seeds is the collision resistance of SHA-256, which no proof
/// here claims.
pub proof fn lemma_new_job_ids_distinct(
    m1: GatewayModel,
    requester1: Seq<char>,
    created_at_ms1: u64,
    m2: GatewayModel,
    requester2: Seq<char>,
    created_at_ms2: u64,
)
    requires
        crate::job_id::sha256_of(
            crate::job_id::seed_of(
                encode_utf8(requester1),
                created_at_ms1,
                m1.pending.len() as u64,
            ),
        ) != crate::job_id::sha256_of(
            crate::job_id::seed_of(
                encode_utf8(requester2),
                created_at_ms2,
                m2.pending.len() as u64,
            ),
        ),
    ensures
        new_job_id(m1, requester1, created_at_ms1) != new_job_id(m2, requester2, created_at_ms2),
{
    crate::job_id::lemma_distinct_digests_distinct_ids(
        encode_utf8(requester1),
        created_at_ms1,
        m1.pending.len() as u64,
        encode_utf8(requester2),
        created_at_ms2,
        m2.pending.len() as u64,
    );
}

/// Single settlement, first half: a state that holds a receipt for a job
/// refuses every settlement of that job with `AlreadySettled`, whoever calls
/// and whatever proof they bring.
pub proof fn lemma_settled_stays_settled(
    m: GatewayModel,
    executor: Seq<char>,
    job_id: Seq<char>,
    proof_data: Seq<char>,
)
    requires
        find_receipt(m.receipts, job_id) is Some,
    ensures
        submit_decision(m, executor, job_id, proof_data) == Some(SubmitError::AlreadySettled),
{
}

/// Single settlement, second half: after an accepted settlement, every
/// further settlement of the same job fails with `AlreadySettled`.
pub proof fn lemma_single_settlement(
    m: GatewayModel,
    executor: Seq<char>,
    settled_at_ms: u64,
    job_id: Seq<char>,
    result_commitment: Seq<char>,
    public_output: Seq<char>,
    proof_data: Seq<char>,
    later_executor: Seq<char>,
    later_proof: Seq<char>,
)
    requires
        submit_decision(m, executor, job_id, proof_data) is None,
    ensures
        submit_decision(
            submit_step(m, executor, settled_at_ms, job_id, result_commitment, public_output),
            later_executor,
            job_id,
            later_proof,
        ) == Some(SubmitError::AlreadySettled),
{
    let m1 = submit_step(m, executor, settled_at_ms, job_id, result_commitment, public_output);
    lemma_find_receipt_push(
        m.receipts,
        ReceiptModel { job_id, executor, result_commitment, public_output, settled_at_ms },
        job_id,
    );
    assert(find_receipt(m1.receipts, job_id) is Some);
}

/// Authorization: a caller other than the trusted executor never settles;
/// on a known, unsettled, unreceipted job the refusal is
/// `UnauthorizedExecutor`, whatever the proof is.
pub proof fn lemma_unauthorized_rejected(
    m: GatewayModel,
    executor: Seq<char>,
    job_id: Seq<char>,
    proof_data: Seq<char>,
)
    requires
        executor != m.trusted_executor,
    ensures
        submit_decision(m, executor, job_id, proof_data) is Some,
        (find_receipt(m.receipts, job_id) is None && find_job(m.jobs, job_id) is Some && !find_job(
            m.jobs,
            job_id,
        ).unwrap().settled) ==> submit_decision(m, executor, job_id, proof_data) == Some(
            SubmitError::UnauthorizedExecutor,
        ),
{
}

/// An empty proof never settles, even from the trusted executor; on a known,
/// unsettled, unreceipted job with the trusted executor calling, the refusal
/// is `MissingProof`.
pub proof fn lemma_missing_proof_rejected(
    m: GatewayModel,
    executor: Seq<char>,
    job_id: Seq<char>,
    proof_data: Seq<char>,
)
    requires
        proof_data.len() == 0,
    ensures
        submit_decision(m, executor, job_id, proof_data) is Some,
        (find_receipt(m.receipts, job_id) is None && find_job(m.jobs, job_id) is Some && !find_job(
            m.jobs,
            job_id,
        ).unwrap().settled && executor == m.trusted_executor) ==> submit_decision(
            m,
            executor,
            job_id,
            proof_data,
        ) == Some(SubmitError::MissingProof),
{
}

/// Every job a pending scan returns is live: stored, unsettled and without a
/// receipt, and it carries the index entry's id.
pub proof fn lemma_scan_entries_live(m: GatewayModel, ids: Seq<Seq<char>>, limit: nat)
    ensures
        forall|k: int|
            0 <= k < scan_pending(m, ids, limit).len() ==> is_live(
                m,
                #[trigger] scan_pending(m, ids, limit)[k].job_id,
            ),
    decreases ids.len(),
{
    let s = scan_pending(m, ids, limit);
    if ids.len() > 0 && limit > 0 {
        if is_live(m, ids[0]) {
            lemma_find_job_id(m.jobs, ids[0]);
            lemma_scan_entries_live(m, ids.drop_first(), (limit - 1) as nat);
            let rest = scan_pending(m, ids.drop_first(), (limit - 1) as nat);
            assert forall|k: int| 0 <= k < s.len() implies is_live(
                m,
                #[trigger] s[k].job_id,
            ) by {
                if k == 0 {
                    assert(s[0] == find_job(m.jobs, ids[0]).unwrap());
                } else {
                    assert(s[k] == rest[k - 1]);
                }
            }
        } else {
            lemma_scan_entries_live(m, ids.drop_first(), limit);
            let rest = scan_pending(m, ids.drop_first(), limit);
            assert forall|k: int| 0 <= k < s.len() implies is_live(
                m,
                #[trigger] s[k].job_id,
            ) by {
                assert(s[k] == rest[k]);
            }
        }
    }
}

/// A live id among the scanned entries is listed, provided the limit does
/// not cut the scan short.
pub proof fn lemma_scan_lists_live(m: GatewayModel, ids: Seq<Seq<char>>, limit: nat, id: Seq<char>)
    requires
        ids.contains(id),
        is_live(m, id),
        limit >= ids.len(),
    ensures
        exists|k: int|
            0 <= k < scan_pending(m, ids, limit).len() && #[trigger] scan_pending(m, ids, limit)[
                k
            ].job_id == id,
    decreases ids.len(),
{
    let s = scan_pending(m, ids, limit);
    if is_live(m, ids[0]) {
        let rest = scan_pending(m, ids.drop_first(), (limit - 1) as nat);
        if ids[0] == id {
            lemma_find_job_id(m.jobs, id);
            assert(s[0].job_id == id);
        } else {
            let w = choose|w: int| 0 <= w < ids.len() && ids[w] == id;
            assert(ids.drop_first()[w - 1] == id);
            assert(ids.drop_first().contains(id));
            lemma_scan_lists_live(m, ids.drop_first(), (limit - 1) as nat, id);
            let k = choose|k: int| 0 <= k < rest.len() && #[trigger] rest[k].job_id == id;
            assert(s[k + 1].job_id == id);
        }
    } else {
        assert(ids[0] != id);
        let w = choose|w: int| 0 <= w < ids.len() && ids[w] == id;
        assert(ids.drop_first()[w - 1] == id);
        assert(ids.drop_first().contains(id));
        lemma_scan_lists_live(m, ids.drop_first(), limit, id);
        let rest = scan_pending(m, ids.drop_first(), limit);
        let k = choose|k: int| 0 <= k < rest.len() && #[trigger] rest[k].job_id == id;
        assert(s[k].job_id == id);
    }
}

/// Pending correctness, first half: immediately after `request_job`, the new
/// id is listed by a pending scan whose limit covers the index, provided no
/// receipt already stands under the derived id.
pub proof fn lemma_new_job_listed(
    m: GatewayModel,
    requester: Seq<char>,
    created_at_ms: u64,
    program_id: Seq<char>,
    policy_id: Seq<char>,
    public_inputs: Seq<char>,
    input_commitment: Seq<char>,
    callback_contract: Seq<char>,
    callback_method: Seq<char>,
    limit: nat,
)
    requires
        find_receipt(m.receipts, new_job_id(m, requester, created_at_ms)) is None,
        limit >= m.pending.len() + 1,
    ensures
        ({
            let m1 = request_step(
                m,
                requester,
                created_at_ms,
                program_id,
                policy_id,
                public_inputs,
                input_commitment,
                callback_contract,
                callback_method,
            );
            exists|k: int|
                0 <= k < scan_pending(m1, m1.pending, limit).len() && #[trigger] scan_pending(
                    m1,
                    m1.pending,
                    limit,
                )[k].job_id == new_job_id(m, requester, created_at_ms)
        }),
{
    let id = new_job_id(m, requester, created_at_ms);
    let job = requested_job(
        m,
        requester,
        created_at_ms,
        program_id,
        policy_id,
        public_inputs,
        input_commitment,
        callback_contract,
        callback_method,
    );
    let m1 = request_step(
        m,
        requester,
        created_at_ms,
        program_id,
        policy_id,
        public_inputs,
        input_commitment,
        callback_contract,
        callback_method,
    );
    lemma_find_upsert(m.jobs, job, id);
    assert(find_job(m1.jobs, id) == Some(job));
    assert(is_live(m1, id));
    assert(m1.pending[m1.pending.len() - 1] == id);
    assert(m1.pending.contains(id));
    lemma_scan_lists_live(m1, m1.pending, limit, id);
}

/// Pending correctness, second half: a job id with a receipt is never listed
/// by a pending scan; in particular, immediately after a successful
/// settlement the settled id no longer appears.
pub proof fn lemma_settled_not_listed(
    m: GatewayModel,
    ids: Seq<Seq<char>>,
    limit: nat,
    id: Seq<char>,
)
    requires
        find_receipt(m.receipts, id) is Some,
    ensures
        forall|k: int|
            0 <= k < scan_pending(m, ids, limit).len() ==> #[trigger] scan_pending(m, ids, limit)[
                k
            ].job_id != id,
{
    lemma_scan_entries_live(m, ids, limit);
}

fn find_job_index(jobs: &Vec<Job>, id: &String) -> (r: Option<usize>)
    ensures
        match r {
            Some(i) => i < jobs@.len() && jobs_view(jobs@)[i as int].job_id == id@ && (forall|
                k: int,
            |
                0 <= k < i ==> (#[trigger] jobs@[k])@.job_id != id@) && find_job(
                jobs_view(jobs@),
                id@,
            ) == Some(jobs_view(jobs@)[i as int]),
            None => (forall|k: int| 0 <= k < jobs@.len() ==> (#[trigger] jobs@[k])@.job_id != id@)
                && find_job(jobs_view(jobs@), id@) is None,
        },
{
    let ghost jm = jobs_view(jobs@);
    let mut i: usize = 0;
    while i < jobs.len()
        invariant
            i <= jobs@.len(),
            jm == jobs@.map_values(|j: Job| j@),
            forall|k: int| 0 <= k < i ==> #[trigger] jm[k].job_id != id@,
        decreases jobs@.len() - i,
    {
        if jobs[i].job_id == *id {
            proof {
                lemma_find_job_at(jm, id@, i as int);
                assert forall|k: int| 0 <= k < i implies (#[trigger] jobs@[k])@.job_id != id@ by {
                    assert(jm[k] == jobs@[k]@);
                }
            }
            return Some(i);
        }
        i += 1;
    }
    proof {
        lemma_find_job_none(jm, id@);
        assert forall|k: int| 0 <= k < jobs@.len() implies (#[trigger] jobs@[k])@.job_id
            != id@ by {
            assert(jm[k] == jobs@[k]@);
        }
    }
    None
}

fn find_receipt_index(receipts: &Vec<Receipt>, id: &String) -> (r: Option<usize>)
    ensures
        match r {
            Some(i) => i < receipts@.len() && receipts_view(receipts@)[i as int].job_id == id@
                && find_receipt(receipts_view(receipts@), id@) == Some(
                receipts_view(receipts@)[i as int],
            ),
            None => (forall|k: int|
                0 <= k < receipts@.len() ==> (#[trigger] receipts@[k])@.job_id != id@)
                && find_receipt(receipts_view(receipts@), id@) is None,
        },
{
    let ghost rm = receipts_view(receipts@);
    let mut i: usize = 0;
    while i < receipts.len()
        invariant
            i <= receipts@.len(),
            rm == receipts@.map_values(|x: Receipt| x@),
            forall|k: int| 0 <= k < i ==> #[trigger] rm[k].job_id != id@,
        decreases receipts@.len() - i,
    {
        if receipts[i].job_id == *id {
            proof {
                lemma_find_receipt_at(rm, id@, i as int);
            }
            return Some(i);
        }
        i += 1;
    }
    proof {
        lemma_find_receipt_none(rm, id@);
        assert forall|k: int| 0 <= k < receipts@.len() implies (#[trigger] receipts@[k])@.job_id
            != id@ by {
            assert(rm[k] == receipts@[k]@);
        }
    }
    None
}

impl ShadeGateway {
    /// A fresh gateway: the two configured identities, no jobs, no pending
    /// entries, no receipts.
    pub fn new(verifier_id: String, trusted_executor: String) -> (g: ShadeGateway)
        ensures
            g@.verifier_id == verifier_id@,
            g@.trusted_executor == trusted_executor@,
            g@.jobs == Seq::<JobModel>::empty(),
            g@.pending == Seq::<Seq<char>>::empty(),
            g@.receipts == Seq::<ReceiptModel>::empty(),
            gateway_wf(g@),
    {
        let g = ShadeGateway {
            verifier_id,
            trusted_executor,
            jobs: Vec::new(),
            pending_job_ids: Vec::new(),
            receipts: Vec::new(),
        };
        proof {
            assert(g@.jobs =~= Seq::<JobModel>::empty());
            assert(g@.pending =~= Seq::<Seq<char>>::empty());
            assert(g@.receipts =~= Seq::<ReceiptModel>::empty());
        }
        g
    }

    /// Creates a new private execution job: derives the id from the
    /// requester, the creation time and the pending-index length, stores the
    /// job and appends the id to the pending index. Returns the new id.
    pub fn request_job(
        &mut self,
        requester: String,
        created_at_ms: u64,
        program_id: String,
        policy_id: String,
        public_inputs: String,
        input_commitment: String,
        callback_contract: String,
        callback_method: String,
    ) -> (job_id: String)
        requires
            gateway_wf(old(self)@),
        ensures
            gateway_wf(final(self)@),
            job_id@ == new_job_id(old(self)@, requester@, created_at_ms),
            final(self)@ == request_step(
                old(self)@,
                requester@,
                created_at_ms,
                program_id@,
                policy_id@,
                public_inputs@,
                input_commitment@,
                callback_contract@,
                callback_method@,
            ),
    {
        let ghost m0 = self@;
        let nonce: u64 = self.pending_job_ids.len() as u64;
        let job_id = derive_job_id(requester.as_str(), created_at_ms, nonce);
        let job = Job {
            job_id: job_id.clone(),
            requester,
            program_id,
            policy_id,
            input_commitment,
            public_inputs,
            callback_contract,
            callback_method,
            created_at_ms,
            settled: false,
        };
        let ghost jm = job@;
        proof {
            assert(jm.job_id == new_job_id(m0, jm.requester, created_at_ms));
        }
        let idx = find_job_index(&self.jobs, &job.job_id);
        match idx {
            Some(i) => {
                proof {
                    lemma_upsert_found(m0.jobs, jm, i as int);
                }
                self.jobs[i] = job;
                proof {
                    assert(jobs_view(self.jobs@) =~= m0.jobs.update(i as int, jm));
                }
            },
            None => {
                proof {
                    lemma_upsert_not_found(m0.jobs, jm);
                }
                self.jobs.push(job);
                proof {
                    assert(jobs_view(self.jobs@) =~= m0.jobs.push(jm));
                }
            },
        }
        self.pending_job_ids.push(job_id.clone());
        proof {
            assert(self@.jobs =~= upsert_job(m0.jobs, jm));
            assert(self@.pending =~= m0.pending.push(jm.job_id));
            assert(self@ =~= request_step(
                m0,
                jm.requester,
                created_at_ms,
                jm.program_id,
                jm.policy_id,
                jm.public_inputs,
                jm.input_commitment,
                jm.callback_contract,
                jm.callback_method,
            ));
            let jobs1 = self@.jobs;
            assert forall|a: int, b: int|
                0 <= a < b < jobs1.len() implies #[trigger] jobs1[a].job_id
                != #[trigger] jobs1[b].job_id by {
                match idx {
                    Some(i) => {
                        assert(jobs1[a].job_id == m0.jobs[a].job_id);
                        assert(jobs1[b].job_id == m0.jobs[b].job_id);
                    },
                    None => {
                        if b == jobs1.len() - 1 {
                            assert(jobs1[b] == jm);
                            assert(jobs1[a] == m0.jobs[a]);
                            assert(m0.jobs[a].job_id != jm.job_id);
                        } else {
                            assert(jobs1[a] == m0.jobs[a]);
                            assert(jobs1[b] == m0.jobs[b]);
                        }
                    },
                }
            }
            assert forall|a: int|
                0 <= a < self@.pending.len() implies find_job(
                self@.jobs,
                #[trigger] self@.pending[a],
            ) is Some by {
                lemma_find_upsert(m0.jobs, jm, self@.pending[a]);
            }
        }
        job_id
    }

    /// A worker pulls pending jobs: scans the pending index from the start,
    /// returns the stored job of every id that is unsettled and has no
    /// receipt, in index order, at most `limit` of them.
    pub fn get_pending_jobs(&self, limit: u32) -> (out: Vec<Job>)
        ensures
            jobs_view(out@) == scan_pending(self@, self@.pending, limit as nat),
    {
        let ghost m = self@;
        let mut out: Vec<Job> = Vec::new();
        let mut i: usize = 0;
        proof {
            assert(m.pending.skip(0) =~= m.pending);
            assert(jobs_view(out@) =~= Seq::<JobModel>::empty());
            assert(jobs_view(out@) + scan_pending(m, m.pending, limit as nat) =~= scan_pending(
                m,
                m.pending,
                limit as nat,
            ));
        }
        while i < self.pending_job_ids.len() && out.len() < limit as usize
            invariant
                i <= self@.pending.len(),
                m == self@,
                out@.len() <= limit as nat,
                scan_pending(m, m.pending, limit as nat) == jobs_view(out@) + scan_pending(
                    m,
                    m.pending.skip(i as int),
                    (limit - out@.len()) as nat,
                ),
            decreases self@.pending.len() - i,
        {
            let ghost rest = m.pending.skip(i as int);
            let ghost rem = (limit - out@.len()) as nat;
            let ghost out_pre = jobs_view(out@);
            proof {
                assert(rest[0] == m.pending[i as int]);
                assert(rest.drop_first() =~= m.pending.skip(i as int + 1));
            }
            let id = &self.pending_job_ids[i];
            match find_job_index(&self.jobs, id) {
                Some(ji) => {
                    let live = !self.jobs[ji].settled && find_receipt_index(
                        &self.receipts,
                        id,
                    ).is_none();
                    if live {
                        out.push(self.jobs[ji].clone());
                        proof {
                            assert(is_live(m, rest[0]));
                            assert(find_job(m.jobs, rest[0]).unwrap() == m.jobs[ji as int]);
                            assert(scan_pending(m, rest, rem) == seq![m.jobs[ji as int]]
                                + scan_pending(m, rest.drop_first(), (rem - 1) as nat));
                            assert(jobs_view(out@) =~= out_pre.push(m.jobs[ji as int]));
                            assert(out_pre + (seq![m.jobs[ji as int]] + scan_pending(
                                m,
                                rest.drop_first(),
                                (rem - 1) as nat,
                            )) =~= out_pre.push(m.jobs[ji as int]) + scan_pending(
                                m,
                                m.pending.skip(i as int + 1),
                                (rem - 1) as nat,
                            ));
                        }
                    } else {
                        proof {
                            assert(!is_live(m, rest[0]));
                        }
                    }
                },
                None => {
                    proof {
                        assert(!is_live(m, rest[0]));
                    }
                },
            }
            i += 1;
        }
        proof {
            if i == self@.pending.len() {
                assert(m.pending.skip(i as int) =~= Seq::<Seq<char>>::empty());
            }
            assert(scan_pending(m, m.pending.skip(i as int), (limit - out@.len()) as nat)
                =~= Seq::<JobModel>::empty());
            assert(jobs_view(out@) + Seq::<JobModel>::empty() =~= jobs_view(out@));
        }
        out
    }

    /// A worker submits a result for a job. The five gates are checked in
    /// order; on acceptance the job is marked settled, a receipt is stored,
    /// and the one callback invocation to perform is returned. On refusal
    /// the state is unchanged.
    pub fn submit_result(
        &mut self,
        executor: String,
        settled_at_ms: u64,
        job_id: String,
        result_commitment: String,
        public_output: String,
        proof_data: String,
    ) -> (r: Result<CallbackDispatch, SubmitError>)
        requires
            gateway_wf(old(self)@),
        ensures
            gateway_wf(final(self)@),
            match r {
                Err(e) => submit_decision(old(self)@, executor@, job_id@, proof_data@) == Some(e)
                    && final(self)@ == old(self)@,
                Ok(cb) => submit_decision(old(self)@, executor@, job_id@, proof_data@) is None
                    && final(self)@ == submit_step(
                    old(self)@,
                    executor@,
                    settled_at_ms,
                    job_id@,
                    result_commitment@,
                    public_output@,
                ) && cb@ == dispatch_of(
                    find_job(old(self)@.jobs, job_id@).unwrap(),
                    job_id@,
                    result_commitment@,
                    public_output@,
                ),
            },
    {
        let ghost m0 = self@;
        if find_receipt_index(&self.receipts, &job_id).is_some() {
            return Err(SubmitError::AlreadySettled);
        }
        let ji = match find_job_index(&self.jobs, &job_id) {
            None => {
                return Err(SubmitError::UnknownJob);
            },
            Some(ji) => ji,
        };
        if self.jobs[ji].settled {
            return Err(SubmitError::JobAlreadyMarkedSettled);
        }
        if !(executor == self.trusted_executor) {
            return Err(SubmitError::UnauthorizedExecutor);
        }
        if proof_data.as_str().is_empty() {
            return Err(SubmitError::MissingProof);
        }
        proof {
            lemma_mark_settled_found(m0.jobs, job_id@, ji as int);
        }
        let mut settled_job = self.jobs[ji].clone();
        settled_job.settled = true;
        let contract = settled_job.callback_contract.clone();
        let method = settled_job.callback_method.clone();
        self.jobs[ji] = settled_job;
        let receipt = Receipt {
            job_id: job_id.clone(),
            executor: executor.clone(),
            result_commitment: result_commitment.clone(),
            public_output: public_output.clone(),
            settled_at_ms,
        };
        self.receipts.push(receipt);
        let receipt_ref = String::from_str("receipt:").concat(job_id.as_str());
        let cb = CallbackDispatch {
            contract,
            method,
            job_id,
            public_output,
            result_commitment,
            receipt_ref,
        };
        proof {
            assert(self@.jobs =~= mark_settled(m0.jobs, cb.job_id@));
            assert(self@.receipts =~= m0.receipts.push(
                ReceiptModel {
                    job_id: cb.job_id@,
                    executor: executor@,
                    result_commitment: cb.result_commitment@,
                    public_output: cb.public_output@,
                    settled_at_ms,
                },
            ));
            assert(self@ =~= submit_step(
                m0,
                executor@,
                settled_at_ms,
                cb.job_id@,
                cb.result_commitment@,
                cb.public_output@,
            ));
            assert(cb@ =~= dispatch_of(
                find_job(m0.jobs, cb.job_id@).unwrap(),
                cb.job_id@,
                cb.result_commitment@,
                cb.public_output@,
            ));
            assert(gateway_wf(self@)) by {
                let jobs1 = self@.jobs;
                assert(jobs1 =~= m0.jobs.update(
                    ji as int,
                    JobModel { settled: true, ..m0.jobs[ji as int] },
                ));
                assert forall|a: int|
                    0 <= a < jobs1.len() implies #[trigger] jobs1[a].job_id
                    == m0.jobs[a].job_id by {}
                assert forall|a: int|
                    0 <= a < m0.receipts.len() implies #[trigger] m0.receipts[a].job_id
                    != cb.job_id@ by {
                    lemma_find_receipt_some_iff(m0.receipts, cb.job_id@);
                }
                assert forall|a: int|
                    0 <= a < self@.pending.len() implies find_job(
                    jobs1,
                    #[trigger] self@.pending[a],
                ) is Some by {
                    lemma_find_job_some_iff(m0.jobs, m0.pending[a]);
                    let w = choose|w: int|
                        0 <= w < m0.jobs.len() && #[trigger] m0.jobs[w].job_id == m0.pending[a];
                    assert(jobs1[w].job_id == m0.pending[a]);
                    lemma_find_job_some_iff(jobs1, m0.pending[a]);
                }
            }
        }
        Ok(cb)
    }

    /// The job stored under an id, if any.
    pub fn get_job(&self, job_id: String) -> (r: Option<Job>)
        ensures
            match r {
                Some(j) => find_job(self@.jobs, job_id@) == Some(j@),
                None => find_job(self@.jobs, job_id@) is None,
            },
    {
        match find_job_index(&self.jobs, &job_id) {
            Some(i) => Some(self.jobs[i].clone()),
            None => None,
        }
    }

    /// The receipt stored under an id, if any.
    pub fn get_receipt(&self, job_id: String) -> (r: Option<Receipt>)
        ensures
            match r {
                Some(x) => find_receipt(self@.receipts, job_id@) == Some(x@),
                None => find_receipt(self@.receipts, job_id@) is None,
            },
    {
        match find_receipt_index(&self.receipts, &job_id) {
            Some(i) => Some(self.receipts[i].clone()),
            None => None,
        }
    }

    /// The configured identities: the verifier contract and the trusted
    /// executor.
    pub fn get_config(&self) -> (r: (String, String))
        ensures
            r.0@ == self@.verifier_id,
            r.1@ == self@.trusted_executor,
    {
        (self.verifier_id.clone(), self.trusted_executor.clone())
    }
}

} // verus!
