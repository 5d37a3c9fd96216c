use shade::gateway::{ShadeGateway, SubmitError};
use shade::receiver::ShadeCallbackDemo;

fn fresh_gateway() -> ShadeGateway {
    ShadeGateway::new("verifier.near".to_string(), "executor.near".to_string())
}

fn request_default(g: &mut ShadeGateway) -> String {
    g.request_job(
        "alice.near".to_string(),
        1000,
        "prog1".to_string(),
        "sig_v1".to_string(),
        "{}".to_string(),
        "abcd".to_string(),
        "targetc.near".to_string(),
        "on_private_result".to_string(),
    )
}

#[test]
fn test_request_job_visible_and_pending() {
    let mut g = fresh_gateway();
    let id = request_default(&mut g);
    let job = g.get_job(id.clone()).expect("job stored");
    assert_eq!(job.job_id, id);
    assert_eq!(job.requester, "alice.near");
    assert_eq!(job.program_id, "prog1");
    assert_eq!(job.policy_id, "sig_v1");
    assert_eq!(job.public_inputs, "{}");
    assert_eq!(job.input_commitment, "abcd");
    assert_eq!(job.callback_contract, "targetc.near");
    assert_eq!(job.callback_method, "on_private_result");
    assert_eq!(job.created_at_ms, 1000);
    assert!(!job.settled);
    let pending = g.get_pending_jobs(10);
    assert!(pending.iter().any(|j| j.job_id == id));
}

#[test]
fn test_submit_result_settles_and_dispatches() {
    let mut g = fresh_gateway();
    let id = request_default(&mut g);
    let cb = g
        .submit_result(
            "executor.near".to_string(),
            2000,
            id.clone(),
            "deadbeef".to_string(),
            "42".to_string(),
            "proof1".to_string(),
        )
        .expect("trusted executor settles");
    assert_eq!(cb.contract, "targetc.near");
    assert_eq!(cb.method, "on_private_result");
    assert_eq!(cb.job_id, id);
    assert_eq!(cb.public_output, "42");
    assert_eq!(cb.result_commitment, "deadbeef");
    assert_eq!(cb.receipt_ref, format!("receipt:{}", id));

    let receipt = g.get_receipt(id.clone()).expect("receipt stored");
    assert_eq!(receipt.job_id, id);
    assert_eq!(receipt.executor, "executor.near");
    assert_eq!(receipt.result_commitment, "deadbeef");
    assert_eq!(receipt.public_output, "42");
    assert_eq!(receipt.settled_at_ms, 2000);

    let job = g.get_job(id.clone()).expect("job kept");
    assert!(job.settled);

    let pending = g.get_pending_jobs(10);
    assert!(!pending.iter().any(|j| j.job_id == id));

    let mut receiver = ShadeCallbackDemo::new("gateway.near".to_string());
    receiver
        .on_private_result(
            "gateway.near".to_string(),
            2001,
            cb.job_id.clone(),
            cb.public_output.clone(),
            cb.result_commitment.clone(),
            cb.receipt_ref.clone(),
        )
        .expect("gateway may call the receiver");
    let last = receiver.get_last_result().expect("result kept");
    assert_eq!(last.receipt_ref, format!("receipt:{}", id));
    assert_eq!(last.public_output, "42");
}

#[test]
fn test_repeat_submit_fails_already_settled() {
    let mut g = fresh_gateway();
    let id = request_default(&mut g);
    g.submit_result(
        "executor.near".to_string(),
        2000,
        id.clone(),
        "deadbeef".to_string(),
        "42".to_string(),
        "proof1".to_string(),
    )
    .expect("first settlement succeeds");
    let again = g.submit_result(
        "executor.near".to_string(),
        2002,
        id.clone(),
        "deadbeef".to_string(),
        "42".to_string(),
        "proof1".to_string(),
    );
    assert!(matches!(again, Err(SubmitError::AlreadySettled)));
    let later = g.submit_result(
        "someone.near".to_string(),
        2003,
        id,
        "other".to_string(),
        "7".to_string(),
        "proof2".to_string(),
    );
    assert!(matches!(later, Err(SubmitError::AlreadySettled)));
}

#[test]
fn test_untrusted_submit_fails_unauthorized() {
    let mut g = fresh_gateway();
    let id = request_default(&mut g);
    let r = g.submit_result(
        "mallory.near".to_string(),
        2000,
        id.clone(),
        "deadbeef".to_string(),
        "42".to_string(),
        "proof1".to_string(),
    );
    assert!(matches!(r, Err(SubmitError::UnauthorizedExecutor)));
    let job = g.get_job(id.clone()).expect("job kept");
    assert!(!job.settled);
    assert!(g.get_receipt(id.clone()).is_none());
    let pending = g.get_pending_jobs(10);
    assert!(pending.iter().any(|j| j.job_id == id));
}

#[test]
fn test_empty_proof_fails_missing_proof() {
    let mut g = fresh_gateway();
    let id = request_default(&mut g);
    let r = g.submit_result(
        "executor.near".to_string(),
        2000,
        id,
        "deadbeef".to_string(),
        "42".to_string(),
        String::new(),
    );
    assert!(matches!(r, Err(SubmitError::MissingProof)));
}

#[test]
fn test_unknown_job_fails() {
    let mut g = fresh_gateway();
    let r = g.submit_result(
        "executor.near".to_string(),
        2000,
        "nosuchjob".to_string(),
        "deadbeef".to_string(),
        "42".to_string(),
        "proof1".to_string(),
    );
    assert!(matches!(r, Err(SubmitError::UnknownJob)));
}

#[test]
fn test_settled_flag_guard() {
    let mut g = fresh_gateway();
    let id = request_default(&mut g);
    // force the inconsistent state the third gate defends against:
    // a settled flag without a receipt
    for job in g.jobs.iter_mut() {
        job.settled = true;
    }
    let r = g.submit_result(
        "executor.near".to_string(),
        2000,
        id,
        "deadbeef".to_string(),
        "42".to_string(),
        "proof1".to_string(),
    );
    assert!(matches!(r, Err(SubmitError::JobAlreadyMarkedSettled)));
}

#[test]
fn test_pending_limit_and_order() {
    let mut g = fresh_gateway();
    let mut ids: Vec<String> = Vec::new();
    for k in 0..3u64 {
        ids.push(g.request_job(
            "alice.near".to_string(),
            1000 + k,
            format!("prog{}", k),
            "sig_v1".to_string(),
            "{}".to_string(),
            "abcd".to_string(),
            "targetc.near".to_string(),
            "on_private_result".to_string(),
        ));
    }
    let two = g.get_pending_jobs(2);
    assert_eq!(two.len(), 2);
    assert_eq!(two[0].job_id, ids[0]);
    assert_eq!(two[1].job_id, ids[1]);
    let all = g.get_pending_jobs(10);
    assert_eq!(all.len(), 3);
    assert_eq!(all[2].job_id, ids[2]);
    let none = g.get_pending_jobs(0);
    assert!(none.is_empty());
}

#[test]
fn test_get_config() {
    let g = fresh_gateway();
    let (verifier_id, trusted) = g.get_config();
    assert_eq!(verifier_id, "verifier.near");
    assert_eq!(trusted, "executor.near");
}

#[test]
fn test_get_job_and_receipt_absent() {
    let g = fresh_gateway();
    assert!(g.get_job("missing".to_string()).is_none());
    assert!(g.get_receipt("missing".to_string()).is_none());
}
