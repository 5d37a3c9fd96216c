use shade::policy::ShadeVerifier;
use shade::receiver::{CallbackError, ShadeCallbackDemo};

fn verify_call(v: &ShadeVerifier, policy: &str, executor: &str, proof: &str) -> bool {
    v.verify(
        policy.to_string(),
        "jobid".to_string(),
        "commit".to_string(),
        "out".to_string(),
        executor.to_string(),
        proof.to_string(),
    )
}

#[test]
fn test_allowlist_add_remove() {
    let mut v = ShadeVerifier::new();
    assert!(!v.is_allowed("worker.near".to_string()));
    v.add_executor("worker.near".to_string());
    assert!(v.is_allowed("worker.near".to_string()));
    // adding a member again is a no-op
    v.add_executor("worker.near".to_string());
    assert!(v.is_allowed("worker.near".to_string()));
    assert_eq!(v.allowed_executors.len(), 1);
    v.remove_executor("worker.near".to_string());
    assert!(!v.is_allowed("worker.near".to_string()));
    // removing a non-member is a no-op
    v.remove_executor("worker.near".to_string());
    assert!(!v.is_allowed("worker.near".to_string()));
}

#[test]
fn test_verify_policies() {
    let mut v = ShadeVerifier::new();
    v.add_executor("worker.near".to_string());
    assert!(verify_call(&v, "sig_v1", "worker.near", "p"));
    assert!(verify_call(&v, "tee_v1", "worker.near", "p"));
    assert!(verify_call(&v, "zk_lite_v1", "worker.near", "p"));
    // an unrecognised policy id is rejected, not an abort
    assert!(!verify_call(&v, "bogus_v9", "worker.near", "p"));
    assert!(!verify_call(&v, "", "worker.near", "p"));
}

#[test]
fn test_verify_rejects_unknown_executor_and_empty_proof() {
    let mut v = ShadeVerifier::new();
    v.add_executor("worker.near".to_string());
    assert!(!verify_call(&v, "sig_v1", "stranger.near", "p"));
    assert!(!verify_call(&v, "sig_v1", "worker.near", ""));
}

#[test]
fn test_verify_is_pure() {
    let mut v = ShadeVerifier::new();
    v.add_executor("worker.near".to_string());
    let first = verify_call(&v, "sig_v1", "worker.near", "p");
    let second = verify_call(&v, "sig_v1", "worker.near", "p");
    assert_eq!(first, second);
    assert!(first);
    // the allowlist is untouched by verify
    assert_eq!(v.allowed_executors.len(), 1);
    assert!(v.is_allowed("worker.near".to_string()));
}

#[test]
fn test_receiver_rejects_strangers() {
    let mut receiver = ShadeCallbackDemo::new("gateway.near".to_string());
    assert_eq!(receiver.get_gateway(), "gateway.near");
    let r = receiver.on_private_result(
        "stranger.near".to_string(),
        5,
        "job".to_string(),
        "out".to_string(),
        "commit".to_string(),
        "receipt:job".to_string(),
    );
    assert!(matches!(r, Err(CallbackError::UnauthorizedCaller)));
    assert!(receiver.get_last_result().is_none());
}

#[test]
fn test_receiver_keeps_last_result() {
    let mut receiver = ShadeCallbackDemo::new("gateway.near".to_string());
    receiver
        .on_private_result(
            "gateway.near".to_string(),
            5,
            "job".to_string(),
            "out".to_string(),
            "commit".to_string(),
            "receipt:job".to_string(),
        )
        .expect("gateway accepted");
    let last = receiver.get_last_result().expect("kept");
    assert_eq!(last.job_id, "job");
    assert_eq!(last.caller, "gateway.near");
    assert_eq!(last.public_output, "out");
    assert_eq!(last.result_commitment, "commit");
    assert_eq!(last.receipt_ref, "receipt:job");
    assert_eq!(last.received_at_ms, 5);
}
