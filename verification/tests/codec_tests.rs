use shade::hex::encode;
use shade::gateway::ShadeGateway;

#[test]
fn test_encode_empty() {
    assert_eq!(encode(Vec::new()), "");
}

#[test]
fn test_encode_known_bytes() {
    assert_eq!(encode(vec![0x00, 0x1f, 0xab, 0xff]), "001fabff");
}

#[test]
fn test_encode_deadbeef() {
    assert_eq!(encode(vec![0xde, 0xad, 0xbe, 0xef]), "deadbeef");
}

#[test]
fn test_encode_single_byte() {
    assert_eq!(encode(vec![7]), "07");
    assert_eq!(encode(vec![0x5a]), "5a");
}

#[test]
fn test_job_id_is_hex_of_sha256_of_seed() {
    let mut g = ShadeGateway::new("verifier.near".to_string(), "executor.near".to_string());
    let id = g.request_job(
        "alice.near".to_string(),
        1000,
        "prog1".to_string(),
        "sig_v1".to_string(),
        "{}".to_string(),
        "abcd".to_string(),
        "target.near".to_string(),
        "on_private_result".to_string(),
    );
    let seed = "alice.near|1000|0";
    let expected = encode(near_sdk::env::sha256(seed.as_bytes()));
    assert_eq!(id, expected);
    assert_eq!(id.len(), 64);
    // the digest step really transformed the seed: its plain hex differs
    assert_ne!(id, encode(seed.as_bytes().to_vec()));
}

#[test]
fn test_job_ids_distinct_across_requests() {
    let mut g = ShadeGateway::new("verifier.near".to_string(), "executor.near".to_string());
    let mut ids: Vec<String> = Vec::new();
    for k in 0..5u64 {
        let id = g.request_job(
            "alice.near".to_string(),
            1000,
            format!("prog{}", k),
            "sig_v1".to_string(),
            "{}".to_string(),
            "abcd".to_string(),
            "target.near".to_string(),
            "on_private_result".to_string(),
        );
        assert!(!ids.contains(&id));
        ids.push(id);
    }
}
