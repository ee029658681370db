use proxy_token::auth::ed25519_verify_at;
use proxy_token::auth::Ed25519SigningKey;
use proxy_token::codec::decode_token;
use proxy_token::tasks::apply_refresh;
use proxy_token::tasks::plan_refresh;
use proxy_token::tasks::update_proxy_token;
use proxy_token::tasks::Agent;
use proxy_token::tasks::SigningBackend;
use proxy_token::REFRESH_MARGIN;

fn roster(names: &[&str]) -> Vec<Agent> {
    names
        .iter()
        .map(|n| Agent { name: n.to_string(), proxy_token: None })
        .collect()
}

fn backend() -> SigningBackend {
    SigningBackend::Ed25519(Ed25519SigningKey { bytes: [8u8; 32].to_vec() })
}

#[test]
fn memoization_two_agents_one_call() {
    // Two agents named "alice": the plan holds one name, so one refresh pass
    // performs exactly one signing call, and both agents end up with
    // byte-identical tokens.
    let agents = roster(&["alice", "alice"]);
    let names = plan_refresh(&agents);
    assert_eq!(names, vec!["alice".to_string()]);

    let b = backend();
    let mut signing_calls: usize = 0;
    let mut tokens: Vec<Vec<u8>> = Vec::new();
    for name in &names {
        signing_calls += 1;
        tokens.push(b.sign(1000, name).unwrap());
    }
    assert_eq!(signing_calls, 1);

    let out = apply_refresh(agents, &names, &tokens).unwrap();
    assert_eq!(out.len(), 2);
    assert_eq!(out[0].proxy_token, out[1].proxy_token);
    assert!(out[0].proxy_token.is_some());
}

#[test]
fn empty_roster_no_signing() {
    let agents: Vec<Agent> = Vec::new();
    let names = plan_refresh(&agents);
    assert!(names.is_empty());
    let out = update_proxy_token(&backend(), 300, 1000, agents).unwrap();
    assert!(out.is_empty());
}

#[test]
fn end_to_end_refresh_pass() {
    // Roster [alice, bob, alice], interval 300, time t: exactly 2 signing
    // calls, every token expires at t + 300 + 120, all three entries are
    // populated, and entries 1 and 3 are byte-identical.
    let t: u64 = 1_700_000_000;
    let agents = roster(&["alice", "bob", "alice"]);
    let names = plan_refresh(&agents);
    assert_eq!(names, vec!["alice".to_string(), "bob".to_string()]);
    assert_eq!(names.len(), 2);

    let b = backend();
    let out = update_proxy_token(&b, 300, t, agents).unwrap();
    assert_eq!(out.len(), 3);
    for agent in &out {
        let bytes = agent.proxy_token.as_ref().unwrap();
        let token = decode_token(bytes).unwrap();
        assert_eq!(token.0, t + 300 + REFRESH_MARGIN);
        assert_eq!(token.1, agent.name);
    }
    assert_eq!(out[0].proxy_token, out[2].proxy_token);
    assert_ne!(out[0].proxy_token, out[1].proxy_token);

    // The issued tokens verify against the signer's public key.
    let SigningBackend::Ed25519(key) = backend() else {
        panic!("expected the Ed25519 backend");
    };
    let keys = vec![key.verifying_key()];
    for agent in &out {
        let bytes = agent.proxy_token.as_ref().unwrap();
        let verified = ed25519_verify_at(&keys, bytes, t).unwrap();
        assert_eq!(verified.1, agent.name);
    }
}

#[test]
fn refresh_keeps_roster_order_and_names() {
    let agents = roster(&["carol", "alice", "carol", "bob"]);
    let out = update_proxy_token(&backend(), 60, 5000, agents).unwrap();
    let names: Vec<String> = out.iter().map(|a| a.name.clone()).collect();
    assert_eq!(
        names,
        vec![
            "carol".to_string(),
            "alice".to_string(),
            "carol".to_string(),
            "bob".to_string()
        ]
    );
    assert_eq!(out[0].proxy_token, out[2].proxy_token);
}
