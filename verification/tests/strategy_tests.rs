//! The built-in activation strategies, compiled and evaluated.
use unleash_api_client::context::{Context, IPAddress};
use unleash_api_client::strategy::{
    evaluate_strategy, flexible_rollout, partial_rollout, random, remote_address, user_with_id,
};

fn params(pairs: &[(&str, &str)]) -> Vec<(String, String)> {
    pairs.iter().map(|(k, v)| (k.to_string(), v.to_string())).collect()
}

fn user_ctx(uid: &str) -> Context {
    Context { user_id: Some(uid.to_string()), ..Default::default() }
}

fn session_ctx(sid: &str) -> Context {
    Context { session_id: Some(sid.to_string()), ..Default::default() }
}

fn ip_ctx(addr: &str) -> Context {
    Context {
        remote_address: Some(IPAddress::parse(addr).unwrap()),
        ..Default::default()
    }
}

#[test]
fn test_user_with_id() {
    let p = params(&[("userIds", "fred,barney")]);
    let s = user_with_id(Some(&p));
    assert!(evaluate_strategy(&s, &user_ctx("fred")));
    assert!(evaluate_strategy(&s, &user_ctx("barney")));
    assert!(!evaluate_strategy(&s, &user_ctx("betty")));
}

#[test]
fn test_flexible_rollout() {
    // random
    let p = params(&[("stickiness", "random"), ("rollout", "0")]);
    let c: Context = Default::default();
    assert!(!evaluate_strategy(&flexible_rollout(Some(&p)), &c));

    let p = params(&[("stickiness", "random"), ("rollout", "100")]);
    assert!(evaluate_strategy(&flexible_rollout(Some(&p)), &c));
    let p = params(&[("stickiness", "random"), ("rollout", "0")]);
    assert!(!evaluate_strategy(&flexible_rollout(Some(&p)), &c));

    // sessionId
    let p = params(&[("stickiness", "sessionId"), ("groupId", "group1"), ("rollout", "0")]);
    assert!(!evaluate_strategy(&flexible_rollout(Some(&p)), &session_ctx("session1")));
    let p = params(&[("stickiness", "sessionId"), ("groupId", "group1"), ("rollout", "100")]);
    assert!(evaluate_strategy(&flexible_rollout(Some(&p)), &session_ctx("session1")));
    let p = params(&[("stickiness", "sessionId"), ("groupId", "group1"), ("rollout", "50")]);
    assert!(evaluate_strategy(&flexible_rollout(Some(&p)), &session_ctx("session1")));
    assert!(!evaluate_strategy(&flexible_rollout(Some(&p)), &session_ctx("session2")));
    let p = params(&[("stickiness", "sessionId"), ("groupId", "group3"), ("rollout", "50")]);
    assert!(!evaluate_strategy(&flexible_rollout(Some(&p)), &session_ctx("session1")));
    assert!(evaluate_strategy(&flexible_rollout(Some(&p)), &session_ctx("session2")));

    // userId
    let p = params(&[("stickiness", "userId"), ("groupId", "group1"), ("rollout", "0")]);
    assert!(!evaluate_strategy(&flexible_rollout(Some(&p)), &user_ctx("user1")));
    let p = params(&[("stickiness", "userId"), ("groupId", "group1"), ("rollout", "100")]);
    assert!(evaluate_strategy(&flexible_rollout(Some(&p)), &user_ctx("user1")));
    let p = params(&[("stickiness", "userId"), ("groupId", "group1"), ("rollout", "50")]);
    assert!(evaluate_strategy(&flexible_rollout(Some(&p)), &user_ctx("user1")));
    assert!(!evaluate_strategy(&flexible_rollout(Some(&p)), &user_ctx("user3")));
    let p = params(&[("stickiness", "userId"), ("groupId", "group2"), ("rollout", "50")]);
    assert!(!evaluate_strategy(&flexible_rollout(Some(&p)), &user_ctx("user3")));
    assert!(evaluate_strategy(&flexible_rollout(Some(&p)), &user_ctx("user1")));
}

#[test]
fn test_flexible_rollout_default_stickiness() {
    // rollout 100 is on for any context that carries an identifier
    let p = params(&[("stickiness", "default"), ("groupId", "g"), ("rollout", "100")]);
    let s = flexible_rollout(Some(&p));
    assert!(evaluate_strategy(&s, &user_ctx("anyone")));
    assert!(evaluate_strategy(&s, &session_ctx("anything")));
    assert!(evaluate_strategy(&s, &ip_ctx("1.2.3.4")));
    // rollout 0 is off for everyone
    let p = params(&[("stickiness", "default"), ("groupId", "g"), ("rollout", "0")]);
    let s = flexible_rollout(Some(&p));
    assert!(!evaluate_strategy(&s, &user_ctx("anyone")));
    assert!(!evaluate_strategy(&s, &session_ctx("anything")));
    // a missing or unknown stickiness never matches
    assert!(!evaluate_strategy(&flexible_rollout(None), &user_ctx("anyone")));
    let p = params(&[("stickiness", "banana"), ("rollout", "100")]);
    assert!(!evaluate_strategy(&flexible_rollout(Some(&p)), &user_ctx("anyone")));
}

#[test]
fn test_random() {
    let p = params(&[("percentage", "0")]);
    let c: Context = Default::default();
    assert!(!evaluate_strategy(&random(Some(&p)), &c));
    let p = params(&[("percentage", "100")]);
    assert!(evaluate_strategy(&random(Some(&p)), &c));
}

#[test]
fn test_remote_address() {
    let p = params(&[("IPs", "1.2.0.0/8,2.3.4.5,2222:FF:0:1234::/64")]);
    let s = remote_address(Some(&p));
    assert!(evaluate_strategy(&s, &ip_ctx("1.2.3.4")));
    assert!(evaluate_strategy(&s, &ip_ctx("2.3.4.5")));
    assert!(evaluate_strategy(&s, &ip_ctx("2222:FF:0:1234::FDEC")));
    assert!(!evaluate_strategy(&s, &ip_ctx("2.3.4.4")));
}

#[test]
fn test_hostname() {
    let c: Context = Default::default();
    let this_hostname = hostname::get().unwrap().into_string().unwrap();
    let p = params(&[("hostNames", &format!("foo,{},bar", this_hostname))]);
    assert!(evaluate_strategy(&unleash_api_client::strategy::hostname(Some(&p)), &c));
    let p = params(&[("hostNames", "foo,bar")]);
    assert!(!evaluate_strategy(&unleash_api_client::strategy::hostname(Some(&p)), &c));
}

#[test]
fn test_default_strategy_always_on() {
    let c: Context = Default::default();
    let s = unleash_api_client::strategy::default(None);
    assert!(evaluate_strategy(&s, &c));
    assert!(evaluate_strategy(&s, &user_ctx("anyone")));
}

#[test]
fn test_partial_rollout_edges() {
    let id = "user1".to_string();
    assert!(!partial_rollout("g", None, 100));
    assert!(!partial_rollout("g", Some(&id), 0));
    assert!(partial_rollout("g", Some(&id), 100));
}
