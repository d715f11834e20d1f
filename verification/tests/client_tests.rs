//! The client: snapshot rotation, string-keyed evaluation, variants and
//! the harvested metrics.
use unleash_api_client::api::{
    ClientFeature, ClientFeatures, Strategy, VariantDef, VariantOverride,
};
use unleash_api_client::client::{Client, ClientBuilder, PollEvent, Variant};
use unleash_api_client::context::Context;

fn strategy(name: &str, parameters: Option<Vec<(String, String)>>) -> Strategy {
    Strategy { name: name.to_string(), parameters, constraints: None }
}

fn feature(name: &str, enabled: bool, strategies: Option<Vec<Strategy>>) -> ClientFeature {
    ClientFeature { name: name.to_string(), enabled, strategies, variants: None }
}

fn features() -> ClientFeatures {
    ClientFeatures {
        version: 1,
        features: vec![
            feature("default", true, Some(vec![strategy("default", None)])),
            feature(
                "userWithId",
                true,
                Some(vec![strategy(
                    "userWithId",
                    Some(vec![("userIds".to_string(), "present".to_string())]),
                )]),
            ),
            feature(
                "userWithId+default",
                true,
                Some(vec![
                    strategy(
                        "userWithId",
                        Some(vec![("userIds".to_string(), "present".to_string())]),
                    ),
                    strategy("default", None),
                ]),
            ),
            feature("disabled", false, Some(vec![strategy("default", None)])),
            feature("nostrategies", true, Some(vec![])),
        ],
    }
}

fn make_client() -> Client {
    ClientBuilder::default().enable_string_features().into_client(
        "http://127.0.0.1:1234/",
        "foo",
        "test",
    )
}

#[test]
fn test_memoization_strs() {
    let f = features();
    let mut c = make_client();

    c.memoise(f, 0);
    let present: Context = Context { user_id: Some("present".into()), ..Default::default() };
    let missing: Context = Context { user_id: Some("missing".into()), ..Default::default() };
    // features unknown on the server should honour the default
    assert!(!c.is_enabled_str("unknown", None, false));
    assert!(c.is_enabled_str("unknown", None, true));
    // default should be enabled, no context needed
    assert!(c.is_enabled_str("default", None, false));
    // user present should be present on userWithId
    assert!(c.is_enabled_str("userWithId", Some(&present), false));
    // user missing should not
    assert!(!c.is_enabled_str("userWithId", Some(&missing), false));
    // user missing should be present on userWithId+default
    assert!(c.is_enabled_str("userWithId+default", Some(&missing), false));
    // disabled should be disabled
    assert!(!c.is_enabled_str("disabled", None, true));
    // no strategies should result in enabled features.
    assert!(c.is_enabled_str("nostrategies", None, false));
}

fn variant_def(name: &str, weight: u16, value: &str) -> VariantDef {
    VariantDef {
        name: name.to_string(),
        weight,
        payload: vec![
            ("type".to_string(), "string".to_string()),
            ("value".to_string(), value.to_string()),
        ],
        overrides: None,
    }
}

fn variant_features() -> ClientFeatures {
    ClientFeatures {
        version: 1,
        features: vec![
            ClientFeature {
                name: "disabled".into(),
                enabled: false,
                strategies: Some(vec![]),
                variants: None,
            },
            ClientFeature {
                name: "novariants".into(),
                enabled: true,
                strategies: Some(vec![strategy("default", None)]),
                variants: None,
            },
            ClientFeature {
                name: "one".into(),
                enabled: true,
                strategies: Some(vec![]),
                variants: Some(vec![variant_def("variantone", 100, "val1")]),
            },
            ClientFeature {
                name: "two".into(),
                enabled: true,
                strategies: Some(vec![]),
                variants: Some(vec![
                    variant_def("variantone", 50, "val1"),
                    variant_def("varianttwo", 50, "val2"),
                ]),
            },
            ClientFeature {
                name: "nostrategies".into(),
                enabled: true,
                strategies: Some(vec![]),
                variants: None,
            },
        ],
    }
}

#[test]
fn variants_str() {
    let f = variant_features();
    let mut c = make_client();

    c.memoise(f, 0);

    // disabled should be disabled
    let variant = Variant::disabled(false);
    assert_eq!(variant, c.get_variant_str("disabled", &Context::default()));

    // enabled no variants should get the disabled variant
    let variant = Variant::disabled(true);
    assert_eq!(variant, c.get_variant_str("novariants", &Context::default()));

    // One variant
    let variant = Variant {
        name: "variantone".to_string(),
        payload: vec![
            ("type".to_string(), "string".to_string()),
            ("value".to_string(), "val1".to_string()),
        ],
        enabled: true,
        feature_enabled: true,
    };
    assert_eq!(variant, c.get_variant_str("one", &Context::default()));

    // Two variants
    let uid1: Context = Context { user_id: Some("user1".into()), ..Default::default() };
    let session1: Context = Context { session_id: Some("session1".into()), ..Default::default() };
    let variant1 = Variant {
        name: "variantone".to_string(),
        payload: vec![
            ("type".to_string(), "string".to_string()),
            ("value".to_string(), "val1".to_string()),
        ],
        enabled: true,
        feature_enabled: true,
    };
    let variant2 = Variant {
        name: "varianttwo".to_string(),
        payload: vec![
            ("type".to_string(), "string".to_string()),
            ("value".to_string(), "val2".to_string()),
        ],
        enabled: true,
        feature_enabled: true,
    };
    assert_eq!(variant1, c.get_variant_str("two", &uid1));
    assert_eq!(variant2, c.get_variant_str("two", &session1));

    // the same identifier keeps picking the same variant
    for _ in 0..10 {
        assert_eq!(variant1, c.get_variant_str("two", &uid1));
        assert_eq!(variant2, c.get_variant_str("two", &session1));
    }
}

#[test]
fn test_variant_override_precedence() {
    let over = VariantOverride { context_name: "userId".into(), values: vec!["u7".into()] };
    let light = VariantDef {
        name: "light".into(),
        weight: 1,
        payload: vec![],
        overrides: Some(vec![over]),
    };
    let heavy = VariantDef { name: "heavy".into(), weight: 999, payload: vec![], overrides: None };
    let f = ClientFeatures {
        version: 1,
        features: vec![ClientFeature {
            name: "weighted".into(),
            enabled: true,
            strategies: Some(vec![]),
            variants: Some(vec![light, heavy]),
        }],
    };
    let mut c = make_client();
    c.memoise(f, 0);
    let u7: Context = Context { user_id: Some("u7".into()), ..Default::default() };
    let got = c.get_variant_str("weighted", &u7);
    assert_eq!(got.name, "light");
    assert!(got.enabled);
    assert!(got.feature_enabled);
}

#[test]
fn test_variant_distribution_and_no_sentinel() {
    let f = ClientFeatures {
        version: 1,
        features: vec![ClientFeature {
            name: "ab".into(),
            enabled: true,
            strategies: Some(vec![]),
            variants: Some(vec![
                VariantDef { name: "a".into(), weight: 50, payload: vec![], overrides: None },
                VariantDef { name: "b".into(), weight: 50, payload: vec![], overrides: None },
            ]),
        }],
    };
    let mut c = make_client();
    c.memoise(f, 0);
    let mut a_count = 0;
    let mut b_count = 0;
    for i in 0..200 {
        let ctx = Context { user_id: Some(format!("user{}", i)), ..Default::default() };
        let v = c.get_variant_str("ab", &ctx);
        // no identifier ever maps to the disabled sentinel
        assert!(v.enabled);
        assert!(v.feature_enabled);
        if v.name == "a" {
            a_count += 1;
        } else {
            assert_eq!(v.name, "b");
            b_count += 1;
        }
    }
    // the empirical split stays within loose binomial bounds
    assert!(a_count > 60, "a drew {a_count} of 200");
    assert!(b_count > 60, "b drew {b_count} of 200");
}

#[test]
fn test_counter_conservation_in_metrics() {
    let f = features();
    let mut c = make_client();
    c.memoise(f, 100);
    for _ in 0..7 {
        c.is_enabled_str("default", None, false);
    }
    for _ in 0..5 {
        c.is_enabled_str("disabled", None, true);
    }
    let metrics = c.memoise(features(), 200).expect("a retired snapshot must yield metrics");
    assert_eq!(metrics.bucket.start, 100);
    assert_eq!(metrics.bucket.stop, 200);
    let default_toggle = metrics
        .bucket
        .toggles
        .iter()
        .find(|t| t.name == "default")
        .expect("default toggle reported");
    assert_eq!(default_toggle.yes + default_toggle.no, 7);
    assert_eq!(default_toggle.yes, 7);
    let disabled_toggle = metrics
        .bucket
        .toggles
        .iter()
        .find(|t| t.name == "disabled")
        .expect("disabled toggle reported");
    assert_eq!(disabled_toggle.yes + disabled_toggle.no, 5);
    assert_eq!(disabled_toggle.no, 5);
}

#[test]
fn test_metrics_round_trip_names() {
    let f = features();
    let names: Vec<String> = f.features.iter().map(|w| w.name.clone()).collect();
    let mut c = make_client();
    c.memoise(f, 0);
    c.is_enabled_str("default", None, false);
    let metrics = c.memoise(features(), 1).expect("metrics after rotation");
    let reported: Vec<String> = metrics.bucket.toggles.iter().map(|t| t.name.clone()).collect();
    assert_eq!(names, reported);
}

#[test]
fn test_variant_metrics() {
    let f = variant_features();
    let mut c = make_client();
    c.memoise(f, 0);

    c.get_variant_str("disabled", &Context::default());
    c.get_variant_str("novariants", &Context::default());
    let session1: Context = Context { session_id: Some("session1".into()), ..Default::default() };
    let user_id1: Context = Context { user_id: Some("user_id1".into()), ..Default::default() };
    c.get_variant_str("two", &session1);
    c.get_variant_str("two", &user_id1);

    let metrics = c
        .memoise(variant_features(), 1)
        .expect("Really expected to see some metrics here");
    let count = |toggle: &str, variant: &str| -> u64 {
        metrics
            .bucket
            .toggles
            .iter()
            .find(|t| t.name == toggle)
            .and_then(|t| t.variants.iter().find(|v| v.0 == variant))
            .map(|v| v.1)
            .unwrap_or_else(|| panic!("Missing count for variant '{variant}' in toggle '{toggle}'"))
    };
    assert_eq!(count("novariants", "disabled"), 1);
    assert_eq!(count("disabled", "disabled"), 1);
    assert_eq!(count("two", "variantone"), 1);
    assert_eq!(count("two", "varianttwo"), 1);
}

#[test]
fn test_poll_cycle_decisions() {
    let mut c = make_client();
    // a failed fetch leaves everything untouched
    assert!(c.poll_cycle(PollEvent::FetchFailed, 5).is_none());
    assert!(c.cached_state().is_none());
    // the first catalogue rotates in with nothing to harvest
    assert!(c.poll_cycle(PollEvent::Features(features()), 10).is_none());
    assert!(c.cached_state().is_some());
    assert!(c.is_enabled_str("default", None, false));
    // the second rotation harvests the first snapshot
    let metrics = c.poll_cycle(PollEvent::Features(features()), 20);
    let m = metrics.expect("metrics from the retired snapshot");
    assert_eq!(m.bucket.start, 10);
    assert_eq!(m.bucket.stop, 20);
    // with submission disabled nothing comes back for posting
    let mut quiet = ClientBuilder::default().disable_metric_submission().into_client(
        "http://127.0.0.1:1234",
        "foo",
        "test",
    );
    assert!(quiet.poll_cycle(PollEvent::Features(features()), 1).is_none());
    assert!(quiet.poll_cycle(PollEvent::Features(features()), 2).is_none());
}

#[test]
fn test_register_payload() {
    let c = ClientBuilder::default()
        .interval(5000)
        .strategy("reversed")
        .into_client("http://127.0.0.1:1234", "foo", "test");
    let r = c.register_payload(42);
    assert_eq!(r.app_name, "foo");
    assert_eq!(r.instance_id, "test");
    assert_eq!(r.connection_id.len(), 36);
    assert_eq!(r.sdk_version, "unleash-client-rust:0.1.0");
    assert_eq!(r.strategies, vec!["reversed".to_string()]);
    assert_eq!(r.started, 42);
    assert_eq!(r.interval, 5000);
}
