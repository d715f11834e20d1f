//! Endpoint construction and the registration payload.
use unleash_api_client::api::{features_endpoint, Metrics, Registration};

#[test]
fn test_endpoints_handle_trailing_slashes() {
    assert_eq!(
        Registration::endpoint("https://localhost:4242/api"),
        "https://localhost:4242/api/client/register"
    );
    assert_eq!(
        Registration::endpoint("https://localhost:4242/api/"),
        "https://localhost:4242/api/client/register"
    );

    assert_eq!(
        features_endpoint("https://localhost:4242/api"),
        "https://localhost:4242/api/client/features"
    );
    assert_eq!(
        features_endpoint("https://localhost:4242/api/"),
        "https://localhost:4242/api/client/features"
    );

    assert_eq!(
        Metrics::endpoint("https://localhost:4242/api"),
        "https://localhost:4242/api/client/metrics"
    );
    assert_eq!(
        Metrics::endpoint("https://localhost:4242/api/"),
        "https://localhost:4242/api/client/metrics"
    );
}

#[test]
fn test_registration_customisation() {
    Registration {
        app_name: "test-suite".into(),
        instance_id: "test".into(),
        connection_id: "test".into(),
        strategies: vec!["default".into()],
        interval: 5000,
        ..Default::default()
    };
}

#[test]
fn test_get_sdk_version_with_version_set() {
    let version_output = unleash_api_client::version::get_sdk_version();
    let (name, semver) = version_output
        .split_once(':')
        .expect("version string must hold a colon");
    assert_eq!(name, "unleash-client-rust");
    let parts: Vec<&str> = semver.split('.').collect();
    assert_eq!(parts.len(), 3);
    for part in parts {
        assert!(!part.is_empty());
        assert!(part.chars().all(|c| c.is_ascii_digit()));
    }
}
