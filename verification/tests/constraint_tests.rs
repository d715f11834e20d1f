//! Constraint semantics: membership, string, numeric, semver and date
//! operators, inversion and case folding, gating the default strategy.
use unleash_api_client::api::{Constraint, ConstraintExpression};
use unleash_api_client::context::{Context, IPAddress};
use unleash_api_client::strategy::{constrain, evaluate_constrained};
use unleash_api_client::vercmp::Version;

fn default_constraint() -> Constraint {
    Constraint {
        context_name: "".into(),
        case_insensitive: false,
        inverted: false,
        expression: ConstraintExpression::In { values: vec![] },
    }
}

fn check(constraints: Option<Vec<Constraint>>, context: &Context) -> bool {
    let gated = constrain(constraints, unleash_api_client::strategy::default(None));
    evaluate_constrained(&gated, context)
}

fn strs(values: &[&str]) -> Vec<String> {
    values.iter().map(|v| v.to_string()).collect()
}

fn parse_ip(addr: &str) -> Option<IPAddress> {
    IPAddress::parse(addr)
}

#[test]
fn test_constrain_general() {
    // Without constraints, things should just pass through
    let context = Context::default();
    assert!(check(None, &context));

    // An empty constraint list acts like a missing one
    let context = Context::default();
    assert!(check(Some(vec![]), &context));
}

#[test]
fn test_constrain_with_in_constraints() {
    // An empty constraint gets disabled
    let context = Context { environment: "development".into(), ..Default::default() };
    assert!(!check(
        Some(vec![Constraint {
            context_name: "".into(),
            expression: ConstraintExpression::In { values: vec![] },
            ..default_constraint()
        }]),
        &context
    ));

    // A missing field in context for NotIn delegates
    let context = Context::default();
    assert!(check(
        Some(vec![Constraint {
            context_name: "customFieldMissing".into(),
            expression: ConstraintExpression::NotIn { values: strs(&["s1"]) },
            ..default_constraint()
        }]),
        &context
    ));

    // A mismatched constraint acts like an empty constraint
    let context = Context { environment: "production".into(), ..Default::default() };
    assert!(!check(
        Some(vec![Constraint {
            context_name: "environment".into(),
            expression: ConstraintExpression::In { values: strs(&["development"]) },
            ..default_constraint()
        }]),
        &context
    ));

    // a matched Not In acts like an empty constraint
    let context = Context { environment: "development".into(), ..Default::default() };
    assert!(!check(
        Some(vec![Constraint {
            context_name: "environment".into(),
            expression: ConstraintExpression::NotIn { values: strs(&["development"]) },
            ..default_constraint()
        }]),
        &context
    ));

    // a matched In delegates
    let context = Context { environment: "development".into(), ..Default::default() };
    assert!(check(
        Some(vec![Constraint {
            context_name: "environment".into(),
            expression: ConstraintExpression::In { values: strs(&["development"]) },
            ..default_constraint()
        }]),
        &context
    ));

    // inverted
    assert!(!check(
        Some(vec![Constraint {
            context_name: "environment".into(),
            expression: ConstraintExpression::In { values: strs(&["development"]) },
            inverted: true,
            ..default_constraint()
        }]),
        &context
    ));

    // second place
    let context = Context { environment: "development".into(), ..Default::default() };
    assert!(check(
        Some(vec![Constraint {
            context_name: "environment".into(),
            expression: ConstraintExpression::In { values: strs(&["staging", "development"]) },
            ..default_constraint()
        }]),
        &context
    ));

    // a not matched Not In across 1st and second etc delegates
    let context = Context { environment: "production".into(), ..Default::default() };
    assert!(check(
        Some(vec![Constraint {
            context_name: "environment".into(),
            expression: ConstraintExpression::NotIn { values: strs(&["staging", "development"]) },
            ..default_constraint()
        }]),
        &context
    ));

    // inverted
    assert!(!check(
        Some(vec![Constraint {
            context_name: "environment".into(),
            expression: ConstraintExpression::NotIn { values: strs(&["staging", "development"]) },
            inverted: true,
            ..default_constraint()
        }]),
        &context
    ));

    // .user_id
    let context = Context { user_id: Some("fred".into()), ..Default::default() };
    assert!(check(
        Some(vec![Constraint {
            context_name: "userId".into(),
            expression: ConstraintExpression::In { values: strs(&["fred"]) },
            ..default_constraint()
        }]),
        &context
    ));

    // .session_id
    let context = Context { session_id: Some("qwerty".into()), ..Default::default() };
    assert!(check(
        Some(vec![Constraint {
            context_name: "sessionId".into(),
            expression: ConstraintExpression::In { values: strs(&["qwerty"]) },
            ..default_constraint()
        }]),
        &context
    ));

    // .remote_address
    let context = Context { remote_address: parse_ip("10.20.30.40"), ..Default::default() };
    assert!(check(
        Some(vec![Constraint {
            context_name: "remoteAddress".into(),
            expression: ConstraintExpression::In { values: strs(&["10.0.0.0/8"]) },
            ..default_constraint()
        }]),
        &context
    ));
    let context = Context { remote_address: parse_ip("1.2.3.4"), ..Default::default() };
    assert!(check(
        Some(vec![Constraint {
            context_name: "remoteAddress".into(),
            expression: ConstraintExpression::NotIn { values: strs(&["10.0.0.0/8"]) },
            ..default_constraint()
        }]),
        &context
    ));

    // multiple constraints are ANDed together
    let context = Context { environment: "development".into(), ..Default::default() };
    assert!(check(
        Some(vec![
            Constraint {
                context_name: "environment".into(),
                expression: ConstraintExpression::In { values: strs(&["development"]) },
                ..default_constraint()
            },
            Constraint {
                context_name: "environment".into(),
                expression: ConstraintExpression::In { values: strs(&["development"]) },
                ..default_constraint()
            },
        ]),
        &context
    ));

    assert!(!check(
        Some(vec![
            Constraint {
                context_name: "environment".into(),
                expression: ConstraintExpression::In { values: strs(&["development"]) },
                ..default_constraint()
            },
            Constraint {
                context_name: "environment".into(),
                expression: ConstraintExpression::In { values: vec![] },
                ..default_constraint()
            },
        ]),
        &context
    ));
}

#[test]
fn test_constrain_with_str_constraints() {
    let context = Context { app_name: "gondola".into(), ..Default::default() };

    // contains
    assert!(check(
        Some(vec![Constraint {
            context_name: "appName".into(),
            expression: ConstraintExpression::StrContains { values: strs(&["ondo", "gigabad"]) },
            ..default_constraint()
        }]),
        &context
    ));

    assert!(!check(
        Some(vec![Constraint {
            context_name: "appName".into(),
            expression: ConstraintExpression::StrContains { values: strs(&["Ondo", "gigabad"]) },
            ..default_constraint()
        }]),
        &context
    ));

    // inverted
    assert!(check(
        Some(vec![Constraint {
            context_name: "appName".into(),
            expression: ConstraintExpression::StrContains { values: strs(&["Ondo", "gigabad"]) },
            inverted: true,
            ..default_constraint()
        }]),
        &context
    ));

    // case insensitive
    assert!(check(
        Some(vec![Constraint {
            context_name: "appName".into(),
            expression: ConstraintExpression::StrContains { values: strs(&["Ondo", "gigabad"]) },
            case_insensitive: true,
            ..default_constraint()
        }]),
        &context
    ));

    assert!(check(
        Some(vec![Constraint {
            context_name: "appName".into(),
            expression: ConstraintExpression::StrStartsWith { values: strs(&["and", "gon"]) },
            ..default_constraint()
        }]),
        &context
    ));

    assert!(!check(
        Some(vec![Constraint {
            context_name: "appName".into(),
            expression: ConstraintExpression::StrStartsWith { values: strs(&["and", "Gon"]) },
            ..default_constraint()
        }]),
        &context
    ));

    // inverted
    assert!(check(
        Some(vec![Constraint {
            context_name: "appName".into(),
            expression: ConstraintExpression::StrStartsWith { values: strs(&["and", "Gon"]) },
            inverted: true,
            ..default_constraint()
        }]),
        &context
    ));

    // case insensitive
    assert!(check(
        Some(vec![Constraint {
            context_name: "appName".into(),
            expression: ConstraintExpression::StrStartsWith { values: strs(&["and", "Gon"]) },
            case_insensitive: true,
            ..default_constraint()
        }]),
        &context
    ));

    assert!(check(
        Some(vec![Constraint {
            context_name: "appName".into(),
            expression: ConstraintExpression::StrEndsWith { values: strs(&["ola", "oga"]) },
            ..default_constraint()
        }]),
        &context
    ));

    assert!(!check(
        Some(vec![Constraint {
            context_name: "appName".into(),
            expression: ConstraintExpression::StrEndsWith { values: strs(&["Ola", "Oga"]) },
            ..default_constraint()
        }]),
        &context
    ));

    // inverted
    assert!(check(
        Some(vec![Constraint {
            context_name: "appName".into(),
            expression: ConstraintExpression::StrEndsWith { values: strs(&["Ola", "Oga"]) },
            inverted: true,
            ..default_constraint()
        }]),
        &context
    ));

    // case insensitive
    assert!(check(
        Some(vec![Constraint {
            context_name: "appName".into(),
            expression: ConstraintExpression::StrEndsWith { values: strs(&["Ola", "Oga"]) },
            case_insensitive: true,
            ..default_constraint()
        }]),
        &context
    ));
}

#[test]
fn test_constrain_with_num_constraints() {
    let context = Context {
        properties: vec![("times".to_string(), "30".to_string())],
        ..Default::default()
    };

    assert!(check(
        Some(vec![Constraint {
            context_name: "times".into(),
            expression: ConstraintExpression::NumEq { value: "30".into() },
            ..default_constraint()
        }]),
        &context
    ));

    assert!(check(
        Some(vec![Constraint {
            context_name: "times".into(),
            expression: ConstraintExpression::NumLT { value: "31".into() },
            ..default_constraint()
        }]),
        &context
    ));

    assert!(check(
        Some(vec![Constraint {
            context_name: "times".into(),
            expression: ConstraintExpression::NumLTE { value: "40".into() },
            ..default_constraint()
        }]),
        &context
    ));

    assert!(check(
        Some(vec![Constraint {
            context_name: "times".into(),
            expression: ConstraintExpression::NumGT { value: "29".into() },
            ..default_constraint()
        }]),
        &context
    ));

    assert!(check(
        Some(vec![Constraint {
            context_name: "times".into(),
            expression: ConstraintExpression::NumGTE { value: "30".into() },
            ..default_constraint()
        }]),
        &context
    ));

    // inverted
    assert!(!check(
        Some(vec![Constraint {
            context_name: "times".into(),
            expression: ConstraintExpression::NumEq { value: "30".into() },
            inverted: true,
            ..default_constraint()
        }]),
        &context
    ));

    assert!(!check(
        Some(vec![Constraint {
            context_name: "times".into(),
            expression: ConstraintExpression::NumLT { value: "31".into() },
            inverted: true,
            ..default_constraint()
        }]),
        &context
    ));

    assert!(!check(
        Some(vec![Constraint {
            context_name: "times".into(),
            expression: ConstraintExpression::NumLTE { value: "40".into() },
            inverted: true,
            ..default_constraint()
        }]),
        &context
    ));

    assert!(!check(
        Some(vec![Constraint {
            context_name: "times".into(),
            expression: ConstraintExpression::NumGT { value: "29".into() },
            inverted: true,
            ..default_constraint()
        }]),
        &context
    ));

    assert!(!check(
        Some(vec![Constraint {
            context_name: "times".into(),
            expression: ConstraintExpression::NumGTE { value: "30".into() },
            inverted: true,
            ..default_constraint()
        }]),
        &context
    ));
}

#[test]
fn test_constrain_with_num_decimals_and_signs() {
    let context = Context {
        properties: vec![("load".to_string(), "2.5".to_string())],
        ..Default::default()
    };
    assert!(check(
        Some(vec![Constraint {
            context_name: "load".into(),
            expression: ConstraintExpression::NumEq { value: "2.50".into() },
            ..default_constraint()
        }]),
        &context
    ));
    assert!(check(
        Some(vec![Constraint {
            context_name: "load".into(),
            expression: ConstraintExpression::NumGT { value: "-3".into() },
            ..default_constraint()
        }]),
        &context
    ));
    assert!(check(
        Some(vec![Constraint {
            context_name: "load".into(),
            expression: ConstraintExpression::NumLT { value: "25e-1000".into() },
            inverted: true,
            ..default_constraint()
        }]),
        &context
    ));
}

#[test]
fn test_constrain_with_semver_constraints() {
    let context = Context {
        properties: vec![("version".to_string(), "1.2.3-rc.2".to_string())],
        ..Default::default()
    };
    assert!(check(
        Some(vec![Constraint {
            context_name: "version".into(),
            expression: ConstraintExpression::SemverLT { value: Version::parse("1.2.3").unwrap() },
            ..default_constraint()
        }]),
        &context
    ));

    assert!(check(
        Some(vec![Constraint {
            context_name: "version".into(),
            expression: ConstraintExpression::SemverGT { value: Version::parse("1.2.2").unwrap() },
            ..default_constraint()
        }]),
        &context
    ));

    assert!(check(
        Some(vec![Constraint {
            context_name: "version".into(),
            expression: ConstraintExpression::SemverEq {
                value: Version::parse("1.2.3-rc.2").unwrap(),
            },
            ..default_constraint()
        }]),
        &context
    ));

    let context = Context {
        properties: vec![("app_version".to_string(), "1.0.0-alpha.1".to_string())],
        ..Default::default()
    };

    assert!(!check(
        Some(vec![Constraint {
            context_name: "app_version".into(),
            expression: ConstraintExpression::SemverLT {
                value: Version::parse("0.155.0").unwrap(),
            },
            ..default_constraint()
        }]),
        &context
    ));

    // inverted
    assert!(check(
        Some(vec![Constraint {
            context_name: "app_version".into(),
            expression: ConstraintExpression::SemverLT {
                value: Version::parse("0.155.0").unwrap(),
            },
            inverted: true,
            ..default_constraint()
        }]),
        &context
    ));

    assert!(!check(
        Some(vec![Constraint {
            context_name: "app_version".into(),
            expression: ConstraintExpression::SemverGT {
                value: Version::parse("1.0.0-beta.1").unwrap(),
            },
            ..default_constraint()
        }]),
        &context
    ));

    // inverted
    assert!(check(
        Some(vec![Constraint {
            context_name: "app_version".into(),
            expression: ConstraintExpression::SemverGT {
                value: Version::parse("1.0.0-beta.1").unwrap(),
            },
            inverted: true,
            ..default_constraint()
        }]),
        &context
    ));

    assert!(!check(
        Some(vec![Constraint {
            context_name: "app_version".into(),
            expression: ConstraintExpression::SemverEq {
                value: Version::parse("1.0.0-beta.10").unwrap(),
            },
            ..default_constraint()
        }]),
        &context
    ));

    // inverted
    assert!(check(
        Some(vec![Constraint {
            context_name: "app_version".into(),
            expression: ConstraintExpression::SemverEq {
                value: Version::parse("1.0.0-beta.10").unwrap(),
            },
            inverted: true,
            ..default_constraint()
        }]),
        &context
    ));
}

#[test]
fn test_constrain_with_date_constraints() {
    let now = chrono::Utc::now().timestamp_millis();
    let context = Context { current_time: Some(now), ..Default::default() };
    assert!(!check(
        Some(vec![Constraint {
            context_name: "currentTime".into(),
            expression: ConstraintExpression::DateBefore { value: now - 30000 },
            ..default_constraint()
        }]),
        &context
    ));

    assert!(check(
        Some(vec![Constraint {
            context_name: "currentTime".into(),
            expression: ConstraintExpression::DateAfter { value: now - 30000 },
            ..default_constraint()
        }]),
        &context
    ));

    // inverted
    assert!(!check(
        Some(vec![Constraint {
            context_name: "currentTime".into(),
            expression: ConstraintExpression::DateAfter { value: now - 30000 },
            inverted: true,
            ..default_constraint()
        }]),
        &context
    ));

    let parsed = chrono::DateTime::parse_from_rfc3339("2024-07-18T17:18:25.844Z")
        .unwrap()
        .timestamp_millis();
    let context = Context { current_time: Some(parsed), ..Default::default() };

    assert!(check(
        Some(vec![Constraint {
            context_name: "currentTime".into(),
            expression: ConstraintExpression::DateBefore { value: now },
            ..default_constraint()
        }]),
        &context
    ));

    // inverted
    assert!(!check(
        Some(vec![Constraint {
            context_name: "currentTime".into(),
            expression: ConstraintExpression::DateBefore { value: now },
            inverted: true,
            ..default_constraint()
        }]),
        &context
    ));

    assert!(!check(
        Some(vec![Constraint {
            context_name: "currentTime".into(),
            expression: ConstraintExpression::DateAfter { value: now },
            ..default_constraint()
        }]),
        &context
    ));

    // date comparison only works for currentTime
    assert!(!check(
        Some(vec![Constraint {
            context_name: "environment".into(),
            expression: ConstraintExpression::DateBefore { value: now },
            ..default_constraint()
        }]),
        &context
    ));
}

#[test]
fn test_unknown_operator_is_always_false() {
    let context = Context { environment: "development".into(), ..Default::default() };
    assert!(!check(
        Some(vec![Constraint {
            context_name: "environment".into(),
            expression: ConstraintExpression::Unknown,
            ..default_constraint()
        }]),
        &context
    ));
    assert!(check(
        Some(vec![Constraint {
            context_name: "environment".into(),
            expression: ConstraintExpression::Unknown,
            inverted: true,
            ..default_constraint()
        }]),
        &context
    ));
}
