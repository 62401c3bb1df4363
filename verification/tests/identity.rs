use ci_dispatch::identity::validate_identity;
use ci_dispatch::registry::DispatchError;

fn s(x: &str) -> String {
    x.to_string()
}

#[test]
fn accepts_complete_identity_with_right_secret() {
    let id = validate_identity(
        Some(s("build-7")),
        Some(s("worker-3")),
        Some(s("SECRET-REDACTED")),
        &s("SECRET-REDACTED"),
    )
    .unwrap();
    assert_eq!(id.build_id, s("build-7"));
    assert_eq!(id.instance_id, s("worker-3"));
}

#[test]
fn rejects_missing_values() {
    let secret = s("tok");
    assert!(matches!(
        validate_identity(None, Some(s("i")), Some(s("tok")), &secret),
        Err(DispatchError::InvalidRequest)
    ));
    assert!(matches!(
        validate_identity(Some(s("b")), None, Some(s("tok")), &secret),
        Err(DispatchError::InvalidRequest)
    ));
    assert!(matches!(
        validate_identity(Some(s("b")), Some(s("i")), None, &secret),
        Err(DispatchError::InvalidRequest)
    ));
}

#[test]
fn rejects_empty_values() {
    let secret = s("tok");
    assert!(matches!(
        validate_identity(Some(s("")), Some(s("i")), Some(s("tok")), &secret),
        Err(DispatchError::InvalidRequest)
    ));
    assert!(matches!(
        validate_identity(Some(s("b")), Some(s("")), Some(s("tok")), &secret),
        Err(DispatchError::InvalidRequest)
    ));
    assert!(matches!(
        validate_identity(Some(s("b")), Some(s("i")), Some(s("")), &s("")),
        Err(DispatchError::InvalidRequest)
    ));
}

#[test]
fn rejects_wrong_credential() {
    assert!(matches!(
        validate_identity(Some(s("b")), Some(s("i")), Some(s("wrong")), &s("right")),
        Err(DispatchError::InvalidRequest)
    ));
}
