use awspolicy::condition::ConditionError;
use awspolicy::nullable::Nullable;
use awspolicy::operator::Operator;

#[test]
fn expect_is_required() {
    let op = Nullable::Expect(Operator::StringEquals);
    assert!(! op.matches(None, "target").unwrap());
}

#[test]
fn expect_evaluates_operator() {
    let op = Nullable::Expect(Operator::StringEquals);
    assert!(op.matches(Some("target"), "target").unwrap());
    assert!(! op.matches(Some("other"), "target").unwrap());
}

#[test]
fn if_exists_is_optional() {
    let op = Nullable::IfExists(Operator::StringEquals);
    assert!(op.matches(None, "target").unwrap());
}

#[test]
fn if_exists_evaluates_operator() {
    let op = Nullable::IfExists(Operator::StringEquals);
    assert!(op.matches(Some("target"), "target").unwrap());
    assert!(! op.matches(Some("other"), "target").unwrap());
}

#[test]
fn is_null_checks_existence() {
    let op = Nullable::IsNull;
    assert!(op.matches(None, "true").unwrap());
    assert!(op.matches(Some("value"), "false").unwrap());
    assert!(! op.matches(None, "false").unwrap());
    assert!(! op.matches(Some("value"), "true").unwrap());
}

#[test]
fn is_null_rejects_other_targets() {
    let op = Nullable::IsNull;
    assert_eq!(op.matches(None, "maybe").unwrap_err(), ConditionError::TypeMismatch);
}
