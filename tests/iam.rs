use awspolicy::iam::{Action, ActionParseError};

#[test]
fn action_parts_rejoin() {
    let a = Action::parse("route53:GetChange").unwrap();
    assert_eq!(a.service(), "route53");
    assert_eq!(a.action(), "GetChange");
    assert_eq!(format!("{}:{}", a.service(), a.action()), "route53:GetChange");
}

#[test]
fn action_splits_at_first_colon() {
    let a = Action::parse("s3:Get:Object").unwrap();
    assert_eq!(a.service(), "s3");
    assert_eq!(a.action(), "Get:Object");
}

#[test]
fn action_without_colon_is_invalid() {
    assert_eq!(Action::parse("s3GetObject").unwrap_err(), ActionParseError::InvalidFormat);
}

#[test]
fn action_new_joins() {
    let a = Action::new("s3", "PutObject");
    assert_eq!(a.raw(), "s3:PutObject");
    assert_eq!(a.service(), "s3");
    assert_eq!(a.action(), "PutObject");
}
