use awspolicy::arn::{ARNParseError, ARN};

#[test]
fn parse_fully_specified() {
    let result: ARN = "arn:aws:iam:us-east-1:123456789012:user/Username"
        .parse().expect("The input should have parsed successfully");
    assert_eq!(result.service(), "iam");
    assert_eq!(result.region(), "us-east-1");
    assert_eq!(result.account(), "123456789012");
    assert_eq!(result.resource(), "user/Username");
}

#[test]
fn parse_empty_portions() {
    let result: ARN = "arn:aws:s3:::BUCKET-NAME"
        .parse().expect("The input should have parsed successfully");
    assert_eq!(result.service(), "s3");
    assert!(result.region().is_empty());
    assert!(result.account().is_empty());
    assert_eq!(result.resource(), "BUCKET-NAME");
}

#[test]
fn parse_with_globs() {
    let result: ARN = "arn:aws:iam:*:123456789012:user/Username"
        .parse().expect("The input should have parsed successfully");
    assert_eq!(result.service(), "iam");
    assert_eq!(result.region(), "*");
    assert_eq!(result.account(), "123456789012");
    assert_eq!(result.resource(), "user/Username");
}

#[test]
fn parse_with_resource_colons() {
    let result: ARN = "arn:aws:s3:::BUCKET-NAME/home/${aws:username}"
        .parse().expect("The input should have parsed successfully");
    assert_eq!(result.service(), "s3");
    assert!(result.region().is_empty());
    assert!(result.account().is_empty());
    assert_eq!(result.resource(), "BUCKET-NAME/home/${aws:username}");
}

#[test]
fn arn_raw_round_trips() {
    let text = "arn:aws:s3:::BUCKET/home/${aws:username}";
    let arn = ARN::parse(text).unwrap();
    assert_eq!(arn.raw(), text);
}

#[test]
fn arn_missing_prefix() {
    assert_eq!(ARN::parse("aws:s3:::bucket").unwrap_err(), ARNParseError::MissingPrefix);
    assert_eq!(ARN::parse("").unwrap_err(), ARNParseError::MissingPrefix);
}

#[test]
fn arn_too_few_colons() {
    assert_eq!(ARN::parse("arn:aws:s3::bucket").unwrap_err(), ARNParseError::InvalidFormat);
}

#[test]
fn arn_new_builds_parts() {
    let arn = ARN::new("iam", "", "123456789012", "user/Bob");
    assert_eq!(arn.raw(), "arn:aws:iam::123456789012:user/Bob");
    assert_eq!(arn.service(), "iam");
    assert_eq!(arn.region(), "");
    assert_eq!(arn.account(), "123456789012");
    assert_eq!(arn.resource(), "user/Bob");
}

#[test]
fn arn_equality_is_raw() {
    let a = ARN::parse("arn:aws:s3:::x").unwrap();
    let b = ARN::new("s3", "", "", "x");
    assert!(a == b);
    assert!(a != ARN::parse("arn:aws:s3:::y").unwrap());
}
