use awspolicy::arn::ARN;
use awspolicy::condition::ConditionError;
use awspolicy::context::Context;
use awspolicy::iam::{Action, Principal};
use awspolicy::json::Json;
use awspolicy::operator::Operator;
use awspolicy::parse::{decode_condition_key, PolicyParseError};
use awspolicy::quantifier::Quantifier;
use awspolicy::policy::{combine, Policy};
use awspolicy::statement::{CheckResult, PrincipalClause, Statement};

fn s(x: &str) -> Json {
    Json::Str(x.to_string())
}

fn arr(items: &[&str]) -> Json {
    Json::Array(items.iter().map(|x| s(x)).collect())
}

fn obj(fields: Vec<(&str, Json)>) -> Json {
    Json::Object(fields.into_iter().map(|(k, v)| (k.to_string(), v)).collect())
}

fn policy(statements: Json) -> Policy {
    Policy::from_json(&obj(vec![("Version", s("2012-10-17")), ("Statement", statements)])).unwrap()
}

fn action(x: &str) -> Action {
    Action::parse(x).unwrap()
}

fn arn(x: &str) -> ARN {
    ARN::parse(x).unwrap()
}

fn context_with_global(key: &str, values: &[&str]) -> Context {
    Context::from_json(&obj(vec![("global", obj(vec![(key, arr(values))]))])).unwrap()
}

fn route53_change_policy() -> Policy {
    policy(obj(vec![
        ("Effect", s("Allow")),
        ("Action", s("route53:GetChange")),
        ("Resource", s("arn:aws:route53:::change/*")),
    ]))
}

#[test]
fn allow_matches() {
    let p = route53_change_policy();
    let r = p.check_action(&action("route53:GetChange"), &arn("arn:aws:route53:::change/Foo"), &Context::new());
    assert_eq!(r.unwrap(), CheckResult::Allow);
}

#[test]
fn unspecified_on_resource_mismatch() {
    let p = route53_change_policy();
    let r = p.check_action(&action("route53:GetChange"), &arn("arn:aws:route53:::hostedzone/Z1"), &Context::new());
    assert_eq!(r.unwrap(), CheckResult::Unspecified);
}

#[test]
fn wildcard_resource() {
    let p = policy(obj(vec![
        ("Effect", s("Allow")),
        ("Action", arr(&["route53:ListHostedZones", "route53:ListHostedZonesByName"])),
        ("Resource", s("*")),
    ]));
    for resource in ["arn:aws:route53:::hostedzone/Z1", "arn:aws:s3:::anything"] {
        let r = p.check_action(&action("route53:ListHostedZones"), &arn(resource), &Context::new());
        assert_eq!(r.unwrap(), CheckResult::Allow);
    }
}

#[test]
fn deny_overrides_allow() {
    let p = policy(Json::Array(vec![
        obj(vec![("Effect", s("Allow")), ("Action", s("*:*")), ("Resource", s("*"))]),
        obj(vec![("Effect", s("Deny")), ("Action", s("s3:DeleteBucket")), ("Resource", s("arn:aws:s3:::sensitive"))]),
    ]));
    let bucket = arn("arn:aws:s3:::sensitive");
    assert_eq!(p.check_action(&action("s3:DeleteBucket"), &bucket, &Context::new()).unwrap(), CheckResult::Deny);
    assert_eq!(p.check_action(&action("s3:GetObject"), &bucket, &Context::new()).unwrap(), CheckResult::Allow);
}

#[test]
fn condition_gates_allow() {
    let p = policy(obj(vec![
        ("Effect", s("Allow")),
        ("Action", s("*")),
        ("Resource", s("*")),
        ("Condition", obj(vec![("StringEquals", obj(vec![("aws:PrincipalTag/team", s("infra"))]))])),
    ]));
    let a = action("ec2:RunInstances");
    let r = arn("arn:aws:ec2:us-east-1:123456789012:instance/i-1");
    let infra = context_with_global("aws:PrincipalTag/team", &["infra"]);
    assert_eq!(p.check_action(&a, &r, &infra).unwrap(), CheckResult::Allow);
    let sre = context_with_global("aws:PrincipalTag/team", &["sre"]);
    assert_eq!(p.check_action(&a, &r, &sre).unwrap(), CheckResult::Unspecified);
    assert_eq!(p.check_action(&a, &r, &Context::new()).unwrap(), CheckResult::Unspecified);
}

#[test]
fn if_exists_succeeds_when_key_absent() {
    let p = policy(obj(vec![
        ("Effect", s("Allow")),
        ("Action", s("*")),
        ("Resource", s("*")),
        ("Condition", obj(vec![("StringEqualsIfExists", obj(vec![("aws:PrincipalTag/team", s("infra"))]))])),
    ]));
    let a = action("s3:GetObject");
    let r = arn("arn:aws:s3:::bucket/key");
    assert_eq!(p.check_action(&a, &r, &Context::new()).unwrap(), CheckResult::Allow);
    let sre = context_with_global("aws:PrincipalTag/team", &["sre"]);
    assert_eq!(p.check_action(&a, &r, &sre).unwrap(), CheckResult::Unspecified);
}

#[test]
fn null_with_true_target_requires_absence() {
    let p = policy(obj(vec![
        ("Effect", s("Allow")),
        ("Action", s("*")),
        ("Resource", s("*")),
        ("Condition", obj(vec![("Null", obj(vec![("aws:MultiFactorAuthPresent", s("true"))]))])),
    ]));
    let a = action("s3:GetObject");
    let r = arn("arn:aws:s3:::bucket/key");
    assert_eq!(p.check_action(&a, &r, &Context::new()).unwrap(), CheckResult::Allow);
    let present = context_with_global("aws:MultiFactorAuthPresent", &["true"]);
    assert_eq!(p.check_action(&a, &r, &present).unwrap(), CheckResult::Unspecified);
}

#[test]
fn resource_values_override_globals() {
    let p = policy(obj(vec![
        ("Effect", s("Allow")),
        ("Action", s("*")),
        ("Resource", s("*")),
        ("Condition", obj(vec![("StringEquals", obj(vec![("team", s("infra"))]))])),
    ]));
    let ctx = Context::from_json(&obj(vec![
        ("global", obj(vec![("team", s("sre"))])),
        ("resources", obj(vec![("arn:aws:s3:::special", obj(vec![("team", arr(&["infra"]))]))])),
    ])).unwrap();
    let a = action("s3:GetObject");
    assert_eq!(p.check_action(&a, &arn("arn:aws:s3:::special"), &ctx).unwrap(), CheckResult::Allow);
    assert_eq!(p.check_action(&a, &arn("arn:aws:s3:::other"), &ctx).unwrap(), CheckResult::Unspecified);
}

#[test]
fn condition_error_is_returned() {
    let p = policy(Json::Array(vec![
        obj(vec![
            ("Effect", s("Allow")),
            ("Action", s("*")),
            ("Resource", s("*")),
            ("Condition", obj(vec![("NumericLessThan", obj(vec![("n", s("10"))]))])),
        ]),
    ]));
    let ctx = context_with_global("n", &["ten"]);
    let r = p.check_action(&action("s3:GetObject"), &arn("arn:aws:s3:::b"), &ctx);
    assert_eq!(r.unwrap_err(), ConditionError::TypeMismatch);
}

#[test]
fn not_action_and_not_resource() {
    let p = policy(obj(vec![
        ("Effect", s("Deny")),
        ("NotAction", s("s3:Get*")),
        ("NotResource", s("arn:aws:s3:::public/*")),
    ]));
    let private = arn("arn:aws:s3:::private/x");
    let public = arn("arn:aws:s3:::public/x");
    assert_eq!(p.check_action(&action("s3:PutObject"), &private, &Context::new()).unwrap(), CheckResult::Deny);
    assert_eq!(p.check_action(&action("s3:GetObject"), &private, &Context::new()).unwrap(), CheckResult::Unspecified);
    assert_eq!(p.check_action(&action("s3:PutObject"), &public, &Context::new()).unwrap(), CheckResult::Unspecified);
}

#[test]
fn principal_gate() {
    let p = policy(obj(vec![
        ("Effect", s("Allow")),
        ("Principal", obj(vec![("AWS", arr(&["123456789012", "arn:aws:iam::*:user/Alice"])), ("Service", s("ec2.amazonaws.com"))])),
        ("Action", s("sts:AssumeRole")),
        ("Resource", s("*")),
    ]));
    let a = action("sts:AssumeRole");
    let r = arn("arn:aws:iam::123456789012:role/R");
    let root = Principal::AWS(arn("arn:aws:iam::123456789012:root"));
    let alice = Principal::AWS(arn("arn:aws:iam::999999999999:user/Alice"));
    let bob = Principal::AWS(arn("arn:aws:iam::999999999999:user/Bob"));
    let ec2 = Principal::Service("ec2.amazonaws.com".to_string());
    let fed = Principal::Federated("ec2.amazonaws.com".to_string());
    let ctx = Context::new();
    assert_eq!(p.check(&root, &a, &r, &ctx).unwrap(), CheckResult::Allow);
    assert_eq!(p.check(&alice, &a, &r, &ctx).unwrap(), CheckResult::Allow);
    assert_eq!(p.check(&bob, &a, &r, &ctx).unwrap(), CheckResult::Unspecified);
    assert_eq!(p.check(&ec2, &a, &r, &ctx).unwrap(), CheckResult::Allow);
    assert_eq!(p.check(&fed, &a, &r, &ctx).unwrap(), CheckResult::Unspecified);
}

#[test]
fn principal_star_forms() {
    let any = policy(obj(vec![("Effect", s("Allow")), ("Principal", s("*")), ("Action", s("*")), ("Resource", s("*"))]));
    let aws_any = policy(obj(vec![("Effect", s("Allow")), ("Principal", obj(vec![("AWS", s("*"))])), ("Action", s("*")), ("Resource", s("*"))]));
    let a = action("s3:GetObject");
    let r = arn("arn:aws:s3:::b");
    let svc = Principal::CanonicalUser("abc".to_string());
    let user = Principal::AWS(arn("arn:aws:iam::1:user/x"));
    let ctx = Context::new();
    assert_eq!(any.check(&svc, &a, &r, &ctx).unwrap(), CheckResult::Allow);
    assert_eq!(aws_any.check(&svc, &a, &r, &ctx).unwrap(), CheckResult::Unspecified);
    assert_eq!(aws_any.check(&user, &a, &r, &ctx).unwrap(), CheckResult::Allow);
}

#[test]
fn evaluation_is_repeatable() {
    let p = route53_change_policy();
    let a = action("route53:GetChange");
    let r = arn("arn:aws:route53:::change/Foo");
    let ctx = Context::new();
    let first = p.check_action(&a, &r, &ctx).unwrap();
    let second = p.check_action(&a, &r, &ctx).unwrap();
    assert_eq!(first, second);
}

#[test]
fn combine_lattice_values() {
    for x in [CheckResult::Allow, CheckResult::Deny, CheckResult::Unspecified] {
        assert_eq!(combine(CheckResult::Deny, x), CheckResult::Deny);
        assert_eq!(combine(x, CheckResult::Deny), CheckResult::Deny);
        assert_eq!(combine(CheckResult::Unspecified, x), x);
        assert_eq!(combine(x, CheckResult::Unspecified), x);
    }
    assert_eq!(combine(CheckResult::Allow, CheckResult::Allow), CheckResult::Allow);
}

#[test]
fn version_boundaries() {
    for v in ["2008-10-17", "2012-10-17"] {
        let p = Policy::from_json(&obj(vec![("Version", s(v)), ("Statement", Json::Array(vec![]))])).unwrap();
        assert_eq!(p.version.as_deref(), Some(v));
    }
    let bad = Policy::from_json(&obj(vec![("Version", s("2020-01-01")), ("Statement", Json::Array(vec![]))]));
    assert_eq!(bad.unwrap_err(), PolicyParseError::InvalidFormat);
    let null = Policy::from_json(&obj(vec![("Version", Json::Null), ("Statement", Json::Array(vec![]))])).unwrap();
    assert_eq!(null.version, None);
    let wrong_type = Policy::from_json(&obj(vec![("Version", Json::Bool(true)), ("Statement", Json::Array(vec![]))]));
    assert_eq!(wrong_type.unwrap_err(), PolicyParseError::SchemaError);
}

#[test]
fn statement_schema_errors() {
    let both = obj(vec![("Effect", s("Allow")), ("Action", s("*")), ("NotAction", s("*")), ("Resource", s("*"))]);
    assert_eq!(Statement::from_json(&both).unwrap_err(), PolicyParseError::SchemaError);
    let neither = obj(vec![("Effect", s("Allow")), ("Resource", s("*"))]);
    assert_eq!(Statement::from_json(&neither).unwrap_err(), PolicyParseError::SchemaError);
    let no_resource = obj(vec![("Effect", s("Allow")), ("Action", s("*"))]);
    assert_eq!(Statement::from_json(&no_resource).unwrap_err(), PolicyParseError::SchemaError);
    let bad_effect = obj(vec![("Effect", s("Maybe")), ("Action", s("*")), ("Resource", s("*"))]);
    assert_eq!(Statement::from_json(&bad_effect).unwrap_err(), PolicyParseError::SchemaError);
    let bad_action = obj(vec![("Effect", s("Allow")), ("Action", s("GetObject")), ("Resource", s("*"))]);
    assert_eq!(Statement::from_json(&bad_action).unwrap_err(), PolicyParseError::InvalidFormat);
    let bad_resource = obj(vec![("Effect", s("Allow")), ("Action", s("*")), ("Resource", s("s3:::b"))]);
    assert_eq!(Statement::from_json(&bad_resource).unwrap_err(), PolicyParseError::MissingPrefix);
    let bad_operator = obj(vec![
        ("Effect", s("Allow")),
        ("Action", s("*")),
        ("Resource", s("*")),
        ("Condition", obj(vec![("StringEqualz", obj(vec![("k", s("v"))]))])),
    ]);
    assert_eq!(Statement::from_json(&bad_operator).unwrap_err(), PolicyParseError::InvalidFormat);
    let both_principals = obj(vec![
        ("Effect", s("Allow")),
        ("Principal", s("*")),
        ("NotPrincipal", s("*")),
        ("Action", s("*")),
        ("Resource", s("*")),
    ]);
    assert_eq!(Statement::from_json(&both_principals).unwrap_err(), PolicyParseError::SchemaError);
}

#[test]
fn statement_fields_are_read() {
    let j = obj(vec![
        ("Sid", s("S1")),
        ("Effect", s("Deny")),
        ("Action", arr(&["s3:Get*", "*"])),
        ("Resource", s("arn:aws:s3:::b/*")),
    ]);
    let st = Statement::from_json(&j).unwrap();
    assert_eq!(st.sid.as_deref(), Some("S1"));
    assert!(matches!(st.principals, PrincipalClause::Absent));
    assert!(st.conditions.is_none());
}

#[test]
fn condition_key_decoding() {
    assert_eq!(decode_condition_key("Null"), Some(Quantifier::Null));
    assert_eq!(decode_condition_key("StringLike"), Some(Quantifier::ForAnyValue(Operator::StringLike)));
    assert_eq!(decode_condition_key("ForAllValues:StringLike"), Some(Quantifier::ForAllValues(Operator::StringLike)));
    assert_eq!(decode_condition_key("ForAll:StringLike"), Some(Quantifier::ForAllValues(Operator::StringLike)));
    assert_eq!(decode_condition_key("ForAnyValue:StringLike"), Some(Quantifier::ForAnyValue(Operator::StringLike)));
    assert_eq!(decode_condition_key("StringEqualsIfExists"), Some(Quantifier::IfExists(Operator::StringEquals)));
    assert_eq!(decode_condition_key("ForAllValues:StringEqualsIfExists"), Some(Quantifier::IfExists(Operator::StringEquals)));
    assert_eq!(decode_condition_key("Bogus"), None);
    assert_eq!(decode_condition_key("IfExists"), None);
}

#[test]
fn context_errors() {
    assert_eq!(Context::from_json(&s("x")).unwrap_err(), PolicyParseError::SchemaError);
    let bad_arn = obj(vec![("resources", obj(vec![("bucket", obj(vec![]))]))]);
    assert_eq!(Context::from_json(&bad_arn).unwrap_err(), PolicyParseError::MissingPrefix);
    let bad_values = obj(vec![("global", obj(vec![("k", Json::Bool(true))]))]);
    assert_eq!(Context::from_json(&bad_values).unwrap_err(), PolicyParseError::SchemaError);
    let bad_items = obj(vec![("global", obj(vec![("k", Json::Array(vec![s("a"), Json::Null]))]))]);
    assert_eq!(Context::from_json(&bad_items).unwrap_err(), PolicyParseError::SchemaError);
}

#[test]
fn written_policy_reads_back_the_same() {
    let j = obj(vec![
        ("Version", s("2012-10-17")),
        ("Id", s("P1")),
        ("Statement", Json::Array(vec![
            obj(vec![
                ("Sid", s("A")),
                ("Effect", s("Allow")),
                ("Principal", obj(vec![("AWS", arr(&["123456789012", "*"])), ("Federated", s("cognito"))])),
                ("Action", arr(&["s3:Get*", "*"])),
                ("Resource", s("arn:aws:s3:::b/*")),
                ("Condition", obj(vec![
                    ("ForAllValues:StringLike", obj(vec![("aws:TagKeys", arr(&["team", "env"]))])),
                    ("NumericLessThanIfExists", obj(vec![("n", s("10"))])),
                    ("Null", obj(vec![("aws:MultiFactorAuthPresent", s("false"))])),
                ])),
            ]),
            obj(vec![("Effect", s("Deny")), ("NotPrincipal", s("*")), ("NotAction", s("iam:*")), ("NotResource", s("*"))]),
        ])),
    ]);
    let p = Policy::from_json(&j).unwrap();
    let q = Policy::from_json(&p.to_json()).unwrap();
    assert_eq!(q.version.as_deref(), Some("2012-10-17"));
    assert_eq!(q.id.as_deref(), Some("P1"));
    assert_eq!(q.statements.len(), 2);
    assert_eq!(format!("{:?}", p.statements[0].effect), format!("{:?}", q.statements[0].effect));
    assert_eq!(q.statements[0].sid.as_deref(), Some("A"));
    let groups = q.statements[0].conditions.as_ref().unwrap().groups();
    assert_eq!(groups.len(), 3);
    assert_eq!(groups[0].0, Quantifier::ForAllValues(Operator::StringLike));
    assert_eq!(groups[1].0, Quantifier::IfExists(Operator::NumericLessThan));
    assert_eq!(groups[2].0, Quantifier::Null);
    // the two readings decide requests alike
    let root = Principal::AWS(arn("arn:aws:iam::123456789012:root"));
    let ctx = context_with_global("aws:TagKeys", &["team"]);
    for (a, r) in [("s3:GetObject", "arn:aws:s3:::b/k"), ("iam:CreateUser", "arn:aws:s3:::b/k"), ("s3:PutObject", "arn:aws:s3:::c")] {
        assert_eq!(
            p.check(&root, &action(a), &arn(r), &ctx).unwrap(),
            q.check(&root, &action(a), &arn(r), &ctx).unwrap(),
        );
    }
}
