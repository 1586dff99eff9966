use awspolicy::condition::{ConditionError, ConditionList, ConditionValues};
use awspolicy::operator::Operator;
use awspolicy::quantifier::Quantifier;

fn single_value(key: &str, value: &str) -> ConditionValues {
    ConditionValues::from_pairs(vec![(key.to_string(), vec![value.to_string()])])
}

#[test]
fn op_string_equals() {
    let cases = [
        (Operator::StringEquals, true),
        (Operator::StringNotEquals, false),
    ];
    for (op, expected) in cases {
        assert_eq!(expected, op.matches("test", "test").unwrap());
        assert_eq!(expected, op.matches("test?", "test?").unwrap());
        assert_eq!(expected, op.matches("test*", "test*").unwrap());

        assert_ne!(expected, op.matches("TEST", "test").unwrap());
        assert_ne!(expected, op.matches("testa", "test?").unwrap());
        assert_ne!(expected, op.matches("testa", "test*").unwrap());
    }
}

#[test]
fn op_string_equals_ignore_case() {
    let cases = [
        (Operator::StringEqualsIgnoreCase, true),
        (Operator::StringNotEqualsIgnoreCase, false),
    ];
    for (op, expected) in cases {
        assert_eq!(expected, op.matches("test", "test").unwrap());
        assert_eq!(expected, op.matches("TEST", "test").unwrap());
    }
}

#[test]
fn op_string_like() {
    let cases = [
        (Operator::StringLike, true),
        (Operator::StringNotLike, false),
    ];
    for (op, expected) in cases {
        assert_eq!(expected, op.matches("test", "t?st").unwrap());
        assert_eq!(expected, op.matches("tst", "t*st").unwrap());
        assert_eq!(expected, op.matches("test", "t*st").unwrap());
        assert_eq!(expected, op.matches("teest", "t*st").unwrap());

        assert_ne!(expected, op.matches("tst", "t?st").unwrap());
        assert_ne!(expected, op.matches("teest", "t?st").unwrap());
    }
}

#[test]
fn op_num_compare() {
    // lhs, right, less-than, equal
    let cases = [
        ("1", "2", true, false),
        ("2", "2", false, true),
        ("3", "2", false, false),
        ("1.0", "2", true, false),
        ("2.0", "2", false, true),
        ("3.0", "2", false, false),
        ("1", "2.0", true, false),
        ("2", "2.0", false, true),
        ("3", "2.0", false, false),
        ("1.0", "2.0", true, false),
        ("2.0", "2.0", false, true),
        ("3.0", "2.0", false, false),
    ];
    for (lhs, rhs, less_than, equals) in cases {
        assert_eq!(equals, Operator::NumericEquals.matches(lhs, rhs).unwrap());
        assert_eq!(!equals, Operator::NumericNotEquals.matches(lhs, rhs).unwrap());
        assert_eq!(less_than, Operator::NumericLessThan.matches(lhs, rhs).unwrap());
        assert_eq!(less_than || equals, Operator::NumericLessThanEquals.matches(lhs, rhs).unwrap());
        assert_eq!(!(less_than || equals), Operator::NumericGreaterThan.matches(lhs, rhs).unwrap());
        assert_eq!(!less_than, Operator::NumericGreaterThanEquals.matches(lhs, rhs).unwrap());
    }
}

#[test]
fn op_num_invalid() {
    let cases = [
        ("1", "1.1.1"),
        ("1.1.1", "1"),
        ("1.1.1", "1.1.1"),
    ];
    for (lhs, rhs) in cases {
        assert!(Operator::NumericEquals.matches(lhs, rhs).is_err());
        assert!(Operator::NumericNotEquals.matches(lhs, rhs).is_err());
        assert!(Operator::NumericLessThan.matches(lhs, rhs).is_err());
        assert!(Operator::NumericLessThanEquals.matches(lhs, rhs).is_err());
        assert!(Operator::NumericGreaterThan.matches(lhs, rhs).is_err());
        assert!(Operator::NumericGreaterThanEquals.matches(lhs, rhs).is_err());
    }
}

#[test]
fn op_date_compare() {
    let cases = [
        ("2020-04-01T00:00:01Z", "2020-04-01T00:00:02Z", true, false),
        ("2020-04-01T00:00:02Z", "2020-04-01T00:00:02Z", false, true),
        ("2020-04-01T00:00:03Z", "2020-04-01T00:00:02Z", false, false),
        ("2020-04-01T00:00:02+01:00", "2020-04-01T00:00:02Z", true, false),
        ("2020-04-01T00:00:02+00:00", "2020-04-01T00:00:02Z", false, true),
        ("2020-04-01T00:00:02-01:00", "2020-04-01T00:00:02Z", false, false),
    ];
    for (lhs, rhs, less_than, equals) in cases {
        assert_eq!(equals, Operator::DateEquals.matches(lhs, rhs).unwrap());
        assert_eq!(!equals, Operator::DateNotEquals.matches(lhs, rhs).unwrap());
        assert_eq!(less_than, Operator::DateLessThan.matches(lhs, rhs).unwrap());
        assert_eq!(less_than || equals, Operator::DateLessThanEquals.matches(lhs, rhs).unwrap());
        assert_eq!(!(less_than || equals), Operator::DateGreaterThan.matches(lhs, rhs).unwrap());
        assert_eq!(!less_than, Operator::DateGreaterThanEquals.matches(lhs, rhs).unwrap());
    }
}

#[test]
fn op_date_invalid() {
    // Values missing timezones are invalid
    let cases = [
        ("2020-04-01T00:00:02", "2020-04-01T00:00:02Z"),
        ("2020-04-01T00:00:02Z", "2020-04-01T00:00:02"),
        ("2020-04-01T00:00:02", "2020-04-01T00:00:02"),
    ];
    for (lhs, rhs) in cases {
        assert!(Operator::DateEquals.matches(lhs, rhs).is_err());
        assert!(Operator::DateNotEquals.matches(lhs, rhs).is_err());
        assert!(Operator::DateLessThan.matches(lhs, rhs).is_err());
        assert!(Operator::DateLessThanEquals.matches(lhs, rhs).is_err());
        assert!(Operator::DateGreaterThan.matches(lhs, rhs).is_err());
        assert!(Operator::DateGreaterThanEquals.matches(lhs, rhs).is_err());
    }
}

#[test]
fn op_bool_equals() {
    let cases = [
        ("true", "true", true),
        ("true", "false", false),
        ("false", "true", false),
        ("false", "false", true),
    ];
    for (lhs, rhs, equals) in cases {
        assert_eq!(equals, Operator::Bool.matches(lhs, rhs).unwrap());
    }
}

#[test]
fn op_bool_invalid() {
    let cases = [
        ("true", "tree"),
        ("tree", "true"),
        ("tree", "tree"),
    ];
    for (lhs, rhs) in cases {
        assert!(Operator::Bool.matches(lhs, rhs).is_err());
    }
}

#[test]
fn op_binary_equals() {
    let cases = [
        ("dGVzdA==", "dGVzdA==", true),
        ("dGVzdA==", "dGVzdA=", true),
        ("dGVzdA==", "dGVzdA", true),
        ("dGVzdA=", "dGVzdA==", true),
        ("dGVzdA", "dGVzdA==", true),
        ("dGVzdA=", "dGVzdA=", true),
        ("dGVzdA=", "dGVzdA", true),
        ("dGVzdA", "dGVzdA=", true),
        ("dGVzdA", "dGVzdA", true),
        ("dGVzdA==", "dGVzdC4=", false),
        ("dGVzdC4=", "dGVzdA==", false),
    ];
    for (lhs, rhs, equals) in cases {
        assert_eq!(equals, Operator::BinaryEquals.matches(lhs, rhs).unwrap());
    }
}

#[test]
fn op_binary_invalid() {
    let cases = [
        ("dGVzdA==", "dGVzdAB"),
        ("dGVzdAB", "dGVzdA=="),
        ("dGVzdAB", "dGVzdAB"),
    ];
    for (lhs, rhs) in cases {
        assert!(Operator::BinaryEquals.matches(lhs, rhs).is_err());
    }
}

#[test]
fn op_ipaddress() {
    let cases = [
        ("203.0.113.64", "203.0.113.0/24", true),
        ("203.0.112.1", "203.0.113.0/24", false),
        ("203.0.114.1", "203.0.113.0/24", false),
        ("2001:DB8:1234:5678::1", "2001:DB8:1234:5678::/64", true),
        ("2001:DB8:1234:5678:FFFF:FFFF:FFFF:1", "2001:DB8:1234:5678::/64", true),
        ("2001:DB8:1234:5677::1", "2001:DB8:1234:5678::/64", false),
        ("2001:DB8:1234:5679::1", "2001:DB8:1234:5678::/64", false),
    ];
    for (lhs, rhs, contains) in cases {
        assert_eq!(contains, Operator::IpAddress.matches(lhs, rhs).unwrap());
        assert_ne!(contains, Operator::NotIpAddress.matches(lhs, rhs).unwrap());
    }
}

#[test]
fn op_ipaddress_invalid() {
    let cases = [
        // 256 out of range
        ("256.0.113.64", "203.0.113.0/24"),
        ("203.0.113.64", "256.0.113.0/24"),
        // 33 not a valid netmask
        ("203.0.113.64", "203.0.113.0/33"),
        // Value can't be a CIDR
        ("203.0.113.64/31", "203.0.113.0/24"),
        // Can't have multiple :: in an address
        ("2001:DB8::1234:5678::1", "2001:DB8:1234:5678::/64"),
        ("2001:DB8:1234:5678::1", "2001:DB8::1234:5678::/64"),
        // 129 not a valid netmask
        ("2001:DB8:1234:5678::1", "2001:DB8:1234:5678::/129"),
        // Value can't be a CIDR
        ("2001:DB8:1234:5678::1/126", "2001:DB8:1234:5678::/64"),
    ];
    for (lhs, rhs) in cases {
        assert!(Operator::IpAddress.matches(lhs, rhs).is_err());
        assert!(Operator::NotIpAddress.matches(lhs, rhs).is_err());
    }
}

#[test]
fn op_arn() {
    let cases = [
        ("arn:aws:iam::123456789012:user/Alice", "arn:aws:iam::123456789012:user/Alice", true, true),
        ("arn:aws:iam::123456789012:user/Alice", "arn:aws:iam::123456789012:user/Bob", false, false),
        ("arn:aws:iam::123456789012:user/Alice", "arn:aws:iam::123456789012:user/*", false, true),
        ("arn:aws:iam::123456789012:user/Alice", "arn:aws:iam::*:user/Bob", false, false),
        ("arn:aws:iam::123456789012:user/Alice", "arn:aws:iam::*:user/Alice", false, true),
        // Not sure this counts as valid. It should never happen in practice.
        ("arn:aws:iam::*:user/Alice", "arn:aws:iam::*:user/Alice", true, true),
    ];
    for (lhs, rhs, equals, like) in cases {
        assert_eq!(equals, Operator::ArnEquals.matches(lhs, rhs).unwrap());
        assert_ne!(equals, Operator::ArnNotEquals.matches(lhs, rhs).unwrap());
        assert_eq!(like, Operator::ArnLike.matches(lhs, rhs).unwrap());
        assert_ne!(like, Operator::ArnNotLike.matches(lhs, rhs).unwrap());
    }
}

#[test]
fn condition_list_string_equals() {
    let mut set = ConditionList::new();
    let quant = Quantifier::ForAnyValue(Operator::StringEquals);
    set.insert((quant, single_value("test:Property", "foo")));
    let values = single_value("test:Property", "foo");
    assert!(set.matches(&values).unwrap());

    let values = single_value("test:Property", "bar");
    assert!(!set.matches(&values).unwrap());

    let values = ConditionValues::new();
    assert!(!set.matches(&values).unwrap());
}

#[test]
fn condition_list_insert_replaces_same_operator() {
    let mut set = ConditionList::new();
    let quant = Quantifier::ForAnyValue(Operator::StringEquals);
    assert!(set.insert((quant, single_value("k", "a"))).is_none());
    let previous = set.insert((quant, single_value("k", "b")));
    assert!(previous.is_some());
    assert_eq!(set.groups().len(), 1);
    assert!(set.matches(&single_value("k", "b")).unwrap());
    assert!(!set.matches(&single_value("k", "a")).unwrap());
}

#[test]
fn empty_condition_list_matches() {
    let set = ConditionList::new();
    assert!(set.matches(&ConditionValues::new()).unwrap());
}

#[test]
fn condition_list_error_propagates() {
    let mut set = ConditionList::new();
    set.insert((Quantifier::ForAnyValue(Operator::NumericEquals), single_value("n", "one")));
    assert_eq!(set.matches(&single_value("n", "1")).unwrap_err(), ConditionError::TypeMismatch);
}

#[test]
fn condition_list_all_groups_must_pass() {
    let mut set = ConditionList::new();
    set.insert((Quantifier::ForAnyValue(Operator::StringEquals), single_value("a", "x")));
    set.insert((Quantifier::ForAnyValue(Operator::StringLike), single_value("b", "y*")));
    let both = ConditionValues::from_pairs(vec![
        ("a".to_string(), vec!["x".to_string()]),
        ("b".to_string(), vec!["yes".to_string()]),
    ]);
    assert!(set.matches(&both).unwrap());
    let one = ConditionValues::from_pairs(vec![
        ("a".to_string(), vec!["x".to_string()]),
        ("b".to_string(), vec!["no".to_string()]),
    ]);
    assert!(!set.matches(&one).unwrap());
}

#[test]
fn from_pairs_later_key_wins() {
    let values = ConditionValues::from_pairs(vec![
        ("k".to_string(), vec!["first".to_string()]),
        ("k".to_string(), vec!["second".to_string()]),
    ]);
    assert_eq!(values.get("k").unwrap(), &vec!["second".to_string()]);
    assert!(values.get("other").is_none());
}

#[test]
fn overlay_wins_on_shared_keys() {
    let global = ConditionValues::from_pairs(vec![
        ("a".to_string(), vec!["g".to_string()]),
        ("b".to_string(), vec!["g".to_string()]),
    ]);
    let own = single_value("b", "r");
    let merged = global.overlaid(&own);
    assert_eq!(merged.get("a").unwrap(), &vec!["g".to_string()]);
    assert_eq!(merged.get("b").unwrap(), &vec!["r".to_string()]);
}

#[test]
fn not_operators_negate() {
    let pairs = [
        (Operator::StringEquals, Operator::StringNotEquals, "abc", "abd"),
        (Operator::StringEqualsIgnoreCase, Operator::StringNotEqualsIgnoreCase, "ABC", "abc"),
        (Operator::StringLike, Operator::StringNotLike, "abc", "a*"),
        (Operator::NumericEquals, Operator::NumericNotEquals, "1.50", "1.5"),
        (Operator::DateEquals, Operator::DateNotEquals, "2020-04-01T00:00:02Z", "2020-04-01T01:00:02+01:00"),
        (Operator::IpAddress, Operator::NotIpAddress, "10.0.0.1", "10.0.0.0/8"),
        (Operator::ArnEquals, Operator::ArnNotEquals, "arn:aws:s3:::a", "arn:aws:s3:::b"),
        (Operator::ArnLike, Operator::ArnNotLike, "arn:aws:s3:::a", "arn:aws:s3:::*"),
    ];
    for (op, not_op, v, t) in pairs {
        assert_eq!(op.matches(v, t).unwrap(), !not_op.matches(v, t).unwrap());
    }
}

#[test]
fn numbers_compare_by_value() {
    assert!(Operator::NumericEquals.matches("1.50", "1.5").unwrap());
    assert!(Operator::NumericEquals.matches("-0", "0.0").unwrap());
    assert!(Operator::NumericLessThan.matches("-2", "-1.5").unwrap());
    assert!(Operator::NumericGreaterThan.matches("10", "9.99").unwrap());
    assert!(Operator::NumericLessThan.matches(".5", "1").unwrap());
    assert!(Operator::NumericEquals.matches("+7", "7.").unwrap());
    assert!(Operator::NumericLessThan.matches("123456789012345678901234567890", "123456789012345678901234567891").unwrap());
}

#[test]
fn numbers_reject_non_decimals() {
    for bad in ["", ".", "-", "abc", "1e5", "NaN", "1.1.1", "1,5"] {
        assert_eq!(Operator::NumericEquals.matches(bad, "1").unwrap_err(), ConditionError::TypeMismatch);
    }
}

#[test]
fn ip_netmask_bounds() {
    assert!(Operator::IpAddress.matches("203.0.113.64", "203.0.113.0/32").is_ok());
    assert!(Operator::IpAddress.matches("203.0.113.64", "203.0.113.0/33").is_err());
    assert!(Operator::IpAddress.matches("2001:DB8::1", "2001:DB8::/128").is_ok());
    assert!(Operator::IpAddress.matches("2001:DB8::1", "2001:DB8::/129").is_err());
    assert!(Operator::IpAddress.matches("203.0.113.64/32", "203.0.113.0/24").is_err());
    assert!(Operator::IpAddress.matches("10.1.2.3", "0.0.0.0/0").unwrap());
    assert!(!Operator::IpAddress.matches("10.1.2.3", "2001:DB8::/0").unwrap());
}

#[test]
fn arn_like_star_needs_valid_value() {
    assert!(Operator::ArnLike.matches("arn:aws:s3:::a", "*").unwrap());
    assert!(Operator::ArnLike.matches("not-an-arn", "*").is_err());
}

#[test]
fn operator_names_round_trip() {
    let ops = [Operator::StringEquals, Operator::NumericLessThanEquals, Operator::DateGreaterThan,
        Operator::Bool, Operator::BinaryEquals, Operator::NotIpAddress, Operator::ArnNotLike];
    for op in ops {
        assert_eq!(Operator::parse(op.name()), Some(op));
    }
    assert_eq!(Operator::parse("StringEqualz"), None);
    assert_eq!(Operator::parse("Null"), None);
}
