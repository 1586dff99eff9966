use awspolicy::condition::ConditionError;
use awspolicy::operator::Operator;
use awspolicy::quantifier::Quantifier;

#[test]
fn forall_empty() {
    let op = Operator::StringEquals;
    let quant = Quantifier::ForAllValues(op);
    let targets = vec!["a".to_string()];
    assert!(quant.matches(None, &targets).unwrap());
}

#[test]
fn forall_single_target_all() {
    let op = Operator::StringEquals;
    let quant = Quantifier::ForAllValues(op);
    let targets = vec!["a".to_string()];
    let values = vec!["a".to_string(), "a".to_string()];
    assert!(quant.matches(Some(&values), &targets).unwrap());
}

#[test]
fn forall_single_target_not_all() {
    let op = Operator::StringEquals;
    let quant = Quantifier::ForAllValues(op);
    let targets = vec!["a".to_string()];
    let values = vec!["a".to_string(), "b".to_string()];
    assert!(! quant.matches(Some(&values), &targets).unwrap());
}

#[test]
fn forall_multi_targets_all() {
    let op = Operator::StringEquals;
    let quant = Quantifier::ForAllValues(op);
    let targets = vec!["a".to_string(), "b".to_string(), "c".to_string()];
    let values = vec!["a".to_string(), "b".to_string()];
    assert!(quant.matches(Some(&values), &targets).unwrap());
}

#[test]
fn forall_multi_targets_not_all() {
    let op = Operator::StringEquals;
    let quant = Quantifier::ForAllValues(op);
    let targets = vec!["a".to_string(), "b".to_string()];
    let values = vec!["a".to_string(), "b".to_string(), "c".to_string()];
    assert!(! quant.matches(Some(&values), &targets).unwrap());
}

#[test]
fn forany_empty() {
    let op = Operator::StringEquals;
    let quant = Quantifier::ForAnyValue(op);
    let targets = vec!["a".to_string()];
    assert!(! quant.matches(None, &targets).unwrap());
}

#[test]
fn forany_single_target_some() {
    let op = Operator::StringEquals;
    let quant = Quantifier::ForAnyValue(op);
    let targets = vec!["a".to_string()];
    let values = vec!["a".to_string(), "b".to_string()];
    assert!(quant.matches(Some(&values), &targets).unwrap());
}

#[test]
fn forany_single_target_none() {
    let op = Operator::StringEquals;
    let quant = Quantifier::ForAnyValue(op);
    let targets = vec!["a".to_string()];
    let values = vec!["b".to_string(), "c".to_string()];
    assert!(! quant.matches(Some(&values), &targets).unwrap());
}

#[test]
fn forany_multi_target_some() {
    let op = Operator::StringEquals;
    let quant = Quantifier::ForAnyValue(op);
    let targets = vec!["a".to_string(), "b".to_string()];
    let values = vec!["a".to_string(), "b".to_string(), "c".to_string()];
    assert!(quant.matches(Some(&values), &targets).unwrap());
}

#[test]
fn forany_multi_target_none() {
    let op = Operator::StringEquals;
    let quant = Quantifier::ForAnyValue(op);
    let targets = vec!["a".to_string(), "b".to_string()];
    let values = vec!["c".to_string(), "d".to_string(), "e".to_string()];
    assert!(! quant.matches(Some(&values), &targets).unwrap());
}

#[test]
fn null_checks_empty() {
    let quant = Quantifier::Null;
    let target_true = vec!["true".to_string()];
    let target_false = vec!["false".to_string()];
    let non_empty = Some(vec!["value".to_string()]);
    assert!(quant.matches(None, &target_true).unwrap());
    assert!(quant.matches(non_empty.as_ref(), &target_false).unwrap());
    assert!(! quant.matches(None, &target_false).unwrap());
    assert!(! quant.matches(non_empty.as_ref(), &target_true).unwrap());
}

#[test]
fn null_takes_single_target() {
    let quant = Quantifier::Null;
    let targets_zero = Vec::<String>::new();
    let targets_multi = vec!["a".to_string(), "b".to_string()];
    assert!(quant.matches(None, &targets_zero).is_err());
    assert!(quant.matches(None, &targets_multi).is_err());
}

#[test]
fn null_target_count_error_kind() {
    let quant = Quantifier::Null;
    assert_eq!(quant.matches(None, &Vec::new()).unwrap_err(), ConditionError::TooManyValues);
}

#[test]
fn if_exists_absent_matches_present_needs_some() {
    let quant = Quantifier::IfExists(Operator::StringEquals);
    let targets = vec!["a".to_string()];
    assert!(quant.matches(None, &targets).unwrap());
    let values = vec!["b".to_string(), "a".to_string()];
    assert!(quant.matches(Some(&values), &targets).unwrap());
    let values = vec!["b".to_string()];
    assert!(!quant.matches(Some(&values), &targets).unwrap());
}

#[test]
fn forall_forany_on_empty_list() {
    let targets = vec!["a".to_string()];
    let empty: Vec<String> = Vec::new();
    assert!(Quantifier::ForAllValues(Operator::StringEquals).matches(Some(&empty), &targets).unwrap());
    assert!(!Quantifier::ForAnyValue(Operator::StringEquals).matches(Some(&empty), &targets).unwrap());
}
