//! Evaluation of IAM-style authorization policies: glob patterns, ARNs and
//! actions, typed condition operators and their quantifiers, statements, and
//! the deny-overrides reduction of a policy, together with the reading of
//! policies and request contexts from a JSON tree.
pub mod text;
pub mod glob;
pub mod arn;
pub mod iam;
pub mod number;
pub mod condition;
pub mod compare;
pub mod operator;
pub mod nullable;
pub mod quantifier;
pub mod global;
pub mod constraint;
pub mod context;
pub mod statement;
pub mod policy;
pub mod json;
pub mod parse;
pub mod render;
