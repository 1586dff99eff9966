//! Typed comparisons of condition values: numbers, dates, booleans, base64
//! blobs, IP addresses in networks, and ARNs.
use vstd::prelude::*;
use core::cmp::Ordering;
use crate::arn::{ARN, arn_parse_outcome};
use crate::condition::ConditionError;
use crate::glob::{glob_matches, glob_matches_spec};
use crate::number::{compare_decimals, decimal_order};
use crate::text::{chars_of, str_eq};

verus! {

/// `Ok` of an ordering, or a type mismatch where there is none.
pub open spec fn ordering_or_mismatch(o: Option<Ordering>) -> Result<Ordering, ConditionError> {
    match o {
        Some(o) => Ok(o),
        None => Err(ConditionError::TypeMismatch),
    }
}

/// Compares two decimal numbers by value.
pub fn cmp_numbers(lhs: &str, rhs: &str) -> (r: Result<Ordering, ConditionError>)
    ensures
        r == ordering_or_mismatch(decimal_order(lhs@, rhs@)),
{
    match compare_decimals(lhs, rhs) {
        Some(o) => Ok(o),
        None => Err(ConditionError::TypeMismatch),
    }
}

/// A moment in time: seconds since the Unix epoch and the nanoseconds
/// within that second.
#[derive(Debug, Clone, Copy, PartialEq, Eq, Structural)]
pub struct Instant {
    pub seconds: i64,
    pub nanos: u32,
}

/// The moment that an RFC 3339 date-time names, if `s` is one.
pub uninterp spec fn rfc3339_instant(s: Seq<char>) -> Option<Instant>;

/// Relies on `chrono::DateTime::parse_from_rfc3339`, which requires an
/// offset in the text, and on `timestamp` and `timestamp_subsec_nanos`.
#[verifier::external_body]
fn parse_rfc3339(s: &str) -> (r: Option<Instant>)
    ensures
        r == rfc3339_instant(s@),
{
    match chrono::DateTime::parse_from_rfc3339(s) {
        Ok(d) => Some(Instant { seconds: d.timestamp(), nanos: d.timestamp_subsec_nanos() }),
        Err(_) => None,
    }
}

/// Earlier moments order first.
pub open spec fn instant_order(a: Instant, b: Instant) -> Ordering {
    if a.seconds < b.seconds || (a.seconds == b.seconds && a.nanos < b.nanos) {
        Ordering::Less
    } else if a.seconds == b.seconds && a.nanos == b.nanos {
        Ordering::Equal
    } else {
        Ordering::Greater
    }
}

pub fn compare_instants(a: &Instant, b: &Instant) -> (r: Ordering)
    ensures
        r == instant_order(*a, *b),
{
    if a.seconds < b.seconds || (a.seconds == b.seconds && a.nanos < b.nanos) {
        Ordering::Less
    } else if a.seconds == b.seconds && a.nanos == b.nanos {
        Ordering::Equal
    } else {
        Ordering::Greater
    }
}

pub open spec fn date_order(lhs: Seq<char>, rhs: Seq<char>) -> Result<Ordering, ConditionError> {
    match (rfc3339_instant(lhs), rfc3339_instant(rhs)) {
        (Some(a), Some(b)) => Ok(instant_order(a, b)),
        _ => Err(ConditionError::TypeMismatch),
    }
}

/// Compares two RFC 3339 date-times by the moment they name.
pub fn cmp_dates(lhs: &str, rhs: &str) -> (r: Result<Ordering, ConditionError>)
    ensures
        r == date_order(lhs@, rhs@),
{
    let a = parse_rfc3339(lhs);
    let b = parse_rfc3339(rhs);
    match (a, b) {
        (Some(a), Some(b)) => Ok(compare_instants(&a, &b)),
        _ => Err(ConditionError::TypeMismatch),
    }
}

/// `true` and `false`, and nothing else, are booleans.
pub open spec fn bool_of(s: Seq<char>) -> Option<bool> {
    if s == seq!['t', 'r', 'u', 'e'] {
        Some(true)
    } else if s == seq!['f', 'a', 'l', 's', 'e'] {
        Some(false)
    } else {
        None
    }
}

fn parse_bool(s: &str) -> (r: Option<bool>)
    ensures
        r == bool_of(s@),
{
    proof {
        reveal_strlit("true");
        reveal_strlit("false");
        assert("true"@ =~= seq!['t', 'r', 'u', 'e']);
        assert("false"@ =~= seq!['f', 'a', 'l', 's', 'e']);
    }
    if str_eq(s, "true") {
        Some(true)
    } else if str_eq(s, "false") {
        Some(false)
    } else {
        None
    }
}

pub open spec fn bools_eq_spec(lhs: Seq<char>, rhs: Seq<char>) -> Result<bool, ConditionError> {
    match (bool_of(lhs), bool_of(rhs)) {
        (Some(a), Some(b)) => Ok(a == b),
        _ => Err(ConditionError::TypeMismatch),
    }
}

/// Whether two booleans are equal.
pub fn bools_eq(lhs: &str, rhs: &str) -> (r: Result<bool, ConditionError>)
    ensures
        r == bools_eq_spec(lhs@, rhs@),
{
    match (parse_bool(lhs), parse_bool(rhs)) {
        (Some(a), Some(b)) => Ok(a == b),
        _ => Err(ConditionError::TypeMismatch),
    }
}

/// The bytes that the base64 text `s` decodes to, if it decodes.
pub uninterp spec fn base64_bytes(s: Seq<char>) -> Option<Seq<u8>>;

/// Relies on `base64::decode` with the standard alphabet.
#[verifier::external_body]
fn decode_base64(s: &str) -> (r: Option<Vec<u8>>)
    ensures
        match r {
            Some(v) => base64_bytes(s@) == Some(v@),
            None => base64_bytes(s@) is None,
        },
{
    base64::decode(s).ok()
}

/// Whether two byte strings are equal.
pub fn bytes_eq(a: &Vec<u8>, b: &Vec<u8>) -> (r: bool)
    ensures
        r == (a@ == b@),
{
    if a.len() != b.len() {
        return false;
    }
    let mut i: usize = 0;
    while i < a.len()
        invariant
            a@.len() == b@.len(),
            i <= a@.len(),
            forall|j: int| 0 <= j < i ==> a@[j] == b@[j],
        decreases a.len() - i,
    {
        if a[i] != b[i] {
            return false;
        }
        i += 1;
    }
    assert(a@ =~= b@);
    true
}

pub open spec fn base64s_eq_spec(lhs: Seq<char>, rhs: Seq<char>) -> Result<bool, ConditionError> {
    match (base64_bytes(lhs), base64_bytes(rhs)) {
        (Some(a), Some(b)) => Ok(a == b),
        _ => Err(ConditionError::TypeMismatch),
    }
}

/// Whether two base64 texts decode to the same bytes.
pub fn base64s_eq(lhs: &str, rhs: &str) -> (r: Result<bool, ConditionError>)
    ensures
        r == base64s_eq_spec(lhs@, rhs@),
{
    match (decode_base64(lhs), decode_base64(rhs)) {
        (Some(a), Some(b)) => Ok(bytes_eq(&a, &b)),
        _ => Err(ConditionError::TypeMismatch),
    }
}

/// An IP address as its bits.
#[derive(Debug, Clone, Copy, PartialEq, Eq, Structural)]
pub enum IpValue {
    V4(u32),
    V6(u128),
}

/// A network: an address and the number of leading bits that matter.
#[derive(Debug, Clone, Copy, PartialEq, Eq, Structural)]
pub enum NetValue {
    V4(u32, u8),
    V6(u128, u8),
}

/// The network that `s` spells, if it is an address with an optional prefix.
pub uninterp spec fn network_of(s: Seq<char>) -> Option<NetValue>;

/// Relies on `ipnetwork::IpNetwork::from_str`, whose networks have a prefix of
/// at most 32 bits (IPv4) or 128 bits (IPv6).
#[verifier::external_body]
fn parse_network(s: &str) -> (r: Option<NetValue>)
    ensures
        r == network_of(s@),
        r matches Some(NetValue::V4(_, p)) ==> p <= 32,
        r matches Some(NetValue::V6(_, p)) ==> p <= 128,
{
    match s.parse::<ipnetwork::IpNetwork>() {
        Ok(ipnetwork::IpNetwork::V4(n)) => Some(NetValue::V4(u32::from(n.ip()), n.prefix())),
        Ok(ipnetwork::IpNetwork::V6(n)) => Some(NetValue::V6(u128::from(n.ip()), n.prefix())),
        Err(_) => None,
    }
}

/// The IPv6 mask with the leading `prefix` bits set.
pub open spec fn v6_mask(prefix: u8) -> u128 {
    if prefix >= 128 {
        0xffff_ffff_ffff_ffff_ffff_ffff_ffff_ffffu128
    } else {
        !(0xffff_ffff_ffff_ffff_ffff_ffff_ffff_ffffu128 >> prefix)
    }
}

/// The IPv4 mask with the leading `prefix` bits set.
pub open spec fn v4_mask(prefix: u8) -> u32 {
    !((0xffff_ffffu64 >> prefix) as u32)
}

/// A network holds the addresses of its family that agree with it on the
/// leading prefix bits.
pub open spec fn network_contains_spec(net: NetValue, ip: IpValue) -> bool {
    match (net, ip) {
        (NetValue::V4(a, p), IpValue::V4(b)) => (a & v4_mask(p)) == (b & v4_mask(p)),
        (NetValue::V6(a, p), IpValue::V6(b)) => (a & v6_mask(p)) == (b & v6_mask(p)),
        _ => false,
    }
}

pub fn network_contains(net: &NetValue, ip: &IpValue) -> (r: bool)
    requires
        net matches NetValue::V4(_, p) ==> p <= 32,
    ensures
        r == network_contains_spec(*net, *ip),
{
    match (*net, *ip) {
        (NetValue::V4(a, p), IpValue::V4(b)) => {
            let mask = !((0xffff_ffffu64 >> p) as u32);
            (a & mask) == (b & mask)
        },
        (NetValue::V6(a, p), IpValue::V6(b)) => {
            let mask = if p >= 128 {
                0xffff_ffff_ffff_ffff_ffff_ffff_ffff_ffffu128
            } else {
                !(0xffff_ffff_ffff_ffff_ffff_ffff_ffff_ffffu128 >> p)
            };
            (a & mask) == (b & mask)
        },
        _ => false,
    }
}

/// The address of a network.
pub open spec fn address_of(net: NetValue) -> IpValue {
    match net {
        NetValue::V4(a, _) => IpValue::V4(a),
        NetValue::V6(a, _) => IpValue::V6(a),
    }
}

pub open spec fn has_slash(s: Seq<char>) -> bool {
    exists|i: int| 0 <= i < s.len() && s[i] == '/'
}

/// The address that `s` spells, if it is a bare address (no prefix).
pub open spec fn ip_of(s: Seq<char>) -> Option<IpValue> {
    if has_slash(s) {
        None
    } else {
        match network_of(s) {
            Some(n) => Some(address_of(n)),
            None => None,
        }
    }
}

fn contains_slash(s: &str) -> (r: bool)
    ensures
        r == has_slash(s@),
{
    let cs = chars_of(s);
    let mut i: usize = 0;
    while i < cs.len()
        invariant
            cs@ == s@,
            i <= cs@.len(),
            forall|j: int| 0 <= j < i ==> cs@[j] != '/',
        decreases cs.len() - i,
    {
        if cs[i] == '/' {
            return true;
        }
        i += 1;
    }
    false
}

/// The bare address that `s` spells.
pub fn parse_ip(s: &str) -> (r: Option<IpValue>)
    ensures
        r == ip_of(s@),
{
    if contains_slash(s) {
        return None;
    }
    match parse_network(s) {
        Some(NetValue::V4(a, _)) => Some(IpValue::V4(a)),
        Some(NetValue::V6(a, _)) => Some(IpValue::V6(a)),
        None => None,
    }
}

pub open spec fn ip_in_cidr_spec(lhs: Seq<char>, rhs: Seq<char>) -> Result<bool, ConditionError> {
    match (ip_of(lhs), network_of(rhs)) {
        (Some(ip), Some(net)) => Ok(network_contains_spec(net, ip)),
        _ => Err(ConditionError::TypeMismatch),
    }
}

/// Whether the bare address `lhs` lies in the network `rhs`.
pub fn ip_in_cidr(lhs: &str, rhs: &str) -> (r: Result<bool, ConditionError>)
    ensures
        r == ip_in_cidr_spec(lhs@, rhs@),
{
    let ip = parse_ip(lhs);
    let net = parse_network(rhs);
    match (ip, net) {
        (Some(ip), Some(net)) => Ok(network_contains(&net, &ip)),
        _ => Err(ConditionError::TypeMismatch),
    }
}

/// An address with a prefix is no operand on the left of an IP comparison.
pub proof fn cidr_on_left_is_rejected(lhs: Seq<char>, rhs: Seq<char>)
    requires
        has_slash(lhs),
    ensures
        ip_in_cidr_spec(lhs, rhs) == Err::<bool, ConditionError>(ConditionError::TypeMismatch),
{
}

pub open spec fn arn_eq_spec(lhs: Seq<char>, rhs: Seq<char>) -> Result<bool, ConditionError> {
    if arn_parse_outcome(lhs) is Ok && arn_parse_outcome(rhs) is Ok {
        Ok(lhs == rhs)
    } else {
        Err(ConditionError::TypeMismatch)
    }
}

/// Whether two ARNs are equal; both must parse.
pub fn arn_eq(lhs: &str, rhs: &str) -> (r: Result<bool, ConditionError>)
    ensures
        r == arn_eq_spec(lhs@, rhs@),
{
    let a = ARN::parse(lhs);
    let b = ARN::parse(rhs);
    match (a, b) {
        (Ok(a), Ok(b)) => Ok(str_eq(a.raw(), b.raw())),
        _ => Err(ConditionError::TypeMismatch),
    }
}

pub open spec fn arn_like_spec(value: Seq<char>, pattern: Seq<char>) -> Result<bool, ConditionError> {
    if !(arn_parse_outcome(value) is Ok) {
        Err(ConditionError::TypeMismatch)
    } else if pattern == seq!['*'] {
        Ok(true)
    } else if !(arn_parse_outcome(pattern) is Ok) {
        Err(ConditionError::TypeMismatch)
    } else {
        Ok(glob_matches_spec(pattern, value))
    }
}

/// Whether the ARN `value` matches the ARN pattern `pattern`; `*` matches
/// every ARN.
pub fn arn_like(value: &str, pattern: &str) -> (r: Result<bool, ConditionError>)
    ensures
        r == arn_like_spec(value@, pattern@),
{
    let v = ARN::parse(value);
    if v.is_err() {
        return Err(ConditionError::TypeMismatch);
    }
    proof {
        reveal_strlit("*");
        assert("*"@ =~= seq!['*']);
    }
    if str_eq(pattern, "*") {
        return Ok(true);
    }
    match ARN::parse(pattern) {
        Ok(p) => Ok(glob_matches(p.raw(), value)),
        Err(_) => Err(ConditionError::TypeMismatch),
    }
}

} // verus!
