//! Decimal numbers of condition values: an optional sign, then digits with
//! at most one decimal point, at least one digit in all. They are compared by
//! their exact value.
use vstd::prelude::*;
use vstd::arithmetic::power::{pow, lemma_pow_positive, lemma_pow_adds};
use core::cmp::Ordering;
use crate::text::chars_of;

verus! {

pub open spec fn is_digit(c: char) -> bool {
    '0' <= c && c <= '9'
}

pub open spec fn all_digits(s: Seq<char>) -> bool {
    forall|i: int| 0 <= i < s.len() ==> is_digit(s[i])
}

pub open spec fn digit_value(c: char) -> nat {
    if is_digit(c) {
        ((c as u32) - ('0' as u32)) as nat
    } else {
        0
    }
}

/// The number that a run of decimal digits spells.
pub open spec fn digits_value(s: Seq<char>) -> nat
    decreases s.len(),
{
    if s.len() == 0 {
        0
    } else {
        digits_value(s.drop_last()) * 10 + digit_value(s.last())
    }
}

/// Where the digits of `s` start, after an optional sign.
pub open spec fn sign_len(s: Seq<char>) -> int {
    if s.len() > 0 && (s[0] == '+' || s[0] == '-') {
        1
    } else {
        0
    }
}

pub open spec fn dot_at(body: Seq<char>, d: int) -> bool {
    &&& 0 <= d < body.len()
    &&& body[d] == '.'
    &&& all_digits(body.subrange(0, d))
    &&& all_digits(body.subrange(d + 1, body.len() as int))
    &&& body.len() > 1
}

/// The sign, the integer digits and the fraction digits of a decimal.
pub open spec fn decimal_parts(s: Seq<char>) -> Option<(bool, Seq<char>, Seq<char>)> {
    let negative = s.len() > 0 && s[0] == '-';
    let body = s.subrange(sign_len(s), s.len() as int);
    if exists|d: int| dot_at(body, d) {
        let d = choose|d: int| dot_at(body, d);
        Some((negative, body.subrange(0, d), body.subrange(d + 1, body.len() as int)))
    } else if all_digits(body) && body.len() > 0 {
        Some((negative, body, Seq::empty()))
    } else {
        None
    }
}

/// The value of a decimal is `numerator / 10^scale`.
pub open spec fn numerator(p: (bool, Seq<char>, Seq<char>)) -> int {
    if p.0 {
        -(digits_value(p.1 + p.2) as int)
    } else {
        digits_value(p.1 + p.2) as int
    }
}

pub open spec fn ordering_of(x: int, y: int) -> Ordering {
    if x < y {
        Ordering::Less
    } else if x == y {
        Ordering::Equal
    } else {
        Ordering::Greater
    }
}

/// How the values of two decimals compare; `None` when either is no decimal.
pub open spec fn decimal_order(a: Seq<char>, b: Seq<char>) -> Option<Ordering> {
    match (decimal_parts(a), decimal_parts(b)) {
        (Some(pa), Some(pb)) => Some(
            ordering_of(
                numerator(pa) * pow(10, pb.2.len()),
                numerator(pb) * pow(10, pa.2.len()),
            ),
        ),
        _ => None,
    }
}

pub open spec fn zeros(n: nat) -> Seq<char> {
    Seq::new(n, |i: int| '0')
}

proof fn lemma_value_split(p: Seq<char>, q: Seq<char>)
    ensures
        digits_value(p + q) == digits_value(p) * pow(10, q.len()) + digits_value(q),
    decreases q.len(),
{
    reveal(pow);
    if q.len() == 0 {
        assert(p + q =~= p);
        assert(pow(10, 0) == 1);
    } else {
        lemma_value_split(p, q.drop_last());
        assert((p + q).drop_last() =~= p + q.drop_last());
        assert((p + q).last() == q.last());
        let a = digits_value(p);
        let e = pow(10, (q.len() - 1) as nat);
        let r = digits_value(q.drop_last());
        assert(pow(10, q.len()) == 10 * e);
        assert((a * e + r) * 10 == a * (10 * e) + r * 10) by (nonlinear_arith);
    }
}

proof fn lemma_zeros_value(n: nat)
    ensures
        digits_value(zeros(n)) == 0,
    decreases n,
{
    if n > 0 {
        assert(zeros(n).drop_last() =~= zeros((n - 1) as nat));
        lemma_zeros_value((n - 1) as nat);
    }
}

proof fn lemma_value_bound(s: Seq<char>)
    ensures
        digits_value(s) < pow(10, s.len()),
    decreases s.len(),
{
    reveal(pow);
    if s.len() == 0 {
        assert(pow(10, 0) == 1);
    } else {
        lemma_value_bound(s.drop_last());
        let e = pow(10, (s.len() - 1) as nat);
        let v = digits_value(s.drop_last());
        assert(pow(10, s.len()) == 10 * e);
        assert(digit_value(s.last()) <= 9);
        assert(v * 10 + 9 < 10 * e) by (nonlinear_arith)
            requires
                v < e,
        ;
    }
}

proof fn lemma_value_zero(s: Seq<char>)
    requires
        all_digits(s),
    ensures
        digits_value(s) == 0 <==> (forall|i: int| 0 <= i < s.len() ==> s[i] == '0'),
    decreases s.len(),
{
    if s.len() > 0 {
        lemma_value_zero(s.drop_last());
        if digits_value(s) == 0 {
            assert(digits_value(s.drop_last()) == 0);
            assert forall|i: int| 0 <= i < s.len() implies s[i] == '0' by {
                if i < s.len() - 1 {
                    assert(s.drop_last()[i] == s[i]);
                }
            }
        }
        if forall|i: int| 0 <= i < s.len() ==> s[i] == '0' {
            assert forall|i: int| 0 <= i < s.drop_last().len() implies s.drop_last()[i] == '0' by {
                assert(s.drop_last()[i] == s[i]);
            }
        }
    }
}

/// Of two digit strings of one length, the one with the smaller digit at the
/// first difference has the smaller value.
proof fn lemma_lex_order(a: Seq<char>, b: Seq<char>, i: int)
    requires
        a.len() == b.len(),
        0 <= i < a.len(),
        all_digits(a),
        all_digits(b),
        a.subrange(0, i) == b.subrange(0, i),
        a[i] < b[i],
    ensures
        digits_value(a) < digits_value(b),
{
    let n = a.len() as int;
    let pa = a.subrange(0, i + 1);
    let pb = b.subrange(0, i + 1);
    let ra = a.subrange(i + 1, n);
    let rb = b.subrange(i + 1, n);
    assert(a =~= pa + ra);
    assert(b =~= pb + rb);
    lemma_value_split(pa, ra);
    lemma_value_split(pb, rb);
    lemma_value_bound(ra);
    assert(pa.drop_last() =~= a.subrange(0, i));
    assert(pb.drop_last() =~= b.subrange(0, i));
    let x = digits_value(pa);
    let y = digits_value(pb);
    assert(x + 1 <= y);
    let e = pow(10, ra.len());
    assert(rb.len() == ra.len());
    lemma_pow_positive(10, ra.len());
    let va = digits_value(ra);
    let vb = digits_value(rb);
    assert(x * e + va < y * e + vb) by (nonlinear_arith)
        requires
            x + 1 <= y,
            va < e,
            vb >= 0,
            e > 0,
    ;
}

/// A decimal split into sign, integer digits and fraction digits.
fn decimal_split(s: &str) -> (r: Option<(bool, Vec<char>, Vec<char>)>)
    ensures
        r is None <==> decimal_parts(s@) is None,
        r matches Some((n, i, f)) ==> decimal_parts(s@) == Some((n, i@, f@)),
{
    let cs = chars_of(s);
    let ghost ss = s@;
    let n = cs.len();
    let negative = n > 0 && cs[0] == '-';
    let start: usize = if n > 0 && (cs[0] == '+' || cs[0] == '-') {
        1
    } else {
        0
    };
    let ghost body = ss.subrange(start as int, n as int);
    assert(start as int == sign_len(ss));
    let mut ints: Vec<char> = Vec::new();
    let mut fracs: Vec<char> = Vec::new();
    let mut seen_dot = false;
    let mut dot: usize = 0;
    let mut k: usize = start;
    while k < n
        invariant
            cs@ == ss,
            ss == s@,
            n == ss.len(),
            start <= k <= n,
            start as int == sign_len(ss),
            negative == (ss.len() > 0 && ss[0] == '-'),
            body == ss.subrange(start as int, n as int),
            !seen_dot ==> ints@ == body.subrange(0, k - start) && fracs@.len() == 0,
            seen_dot ==> {
                &&& start <= dot < k
                &&& body[dot - start] == '.'
                &&& ints@ == body.subrange(0, dot - start)
                &&& fracs@ == body.subrange(dot - start + 1, k - start)
            },
            all_digits(ints@),
            all_digits(fracs@),
        decreases n - k,
    {
        let c = cs[k];
        assert(body[k - start] == c);
        if c == '.' {
            if seen_dot {
                proof {
                    assert(body[k - start] == '.');
                    assert forall|d: int| !dot_at(body, d) by {
                        if dot_at(body, d) {
                            if d < k - start {
                                assert(body.subrange(d + 1, body.len() as int)[k - start - d - 1] == '.');
                            } else {
                                assert(body.subrange(0, d)[dot - start] == '.');
                            }
                        }
                    }
                    assert(body[k - start] == '.');
                }
                return None;
            }
            seen_dot = true;
            dot = k;
        } else if '0' <= c && c <= '9' {
            if seen_dot {
                fracs.push(c);
            } else {
                ints.push(c);
            }
        } else {
            proof {
                assert forall|d: int| !dot_at(body, d) by {
                    if dot_at(body, d) {
                        if k - start < d {
                            assert(body.subrange(0, d)[k - start] == c);
                        } else if k - start > d {
                            assert(body.subrange(d + 1, body.len() as int)[k - start - d - 1] == c);
                        }
                    }
                }
                assert(!is_digit(body[k - start]));
            }
            return None;
        }
        proof {
            if seen_dot {
                assert(fracs@ =~= body.subrange(dot - start + 1, k + 1 - start));
            } else {
                assert(ints@ =~= body.subrange(0, k + 1 - start));
            }
        }
        k += 1;
    }
    if ints.len() + fracs.len() == 0 {
        proof {
            assert forall|d: int| !dot_at(body, d) by {
                if dot_at(body, d) {
                    if seen_dot {
                        assert(body.len() == 1);
                    } else {
                        assert(body.subrange(0, body.len() as int)[d] == '.');
                        assert(body.subrange(0, k - start) =~= body);
                    }
                }
            }
            if !seen_dot {
                assert(body.subrange(0, k - start) =~= body);
            } else {
                assert(!is_digit(body[dot - start]));
            }
        }
        return None;
    }
    proof {
        if seen_dot {
            assert(fracs@ =~= body.subrange(dot - start + 1, body.len() as int));
            assert(dot_at(body, dot - start));
            let d = choose|d: int| dot_at(body, d);
            if d < dot - start {
                assert(body.subrange(0, dot - start)[d] == '.');
            } else if d > dot - start {
                assert(body.subrange(dot - start + 1, body.len() as int)[d - (dot - start) - 1]
                    == '.');
            }
        } else {
            assert(ints@ =~= body);
            assert forall|d: int| !dot_at(body, d) by {
                if dot_at(body, d) {
                    assert(!is_digit(body[d]));
                }
            }
        }
    }
    Some((negative, ints, fracs))
}

/// The `k`-th digit of the integer digits padded with zeros in front to
/// `width_int` and the fraction digits padded with zeros behind to `width_frac`.
pub open spec fn aligned(ints: Seq<char>, fracs: Seq<char>, width_int: nat, width_frac: nat) -> Seq<char> {
    zeros((width_int - ints.len()) as nat) + ints + fracs + zeros((width_frac - fracs.len()) as nat)
}

fn aligned_int_digit(ints: &Vec<char>, width_int: usize, k: usize) -> (c: char)
    requires
        ints@.len() <= width_int,
        k < width_int,
    ensures
        c == (zeros((width_int - ints@.len()) as nat) + ints@)[k as int],
{
    let lead = width_int - ints.len();
    if k < lead {
        '0'
    } else {
        ints[k - lead]
    }
}

fn aligned_frac_digit(fracs: &Vec<char>, width_frac: usize, k: usize) -> (c: char)
    requires
        fracs@.len() <= width_frac,
        k < width_frac,
    ensures
        c == (fracs@ + zeros((width_frac - fracs@.len()) as nat))[k as int],
{
    if k < fracs.len() {
        fracs[k]
    } else {
        '0'
    }
}

/// Compares `value(ia ++ fa) * 10^|fb|` with `value(ib ++ fb) * 10^|fa|`.
fn compare_magnitudes(ia: &Vec<char>, fa: &Vec<char>, ib: &Vec<char>, fb: &Vec<char>) -> (o: Ordering)
    requires
        all_digits(ia@),
        all_digits(fa@),
        all_digits(ib@),
        all_digits(fb@),
    ensures
        o == ordering_of(
            digits_value(ia@ + fa@) * pow(10, fb@.len()),
            digits_value(ib@ + fb@) * pow(10, fa@.len()),
        ),
{
    let wi = if ia.len() < ib.len() {
        ib.len()
    } else {
        ia.len()
    };
    let wf = if fa.len() < fb.len() {
        fb.len()
    } else {
        fa.len()
    };
    let ghost sa = aligned(ia@, fa@, wi as nat, wf as nat);
    let ghost sb = aligned(ib@, fb@, wi as nat, wf as nat);
    assert(sa.len() == wi + wf);
    assert(sb.len() == wi + wf);
    assert(all_digits(sa));
    assert(all_digits(sb));
    proof {
        lemma_aligned_value(ia@, fa@, wi as nat, wf as nat);
        lemma_aligned_value(ib@, fb@, wi as nat, wf as nat);
    }
    let mut k: usize = 0;
    while k < wi
        invariant
            sa == aligned(ia@, fa@, wi as nat, wf as nat),
            sb == aligned(ib@, fb@, wi as nat, wf as nat),
            sa.len() == wi + wf,
            sb.len() == wi + wf,
            all_digits(sa),
            all_digits(sb),
            ia@.len() <= wi,
            ib@.len() <= wi,
            fa@.len() <= wf,
            fb@.len() <= wf,
            wf == (if fa@.len() < fb@.len() {
                fb@.len()
            } else {
                fa@.len()
            }),
            k <= wi,
            sa.subrange(0, k as int) == sb.subrange(0, k as int),
        decreases wi - k,
    {
        let x = aligned_int_digit(ia, wi, k);
        let y = aligned_int_digit(ib, wi, k);
        proof {
            assert(sa[k as int] == x);
            assert(sb[k as int] == y);
        }
        if x < y {
            proof {
                lemma_lex_order(sa, sb, k as int);
                lemma_scaled_order(ia@, fa@, ib@, fb@, wi as nat, wf as nat);
            }
            return Ordering::Less;
        }
        if y < x {
            proof {
                lemma_lex_order(sb, sa, k as int);
                lemma_scaled_order(ia@, fa@, ib@, fb@, wi as nat, wf as nat);
            }
            return Ordering::Greater;
        }
        proof {
            assert(sa.subrange(0, k + 1) =~= sa.subrange(0, k as int).push(x));
            assert(sb.subrange(0, k + 1) =~= sb.subrange(0, k as int).push(y));
        }
        k += 1;
    }
    let mut j: usize = 0;
    while j < wf
        invariant
            sa == aligned(ia@, fa@, wi as nat, wf as nat),
            sb == aligned(ib@, fb@, wi as nat, wf as nat),
            sa.len() == wi + wf,
            sb.len() == wi + wf,
            all_digits(sa),
            all_digits(sb),
            ia@.len() <= wi,
            ib@.len() <= wi,
            fa@.len() <= wf,
            fb@.len() <= wf,
            wf == (if fa@.len() < fb@.len() {
                fb@.len()
            } else {
                fa@.len()
            }),
            j <= wf,
            sa.subrange(0, wi + j) == sb.subrange(0, wi + j),
        decreases wf - j,
    {
        let x = aligned_frac_digit(fa, wf, j);
        let y = aligned_frac_digit(fb, wf, j);
        proof {
            assert(sa[wi + j] == x);
            assert(sb[wi + j] == y);
        }
        if x < y {
            proof {
                lemma_lex_order(sa, sb, wi + j);
                lemma_scaled_order(ia@, fa@, ib@, fb@, wi as nat, wf as nat);
            }
            return Ordering::Less;
        }
        if y < x {
            proof {
                lemma_lex_order(sb, sa, wi + j);
                lemma_scaled_order(ia@, fa@, ib@, fb@, wi as nat, wf as nat);
            }
            return Ordering::Greater;
        }
        proof {
            assert(sa.subrange(0, wi + j + 1) =~= sa.subrange(0, wi + j).push(x));
            assert(sb.subrange(0, wi + j + 1) =~= sb.subrange(0, wi + j).push(y));
        }
        j += 1;
    }
    proof {
        assert(sa =~= sa.subrange(0, wi + wf));
        assert(sb =~= sb.subrange(0, wi + wf));
        lemma_scaled_order(ia@, fa@, ib@, fb@, wi as nat, wf as nat);
    }
    Ordering::Equal
}

proof fn lemma_aligned_value(ints: Seq<char>, fracs: Seq<char>, wi: nat, wf: nat)
    requires
        ints.len() <= wi,
        fracs.len() <= wf,
    ensures
        digits_value(aligned(ints, fracs, wi, wf)) == digits_value(ints + fracs) * pow(
            10,
            (wf - fracs.len()) as nat,
        ),
{
    let z1 = zeros((wi - ints.len()) as nat);
    let z2 = zeros((wf - fracs.len()) as nat);
    assert(aligned(ints, fracs, wi, wf) =~= z1 + (ints + fracs) + z2);
    lemma_value_split(z1 + (ints + fracs), z2);
    lemma_value_split(z1, ints + fracs);
    lemma_zeros_value((wi - ints.len()) as nat);
    lemma_zeros_value((wf - fracs.len()) as nat);
}

/// Scaling both aligned values by `10^min(|fa|, |fb|)` gives the values that
/// the decimal order compares.
proof fn lemma_scaled_order(ia: Seq<char>, fa: Seq<char>, ib: Seq<char>, fb: Seq<char>, wi: nat, wf: nat)
    requires
        ia.len() <= wi,
        ib.len() <= wi,
        wf == (if fa.len() < fb.len() {
            fb.len()
        } else {
            fa.len()
        }),
    ensures
        ordering_of(
            digits_value(aligned(ia, fa, wi, wf)) as int,
            digits_value(aligned(ib, fb, wi, wf)) as int,
        ) == ordering_of(
            digits_value(ia + fa) * pow(10, fb.len()),
            digits_value(ib + fb) * pow(10, fa.len()),
        ),
{
    lemma_aligned_value(ia, fa, wi, wf);
    lemma_aligned_value(ib, fb, wi, wf);
    let m: nat = (fa.len() + fb.len() - wf) as nat;
    let ea = (wf - fa.len()) as nat;
    let eb = (wf - fb.len()) as nat;
    lemma_pow_adds(10, ea, m);
    lemma_pow_adds(10, eb, m);
    assert(ea + m == fb.len());
    assert(eb + m == fa.len());
    lemma_pow_positive(10, m);
    let p = pow(10, m);
    let x = digits_value(ia + fa) * pow(10, ea);
    let y = digits_value(ib + fb) * pow(10, eb);
    assert(pow(10, fb.len()) == pow(10, ea) * p);
    assert(pow(10, fa.len()) == pow(10, eb) * p);
    let va = digits_value(ia + fa) as int;
    let vb = digits_value(ib + fb) as int;
    assert(va * pow(10, fb.len()) == x * p) by (nonlinear_arith)
        requires
            pow(10, fb.len()) == pow(10, ea) * p,
            x == va * pow(10, ea),
    ;
    assert(vb * pow(10, fa.len()) == y * p) by (nonlinear_arith)
        requires
            pow(10, fa.len()) == pow(10, eb) * p,
            y == vb * pow(10, eb),
    ;
    assert(x < y <==> x * p < y * p) by (nonlinear_arith)
        requires
            p > 0,
    ;
    assert(x == y <==> x * p == y * p) by (nonlinear_arith)
        requires
            p > 0,
    ;
}

fn all_zero(ds: &Vec<char>) -> (r: bool)
    ensures
        r == (forall|i: int| 0 <= i < ds@.len() ==> ds@[i] == '0'),
{
    let mut i: usize = 0;
    while i < ds.len()
        invariant
            i <= ds@.len(),
            forall|j: int| 0 <= j < i ==> ds@[j] == '0',
        decreases ds.len() - i,
    {
        if ds[i] != '0' {
            return false;
        }
        i += 1;
    }
    true
}

/// How the values of the decimals `lhs` and `rhs` compare; `None` when either
/// is no decimal.
pub fn compare_decimals(lhs: &str, rhs: &str) -> (r: Option<Ordering>)
    ensures
        r == decimal_order(lhs@, rhs@),
{
    let a = decimal_split(lhs);
    let b = decimal_split(rhs);
    match (a, b) {
        (Some((na, ia, fa)), Some((nb, ib, fb))) => {
            let ghost pa = (na, ia@, fa@);
            let ghost pb = (nb, ib@, fb@);
            let mo = compare_magnitudes(&ia, &fa, &ib, &fb);
            let ghost ma = digits_value(ia@ + fa@) * pow(10, fb@.len());
            let ghost mb = digits_value(ib@ + fb@) * pow(10, fa@.len());
            proof {
                lemma_pow_positive(10, fb@.len());
                lemma_pow_positive(10, fa@.len());
                assert(numerator(pa) * pow(10, fb@.len()) == if na { -ma } else { ma }) by (nonlinear_arith)
                    requires
                        numerator(pa) == if na {
                            -(digits_value(ia@ + fa@) as int)
                        } else {
                            digits_value(ia@ + fa@) as int
                        },
                        ma == digits_value(ia@ + fa@) * pow(10, fb@.len()),
                ;
                assert(numerator(pb) * pow(10, fa@.len()) == if nb { -mb } else { mb }) by (nonlinear_arith)
                    requires
                        numerator(pb) == if nb {
                            -(digits_value(ib@ + fb@) as int)
                        } else {
                            digits_value(ib@ + fb@) as int
                        },
                        mb == digits_value(ib@ + fb@) * pow(10, fa@.len()),
                ;
                assert(ma >= 0) by (nonlinear_arith)
                    requires
                        ma == digits_value(ia@ + fa@) * pow(10, fb@.len()),
                        pow(10, fb@.len()) > 0,
                ;
                assert(mb >= 0) by (nonlinear_arith)
                    requires
                        mb == digits_value(ib@ + fb@) * pow(10, fa@.len()),
                        pow(10, fa@.len()) > 0,
                ;
                lemma_value_zero(ia@ + fa@);
                lemma_value_zero(ib@ + fb@);
                assert(ma == 0 <==> digits_value(ia@ + fa@) == 0) by (nonlinear_arith)
                    requires
                        ma == digits_value(ia@ + fa@) * pow(10, fb@.len()),
                        pow(10, fb@.len()) > 0,
                ;
                assert(mb == 0 <==> digits_value(ib@ + fb@) == 0) by (nonlinear_arith)
                    requires
                        mb == digits_value(ib@ + fb@) * pow(10, fa@.len()),
                        pow(10, fa@.len()) > 0,
                ;
            }
            let za = all_zero(&ia) && all_zero(&fa);
            let zb = all_zero(&ib) && all_zero(&fb);
            proof {
                assert(za == (forall|i: int| 0 <= i < (ia@ + fa@).len() ==> (ia@ + fa@)[i] == '0')) by {
                    if za {
                        assert forall|i: int| 0 <= i < (ia@ + fa@).len() implies (ia@ + fa@)[i] == '0' by {
                            if i >= ia@.len() {
                                assert(fa@[i - ia@.len()] == '0');
                            }
                        }
                    }
                    if forall|i: int| 0 <= i < (ia@ + fa@).len() ==> (ia@ + fa@)[i] == '0' {
                        assert forall|i: int| 0 <= i < fa@.len() implies fa@[i] == '0' by {
                            assert((ia@ + fa@)[i + ia@.len()] == '0');
                        }
                        assert forall|i: int| 0 <= i < ia@.len() implies ia@[i] == '0' by {
                            assert((ia@ + fa@)[i] == '0');
                        }
                    }
                }
                assert(zb == (forall|i: int| 0 <= i < (ib@ + fb@).len() ==> (ib@ + fb@)[i] == '0')) by {
                    if zb {
                        assert forall|i: int| 0 <= i < (ib@ + fb@).len() implies (ib@ + fb@)[i] == '0' by {
                            if i >= ib@.len() {
                                assert(fb@[i - ib@.len()] == '0');
                            }
                        }
                    }
                    if forall|i: int| 0 <= i < (ib@ + fb@).len() ==> (ib@ + fb@)[i] == '0' {
                        assert forall|i: int| 0 <= i < fb@.len() implies fb@[i] == '0' by {
                            assert((ib@ + fb@)[i + ib@.len()] == '0');
                        }
                        assert forall|i: int| 0 <= i < ib@.len() implies ib@[i] == '0' by {
                            assert((ib@ + fb@)[i] == '0');
                        }
                    }
                }
            }
            let o = if !na && !nb {
                mo
            } else if na && nb {
                match mo {
                    Ordering::Less => Ordering::Greater,
                    Ordering::Equal => Ordering::Equal,
                    Ordering::Greater => Ordering::Less,
                }
            } else if za && zb {
                Ordering::Equal
            } else if na {
                Ordering::Less
            } else {
                Ordering::Greater
            };
            Some(o)
        },
        _ => None,
    }
}

} // verus!

verus! {

/// A text with two decimal points is no decimal.
pub proof fn two_dots_rejected(s: Seq<char>, i: int, j: int)
    requires
        0 <= i < j < s.len(),
        s[i] == '.',
        s[j] == '.',
    ensures
        decimal_parts(s) is None,
        forall|t: Seq<char>| #[trigger] decimal_order(s, t) is None && decimal_order(t, s) is None,
{
    let start = sign_len(s);
    let body = s.subrange(start, s.len() as int);
    assert(start <= i);
    assert(body[i - start] == '.');
    assert(body[j - start] == '.');
    assert forall|d: int| !dot_at(body, d) by {
        if dot_at(body, d) {
            if d <= i - start {
                assert(body.subrange(d + 1, body.len() as int)[j - start - d - 1] == '.');
            } else {
                assert(body.subrange(0, d)[i - start] == '.');
            }
        }
    }
    assert(!is_digit(body[i - start]));
}

} // verus!
