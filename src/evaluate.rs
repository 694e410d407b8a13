//! Numeric evaluation. Add, Sub, Mult and Div are exact; powers, trig
//! functions and logarithms leave exact arithmetic and are computed by a
//! caller-supplied `Transcendental`.
use vstd::prelude::*;
use crate::bank::{Bank, Letter, Value, inside, resolve_name};
use crate::derivative::{MAX_DEPTH, differentiate, ddx, resolve_deferred, eval_deriv_within};
use crate::error::EvalError;
use crate::expression::{Expression, Operation, copy_expression, is_trig_tag, trig_name};
use crate::rational::{Rational, SMALL, small, checked_sum, checked_difference, checked_product, checked_quotient};

verus! {

/// The transcendental functions that evaluation needs. Their results are
/// not exact and depend on the implementation; evaluation is correct for
/// whatever they return.
pub trait Transcendental {
    /// `base` raised to `exponent`, or `None` where it is not finite.
    fn power(&self, base: Rational, exponent: Rational) -> Option<Rational>;

    /// The trig function tagged `tag` (`s c t S C T`) at `arg`.
    fn trig(&self, tag: char, arg: Rational) -> Option<Rational>;

    /// The natural logarithm of `arg`.
    fn natural_log(&self, arg: Rational) -> Option<Rational>;

    /// The logarithm of `arg` in base `base`.
    fn log(&self, base: Rational, arg: Rational) -> Option<Rational>;
}

/// What the tree that a node stands for is, for `get_expression`: a name's
/// definition, the derivative of a pending derivative, the node itself
/// otherwise.
pub open spec fn expression_of(bank: Bank, e: Expression) -> Result<Expression, EvalError> {
    match e {
        Expression::Variable(v) => bank.resolve(v),
        Expression::Equa(eq) => if eq.operation == Operation::Deriv {
            differentiate(*eq.element1)
        } else {
            Ok(e)
        },
        Expression::Constant(_) => Err(EvalError::MalformedNodeShape),
    }
}

/// The tree a node stands for: the definition of a name, the derivative of
/// a pending derivative, or a copy of any other composite node.
pub fn get_expression(bank: &Bank, exp: &Expression) -> (r: Result<Expression, EvalError>)
    ensures
        r == expression_of(*bank, *exp),
{
    match exp {
        Expression::Variable(v) => resolve_name(bank, *v),
        Expression::Equa(e) => {
            if e.operation == Operation::Deriv {
                ddx(&e.element1)
            } else {
                Ok(copy_expression(exp))
            }
        },
        Expression::Constant(_) => Err(EvalError::MalformedNodeShape),
    }
}

/// The outcome of an evaluation.
/// - `Exact(num, den, max_numer, max_denom, sure)`: the exact value
///   `num/den`, with bounds on the numerator and denominator that the
///   computed rational stays within; `sure` holds when every arithmetic step
///   on the way had operands below `SMALL`, so that none can overflow.
/// - `Failed(error, sure)`: the evaluation fails with `error`; `sure` holds
///   when no arithmetic step before it can have overflowed.
/// - `Inexact`: the value went through a transcendental function.
pub enum Outcome {
    Exact(int, int, int, int, bool),
    Failed(EvalError, bool),
    Inexact,
}

/// Both bounds are below `SMALL`.
pub open spec fn fits(max_numer: int, max_denom: int) -> bool {
    max_numer < SMALL && max_denom < SMALL
}

/// What two operands give before any arithmetic: the first failure, or an
/// inexact result; `None` when both are exact.
pub open spec fn blocked(a: Outcome, b: Outcome) -> Option<Outcome> {
    match a {
        Outcome::Failed(e, s) => Some(Outcome::Failed(e, s)),
        Outcome::Inexact => Some(Outcome::Inexact),
        Outcome::Exact(_, _, _, _, sa) => match b {
            Outcome::Failed(e, sb) => Some(Outcome::Failed(e, sa && sb)),
            Outcome::Inexact => Some(Outcome::Inexact),
            Outcome::Exact(_, _, _, _, _) => None,
        },
    }
}

/// Exact arithmetic on two exact operands `n1/d1` and `n2/d2`, whose
/// computed rationals are bounded by `(m1, e1)` and `(m2, e2)`.
pub open spec fn arith(
    op: Operation,
    n1: int,
    d1: int,
    m1: int,
    e1: int,
    s1: bool,
    n2: int,
    d2: int,
    m2: int,
    e2: int,
    s2: bool,
) -> Outcome {
    let sure = s1 && s2 && fits(m1, e1) && fits(m2, e2);
    match op {
        Operation::Add => Outcome::Exact(n1 * d2 + n2 * d1, d1 * d2, m1 * e2 + m2 * e1, e1 * e2, sure),
        Operation::Sub => Outcome::Exact(n1 * d2 - n2 * d1, d1 * d2, m1 * e2 + m2 * e1, e1 * e2, sure),
        Operation::Mult => Outcome::Exact(n1 * n2, d1 * d2, m1 * m2, e1 * e2, sure),
        _ => if n2 == 0 {
            Outcome::Failed(EvalError::DivisionByZero, s1 && s2)
        } else {
            Outcome::Exact(n1 * d2, d1 * n2, m1 * e2, e1 * m2, sure)
        },
    }
}

/// What a binary arithmetic node gives from the outcomes of its operands.
pub open spec fn binary_outcome(op: Operation, a: Outcome, b: Outcome) -> Outcome {
    match blocked(a, b) {
        Some(o) => o,
        None => match (a, b) {
            (Outcome::Exact(n1, d1, m1, e1, s1), Outcome::Exact(n2, d2, m2, e2, s2)) => arith(
                op,
                n1,
                d1,
                m1,
                e1,
                s1,
                n2,
                d2,
                m2,
                e2,
                s2,
            ),
            _ => Outcome::Inexact,
        },
    }
}

/// The value of a tree at the point `x`, following at most `fuel` nested
/// lookups, derivatives and subtrees.
pub open spec fn eval_spec(e: Expression, bank: Bank, x: Rational, fuel: nat) -> Outcome
    decreases fuel,
{
    if fuel == 0 {
        Outcome::Failed(EvalError::DepthExceeded, true)
    } else {
        let f = (fuel - 1) as nat;
        match e {
            Expression::Constant(q) => if q.denom == 0 {
                Outcome::Failed(EvalError::MalformedNodeShape, true)
            } else {
                Outcome::Exact(q.num(), q.den(), q.numer as int, q.denom as int, true)
            },
            Expression::Variable(v) => if v == 'x' {
                Outcome::Exact(x.num(), x.den(), x.numer as int, x.denom as int, true)
            } else {
                match bank.resolve(v) {
                    Err(err) => Outcome::Failed(err, true),
                    Ok(t) => eval_spec(t, bank, x, f),
                }
            },
            Expression::Equa(eq) => {
                let a = eval_spec(*eq.element1, bank, x, f);
                let b = eval_spec(*eq.element2, bank, x, f);
                match eq.operation {
                    Operation::Add | Operation::Sub | Operation::Mult | Operation::Div => binary_outcome(
                        eq.operation,
                        a,
                        b,
                    ),
                    Operation::Exp => match blocked(a, b) {
                        Some(o) => o,
                        None => Outcome::Inexact,
                    },
                    Operation::Func => match expression_of(bank, *eq.element1) {
                        Err(err) => Outcome::Failed(err, true),
                        Ok(t) => eval_spec(t, bank, x, f),
                    },
                    Operation::Trig => match b {
                        Outcome::Failed(err, s) => Outcome::Failed(err, s),
                        Outcome::Inexact => Outcome::Inexact,
                        Outcome::Exact(_, _, _, _, s) => match *eq.element1 {
                            Expression::Variable(t) if trig_name(t).len() > 0 => Outcome::Inexact,
                            _ => Outcome::Failed(EvalError::UnrecognizedTrigTag, s),
                        },
                    },
                    Operation::Log => match b {
                        Outcome::Failed(err, s) => Outcome::Failed(err, s),
                        _ => if *eq.element1 == Expression::Variable('e') {
                            Outcome::Inexact
                        } else {
                            match (b, a) {
                                (Outcome::Exact(_, _, _, _, sb), Outcome::Failed(err, sa)) => Outcome::Failed(
                                    err,
                                    sb && sa,
                                ),
                                _ => Outcome::Inexact,
                            }
                        },
                    },
                    Operation::Deriv => match resolve_deferred(*eq.element1, bank, f) {
                        Err(err) => Outcome::Failed(err, true),
                        Ok(t) => eval_spec(t, bank, x, f),
                    },
                }
            },
        }
    }
}

/// An evaluation result meets an outcome: an exact outcome is returned as
/// an equal rational within the outcome's bounds, a failure as that error.
/// Only where the outcome is not `sure` may `Overflow` come back instead.
pub open spec fn agrees(r: Result<Rational, EvalError>, o: Outcome) -> bool {
    &&& r matches Ok(q) ==> q.wf()
    &&& match o {
        Outcome::Exact(n, d, m, e, sure) => (!sure && r == Err::<Rational, EvalError>(EvalError::Overflow))
            || (r matches Ok(q) && d != 0 && q.num() * d == n * q.den() && q.numer <= m && q.denom <= e),
        Outcome::Failed(err, sure) => r == Err::<Rational, EvalError>(err) || (!sure && r == Err::<
            Rational,
            EvalError,
        >(EvalError::Overflow)),
        Outcome::Inexact => true,
    }
}

/// Products of bounded nonnegative numbers are bounded.
proof fn lemma_mul_bound(x: int, y: int, bx: int, by: int)
    requires
        0 <= x <= bx,
        0 <= y <= by,
    ensures
        x * y <= bx * by,
{
    assert(x * y <= bx * by) by (nonlinear_arith)
        requires
            0 <= x <= bx,
            0 <= y <= by,
    ;
}

proof fn lemma_cancel(x: int, y: int, p: int)
    requires
        p != 0,
        x * p == y * p,
    ensures
        x == y,
{
    assert((x - y) * p == 0) by (nonlinear_arith)
        requires
            x * p == y * p,
    ;
    assert(x - y == 0) by (nonlinear_arith)
        requires
            (x - y) * p == 0,
            p != 0,
    ;
}

proof fn lemma_nonzero_product(a: int, b: int)
    requires
        a != 0,
        b != 0,
    ensures
        a * b != 0,
{
    assert(a * b != 0) by (nonlinear_arith)
        requires
            a != 0,
            b != 0,
    ;
}

/// From `a ~ n1/d1`, `b ~ n2/d2` and `q` the sum (`sign` 1) or difference
/// (`sign` -1) of `a` and `b`.
proof fn lemma_sum(an: int, ad: int, bn: int, bd: int, qn: int, qd: int, n1: int, d1: int, n2: int, d2: int, sign: int)
    requires
        ad > 0,
        bd > 0,
        an * d1 == n1 * ad,
        bn * d2 == n2 * bd,
        qn * (ad * bd) == (an * bd + sign * bn * ad) * qd,
    ensures
        qn * (d1 * d2) == (n1 * d2 + sign * n2 * d1) * qd,
{
    let p = ad * bd;
    assert(p > 0) by (nonlinear_arith)
        requires
            ad > 0,
            bd > 0,
            p == ad * bd,
    ;
    assert(qn * (d1 * d2) * p == (qn * (ad * bd)) * (d1 * d2)) by (nonlinear_arith)
        requires
            p == ad * bd,
    ;
    let x = an * bd;
    let y = sign * bn * ad;
    let w = qd * (d1 * d2);
    assert((qn * (ad * bd)) * (d1 * d2) == ((x + y) * qd) * (d1 * d2));
    assert(((x + y) * qd) * (d1 * d2) == x * w + y * w) by (nonlinear_arith)
        requires
            w == qd * (d1 * d2),
    ;
    assert(x * w == (an * d1) * (bd * d2 * qd)) by (nonlinear_arith)
        requires
            x == an * bd,
            w == qd * (d1 * d2),
    ;
    let u = bn * ad;
    assert(y * w == sign * (u * w)) by (nonlinear_arith)
        requires
            y == sign * bn * ad,
            u == bn * ad,
    ;
    assert(u * w == (bn * d2) * (ad * d1 * qd)) by (nonlinear_arith)
        requires
            u == bn * ad,
            w == qd * (d1 * d2),
    ;
    assert((an * d1) * (bd * d2 * qd) == (n1 * ad) * (bd * d2 * qd));
    assert(sign * ((bn * d2) * (ad * d1 * qd)) == sign * ((n2 * bd) * (ad * d1 * qd)));
    assert((n1 * ad) * (bd * d2 * qd) == (n1 * d2 * qd) * p) by (nonlinear_arith)
        requires
            p == ad * bd,
    ;
    let m = (n2 * bd) * (ad * d1 * qd);
    assert(m == (n2 * d1 * qd) * p) by (nonlinear_arith)
        requires
            p == ad * bd,
            m == (n2 * bd) * (ad * d1 * qd),
    ;
    assert(sign * m == sign * ((n2 * d1 * qd) * p));
    assert(sign * ((n2 * d1 * qd) * p) == (sign * n2 * d1 * qd) * p) by (nonlinear_arith);
    assert((n1 * d2 * qd) * p + (sign * n2 * d1 * qd) * p == ((n1 * d2 + sign * n2 * d1) * qd) * p) by (nonlinear_arith);
    lemma_cancel(qn * (d1 * d2), (n1 * d2 + sign * n2 * d1) * qd, p);
}

/// From `a ~ n1/d1`, `b ~ n2/d2` and `q` the product of `a` and `b`.
proof fn lemma_product(an: int, ad: int, bn: int, bd: int, qn: int, qd: int, n1: int, d1: int, n2: int, d2: int)
    requires
        ad > 0,
        bd > 0,
        an * d1 == n1 * ad,
        bn * d2 == n2 * bd,
        qn * (ad * bd) == (an * bn) * qd,
    ensures
        qn * (d1 * d2) == (n1 * n2) * qd,
{
    let p = ad * bd;
    assert(p > 0) by (nonlinear_arith)
        requires
            ad > 0,
            bd > 0,
            p == ad * bd,
    ;
    assert(qn * (d1 * d2) * p == (qn * (ad * bd)) * (d1 * d2)) by (nonlinear_arith)
        requires
            p == ad * bd,
    ;
    assert((qn * (ad * bd)) * (d1 * d2) == ((an * bn) * qd) * (d1 * d2));
    assert(((an * bn) * qd) * (d1 * d2) == (an * d1) * (bn * d2) * qd) by (nonlinear_arith);
    assert((an * d1) * (bn * d2) * qd == (n1 * ad) * (n2 * bd) * qd);
    assert((n1 * ad) * (n2 * bd) * qd == ((n1 * n2) * qd) * p) by (nonlinear_arith)
        requires
            p == ad * bd,
    ;
    lemma_cancel(qn * (d1 * d2), (n1 * n2) * qd, p);
}

/// From `a ~ n1/d1`, `b ~ n2/d2` and `q` the quotient of `a` by `b`.
proof fn lemma_quotient(an: int, ad: int, bn: int, bd: int, qn: int, qd: int, n1: int, d1: int, n2: int, d2: int)
    requires
        ad > 0,
        bd > 0,
        bn != 0,
        an * d1 == n1 * ad,
        bn * d2 == n2 * bd,
        qn * (ad * bn) == (an * bd) * qd,
    ensures
        qn * (d1 * n2) == (n1 * d2) * qd,
{
    let p = ad * bn;
    lemma_nonzero_product(ad, bn);
    assert(qn * (d1 * n2) * p == (qn * (ad * bn)) * (d1 * n2)) by (nonlinear_arith)
        requires
            p == ad * bn,
    ;
    assert((qn * (ad * bn)) * (d1 * n2) == ((an * bd) * qd) * (d1 * n2));
    assert(((an * bd) * qd) * (d1 * n2) == (an * d1) * (n2 * bd) * qd) by (nonlinear_arith);
    assert((an * d1) * (n2 * bd) * qd == (n1 * ad) * (bn * d2) * qd);
    assert((n1 * ad) * (bn * d2) * qd == ((n1 * d2) * qd) * p) by (nonlinear_arith)
        requires
            p == ad * bn,
    ;
    lemma_cancel(qn * (d1 * n2), (n1 * d2) * qd, p);
}

/// The zero test of `b ~ n/d` agrees with that of `n`.
proof fn lemma_zero_agrees(bn: int, bd: int, n: int, d: int)
    requires
        bd > 0,
        d != 0,
        bn * d == n * bd,
    ensures
        (bn == 0) == (n == 0),
{
    if bn == 0 {
        assert(n * bd == 0);
        if n != 0 {
            lemma_nonzero_product(n, bd);
        }
    } else {
        lemma_nonzero_product(bn, d);
    }
}

/// A rational handed back by the caller's `Transcendental`, kept only where
/// it is well formed.
fn checked_outside(v: Option<Rational>) -> (r: Result<Rational, EvalError>)
    ensures
        r matches Ok(q) ==> q.wf(),
{
    match v {
        Some(q) => if q.denom > 0 {
            Ok(q)
        } else {
            Err(EvalError::NotFinite)
        },
        None => Err(EvalError::NotFinite),
    }
}

/// Exact arithmetic on two evaluated operands.
#[verifier::rlimit(60)]
fn exact_arith(op: Operation, a: Rational, b: Rational, ao: Ghost<Outcome>, bo: Ghost<Outcome>) -> (r: Result<Rational, EvalError>)
    requires
        a.wf(),
        b.wf(),
        op == Operation::Add || op == Operation::Sub || op == Operation::Mult || op == Operation::Div,
        agrees(Ok(a), ao@),
        agrees(Ok(b), bo@),
    ensures
        agrees(r, binary_outcome(op, ao@, bo@)),
{
    proof {
        if let (Outcome::Exact(n1, d1, m1, e1, s1), Outcome::Exact(n2, d2, m2, e2, s2)) = (ao@, bo@) {
            lemma_nonzero_product(d1, d2);
            lemma_zero_agrees(b.num(), b.den(), n2, d2);
            if n2 != 0 {
                lemma_nonzero_product(d1, n2);
            }
            if fits(m1, e1) && fits(m2, e2) {
                assert(small(a) && small(b));
            }
        }
    }
    let v = match op {
        Operation::Add => checked_sum(a, b),
        Operation::Sub => checked_difference(a, b),
        Operation::Mult => checked_product(a, b),
        _ => {
            if b.is_zero() {
                proof {
                    if let (Outcome::Exact(n1, d1, m1, e1, s1), Outcome::Exact(n2, d2, m2, e2, s2)) = (ao@, bo@) {
                        lemma_zero_agrees(b.num(), b.den(), n2, d2);
                    }
                }
                return Err(EvalError::DivisionByZero);
            }
            checked_quotient(a, b)
        },
    };
    match v {
        None => {
            proof {
                if let (Outcome::Exact(n1, d1, m1, e1, s1), Outcome::Exact(n2, d2, m2, e2, s2)) = (ao@, bo@) {
                    assert(binary_outcome(op, ao@, bo@) == arith(op, n1, d1, m1, e1, s1, n2, d2, m2, e2, s2));
                    assert(!(fits(m1, e1) && fits(m2, e2)));
                }
            }
            Err(EvalError::Overflow)
        },
        Some(q) => {
            proof {
                if let (Outcome::Exact(n1, d1, m1, e1, s1), Outcome::Exact(n2, d2, m2, e2, s2)) = (ao@, bo@) {
                    assert(binary_outcome(op, ao@, bo@) == arith(op, n1, d1, m1, e1, s1, n2, d2, m2, e2, s2));
                    lemma_nonzero_product(d1, d2);
                    let an = a.numer as int;
                    let ad = a.denom as int;
                    let bn = b.numer as int;
                    let bd = b.denom as int;
                    match op {
                        Operation::Add => {
                            assert((a.num() * b.den() + b.num() * a.den()) == (a.num() * b.den() + 1 * b.num() * a.den())) by (nonlinear_arith);
                            lemma_sum(a.num(), a.den(), b.num(), b.den(), q.num(), q.den(), n1, d1, n2, d2, 1);
                            assert(n1 * d2 + 1 * n2 * d1 == n1 * d2 + n2 * d1) by (nonlinear_arith);
                            lemma_mul_bound(an, bd, m1, e2);
                            lemma_mul_bound(bn, ad, m2, e1);
                            lemma_mul_bound(ad, bd, e1, e2);
                        },
                        Operation::Sub => {
                            assert((a.num() * b.den() - b.num() * a.den()) == (a.num() * b.den() + (-1) * b.num() * a.den())) by (nonlinear_arith);
                            lemma_sum(a.num(), a.den(), b.num(), b.den(), q.num(), q.den(), n1, d1, n2, d2, -1);
                            assert(n1 * d2 + (-1) * n2 * d1 == n1 * d2 - n2 * d1) by (nonlinear_arith);
                            lemma_mul_bound(an, bd, m1, e2);
                            lemma_mul_bound(bn, ad, m2, e1);
                            lemma_mul_bound(ad, bd, e1, e2);
                        },
                        Operation::Mult => {
                            lemma_product(a.num(), a.den(), b.num(), b.den(), q.num(), q.den(), n1, d1, n2, d2);
                            lemma_mul_bound(an, bn, m1, m2);
                            lemma_mul_bound(ad, bd, e1, e2);
                        },
                        _ => {
                            lemma_zero_agrees(b.num(), b.den(), n2, d2);
                            lemma_nonzero_product(d1, n2);
                            lemma_quotient(a.num(), a.den(), b.num(), b.den(), q.num(), q.den(), n1, d1, n2, d2);
                            lemma_mul_bound(an, bd, m1, e2);
                            lemma_mul_bound(ad, bn, e1, m2);
                        },
                    }
                }
            }
            Ok(q)
        },
    }
}

#[verifier::rlimit(50)]
/// Evaluates `e` at the point `x`, following at most `fuel` nested
/// lookups, derivatives and subtrees.
pub fn evaluate_within<T: Transcendental>(e: &Expression, bank: &Bank, x: Rational, math: &T, fuel: usize) -> (r: Result<Rational, EvalError>)
    requires
        x.wf(),
    ensures
        agrees(r, eval_spec(*e, *bank, x, fuel as nat)),
        (*e matches Expression::Variable(v) && v != 'x' && fuel > 0 && bank.resolve(v) is Err) ==> r
            == Err::<Rational, EvalError>(bank.resolve(e->Variable_0)->Err_0),
    decreases fuel,
{
    if fuel == 0 {
        return Err(EvalError::DepthExceeded);
    }
    let f = fuel - 1;
    match e {
        Expression::Constant(q) => {
            if q.denom == 0 {
                Err(EvalError::MalformedNodeShape)
            } else {
                Ok(*q)
            }
        },
        Expression::Variable(v) => {
            if *v == 'x' {
                Ok(x)
            } else {
                match resolve_name(bank, *v) {
                    Err(err) => Err(err),
                    Ok(t) => evaluate_within(&t, bank, x, math, f),
                }
            }
        },
        Expression::Equa(eq) => {
            let ghost ao = eval_spec(*eq.element1, *bank, x, f as nat);
            let ghost bo = eval_spec(*eq.element2, *bank, x, f as nat);
            match eq.operation {
                Operation::Add | Operation::Sub | Operation::Mult | Operation::Div => {
                    assert(eval_spec(*e, *bank, x, fuel as nat) == binary_outcome(eq.operation, ao, bo));
                    let a = match evaluate_within(&eq.element1, bank, x, math, f) {
                        Err(err) => return Err(err),
                        Ok(v) => v,
                    };
                    let b = match evaluate_within(&eq.element2, bank, x, math, f) {
                        Err(err) => return Err(err),
                        Ok(v) => v,
                    };
                    exact_arith(eq.operation, a, b, Ghost(ao), Ghost(bo))
                },
                Operation::Exp => {
                    let a = match evaluate_within(&eq.element1, bank, x, math, f) {
                        Err(err) => return Err(err),
                        Ok(v) => v,
                    };
                    let b = match evaluate_within(&eq.element2, bank, x, math, f) {
                        Err(err) => return Err(err),
                        Ok(v) => v,
                    };
                    checked_outside(math.power(a, b))
                },
                Operation::Func => match get_expression(bank, &eq.element1) {
                    Err(err) => Err(err),
                    Ok(t) => evaluate_within(&t, bank, x, math, f),
                },
                Operation::Trig => {
                    let b = match evaluate_within(&eq.element2, bank, x, math, f) {
                        Err(err) => return Err(err),
                        Ok(v) => v,
                    };
                    match &*eq.element1 {
                        Expression::Variable(t) => {
                            if is_trig_tag(*t) {
                                checked_outside(math.trig(*t, b))
                            } else {
                                Err(EvalError::UnrecognizedTrigTag)
                            }
                        },
                        _ => Err(EvalError::UnrecognizedTrigTag),
                    }
                },
                Operation::Log => {
                    let b = match evaluate_within(&eq.element2, bank, x, math, f) {
                        Err(err) => return Err(err),
                        Ok(v) => v,
                    };
                    let natural = match &*eq.element1 {
                        Expression::Variable(c) => *c == 'e',
                        _ => false,
                    };
                    if natural {
                        checked_outside(math.natural_log(b))
                    } else {
                        let a = match evaluate_within(&eq.element1, bank, x, math, f) {
                            Err(err) => return Err(err),
                            Ok(v) => v,
                        };
                        checked_outside(math.log(a, b))
                    }
                },
                Operation::Deriv => match eval_deriv_within(&eq.element1, bank, f) {
                    Err(err) => Err(err),
                    Ok(t) => evaluate_within(&t, bank, x, math, f),
                },
            }
        },
    }
}

impl Expression {
    /// The value of the tree at the point `x`, with names resolved in
    /// `bank` at the time of the call.
    pub fn evaluate<T: Transcendental>(&self, bank: &Bank, x: Rational, math: &T) -> (r: Result<Rational, EvalError>)
        requires
            x.wf(),
        ensures
            agrees(r, eval_spec(*self, *bank, x, MAX_DEPTH as nat)),
            (*self matches Expression::Variable(v) && v != 'x' && bank.resolve(v) is Err) ==> r == Err::<
                Rational,
                EvalError,
            >(bank.resolve(self->Variable_0)->Err_0),
    {
        evaluate_within(self, bank, x, math, MAX_DEPTH)
    }
}

impl Letter {
    /// The value of the entry's definition at `x`; an undefined entry is a
    /// lookup error.
    pub fn evaluate<T: Transcendental>(&self, bank: &Bank, x: Rational, math: &T) -> (r: Result<Rational, EvalError>)
        requires
            x.wf(),
        ensures
            match inside(*self) {
                Value::Defined(e) => agrees(r, eval_spec(e, *bank, x, MAX_DEPTH as nat)),
                Value::Undefined => r == Err::<Rational, EvalError>(EvalError::UndefinedEntry),
            },
    {
        match self.get_inside() {
            Value::Defined(e) => e.evaluate(bank, x, math),
            Value::Undefined => Err(EvalError::UndefinedEntry),
        }
    }
}

} // verus!
