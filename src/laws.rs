//! Laws of the library, stated over the spec functions of the other modules
//! and proved from them.
use vstd::prelude::*;
use crate::bank::Bank;
use crate::derivative::{differentiate, int_const, resolve_deferred};
use crate::error::EvalError;
use crate::evaluate::{Outcome, arith, eval_spec, fits};
use crate::expression::{Expression, Operation, node};
use crate::rational::{Rational, small};

verus! {

/// The tree of `3*x`.
pub open spec fn three_x() -> Expression {
    node(Operation::Mult, int_const(3), Expression::Variable('x'))
}

/// A pending derivative of a constant evaluates to zero.
proof fn lemma_pending_constant(c: Rational, tag: char, bank: Bank, x: Rational, fuel: nat)
    requires
        fuel >= 2,
    ensures
        eval_spec(node(Operation::Deriv, Expression::Constant(c), Expression::Variable(tag)), bank, x, fuel)
            == Outcome::Exact(0int, 1int, 0int, 1int, true),
{
    assert(resolve_deferred(Expression::Constant(c), bank, (fuel - 1) as nat) == Ok::<Expression, EvalError>(int_const(0)));
    assert(eval_spec(int_const(0), bank, x, (fuel - 1) as nat) == Outcome::Exact(0int, 1int, 0int, 1int, true));
}

/// A pending derivative of the free variable evaluates to one.
proof fn lemma_pending_variable(tag: char, bank: Bank, x: Rational, fuel: nat)
    requires
        fuel >= 2,
    ensures
        eval_spec(node(Operation::Deriv, Expression::Variable('x'), Expression::Variable(tag)), bank, x, fuel)
            == Outcome::Exact(1int, 1int, 1int, 1int, true),
{
    assert(resolve_deferred(Expression::Variable('x'), bank, (fuel - 1) as nat) == Ok::<Expression, EvalError>(int_const(1)));
    assert(eval_spec(int_const(1), bank, x, (fuel - 1) as nat) == Outcome::Exact(1int, 1int, 1int, 1int, true));
}

/// A pending second derivative of a constant, or of the free variable,
/// evaluates to zero.
proof fn lemma_pending_second(leaf: Expression, bank: Bank, x: Rational, fuel: nat)
    requires
        fuel >= 3,
        leaf is Constant || leaf == Expression::Variable('x'),
    ensures
        eval_spec(
            node(Operation::Deriv, node(Operation::Deriv, leaf, Expression::Variable('!')), Expression::Variable('!')),
            bank,
            x,
            fuel,
        ) == Outcome::Exact(0int, 1int, 0int, 1int, true),
{
    let f = (fuel - 1) as nat;
    let g = (f - 1) as nat;
    let first = if leaf is Constant { int_const(0) } else { int_const(1) };
    assert(resolve_deferred(leaf, bank, g) == Ok::<Expression, EvalError>(first));
    assert(resolve_deferred(first, bank, g) == Ok::<Expression, EvalError>(int_const(0)));
    assert(resolve_deferred(node(Operation::Deriv, leaf, Expression::Variable('!')), bank, f) == Ok::<
        Expression,
        EvalError,
    >(int_const(0)));
    assert(eval_spec(int_const(0), bank, x, f) == Outcome::Exact(0int, 1int, 0int, 1int, true));
}

/// The derivative of `3*x` evaluates to 3 at every point, whatever the bank;
/// where `x` has numerator and denominator below `SMALL`, no step can
/// overflow.
pub proof fn lemma_derivative_of_three_x(bank: Bank, x: Rational, fuel: nat)
    requires
        x.wf(),
        fuel >= 4,
    ensures
        differentiate(three_x()) matches Ok(d) && eval_spec(d, bank, x, fuel) matches Outcome::Exact(
            n,
            m,
            _,
            _,
            sure,
        ) && n == 3 * m && m != 0 && (small(x) ==> sure),
{
    let x_leaf = Expression::Variable('x');
    let three = int_const(3);
    let d3 = node(Operation::Deriv, three, Expression::Variable('?'));
    let dx = node(Operation::Deriv, x_leaf, Expression::Variable('?'));
    let a = node(Operation::Mult, x_leaf, d3);
    let b = node(Operation::Mult, three, dx);
    assert(differentiate(three) == Ok::<Expression, EvalError>(d3));
    assert(differentiate(x_leaf) == Ok::<Expression, EvalError>(dx));
    assert(differentiate(three_x()) == Ok::<Expression, EvalError>(node(Operation::Add, a, b)));
    let f = (fuel - 1) as nat;
    let g = (f - 1) as nat;
    let (xn, xd, xm, xe) = (x.num(), x.den(), x.numer as int, x.denom as int);
    lemma_pending_constant(three->Constant_0, '?', bank, x, g);
    lemma_pending_variable('?', bank, x, g);
    assert(eval_spec(x_leaf, bank, x, g) == Outcome::Exact(xn, xd, xm, xe, true));
    assert(eval_spec(three, bank, x, g) == Outcome::Exact(3int, 1int, 3int, 1int, true));
    assert(eval_spec(a, bank, x, f) == arith(Operation::Mult, xn, xd, xm, xe, true, 0, 1, 0, 1, true));
    assert(eval_spec(b, bank, x, f) == arith(Operation::Mult, 3, 1, 3, 1, true, 1, 1, 1, 1, true));
    assert(xn * 0 == 0 && xm * 0 == 0) by (nonlinear_arith);
}

/// The derivative of the derivative of `3*x` evaluates to 0 at every point,
/// whatever the bank; where `x` has numerator and denominator below `SMALL`,
/// no step can overflow.
pub proof fn lemma_second_derivative_of_three_x(bank: Bank, x: Rational, fuel: nat)
    requires
        x.wf(),
        fuel >= 6,
    ensures
        differentiate(three_x()) matches Ok(d) && differentiate(d) matches Ok(d2) && eval_spec(
            d2,
            bank,
            x,
            fuel,
        ) matches Outcome::Exact(n, m, _, _, sure) && n == 0 && m != 0 && (small(x) ==> sure),
{
    let x_leaf = Expression::Variable('x');
    let q = Expression::Variable('?');
    let bang = Expression::Variable('!');
    let three = int_const(3);
    let d3 = node(Operation::Deriv, three, q);
    let dx = node(Operation::Deriv, x_leaf, q);
    let dq = node(Operation::Deriv, q, q);
    let dd3 = node(Operation::Deriv, node(Operation::Deriv, three, bang), bang);
    let ddx = node(Operation::Deriv, node(Operation::Deriv, x_leaf, bang), bang);
    let a = node(Operation::Mult, x_leaf, d3);
    let b = node(Operation::Mult, three, dx);
    assert(differentiate(three) == Ok::<Expression, EvalError>(d3));
    assert(differentiate(x_leaf) == Ok::<Expression, EvalError>(dx));
    assert(differentiate(q) == Ok::<Expression, EvalError>(dq));
    assert(differentiate(three_x()) == Ok::<Expression, EvalError>(node(Operation::Add, a, b)));
    assert(differentiate(d3) == Ok::<Expression, EvalError>(dd3));
    assert(differentiate(dx) == Ok::<Expression, EvalError>(ddx));
    let a2 = node(Operation::Add, node(Operation::Mult, d3, dx), node(Operation::Mult, x_leaf, dd3));
    let b2 = node(Operation::Add, node(Operation::Mult, dx, d3), node(Operation::Mult, three, ddx));
    assert(differentiate(a) == Ok::<Expression, EvalError>(a2));
    assert(differentiate(b) == Ok::<Expression, EvalError>(b2));
    assert(differentiate(node(Operation::Add, a, b)) == Ok::<Expression, EvalError>(node(Operation::Add, a2, b2)));
    let f = (fuel - 1) as nat;
    let g = (f - 1) as nat;
    let h = (g - 1) as nat;
    let (xn, xd, xm, xe) = (x.num(), x.den(), x.numer as int, x.denom as int);
    lemma_pending_constant(three->Constant_0, '?', bank, x, h);
    lemma_pending_variable('?', bank, x, h);
    lemma_pending_second(three, bank, x, h);
    lemma_pending_second(x_leaf, bank, x, h);
    assert(eval_spec(x_leaf, bank, x, h) == Outcome::Exact(xn, xd, xm, xe, true));
    assert(eval_spec(three, bank, x, h) == Outcome::Exact(3int, 1int, 3int, 1int, true));
    assert(xn * 0 == 0 && xm * 0 == 0) by (nonlinear_arith);
    assert(eval_spec(node(Operation::Mult, d3, dx), bank, x, g) == Outcome::Exact(0int, 1int, 0int, 1int, true));
    assert(eval_spec(node(Operation::Mult, x_leaf, dd3), bank, x, g) == arith(Operation::Mult, xn, xd, xm, xe, true, 0, 1, 0, 1, true));
    assert(eval_spec(node(Operation::Mult, dx, d3), bank, x, g) == Outcome::Exact(0int, 1int, 0int, 1int, true));
    assert(eval_spec(node(Operation::Mult, three, ddx), bank, x, g) == Outcome::Exact(0int, 1int, 0int, 1int, true));
    assert(eval_spec(a2, bank, x, f) == arith(Operation::Add, 0, 1, 0, 1, true, 0, xd, 0, xe, fits(xm, xe)));
    assert(eval_spec(b2, bank, x, f) == Outcome::Exact(0int, 1int, 0int, 1int, true));
}

/// Evaluating a name that the bank does not define gives a lookup error:
/// `UnboundName` where the bank has no entry for it, `UndefinedIdentifier`
/// where its entry is undefined.
pub proof fn lemma_undefined_name_is_lookup_error(bank: Bank, name: char, x: Rational, fuel: nat)
    requires
        name != 'x',
        fuel >= 1,
        bank.resolve(name) is Err,
    ensures
        eval_spec(Expression::Variable(name), bank, x, fuel) == Outcome::Failed(bank.resolve(name)->Err_0, true),
        bank.resolve(name)->Err_0 == EvalError::UnboundName(name) || bank.resolve(name)->Err_0
            == EvalError::UndefinedIdentifier(name),
{
}

} // verus!
