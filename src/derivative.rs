//! Symbolic differentiation. The rules build the derivative tree directly
//! from the children and their derivatives; no simplification follows.
//! Leaves are not differentiated here: they become pending derivative
//! nodes, which `eval_deriv` resolves against a bank.
use vstd::prelude::*;
use crate::bank::{Bank, resolve_name};
use crate::error::EvalError;
use crate::expression::{Expression, Operation, node, make_node, copy_expression};
use crate::rational::Rational;

verus! {

/// The constant `n`.
pub open spec fn int_const(n: u64) -> Expression {
    Expression::Constant(Rational { negative: false, numer: n, denom: 1 })
}

/// Builds the constant `n`.
pub fn make_int(n: u64) -> (r: Expression)
    ensures
        r == int_const(n),
{
    Expression::Constant(Rational::from_integer(n))
}

/// The natural log of `a`.
pub open spec fn ln_of(a: Expression) -> Expression {
    node(Operation::Log, Expression::Variable('e'), a)
}

/// `1/((1-g^2)^(1/2))`, the derivative of arcsin at `g`.
pub open spec fn arcsin_factor(g: Expression) -> Expression {
    node(
        Operation::Div,
        int_const(1),
        node(
            Operation::Exp,
            node(Operation::Sub, int_const(1), node(Operation::Exp, g, int_const(2))),
            node(Operation::Div, int_const(1), int_const(2)),
        ),
    )
}

/// The derivative of the trig function tagged `tag` at `g`, before the
/// chain rule's factor.
pub open spec fn trig_rule(tag: char, g: Expression) -> Option<Expression> {
    if tag == 's' {
        Some(node(Operation::Trig, Expression::Variable('c'), g))
    } else if tag == 'c' {
        Some(node(Operation::Sub, int_const(0), node(Operation::Trig, Expression::Variable('s'), g)))
    } else if tag == 't' {
        Some(node(Operation::Div, int_const(1), node(Operation::Exp, node(Operation::Trig, Expression::Variable('c'), g), int_const(2))))
    } else if tag == 'S' {
        Some(arcsin_factor(g))
    } else if tag == 'C' {
        Some(node(Operation::Sub, int_const(0), arcsin_factor(g)))
    } else if tag == 'T' {
        Some(node(Operation::Div, int_const(1), node(Operation::Add, int_const(1), node(Operation::Exp, g, int_const(2)))))
    } else {
        None
    }
}

/// The derivative of `op(f, g)`, given the derivatives `fp` and `gp` of the
/// children.
pub open spec fn ddx_rule(op: Operation, f: Expression, g: Expression, fp: Expression, gp: Expression) -> Result<Expression, EvalError> {
    match op {
        Operation::Add => Ok(node(Operation::Add, fp, gp)),
        Operation::Sub => Ok(node(Operation::Sub, fp, gp)),
        Operation::Mult => Ok(node(Operation::Add, node(Operation::Mult, g, fp), node(Operation::Mult, f, gp))),
        Operation::Div => Ok(node(
            Operation::Div,
            node(Operation::Sub, node(Operation::Mult, g, fp), node(Operation::Mult, f, gp)),
            node(Operation::Exp, g, int_const(2)),
        )),
        Operation::Func => Ok(node(Operation::Mult, node(Operation::Func, fp, g), gp)),
        Operation::Exp => Ok(node(
            Operation::Mult,
            node(Operation::Exp, f, g),
            node(
                Operation::Add,
                node(Operation::Mult, gp, ln_of(f)),
                node(Operation::Div, node(Operation::Mult, fp, g), f),
            ),
        )),
        Operation::Trig => match f {
            Expression::Variable(tag) => match trig_rule(tag, g) {
                Some(d) => Ok(node(Operation::Mult, d, gp)),
                None => Err(EvalError::UnrecognizedTrigTag),
            },
            _ => Err(EvalError::UnrecognizedTrigTag),
        },
        Operation::Log => match f {
            Expression::Variable(b) => if b == 'e' {
                Ok(node(Operation::Mult, node(Operation::Div, int_const(1), g), gp))
            } else {
                Ok(node(Operation::Mult, node(Operation::Div, int_const(1), node(Operation::Mult, g, ln_of(f))), gp))
            },
            Expression::Constant(_) => Ok(node(Operation::Mult, node(Operation::Div, int_const(1), node(Operation::Mult, g, ln_of(f))), gp)),
            Expression::Equa(_) => Err(EvalError::UnrecognizedLogBase),
        },
        Operation::Deriv => Ok(node(Operation::Deriv, node(Operation::Deriv, f, Expression::Variable('!')), Expression::Variable('!'))),
    }
}

/// The structural derivative of a tree.
pub open spec fn differentiate(e: Expression) -> Result<Expression, EvalError>
    decreases e,
{
    match e {
        Expression::Equa(eq) => match differentiate(*eq.element1) {
            Err(err) => Err(err),
            Ok(fp) => match differentiate(*eq.element2) {
                Err(err) => Err(err),
                Ok(gp) => ddx_rule(eq.operation, *eq.element1, *eq.element2, fp, gp),
            },
        },
        _ => Ok(node(Operation::Deriv, e, Expression::Variable('?'))),
    }
}

/// Builds the derivative of the trig function tagged `tag` at `g`.
fn trig_rule_exec(tag: char, g: &Expression) -> (r: Option<Expression>)
    ensures
        r == trig_rule(tag, *g),
{
    let arcsin = |g: &Expression| -> (r: Expression)
        ensures
            r == arcsin_factor(*g),
        {
            make_node(
                Operation::Div,
                make_int(1),
                make_node(
                    Operation::Exp,
                    make_node(Operation::Sub, make_int(1), make_node(Operation::Exp, copy_expression(g), make_int(2))),
                    make_node(Operation::Div, make_int(1), make_int(2)),
                ),
            )
        };
    if tag == 's' {
        Some(make_node(Operation::Trig, Expression::Variable('c'), copy_expression(g)))
    } else if tag == 'c' {
        Some(make_node(Operation::Sub, make_int(0), make_node(Operation::Trig, Expression::Variable('s'), copy_expression(g))))
    } else if tag == 't' {
        Some(make_node(Operation::Div, make_int(1), make_node(Operation::Exp, make_node(Operation::Trig, Expression::Variable('c'), copy_expression(g)), make_int(2))))
    } else if tag == 'S' {
        Some(arcsin(g))
    } else if tag == 'C' {
        Some(make_node(Operation::Sub, make_int(0), arcsin(g)))
    } else if tag == 'T' {
        Some(make_node(Operation::Div, make_int(1), make_node(Operation::Add, make_int(1), make_node(Operation::Exp, copy_expression(g), make_int(2)))))
    } else {
        None
    }
}

/// Builds the derivative of `op(f, g)` from the children's derivatives.
fn ddx_rule_exec(op: Operation, f: &Expression, g: &Expression, fp: Expression, gp: Expression) -> (r: Result<Expression, EvalError>)
    ensures
        r == ddx_rule(op, *f, *g, fp, gp),
{
    let f1 = copy_expression(f);
    let g1 = copy_expression(g);
    match op {
        Operation::Add => Ok(make_node(Operation::Add, fp, gp)),
        Operation::Sub => Ok(make_node(Operation::Sub, fp, gp)),
        Operation::Mult => Ok(make_node(Operation::Add, make_node(Operation::Mult, g1, fp), make_node(Operation::Mult, f1, gp))),
        Operation::Div => {
            let g2 = copy_expression(g);
            Ok(make_node(
                Operation::Div,
                make_node(Operation::Sub, make_node(Operation::Mult, g1, fp), make_node(Operation::Mult, f1, gp)),
                make_node(Operation::Exp, g2, make_int(2)),
            ))
        },
        Operation::Func => Ok(make_node(Operation::Mult, make_node(Operation::Func, fp, g1), gp)),
        Operation::Exp => {
            let f2 = copy_expression(f);
            let f3 = copy_expression(f);
            Ok(make_node(
                Operation::Mult,
                make_node(Operation::Exp, f1, g1),
                make_node(
                    Operation::Add,
                    make_node(Operation::Mult, gp, make_node(Operation::Log, Expression::Variable('e'), f2)),
                    make_node(Operation::Div, make_node(Operation::Mult, fp, copy_expression(g)), f3),
                ),
            ))
        },
        Operation::Trig => match f {
            Expression::Variable(tag) => match trig_rule_exec(*tag, g) {
                Some(d) => Ok(make_node(Operation::Mult, d, gp)),
                None => Err(EvalError::UnrecognizedTrigTag),
            },
            _ => Err(EvalError::UnrecognizedTrigTag),
        },
        Operation::Log => match f {
            Expression::Variable(b) => if *b == 'e' {
                Ok(make_node(Operation::Mult, make_node(Operation::Div, make_int(1), g1), gp))
            } else {
                Ok(make_node(Operation::Mult, make_node(Operation::Div, make_int(1), make_node(Operation::Mult, g1, make_node(Operation::Log, Expression::Variable('e'), f1))), gp))
            },
            Expression::Constant(_) => Ok(make_node(Operation::Mult, make_node(Operation::Div, make_int(1), make_node(Operation::Mult, g1, make_node(Operation::Log, Expression::Variable('e'), f1))), gp)),
            Expression::Equa(_) => Err(EvalError::UnrecognizedLogBase),
        },
        Operation::Deriv => Ok(make_node(Operation::Deriv, make_node(Operation::Deriv, f1, Expression::Variable('!')), Expression::Variable('!'))),
    }
}

/// The structural derivative of a tree: a pending derivative for a leaf,
/// the calculus rule of its operation for a composite node.
pub fn ddx(expression: &Expression) -> (r: Result<Expression, EvalError>)
    ensures
        r == differentiate(*expression),
    decreases *expression,
{
    match expression {
        Expression::Equa(eq) => {
            let fp = match ddx(&eq.element1) {
                Err(err) => return Err(err),
                Ok(d) => d,
            };
            let gp = match ddx(&eq.element2) {
                Err(err) => return Err(err),
                Ok(d) => d,
            };
            ddx_rule_exec(eq.operation, &eq.element1, &eq.element2, fp, gp)
        },
        _ => Ok(make_node(Operation::Deriv, copy_expression(expression), Expression::Variable('?'))),
    }
}

/// The deepest chain of nested lookups, derivatives and evaluations that
/// is followed before giving up.
pub const MAX_DEPTH: usize = 200;

/// The derivative that a pending derivative of `e` stands for, resolved
/// against the bank, following at most `fuel` nested steps.
pub open spec fn resolve_deferred(e: Expression, bank: Bank, fuel: nat) -> Result<Expression, EvalError>
    decreases fuel,
{
    if fuel == 0 {
        Err(EvalError::DepthExceeded)
    } else {
        match e {
            Expression::Constant(_) => Ok(int_const(0)),
            Expression::Variable(v) => if v == 'x' {
                Ok(int_const(1))
            } else {
                match bank.resolve(v) {
                    Err(err) => Err(err),
                    Ok(t) => differentiate(t),
                }
            },
            Expression::Equa(eq) => if eq.operation == Operation::Deriv {
                match resolve_deferred(*eq.element1, bank, (fuel - 1) as nat) {
                    Err(err) => Err(err),
                    Ok(inner) => resolve_deferred(inner, bank, (fuel - 1) as nat),
                }
            } else {
                differentiate(e)
            },
        }
    }
}

/// Resolves a pending derivative of `exp` with at most `fuel` nested steps.
pub fn eval_deriv_within(exp: &Expression, bank: &Bank, fuel: usize) -> (r: Result<Expression, EvalError>)
    ensures
        r == resolve_deferred(*exp, *bank, fuel as nat),
    decreases fuel,
{
    if fuel == 0 {
        return Err(EvalError::DepthExceeded);
    }
    match exp {
        Expression::Constant(_) => Ok(make_int(0)),
        Expression::Variable(v) => {
            if *v == 'x' {
                Ok(make_int(1))
            } else {
                match resolve_name(bank, *v) {
                    Err(err) => Err(err),
                    Ok(t) => ddx(&t),
                }
            }
        },
        Expression::Equa(eq) => {
            if eq.operation == Operation::Deriv {
                match eval_deriv_within(&eq.element1, bank, fuel - 1) {
                    Err(err) => Err(err),
                    Ok(inner) => eval_deriv_within(&inner, bank, fuel - 1),
                }
            } else {
                ddx(exp)
            }
        },
    }
}

/// Resolves a pending derivative of `exp` against the bank: a constant
/// gives 0, the free variable `x` gives 1, another name gives the derivative
/// of its definition, a nested pending derivative is resolved and then
/// resolved again, and any other node is differentiated. The point `x` does
/// not enter the resolution.
pub fn eval_deriv(exp: Expression, bank: &Bank, x: Rational) -> (r: Result<Expression, EvalError>)
    ensures
        r == resolve_deferred(exp, *bank, MAX_DEPTH as nat),
{
    eval_deriv_within(&exp, bank, MAX_DEPTH)
}

} // verus!
