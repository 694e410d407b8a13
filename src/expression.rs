//! The expression tree, its canonical text form and its deep copy.
use vstd::prelude::*;
use crate::rational::{Rational, decimal_text, render_decimal};
use crate::text::{chars_of, string_of};

verus! {

/// The operation of a composite node.
#[derive(Clone, Copy, Debug, PartialEq, Eq, Structural)]
pub enum Operation {
    Add,
    Sub,
    Mult,
    Div,
    /// Application: `element1` names the callee, `element2` is the argument.
    Func,
    /// Power: `element1` is the base, `element2` the exponent.
    Exp,
    /// `element1` is a tag (`s c t S C T`), `element2` the argument.
    Trig,
    /// `element1` is the base (`e` for the natural log), `element2` the argument.
    Log,
    /// A pending derivative of `element1`; `element2` is unused.
    Deriv,
}

/// A composite node: an operation and its two children.
#[derive(Debug, PartialEq)]
pub struct Equation {
    pub operation: Operation,
    pub element1: Box<Expression>,
    pub element2: Box<Expression>,
}

/// A node of the expression tree.
#[derive(Debug, PartialEq)]
pub enum Expression {
    Constant(Rational),
    Variable(char),
    Equa(Box<Equation>),
}

/// The composite node `op(a, b)`.
pub open spec fn node(op: Operation, a: Expression, b: Expression) -> Expression {
    Expression::Equa(Box::new(Equation { operation: op, element1: Box::new(a), element2: Box::new(b) }))
}

/// Builds the composite node `op(a, b)`.
pub fn make_node(op: Operation, a: Expression, b: Expression) -> (r: Expression)
    ensures
        r == node(op, a, b),
{
    Expression::Equa(Box::new(Equation { operation: op, element1: Box::new(a), element2: Box::new(b) }))
}

/// Every constant of the tree is well formed.
pub open spec fn tree_wf(e: Expression) -> bool
    decreases e,
{
    match e {
        Expression::Constant(q) => q.wf(),
        Expression::Variable(_) => true,
        Expression::Equa(eq) => tree_wf(*eq.element1) && tree_wf(*eq.element2),
    }
}

/// The external name of a trig tag.
pub open spec fn trig_name(tag: char) -> Seq<char> {
    if tag == 's' {
        "sin"@
    } else if tag == 'c' {
        "cos"@
    } else if tag == 't' {
        "tan"@
    } else if tag == 'S' {
        "arcsin"@
    } else if tag == 'C' {
        "arccos"@
    } else if tag == 'T' {
        "arctan"@
    } else {
        Seq::empty()
    }
}

/// A constant equal to ten.
pub open spec fn is_ten(q: Rational) -> bool {
    !q.negative && q.numer == 10 * q.denom
}

/// The text that names a logarithm of the given base.
pub open spec fn log_name(base: Expression) -> Seq<char>
    decreases base, 1nat,
{
    match base {
        Expression::Variable(v) => if v == 'e' {
            "ln"@
        } else {
            "log"@ + seq![v]
        },
        Expression::Constant(q) => if is_ten(q) {
            "log"@
        } else {
            "log"@ + decimal_text(q)
        },
        Expression::Equa(_) => "log"@ + render(base),
    }
}

/// The canonical text of a tree. Each operand of a binary operator, and
/// each argument, stands in exactly one pair of parentheses, which the parser
/// strips again; the other nodes carry no parentheses of their own.
pub open spec fn render(e: Expression) -> Seq<char>
    decreases e, 0nat,
{
    match e {
        Expression::Constant(q) => decimal_text(q),
        Expression::Variable(v) => seq![v],
        Expression::Equa(eq) => {
            let a = render(*eq.element1);
            let b = render(*eq.element2);
            match eq.operation {
                Operation::Add => "("@ + a + ")+("@ + b + ")"@,
                Operation::Sub => "("@ + a + ")-("@ + b + ")"@,
                Operation::Mult => "("@ + a + ")("@ + b + ")"@,
                Operation::Div => "("@ + a + ")/("@ + b + ")"@,
                Operation::Func => a + "("@ + b + ")"@,
                Operation::Exp => "("@ + a + ")^("@ + b + ")"@,
                Operation::Trig => match *eq.element1 {
                    Expression::Variable(t) if trig_name(t).len() > 0 => trig_name(t) + "("@ + b + ")"@,
                    _ => a + "("@ + b + ")"@,
                },
                Operation::Log => log_name(*eq.element1) + "("@ + b + ")"@,
                Operation::Deriv => "("@ + a + ")'"@,
            }
        },
    }
}

/// Appends `t` to `out`.
pub(crate) fn push_all(out: &mut Vec<char>, t: &Vec<char>)
    ensures
        final(out)@ == old(out)@ + t@,
{
    let mut i: usize = 0;
    while i < t.len()
        invariant
            i <= t@.len(),
            out@ == old(out)@ + t@.subrange(0, i as int),
        decreases t@.len() - i,
    {
        out.push(t[i]);
        i = i + 1;
        proof {
            assert(t@.subrange(0, i as int) == t@.subrange(0, i - 1) + seq![t@[i - 1]]);
        }
    }
    proof {
        assert(t@.subrange(0, t@.len() as int) == t@);
    }
}

/// Appends the characters of `s` to `out`.
pub(crate) fn push_text(out: &mut Vec<char>, s: &str)
    ensures
        final(out)@ == old(out)@ + s@,
{
    let t = chars_of(s);
    push_all(out, &t);
}

/// Appends the external name of a trig tag to `out`.
fn push_trig_name(out: &mut Vec<char>, tag: char)
    ensures
        final(out)@ == old(out)@ + trig_name(tag),
{
    if tag == 's' {
        push_text(out, "sin");
    } else if tag == 'c' {
        push_text(out, "cos");
    } else if tag == 't' {
        push_text(out, "tan");
    } else if tag == 'S' {
        push_text(out, "arcsin");
    } else if tag == 'C' {
        push_text(out, "arccos");
    } else if tag == 'T' {
        push_text(out, "arctan");
    } else {
        assert(old(out)@ + Seq::<char>::empty() == old(out)@);
    }
}

/// Whether `tag` is one of the six trig tags.
pub fn is_trig_tag(tag: char) -> (r: bool)
    ensures
        r == (trig_name(tag).len() > 0),
{
    proof {
        reveal_strlit("sin");
        reveal_strlit("cos");
        reveal_strlit("tan");
        reveal_strlit("arcsin");
        reveal_strlit("arccos");
        reveal_strlit("arctan");
    }
    tag == 's' || tag == 'c' || tag == 't' || tag == 'S' || tag == 'C' || tag == 'T'
}

/// Appends the name of a logarithm of base `base` to `out`.
fn push_log_name(out: &mut Vec<char>, base: &Expression)
    ensures
        final(out)@ == old(out)@ + log_name(*base),
    decreases *base, 1nat,
{
    match base {
        Expression::Variable(v) => {
            if *v == 'e' {
                push_text(out, "ln");
            } else {
                push_text(out, "log");
                out.push(*v);
                assert(out@ == old(out)@ + ("log"@ + seq![*v]));
            }
        },
        Expression::Constant(q) => {
            if !q.negative && q.numer as u128 == 10 * (q.denom as u128) {
                push_text(out, "log");
            } else {
                push_text(out, "log");
                let t = render_decimal(*q);
                push_all(out, &t);
                assert(out@ == old(out)@ + ("log"@ + decimal_text(*q)));
            }
        },
        Expression::Equa(_) => {
            push_text(out, "log");
            render_into(base, out);
            assert(out@ == old(out)@ + ("log"@ + render(*base)));
        },
    }
}

/// Appends the canonical text of `e` to `out`.
#[verifier::rlimit(60)]
pub(crate) fn render_into(e: &Expression, out: &mut Vec<char>)
    ensures
        final(out)@ == old(out)@ + render(*e),
    decreases *e, 0nat,
{
    match e {
        Expression::Constant(q) => {
            let t = render_decimal(*q);
            push_all(out, &t);
        },
        Expression::Variable(v) => {
            out.push(*v);
        },
        Expression::Equa(eq) => {
            let ghost o = out@;
            let ghost a = render(*eq.element1);
            let ghost b = render(*eq.element2);
            match eq.operation {
                Operation::Add => {
                    push_text(out, "(");
                    render_into(&eq.element1, out);
                    push_text(out, ")+(");
                    render_into(&eq.element2, out);
                    push_text(out, ")");
                    assert(out@ == o + ("("@ + a + ")+("@ + b + ")"@));
                },
                Operation::Sub => {
                    push_text(out, "(");
                    render_into(&eq.element1, out);
                    push_text(out, ")-(");
                    render_into(&eq.element2, out);
                    push_text(out, ")");
                    assert(out@ == o + ("("@ + a + ")-("@ + b + ")"@));
                },
                Operation::Mult => {
                    push_text(out, "(");
                    render_into(&eq.element1, out);
                    push_text(out, ")(");
                    render_into(&eq.element2, out);
                    push_text(out, ")");
                    assert(out@ == o + ("("@ + a + ")("@ + b + ")"@));
                },
                Operation::Div => {
                    push_text(out, "(");
                    render_into(&eq.element1, out);
                    push_text(out, ")/(");
                    render_into(&eq.element2, out);
                    push_text(out, ")");
                    assert(out@ == o + ("("@ + a + ")/("@ + b + ")"@));
                },
                Operation::Func => {
                    render_into(&eq.element1, out);
                    push_text(out, "(");
                    render_into(&eq.element2, out);
                    push_text(out, ")");
                    assert(out@ == o + (a + "("@ + b + ")"@));
                },
                Operation::Exp => {
                    push_text(out, "(");
                    render_into(&eq.element1, out);
                    push_text(out, ")^(");
                    render_into(&eq.element2, out);
                    push_text(out, ")");
                    assert(out@ == o + ("("@ + a + ")^("@ + b + ")"@));
                },
                Operation::Trig => {
                    let tagged = match &*eq.element1 {
                        Expression::Variable(t) => is_trig_tag(*t),
                        _ => false,
                    };
                    if tagged {
                        if let Expression::Variable(t) = &*eq.element1 {
                            push_trig_name(out, *t);
                            push_text(out, "(");
                            render_into(&eq.element2, out);
                            push_text(out, ")");
                            assert(out@ == o + (trig_name(*t) + "("@ + b + ")"@));
                        }
                    } else {
                        render_into(&eq.element1, out);
                        push_text(out, "(");
                        render_into(&eq.element2, out);
                        push_text(out, ")");
                        assert(out@ == o + (a + "("@ + b + ")"@));
                    }
                },
                Operation::Log => {
                    push_log_name(out, &eq.element1);
                    push_text(out, "(");
                    render_into(&eq.element2, out);
                    push_text(out, ")");
                    assert(out@ == o + (log_name(*eq.element1) + "("@ + b + ")"@));
                },
                Operation::Deriv => {
                    push_text(out, "(");
                    render_into(&eq.element1, out);
                    push_text(out, ")'");
                    assert(out@ == o + ("("@ + a + ")'"@));
                },
            }
        },
    }
}

impl Expression {
    /// The canonical text of the tree.
    pub fn to_text(&self) -> (r: String)
        ensures
            r@ == render(*self),
    {
        let mut out: Vec<char> = Vec::new();
        render_into(self, &mut out);
        assert(out@ == Seq::<char>::empty() + render(*self));
        string_of(&out)
    }
}

/// A deep copy of a tree.
pub fn copy_expression(e: &Expression) -> (r: Expression)
    ensures
        r == *e,
    decreases *e,
{
    match e {
        Expression::Constant(q) => Expression::Constant(*q),
        Expression::Variable(v) => Expression::Variable(*v),
        Expression::Equa(eq) => {
            let a = copy_expression(&eq.element1);
            let b = copy_expression(&eq.element2);
            Expression::Equa(Box::new(Equation { operation: eq.operation, element1: Box::new(a), element2: Box::new(b) }))
        },
    }
}

} // verus!
