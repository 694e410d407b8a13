//! Rendering a parsed formula and parsing the text again gives back the same
//! tree, for formulas built from `+ - * / ^`, implied multiplication,
//! trig functions, `log`/`logN`/`ln`, applications, derivative marks,
//! single-letter names and nonnegative integers. Outside it the round trip
//! can fail: a constant with a denominator other than one renders as `n/d`,
//! which parses back as a division, and a `logN` base that is not a single
//! name or integer renders into a text that splits differently. The printed
//! text of every parsed formula is balanced, fragment or not.
use vstd::prelude::*;
use crate::expression::{Expression, Operation, node, render, trig_name, log_name, is_ten};
use crate::rational::{Rational, decimal_text};
use crate::parser::{
    ScanState, bracket_balance, balanced, wrapped, strip, scan, scan_start, special_at, implied_mult,
    parse_text, parse_split, parse_formula, combine, trig_tag, parse_named, ten, parse_leaf, name_of,
};
use crate::rational::{digits_of, all_digits, digits_value, number_of, has_letter, digit_char};
use crate::text::{letter, ascii_letter};

verus! {

/// A logarithm base written as `logN`: a letter other than `e`, or a
/// nonnegative integer.
pub open spec fn plain_log_base(base: Expression) -> bool {
    match base {
        Expression::Variable(v) => ascii_letter(v) && v != 'e',
        Expression::Constant(q) => !q.negative && q.denom == 1,
        _ => false,
    }
}

/// A tree of the plain fragment: `+ - * / ^` over ASCII single-letter names
/// and nonnegative integers, trig functions, logarithms written `ln`, `log`
/// or `logN`, applications of a single-letter name, and pending derivatives as
/// the parser builds them.
pub open spec fn plain_tree(e: Expression) -> bool
    decreases e,
{
    match e {
        Expression::Constant(q) => !q.negative && q.denom == 1,
        Expression::Variable(v) => ascii_letter(v),
        Expression::Equa(eq) => if eq.operation == Operation::Log {
            (*eq.element1 == Expression::Variable('e') || plain_log_base(*eq.element1)) && plain_tree(
                *eq.element2,
            )
        } else if eq.operation == Operation::Trig {
            *eq.element1 matches Expression::Variable(tag) && trig_name(tag).len() > 0 && plain_tree(
                *eq.element2,
            )
        } else if eq.operation == Operation::Func {
            *eq.element1 matches Expression::Variable(f) && ascii_letter(f) && plain_tree(*eq.element2)
        } else if eq.operation == Operation::Deriv {
            *eq.element2 == Expression::Variable('!') && plain_tree(*eq.element1)
        } else {
            (eq.operation == Operation::Add || eq.operation == Operation::Sub || eq.operation
                == Operation::Mult || eq.operation == Operation::Div || eq.operation == Operation::Exp)
                && plain_tree(*eq.element1) && plain_tree(*eq.element2)
        },
    }
}

proof fn lemma_digits(n: nat)
    ensures
        digits_of(n).len() > 0,
        all_digits(digits_of(n)),
        digits_value(digits_of(n)) == n,
    decreases n,
{
    if n < 10 {
        let s = digits_of(n);
        assert(s.drop_last() =~= Seq::<char>::empty());
        assert(digit_char(n) as u32 == 48 + n);
        assert('0' as u32 == 48);
        assert(s.last() == digit_char(n));
        assert(digits_value(s.drop_last()) == 0);
    } else {
        lemma_digits(n / 10);
        let s = digits_of(n);
        assert(s.drop_last() == digits_of(n / 10));
        assert(digit_char(n % 10) as u32 == 48 + n % 10);
        assert('0' as u32 == 48);
        assert(s.last() == digit_char(n % 10));
        assert(forall|i: int| 0 <= i < s.len() - 1 ==> s[i] == digits_of(n / 10)[i]);
        assert((n / 10) * 10 + n % 10 == n) by (nonlinear_arith);
    }
}

/// A text without brackets has balance zero everywhere.
proof fn lemma_no_brackets(s: Seq<char>, k: int)
    requires
        0 <= k <= s.len(),
        forall|i: int| 0 <= i < s.len() ==> #[trigger] s[i] != '(' && s[i] != ')',
    ensures
        bracket_balance(s, k) == 0,
    decreases k,
{
    if k > 0 {
        lemma_no_brackets(s, k - 1);
    }
}

/// The balance of a prefix of `s1 + s2`.
proof fn lemma_balance_concat(s1: Seq<char>, s2: Seq<char>, k: int)
    requires
        0 <= k <= s1.len() + s2.len(),
    ensures
        k <= s1.len() ==> bracket_balance(s1 + s2, k) == bracket_balance(s1, k),
        k >= s1.len() ==> bracket_balance(s1 + s2, k) == bracket_balance(s1, s1.len() as int)
            + bracket_balance(s2, k - s1.len()),
    decreases k,
{
    if k > 0 {
        lemma_balance_concat(s1, s2, k - 1);
    }
}

/// Balanced in the sense the scan needs: no prefix closes more than it
/// opens, and the whole closes everything.
pub open spec fn closed(s: Seq<char>) -> bool {
    (forall|k: int| 0 <= k <= s.len() ==> #[trigger] bracket_balance(s, k) >= 0) && bracket_balance(
        s,
        s.len() as int,
    ) == 0
}

/// A name never starts at a character that is not an ASCII letter.
proof fn lemma_not_special(t: Seq<char>, i: int)
    requires
        0 <= i < t.len(),
        !ascii_letter(t[i]),
    ensures
        !special_at(t, i),
{
    reveal_strlit("arcsin");
    reveal_strlit("arctan");
    reveal_strlit("arccos");
    reveal_strlit("cos");
    reveal_strlit("tan");
    reveal_strlit("sin");
    reveal_strlit("log");
    reveal_strlit("ln");
    let n = t.len() - i;
    if n >= 6 {
        assert(t.subrange(i, i + 6)[0] == t[i]);
        assert(t.subrange(i, i + 3)[0] == t[i]);
    } else if n >= 4 {
        assert(t.subrange(i, i + 3)[0] == t[i]);
        assert(t.subrange(i, i + 2)[0] == t[i]);
    } else if n >= 3 {
        assert(t.subrange(i, i + 2)[0] == t[i]);
    }
}

/// A name never starts at a character followed by one that is not an
/// ASCII letter.
proof fn lemma_not_special_before(t: Seq<char>, i: int)
    requires
        0 <= i,
        i + 1 < t.len(),
        !ascii_letter(t[i + 1]),
    ensures
        !special_at(t, i),
{
    reveal_strlit("arcsin");
    reveal_strlit("arctan");
    reveal_strlit("arccos");
    reveal_strlit("cos");
    reveal_strlit("tan");
    reveal_strlit("sin");
    reveal_strlit("log");
    reveal_strlit("ln");
    let n = t.len() - i;
    if n >= 6 {
        assert(t.subrange(i, i + 6)[1] == t[i + 1]);
        assert(t.subrange(i, i + 3)[1] == t[i + 1]);
    } else if n >= 4 {
        assert(t.subrange(i, i + 3)[1] == t[i + 1]);
        assert(t.subrange(i, i + 2)[1] == t[i + 1]);
    } else if n >= 3 {
        assert(t.subrange(i, i + 2)[1] == t[i + 1]);
    }
}

/// Scanning a bracket-balanced segment that starts inside brackets changes
/// only the depth and the previous character.
proof fn lemma_inner(t: Seq<char>, s: int, seg: Seq<char>, k: int)
    requires
        0 <= s,
        s + seg.len() <= t.len(),
        t.subrange(s, s + seg.len()) == seg,
        0 <= k <= seg.len(),
        scan(t, s).depth >= 1,
        !scan(t, s).in_name,
        forall|j: int| 0 <= j <= seg.len() ==> #[trigger] bracket_balance(seg, j) >= 0,
    ensures
        k > 0 ==> scan(t, s + k) == (ScanState {
            depth: scan(t, s).depth + bracket_balance(seg, k),
            prev: seg[k - 1],
            ..scan(t, s)
        }),
    decreases k,
{
    if k > 0 {
        lemma_inner(t, s, seg, k - 1);
        assert(t[s + k - 1] == seg[k - 1]);
        assert(bracket_balance(seg, k - 1) >= 0);
    }
}

/// Scanning a string of digits at depth zero records nothing.
proof fn lemma_scan_digits(a: Seq<char>, k: int)
    requires
        0 <= k <= a.len(),
        all_digits(a),
    ensures
        scan(a, k) == (ScanState { prev: if k == 0 { '(' } else { a[k - 1] }, ..scan_start() }),
    decreases k,
{
    if k > 0 {
        lemma_scan_digits(a, k - 1);
        assert('0' <= a[k - 1] && a[k - 1] <= '9');
        lemma_not_special(a, k - 1);
        if k >= 2 {
            assert('0' <= a[k - 2] && a[k - 2] <= '9');
        }
    }
}

/// The text `(A)` with `A` closed and nonempty.
proof fn lemma_group_text(a: Seq<char>)
    requires
        a.len() > 0,
        closed(a),
    ensures
        wrapped(seq!['('] + a + seq![')']),
        strip(seq!['('] + a + seq![')']) == a,
        closed(seq!['('] + a + seq![')']),
        forall|k: int| 1 <= k <= a.len() + 1 ==> #[trigger] bracket_balance(seq!['('] + a + seq![')'], k) >= 1,
        bracket_balance(seq!['('] + a + seq![')'], a.len() + 2int) == 0,
{
    let w = seq!['('] + a + seq![')'];
    let open = seq!['('];
    let close = seq![')'];
    assert(w == (open + a) + close);
    assert(bracket_balance(open, 0) == 0);
    assert(open[0] == '(');
    assert(bracket_balance(open, 1) == 1);
    assert(bracket_balance(close, 0) == 0);
    assert(close[0] == ')');
    assert(bracket_balance(close, 1) == -1);
    assert forall|k: int| 0 <= k <= a.len() + 2 implies #[trigger] bracket_balance(w, k) == if k == 0 {
        0
    } else if k <= a.len() + 1 {
        1 + bracket_balance(a, k - 1)
    } else {
        0
    } by {
        lemma_balance_concat(open + a, close, k);
        if k <= a.len() + 1 {
            lemma_balance_concat(open, a, k);
            if k >= 1 {
                assert(bracket_balance(open, 1) == 1);
            }
        } else {
            lemma_balance_concat(open, a, a.len() + 1int);
            assert(bracket_balance(open, 1) == 1);
            assert(bracket_balance(close, 1) == -1);
        }
    }
    assert forall|k: int| 1 <= k <= a.len() + 1 implies #[trigger] bracket_balance(w, k) >= 1 by {
        assert(bracket_balance(a, k - 1) >= 0);
    }
    assert forall|k: int| 0 <= k <= w.len() implies #[trigger] bracket_balance(w, k) >= 0 by {
        if 1 <= k <= a.len() + 1 {
            assert(bracket_balance(a, k - 1) >= 0);
        }
    }
    assert forall|k: int| 1 <= k < w.len() implies #[trigger] bracket_balance(w, k) != 0 by {
        assert(bracket_balance(a, k - 1) >= 0);
    }
    assert(w.subrange(1, w.len() - 1) =~= a);
}

/// Scanning `(A)` from just after its opening bracket at depth one.
proof fn lemma_group_scan(t: Seq<char>, s: int, a: Seq<char>)
    requires
        0 <= s,
        s + a.len() + 2 <= t.len(),
        a.len() > 0,
        closed(a),
        scan(t, s + 1).depth == 1,
        !scan(t, s + 1).in_name,
        t.subrange(s + 1, s + 1 + a.len()) == a,
        t[s + 1 + a.len()] == ')',
    ensures
        scan(t, s + a.len() + 2) == (ScanState { depth: 0, prev: ')', ..scan(t, s + 1) }),
{
    lemma_inner(t, s + 1, a, a.len() as int);
}

/// Two closed texts make a closed text.
proof fn lemma_concat_closed(x: Seq<char>, y: Seq<char>)
    requires
        closed(x),
        closed(y),
    ensures
        closed(x + y),
        bracket_balance(x + y, x.len() as int) == 0,
{
    assert forall|k: int| 0 <= k <= (x + y).len() implies #[trigger] bracket_balance(x + y, k) >= 0 by {
        lemma_balance_concat(x, y, k);
        if k >= x.len() {
            assert(bracket_balance(y, k - x.len()) >= 0);
        } else {
            assert(bracket_balance(x, k) >= 0);
        }
    }
    lemma_balance_concat(x, y, (x + y).len() as int);
    lemma_balance_concat(x, y, x.len() as int);
}

/// The text `(A)c(B)` of a binary operator `c`.
pub open spec fn binary_text(a: Seq<char>, c: char, b: Seq<char>) -> Seq<char> {
    seq!['('] + a + seq![')', c, '('] + b + seq![')']
}

/// The text `(A)(B)` of an implied multiplication.
pub open spec fn juxtaposed_text(a: Seq<char>, b: Seq<char>) -> Seq<char> {
    seq!['('] + a + seq![')', '('] + b + seq![')']
}

/// The operator characters of the arithmetic fragment.
pub open spec fn arith_char(c: char) -> bool {
    c == '+' || c == '-' || c == '*' || c == '/' || c == '^'
}

#[verifier::rlimit(60)]
proof fn lemma_binary_scan(a: Seq<char>, c: char, b: Seq<char>)
    requires
        a.len() > 0,
        b.len() > 0,
        closed(a),
        closed(b),
        arith_char(c),
    ensures
        ({
            let t = binary_text(a, c, b);
            let l = a.len() as int;
            let n = t.len() as int;
            &&& n == l + b.len() + 5
            &&& scan(t, n) == (ScanState {
                depth: 0,
                prev: ')',
                add: if c == '+' { l + 2 } else { 0 },
                sub: if c == '-' { l + 2 } else { 0 },
                mult: if c == '*' { l + 2 } else { 0 },
                div: if c == '/' { l + 2 } else { 0 },
                exp: if c == '^' { l + 2 } else { 0 },
                ..scan_start()
            })
            &&& t.subrange(0, l + 2) == seq!['('] + a + seq![')']
            &&& t.subrange(l + 3, n) == seq!['('] + b + seq![')']
            &&& closed(t)
            &&& !wrapped(t)
        }),
{
    let t = binary_text(a, c, b);
    let l = a.len() as int;
    let m = b.len() as int;
    let n = t.len() as int;
    let wa = seq!['('] + a + seq![')'];
    let wb = seq!['('] + b + seq![')'];
    assert(t =~= (wa + seq![c]) + wb);
    assert(t[0] == '(');
    assert(t.subrange(1, 1 + l) =~= a);
    assert(t[l + 1] == ')');
    assert(t[l + 2] == c);
    assert(t[l + 3] == '(');
    assert(t.subrange(l + 4, l + 4 + m) =~= b);
    assert(t[l + 4 + m] == ')');
    lemma_not_special(t, 0);
    assert(scan(t, 0) == scan_start());
    assert(!letter('('));
    assert(!implied_mult('(', '('));
    assert(scan(t, 1) == (ScanState { depth: 1, prev: '(', ..scan_start() }));
    lemma_group_scan(t, 0, a);
    lemma_not_special(t, l + 2);
    assert(scan(t, l + 3) == (ScanState {
        add: if c == '+' { l + 2 } else { 0 },
        sub: if c == '-' { l + 2 } else { 0 },
        mult: if c == '*' { l + 2 } else { 0 },
        div: if c == '/' { l + 2 } else { 0 },
        exp: if c == '^' { l + 2 } else { 0 },
        prev: c,
        ..scan_start()
    }));
    lemma_not_special(t, l + 3);
    lemma_group_scan(t, l + 3, b);
    assert(t.subrange(0, l + 2) =~= wa);
    assert(t.subrange(l + 3, n) =~= wb);
    lemma_group_text(a);
    lemma_group_text(b);
    assert forall|k: int| 0 <= k <= 1 implies #[trigger] bracket_balance(seq![c], k) == 0 by {
        lemma_no_brackets(seq![c], k);
    }
    lemma_concat_closed(wa, seq![c]);
    lemma_concat_closed(wa + seq![c], wb);
    lemma_balance_concat(wa, seq![c], l + 2);
}

#[verifier::rlimit(60)]
proof fn lemma_juxtaposed_scan(a: Seq<char>, b: Seq<char>)
    requires
        a.len() > 0,
        b.len() > 0,
        closed(a),
        closed(b),
    ensures
        ({
            let t = juxtaposed_text(a, b);
            let l = a.len() as int;
            let n = t.len() as int;
            &&& n == l + b.len() + 4
            &&& scan(t, n) == (ScanState { depth: 0, prev: ')', implied: l + 2, ..scan_start() })
            &&& t.subrange(0, l + 2) == seq!['('] + a + seq![')']
            &&& t.subrange(l + 2, n) == seq!['('] + b + seq![')']
            &&& closed(t)
            &&& !wrapped(t)
        }),
{
    let t = juxtaposed_text(a, b);
    let l = a.len() as int;
    let m = b.len() as int;
    let n = t.len() as int;
    let wa = seq!['('] + a + seq![')'];
    let wb = seq!['('] + b + seq![')'];
    assert(t =~= wa + wb);
    assert(t[0] == '(');
    assert(t.subrange(1, 1 + l) =~= a);
    assert(t[l + 1] == ')');
    assert(t[l + 2] == '(');
    assert(t.subrange(l + 3, l + 3 + m) =~= b);
    assert(t[l + 3 + m] == ')');
    lemma_not_special(t, 0);
    assert(scan(t, 0) == scan_start());
    assert(!letter('('));
    assert(!implied_mult('(', '('));
    assert(scan(t, 1) == (ScanState { depth: 1, prev: '(', ..scan_start() }));
    lemma_group_scan(t, 0, a);
    lemma_not_special(t, l + 2);
    assert(implied_mult(')', '('));
    assert(scan(t, l + 3) == (ScanState { depth: 1, prev: '(', implied: l + 2, ..scan_start() }));
    lemma_group_scan(t, l + 2, b);
    assert(t.subrange(0, l + 2) =~= wa);
    assert(t.subrange(l + 2, n) =~= wb);
    lemma_group_text(a);
    lemma_group_text(b);
    lemma_concat_closed(wa, wb);
}

/// Parsing the text of the group `(A)` parses `A`.
proof fn lemma_group_parse(a: Seq<char>)
    requires
        a.len() > 0,
        closed(a),
    ensures
        parse_text(seq!['('] + a + seq![')']) == parse_split(a),
{
    lemma_group_text(a);
}

/// A binary node renders as the template of its operator character.
#[verifier::rlimit(100)]
proof fn lemma_binary_parse(e: Expression, c: char)
    requires
        e is Equa,
        arith_char(c),
        c == '+' ==> e->Equa_0.operation == Operation::Add,
        c == '-' ==> e->Equa_0.operation == Operation::Sub,
        c == '/' ==> e->Equa_0.operation == Operation::Div,
        c == '^' ==> e->Equa_0.operation == Operation::Exp,
        c != '*',
        render(*e->Equa_0.element1).len() > 0,
        closed(render(*e->Equa_0.element1)),
        parse_split(render(*e->Equa_0.element1)) == Ok::<Expression, crate::error::ParseError>(*e->Equa_0.element1),
        render(*e->Equa_0.element2).len() > 0,
        closed(render(*e->Equa_0.element2)),
        parse_split(render(*e->Equa_0.element2)) == Ok::<Expression, crate::error::ParseError>(*e->Equa_0.element2),
    ensures
        render(e).len() > 0,
        closed(render(e)),
        !wrapped(render(e)),
        parse_split(render(e)) == Ok::<Expression, crate::error::ParseError>(e),
{
    let eq = e->Equa_0;
    let a = render(*eq.element1);
    let b = render(*eq.element2);
    reveal_strlit("(");
    reveal_strlit(")");
    if c == '+' {
        reveal_strlit(")+(");
    } else if c == '-' {
        reveal_strlit(")-(");
    } else if c == '/' {
        reveal_strlit(")/(");
    } else {
        reveal_strlit(")^(");
    }
    assert(render(e) =~= binary_text(a, c, b));
    lemma_binary_scan(a, c, b);
    lemma_group_parse(a);
    lemma_group_parse(b);
    assert(node(eq.operation, *eq.element1, *eq.element2) == e);
}

/// A nonnegative integer renders to its digits, which parse back to it.
proof fn lemma_constant_leaf(e: Expression)
    requires
        e is Constant,
        plain_tree(e),
    ensures
        render(e).len() > 0,
        closed(render(e)),
        !wrapped(render(e)),
        parse_split(render(e)) == Ok::<Expression, crate::error::ParseError>(e),
{
    let q = e->Constant_0;
    let a = render(e);
    assert(a =~= digits_of(q.numer as nat));
    lemma_digits(q.numer as nat);
    assert forall|i: int| 0 <= i < a.len() implies #[trigger] a[i] != '(' && a[i] != ')' && a[i] != '/' by {
        assert('0' <= a[i] && a[i] <= '9');
    }
    assert forall|k: int| 0 <= k <= a.len() implies #[trigger] bracket_balance(a, k) == 0 by {
        lemma_no_brackets(a, k);
    }
    assert('0' <= a[0] && a[0] <= '9');
    lemma_scan_digits(a, a.len() as int);
    assert(!a.contains('/'));
    assert(number_of(a) == Some(q));
}

/// A single letter renders to itself, which parses back to it.
proof fn lemma_variable_leaf(e: Expression)
    requires
        e is Variable,
        plain_tree(e),
    ensures
        render(e).len() > 0,
        closed(render(e)),
        !wrapped(render(e)),
        parse_split(render(e)) == Ok::<Expression, crate::error::ParseError>(e),
{
    let v = e->Variable_0;
    let a = render(e);
    assert(a == seq![v]);
    assert forall|k: int| 0 <= k <= a.len() implies #[trigger] bracket_balance(a, k) == 0 by {
        lemma_no_brackets(a, k);
    }
    assert(scan(a, 0) == scan_start());
    assert(!special_at(a, 0));
    assert(scan(a, 1) == (ScanState { prev: v, ..scan_start() }));
    assert(!all_digits(a));
    assert(has_letter(a));
    assert(!a.contains('/')) by {
        assert(a[0] != '/');
    }
    assert((v as u32) < 128);
}

/// A product renders to its operands side by side.
#[verifier::rlimit(100)]
proof fn lemma_product_parse(e: Expression)
    requires
        e is Equa,
        e->Equa_0.operation == Operation::Mult,
        render(*e->Equa_0.element1).len() > 0,
        closed(render(*e->Equa_0.element1)),
        parse_split(render(*e->Equa_0.element1)) == Ok::<Expression, crate::error::ParseError>(*e->Equa_0.element1),
        render(*e->Equa_0.element2).len() > 0,
        closed(render(*e->Equa_0.element2)),
        parse_split(render(*e->Equa_0.element2)) == Ok::<Expression, crate::error::ParseError>(*e->Equa_0.element2),
    ensures
        render(e).len() > 0,
        closed(render(e)),
        !wrapped(render(e)),
        parse_split(render(e)) == Ok::<Expression, crate::error::ParseError>(e),
{
    reveal_strlit("(");
    reveal_strlit(")");
    reveal_strlit(")(");
    let eq = e->Equa_0;
    let a = render(*eq.element1);
    let b = render(*eq.element2);
    assert(render(e) =~= juxtaposed_text(a, b));
    lemma_juxtaposed_scan(a, b);
    lemma_group_parse(a);
    lemma_group_parse(b);
    assert(node(eq.operation, *eq.element1, *eq.element2) == e);
}

/// A pending derivative renders as `(A)'`.
#[verifier::rlimit(60)]
proof fn lemma_derivative_parse(e: Expression)
    requires
        e is Equa,
        e->Equa_0.operation == Operation::Deriv,
        *e->Equa_0.element2 == Expression::Variable('!'),
        render(*e->Equa_0.element1).len() > 0,
        closed(render(*e->Equa_0.element1)),
        parse_split(render(*e->Equa_0.element1)) == Ok::<Expression, crate::error::ParseError>(*e->Equa_0.element1),
    ensures
        render(e).len() > 0,
        closed(render(e)),
        !wrapped(render(e)),
        parse_split(render(e)) == Ok::<Expression, crate::error::ParseError>(e),
{
    reveal_strlit("(");
    reveal_strlit(")'");
    let eq = e->Equa_0;
    let a = render(*eq.element1);
    let l = a.len() as int;
    let wa = seq!['('] + a + seq![')'];
    let t = render(e);
    assert(t =~= wa + seq!['\'']);
    let n = t.len() as int;
    assert(t[0] == '(');
    assert(t.subrange(1, 1 + l) =~= a);
    assert(t[l + 1] == ')');
    assert(t[l + 2] == '\'');
    lemma_not_special(t, 0);
    assert(scan(t, 0) == scan_start());
    assert(!letter('('));
    assert(!implied_mult('(', '('));
    assert(scan(t, 1) == (ScanState { depth: 1, prev: '(', ..scan_start() }));
    lemma_group_scan(t, 0, a);
    lemma_not_special(t, l + 2);
    assert(scan(t, n) == (ScanState { deriv: l + 2, prev: '\'', ..scan_start() }));
    assert(t.subrange(0, l + 2) =~= wa);
    lemma_group_text(a);
    lemma_group_parse(a);
    assert forall|k: int| 0 <= k <= 1 implies #[trigger] bracket_balance(seq!['\''], k) == 0 by {
        lemma_no_brackets(seq!['\''], k);
    }
    lemma_concat_closed(wa, seq!['\'']);
    assert(node(eq.operation, *eq.element1, *eq.element2) == e);
}

/// An application of a single-letter name renders as `f(B)`.
#[verifier::rlimit(60)]
proof fn lemma_application_parse(e: Expression)
    requires
        e is Equa,
        e->Equa_0.operation == Operation::Func,
        *e->Equa_0.element1 matches Expression::Variable(f) && ascii_letter(f),
        render(*e->Equa_0.element2).len() > 0,
        closed(render(*e->Equa_0.element2)),
        parse_split(render(*e->Equa_0.element2)) == Ok::<Expression, crate::error::ParseError>(*e->Equa_0.element2),
    ensures
        render(e).len() > 0,
        closed(render(e)),
        !wrapped(render(e)),
        parse_split(render(e)) == Ok::<Expression, crate::error::ParseError>(e),
{
    reveal_strlit("(");
    reveal_strlit(")");
    let eq = e->Equa_0;
    let f = eq.element1->Variable_0;
    let b = render(*eq.element2);
    let m = b.len() as int;
    let wb = seq!['('] + b + seq![')'];
    let t = render(e);
    assert(render(*eq.element1) == seq![f]);
    assert(t =~= seq![f] + wb);
    let n = t.len() as int;
    assert(t[0] == f);
    assert(t[1] == '(');
    assert(t.subrange(2, 2 + m) =~= b);
    assert(t[2 + m] == ')');
    assert((f as u32) < 128);
    lemma_not_special_before(t, 0);
    assert(scan(t, 0) == scan_start());
    assert(!implied_mult('(', f));
    assert(scan(t, 1) == (ScanState { prev: f, ..scan_start() }));
    lemma_not_special(t, 1);
    assert(scan(t, 2) == (ScanState { depth: 1, func: 1, prev: '(', ..scan_start() }));
    lemma_group_scan(t, 1, b);
    assert(t.subrange(0, 1) =~= seq![f]);
    assert(t.subrange(1, n) =~= wb);
    lemma_variable_leaf(*eq.element1);
    lemma_group_text(b);
    lemma_group_parse(b);
    assert forall|k: int| 0 <= k <= 1 implies #[trigger] bracket_balance(seq![f], k) == 0 by {
        lemma_no_brackets(seq![f], k);
    }
    lemma_concat_closed(seq![f], wb);
    assert(node(eq.operation, *eq.element1, *eq.element2) == e);
}

/// Scanning the letters of a function name, after its first one.
proof fn lemma_name_skip(t: Seq<char>, len: int, k: int)
    requires
        1 <= k <= len < t.len(),
        forall|j: int| 1 <= j < len ==> #[trigger] t[j] != '(' && t[j] != ')',
        scan(t, 1) == (ScanState { depth: -1, in_name: true, prev: t[0], ..scan_start() }),
    ensures
        scan(t, k) == (ScanState { depth: -1, in_name: true, prev: t[k - 1], ..scan_start() }),
    decreases k,
{
    if k > 1 {
        lemma_name_skip(t, len, k - 1);
        assert(t[k - 1] != '(' && t[k - 1] != ')');
    }
}

/// A trig node renders as its function name applied to `(B)`.
#[verifier::rlimit(100)]
proof fn lemma_trig_parse(e: Expression)
    requires
        e is Equa,
        e->Equa_0.operation == Operation::Trig,
        *e->Equa_0.element1 matches Expression::Variable(tag) && trig_name(tag).len() > 0,
        render(*e->Equa_0.element2).len() > 0,
        closed(render(*e->Equa_0.element2)),
        parse_split(render(*e->Equa_0.element2)) == Ok::<Expression, crate::error::ParseError>(*e->Equa_0.element2),
    ensures
        render(e).len() > 0,
        closed(render(e)),
        !wrapped(render(e)),
        parse_split(render(e)) == Ok::<Expression, crate::error::ParseError>(e),
{
    reveal_strlit("(");
    reveal_strlit(")");
    reveal_strlit("sin");
    reveal_strlit("cos");
    reveal_strlit("tan");
    reveal_strlit("arcsin");
    reveal_strlit("arccos");
    reveal_strlit("arctan");
    reveal_strlit("log");
    reveal_strlit("ln");
    let eq = e->Equa_0;
    let tag = eq.element1->Variable_0;
    let name = trig_name(tag);
    let l = name.len() as int;
    let b = render(*eq.element2);
    let m = b.len() as int;
    let wb = seq!['('] + b + seq![')'];
    let t = render(e);
    assert(t =~= name + wb);
    let n = t.len() as int;
    assert(l == 3 || l == 6);
    assert(forall|j: int| 0 <= j < l ==> ascii_letter(#[trigger] name[j]));
    assert(forall|j: int| 0 <= j < l ==> t[j] == name[j]);
    assert(t[l] == '(');
    assert(t.subrange(l + 1, l + 1 + m) =~= b);
    assert(t[l + 1 + m] == ')');
    assert(t.subrange(0, l) =~= name);
    assert(t.subrange(0, 3)[0] == t[0]);
    assert(t.subrange(0, 6)[0] == t[0]);
    if l == 6 {
        assert(t.subrange(0, 6) =~= name);
    } else {
        assert(t.subrange(0, 3) =~= name);
    }
    assert(special_at(t, 0));
    assert(scan(t, 0) == scan_start());
    assert(!implied_mult('(', t[0]));
    assert(scan(t, 1) == (ScanState { depth: -1, in_name: true, prev: t[0], ..scan_start() }));
    lemma_name_skip(t, l, l);
    assert(scan(t, l + 1) == (ScanState { depth: 1, special: l, prev: '(', ..scan_start() }));
    lemma_group_scan(t, l, b);
    assert(t.subrange(l, n) =~= wb);
    lemma_group_text(b);
    lemma_group_parse(b);
    assert forall|k: int| 0 <= k <= l implies #[trigger] bracket_balance(name, k) == 0 by {
        lemma_no_brackets(name, k);
    }
    lemma_concat_closed(name, wb);
    if tag == 's' {
        assert(name == "sin"@);
    } else if tag == 'c' {
        assert(name == "cos"@);
    } else if tag == 't' {
        assert(name == "tan"@);
    } else if tag == 'S' {
        assert(name == "arcsin"@);
    } else if tag == 'C' {
        assert(name == "arccos"@);
    } else {
        assert(name == "arctan"@);
    }
    assert(trig_tag(name) == Some(tag));
    assert(parse_named(name, wb) == combine(Operation::Trig, Ok(Expression::Variable(tag)), parse_text(wb)));
    assert(node(eq.operation, *eq.element1, *eq.element2) == e);
}

/// A natural logarithm renders as `ln(B)`.
#[verifier::rlimit(100)]
proof fn lemma_ln_parse(e: Expression)
    requires
        e is Equa,
        e->Equa_0.operation == Operation::Log,
        *e->Equa_0.element1 == Expression::Variable('e'),
        render(*e->Equa_0.element2).len() > 0,
        closed(render(*e->Equa_0.element2)),
        parse_split(render(*e->Equa_0.element2)) == Ok::<Expression, crate::error::ParseError>(*e->Equa_0.element2),
    ensures
        render(e).len() > 0,
        closed(render(e)),
        !wrapped(render(e)),
        parse_split(render(e)) == Ok::<Expression, crate::error::ParseError>(e),
{
    reveal_strlit("(");
    reveal_strlit(")");
    reveal_strlit("sin");
    reveal_strlit("cos");
    reveal_strlit("tan");
    reveal_strlit("arcsin");
    reveal_strlit("arccos");
    reveal_strlit("arctan");
    reveal_strlit("log");
    reveal_strlit("ln");
    let eq = e->Equa_0;
    let b = render(*eq.element2);
    let m = b.len() as int;
    let name = "ln"@;
    let wb = seq!['('] + b + seq![')'];
    let t = render(e);
    assert(log_name(*eq.element1) == name);
    assert(t =~= name + wb);
    let n = t.len() as int;
    assert(t[0] == 'l' && t[1] == 'n' && t[2] == '(');
    assert(t.subrange(3, 3 + m) =~= b);
    assert(t[3 + m] == ')');
    assert(t.subrange(0, 2) =~= name);
    assert(t.subrange(0, 3)[2] == '(');
    if n >= 6 {
        assert(t.subrange(0, 6)[0] == 'l');
    }
    assert(special_at(t, 0));
    assert(scan(t, 0) == scan_start());
    assert(!implied_mult('(', t[0]));
    assert(scan(t, 1) == (ScanState { depth: -1, in_name: true, prev: t[0], ..scan_start() }));
    assert(scan(t, 2) == (ScanState { depth: -1, in_name: true, prev: t[1], ..scan_start() }));
    assert(scan(t, 3) == (ScanState { depth: 1, special: 2, prev: '(', ..scan_start() }));
    lemma_group_scan(t, 2, b);
    assert(t.subrange(2, n) =~= wb);
    lemma_group_text(b);
    lemma_group_parse(b);
    lemma_bracket_free(name);
    lemma_concat_closed(name, wb);
    assert(trig_tag(name) is None);
    assert(node(eq.operation, *eq.element1, *eq.element2) == e);
}

/// A logarithm renders as `logN(B)`, or `log(B)` for base ten.
#[verifier::rlimit(100)]
proof fn lemma_log_parse(e: Expression)
    requires
        e is Equa,
        e->Equa_0.operation == Operation::Log,
        plain_log_base(*e->Equa_0.element1),
        render(*e->Equa_0.element2).len() > 0,
        closed(render(*e->Equa_0.element2)),
        parse_split(render(*e->Equa_0.element2)) == Ok::<Expression, crate::error::ParseError>(*e->Equa_0.element2),
    ensures
        render(e).len() > 0,
        closed(render(e)),
        !wrapped(render(e)),
        parse_split(render(e)) == Ok::<Expression, crate::error::ParseError>(e),
{
    reveal_strlit("(");
    reveal_strlit(")");
    reveal_strlit("sin");
    reveal_strlit("cos");
    reveal_strlit("tan");
    reveal_strlit("arcsin");
    reveal_strlit("arccos");
    reveal_strlit("arctan");
    reveal_strlit("log");
    reveal_strlit("ln");
    let eq = e->Equa_0;
    let base = *eq.element1;
    let name = log_name(base);
    let l = name.len() as int;
    let b = render(*eq.element2);
    let m = b.len() as int;
    let wb = seq!['('] + b + seq![')'];
    let t = render(e);
    assert(t =~= name + wb);
    let n = t.len() as int;
    let rest = name.subrange(3, l);
    if base is Constant {
        lemma_constant_leaf(base);
        if !is_ten(base->Constant_0) {
            assert(rest =~= render(base));
        }
    } else {
        lemma_variable_leaf(base);
        assert(rest =~= render(base));
    }
    assert(name.subrange(0, 3) =~= "log"@);
    assert(l >= 3);
    assert(l > 3 ==> rest.len() > 0 && closed(rest) && !wrapped(rest));
    assert(forall|j: int| 0 <= j < l ==> t[j] == name[j]);
    assert forall|j: int| 1 <= j < l implies #[trigger] t[j] != '(' && t[j] != ')' by {
        if j >= 3 {
            assert(t[j] == rest[j - 3]);
            if base is Constant {
                assert(all_digits(digits_of(base->Constant_0.numer as nat))) by {
                    lemma_digits(base->Constant_0.numer as nat);
                }
                assert('0' <= rest[j - 3] && rest[j - 3] <= '9');
            }
        }
    }
    assert(t[l] == '(');
    assert(t.subrange(l + 1, l + 1 + m) =~= b);
    assert(t[l + 1 + m] == ')');
    assert(t.subrange(0, l) =~= name);
    assert(t.subrange(0, 3) =~= "log"@);
    assert(t.subrange(0, 6)[0] == t[0]);
    assert(special_at(t, 0));
    assert(scan(t, 0) == scan_start());
    assert(!implied_mult('(', t[0]));
    assert(scan(t, 1) == (ScanState { depth: -1, in_name: true, prev: t[0], ..scan_start() }));
    lemma_name_skip(t, l, l);
    assert(scan(t, l + 1) == (ScanState { depth: 1, special: l, prev: '(', ..scan_start() }));
    lemma_group_scan(t, l, b);
    assert(t.subrange(l, n) =~= wb);
    lemma_group_text(b);
    lemma_group_parse(b);
    assert forall|k: int| 0 <= k <= l implies #[trigger] bracket_balance(name, k) == 0 by {
        lemma_no_brackets(name, k);
    }
    lemma_concat_closed(name, wb);
    assert(trig_tag(name) is None);
    if l == 3 {
        assert(name == "log"@);
        assert(base == Expression::Constant(ten()));
    } else {
        assert(name != "log"@ && name != "ln"@);
        assert(parse_text(rest) == Ok::<Expression, crate::error::ParseError>(base));
    }
    assert(node(eq.operation, *eq.element1, *eq.element2) == e);
}

/// Every tree of the fragment renders to a closed, unwrapped text that
/// parses back to it.
proof fn lemma_tree(e: Expression)
    requires
        plain_tree(e),
    ensures
        render(e).len() > 0,
        closed(render(e)),
        !wrapped(render(e)),
        parse_split(render(e)) == Ok::<Expression, crate::error::ParseError>(e),
    decreases e,
{
    match e {
        Expression::Constant(_) => lemma_constant_leaf(e),
        Expression::Variable(_) => lemma_variable_leaf(e),
        Expression::Equa(eq) => {
            if eq.operation == Operation::Log {
                lemma_tree(*eq.element2);
                if *eq.element1 == Expression::Variable('e') {
                    lemma_ln_parse(e);
                } else {
                    lemma_log_parse(e);
                }
            } else if eq.operation == Operation::Trig {
                lemma_tree(*eq.element2);
                lemma_trig_parse(e);
            } else if eq.operation == Operation::Func {
                lemma_tree(*eq.element2);
                lemma_application_parse(e);
            } else if eq.operation == Operation::Deriv {
                lemma_tree(*eq.element1);
                lemma_derivative_parse(e);
            } else {
            lemma_tree(*eq.element1);
            lemma_tree(*eq.element2);
            if eq.operation == Operation::Mult {
                lemma_product_parse(e);
            } else if eq.operation == Operation::Add {
                lemma_binary_parse(e, '+');
            } else if eq.operation == Operation::Sub {
                lemma_binary_parse(e, '-');
            } else if eq.operation == Operation::Div {
                lemma_binary_parse(e, '/');
            } else {
                lemma_binary_parse(e, '^');
            }
            }
        },
    }
}

/// Round trip: a formula whose tree lies in the plain fragment (`+ - * / ^`,
/// implied multiplication, trig functions, logarithms `ln`, `log` and
/// `logN`,
/// applications `f(..)` and derivative marks over single ASCII letters and
/// nonnegative integers)
/// renders to a text that parses to the same tree.
pub proof fn lemma_round_trip(s: Seq<char>)
    requires
        parse_formula(s) is Ok,
        plain_tree(parse_formula(s)->Ok_0),
    ensures
        parse_formula(render(parse_formula(s)->Ok_0)) == parse_formula(s),
{
    let e = parse_formula(s)->Ok_0;
    lemma_tree(e);
    let t = render(e);
    assert(strip(t) == t);
}

/// A text without brackets is closed.
proof fn lemma_bracket_free(s: Seq<char>)
    requires
        forall|i: int| 0 <= i < s.len() ==> #[trigger] s[i] != '(' && s[i] != ')',
    ensures
        closed(s),
{
    assert forall|k: int| 0 <= k <= s.len() implies #[trigger] bracket_balance(s, k) >= 0 by {
        lemma_no_brackets(s, k);
    }
    lemma_no_brackets(s, s.len() as int);
}

/// The text of a constant holds no brackets.
proof fn lemma_decimal_closed(q: Rational)
    ensures
        closed(decimal_text(q)),
        decimal_text(q).len() > 0,
{
    let t = decimal_text(q);
    lemma_digits(q.numer as nat);
    lemma_digits(q.denom as nat);
    let ds = digits_of(q.numer as nat);
    let dd = digits_of(q.denom as nat);
    assert forall|i: int| 0 <= i < t.len() implies #[trigger] t[i] != '(' && t[i] != ')' by {
        let sign: Seq<char> = if q.negative { seq!['-'] } else { Seq::empty() };
        let tail: Seq<char> = if q.numer != 0 && q.denom != 1 { seq!['/'] + dd } else { Seq::empty() };
        assert(t == sign + ds + tail);
        if i < sign.len() {
        } else if i < sign.len() + ds.len() {
            assert(t[i] == ds[i - sign.len()]);
            assert('0' <= ds[i - sign.len()] && ds[i - sign.len()] <= '9');
        } else {
            assert(t[i] == tail[i - sign.len() - ds.len()]);
            if i - sign.len() - ds.len() > 0 {
                assert(tail[i - sign.len() - ds.len()] == dd[i - sign.len() - ds.len() - 1]);
                assert('0' <= dd[i - sign.len() - ds.len() - 1] && dd[i - sign.len() - ds.len() - 1] <= '9');
            }
        }
    }
    lemma_bracket_free(t);
}

/// `(A)` is closed and nonempty for closed `A`.
proof fn lemma_group_closed(a: Seq<char>)
    requires
        closed(a),
    ensures
        closed(seq!['('] + a + seq![')']),
{
    if a.len() > 0 {
        lemma_group_text(a);
    } else {
        let w = seq!['('] + a + seq![')'];
        assert(w =~= seq!['(', ')']);
        assert(bracket_balance(w, 0) == 0);
        assert(bracket_balance(w, 1) == 1);
        assert(bracket_balance(w, 2) == 0);
    }
}

/// No name in the tree is a bracket character.
pub open spec fn names_bracket_free(e: Expression) -> bool
    decreases e,
{
    match e {
        Expression::Constant(_) => true,
        Expression::Variable(v) => v != '(' && v != ')',
        Expression::Equa(eq) => names_bracket_free(*eq.element1) && names_bracket_free(*eq.element2),
    }
}

/// The name of a logarithm is closed.
proof fn lemma_log_name_closed(base: Expression)
    requires
        names_bracket_free(base),
    ensures
        closed(log_name(base)),
    decreases base, 1nat,
{
    reveal_strlit("ln");
    reveal_strlit("log");
    let lg = "log"@;
    lemma_bracket_free(lg);
    match base {
        Expression::Variable(v) => {
            if v == 'e' {
                lemma_bracket_free("ln"@);
            } else {
                lemma_bracket_free(seq![v]);
                lemma_concat_closed(lg, seq![v]);
            }
        },
        Expression::Constant(q) => {
            lemma_decimal_closed(q);
            if !is_ten(q) {
                lemma_concat_closed(lg, decimal_text(q));
            }
        },
        Expression::Equa(_) => {
            lemma_render_balanced(base);
            lemma_concat_closed(lg, render(base));
        },
    }
}

/// `x + (B)` is closed for closed `x` and `B`.
proof fn lemma_prefix_group(x: Seq<char>, b: Seq<char>)
    requires
        closed(x),
        closed(b),
    ensures
        closed(x + (seq!['('] + b + seq![')'])),
{
    lemma_group_closed(b);
    lemma_concat_closed(x, seq!['('] + b + seq![')']);
}

/// `(A)c(B)` is closed for closed `A`, `B` and a character `c` that is not a
/// bracket.
proof fn lemma_infix_closed(a: Seq<char>, c: char, b: Seq<char>)
    requires
        closed(a),
        closed(b),
        c != '(' && c != ')',
    ensures
        closed((seq!['('] + a + seq![')']) + seq![c] + (seq!['('] + b + seq![')'])),
{
    lemma_group_closed(a);
    lemma_bracket_free(seq![c]);
    lemma_concat_closed(seq!['('] + a + seq![')'], seq![c]);
    lemma_prefix_group((seq!['('] + a + seq![')']) + seq![c], b);
}

/// The text of every tree whose names are not brackets is balanced, so the
/// parser never rejects a printed tree for its brackets.
#[verifier::rlimit(100)]
pub proof fn lemma_render_balanced(e: Expression)
    requires
        names_bracket_free(e),
    ensures
        closed(render(e)),
        balanced(render(e)),
    decreases e, 0nat,
{
    reveal_strlit("(");
    reveal_strlit(")");
    reveal_strlit("))");
    match e {
        Expression::Constant(q) => lemma_decimal_closed(q),
        Expression::Variable(v) => lemma_bracket_free(seq![v]),
        Expression::Equa(eq) => {
            lemma_render_balanced(*eq.element1);
            lemma_render_balanced(*eq.element2);
            let a = render(*eq.element1);
            let b = render(*eq.element2);
            let wa = seq!['('] + a + seq![')'];
            let wb = seq!['('] + b + seq![')'];
            match eq.operation {
                Operation::Add => {
                    reveal_strlit(")+(");
                    assert(render(e) =~= wa + seq!['+'] + wb);
                    lemma_infix_closed(a, '+', b);
                },
                Operation::Sub => {
                    reveal_strlit(")-(");
                    assert(render(e) =~= wa + seq!['-'] + wb);
                    lemma_infix_closed(a, '-', b);
                },
                Operation::Div => {
                    reveal_strlit(")/(");
                    assert(render(e) =~= wa + seq!['/'] + wb);
                    lemma_infix_closed(a, '/', b);
                },
                Operation::Exp => {
                    reveal_strlit(")^(");
                    assert(render(e) =~= wa + seq!['^'] + wb);
                    lemma_infix_closed(a, '^', b);
                },
                Operation::Mult => {
                    reveal_strlit(")(");
                    assert(render(e) =~= wa + wb);
                    lemma_group_closed(a);
                    lemma_prefix_group(wa, b);
                },
                Operation::Func => {
                    assert(render(e) =~= a + wb);
                    lemma_prefix_group(a, b);
                },
                Operation::Trig => {
                    match *eq.element1 {
                        Expression::Variable(t) if trig_name(t).len() > 0 => {
                            reveal_strlit("sin");
                            reveal_strlit("cos");
                            reveal_strlit("tan");
                            reveal_strlit("arcsin");
                            reveal_strlit("arccos");
                            reveal_strlit("arctan");
                            assert(render(e) =~= trig_name(t) + wb);
                            lemma_bracket_free(trig_name(t));
                            lemma_prefix_group(trig_name(t), b);
                        },
                        _ => {
                            assert(render(e) =~= a + wb);
                            lemma_prefix_group(a, b);
                        },
                    }
                },
                Operation::Log => {
                    assert(render(e) =~= log_name(*eq.element1) + wb);
                    lemma_log_name_closed(*eq.element1);
                    lemma_prefix_group(log_name(*eq.element1), b);
                },
                Operation::Deriv => {
                    reveal_strlit(")'");
                    assert(render(e) =~= wa + seq!['\''] );
                    lemma_group_closed(a);
                    lemma_bracket_free(seq!['\'']);
                    lemma_concat_closed(wa, seq!['\'']);
                },
            }
        },
    }
}

/// Combining two results whose trees have bracket-free names.
proof fn lemma_combine_names(op: Operation, a: Result<Expression, crate::error::ParseError>, b: Result<Expression, crate::error::ParseError>)
    requires
        a matches Ok(x) ==> names_bracket_free(x),
        b matches Ok(y) ==> names_bracket_free(y),
    ensures
        combine(op, a, b) matches Ok(z) ==> names_bracket_free(z),
{
}

/// Named functions give trees with bracket-free names.
proof fn lemma_named_names(name: Seq<char>, arg: Seq<char>)
    ensures
        parse_named(name, arg) matches Ok(z) ==> names_bracket_free(z),
    decreases name.len() + arg.len(), 0nat,
{
    if name.len() > 0 {
        lemma_text_names(arg);
        if trig_tag(name) is Some {
            let tag = trig_tag(name)->Some_0;
            assert(tag != '(' && tag != ')');
            lemma_combine_names(Operation::Trig, Ok(Expression::Variable(tag)), parse_text(arg));
        } else {
            lemma_combine_names(Operation::Log, Ok(Expression::Variable('e')), parse_text(arg));
            lemma_combine_names(Operation::Log, Ok(Expression::Constant(ten())), parse_text(arg));
            if name.len() > 3 {
                lemma_text_names(name.subrange(3, name.len() as int));
                lemma_combine_names(Operation::Log, parse_text(name.subrange(3, name.len() as int)), parse_text(arg));
            }
        }
    }
}

/// Splitting gives trees with bracket-free names.
#[verifier::rlimit(100)]
proof fn lemma_split_names(t: Seq<char>)
    ensures
        parse_split(t) matches Ok(z) ==> names_bracket_free(z),
    decreases t.len(), 1nat,
{
    let st = scan(t, t.len() as int);
    let n = t.len() as int;
    if 0 < st.add < n {
        lemma_text_names(t.subrange(0, st.add));
        lemma_text_names(t.subrange(st.add + 1, n));
        lemma_combine_names(Operation::Add, parse_text(t.subrange(0, st.add)), parse_text(t.subrange(st.add + 1, n)));
    } else if 0 < st.sub < n {
        lemma_text_names(t.subrange(0, st.sub));
        lemma_text_names(t.subrange(st.sub + 1, n));
        lemma_combine_names(Operation::Sub, parse_text(t.subrange(0, st.sub)), parse_text(t.subrange(st.sub + 1, n)));
    } else if 0 < st.mult < n {
        lemma_text_names(t.subrange(0, st.mult));
        lemma_text_names(t.subrange(st.mult + 1, n));
        lemma_combine_names(Operation::Mult, parse_text(t.subrange(0, st.mult)), parse_text(t.subrange(st.mult + 1, n)));
    } else if 0 < st.div < n {
        lemma_text_names(t.subrange(0, st.div));
        lemma_text_names(t.subrange(st.div + 1, n));
        lemma_combine_names(Operation::Div, parse_text(t.subrange(0, st.div)), parse_text(t.subrange(st.div + 1, n)));
    } else if 0 < st.exp < n {
        lemma_text_names(t.subrange(0, st.exp));
        lemma_text_names(t.subrange(st.exp + 1, n));
        lemma_combine_names(Operation::Exp, parse_text(t.subrange(0, st.exp)), parse_text(t.subrange(st.exp + 1, n)));
    } else if 0 < st.implied < n {
        lemma_text_names(t.subrange(0, st.implied));
        lemma_text_names(t.subrange(st.implied, n));
        lemma_combine_names(Operation::Mult, parse_text(t.subrange(0, st.implied)), parse_text(t.subrange(st.implied, n)));
    } else if 0 < st.func < n {
        lemma_text_names(t.subrange(0, st.func));
        lemma_text_names(t.subrange(st.func, n));
        lemma_combine_names(Operation::Func, parse_text(t.subrange(0, st.func)), parse_text(t.subrange(st.func, n)));
    } else if 0 < st.special < n {
        lemma_named_names(t.subrange(0, st.special), t.subrange(st.special, n));
    } else if 0 < st.deriv < n {
        lemma_text_names(t.subrange(0, st.deriv));
        lemma_combine_names(Operation::Deriv, parse_text(t.subrange(0, st.deriv)), Ok(Expression::Variable('!')));
    } else {
        if t.len() == 1 && letter(t[0]) {
            assert(t[0] != '(' && t[0] != ')');
        }
        assert(parse_leaf(t) matches Ok(z) ==> names_bracket_free(z));
    }
}

/// Parsing gives trees with bracket-free names.
proof fn lemma_text_names(s: Seq<char>)
    ensures
        parse_text(s) matches Ok(z) ==> names_bracket_free(z),
    decreases s.len(), 2nat,
{
    if strip(s).len() > 0 {
        lemma_split_names(strip(s));
    }
}

/// The printed text of every parsed formula is balanced.
pub proof fn lemma_parsed_render_balanced(s: Seq<char>)
    requires
        parse_formula(s) is Ok,
    ensures
        balanced(render(parse_formula(s)->Ok_0)),
{
    lemma_text_names(s);
    lemma_render_balanced(parse_formula(s)->Ok_0);
}

} // verus!
