//! The formula parser: one layer of redundant parentheses is stripped, the
//! text is scanned for the rightmost operator of each class at bracket depth
//! zero, and the text is split at the lowest-precedence class found.
use vstd::prelude::*;
use crate::error::ParseError;
use crate::expression::{Expression, Operation, node, make_node};
use crate::rational::{Rational, number_of, parse_decimal};
use crate::text::{letter, numeral, is_alphabetic, is_numeric, chars_of, string_of_range};

verus! {

// ---------------------------------------------------------------- brackets

/// Opening minus closing brackets in `s[..k]`.
pub open spec fn bracket_balance(s: Seq<char>, k: int) -> int
    decreases k,
{
    if k <= 0 {
        0
    } else {
        bracket_balance(s, k - 1) + if s[k - 1] == '(' {
            1int
        } else if s[k - 1] == ')' {
            -1int
        } else {
            0int
        }
    }
}

/// Every prefix closes no more brackets than it opens, and the whole text
/// closes all of them.
pub open spec fn balanced(s: Seq<char>) -> bool {
    (forall|k: int| 0 <= k <= s.len() ==> #[trigger] bracket_balance(s, k) >= 0) && bracket_balance(
        s,
        s.len() as int,
    ) == 0
}

/// The first bracket of `s` closes at its last character.
pub open spec fn wrapped(s: Seq<char>) -> bool {
    &&& s.len() >= 2
    &&& s[0] == '('
    &&& s[s.len() - 1] == ')'
    &&& forall|k: int| 1 <= k < s.len() ==> #[trigger] bracket_balance(s, k) != 0
}

/// The text with one layer of redundant wrapping parentheses removed.
pub open spec fn strip(s: Seq<char>) -> Seq<char> {
    if wrapped(s) {
        s.subrange(1, s.len() - 1)
    } else {
        s
    }
}

// ------------------------------------------------------------ character tests

/// An explicit operator character.
pub open spec fn is_operator(c: char) -> bool {
    c == '+' || c == '-' || c == '*' || c == '/' || c == '^' || c == '\''
}

/// Two adjacent characters with no operator between them that are not both
/// numeric and do not open or close a group.
pub open spec fn implied_mult(before: char, current: char) -> bool {
    !is_operator(before) && !is_operator(current) && !(numeral(before) && numeral(current))
        && before != '(' && current != ')'
}

/// An identifier (or a derivative mark) directly followed by `(`.
pub open spec fn func_call(before: char, current: char) -> bool {
    current == '(' && (letter(before) || before == '\'')
}

/// The six-letter names of inverse trig functions.
pub open spec fn long_name(w: Seq<char>) -> bool {
    w == "arcsin"@ || w == "arctan"@ || w == "arccos"@
}

/// The three-letter function names.
pub open spec fn short_name(w: Seq<char>) -> bool {
    w == "cos"@ || w == "tan"@ || w == "sin"@ || w == "log"@
}

/// A named function starts at position `i` of `t` (matched by fixed-length
/// lookahead, depending on how much text is left).
pub open spec fn special_at(t: Seq<char>, i: int) -> bool {
    let n = t.len() - i;
    if n >= 6 {
        long_name(t.subrange(i, i + 6)) || short_name(t.subrange(i, i + 3)) || t.subrange(i, i + 2)
            == "ln"@
    } else if n >= 4 {
        short_name(t.subrange(i, i + 3)) || t.subrange(i, i + 2) == "ln"@
    } else if n >= 3 {
        t.subrange(i, i + 2) == "ln"@
    } else {
        false
    }
}

// ------------------------------------------------------------------ scanning

/// The state of the depth-zero scan: the bracket depth, the rightmost
/// position of each operator class (0 when none), whether a function name is
/// being skipped, and the previous character.
pub struct ScanState {
    pub depth: int,
    pub add: int,
    pub sub: int,
    pub mult: int,
    pub div: int,
    pub exp: int,
    pub func: int,
    pub implied: int,
    pub special: int,
    pub deriv: int,
    pub in_name: bool,
    pub prev: char,
}

/// The state before any character is read.
pub open spec fn scan_start() -> ScanState {
    ScanState {
        depth: 0,
        add: 0,
        sub: 0,
        mult: 0,
        div: 0,
        exp: 0,
        func: 0,
        implied: 0,
        special: 0,
        deriv: 0,
        in_name: false,
        prev: '(',
    }
}

/// Reading the character at position `i` of `t` at depth zero.
pub open spec fn step_outer(st: ScanState, t: Seq<char>, i: int) -> ScanState {
    let c = t[i];
    let st1 = if c == '+' {
        ScanState { add: i, ..st }
    } else if c == '-' {
        ScanState { sub: i, ..st }
    } else if c == '*' {
        ScanState { mult: i, ..st }
    } else if c == '/' {
        ScanState { div: i, ..st }
    } else if c == '^' {
        ScanState { exp: i, ..st }
    } else if c == '(' {
        ScanState { func: if letter(st.prev) { i } else { st.func }, depth: st.depth + 1, ..st }
    } else if c == '\'' {
        ScanState { deriv: i, ..st }
    } else {
        st
    };
    let st2 = if implied_mult(st.prev, c) && !func_call(st.prev, c) {
        ScanState { implied: i, ..st1 }
    } else {
        st1
    };
    if special_at(t, i) {
        ScanState { in_name: true, depth: st2.depth - 1, ..st2 }
    } else {
        st2
    }
}

/// Reading the character at position `i` of `t` inside brackets (or inside
/// a function name).
pub open spec fn step_inner(st: ScanState, t: Seq<char>, i: int) -> ScanState {
    let c = t[i];
    if c == '(' {
        if st.in_name {
            ScanState { depth: st.depth + 2, in_name: false, special: i, ..st }
        } else {
            ScanState { depth: st.depth + 1, ..st }
        }
    } else if c == ')' {
        ScanState { depth: st.depth - 1, ..st }
    } else {
        st
    }
}

/// Reading the character at position `i` of `t`.
pub open spec fn step(st: ScanState, t: Seq<char>, i: int) -> ScanState {
    let st1 = if st.depth == 0 {
        step_outer(st, t, i)
    } else {
        step_inner(st, t, i)
    };
    ScanState { prev: t[i], ..st1 }
}

/// The state after reading `t[..n]`.
pub open spec fn scan(t: Seq<char>, n: int) -> ScanState
    decreases n,
{
    if n <= 0 {
        scan_start()
    } else {
        step(scan(t, n - 1), t, n - 1)
    }
}

// ------------------------------------------------------------------- parsing

/// The tree of a leaf: a number where `fraction` reads one, else a single
/// letter.
pub open spec fn parse_leaf(t: Seq<char>) -> Result<Expression, ParseError> {
    if t.len() > 0 && leading_operator(t[0]) {
        Err(ParseError::EmptyOperand)
    } else if !t.contains('/') && number_of(t) is Some {
        Ok(Expression::Constant(number_of(t)->Some_0))
    } else {
        match name_of(t) {
            Ok(c) => Ok(Expression::Variable(c)),
            Err(e) => Err(e),
        }
    }
}

/// The identifier a leaf names: exactly one letter.
pub open spec fn name_of(t: Seq<char>) -> Result<char, ParseError> {
    if t.len() == 1 && letter(t[0]) {
        Ok(t[0])
    } else {
        Err(ParseError::MultiCharacterIdentifier)
    }
}

/// A binary operator or a derivative mark, which cannot begin an operand.
pub open spec fn leading_operator(c: char) -> bool {
    c == '*' || c == '/' || c == '^' || c == '\''
}

/// Combines two parsed operands with an operation.
pub open spec fn combine(
    op: Operation,
    a: Result<Expression, ParseError>,
    b: Result<Expression, ParseError>,
) -> Result<Expression, ParseError> {
    match a {
        Err(e) => Err(e),
        Ok(x) => match b {
            Err(e) => Err(e),
            Ok(y) => Ok(node(op, x, y)),
        },
    }
}

/// The tag of a trig function name, if it is one.
pub open spec fn trig_tag(name: Seq<char>) -> Option<char> {
    if name == "sin"@ {
        Some('s')
    } else if name == "cos"@ {
        Some('c')
    } else if name == "tan"@ {
        Some('t')
    } else if name == "arcsin"@ {
        Some('S')
    } else if name == "arccos"@ {
        Some('C')
    } else if name == "arctan"@ {
        Some('T')
    } else {
        None
    }
}

/// The rational ten.
pub open spec fn ten() -> Rational {
    Rational { negative: false, numer: 10, denom: 1 }
}

/// The tree of a named function `name` applied to the text `arg`.
pub open spec fn parse_named(name: Seq<char>, arg: Seq<char>) -> Result<Expression, ParseError>
    decreases name.len() + arg.len(), 0nat,
{
    if name.len() == 0 {
        Err(ParseError::UnknownFunction)
    } else if trig_tag(name) is Some {
        combine(Operation::Trig, Ok(Expression::Variable(trig_tag(name)->Some_0)), parse_text(arg))
    } else if name == "ln"@ {
        combine(Operation::Log, Ok(Expression::Variable('e')), parse_text(arg))
    } else if name == "log"@ {
        combine(Operation::Log, Ok(Expression::Constant(ten())), parse_text(arg))
    } else if name.len() > 3 && name.subrange(0, 3) == "log"@ {
        combine(Operation::Log, parse_text(name.subrange(3, name.len() as int)), parse_text(arg))
    } else {
        Err(ParseError::UnknownFunction)
    }
}

/// The tree of a stripped, nonempty text, split by the scan's result.
pub open spec fn parse_split(t: Seq<char>) -> Result<Expression, ParseError>
    decreases t.len(), 1nat,
{
    let st = scan(t, t.len() as int);
    let n = t.len() as int;
    if 0 < st.add < n {
        combine(Operation::Add, parse_text(t.subrange(0, st.add)), parse_text(t.subrange(st.add + 1, n)))
    } else if 0 < st.sub < n {
        combine(Operation::Sub, parse_text(t.subrange(0, st.sub)), parse_text(t.subrange(st.sub + 1, n)))
    } else if 0 < st.mult < n {
        combine(Operation::Mult, parse_text(t.subrange(0, st.mult)), parse_text(t.subrange(st.mult + 1, n)))
    } else if 0 < st.div < n {
        combine(Operation::Div, parse_text(t.subrange(0, st.div)), parse_text(t.subrange(st.div + 1, n)))
    } else if 0 < st.exp < n {
        combine(Operation::Exp, parse_text(t.subrange(0, st.exp)), parse_text(t.subrange(st.exp + 1, n)))
    } else if 0 < st.implied < n {
        combine(Operation::Mult, parse_text(t.subrange(0, st.implied)), parse_text(t.subrange(st.implied, n)))
    } else if 0 < st.func < n {
        combine(Operation::Func, parse_text(t.subrange(0, st.func)), parse_text(t.subrange(st.func, n)))
    } else if 0 < st.special < n {
        parse_named(t.subrange(0, st.special), t.subrange(st.special, n))
    } else if 0 < st.deriv < n {
        combine(Operation::Deriv, parse_text(t.subrange(0, st.deriv)), Ok(Expression::Variable('!')))
    } else {
        parse_leaf(t)
    }
}

/// The tree of a formula text (or a part of one).
pub open spec fn parse_text(s: Seq<char>) -> Result<Expression, ParseError>
    decreases s.len(), 2nat,
{
    if strip(s).len() == 0 {
        Err(ParseError::EmptyOperand)
    } else {
        parse_split(strip(s))
    }
}

/// The tree of a whole formula.
pub open spec fn parse_formula(s: Seq<char>) -> Result<Expression, ParseError> {
    if s.len() == 0 {
        Err(ParseError::EmptyInput)
    } else if !balanced(s) {
        Err(ParseError::UnbalancedBrackets)
    } else {
        parse_text(s)
    }
}

// -------------------------------------------------------------- executable

/// A subrange of a subrange is a subrange of the whole.
proof fn lemma_subrange_of_subrange(c: Seq<char>, lo: int, hi: int, x: int, y: int)
    requires
        0 <= lo <= hi <= c.len(),
        0 <= x <= y <= hi - lo,
    ensures
        c.subrange(lo, hi).subrange(x, y) == c.subrange(lo + x, lo + y),
{
    assert(c.subrange(lo, hi).subrange(x, y) =~= c.subrange(lo + x, lo + y));
}

/// Whether `c[lo..hi]` is the text `lit`.
fn range_is(c: &Vec<char>, lo: usize, hi: usize, lit: &str) -> (r: bool)
    requires
        lo <= hi <= c@.len(),
    ensures
        r == (c@.subrange(lo as int, hi as int) == lit@),
{
    let l = chars_of(lit);
    if hi - lo != l.len() {
        assert(c@.subrange(lo as int, hi as int).len() != lit@.len());
        return false;
    }
    let mut j: usize = 0;
    while j < l.len()
        invariant
            hi - lo == l@.len(),
            lo <= hi <= c@.len(),
            l@ == lit@,
            j <= l@.len(),
            forall|m: int| 0 <= m < j ==> c@[lo + m] == l@[m],
        decreases l@.len() - j,
    {
        if c[lo + j] != l[j] {
            assert(c@.subrange(lo as int, hi as int)[j as int] != lit@[j as int]);
            return false;
        }
        j = j + 1;
    }
    assert(c@.subrange(lo as int, hi as int) =~= lit@);
    true
}

/// Whether `c[lo..hi]` holds the character `x`.
fn range_has(c: &Vec<char>, lo: usize, hi: usize, x: char) -> (r: bool)
    requires
        lo <= hi <= c@.len(),
    ensures
        r == c@.subrange(lo as int, hi as int).contains(x),
{
    let mut j: usize = lo;
    while j < hi
        invariant
            lo <= j <= hi <= c@.len(),
            forall|m: int| lo <= m < j ==> c@[m] != x,
        decreases hi - j,
    {
        if c[j] == x {
            assert(c@.subrange(lo as int, hi as int)[j - lo] == x);
            return true;
        }
        j = j + 1;
    }
    assert forall|m: int| 0 <= m < hi - lo implies c@.subrange(lo as int, hi as int)[m] != x by {
        assert(c@[lo + m] != x);
    }
    false
}

/// Whether the text is balanced.
fn is_balanced(c: &Vec<char>) -> (r: bool)
    ensures
        r == balanced(c@),
{
    let mut bal: i128 = 0;
    let mut k: usize = 0;
    while k < c.len()
        invariant
            k <= c@.len(),
            bal == bracket_balance(c@, k as int),
            0 <= bal <= k,
            forall|m: int| 0 <= m <= k ==> #[trigger] bracket_balance(c@, m) >= 0,
        decreases c@.len() - k,
    {
        if c[k] == '(' {
            bal = bal + 1;
        } else if c[k] == ')' {
            bal = bal - 1;
        }
        k = k + 1;
        if bal < 0 {
            assert(bracket_balance(c@, k as int) < 0);
            return false;
        }
    }
    bal == 0
}

/// Whether `c[lo..hi]` is wrapped in one redundant pair of parentheses.
pub fn is_wrapped(c: &Vec<char>, lo: usize, hi: usize) -> (r: bool)
    requires
        lo <= hi <= c@.len(),
    ensures
        r == wrapped(c@.subrange(lo as int, hi as int)),
{
    let ghost t = c@.subrange(lo as int, hi as int);
    if hi - lo < 2 || c[lo] != '(' || c[hi - 1] != ')' {
        return false;
    }
    let mut bal: i128 = 0;
    let mut k: usize = 0;
    while k < hi - lo - 1
        invariant
            t == c@.subrange(lo as int, hi as int),
            lo + 2 <= hi <= c@.len(),
            k <= hi - lo - 1,
            bal == bracket_balance(t, k as int),
            -(k as int) <= bal <= k,
            forall|m: int| 1 <= m <= k ==> #[trigger] bracket_balance(t, m) != 0,
        decreases hi - lo - 1 - k,
    {
        if c[lo + k] == '(' {
            bal = bal + 1;
        } else if c[lo + k] == ')' {
            bal = bal - 1;
        }
        k = k + 1;
        if bal == 0 {
            assert(bracket_balance(t, k as int) == 0);
            return false;
        }
    }
    true
}

/// Whether two adjacent characters form an implied multiplication.
pub fn is_implied_mult(before: char, current: char) -> (r: bool)
    ensures
        r == implied_mult(before, current),
{
    let ops = before == '+' || before == '-' || before == '*' || before == '/' || before == '^'
        || before == '\'' || current == '+' || current == '-' || current == '*' || current == '/'
        || current == '^' || current == '\'';
    if ops {
        return false;
    }
    let both_number = is_numeric(before) && is_numeric(current);
    !both_number && before != '(' && current != ')'
}

/// Whether two adjacent characters form a function application.
pub fn is_func(before: char, current: char) -> (r: bool)
    ensures
        r == func_call(before, current),
{
    current == '(' && (is_alphabetic(before) || before == '\'')
}

/// Whether a named function starts at position `i` of `c[lo..hi]`.
pub fn is_special(c: &Vec<char>, lo: usize, hi: usize, i: usize) -> (r: bool)
    requires
        lo <= i <= hi <= c@.len(),
    ensures
        r == special_at(c@.subrange(lo as int, hi as int), i - lo),
{
    let ghost t = c@.subrange(lo as int, hi as int);
    let ghost k = i - lo;
    let n = hi - i;
    if n >= 6 {
        proof {
            lemma_subrange_of_subrange(c@, lo as int, hi as int, k, k + 6);
            lemma_subrange_of_subrange(c@, lo as int, hi as int, k, k + 3);
            lemma_subrange_of_subrange(c@, lo as int, hi as int, k, k + 2);
        }
        (range_is(c, i, i + 6, "arcsin") || range_is(c, i, i + 6, "arctan") || range_is(c, i, i + 6, "arccos"))
            || (range_is(c, i, i + 3, "cos") || range_is(c, i, i + 3, "tan") || range_is(c, i, i + 3, "sin")
            || range_is(c, i, i + 3, "log")) || range_is(c, i, i + 2, "ln")
    } else if n >= 4 {
        proof {
            lemma_subrange_of_subrange(c@, lo as int, hi as int, k, k + 3);
            lemma_subrange_of_subrange(c@, lo as int, hi as int, k, k + 2);
        }
        (range_is(c, i, i + 3, "cos") || range_is(c, i, i + 3, "tan") || range_is(c, i, i + 3, "sin")
            || range_is(c, i, i + 3, "log")) || range_is(c, i, i + 2, "ln")
    } else if n >= 3 {
        proof {
            lemma_subrange_of_subrange(c@, lo as int, hi as int, k, k + 2);
        }
        range_is(c, i, i + 2, "ln")
    } else {
        false
    }
}

/// The executable state of the scan; positions are offsets into the text.
struct Scanner {
    depth: i128,
    add: usize,
    sub: usize,
    mult: usize,
    div: usize,
    exp: usize,
    func: usize,
    implied: usize,
    special: usize,
    deriv: usize,
    in_name: bool,
    prev: char,
}

impl Scanner {
    spec fn view(&self) -> ScanState {
        ScanState {
            depth: self.depth as int,
            add: self.add as int,
            sub: self.sub as int,
            mult: self.mult as int,
            div: self.div as int,
            exp: self.exp as int,
            func: self.func as int,
            implied: self.implied as int,
            special: self.special as int,
            deriv: self.deriv as int,
            in_name: self.in_name,
            prev: self.prev,
        }
    }

    /// Every recorded position lies before `k`, and the depth moved at most
    /// two per character.
    spec fn within(&self, k: int) -> bool {
        &&& self.add < k || self.add == 0
        &&& self.sub < k || self.sub == 0
        &&& self.mult < k || self.mult == 0
        &&& self.div < k || self.div == 0
        &&& self.exp < k || self.exp == 0
        &&& self.func < k || self.func == 0
        &&& self.implied < k || self.implied == 0
        &&& self.special < k || self.special == 0
        &&& self.deriv < k || self.deriv == 0
        &&& -2 * k <= self.depth <= 2 * k
    }
}

/// Reads the character at position `i` of `c[lo..hi]`.
fn scan_step(sc: &mut Scanner, c: &Vec<char>, lo: usize, hi: usize, i: usize)
    requires
        lo <= i < hi <= c@.len(),
        old(sc).within(i - lo),
    ensures
        final(sc).view() == step(old(sc).view(), c@.subrange(lo as int, hi as int), i - lo),
        final(sc).within(i - lo + 1),
{
    let ghost t = c@.subrange(lo as int, hi as int);
    let k = i - lo;
    let ch = c[i];
    let prev = sc.prev;
    assert(t[k as int] == ch);
    if sc.depth == 0 {
        if ch == '+' {
            sc.add = k;
        } else if ch == '-' {
            sc.sub = k;
        } else if ch == '*' {
            sc.mult = k;
        } else if ch == '/' {
            sc.div = k;
        } else if ch == '^' {
            sc.exp = k;
        } else if ch == '(' {
            if is_alphabetic(prev) {
                sc.func = k;
            }
            sc.depth = sc.depth + 1;
        } else if ch == '\'' {
            sc.deriv = k;
        }
        if is_implied_mult(prev, ch) && !is_func(prev, ch) {
            sc.implied = k;
        }
        if is_special(c, lo, hi, i) {
            sc.in_name = true;
            sc.depth = sc.depth - 1;
        }
    } else {
        if ch == '(' {
            if sc.in_name {
                sc.depth = sc.depth + 2;
                sc.in_name = false;
                sc.special = k;
            } else {
                sc.depth = sc.depth + 1;
            }
        } else if ch == ')' {
            sc.depth = sc.depth - 1;
        }
    }
    sc.prev = ch;
}

/// Combines two parsed operands with an operation.
fn combine_exec(
    op: Operation,
    a: Result<Expression, ParseError>,
    b: Result<Expression, ParseError>,
) -> (r: Result<Expression, ParseError>)
    ensures
        r == combine(op, a, b),
{
    match a {
        Err(e) => Err(e),
        Ok(x) => match b {
            Err(e) => Err(e),
            Ok(y) => Ok(make_node(op, x, y)),
        },
    }
}

/// The tag of the trig function named `c[lo..hi]`, if it is one.
fn find_trig_tag(c: &Vec<char>, lo: usize, hi: usize) -> (r: Option<char>)
    requires
        lo <= hi <= c@.len(),
    ensures
        r == trig_tag(c@.subrange(lo as int, hi as int)),
{
    if range_is(c, lo, hi, "sin") {
        Some('s')
    } else if range_is(c, lo, hi, "cos") {
        Some('c')
    } else if range_is(c, lo, hi, "tan") {
        Some('t')
    } else if range_is(c, lo, hi, "arcsin") {
        Some('S')
    } else if range_is(c, lo, hi, "arccos") {
        Some('C')
    } else if range_is(c, lo, hi, "arctan") {
        Some('T')
    } else {
        None
    }
}

/// The tree of the leaf `c[lo..hi]`.
fn parse_leaf_range(c: &Vec<char>, lo: usize, hi: usize) -> (r: Result<Expression, ParseError>)
    requires
        lo < hi <= c@.len(),
    ensures
        r == parse_leaf(c@.subrange(lo as int, hi as int)),
{
    let first = c[lo];
    if first == '*' || first == '/' || first == '^' || first == '\'' {
        assert(c@.subrange(lo as int, hi as int)[0] == first);
        return Err(ParseError::EmptyOperand);
    }
    assert(c@.subrange(lo as int, hi as int)[0] == first);
    if !range_has(c, lo, hi, '/') {
        let s = string_of_range(c, lo, hi);
        if let Some(q) = parse_decimal(s.as_str()) {
            return Ok(Expression::Constant(q));
        }
    }
    match get_name(c, lo, hi) {
        Ok(v) => Ok(Expression::Variable(v)),
        Err(e) => Err(e),
    }
}

/// The identifier that the leaf `c[lo..hi]` names.
pub fn get_name(c: &Vec<char>, lo: usize, hi: usize) -> (r: Result<char, ParseError>)
    requires
        lo <= hi <= c@.len(),
    ensures
        r == name_of(c@.subrange(lo as int, hi as int)),
{
    let ghost t = c@.subrange(lo as int, hi as int);
    if hi - lo == 1 && is_alphabetic(c[lo]) {
        assert(t[0] == c@[lo as int]);
        Ok(c[lo])
    } else {
        proof {
            if hi - lo == 1 {
                assert(t[0] == c@[lo as int]);
            }
        }
        Err(ParseError::MultiCharacterIdentifier)
    }
}

/// The tree of the function named `c[lo..mid]` applied to `c[mid..hi]`.
fn parse_named_range(c: &Vec<char>, lo: usize, mid: usize, hi: usize) -> (r: Result<
    Expression,
    ParseError,
>)
    requires
        lo <= mid <= hi <= c@.len(),
    ensures
        r == parse_named(c@.subrange(lo as int, mid as int), c@.subrange(mid as int, hi as int)),
    decreases hi - lo, 0nat,
{
    if mid == lo {
        return Err(ParseError::UnknownFunction);
    }
    if let Some(tag) = find_trig_tag(c, lo, mid) {
        let arg = parse_range(c, mid, hi);
        combine_exec(Operation::Trig, Ok(Expression::Variable(tag)), arg)
    } else if range_is(c, lo, mid, "ln") {
        let arg = parse_range(c, mid, hi);
        combine_exec(Operation::Log, Ok(Expression::Variable('e')), arg)
    } else if range_is(c, lo, mid, "log") {
        let arg = parse_range(c, mid, hi);
        combine_exec(Operation::Log, Ok(Expression::Constant(Rational::from_integer(10))), arg)
    } else if mid - lo > 3 && range_is(c, lo, lo + 3, "log") {
        proof {
            lemma_subrange_of_subrange(c@, lo as int, mid as int, 0, 3);
            lemma_subrange_of_subrange(c@, lo as int, mid as int, 3, mid - lo);
        }
        let base = parse_range(c, lo + 3, mid);
        let arg = parse_range(c, mid, hi);
        combine_exec(Operation::Log, base, arg)
    } else {
        proof {
            if mid - lo > 3 {
                lemma_subrange_of_subrange(c@, lo as int, mid as int, 0, 3);
            }
        }
        Err(ParseError::UnknownFunction)
    }
}

/// The tree of the text `c[lo..hi]`.
fn parse_range(c: &Vec<char>, lo: usize, hi: usize) -> (r: Result<Expression, ParseError>)
    requires
        lo <= hi <= c@.len(),
    ensures
        r == parse_text(c@.subrange(lo as int, hi as int)),
    decreases hi - lo, 3nat,
{
    let ghost s = c@.subrange(lo as int, hi as int);
    let w = is_wrapped(c, lo, hi);
    let (a, b) = if w {
        (lo + 1, hi - 1)
    } else {
        (lo, hi)
    };
    proof {
        lemma_subrange_of_subrange(c@, lo as int, hi as int, a - lo, b - lo);
    }
    let ghost t = c@.subrange(a as int, b as int);
    assert(strip(s) == t);
    if a == b {
        return Err(ParseError::EmptyOperand);
    }
    let n = b - a;
    let mut sc = Scanner {
        depth: 0,
        add: 0,
        sub: 0,
        mult: 0,
        div: 0,
        exp: 0,
        func: 0,
        implied: 0,
        special: 0,
        deriv: 0,
        in_name: false,
        prev: '(',
    };
    let mut i: usize = a;
    while i < b
        invariant
            a <= i <= b <= c@.len(),
            t == c@.subrange(a as int, b as int),
            sc.view() == scan(t, i - a),
            sc.within(i - a),
        decreases b - i,
    {
        scan_step(&mut sc, c, a, b, i);
        i = i + 1;
    }
    assert(sc.view() == scan(t, n as int));
    split_scanned(c, a, b, &sc)
}

/// The tree of the stripped, nonempty text `c[a..b]`, split by its scan `sc`.
#[verifier::rlimit(100)]
fn split_scanned(c: &Vec<char>, a: usize, b: usize, sc: &Scanner) -> (r: Result<Expression, ParseError>)
    requires
        a < b <= c@.len(),
        sc.view() == scan(c@.subrange(a as int, b as int), b - a),
        sc.within(b - a),
    ensures
        r == parse_split(c@.subrange(a as int, b as int)),
    decreases b - a, 2nat,
{
    let ghost t = c@.subrange(a as int, b as int);
    let n = b - a;
    proof {
        lemma_subrange_of_subrange(c@, a as int, b as int, 0, sc.add as int);
        lemma_subrange_of_subrange(c@, a as int, b as int, sc.add + 1, n as int);
    }
    if sc.add != 0 {
        let x = parse_range(c, a, a + sc.add);
        let y = parse_range(c, a + sc.add + 1, b);
        return combine_exec(Operation::Add, x, y);
    }
    proof {
        lemma_subrange_of_subrange(c@, a as int, b as int, 0, sc.sub as int);
        lemma_subrange_of_subrange(c@, a as int, b as int, sc.sub + 1, n as int);
    }
    if sc.sub != 0 {
        let x = parse_range(c, a, a + sc.sub);
        let y = parse_range(c, a + sc.sub + 1, b);
        return combine_exec(Operation::Sub, x, y);
    }
    proof {
        lemma_subrange_of_subrange(c@, a as int, b as int, 0, sc.mult as int);
        lemma_subrange_of_subrange(c@, a as int, b as int, sc.mult + 1, n as int);
    }
    if sc.mult != 0 {
        let x = parse_range(c, a, a + sc.mult);
        let y = parse_range(c, a + sc.mult + 1, b);
        return combine_exec(Operation::Mult, x, y);
    }
    proof {
        lemma_subrange_of_subrange(c@, a as int, b as int, 0, sc.div as int);
        lemma_subrange_of_subrange(c@, a as int, b as int, sc.div + 1, n as int);
    }
    if sc.div != 0 {
        let x = parse_range(c, a, a + sc.div);
        let y = parse_range(c, a + sc.div + 1, b);
        return combine_exec(Operation::Div, x, y);
    }
    proof {
        lemma_subrange_of_subrange(c@, a as int, b as int, 0, sc.exp as int);
        lemma_subrange_of_subrange(c@, a as int, b as int, sc.exp + 1, n as int);
    }
    if sc.exp != 0 {
        let x = parse_range(c, a, a + sc.exp);
        let y = parse_range(c, a + sc.exp + 1, b);
        return combine_exec(Operation::Exp, x, y);
    }
    split_rest(c, a, b, sc)
}

/// The tree of the stripped, nonempty text `c[a..b]` that holds no
/// depth-zero binary operator, split by its scan `sc`.
#[verifier::rlimit(100)]
fn split_rest(c: &Vec<char>, a: usize, b: usize, sc: &Scanner) -> (r: Result<Expression, ParseError>)
    requires
        a < b <= c@.len(),
        sc.view() == scan(c@.subrange(a as int, b as int), b - a),
        sc.within(b - a),
        sc.add == 0 && sc.sub == 0 && sc.mult == 0 && sc.div == 0 && sc.exp == 0,
    ensures
        r == parse_split(c@.subrange(a as int, b as int)),
    decreases b - a, 1nat,
{
    let ghost t = c@.subrange(a as int, b as int);
    let n = b - a;
    proof {
        lemma_subrange_of_subrange(c@, a as int, b as int, 0, sc.implied as int);
        lemma_subrange_of_subrange(c@, a as int, b as int, sc.implied as int, n as int);
    }
    if sc.implied != 0 {
        let x = parse_range(c, a, a + sc.implied);
        let y = parse_range(c, a + sc.implied, b);
        return combine_exec(Operation::Mult, x, y);
    }
    proof {
        lemma_subrange_of_subrange(c@, a as int, b as int, 0, sc.func as int);
        lemma_subrange_of_subrange(c@, a as int, b as int, sc.func as int, n as int);
    }
    if sc.func != 0 {
        let x = parse_range(c, a, a + sc.func);
        let y = parse_range(c, a + sc.func, b);
        return combine_exec(Operation::Func, x, y);
    }
    proof {
        lemma_subrange_of_subrange(c@, a as int, b as int, 0, sc.special as int);
        lemma_subrange_of_subrange(c@, a as int, b as int, sc.special as int, n as int);
    }
    if sc.special != 0 {
        return parse_named_range(c, a, a + sc.special, b);
    }
    proof {
        lemma_subrange_of_subrange(c@, a as int, b as int, 0, sc.deriv as int);
    }
    if sc.deriv != 0 {
        let x = parse_range(c, a, a + sc.deriv);
        return combine_exec(Operation::Deriv, x, Ok(Expression::Variable('!')));
    }
    parse_leaf_range(c, a, b)
}

impl Expression {
    /// Parses a formula into its tree.
    pub fn from(string: &str) -> (r: Result<Expression, ParseError>)
        ensures
            r == parse_formula(string@),
    {
        let c = chars_of(string);
        if c.len() == 0 {
            return Err(ParseError::EmptyInput);
        }
        if !is_balanced(&c) {
            return Err(ParseError::UnbalancedBrackets);
        }
        assert(c@.subrange(0, c@.len() as int) == c@);
        parse_range(&c, 0, c.len())
    }
}

} // verus!
