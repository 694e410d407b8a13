//! The bank: named functions and variables, each defined by a tree or not
//! yet defined. A name can be redefined; later lookups see the new binding.
use vstd::prelude::*;
use crate::error::{EvalError, ParseError};
use crate::expression::{Expression, copy_expression, render};
use crate::parser::parse_formula;
use crate::text::{letter, chars_of, is_alphabetic, string_of};

verus! {

/// The binding state of a bank entry.
#[derive(Debug, PartialEq)]
pub enum Value {
    Defined(Expression),
    Undefined,
}

/// A bank entry: a function or a variable.
#[derive(Debug, PartialEq)]
pub enum Letter {
    Function(Value),
    Variable(Value),
}

/// The binding held by an entry, whatever its kind.
pub open spec fn inside(l: Letter) -> Value {
    match l {
        Letter::Function(v) => v,
        Letter::Variable(v) => v,
    }
}

impl Letter {
    /// The binding held by the entry.
    pub fn get_inside(&self) -> (r: &Value)
        ensures
            *r == inside(*self),
    {
        match self {
            Letter::Function(x) => x,
            Letter::Variable(x) => x,
        }
    }

    /// The defining tree, if the entry is defined.
    pub fn get_expression(&self) -> (r: Option<&Expression>)
        ensures
            match inside(*self) {
                Value::Defined(e) => r == Some(&e),
                Value::Undefined => r is None,
            },
    {
        match self.get_inside() {
            Value::Defined(e) => Some(e),
            Value::Undefined => None,
        }
    }

    /// The canonical text of the defining tree, or a note that there is none.
    pub fn to_text(&self) -> (r: String)
        ensures
            inside(*self) matches Value::Defined(e) ==> r@ == render(e),
            inside(*self) is Undefined ==> r@ == "undefined"@,
    {
        match self.get_inside() {
            Value::Defined(e) => e.to_text(),
            Value::Undefined => string_of(&chars_of("undefined")),
        }
    }
}

/// The most recent entry for `name` in `s`.
pub open spec fn find_entry(s: Seq<(char, Letter)>, name: char) -> Option<Letter>
    decreases s.len(),
{
    if s.len() == 0 {
        None
    } else if s.last().0 == name {
        Some(s.last().1)
    } else {
        find_entry(s.drop_last(), name)
    }
}

/// The environment of named definitions. Entries are only ever added;
/// a later entry for a name hides the earlier ones.
pub struct Bank {
    entries: Vec<(char, Letter)>,
}

impl Bank {
    /// The entry the bank holds for `name`.
    pub closed spec fn lookup(&self, name: char) -> Option<Letter> {
        find_entry(self.entries@, name)
    }

    /// The tree that `name` is bound to, or why there is none.
    pub open spec fn resolve(&self, name: char) -> Result<Expression, EvalError> {
        match self.lookup(name) {
            None => Err(EvalError::UnboundName(name)),
            Some(l) => match inside(l) {
                Value::Defined(e) => Ok(e),
                Value::Undefined => Err(EvalError::UndefinedIdentifier(name)),
            },
        }
    }

    /// An empty bank.
    pub fn new() -> (r: Bank)
        ensures
            forall|n: char| r.lookup(n) is None,
    {
        Bank { entries: Vec::new() }
    }

    /// Binds `name` to `letter`, replacing any earlier binding.
    pub fn insert(&mut self, name: char, letter: Letter)
        ensures
            final(self).lookup(name) == Some(letter),
            forall|n: char| n != name ==> final(self).lookup(n) == old(self).lookup(n),
    {
        self.entries.push((name, letter));
        assert(self.entries@.drop_last() == old(self).entries@);
    }

    /// Whether the bank holds an entry for `name`.
    pub fn contains_key(&self, name: &char) -> (r: bool)
        ensures
            r == (self.lookup(*name) is Some),
    {
        self.get(name).is_some()
    }

    /// The entry for `name`.
    pub fn get(&self, name: &char) -> (r: Option<&Letter>)
        ensures
            match r {
                Some(l) => self.lookup(*name) == Some(*l),
                None => self.lookup(*name) is None,
            },
    {
        let mut j: usize = self.entries.len();
        assert(self.entries@.subrange(0, j as int) == self.entries@);
        while j > 0
            invariant
                j <= self.entries@.len(),
                find_entry(self.entries@, *name) == find_entry(self.entries@.subrange(0, j as int), *name),
            decreases j,
        {
            let ghost pre = self.entries@.subrange(0, j as int);
            assert(pre.drop_last() == self.entries@.subrange(0, j - 1));
            if self.entries[j - 1].0 == *name {
                return Some(&self.entries[j - 1].1);
            }
            j = j - 1;
        }
        assert(self.entries@.subrange(0, 0) == Seq::<(char, Letter)>::empty());
        None
    }
}

/// Whether the character at position `j` of `s` is directly followed by `(`.
pub open spec fn called_at(s: Seq<char>, j: int) -> bool {
    j + 1 < s.len() && s[j + 1] == '('
}

/// The entry that seeding from the first `i` characters of `s` leaves for
/// `name`: the first occurrence of a letter enters it undefined, as a
/// function where it is directly followed by `(` and as a variable otherwise;
/// later occurrences change nothing.
pub open spec fn seeded(s: Seq<char>, i: int, name: char) -> Option<Letter>
    decreases i,
{
    if i <= 0 {
        None
    } else if seeded(s, i - 1, name) is Some {
        seeded(s, i - 1, name)
    } else if s[i - 1] == name && letter(name) {
        if called_at(s, i - 1) {
            Some(Letter::Function(Value::Undefined))
        } else {
            Some(Letter::Variable(Value::Undefined))
        }
    } else {
        None
    }
}

/// Creates a bank from the definition `function(x) = input`: every letter of
/// `input` is entered undefined, as a function where it is directly followed
/// by `(` and as a variable otherwise, and `function` is bound to the parsed
/// formula.
pub fn new_bank(function: char, input: &str) -> (r: Result<Bank, ParseError>)
    ensures
        match parse_formula(input@) {
            Err(e) => r == Err::<Bank, ParseError>(e),
            Ok(t) => r matches Ok(b) && b.lookup(function) == Some(Letter::Function(Value::Defined(t)))
                && forall|n: char| n != function ==> b.lookup(n) == seeded(input@, input@.len() as int, n),
        },
{
    let tree = Expression::from(input);
    let tree = match tree {
        Err(e) => return Err(e),
        Ok(t) => t,
    };
    let s = chars_of(input);
    let mut bank = Bank::new();
    let mut i: usize = 0;
    while i < s.len()
        invariant
            i <= s@.len(),
            s@ == input@,
            forall|n: char| #[trigger] bank.lookup(n) == seeded(s@, i as int, n),
        decreases s@.len() - i,
    {
        let ch = s[i];
        let called = i + 1 < s.len() && s[i + 1] == '(';
        if is_alphabetic(ch) && !bank.contains_key(&ch) {
            if called {
                bank.insert(ch, Letter::Function(Value::Undefined));
            } else {
                bank.insert(ch, Letter::Variable(Value::Undefined));
            }
        }
        assert forall|n: char| #[trigger] bank.lookup(n) == seeded(s@, i + 1, n) by {
            assert(s@[i as int] == ch);
        }
        i = i + 1;
    }
    bank.insert(function, Letter::Function(Value::Defined(tree)));
    Ok(bank)
}

/// Binds `f` to the function defined by `input`; on a parse error the bank
/// is left as it was.
pub fn add_func_to_bank(bank: &mut Bank, f: char, input: &str) -> (r: Result<(), ParseError>)
    ensures
        match parse_formula(input@) {
            Err(e) => r == Err::<(), ParseError>(e) && *final(bank) == *old(bank),
            Ok(t) => r is Ok && final(bank).lookup(f) == Some(Letter::Function(Value::Defined(t)))
                && forall|n: char| n != f ==> final(bank).lookup(n) == old(bank).lookup(n),
        },
{
    match Expression::from(input) {
        Err(e) => Err(e),
        Ok(t) => {
            bank.insert(f, Letter::Function(Value::Defined(t)));
            Ok(())
        },
    }
}

/// Binds `f` to the variable defined by `input`; on a parse error the bank
/// is left as it was.
pub fn add_var_to_bank(bank: &mut Bank, f: char, input: &str) -> (r: Result<(), ParseError>)
    ensures
        match parse_formula(input@) {
            Err(e) => r == Err::<(), ParseError>(e) && *final(bank) == *old(bank),
            Ok(t) => r is Ok && final(bank).lookup(f) == Some(Letter::Variable(Value::Defined(t)))
                && forall|n: char| n != f ==> final(bank).lookup(n) == old(bank).lookup(n),
        },
{
    match Expression::from(input) {
        Err(e) => Err(e),
        Ok(t) => {
            bank.insert(f, Letter::Variable(Value::Defined(t)));
            Ok(())
        },
    }
}

/// A copy of the tree that `name` is bound to.
pub fn resolve_name(bank: &Bank, name: char) -> (r: Result<Expression, EvalError>)
    ensures
        r == bank.resolve(name),
{
    match bank.get(&name) {
        None => Err(EvalError::UnboundName(name)),
        Some(l) => match l.get_inside() {
            Value::Defined(e) => Ok(copy_expression(e)),
            Value::Undefined => Err(EvalError::UndefinedIdentifier(name)),
        },
    }
}

} // verus!
