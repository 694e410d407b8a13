use ap_calc::derivative::ddx;
use ap_calc::{add_func_to_bank, add_var_to_bank, new_bank};
use ap_calc::{Bank, EvalError, Expression, Letter, ParseError, Rational, Transcendental, Value};
use fraction::{Fraction, GenericFraction, Sign};

struct FloatMath;

fn to_float(q: Rational) -> f64 {
    let v = q.numer as f64 / q.denom as f64;
    if q.negative {
        -v
    } else {
        v
    }
}

fn from_float(v: f64) -> Option<Rational> {
    match Fraction::from(v) {
        GenericFraction::Rational(s, r) => Some(Rational::new(s == Sign::Minus, *r.numer(), *r.denom())),
        _ => None,
    }
}

impl Transcendental for FloatMath {
    fn power(&self, base: Rational, exponent: Rational) -> Option<Rational> {
        from_float(to_float(base).powf(to_float(exponent)))
    }

    fn trig(&self, tag: char, arg: Rational) -> Option<Rational> {
        let a = to_float(arg);
        let v = match tag {
            's' => a.sin(),
            'c' => a.cos(),
            't' => a.tan(),
            'S' => a.asin(),
            'C' => a.acos(),
            _ => a.atan(),
        };
        from_float(v)
    }

    fn natural_log(&self, arg: Rational) -> Option<Rational> {
        from_float(to_float(arg).ln())
    }

    fn log(&self, base: Rational, arg: Rational) -> Option<Rational> {
        from_float(to_float(arg).log(to_float(base)))
    }
}

fn rat(n: u64) -> Rational {
    Rational::from_integer(n)
}

fn assert_value(r: Result<Rational, EvalError>, n: i64) {
    let q = r.expect("evaluation failed");
    let num = if q.negative { -(q.numer as i128) } else { q.numer as i128 };
    assert_eq!(num, (n as i128) * (q.denom as i128), "got {:?}, wanted {}", q, n);
}

fn assert_near(r: Result<Rational, EvalError>, v: f64) {
    let q = r.expect("evaluation failed");
    assert!((to_float(q) - v).abs() < 1e-6, "got {:?}, wanted {}", q, v);
}

fn eval_entry(bank: &Bank, name: char, x: u64) -> Result<Rational, EvalError> {
    bank.get(&name).unwrap().evaluate(bank, rat(x), &FloatMath)
}

fn parse(s: &str) -> Expression {
    Expression::from(s).expect("parse failed")
}

#[test]
fn make_a_equation() {
    let wanted: &str = "4+2*(2-30)2+40+x";
    let bank = new_bank('f', wanted).unwrap();
    assert_value(eval_entry(&bank, 'f', 5), -63);
}

#[test]
fn test_implied() {
    let bank = new_bank('f', "2(2-30)2").unwrap();
    println!("f(x) = {}", bank.get(&'f').unwrap().to_text());
    assert_value(eval_entry(&bank, 'f', 5), -112);
}

#[test]
fn adding_to_bank() {
    let mut bank = new_bank('f', "3x+25").unwrap();
    add_func_to_bank(&mut bank, 'g', "30(5x-20)-5").unwrap();
    println!("g(x) = {}", bank.get(&'g').unwrap().to_text());
    assert_value(eval_entry(&bank, 'g', 5), 145);
    assert_value(eval_entry(&bank, 'f', 5), 40);
}

#[test]
fn test_functions() {
    let mut bank = new_bank('f', "3x+g(5)").unwrap();
    add_func_to_bank(&mut bank, 'g', "30(5x-20)-5").unwrap();
    println!("f(x) = {}", bank.get(&'f').unwrap().to_text());
    // the callee is evaluated at the caller's point, not at its argument
    assert_value(eval_entry(&bank, 'f', 5), 160);
}

#[test]
fn test_variables() {
    let mut bank = new_bank('f', "2x+a").unwrap();
    add_var_to_bank(&mut bank, 'a', "b+c").unwrap();
    add_var_to_bank(&mut bank, 'b', "2d").unwrap();
    add_var_to_bank(&mut bank, 'c', "5").unwrap();
    add_var_to_bank(&mut bank, 'd', "10").unwrap();
    let before = bank.get(&'f').unwrap().to_text();
    assert_value(eval_entry(&bank, 'f', 5), 35);
    add_var_to_bank(&mut bank, 'c', "3d").unwrap();
    assert_value(eval_entry(&bank, 'f', 5), 60);
    assert_eq!(before, bank.get(&'f').unwrap().to_text());
}

#[test]
fn test_exponents() {
    let bank = new_bank('f', "x^2").unwrap();
    assert_eq!(bank.get(&'f').unwrap().to_text(), "(x)^(2)");
    assert_value(eval_entry(&bank, 'f', 5), 25);
}

#[test]
fn test_trig_funcs() {
    let mut bank = new_bank('c', "cos(x)").unwrap();
    add_func_to_bank(&mut bank, 's', "sin(x)").unwrap();
    add_func_to_bank(&mut bank, 't', "tan(x)").unwrap();
    add_func_to_bank(&mut bank, 'C', "arccos(x)").unwrap();
    add_func_to_bank(&mut bank, 'S', "arcsin(x)").unwrap();
    add_func_to_bank(&mut bank, 'T', "arctan(x)").unwrap();
    assert_eq!(bank.get(&'c').unwrap().to_text(), "cos(x)");
    assert_eq!(bank.get(&'C').unwrap().to_text(), "arccos(x)");
    assert_near(eval_entry(&bank, 'c', 5), 5f64.cos());
    assert_near(eval_entry(&bank, 's', 5), 5f64.sin());
    assert_near(eval_entry(&bank, 'T', 5), 5f64.atan());
    assert_eq!(eval_entry(&bank, 'C', 5), Err(EvalError::NotFinite));
}

#[test]
fn test_logs() {
    let mut bank = new_bank('l', "ln(x)").unwrap();
    add_func_to_bank(&mut bank, 'L', "log(x)").unwrap();
    assert_eq!(bank.get(&'l').unwrap().to_text(), "ln(x)");
    assert_eq!(bank.get(&'L').unwrap().to_text(), "log(x)");
    assert_near(eval_entry(&bank, 'l', 5), 5f64.ln());
    assert_near(eval_entry(&bank, 'L', 5), 5f64.log10());
}

#[test]
fn test_third() {
    let mut bank = new_bank('f', "x/3").unwrap();
    add_func_to_bank(&mut bank, 's', "sin(f(x))").unwrap();
    assert_near(eval_entry(&bank, 's', 1), (1.0f64 / 3.0).sin());
}

#[test]
fn basic_deriv() {
    let mut bank = new_bank('f', "3x").unwrap();
    add_func_to_bank(&mut bank, 'd', "f'(x)").unwrap();
    let d = ddx(bank.get(&'f').unwrap().get_expression().unwrap()).unwrap();
    println!("f'(x) = {}", d.to_text());
    assert_value(eval_entry(&bank, 'd', 5), 3);
}

#[test]
fn x_prime() {
    let mut bank = new_bank('f', "x").unwrap();
    add_func_to_bank(&mut bank, 'd', "f'(x)").unwrap();
    let d = ddx(bank.get(&'f').unwrap().get_expression().unwrap()).unwrap();
    assert_eq!(d.to_text(), "(x)'");
    assert_value(eval_entry(&bank, 'd', 5), 1);
}

#[test]
fn add_deriv() {
    let mut bank = new_bank('f', "3+x").unwrap();
    add_func_to_bank(&mut bank, 'd', "f'(x)").unwrap();
    let d = ddx(bank.get(&'f').unwrap().get_expression().unwrap()).unwrap();
    assert_eq!(d.to_text(), "((3)')+((x)')");
    assert_value(eval_entry(&bank, 'd', 5), 1);
}

#[test]
fn multiplication_deriv() {
    let mut bank = new_bank('f', "3*x").unwrap();
    add_func_to_bank(&mut bank, 'd', "f'(x)").unwrap();
    let d = ddx(bank.get(&'f').unwrap().get_expression().unwrap()).unwrap();
    assert_eq!(d.to_text(), "((x)((3)'))+((3)((x)'))");
    assert_value(eval_entry(&bank, 'd', 5), 3);
}

#[test]
fn x_double_prime() {
    let bank = new_bank('f', "x''").unwrap();
    assert_eq!(bank.get(&'f').unwrap().to_text(), "((x)')'");
    assert_value(eval_entry(&bank, 'f', 5), 0);
}

#[test]
fn multi_deriv() {
    let mut bank = new_bank('f', "3*x").unwrap();
    add_func_to_bank(&mut bank, 'a', "f'(x)").unwrap();
    add_func_to_bank(&mut bank, 'd', "f''(x)").unwrap();
    let d = ddx(&ddx(bank.get(&'f').unwrap().get_expression().unwrap()).unwrap()).unwrap();
    println!("f''(x) = {}", d.to_text());
    assert_value(eval_entry(&bank, 'a', 5), 3);
    assert_value(eval_entry(&bank, 'd', 5), 0);
}

#[test]
fn precedence_splits_on_addition() {
    let e = parse("2+3*4");
    match &e {
        Expression::Equa(eq) => assert_eq!(eq.operation, ap_calc::Operation::Add),
        _ => panic!("expected a composite node"),
    }
    assert_eq!(e.to_text(), "(2)+((3)(4))");
    assert_value(e.evaluate(&Bank::new(), rat(0), &FloatMath), 14);
}

#[test]
fn implied_multiplication_values() {
    assert_value(parse("2(3)").evaluate(&Bank::new(), rat(0), &FloatMath), 6);
    assert_value(parse("2x").evaluate(&Bank::new(), rat(5), &FloatMath), 10);
}

#[test]
fn derivative_scenarios() {
    let bank = Bank::new();
    let d = ddx(&parse("3*x")).unwrap();
    for x in [0u64, 1, 7, 1000] {
        assert_value(d.evaluate(&bank, rat(x), &FloatMath), 3);
    }
    assert_value(d.evaluate(&bank, Rational::new(true, 5, 2), &FloatMath), 3);
    let dd = ddx(&d).unwrap();
    for x in [0u64, 2, 9] {
        assert_value(dd.evaluate(&bank, rat(x), &FloatMath), 0);
    }
    assert_value(ddx(&parse("x^2")).unwrap().evaluate(&bank, rat(5), &FloatMath), 10);
    assert_value(ddx(&parse("sin(x)")).unwrap().evaluate(&bank, rat(0), &FloatMath), 1);
}

#[test]
fn derivative_rules_shapes() {
    assert_eq!(ddx(&parse("x/3")).unwrap().to_text(), "(((3)((x)'))-((x)((3)')))/((3)^(2))");
    assert_eq!(ddx(&parse("sin(x)")).unwrap().to_text(), "(cos(x))((x)')");
    assert_eq!(ddx(&parse("ln(x)")).unwrap().to_text(), "((1)/(x))((x)')");
    assert_eq!(ddx(&parse("x'")).unwrap().to_text(), "((x)')'");
    let r = ddx(&parse("x/3")).unwrap().evaluate(&Bank::new(), rat(4), &FloatMath).unwrap();
    assert_eq!((r.negative, r.numer, r.denom), (false, 1, 3));
}

#[test]
fn undefined_identifier_is_lookup_error() {
    let bank = new_bank('f', "2x+a").unwrap();
    assert_eq!(eval_entry(&bank, 'f', 5), Err(EvalError::UndefinedIdentifier('a')));
    let empty = Bank::new();
    assert_eq!(parse("q").evaluate(&empty, rat(1), &FloatMath), Err(EvalError::UnboundName('q')));
    assert_eq!(parse("g(2)").evaluate(&empty, rat(1), &FloatMath), Err(EvalError::UnboundName('g')));
}

#[test]
fn seeding_marks_functions_and_variables() {
    let bank = new_bank('f', "3x+g(5)").unwrap();
    assert_eq!(bank.get(&'g'), Some(&Letter::Function(Value::Undefined)));
    assert_eq!(bank.get(&'x'), Some(&Letter::Variable(Value::Undefined)));
    assert!(bank.get(&'h').is_none());
    let first_call = new_bank('f', "g(x)+g").unwrap();
    assert_eq!(first_call.get(&'g'), Some(&Letter::Function(Value::Undefined)));
    let first_bare = new_bank('f', "g+g(x)").unwrap();
    assert_eq!(first_bare.get(&'g'), Some(&Letter::Variable(Value::Undefined)));
    assert!(bank.contains_key(&'f'));
    assert_eq!(bank.get(&'f').unwrap().to_text(), "((3)(x))+(g(5))");
}

#[test]
fn parse_errors() {
    assert_eq!(Expression::from(""), Err(ParseError::EmptyInput));
    assert_eq!(Expression::from("(2+3"), Err(ParseError::UnbalancedBrackets));
    assert_eq!(Expression::from("2+3)("), Err(ParseError::UnbalancedBrackets));
    assert_eq!(Expression::from("2+"), Err(ParseError::EmptyOperand));
    assert_eq!(Expression::from("()"), Err(ParseError::EmptyOperand));
    assert_eq!(Expression::from("sinx"), Err(ParseError::MultiCharacterIdentifier));
    assert_eq!(Expression::from("2+?"), Err(ParseError::MultiCharacterIdentifier));
    assert_eq!(Expression::from("sin2(x)"), Err(ParseError::UnknownFunction));
    assert_eq!(Expression::from("*2"), Err(ParseError::EmptyOperand));
    assert_eq!(Expression::from("^x+1"), Err(ParseError::EmptyOperand));
    assert!(new_bank('f', "2+").is_err());
    let mut bank = Bank::new();
    assert_eq!(add_var_to_bank(&mut bank, 'a', "(1"), Err(ParseError::UnbalancedBrackets));
    assert!(bank.get(&'a').is_none());
}

#[test]
fn evaluation_errors() {
    let bank = Bank::new();
    assert_eq!(parse("1/0").evaluate(&bank, rat(1), &FloatMath), Err(EvalError::DivisionByZero));
    assert_eq!(parse("1/(x-x)").evaluate(&bank, rat(3), &FloatMath), Err(EvalError::DivisionByZero));
    let big = "18446744073709551615*18446744073709551615";
    assert_eq!(parse(big).evaluate(&bank, rat(1), &FloatMath), Err(EvalError::Overflow));
    let bad_trig = ap_calc::expression::make_node(ap_calc::Operation::Trig, Expression::Variable('q'), parse("1"));
    assert_eq!(bad_trig.evaluate(&bank, rat(1), &FloatMath), Err(EvalError::UnrecognizedTrigTag));
    assert_eq!(ddx(&bad_trig), Err(EvalError::UnrecognizedTrigTag));
    let bad_log = ap_calc::expression::make_node(ap_calc::Operation::Log, parse("2x"), parse("x"));
    assert_eq!(ddx(&bad_log), Err(EvalError::UnrecognizedLogBase));
    assert_eq!(ap_calc::get_expression(&bank, &parse("4")), Err(EvalError::MalformedNodeShape));
    let mut looping = Bank::new();
    add_var_to_bank(&mut looping, 'a', "a+1").unwrap();
    assert_eq!(parse("a").evaluate(&looping, rat(1), &FloatMath), Err(EvalError::DepthExceeded));
}

#[test]
fn exact_rational_arithmetic() {
    let bank = Bank::new();
    let r = parse("1/3+1/6").evaluate(&bank, rat(0), &FloatMath).unwrap();
    assert_eq!((r.negative, r.numer, r.denom), (false, 1, 2));
    let r = parse("1/2-2").evaluate(&bank, rat(0), &FloatMath).unwrap();
    assert_eq!((r.negative, r.numer, r.denom), (true, 3, 2));
    let r = parse("x*x").evaluate(&bank, Rational::new(true, 2, 3), &FloatMath).unwrap();
    assert_eq!((r.negative, r.numer, r.denom), (false, 4, 9));
    assert_eq!(Expression::Constant(Rational::new(false, 1, 4)).to_text(), "1/4");
    assert_eq!(Expression::Constant(Rational::new(true, 6, 4)).to_text(), "-6/4");
    assert_eq!(parse("-3").to_text(), "-3");
}

#[test]
fn round_trip_examples() {
    for s in [
        "2+3*4", "4+2*(2-30)2+40+x", "sin(x)+log(x)", "x''", "arctan(2x)/ln(x)", "f(x)^2", "3x+g(5)",
        "log2(x)", "logb(x-1)", "ln(7)", "f'(x)", "a-b+c", "cos(sin(x))^(1/2)",
    ] {
        let once = parse(s);
        let again = parse(&once.to_text());
        assert_eq!(once, again, "{}", s);
    }
}

#[test]
fn scanning_helpers() {
    assert!(ap_calc::is_implied_mult('2', 'x'));
    assert!(ap_calc::is_implied_mult(')', '('));
    assert!(!ap_calc::is_implied_mult('2', '3'));
    assert!(!ap_calc::is_implied_mult('2', '+'));
    assert!(!ap_calc::is_implied_mult('(', 'x'));
    assert!(ap_calc::is_func('f', '('));
    assert!(ap_calc::is_func('\'', '('));
    assert!(!ap_calc::is_func('2', '('));
    let text: Vec<char> = "2+arcsin(x)".chars().collect();
    assert!(ap_calc::is_special(&text, 0, text.len(), 2));
    assert!(!ap_calc::is_special(&text, 0, text.len(), 3));
    assert!(!ap_calc::is_special(&text, 0, text.len(), text.len()));
    let ln_long: Vec<char> = "ln(x+1)".chars().collect();
    assert!(ap_calc::is_special(&ln_long, 0, ln_long.len(), 0));
    let wrapped: Vec<char> = "(1+(2))".chars().collect();
    assert!(ap_calc::is_wrapped(&wrapped, 0, wrapped.len()));
    let unwrapped: Vec<char> = "(1)+(2)".chars().collect();
    assert!(!ap_calc::is_wrapped(&unwrapped, 0, unwrapped.len()));
    assert_eq!(ap_calc::get_name(&text, 9, 10), Ok('x'));
    assert_eq!(ap_calc::get_name(&text, 0, 1), Err(ParseError::MultiCharacterIdentifier));
    assert_eq!(ap_calc::get_name(&text, 2, 5), Err(ParseError::MultiCharacterIdentifier));
}

#[test]
fn natural_log_of_a_long_argument() {
    let e = parse("ln(x+1)");
    assert_eq!(e.to_text(), "ln((x)+(1))");
    assert_near(e.evaluate(&Bank::new(), rat(2), &FloatMath), 3f64.ln());
    assert_eq!(parse(&e.to_text()), e);
}

#[test]
fn small_values_never_overflow() {
    let bank = Bank::new();
    let big = Rational::new(false, 0x7fff_ffff, 0x7fff_fffe);
    let r = parse("x*x+x/x-x").evaluate(&bank, big, &FloatMath);
    assert!(r.is_ok());
}

#[test]
fn copies_are_equal() {
    let e = parse("2(x+1)^3-cos(x)");
    assert_eq!(ap_calc::copy_expression(&e), e);
    let letter = Letter::Variable(Value::Undefined);
    assert_eq!(letter.to_text(), "undefined");
    assert_eq!(letter.get_inside(), &Value::Undefined);
    assert_eq!(letter.evaluate(&Bank::new(), rat(1), &FloatMath), Err(EvalError::UndefinedEntry));
}
