use make_class::address::AddressString;
use make_class::ast::{AddressResolver, Env, FloatMath};
use make_class::error::{EvalError, ParseError, ParseErrorKind};
use make_class::lexer::Lexer;
use make_class::parser::AddressParser;
use make_class::token::Token;

struct Resolver;

impl AddressResolver for Resolver {
    fn module_symbol_to_address(&self, module_name: &str) -> Option<isize> {
        match module_name {
            "target.dll" => Some(0x10),
            "unTarget.dll" => Some(0x20),
            _ => None,
        }
    }

    fn dereference(&self, address: usize) -> Option<isize> {
        if address == 0x10 {
            return Some(0x20);
        }
        None
    }
}

struct Trig;

impl FloatMath for Trig {
    fn sin_rounded(&self, x: isize) -> isize {
        (x as f64).sin().round() as isize
    }

    fn cos_rounded(&self, x: isize) -> isize {
        (x as f64).cos().round() as isize
    }

    fn sqrt_rounded(&self, x: isize) -> isize {
        (x as f64).sqrt().round() as isize
    }
}

fn eval_in(src: &str, env: &mut Env) -> Result<isize, EvalError> {
    let mut parser = AddressParser::new(src);
    let tree = parser.parse().unwrap();
    tree.eval(env, &Resolver, &Trig)
}

fn eval(src: &str) -> Result<isize, EvalError> {
    let mut env = Env::new();
    eval_in(src, &mut env)
}

fn parse_err(src: &str) -> ParseError {
    let mut parser = AddressParser::new(src);
    match parser.parse() {
        Ok(t) => panic!("parsed: {t:?}"),
        Err(e) => e,
    }
}

#[test]
fn test_parser() {
    let src = "((10 + 11) + 1) / 2";
    let mut parser = AddressParser::new(src);
    let tree = parser.parse().unwrap();
    let mut env = Env::new();
    let ret = tree.eval(&mut env, &Resolver, &Trig).unwrap();
    println!("Ret={ret}");
    assert_eq!(ret, 11);
}

#[test]
fn precedence_multiplication_first() {
    assert_eq!(eval("2 + 3 * 4").unwrap(), 14);
}

#[test]
fn power_is_right_associative() {
    assert_eq!(eval("2 ^ 3 ^ 2").unwrap(), 512);
}

#[test]
fn parentheses_group() {
    assert_eq!(eval("(2 + 3) * 4").unwrap(), 20);
}

#[test]
fn subtraction_is_left_associative() {
    assert_eq!(eval("10 - 3 - 2").unwrap(), 5);
    assert_eq!(eval("100 / 10 / 5").unwrap(), 2);
}

#[test]
fn addition_saturates_at_max() {
    let src = format!("{} + 1", isize::MAX);
    assert_eq!(eval(&src).unwrap(), isize::MAX);
}

#[test]
fn subtraction_and_product_saturate() {
    let src = format!("0 - {} - 5", isize::MAX);
    assert_eq!(eval(&src).unwrap(), isize::MIN);
    let src = format!("{} * 3", isize::MAX);
    assert_eq!(eval(&src).unwrap(), isize::MAX);
    assert_eq!(eval("2 ^ 200").unwrap(), isize::MAX);
    assert_eq!(eval("(0 - 2) ^ 201").unwrap(), isize::MIN);
}

#[test]
fn division_by_zero_gives_zero() {
    assert_eq!(eval("7 / 0").unwrap(), 0);
}

#[test]
fn division_rounds_toward_zero() {
    assert_eq!(eval("(0 - 7) / 2").unwrap(), -3);
}

#[test]
fn negative_exponent_is_an_error() {
    assert!(matches!(eval("2 ^ (0 - 1)"), Err(EvalError::InvalidExponent(-1))));
}

#[test]
fn module_symbol_dereference() {
    assert_eq!(eval("[target.dll]").unwrap(), 0x20);
    assert_eq!(eval("unTarget.dll + 0x10").unwrap(), 0x30);
}

#[test]
fn unknown_module_is_named() {
    match eval("missing.dll") {
        Err(EvalError::UnresolvedSymbol(s)) => assert_eq!(s, "missing.dll"),
        other => panic!("{other:?}"),
    }
}

#[test]
fn unreadable_and_non_positive_dereference() {
    assert!(matches!(eval("[0x30]"), Err(EvalError::UnreadableAddress(0x30))));
    assert!(matches!(eval("[0]"), Err(EvalError::NonPositiveAddress(0))));
}

#[test]
fn let_binds_the_second_symbol() {
    let mut env = Env::new();
    assert_eq!(eval_in("a let = 10", &mut env).unwrap(), 10);
    assert_eq!(env.get("let"), Some(10));
    assert_eq!(env.get("a"), None);
    assert_eq!(eval_in("let + 5", &mut env).unwrap(), 15);
}

#[test]
fn let_before_name_is_two_symbols() {
    assert!(matches!(
        parse_err("let a = 10"),
        ParseError::Syntax(ParseErrorKind::TwoConsecutiveSymbols)
    ));
}

#[test]
fn unset_variable_is_named() {
    match eval("b + 1") {
        Err(EvalError::UndefinedVariable(s)) => assert_eq!(s, "b"),
        other => panic!("{other:?}"),
    }
}

#[test]
fn functions() {
    assert_eq!(eval("sqrt(10)").unwrap(), 3);
    assert_eq!(eval("SQRT(12)").unwrap(), 3);
    assert_eq!(eval("sqrt(13)").unwrap(), 4);
    assert_eq!(eval("sqrt(0 - 4)").unwrap(), 0);
    assert_eq!(eval("sin(0)").unwrap(), 0);
    assert_eq!(eval("cosine(0)").unwrap(), 1);
    match parse_err("foo(1)") {
        ParseError::UnsupportedFunction(s) => assert_eq!(s, "foo"),
        other => panic!("{other:?}"),
    }
}

#[test]
fn empty_input_is_zero() {
    assert_eq!(eval("").unwrap(), 0);
    assert_eq!(eval("   ").unwrap(), 0);
}

#[test]
fn missing_operand_is_an_error() {
    assert!(matches!(
        parse_err("1 +"),
        ParseError::Syntax(ParseErrorKind::UnrecognizedAtom('E'))
    ));
    assert!(matches!(
        parse_err("(2 *"),
        ParseError::Syntax(ParseErrorKind::UnrecognizedAtom('E'))
    ));
}

#[test]
fn error_leaves_environment_alone() {
    let mut env = Env::new();
    assert_eq!(eval_in("a let = 3", &mut env).unwrap(), 3);
    assert!(eval_in("b let = missing.dll", &mut env).is_err());
    assert_eq!(env.get("let"), Some(3));
    assert!(matches!(eval_in("zz", &mut env), Err(EvalError::UndefinedVariable(s)) if s == "zz"));
    assert_eq!(env.get("let"), Some(3));
}

#[test]
fn lexer_tokens() {
    let mut lexer = Lexer::new(" 0x1F + abc.dll*x1 ");
    let mut tokens = vec![];
    loop {
        let t = lexer.next_token().unwrap();
        let end = t.is_eof();
        tokens.push(t);
        if end {
            break;
        }
    }
    assert!(matches!(tokens[0], Token::Number(31)));
    assert!(matches!(tokens[1], Token::Add));
    assert!(matches!(&tokens[2], Token::ModuleSymbol(s) if s == "abc.dll"));
    assert!(matches!(tokens[3], Token::Mul));
    assert!(matches!(&tokens[4], Token::Symbol(s) if s == "x1"));
    assert!(matches!(tokens[5], Token::Eof));
    assert!(matches!(lexer.next_token().unwrap(), Token::Eof));
}

#[test]
fn lexer_errors() {
    assert!(matches!(
        Lexer::new("0x1.2").next_token(),
        Err(ParseError::Syntax(ParseErrorKind::DotInNumber(0)))
    ));
    assert!(matches!(
        Lexer::new("0xzz").next_token(),
        Err(ParseError::Syntax(ParseErrorKind::MalformedNumber(0)))
    ));
    assert!(matches!(
        Lexer::new("  #").next_token(),
        Err(ParseError::Syntax(ParseErrorKind::UnknownCharacter('#', 2)))
    ));
    assert!(matches!(
        Lexer::new("99999999999999999999999").next_token(),
        Err(ParseError::Syntax(ParseErrorKind::MalformedNumber(0)))
    ));
}

#[test]
fn parser_errors() {
    assert!(matches!(
        parse_err("(1 + 2]"),
        ParseError::Syntax(ParseErrorKind::Expected(')', ']'))
    ));
    assert!(matches!(
        parse_err("+ 1"),
        ParseError::Syntax(ParseErrorKind::UnrecognizedAtom('+'))
    ));
}

#[test]
fn token_info() {
    assert_eq!(Token::Add.info(), Some((10, 0)));
    assert_eq!(Token::Div.info(), Some((20, 0)));
    assert_eq!(Token::Pow.info(), Some((30, 1)));
    assert_eq!(Token::Equals.info(), None);
    assert_eq!(Token::LParent.to_char(), '(');
}

#[test]
fn address_string_load() {
    let a = AddressString::load_str("target.dll + 8", &Resolver, &Trig).unwrap();
    assert_eq!(a.address_value(), 0x18);
    assert_eq!(a.text(), "target.dll + 8");
    let b = AddressString::from_value(255);
    assert_eq!(b.text(), "0xFF");
    assert_eq!(b.address_value(), 255);
}
