use line_interp::abs::{clone_expr, Expr, Stm, Type};
use line_interp::parser::{Line, ParseError, Parser, Rule};
use line_interp::text::{
    char_is_alnum, char_is_digit, char_is_lower, char_is_upper, check_digits, check_ident,
    check_type_name, digits_to_i64, find_first, to_chars,
};

fn chars(s: &str) -> Vec<char> {
    s.chars().collect()
}

fn var(name: &str) -> Box<Expr> {
    Box::new(Expr::Id(name.to_string()))
}

fn lit(v: i64) -> Box<Expr> {
    Box::new(Expr::LitInt(v))
}

fn no_match(s: &str) -> ParseError {
    ParseError::NoMatch(s.to_string())
}

#[test]
fn character_classes() {
    assert!(char_is_lower('a') && char_is_lower('z') && !char_is_lower('A') && !char_is_lower('{'));
    assert!(char_is_upper('A') && char_is_upper('Z') && !char_is_upper('a') && !char_is_upper('['));
    assert!(char_is_digit('0') && char_is_digit('9') && !char_is_digit('/') && !char_is_digit(':'));
    assert!(char_is_alnum('q') && char_is_alnum('Q') && char_is_alnum('5'));
    assert!(!char_is_alnum(' ') && !char_is_alnum('_') && !char_is_alnum('\u{e9}'));
}

#[test]
fn to_chars_gives_every_character() {
    assert_eq!(to_chars("a \u{e9}+1"), vec!['a', ' ', '\u{e9}', '+', '1']);
    assert_eq!(to_chars(""), Vec::<char>::new());
}

#[test]
fn identifiers_types_and_literals() {
    assert!(check_ident(&chars("x")));
    assert!(check_ident(&chars("xY9")));
    assert!(!check_ident(&chars("")));
    assert!(!check_ident(&chars("Xy")));
    assert!(!check_ident(&chars("9x")));
    assert!(!check_ident(&chars("x_y")));
    assert!(!check_ident(&chars("x ")));
    assert!(check_type_name(&chars("Int")));
    assert!(check_type_name(&chars("I64x")));
    assert!(!check_type_name(&chars("int")));
    assert!(!check_type_name(&chars("")));
    assert!(!check_type_name(&chars("In t")));
    assert!(check_digits(&chars("0")));
    assert!(check_digits(&chars("0123")));
    assert!(!check_digits(&chars("")));
    assert!(!check_digits(&chars("12a")));
    assert!(!check_digits(&chars("-1")));
}

#[test]
fn literal_values() {
    assert_eq!(digits_to_i64(&chars("0")), Some(0));
    assert_eq!(digits_to_i64(&chars("007")), Some(7));
    assert_eq!(digits_to_i64(&chars("1234567890")), Some(1234567890));
    assert_eq!(digits_to_i64(&chars("9223372036854775807")), Some(i64::MAX));
    assert_eq!(digits_to_i64(&chars("9223372036854775808")), None);
    assert_eq!(digits_to_i64(&chars("99999999999999999999999")), None);
}

#[test]
fn search_finds_the_first_occurrence() {
    let sep = chars(" - ");
    assert_eq!(find_first(&chars("a - b - c"), &sep), Some(1));
    assert_eq!(find_first(&chars(" - "), &sep), Some(0));
    assert_eq!(find_first(&chars("a -b - c"), &sep), Some(4));
    assert_eq!(find_first(&chars("a-b"), &sep), None);
    assert_eq!(find_first(&chars(" -"), &sep), None);
    assert_eq!(find_first(&chars(""), &sep), None);
    assert_eq!(find_first(&chars("abc"), &chars("")), Some(0));
    assert_eq!(find_first(&chars("a  -  - b"), &sep), Some(2));
    assert_eq!(find_first(&chars("a -- - b"), &sep), Some(4));
}

#[test]
fn statement_rules_and_their_captures() {
    let p = Parser::new();
    let m = p.match_stm("x :: Int").unwrap();
    assert_eq!(m.rule, Rule::Vardef);
    assert_eq!(m.first, "x");
    assert_eq!(m.second, "Int");
    let m = p.match_stm("x = y :: Int").unwrap();
    assert_eq!(m.rule, Rule::Assign);
    assert_eq!(m.first, "x");
    assert_eq!(m.second, "y :: Int");
    let m = p.match_stm("x = ").unwrap();
    assert_eq!(m.rule, Rule::Assign);
    assert_eq!(m.second, "");
    assert!(p.match_stm("x").is_none());
    assert!(p.match_stm("X = 1").is_none());
    assert!(p.match_stm("x :: int").is_none());
    assert!(p.match_stm("x ::Int").is_none());
    assert!(p.match_stm("x  = 1").is_none());
    assert!(p.match_stm(" x = 1").is_none());
    assert!(p.match_stm("").is_none());
}

#[test]
fn expression_rules_in_their_order() {
    let p = Parser::new();
    let m = p.match_expr("abc").unwrap();
    assert_eq!((m.rule, m.first.as_str(), m.second.as_str()), (Rule::Id, "abc", ""));
    let m = p.match_expr("42").unwrap();
    assert_eq!((m.rule, m.first.as_str(), m.second.as_str()), (Rule::LitInt, "42", ""));
    let m = p.match_expr("a - b + c + d").unwrap();
    assert_eq!((m.rule, m.first.as_str(), m.second.as_str()), (Rule::Plus, "a - b", "c + d"));
    let m = p.match_expr("a - b - c").unwrap();
    assert_eq!((m.rule, m.first.as_str(), m.second.as_str()), (Rule::Minus, "a", "b - c"));
    let m = p.match_expr("-a - b").unwrap();
    assert_eq!((m.rule, m.first.as_str(), m.second.as_str()), (Rule::Minus, "-a", "b"));
    let m = p.match_expr("-a").unwrap();
    assert_eq!((m.rule, m.first.as_str(), m.second.as_str()), (Rule::Neg, "a", ""));
    let m = p.match_expr(" + ").unwrap();
    assert_eq!((m.rule, m.first.as_str(), m.second.as_str()), (Rule::Plus, "", ""));
    assert!(p.match_expr("").is_none());
    assert!(p.match_expr("Int").is_none());
    assert!(p.match_expr("a+b").is_none());
    assert!(p.match_expr("x :: Int").is_none());
}

#[test]
fn expressions_nest_to_the_right() {
    let p = Parser::new();
    assert_eq!(p.parse_expr("x"), Ok(Expr::Id("x".to_string())));
    assert_eq!(p.parse_expr("15"), Ok(Expr::LitInt(15)));
    assert_eq!(p.parse_expr("-7"), Ok(Expr::Neg(lit(7))));
    assert_eq!(p.parse_expr("--x"), Ok(Expr::Neg(Box::new(Expr::Neg(var("x"))))));
    assert_eq!(
        p.parse_expr("a - 4 - 1"),
        Ok(Expr::Minus(var("a"), Box::new(Expr::Minus(lit(4), lit(1)))))
    );
    assert_eq!(
        p.parse_expr("a + b - c"),
        Ok(Expr::Plus(var("a"), Box::new(Expr::Minus(var("b"), var("c")))))
    );
    assert_eq!(
        p.parse_expr("a - b + c"),
        Ok(Expr::Plus(Box::new(Expr::Minus(var("a"), var("b"))), var("c")))
    );
    assert_eq!(
        p.parse_expr("-a + b"),
        Ok(Expr::Plus(Box::new(Expr::Neg(var("a"))), var("b")))
    );
    assert_eq!(p.parse_expr("a - -2"), Ok(Expr::Minus(var("a"), Box::new(Expr::Neg(lit(2))))));
}

#[test]
fn fragments_that_no_rule_matches() {
    let p = Parser::new();
    assert_eq!(p.parse_expr(""), Err(no_match("")));
    assert_eq!(p.parse_expr("- 5"), Err(no_match(" 5")));
    assert_eq!(p.parse_expr("a +"), Err(no_match("a +")));
    assert_eq!(p.parse_expr("a + "), Err(no_match("")));
    assert_eq!(p.parse_expr("a * b"), Err(no_match("a * b")));
    assert_eq!(p.parse_expr("Int"), Err(no_match("Int")));
    assert_eq!(p.parse_expr("? + !"), Err(no_match("?")));
    assert_eq!(p.parse_expr("a + !"), Err(no_match("!")));
    assert_eq!(p.parse_expr("a = b + 1"), Err(no_match("a = b")));
}

#[test]
fn literal_out_of_range() {
    let p = Parser::new();
    assert_eq!(p.parse_expr("9223372036854775807"), Ok(Expr::LitInt(i64::MAX)));
    assert_eq!(
        p.parse_expr("9223372036854775808"),
        Err(ParseError::LiteralOutOfRange("9223372036854775808".to_string()))
    );
    assert_eq!(
        p.parse_stm("x = 1 + 99999999999999999999"),
        Err(ParseError::LiteralOutOfRange("99999999999999999999".to_string()))
    );
}

#[test]
fn statements() {
    let p = Parser::new();
    assert_eq!(
        p.parse_stm("x :: Int"),
        Ok(Stm::Vardef(Expr::Id("x".to_string()), Type("Int".to_string())))
    );
    assert_eq!(
        p.parse_stm("y = x + 3"),
        Ok(Stm::Assign(Expr::Id("y".to_string()), Expr::Plus(var("x"), lit(3))))
    );
    assert_eq!(p.parse_stm("foo bar"), Err(no_match("foo bar")));
    assert_eq!(p.parse_stm("foo"), Err(no_match("foo")));
    assert_eq!(p.parse_stm("x = y :: Int"), Err(no_match("y :: Int")));
    assert_eq!(p.parse_stm("x = "), Err(no_match("")));
    assert_eq!(p.parse_stm("x :: Int "), Err(no_match("x :: Int ")));
}

#[test]
fn lines_parse_in_order_until_the_first_failure() {
    let p = Parser::new();
    let lines = vec![Line { content: "b = 2" }, Line { content: "a :: T" }, Line { content: "a = b" }];
    assert_eq!(
        p.parse(lines),
        Ok(vec![
            Stm::Assign(Expr::Id("b".to_string()), Expr::LitInt(2)),
            Stm::Vardef(Expr::Id("a".to_string()), Type("T".to_string())),
            Stm::Assign(Expr::Id("a".to_string()), Expr::Id("b".to_string())),
        ])
    );
    let lines = vec![Line { content: "b = 2" }, Line { content: "?" }, Line { content: "!" }];
    assert_eq!(p.parse(lines), Err(no_match("?")));
    assert_eq!(p.parse(vec![]), Ok(vec![]));
}

#[test]
fn clone_keeps_the_tree() {
    let e = Expr::Divide(
        Box::new(Expr::Multiply(var("a"), lit(2))),
        Box::new(Expr::Plus(Box::new(Expr::Neg(var("b"))), Box::new(Expr::Minus(lit(1), lit(0))))),
    );
    assert_eq!(clone_expr(&e), e);
    assert_eq!(e.clone(), e);
}
