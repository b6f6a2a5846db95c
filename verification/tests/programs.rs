use line_interp::abs::{Expr, Stm, Type};
use line_interp::eval::{Eval, EvalError};
use line_interp::parser::{ParseError, Parser};
use line_interp::source::preprocess;

fn run(source: &str) -> Result<Vec<(String, i64)>, String> {
    let text = source.to_string();
    let lines = preprocess(&text);
    let parser = Parser::new();
    let stms = match parser.parse(lines) {
        Ok(stms) => stms,
        Err(e) => return Err(format!("{:?}", e)),
    };
    let mut eval = Eval::new();
    if let Err(e) = eval.exec_all(&stms) {
        return Err(format!("{:?}", e));
    }
    Ok(eval.env().entries())
}

fn bound(name: &str, value: i64) -> (String, i64) {
    (name.to_string(), value)
}

fn id(name: &str) -> Expr {
    Expr::Id(name.to_string())
}

#[test]
fn declaration_assignment_and_sum() {
    let env = run("x :: Int\nx = 5\ny = x + 3").unwrap();
    assert_eq!(env, vec![bound("x", 5), bound("y", 8)]);
}

#[test]
fn chained_minus_splits_at_the_first_operator() {
    let env = run("a = 10\nb = a - 4 - 1").unwrap();
    assert_eq!(env, vec![bound("a", 10), bound("b", 7)]);
}

#[test]
fn negative_literal() {
    let env = run("a = -7").unwrap();
    assert_eq!(env, vec![bound("a", -7)]);
}

#[test]
fn undefined_variable_stops_the_run_and_changes_nothing() {
    let parser = Parser::new();
    let stm = parser.parse_stm("z = q + 1").unwrap();
    let mut eval = Eval::new();
    let r = eval.exec_stm(stm);
    assert_eq!(r, Err(EvalError::UndefinedVariable("q".to_string())));
    assert_eq!(eval.env().entries(), vec![]);
}

#[test]
fn undefined_variable_keeps_earlier_bindings() {
    let parser = Parser::new();
    let mut eval = Eval::new();
    eval.exec_stm(parser.parse_stm("a = 1").unwrap()).unwrap();
    let r = eval.exec_stm(parser.parse_stm("a = q + 1").unwrap());
    assert_eq!(r, Err(EvalError::UndefinedVariable("q".to_string())));
    assert_eq!(eval.env().entries(), vec![bound("a", 1)]);
}

#[test]
fn unparseable_line_fails_before_any_execution() {
    let text = "x = 1\nfoo bar\ny = 2".to_string();
    let parser = Parser::new();
    let r = parser.parse(preprocess(&text));
    assert_eq!(r, Err(ParseError::NoMatch("foo bar".to_string())));
    assert!(run("x = 1\nfoo bar\ny = 2").is_err());
}

#[test]
fn declaration_parses_and_leaves_the_environment() {
    let parser = Parser::new();
    let stm = parser.parse_stm("count2 :: Int32").unwrap();
    assert_eq!(stm, Stm::Vardef(id("count2"), Type("Int32".to_string())));
    let mut eval = Eval::new();
    eval.exec_stm(parser.parse_stm("count2 = 4").unwrap()).unwrap();
    assert_eq!(eval.exec_stm(stm), Ok(()));
    assert_eq!(eval.env().entries(), vec![bound("count2", 4)]);
}

#[test]
fn assignment_binds_the_value_of_its_expression() {
    let env = run("a = 2\nb = 40\nc = -a + b - 3 + a").unwrap();
    // c = (-a) + ((b - 3) + a): the first ` + ` splits, then the next.
    assert_eq!(env, vec![bound("a", 2), bound("b", 40), bound("c", 37)]);
}

#[test]
fn reassignment_overwrites_and_keeps_the_place() {
    let env = run("x = 1\ny = 2\nx = 3\nx = x + y").unwrap();
    assert_eq!(env, vec![bound("x", 5), bound("y", 2)]);
}

#[test]
fn same_assignment_twice_is_as_once() {
    assert_eq!(run("x = 4\nx = 4").unwrap(), run("x = 4").unwrap());
}

#[test]
fn comments_and_blank_lines_give_no_statement() {
    let text = "//\n\nx = 1\n\n//\ny = 2\n//".to_string();
    let lines = preprocess(&text);
    assert_eq!(lines.len(), 2);
    assert_eq!(lines[0].content, "x = 1");
    assert_eq!(lines[1].content, "y = 2");
    let parser = Parser::new();
    assert_eq!(parser.parse(lines).unwrap().len(), 2);
    let only = "//\n\n\n//\n".to_string();
    assert_eq!(preprocess(&only).len(), 0);
}

#[test]
fn carriage_returns_end_lines_too() {
    let text = "x = 1\r\n//\r\n\r\ny = x\r".to_string();
    let lines = preprocess(&text);
    assert_eq!(lines.len(), 2);
    assert_eq!(lines[0].content, "x = 1");
    assert_eq!(lines[1].content, "y = x");
}

#[test]
fn a_comment_with_text_behind_it_is_a_line() {
    let text = "// note\n //\n".to_string();
    let lines = preprocess(&text);
    assert_eq!(lines.len(), 2);
    assert_eq!(lines[0].content, "// note");
    assert_eq!(lines[1].content, " //");
}

#[test]
fn empty_source_has_no_lines() {
    let text = String::new();
    assert_eq!(preprocess(&text).len(), 0);
    assert_eq!(run("").unwrap(), vec![]);
}

#[test]
fn overflow_is_an_error() {
    let r = run("x = 9223372036854775807\ny = x + 1");
    assert_eq!(r, Err(format!("{:?}", EvalError::Overflow)));
    let r = run("x = -9223372036854775807\ny = x - 2");
    assert_eq!(r, Err(format!("{:?}", EvalError::Overflow)));
    let env = run("x = -9223372036854775807\ny = x - 1").unwrap();
    assert_eq!(env[1], bound("y", i64::MIN));
}

#[test]
fn non_ascii_text_is_handled_by_characters() {
    let parser = Parser::new();
    let r = parser.parse_stm("x = \u{e9}t\u{e9} + 1");
    assert_eq!(r, Err(ParseError::NoMatch("\u{e9}t\u{e9}".to_string())));
}
