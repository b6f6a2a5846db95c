//! The rules of the language and the parser that applies them.
//!
//! A rule is a pattern that must cover the whole fragment it is tried on.
//! Rules are tried in a fixed order and the first that matches wins. A rule
//! with an operator splits the fragment at the first place where the operator
//! stands, so `a - b - c` is `a - (b - c)`.

use vstd::prelude::*;
use vstd::string::*;
use crate::abs::{Expr, ExprView, Stm, StmView, Type};
use crate::text::{
    check_digits,
    check_ident,
    check_type_name,
    digits_to_i64,
    digits_value,
    find_first,
    first_occurrence,
    is_digits,
    is_ident,
    is_type_name,
    to_chars,
};

verus! {

/// The rules, in the order in which they are tried.
#[derive(Clone, Copy, Debug, PartialEq, Eq, Structural)]
pub enum Rule {
    /// `id :: typ`
    Vardef,
    /// `id = expr`
    Assign,
    /// `typ`; it names a fragment of `Vardef` and is never matched by itself.
    Type,
    /// `id`
    Id,
    /// `litint`
    LitInt,
    /// `expr + expr`
    Plus,
    /// `expr - expr`
    Minus,
    /// `-expr`
    Neg,
}

/// One line of source text.
#[derive(Debug)]
pub struct Line<'a> {
    pub content: &'a str,
}

/// Why a line or a fragment could not be parsed; both carry the offending text.
#[derive(Clone, Debug, PartialEq, Eq)]
pub enum ParseError {
    /// No rule matches the text.
    NoMatch(String),
    /// The text is a literal larger than any 64-bit signed integer.
    LiteralOutOfRange(String),
}

/// The mathematical value of a [`ParseError`].
pub enum ParseErrorView {
    NoMatch(Seq<char>),
    LiteralOutOfRange(Seq<char>),
}

impl View for ParseError {
    type V = ParseErrorView;

    open spec fn view(&self) -> ParseErrorView {
        match *self {
            ParseError::NoMatch(s) => ParseErrorView::NoMatch(s@),
            ParseError::LiteralOutOfRange(s) => ParseErrorView::LiteralOutOfRange(s@),
        }
    }
}

/// A rule that matched, with the fragments it captured. A rule with one
/// fragment leaves `second` empty.
#[derive(Debug)]
pub struct Match {
    pub rule: Rule,
    pub first: String,
    pub second: String,
}

/// The mathematical value of a [`Match`].
pub struct MatchView {
    pub rule: Rule,
    pub first: Seq<char>,
    pub second: Seq<char>,
}

impl View for Match {
    type V = MatchView;

    open spec fn view(&self) -> MatchView {
        MatchView { rule: self.rule, first: self.first@, second: self.second@ }
    }
}

/// The view of an optional match.
pub open spec fn match_view(m: Option<Match>) -> Option<MatchView> {
    match m {
        Some(m) => Some(m@),
        None => None,
    }
}

/// The view of a parsed expression or its error.
pub open spec fn expr_result_view(r: Result<Expr, ParseError>) -> Result<ExprView, ParseErrorView> {
    match r {
        Ok(e) => Ok(e@),
        Err(e) => Err(e@),
    }
}

/// The view of a parsed statement or its error.
pub open spec fn stm_result_view(r: Result<Stm, ParseError>) -> Result<StmView, ParseErrorView> {
    match r {
        Ok(s) => Ok(s@),
        Err(e) => Err(e@),
    }
}

/// The view of a parsed program or its error.
pub open spec fn stms_result_view(r: Result<Vec<Stm>, ParseError>) -> Result<
    Seq<StmView>,
    ParseErrorView,
> {
    match r {
        Ok(v) => Ok(stms_view(v@)),
        Err(e) => Err(e@),
    }
}

/// The views of a sequence of statements.
pub open spec fn stms_view(v: Seq<Stm>) -> Seq<StmView> {
    Seq::new(v.len(), |i: int| v[i]@)
}

/// The texts of a sequence of lines.
pub open spec fn lines_view(v: Seq<Line>) -> Seq<Seq<char>> {
    Seq::new(v.len(), |i: int| v[i].content@)
}

/// The text ` :: ` between a name and its type.
pub open spec fn vardef_sep() -> Seq<char> {
    seq![' ', ':', ':', ' ']
}

/// The text ` = ` between a name and its value.
pub open spec fn assign_sep() -> Seq<char> {
    seq![' ', '=', ' ']
}

/// The text ` + ` between two operands.
pub open spec fn plus_sep() -> Seq<char> {
    seq![' ', '+', ' ']
}

/// The text ` - ` between two operands.
pub open spec fn minus_sep() -> Seq<char> {
    seq![' ', '-', ' ']
}

/// The text `a`, then `sep`, then `b`.
pub open spec fn joined(a: Seq<char>, sep: Seq<char>, b: Seq<char>) -> Seq<char> {
    a + sep + b
}

/// Whether `s` is some text, then `sep`, then some text.
pub open spec fn has_separator(s: Seq<char>, sep: Seq<char>) -> bool {
    exists|a: Seq<char>, b: Seq<char>| s == #[trigger] joined(a, sep, b)
}

/// Whether the pattern of `rule` covers the whole of `s`. The pattern of a
/// rule is the sequence of its fragments: an identifier, a type name, a
/// literal, a fixed text, or any text at all where an expression is to stand.
pub open spec fn rule_accepts(rule: Rule, s: Seq<char>) -> bool {
    match rule {
        Rule::Vardef => exists|id: Seq<char>, typ: Seq<char>|
            is_ident(id) && is_type_name(typ) && s == #[trigger] joined(id, vardef_sep(), typ),
        Rule::Assign => exists|id: Seq<char>, value: Seq<char>|
            is_ident(id) && s == #[trigger] joined(id, assign_sep(), value),
        Rule::Type => is_type_name(s),
        Rule::Id => is_ident(s),
        Rule::LitInt => is_digits(s),
        Rule::Plus => has_separator(s, plus_sep()),
        Rule::Minus => has_separator(s, minus_sep()),
        Rule::Neg => s.len() > 0 && s[0] == '-',
    }
}

/// The part of `s` before index `i`.
pub open spec fn before(s: Seq<char>, i: int) -> Seq<char> {
    s.subrange(0, i)
}

/// The part of `s` from index `i` on.
pub open spec fn after(s: Seq<char>, i: int) -> Seq<char> {
    s.subrange(i, s.len() as int)
}

/// A match of `rule` that splits `s` round the separator of width `w` at `i`.
pub open spec fn split_match(rule: Rule, s: Seq<char>, i: int, w: int) -> MatchView {
    MatchView { rule, first: before(s, i), second: after(s, i + w) }
}

/// A match of `rule` with the one fragment `first`.
pub open spec fn single_match(rule: Rule, first: Seq<char>) -> MatchView {
    MatchView { rule, first, second: Seq::empty() }
}

/// The first statement rule that matches the line `s`, with its captures.
///
/// `Vardef` is tried before `Assign`. An identifier holds no blank, so the
/// separator behind it is the first one in the line.
pub open spec fn stm_match(s: Seq<char>) -> Option<MatchView> {
    let v = first_occurrence(s, vardef_sep());
    let a = first_occurrence(s, assign_sep());
    if v is Some && is_ident(before(s, v.unwrap())) && is_type_name(after(s, v.unwrap() + 4)) {
        Some(split_match(Rule::Vardef, s, v.unwrap(), 4))
    } else if a is Some && is_ident(before(s, a.unwrap())) {
        Some(split_match(Rule::Assign, s, a.unwrap(), 3))
    } else {
        None
    }
}

/// The first expression rule that matches the fragment `s`, with its
/// captures: `Id`, `LitInt`, `Plus`, `Minus`, `Neg`, in this order.
pub open spec fn expr_match(s: Seq<char>) -> Option<MatchView> {
    let p = first_occurrence(s, plus_sep());
    let m = first_occurrence(s, minus_sep());
    if is_ident(s) {
        Some(single_match(Rule::Id, s))
    } else if is_digits(s) {
        Some(single_match(Rule::LitInt, s))
    } else if p is Some {
        Some(split_match(Rule::Plus, s, p.unwrap(), 3))
    } else if m is Some {
        Some(split_match(Rule::Minus, s, m.unwrap(), 3))
    } else if s.len() > 0 && s[0] == '-' {
        Some(single_match(Rule::Neg, after(s, 1)))
    } else {
        None
    }
}

/// The node that a binary rule builds from its parsed operands; the left
/// operand's error comes first.
pub open spec fn binary_node(
    rule: Rule,
    left: Result<ExprView, ParseErrorView>,
    right: Result<ExprView, ParseErrorView>,
) -> Result<ExprView, ParseErrorView> {
    match (left, right) {
        (Err(e), _) => Err(e),
        (Ok(_), Err(e)) => Err(e),
        (Ok(a), Ok(b)) => if rule == Rule::Plus {
            Ok(ExprView::Plus(Box::new(a), Box::new(b)))
        } else {
            Ok(ExprView::Minus(Box::new(a), Box::new(b)))
        },
    }
}

/// The expression that the fragment `s` stands for.
pub open spec fn parse_expr_spec(s: Seq<char>) -> Result<ExprView, ParseErrorView>
    decreases s.len(),
{
    match expr_match(s) {
        None => Err(ParseErrorView::NoMatch(s)),
        Some(m) => match m.rule {
            Rule::Id => Ok(ExprView::Id(m.first)),
            Rule::LitInt => if digits_value(m.first) <= i64::MAX {
                Ok(ExprView::LitInt(digits_value(m.first)))
            } else {
                Err(ParseErrorView::LiteralOutOfRange(m.first))
            },
            Rule::Plus | Rule::Minus => binary_node(
                m.rule,
                parse_expr_spec(m.first),
                parse_expr_spec(m.second),
            ),
            Rule::Neg => match parse_expr_spec(m.first) {
                Ok(a) => Ok(ExprView::Neg(Box::new(a))),
                Err(e) => Err(e),
            },
            _ => Err(ParseErrorView::NoMatch(s)),
        },
    }
}

/// The statement that the line `s` stands for.
pub open spec fn parse_stm_spec(s: Seq<char>) -> Result<StmView, ParseErrorView> {
    match stm_match(s) {
        None => Err(ParseErrorView::NoMatch(s)),
        Some(m) => match m.rule {
            Rule::Vardef => Ok(StmView::Vardef(ExprView::Id(m.first), m.second)),
            Rule::Assign => match parse_expr_spec(m.second) {
                Ok(e) => Ok(StmView::Assign(ExprView::Id(m.first), e)),
                Err(e) => Err(e),
            },
            _ => Err(ParseErrorView::NoMatch(s)),
        },
    }
}

/// The statements that the lines stand for, in order, or the error of the
/// first line that does not parse.
pub open spec fn parse_spec(lines: Seq<Seq<char>>) -> Result<Seq<StmView>, ParseErrorView>
    decreases lines.len(),
{
    if lines.len() == 0 {
        Ok(Seq::empty())
    } else {
        match parse_spec(lines.drop_last()) {
            Err(e) => Err(e),
            Ok(stms) => match parse_stm_spec(lines.last()) {
                Ok(stm) => Ok(stms.push(stm)),
                Err(e) => Err(e),
            },
        }
    }
}

/// The parser: the separators of the rules, built once.
pub struct Parser {
    vardef: Vec<char>,
    assign: Vec<char>,
    plus: Vec<char>,
    minus: Vec<char>,
}

impl Parser {
    /// The separators are those of the four rules that have one.
    pub closed spec fn wf(&self) -> bool {
        &&& self.vardef@ == vardef_sep()
        &&& self.assign@ == assign_sep()
        &&& self.plus@ == plus_sep()
        &&& self.minus@ == minus_sep()
    }

    /// A parser with the separators of the rules.
    pub fn new() -> (p: Parser)
        ensures
            p.wf(),
    {
        let p = Parser {
            vardef: vec![' ', ':', ':', ' '],
            assign: vec![' ', '=', ' '],
            plus: vec![' ', '+', ' '],
            minus: vec![' ', '-', ' '],
        };
        assert(p.vardef@ =~= vardef_sep());
        assert(p.assign@ =~= assign_sep());
        assert(p.plus@ =~= plus_sep());
        assert(p.minus@ =~= minus_sep());
        p
    }

    /// Tries the statement rules on a line.
    pub fn match_stm(&self, s: &str) -> (m: Option<Match>)
        requires
            self.wf(),
        ensures
            match_view(m) == stm_match(s@),
    {
        let cs = to_chars(s);
        let n: usize = cs.len();
        if let Some(i) = find_first(&cs, &self.vardef) {
            let name = s.substring_char(0, i);
            let typ = s.substring_char(i + 4, n);
            if check_ident(&to_chars(name)) && check_type_name(&to_chars(typ)) {
                return Some(
                    Match {
                        rule: Rule::Vardef,
                        first: String::from_str(name),
                        second: String::from_str(typ),
                    },
                );
            }
        }
        if let Some(i) = find_first(&cs, &self.assign) {
            let name = s.substring_char(0, i);
            if check_ident(&to_chars(name)) {
                return Some(
                    Match {
                        rule: Rule::Assign,
                        first: String::from_str(name),
                        second: String::from_str(s.substring_char(i + 3, n)),
                    },
                );
            }
        }
        None
    }

    /// Tries the expression rules on a fragment.
    pub fn match_expr(&self, s: &str) -> (m: Option<Match>)
        requires
            self.wf(),
        ensures
            match_view(m) == expr_match(s@),
    {
        let cs = to_chars(s);
        let n: usize = cs.len();
        if check_ident(&cs) {
            return Some(Match { rule: Rule::Id, first: String::from_str(s), second: String::new() });
        }
        if check_digits(&cs) {
            return Some(
                Match { rule: Rule::LitInt, first: String::from_str(s), second: String::new() },
            );
        }
        if let Some(i) = find_first(&cs, &self.plus) {
            return Some(
                Match {
                    rule: Rule::Plus,
                    first: String::from_str(s.substring_char(0, i)),
                    second: String::from_str(s.substring_char(i + 3, n)),
                },
            );
        }
        if let Some(i) = find_first(&cs, &self.minus) {
            return Some(
                Match {
                    rule: Rule::Minus,
                    first: String::from_str(s.substring_char(0, i)),
                    second: String::from_str(s.substring_char(i + 3, n)),
                },
            );
        }
        if n > 0 && cs[0] == '-' {
            return Some(
                Match {
                    rule: Rule::Neg,
                    first: String::from_str(s.substring_char(1, n)),
                    second: String::new(),
                },
            );
        }
        None
    }

    /// Parses a fragment into an expression.
    pub fn parse_expr(&self, s: &str) -> (r: Result<Expr, ParseError>)
        requires
            self.wf(),
        ensures
            expr_result_view(r) == parse_expr_spec(s@),
        decreases s@.len(),
    {
        match self.match_expr(s) {
            None => Err(ParseError::NoMatch(String::from_str(s))),
            Some(m) => match m.rule {
                Rule::Id => Ok(Expr::Id(m.first)),
                Rule::LitInt => match digits_to_i64(&to_chars(m.first.as_str())) {
                    Some(v) => Ok(Expr::LitInt(v)),
                    None => Err(ParseError::LiteralOutOfRange(m.first)),
                },
                Rule::Plus => {
                    let left = self.parse_expr(m.first.as_str())?;
                    let right = self.parse_expr(m.second.as_str())?;
                    Ok(Expr::Plus(Box::new(left), Box::new(right)))
                },
                Rule::Minus => {
                    let left = self.parse_expr(m.first.as_str())?;
                    let right = self.parse_expr(m.second.as_str())?;
                    Ok(Expr::Minus(Box::new(left), Box::new(right)))
                },
                Rule::Neg => {
                    let inner = self.parse_expr(m.first.as_str())?;
                    Ok(Expr::Neg(Box::new(inner)))
                },
                _ => Err(ParseError::NoMatch(String::from_str(s))),
            },
        }
    }

    /// Parses a line into a statement.
    pub fn parse_stm(&self, s: &str) -> (r: Result<Stm, ParseError>)
        requires
            self.wf(),
        ensures
            stm_result_view(r) == parse_stm_spec(s@),
    {
        match self.match_stm(s) {
            None => Err(ParseError::NoMatch(String::from_str(s))),
            Some(m) => match m.rule {
                Rule::Vardef => Ok(Stm::Vardef(Expr::Id(m.first), Type(m.second))),
                Rule::Assign => {
                    let value = self.parse_expr(m.second.as_str())?;
                    Ok(Stm::Assign(Expr::Id(m.first), value))
                },
                _ => Err(ParseError::NoMatch(String::from_str(s))),
            },
        }
    }

    /// Parses every line, in order; the first line that does not parse ends
    /// the run with its error.
    pub fn parse(&self, s: Vec<Line>) -> (r: Result<Vec<Stm>, ParseError>)
        requires
            self.wf(),
        ensures
            stms_result_view(r) == parse_spec(lines_view(s@)),
    {
        let mut res: Vec<Stm> = Vec::new();
        let mut i: usize = 0;
        assert(stms_view(res@) =~= Seq::empty());
        while i < s.len()
            invariant
                self.wf(),
                i <= s.len(),
                parse_spec(lines_view(s@).subrange(0, i as int)) == Ok::<
                    Seq<StmView>,
                    ParseErrorView,
                >(stms_view(res@)),
            decreases s.len() - i,
        {
            proof {
                let t = lines_view(s@).subrange(0, i + 1);
                assert(t.drop_last() =~= lines_view(s@).subrange(0, i as int));
                assert(t.last() == s@[i as int].content@);
                assert(lines_view(s@).subrange(0, s.len() as int) =~= lines_view(s@));
            }
            match self.parse_stm(s[i].content) {
                Ok(stm) => {
                    let ghost prev = stms_view(res@);
                    res.push(stm);
                    assert(stms_view(res@) =~= prev.push(stm@));
                },
                Err(e) => {
                    proof {
                        lemma_parse_spec_error(lines_view(s@), i as int);
                    }
                    return Err(e);
                },
            }
            i += 1;
        }
        assert(lines_view(s@).subrange(0, s.len() as int) =~= lines_view(s@));
        Ok(res)
    }
}

/// Once a prefix of the lines fails to parse, the whole program fails with
/// the same error.
pub proof fn lemma_parse_spec_error(lines: Seq<Seq<char>>, i: int)
    requires
        0 <= i < lines.len(),
        parse_spec(lines.subrange(0, i + 1)) is Err,
    ensures
        parse_spec(lines) == parse_spec(lines.subrange(0, i + 1)),
    decreases lines.len() - i,
{
    if i + 1 == lines.len() {
        assert(lines.subrange(0, i + 1) =~= lines);
    } else {
        let t = lines.subrange(0, i + 2);
        assert(t.drop_last() =~= lines.subrange(0, i + 1));
        lemma_parse_spec_error(lines, i + 1);
    }
}

} // verus!
