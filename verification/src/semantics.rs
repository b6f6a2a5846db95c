//! What holds of the language as a whole: how lines of each shape parse, and
//! what running them does to an environment.

use vstd::prelude::*;
use crate::abs::{ExprView, StmView};
use crate::eval::{eval_spec, exec_spec, EvalErrorView};
use crate::parser::{
    after,
    assign_sep,
    before,
    binary_node,
    expr_match,
    has_separator,
    joined,
    minus_sep,
    parse_expr_spec,
    parse_stm_spec,
    plus_sep,
    rule_accepts,
    stm_match,
    vardef_sep,
    ParseErrorView,
    Rule,
};
use crate::text::{
    all_alnum,
    first_occurrence,
    is_alnum,
    is_digits,
    is_ident,
    is_type_name,
    lemma_first_occurrence,
    occurs_at,
};

verus! {

/// A separator that begins with a blank stands behind a token of letters and
/// digits, and nowhere before: the token is what the search cuts off.
pub proof fn lemma_separator_after_token(token: Seq<char>, sep: Seq<char>, rest: Seq<char>)
    requires
        all_alnum(token),
        sep.len() > 0,
        sep[0] == ' ',
    ensures
        first_occurrence(token + sep + rest, sep) == Some(token.len() as int),
        before(token + sep + rest, token.len() as int) == token,
        after(token + sep + rest, (token.len() + sep.len()) as int) == rest,
{
    let line = token + sep + rest;
    let k = token.len() as int;
    assert(line.subrange(k, k + sep.len()) =~= sep);
    assert forall|j: int| 0 <= j < k implies !occurs_at(line, sep, j) by {
        assert(is_alnum(token[j]));
        assert(line[j] == token[j]);
        if occurs_at(line, sep, j) {
            assert(line.subrange(j, j + sep.len())[0] == sep[0]);
        }
    }
    lemma_first_occurrence(line, sep, k);
    assert(before(line, k) =~= token);
    assert(after(line, (token.len() + sep.len()) as int) =~= rest);
}

/// A text holds a separator exactly when the search finds it, and the search
/// cuts the text at the first place where the separator stands.
pub proof fn lemma_has_separator(s: Seq<char>, sep: Seq<char>)
    ensures
        has_separator(s, sep) <==> first_occurrence(s, sep) is Some,
        match first_occurrence(s, sep) {
            Some(i) => s == joined(before(s, i), sep, after(s, i + sep.len())),
            None => true,
        },
{
    match first_occurrence(s, sep) {
        Some(i) => {
            lemma_first_occurrence(s, sep, i);
            assert(s =~= joined(before(s, i), sep, after(s, i + sep.len())));
        },
        None => {
            lemma_first_occurrence(s, sep, 0);
            if has_separator(s, sep) {
                let (a, b) = choose|a: Seq<char>, b: Seq<char>| s == #[trigger] joined(a, sep, b);
                assert(s.subrange(a.len() as int, (a.len() + sep.len()) as int) =~= sep);
                assert(occurs_at(s, sep, a.len() as int));
            }
        },
    }
}

/// The statement rules are tried in their order and the first that accepts
/// the line wins: `Vardef`, then `Assign`. The captures are the identifier
/// and what stands behind the separator.
pub proof fn lemma_stm_match_is_first_rule(s: Seq<char>)
    ensures
        match stm_match(s) {
            Some(m) => if m.rule == Rule::Vardef {
                rule_accepts(Rule::Vardef, s) && s == joined(m.first, vardef_sep(), m.second)
            } else {
                &&& m.rule == Rule::Assign
                &&& !rule_accepts(Rule::Vardef, s)
                &&& rule_accepts(Rule::Assign, s)
                &&& s == joined(m.first, assign_sep(), m.second)
            },
            None => !rule_accepts(Rule::Vardef, s) && !rule_accepts(Rule::Assign, s),
        },
{
    lemma_has_separator(s, vardef_sep());
    lemma_has_separator(s, assign_sep());
    if rule_accepts(Rule::Vardef, s) {
        let (id, typ) = choose|id: Seq<char>, typ: Seq<char>|
            is_ident(id) && is_type_name(typ) && s == #[trigger] joined(id, vardef_sep(), typ);
        lemma_separator_after_token(id, vardef_sep(), typ);
    }
    if rule_accepts(Rule::Assign, s) {
        let (id, value) = choose|id: Seq<char>, value: Seq<char>|
            is_ident(id) && s == #[trigger] joined(id, assign_sep(), value);
        lemma_separator_after_token(id, assign_sep(), value);
    }
    match stm_match(s) {
        Some(m) => {
            if m.rule == Rule::Vardef {
                assert(s == joined(m.first, vardef_sep(), m.second));
            } else {
                assert(s == joined(m.first, assign_sep(), m.second));
            }
        },
        None => {},
    }
}

/// The expression rules are tried in their order and the first that accepts
/// the fragment wins: `Id`, `LitInt`, `Plus`, `Minus`, `Neg`. An operator
/// rule captures what stands before the first occurrence of its operator and
/// what stands behind it.
pub proof fn lemma_expr_match_is_first_rule(s: Seq<char>)
    ensures
        match expr_match(s) {
            Some(m) => {
                &&& rule_accepts(m.rule, s)
                &&& m.rule == Rule::Id || !rule_accepts(Rule::Id, s)
                &&& m.rule == Rule::Id || m.rule == Rule::LitInt || !rule_accepts(Rule::LitInt, s)
                &&& m.rule == Rule::Minus || m.rule == Rule::Neg ==> !rule_accepts(Rule::Plus, s)
                &&& m.rule == Rule::Neg ==> !rule_accepts(Rule::Minus, s)
                &&& m.rule != Rule::Vardef && m.rule != Rule::Assign && m.rule != Rule::Type
                &&& m.rule == Rule::Plus ==> s == joined(m.first, plus_sep(), m.second)
                    && !has_separator(m.first + plus_sep().drop_last(), plus_sep())
                &&& m.rule == Rule::Minus ==> s == joined(m.first, minus_sep(), m.second)
                    && !has_separator(m.first + minus_sep().drop_last(), minus_sep())
                &&& m.rule == Rule::Neg ==> s == seq!['-'] + m.first
                &&& m.rule == Rule::Id || m.rule == Rule::LitInt ==> s == m.first
            },
            None => {
                &&& !rule_accepts(Rule::Id, s)
                &&& !rule_accepts(Rule::LitInt, s)
                &&& !rule_accepts(Rule::Plus, s)
                &&& !rule_accepts(Rule::Minus, s)
                &&& !rule_accepts(Rule::Neg, s)
            },
        },
{
    lemma_has_separator(s, plus_sep());
    lemma_has_separator(s, minus_sep());
    match expr_match(s) {
        Some(m) => {
            if m.rule == Rule::Plus {
                lemma_no_earlier_separator(s, plus_sep());
            }
            if m.rule == Rule::Minus {
                lemma_no_earlier_separator(s, minus_sep());
            }
            if m.rule == Rule::Neg {
                assert(s =~= seq!['-'] + m.first);
            }
        },
        None => {},
    }
}

/// What stands before the first occurrence of a separator, even with all
/// but the last character of the separator behind it, does not hold the
/// separator.
pub proof fn lemma_no_earlier_separator(s: Seq<char>, sep: Seq<char>)
    requires
        first_occurrence(s, sep) is Some,
        sep.len() > 0,
    ensures
        !has_separator(before(s, first_occurrence(s, sep).unwrap()) + sep.drop_last(), sep),
{
    let i = first_occurrence(s, sep).unwrap();
    let t = before(s, i) + sep.drop_last();
    lemma_first_occurrence(s, sep, i);
    if has_separator(t, sep) {
        let (a, b) = choose|a: Seq<char>, b: Seq<char>| t == #[trigger] joined(a, sep, b);
        let j = a.len() as int;
        assert(t.len() == j + sep.len() + b.len());
        assert(j < i);
        assert(s.subrange(i, i + sep.len()) == sep);
        assert forall|k: int| 0 <= k < sep.len() implies s[j + k] == sep[k] by {
            assert(t[j + k] == sep[k]);
            if j + k < i {
                assert(t[j + k] == s[j + k]);
            } else {
                assert(t[j + k] == sep[j + k - i]);
                assert(s.subrange(i, i + sep.len())[j + k - i] == s[j + k]);
            }
        }
        assert(s.subrange(j, j + sep.len()) =~= sep);
        assert(occurs_at(s, sep, j));
    }
}

/// A line `id :: typ` parses to the declaration of `id` with the type `typ`,
/// and running it leaves every environment as it is.
pub proof fn lemma_vardef_line(id: Seq<char>, typ: Seq<char>, env: Map<Seq<char>, int>)
    requires
        is_ident(id),
        is_type_name(typ),
    ensures
        parse_stm_spec(id + vardef_sep() + typ) == Ok::<StmView, ParseErrorView>(
            StmView::Vardef(ExprView::Id(id), typ),
        ),
        exec_spec(StmView::Vardef(ExprView::Id(id), typ), env) == Ok::<Map<Seq<char>, int>, EvalErrorView>(env),
{
    lemma_separator_after_token(id, vardef_sep(), typ);
}

/// A line `id = text` parses to the assignment of the expression of `text`
/// to `id`, and fails as `text` fails. Running the assignment in `env` binds
/// `id` to the value of the expression in `env` and changes no other
/// variable; where the expression has no value, the run stops with its error.
pub proof fn lemma_assign_line(id: Seq<char>, text: Seq<char>, env: Map<Seq<char>, int>)
    requires
        is_ident(id),
    ensures
        match parse_expr_spec(text) {
            Ok(e) => {
                &&& parse_stm_spec(id + assign_sep() + text) == Ok::<StmView, ParseErrorView>(
                    StmView::Assign(ExprView::Id(id), e),
                )
                &&& match eval_spec(e, env) {
                    Ok(v) => exec_spec(StmView::Assign(ExprView::Id(id), e), env) == Ok::<
                        Map<Seq<char>, int>,
                        EvalErrorView,
                    >(env.insert(id, v)),
                    Err(err) => exec_spec(StmView::Assign(ExprView::Id(id), e), env) == Err::<
                        Map<Seq<char>, int>,
                        EvalErrorView,
                    >(err),
                }
            },
            Err(err) => parse_stm_spec(id + assign_sep() + text) == Err::<StmView, ParseErrorView>(err),
        },
{
    let line = id + assign_sep() + text;
    let k = id.len() as int;
    lemma_separator_after_token(id, assign_sep(), text);
    let v = first_occurrence(line, vardef_sep());
    if v is Some {
        let j = v.unwrap();
        lemma_first_occurrence(line, vardef_sep(), j);
        assert(line.subrange(j, j + 4)[0] == vardef_sep()[0]);
        assert(line.subrange(j, j + 4)[1] == vardef_sep()[1]);
        assert(line[k] == assign_sep()[0]);
        assert(line[k + 1] == assign_sep()[1]);
        if j < k {
            assert(is_alnum(id[j]));
            assert(line[j] == id[j]);
        } else if j > k {
            assert(before(line, j)[k] == line[k]);
            assert(!is_ident(before(line, j)));
        }
    }
}

/// A fragment that is neither an identifier nor a literal and holds ` + `
/// is the sum of what stands before the first ` + ` and what stands after it.
pub proof fn lemma_plus_splits_at_first(s: Seq<char>, i: int)
    requires
        !is_ident(s),
        !is_digits(s),
        first_occurrence(s, plus_sep()) == Some(i),
    ensures
        parse_expr_spec(s) == binary_node(
            Rule::Plus,
            parse_expr_spec(before(s, i)),
            parse_expr_spec(after(s, i + 3)),
        ),
{
}

/// A fragment that is neither an identifier nor a literal, holds no ` + `
/// and holds ` - `, is the difference of what stands before the first ` - `
/// and what stands after it: `a - b - c` is `a - (b - c)`.
pub proof fn lemma_minus_splits_at_first(s: Seq<char>, i: int)
    requires
        !is_ident(s),
        !is_digits(s),
        first_occurrence(s, plus_sep()) is None,
        first_occurrence(s, minus_sep()) == Some(i),
    ensures
        parse_expr_spec(s) == binary_node(
            Rule::Minus,
            parse_expr_spec(before(s, i)),
            parse_expr_spec(after(s, i + 3)),
        ),
{
}

/// The last assignment to a variable wins: after two assignments to `name`
/// the environment is the first one with `name` bound to the second value.
pub proof fn lemma_last_write_wins(
    name: Seq<char>,
    first: ExprView,
    second: ExprView,
    env: Map<Seq<char>, int>,
)
    ensures
        match exec_spec(StmView::Assign(ExprView::Id(name), first), env) {
            Ok(env1) => match eval_spec(second, env1) {
                Ok(v) => exec_spec(StmView::Assign(ExprView::Id(name), second), env1) == Ok::<
                    Map<Seq<char>, int>,
                    EvalErrorView,
                >(env.insert(name, v)),
                Err(_) => true,
            },
            Err(_) => true,
        },
{
    match exec_spec(StmView::Assign(ExprView::Id(name), first), env) {
        Ok(env1) => match eval_spec(second, env1) {
            Ok(v) => {
                assert(env1.insert(name, v) =~= env.insert(name, v));
            },
            Err(_) => {},
        },
        Err(_) => {},
    }
}

/// Reading a variable that was never assigned is an error that names it, and
/// an assignment of it to any target fails with that error.
pub proof fn lemma_undefined_variable(name: Seq<char>, target: Seq<char>, env: Map<Seq<char>, int>)
    requires
        !env.contains_key(name),
    ensures
        eval_spec(ExprView::Id(name), env) == Err::<int, EvalErrorView>(EvalErrorView::UndefinedVariable(name)),
        exec_spec(StmView::Assign(ExprView::Id(target), ExprView::Id(name)), env) == Err::<
            Map<Seq<char>, int>,
            EvalErrorView,
        >(EvalErrorView::UndefinedVariable(name)),
{
}

/// Whether the expression reads the variable `name`.
pub open spec fn reads(e: ExprView, name: Seq<char>) -> bool
    decreases e,
{
    match e {
        ExprView::Id(n) => n == name,
        ExprView::LitInt(_) => false,
        ExprView::Neg(a) => reads(*a, name),
        ExprView::Plus(a, b) => reads(*a, name) || reads(*b, name),
        ExprView::Minus(a, b) => reads(*a, name) || reads(*b, name),
        ExprView::Divide(a, b) => reads(*a, name) || reads(*b, name),
        ExprView::Multiply(a, b) => reads(*a, name) || reads(*b, name),
    }
}

/// Whether a quotient or a product stands anywhere in the expression.
pub open spec fn has_product(e: ExprView) -> bool
    decreases e,
{
    match e {
        ExprView::Id(_) => false,
        ExprView::LitInt(_) => false,
        ExprView::Neg(a) => has_product(*a),
        ExprView::Plus(a, b) => has_product(*a) || has_product(*b),
        ExprView::Minus(a, b) => has_product(*a) || has_product(*b),
        ExprView::Divide(_, _) => true,
        ExprView::Multiply(_, _) => true,
    }
}

/// An evaluation fails on an undefined variable only where the expression
/// reads a variable that the environment does not hold: an expression of
/// literals and assigned variables never fails so.
pub proof fn lemma_undefined_variable_is_read(
    e: ExprView,
    env: Map<Seq<char>, int>,
    name: Seq<char>,
)
    requires
        eval_spec(e, env) == Err::<int, EvalErrorView>(EvalErrorView::UndefinedVariable(name)),
    ensures
        reads(e, name),
        !env.contains_key(name),
    decreases e,
{
    match e {
        ExprView::Id(_) => {},
        ExprView::LitInt(_) => {},
        ExprView::Neg(a) => {
            lemma_undefined_variable_is_read(*a, env, name);
        },
        ExprView::Plus(a, b)
        | ExprView::Minus(a, b)
        | ExprView::Divide(a, b)
        | ExprView::Multiply(a, b) => {
            if eval_spec(*a, env) is Err {
                lemma_undefined_variable_is_read(*a, env, name);
            } else {
                lemma_undefined_variable_is_read(*b, env, name);
            }
        },
    }
}

/// No text parses to an expression with a quotient or a product in it.
pub proof fn lemma_parsed_expr_has_no_product(s: Seq<char>)
    ensures
        match parse_expr_spec(s) {
            Ok(e) => !has_product(e),
            Err(_) => true,
        },
    decreases s.len(),
{
    match expr_match(s) {
        Some(m) => {
            if m.rule == Rule::Plus || m.rule == Rule::Minus {
                lemma_parsed_expr_has_no_product(m.first);
                lemma_parsed_expr_has_no_product(m.second);
            } else if m.rule == Rule::Neg {
                lemma_parsed_expr_has_no_product(m.first);
            }
        },
        None => {},
    }
}

/// The target of a parsed statement is an identifier, so running it never
/// fails as malformed.
pub proof fn lemma_parsed_stm_is_well_formed(s: Seq<char>, env: Map<Seq<char>, int>)
    ensures
        match parse_stm_spec(s) {
            Ok(stm) => {
                &&& stm matches StmView::Vardef(target, _) ==> target is Id
                &&& stm matches StmView::Assign(target, _) ==> target is Id
                &&& exec_spec(stm, env) != Err::<Map<Seq<char>, int>, EvalErrorView>(
                    EvalErrorView::MalformedStatement,
                )
            },
            Err(_) => true,
        },
{
    match parse_stm_spec(s) {
        Ok(StmView::Assign(ExprView::Id(_), e)) => {
            lemma_eval_is_never_malformed(e, env);
        },
        _ => {},
    }
}

/// The value of an expression is never the error of a malformed statement.
pub proof fn lemma_eval_is_never_malformed(e: ExprView, env: Map<Seq<char>, int>)
    ensures
        eval_spec(e, env) != Err::<int, EvalErrorView>(EvalErrorView::MalformedStatement),
    decreases e,
{
    match e {
        ExprView::Id(_) => {},
        ExprView::LitInt(_) => {},
        ExprView::Neg(a) => {
            lemma_eval_is_never_malformed(*a, env);
        },
        ExprView::Plus(a, b)
        | ExprView::Minus(a, b)
        | ExprView::Divide(a, b)
        | ExprView::Multiply(a, b) => {
            lemma_eval_is_never_malformed(*a, env);
            lemma_eval_is_never_malformed(*b, env);
        },
    }
}

} // verus!
