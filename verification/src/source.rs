//! From source text to the lines that hold statements.
//!
//! The text is cut at every line feed. A carriage return at the end of a
//! piece is dropped. A piece that is then empty, or is the comment mark `//`
//! and nothing else, is no statement and is left out.

use vstd::prelude::*;
use vstd::string::*;
use crate::parser::{lines_view, Line};
use crate::text::to_chars;

verus! {

/// The text of a comment line.
pub open spec fn comment_mark() -> Seq<char> {
    seq!['/', '/']
}

/// `s` without the carriage return at its end, if it has one.
pub open spec fn strip_cr(s: Seq<char>) -> Seq<char> {
    if s.len() > 0 && s.last() == '\r' {
        s.drop_last()
    } else {
        s
    }
}

/// Whether a line holds a statement: it is neither empty nor a comment.
pub open spec fn is_statement_line(line: Seq<char>) -> bool {
    line.len() > 0 && line != comment_mark()
}

/// The lines so far, with the piece `cur` added where it holds a statement.
pub open spec fn emit(done: Seq<Seq<char>>, cur: Seq<char>) -> Seq<Seq<char>> {
    if is_statement_line(strip_cr(cur)) {
        done.push(strip_cr(cur))
    } else {
        done
    }
}

/// The statement lines that have ended within `s`, and the piece after the
/// last line feed.
pub open spec fn scan(s: Seq<char>) -> (Seq<Seq<char>>, Seq<char>)
    decreases s.len(),
{
    if s.len() == 0 {
        (Seq::empty(), Seq::empty())
    } else {
        let prev = scan(s.drop_last());
        if s.last() == '\n' {
            (emit(prev.0, prev.1), Seq::empty())
        } else {
            (prev.0, prev.1.push(s.last()))
        }
    }
}

/// The statement lines of the source text `s`, in order.
pub open spec fn preprocess_spec(s: Seq<char>) -> Seq<Seq<char>> {
    emit(scan(s).0, scan(s).1)
}

/// Adds the piece of `s` from `start` to `end` to the lines where it holds a
/// statement.
fn keep_line<'a>(res: &mut Vec<Line<'a>>, s: &'a str, cs: &Vec<char>, start: usize, end: usize)
    requires
        cs@ == s@,
        start <= end <= cs@.len(),
    ensures
        lines_view(final(res)@) == emit(lines_view(old(res)@), s@.subrange(start as int, end as int)),
{
    let ghost cur = s@.subrange(start as int, end as int);
    let ghost before = lines_view(res@);
    let mut e: usize = end;
    if e > start && cs[e - 1] == '\r' {
        e = e - 1;
    }
    assert(s@.subrange(start as int, e as int) =~= strip_cr(cur));
    let is_comment = e - start == 2 && cs[start] == '/' && cs[start + 1] == '/';
    assert(is_comment == (strip_cr(cur) =~= comment_mark()));
    if e > start && !is_comment {
        res.push(Line { content: s.substring_char(start, e) });
        assert(lines_view(res@) =~= before.push(strip_cr(cur)));
    }
}

/// Cuts source text into its statement lines.
pub fn preprocess<'a>(s: &'a String) -> (res: Vec<Line<'a>>)
    ensures
        lines_view(res@) == preprocess_spec(s@),
        forall|i: int| 0 <= i < res@.len() ==> is_statement_line(#[trigger] res@[i].content@),
{
    let text: &'a str = s.as_str();
    let cs = to_chars(text);
    let n: usize = cs.len();
    let mut res: Vec<Line<'a>> = Vec::new();
    let mut start: usize = 0;
    let mut i: usize = 0;
    assert(lines_view(res@) =~= Seq::empty());
    assert(s@.subrange(0, 0) =~= Seq::empty());
    while i < n
        invariant
            cs@ == s@,
            text@ == s@,
            n == cs@.len(),
            start <= i <= n,
            scan(s@.subrange(0, i as int)) == (lines_view(res@), s@.subrange(start as int, i as int)),
        decreases n - i,
    {
        proof {
            let t = s@.subrange(0, i + 1);
            assert(t.drop_last() =~= s@.subrange(0, i as int));
            assert(t.last() == cs@[i as int]);
            assert(s@.subrange(start as int, i + 1) =~= s@.subrange(start as int, i as int).push(
                cs@[i as int],
            ));
            assert(s@.subrange(i + 1, i + 1) =~= Seq::empty());
        }
        if cs[i] == '\n' {
            keep_line(&mut res, text, &cs, start, i);
            start = i + 1;
        }
        i += 1;
    }
    assert(s@.subrange(0, n as int) =~= s@);
    keep_line(&mut res, text, &cs, start, n);
    proof {
        lemma_statement_lines(s@);
        assert(all_statement_lines(lines_view(res@)));
        assert forall|i: int| 0 <= i < res@.len() implies is_statement_line(
            #[trigger] res@[i].content@,
        ) by {
            assert(is_statement_line(lines_view(res@)[i]));
            assert(lines_view(res@)[i] == res@[i].content@);
        }
    }
    res
}

/// Every line holds a statement.
pub open spec fn all_statement_lines(lines: Seq<Seq<char>>) -> bool {
    forall|i: int| 0 <= i < lines.len() ==> is_statement_line(#[trigger] lines[i])
}

/// Every line that comes out holds a statement: an empty line or a comment
/// line adds nothing.
pub proof fn lemma_statement_lines(s: Seq<char>)
    ensures
        all_statement_lines(scan(s).0),
        all_statement_lines(preprocess_spec(s)),
    decreases s.len(),
{
    if s.len() > 0 {
        let prev = scan(s.drop_last());
        lemma_statement_lines(s.drop_last());
        assert(all_statement_lines(emit(prev.0, prev.1)));
    }
    assert(all_statement_lines(scan(s).0));
}

/// An empty line or a comment line behind complete lines adds no line: the
/// statement lines are those of the text before it.
pub proof fn lemma_blank_and_comment_lines(s: Seq<char>)
    requires
        s.len() == 0 || s.last() == '\n',
    ensures
        preprocess_spec(s.push('\n')) == preprocess_spec(s),
        preprocess_spec(s + comment_mark()) == preprocess_spec(s),
        preprocess_spec((s + comment_mark()).push('\n')) == preprocess_spec(s),
{
    let e = Seq::<char>::empty();
    assert(scan(s).1 == e);
    assert(s.push('\n').drop_last() =~= s);
    let a = s.push('/');
    assert(a.drop_last() =~= s);
    assert(a.last() == '/');
    assert(scan(a) == (scan(s).0, e.push('/')));
    let b = a.push('/');
    assert(b.drop_last() =~= a);
    assert(b.last() == '/');
    assert(b =~= s + comment_mark());
    assert(e.push('/').push('/') =~= comment_mark());
    assert(scan(b) == (scan(s).0, comment_mark()));
    assert(strip_cr(comment_mark()) == comment_mark());
    assert(strip_cr(e) == e);
    let c = b.push('\n');
    assert(c.drop_last() =~= b);
}

} // verus!
