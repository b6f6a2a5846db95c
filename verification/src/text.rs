//! Character classes, tokens and substring search over sequences of
//! characters: the fragments from which the parsing rules are built.

use vstd::prelude::*;
use vstd::string::*;

verus! {

/// A lowercase ASCII letter.
pub open spec fn is_lower(c: char) -> bool {
    'a' <= c && c <= 'z'
}

/// An uppercase ASCII letter.
pub open spec fn is_upper(c: char) -> bool {
    'A' <= c && c <= 'Z'
}

/// An ASCII decimal digit.
pub open spec fn is_digit(c: char) -> bool {
    '0' <= c && c <= '9'
}

/// An ASCII letter or digit.
pub open spec fn is_alnum(c: char) -> bool {
    is_lower(c) || is_upper(c) || is_digit(c)
}

/// Every character is a letter or a digit.
pub open spec fn all_alnum(s: Seq<char>) -> bool {
    forall|i: int| 0 <= i < s.len() ==> is_alnum(#[trigger] s[i])
}

/// An identifier: a lowercase letter followed by letters and digits.
pub open spec fn is_ident(s: Seq<char>) -> bool {
    s.len() > 0 && is_lower(s[0]) && all_alnum(s)
}

/// A type name: an uppercase letter followed by letters and digits.
pub open spec fn is_type_name(s: Seq<char>) -> bool {
    s.len() > 0 && is_upper(s[0]) && all_alnum(s)
}

/// A literal: one or more digits.
pub open spec fn is_digits(s: Seq<char>) -> bool {
    s.len() > 0 && forall|i: int| 0 <= i < s.len() ==> is_digit(#[trigger] s[i])
}

/// The number that one digit stands for.
pub open spec fn digit_value(c: char) -> int {
    c as int - '0' as int
}

/// The number that a sequence of digits stands for in base ten.
pub open spec fn digits_value(s: Seq<char>) -> int
    decreases s.len(),
{
    if s.len() == 0 {
        0
    } else {
        digits_value(s.drop_last()) * 10 + digit_value(s.last())
    }
}

/// `pat` stands in `s` at index `i`.
pub open spec fn occurs_at(s: Seq<char>, pat: Seq<char>, i: int) -> bool {
    0 <= i && i + pat.len() <= s.len() && s.subrange(i, i + pat.len()) =~= pat
}

/// The least index at or after `i` at which `pat` stands in `s`.
pub open spec fn first_occurrence_from(s: Seq<char>, pat: Seq<char>, i: int) -> Option<int>
    decreases s.len() - i,
{
    if i < 0 || i + pat.len() > s.len() {
        None
    } else if occurs_at(s, pat, i) {
        Some(i)
    } else {
        first_occurrence_from(s, pat, i + 1)
    }
}

/// The least index at which `pat` stands in `s`, if it stands anywhere.
pub open spec fn first_occurrence(s: Seq<char>, pat: Seq<char>) -> Option<int> {
    match first_occurrence_from(s, pat, 0) {
        Some(i) => if 0 <= i && i + pat.len() <= s.len() {
            Some(i)
        } else {
            None
        },
        None => None,
    }
}

/// What the search from `i` returns: an index at which `pat` stands with no
/// occurrence between `i` and it, or nothing when `pat` stands nowhere from
/// `i` on.
pub proof fn lemma_first_occurrence_from(s: Seq<char>, pat: Seq<char>, i: int)
    requires
        0 <= i,
    ensures
        match first_occurrence_from(s, pat, i) {
            Some(k) => i <= k && occurs_at(s, pat, k) && forall|j: int|
                i <= j < k ==> !occurs_at(s, pat, j),
            None => forall|j: int| i <= j ==> !occurs_at(s, pat, j),
        },
    decreases s.len() - i,
{
    if i + pat.len() > s.len() {
    } else if occurs_at(s, pat, i) {
    } else {
        lemma_first_occurrence_from(s, pat, i + 1);
    }
}

/// The search finds the least occurrence: `first_occurrence` is `Some(k)`
/// exactly when `pat` stands at `k` and at no smaller index.
pub proof fn lemma_first_occurrence(s: Seq<char>, pat: Seq<char>, k: int)
    ensures
        first_occurrence(s, pat) == Some(k) <==> (occurs_at(s, pat, k) && forall|j: int|
            0 <= j < k ==> !occurs_at(s, pat, j)),
        first_occurrence(s, pat) is None <==> forall|j: int| !occurs_at(s, pat, j),
{
    lemma_first_occurrence_from(s, pat, 0);
}

/// The digits before a prefix's end never stand for more than the whole.
pub proof fn lemma_digits_value_prefix(s: Seq<char>, i: int)
    requires
        is_digits(s),
        0 <= i <= s.len(),
    ensures
        0 <= digits_value(s.subrange(0, i)) <= digits_value(s),
    decreases s.len() - i,
{
    if i == s.len() {
        assert(s.subrange(0, i) =~= s);
        lemma_digits_value_nonneg(s);
    } else {
        lemma_digits_value_prefix(s, i + 1);
        let t = s.subrange(0, i + 1);
        assert(t.drop_last() =~= s.subrange(0, i));
        assert(is_digit(s[i]));
        assert(t.last() == s[i]);
        lemma_digits_value_nonneg_prefix(s, i);
    }
}

/// The digits before any index stand for a number that is not negative.
proof fn lemma_digits_value_nonneg_prefix(s: Seq<char>, i: int)
    requires
        is_digits(s),
        0 <= i <= s.len(),
    ensures
        0 <= digits_value(s.subrange(0, i)),
    decreases i,
{
    if i > 0 {
        lemma_digits_value_nonneg_prefix(s, i - 1);
        let t = s.subrange(0, i);
        assert(t.drop_last() =~= s.subrange(0, i - 1));
        assert(is_digit(s[i - 1]));
        assert(t.last() == s[i - 1]);
    }
}

/// A literal stands for a number that is not negative.
proof fn lemma_digits_value_nonneg(s: Seq<char>)
    requires
        is_digits(s),
    ensures
        0 <= digits_value(s),
{
    lemma_digits_value_nonneg_prefix(s, s.len() as int);
    assert(s.subrange(0, s.len() as int) =~= s);
}

/// Whether `c` is a lowercase ASCII letter.
pub fn char_is_lower(c: char) -> (b: bool)
    ensures
        b == is_lower(c),
{
    'a' <= c && c <= 'z'
}

/// Whether `c` is an uppercase ASCII letter.
pub fn char_is_upper(c: char) -> (b: bool)
    ensures
        b == is_upper(c),
{
    'A' <= c && c <= 'Z'
}

/// Whether `c` is an ASCII decimal digit.
pub fn char_is_digit(c: char) -> (b: bool)
    ensures
        b == is_digit(c),
{
    '0' <= c && c <= '9'
}

/// Whether `c` is an ASCII letter or digit.
pub fn char_is_alnum(c: char) -> (b: bool)
    ensures
        b == is_alnum(c),
{
    char_is_lower(c) || char_is_upper(c) || char_is_digit(c)
}

/// The characters of a string slice, one by one.
pub fn to_chars(s: &str) -> (v: Vec<char>)
    ensures
        v@ == s@,
{
    let n: usize = s.unicode_len();
    let mut v: Vec<char> = Vec::new();
    let mut i: usize = 0;
    while i < n
        invariant
            n == s@.len(),
            i <= n,
            v@ =~= s@.subrange(0, i as int),
        decreases n - i,
    {
        v.push(s.get_char(i));
        i += 1;
    }
    assert(s@.subrange(0, n as int) =~= s@);
    v
}

/// Whether every character from index `from` on is a letter or a digit.
fn rest_is_alnum(cs: &Vec<char>, from: usize) -> (b: bool)
    requires
        from <= cs.len(),
    ensures
        b == forall|i: int| from <= i < cs@.len() ==> is_alnum(#[trigger] cs@[i]),
{
    let mut i: usize = from;
    while i < cs.len()
        invariant
            from <= i <= cs.len(),
            forall|j: int| from <= j < i ==> is_alnum(#[trigger] cs@[j]),
        decreases cs.len() - i,
    {
        if !char_is_alnum(cs[i]) {
            return false;
        }
        i += 1;
    }
    true
}

/// Whether the characters form an identifier.
pub fn check_ident(cs: &Vec<char>) -> (b: bool)
    ensures
        b == is_ident(cs@),
{
    cs.len() > 0 && char_is_lower(cs[0]) && rest_is_alnum(cs, 1)
}

/// Whether the characters form a type name.
pub fn check_type_name(cs: &Vec<char>) -> (b: bool)
    ensures
        b == is_type_name(cs@),
{
    cs.len() > 0 && char_is_upper(cs[0]) && rest_is_alnum(cs, 1)
}

/// Whether the characters form a literal.
pub fn check_digits(cs: &Vec<char>) -> (b: bool)
    ensures
        b == is_digits(cs@),
{
    if cs.len() == 0 {
        return false;
    }
    let mut i: usize = 0;
    while i < cs.len()
        invariant
            i <= cs.len(),
            forall|j: int| 0 <= j < i ==> is_digit(#[trigger] cs@[j]),
        decreases cs.len() - i,
    {
        if !char_is_digit(cs[i]) {
            return false;
        }
        i += 1;
    }
    true
}

/// The number that a literal stands for, or `None` when it is larger than
/// any `i64`.
pub fn digits_to_i64(cs: &Vec<char>) -> (r: Option<i64>)
    requires
        is_digits(cs@),
    ensures
        match r {
            Some(v) => v == digits_value(cs@),
            None => digits_value(cs@) > i64::MAX,
        },
{
    let mut acc: i64 = 0;
    let mut i: usize = 0;
    while i < cs.len()
        invariant
            is_digits(cs@),
            i <= cs.len(),
            acc == digits_value(cs@.subrange(0, i as int)),
            0 <= acc,
        decreases cs.len() - i,
    {
        let c: char = cs[i];
        let d: i64 = (c as u32 - '0' as u32) as i64;
        proof {
            let t = cs@.subrange(0, i + 1);
            assert(t.drop_last() =~= cs@.subrange(0, i as int));
            assert(t.last() == c);
            assert(is_digit(cs@[i as int]));
            lemma_digits_value_prefix(cs@, i + 1);
        }
        let next: Option<i64> = match acc.checked_mul(10) {
            Some(m) => m.checked_add(d),
            None => None,
        };
        match next {
            Some(v) => {
                acc = v;
            },
            None => {
                return None;
            },
        }
        i += 1;
    }
    assert(cs@.subrange(0, cs.len() as int) =~= cs@);
    Some(acc)
}

/// The least index at which `pat` stands in `cs`.
pub fn find_first(cs: &Vec<char>, pat: &Vec<char>) -> (r: Option<usize>)
    ensures
        match r {
            Some(i) => first_occurrence(cs@, pat@) == Some(i as int),
            None => first_occurrence(cs@, pat@) is None,
        },
{
    let n: usize = cs.len();
    let m: usize = pat.len();
    if m > n {
        return None;
    }
    let mut i: usize = 0;
    while i <= n - m
        invariant
            n == cs@.len(),
            m == pat@.len(),
            m <= n,
            i <= n - m + 1,
            first_occurrence_from(cs@, pat@, 0) == first_occurrence_from(cs@, pat@, i as int),
        decreases n - m + 1 - i,
    {
        let mut j: usize = 0;
        while j < m && cs[i + j] == pat[j]
            invariant
                n == cs@.len(),
                m == pat@.len(),
                i + m <= n,
                j <= m,
                forall|k: int| 0 <= k < j ==> cs@[i + k] == pat@[k],
            decreases m - j,
        {
            j += 1;
        }
        if j == m {
            assert(cs@.subrange(i as int, i + m) =~= pat@);
            return Some(i);
        }
        assert(!occurs_at(cs@, pat@, i as int)) by {
            if occurs_at(cs@, pat@, i as int) {
                assert(cs@.subrange(i as int, i + m)[j as int] == pat@[j as int]);
            }
        }
        i += 1;
    }
    None
}

} // verus!
