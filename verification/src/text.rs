//! Small operations on text used while building songs.

use vstd::prelude::*;

verus! {

/// Whether two texts are equal.
pub fn str_eq(a: &str, b: &str) -> (res: bool)
    ensures
        res == (a@ == b@),
{
    a.to_owned() == b.to_owned()
}

/// A parenthesis, the only character that `trim_parens` removes.
pub open spec fn is_paren(c: char) -> bool {
    c == '(' || c == ')'
}

/// The text without the parentheses at its start.
pub open spec fn trim_start_parens(s: Seq<char>) -> Seq<char>
    decreases s.len(),
{
    if s.len() > 0 && is_paren(s[0]) {
        trim_start_parens(s.drop_first())
    } else {
        s
    }
}

/// The text without the parentheses at its end.
pub open spec fn trim_end_parens(s: Seq<char>) -> Seq<char>
    decreases s.len(),
{
    if s.len() > 0 && is_paren(s.last()) {
        trim_end_parens(s.drop_last())
    } else {
        s
    }
}

/// The text without the parentheses at either end, as
/// `str::trim_matches` gives it for the pattern `(` or `)`.
pub open spec fn trim_parens(s: Seq<char>) -> Seq<char> {
    trim_end_parens(trim_start_parens(s))
}

proof fn lemma_trim_start(s: Seq<char>) -> (i: int)
    ensures
        0 <= i <= s.len(),
        trim_start_parens(s) == s.subrange(i, s.len() as int),
        forall|k: int| 0 <= k < i ==> is_paren(#[trigger] s[k]),
        i < s.len() ==> !is_paren(s[i]),
    decreases s.len(),
{
    if s.len() > 0 && is_paren(s[0]) {
        let i0 = lemma_trim_start(s.drop_first());
        assert(s.drop_first().subrange(i0, s.len() - 1) =~= s.subrange(i0 + 1, s.len() as int));
        assert forall|k: int| 0 <= k < i0 + 1 implies is_paren(#[trigger] s[k]) by {
            if k > 0 {
                assert(s[k] == s.drop_first()[k - 1]);
            }
        }
        i0 + 1
    } else {
        assert(s.subrange(0, s.len() as int) =~= s);
        0
    }
}

proof fn lemma_trim_end(s: Seq<char>) -> (j: int)
    ensures
        0 <= j <= s.len(),
        trim_end_parens(s) == s.subrange(0, j),
        forall|k: int| j <= k < s.len() ==> is_paren(#[trigger] s[k]),
        j > 0 ==> !is_paren(s[j - 1]),
    decreases s.len(),
{
    if s.len() > 0 && is_paren(s.last()) {
        let j0 = lemma_trim_end(s.drop_last());
        assert(s.drop_last().subrange(0, j0) =~= s.subrange(0, j0));
        assert forall|k: int| j0 <= k < s.len() implies is_paren(#[trigger] s[k]) by {
            if k < s.len() - 1 {
                assert(s[k] == s.drop_last()[k]);
            }
        }
        j0
    } else {
        assert(s.subrange(0, s.len() as int) =~= s);
        s.len() as int
    }
}

/// Trimming parentheses keeps one contiguous part of the text: everything
/// before it and after it is a parenthesis, and the part kept neither
/// starts nor ends with one.
pub proof fn lemma_trim_parens(s: Seq<char>)
    ensures
        exists|i: int, j: int|
            0 <= i <= j <= s.len() && trim_parens(s) == s.subrange(i, j) && (forall|k: int|
                0 <= k < i ==> is_paren(#[trigger] s[k])) && (forall|k: int| j <= k < s.len() ==> is_paren(
                #[trigger] s[k],
            )) && (i < j ==> !is_paren(s[i]) && !is_paren(s[j - 1])),
{
    let i = lemma_trim_start(s);
    let t = s.subrange(i, s.len() as int);
    let j0 = lemma_trim_end(t);
    let j = i + j0;
    assert(t.subrange(0, j0) =~= s.subrange(i, j));
    assert forall|k: int| j <= k < s.len() implies is_paren(#[trigger] s[k]) by {
        assert(s[k] == t[k - i]);
    }
    if i < j {
        assert(s[j - 1] == t[j0 - 1]);
    }
    assert(0 <= i <= j <= s.len() && trim_parens(s) == s.subrange(i, j));
}

/// Removes the parentheses at both ends of a text.
pub fn trim_parens_str<'a>(s: &'a str) -> (res: &'a str)
    ensures
        res@ == trim_parens(s@),
{
    let len = s.unicode_len();
    let mut i: usize = 0;
    assert(s@.subrange(0, len as int) =~= s@);
    while i < len && (s.get_char(i) == '(' || s.get_char(i) == ')')
        invariant
            len == s@.len(),
            0 <= i <= len,
            trim_start_parens(s@) == trim_start_parens(s@.subrange(i as int, len as int)),
        decreases len - i,
    {
        let ghost sub = s@.subrange(i as int, len as int);
        assert(sub.drop_first() =~= s@.subrange(i + 1, len as int));
        i = i + 1;
    }
    let ghost start = s@.subrange(i as int, len as int);
    assert(trim_start_parens(s@) == start);
    let mut j: usize = len;
    while j > i && (s.get_char(j - 1) == '(' || s.get_char(j - 1) == ')')
        invariant
            len == s@.len(),
            0 <= i <= j <= len,
            start == s@.subrange(i as int, len as int),
            trim_end_parens(start) == trim_end_parens(s@.subrange(i as int, j as int)),
        decreases j - i,
    {
        let ghost sub = s@.subrange(i as int, j as int);
        assert(sub.drop_last() =~= s@.subrange(i as int, j - 1));
        j = j - 1;
    }
    s.substring_char(i, j)
}

} // verus!
