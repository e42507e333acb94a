//! Whitespace, trimming and the splitting of text into tokens.

use vstd::prelude::*;

verus! {

/// Unicode's `White_Space` property, the set of characters for which
/// `char::is_whitespace` holds.
pub open spec fn is_white_space(c: char) -> bool {
    let n = c as u32;
    ||| 0x9 <= n <= 0xd
    ||| n == 0x20
    ||| n == 0x85
    ||| n == 0xa0
    ||| n == 0x1680
    ||| 0x2000 <= n <= 0x200a
    ||| n == 0x2028
    ||| n == 0x2029
    ||| n == 0x202f
    ||| n == 0x205f
    ||| n == 0x3000
}

/// `s` without its leading whitespace.
pub open spec fn skip_white_space(s: Seq<char>) -> Seq<char>
    decreases s.len(),
{
    if s.len() > 0 && is_white_space(s[0]) {
        skip_white_space(s.drop_first())
    } else {
        s
    }
}

/// `s` without its trailing whitespace.
pub open spec fn drop_trailing_white_space(s: Seq<char>) -> Seq<char>
    decreases s.len(),
{
    if s.len() > 0 && is_white_space(s.last()) {
        drop_trailing_white_space(s.drop_last())
    } else {
        s
    }
}

/// `s` without leading and trailing whitespace.
pub open spec fn trimmed(s: Seq<char>) -> Seq<char> {
    drop_trailing_white_space(skip_white_space(s))
}

/// The longest prefix of `s` that holds no whitespace.
pub open spec fn leading_token(s: Seq<char>) -> Seq<char>
    decreases s.len(),
{
    if s.len() > 0 && !is_white_space(s[0]) {
        seq![s[0]] + leading_token(s.drop_first())
    } else {
        seq![]
    }
}

/// Calls `char::is_whitespace`, which std documents as Unicode's
/// `White_Space` property; the contract claims that the result is
/// `is_white_space(c)`.
#[verifier::external_body]
pub(crate) fn char_is_whitespace(c: char) -> (r: bool)
    ensures
        r == is_white_space(c),
{
    c.is_whitespace()
}

proof fn lemma_skip_step(s: Seq<char>, i: int)
    requires
        0 <= i < s.len(),
        is_white_space(s[i]),
    ensures
        skip_white_space(s.skip(i)) == skip_white_space(s.skip(i + 1)),
{
    assert(s.skip(i).drop_first() =~= s.skip(i + 1));
}

proof fn lemma_skip_stop(s: Seq<char>, i: int)
    requires
        0 <= i <= s.len(),
        i == s.len() || !is_white_space(s[i]),
    ensures
        skip_white_space(s.skip(i)) == s.skip(i),
{
}

proof fn lemma_trailing_step(s: Seq<char>, a: int, j: int)
    requires
        0 <= a < j <= s.len(),
        is_white_space(s[j - 1]),
    ensures
        drop_trailing_white_space(s.subrange(a, j)) == drop_trailing_white_space(
            s.subrange(a, j - 1),
        ),
{
    assert(s.subrange(a, j).drop_last() =~= s.subrange(a, j - 1));
}

proof fn lemma_token_step(s: Seq<char>, k: int)
    requires
        0 <= k < s.len(),
        !is_white_space(s[k]),
    ensures
        leading_token(s.skip(k)) == seq![s[k]] + leading_token(s.skip(k + 1)),
{
    assert(s.skip(k).drop_first() =~= s.skip(k + 1));
}

/// The index of the first character at or after `from` that is not
/// whitespace, or the length of `s` where there is none.
fn skip_white_space_from(s: &str, n: usize, from: usize) -> (j: usize)
    requires
        n == s@.len(),
        from <= n,
    ensures
        from <= j <= n,
        skip_white_space(s@.skip(from as int)) == s@.skip(j as int),
        forall|k: int| from <= k < j ==> is_white_space(#[trigger] s@[k]),
{
    let mut j = from;
    while j < n && char_is_whitespace(s.get_char(j))
        invariant
            n == s@.len(),
            from <= j <= n,
            skip_white_space(s@.skip(from as int)) == skip_white_space(s@.skip(j as int)),
            forall|k: int| from <= k < j ==> is_white_space(#[trigger] s@[k]),
        decreases n - j,
    {
        proof {
            lemma_skip_step(s@, j as int);
        }
        j = j + 1;
    }
    proof {
        lemma_skip_stop(s@, j as int);
    }
    j
}

/// `s` without leading and trailing whitespace, as `str::trim` gives it.
pub fn trim(s: &str) -> (r: &str)
    ensures
        r@ == trimmed(s@),
{
    let n = s.unicode_len();
    let a = skip_white_space_from(s, n, 0);
    assert(s@.skip(0) =~= s@);
    let mut j = n;
    assert(s@.skip(a as int) =~= s@.subrange(a as int, n as int));
    while j > a && char_is_whitespace(s.get_char(j - 1))
        invariant
            n == s@.len(),
            a <= j <= n,
            skip_white_space(s@) == s@.skip(a as int),
            trimmed(s@) == drop_trailing_white_space(s@.subrange(a as int, j as int)),
        decreases j,
    {
        proof {
            lemma_trailing_step(s@, a as int, j as int);
        }
        j = j - 1;
    }
    s.substring_char(a, j)
}

/// The first token of `s` at or after the character index `start`: the
/// whitespace there is skipped and the characters up to the next whitespace
/// or the end are taken.
pub open spec fn token_at(s: Seq<char>, start: int) -> Seq<char> {
    if start <= s.len() {
        leading_token(skip_white_space(s.skip(start)))
    } else {
        seq![]
    }
}

/// The first token of `s` at or after the character index `start`.
pub fn token_from(s: &str, start: usize) -> (r: String)
    ensures
        r@ == token_at(s@, start as int),
{
    let n = s.unicode_len();
    if start > n {
        return String::new();
    }
    let j = skip_white_space_from(s, n, start);
    let mut k = j;
    assert(leading_token(s@.skip(j as int)) =~= s@.subrange(j as int, k as int) + leading_token(
        s@.skip(k as int),
    ));
    while k < n && !char_is_whitespace(s.get_char(k))
        invariant
            n == s@.len(),
            j <= k <= n,
            leading_token(s@.skip(j as int)) == s@.subrange(j as int, k as int) + leading_token(
                s@.skip(k as int),
            ),
        decreases n - k,
    {
        proof {
            lemma_token_step(s@, k as int);
            assert(s@.subrange(j as int, k as int) + seq![s@[k as int]] =~= s@.subrange(
                j as int,
                k + 1,
            ));
            assert(s@.subrange(j as int, k as int) + (seq![s@[k as int]] + leading_token(
                s@.skip(k + 1),
            )) =~= s@.subrange(j as int, k + 1) + leading_token(s@.skip(k + 1)));
        }
        k = k + 1;
    }
    assert(leading_token(s@.skip(k as int)) =~= seq![]);
    assert(s@.subrange(j as int, k as int) + seq![] =~= s@.subrange(j as int, k as int));
    s.substring_char(j, k).to_owned()
}

} // verus!
