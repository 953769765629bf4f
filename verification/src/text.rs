//! Matching a command name against the text of a request.

use vstd::prelude::*;

verus! {

/// The characters that separate a command name from its arguments.
pub open spec fn is_space(c: char) -> bool {
    c == ' ' || c == '\t' || c == '\n' || c == '\r'
}

/// `name` stands at the start of `text`.
pub open spec fn is_prefix(name: Seq<char>, text: Seq<char>) -> bool {
    name.len() <= text.len() && text.subrange(0, name.len() as int) == name
}

/// `name` stands at the start of `text` as a whole token: the text ends
/// after it, or a separator follows.
pub open spec fn token_match(name: Seq<char>, text: Seq<char>) -> bool {
    is_prefix(name, text) && (text.len() == name.len() || is_space(text[name.len() as int]))
}

/// `s` without its leading separators.
pub open spec fn skip_spaces(s: Seq<char>) -> Seq<char>
    decreases s.len(),
{
    if s.len() > 0 && is_space(s[0]) {
        skip_spaces(s.subrange(1, s.len() as int))
    } else {
        s
    }
}

/// What follows a matched `name` in `text`: the arguments of the command.
pub open spec fn remainder(name: Seq<char>, text: Seq<char>) -> Seq<char> {
    skip_spaces(text.subrange(name.len() as int, text.len() as int))
}

pub fn space(c: char) -> (r: bool)
    ensures
        r == is_space(c),
{
    c == ' ' || c == '\t' || c == '\n' || c == '\r'
}

/// Whether `name` stands at the start of `text`.
pub fn has_prefix(name: &str, text: &str) -> (r: bool)
    ensures
        r == is_prefix(name@, text@),
{
    let n: usize = name.unicode_len();
    let m: usize = text.unicode_len();
    if n > m {
        return false;
    }
    let mut i: usize = 0;
    while i < n
        invariant
            i <= n <= m,
            n == name@.len(),
            m == text@.len(),
            forall|k: int| 0 <= k < i ==> text@[k] == name@[k],
        decreases n - i,
    {
        if name.get_char(i) != text.get_char(i) {
            assert(text@.subrange(0, n as int)[i as int] == text@[i as int]);
            return false;
        }
        i += 1;
    }
    assert(text@.subrange(0, n as int) =~= name@);
    true
}

/// Whether `name` heads `text` as a whole token.
pub fn matches_token(name: &str, text: &str) -> (r: bool)
    ensures
        r == token_match(name@, text@),
{
    if !has_prefix(name, text) {
        return false;
    }
    let n: usize = name.unicode_len();
    if n == text.unicode_len() {
        true
    } else {
        space(text.get_char(n))
    }
}

/// The text that follows the first `n` characters of `text`, without its
/// leading separators.
pub fn after_token(text: &str, n: usize) -> (r: String)
    requires
        n <= text@.len(),
    ensures
        r@ == skip_spaces(text@.subrange(n as int, text@.len() as int)),
{
    let m: usize = text.unicode_len();
    let mut j: usize = n;
    while j < m && space(text.get_char(j))
        invariant
            n <= j <= m,
            m == text@.len(),
            skip_spaces(text@.subrange(n as int, m as int)) == skip_spaces(
                text@.subrange(j as int, m as int),
            ),
        decreases m - j,
    {
        proof {
            let s = text@.subrange(j as int, m as int);
            assert(s[0] == text@[j as int]);
            assert(s.subrange(1, s.len() as int) =~= text@.subrange(j as int + 1, m as int));
        }
        j += 1;
    }
    proof {
        let s = text@.subrange(j as int, m as int);
        if j < m {
            assert(s[0] == text@[j as int]);
        }
    }
    text.substring_char(j, m).to_owned()
}

} // verus!
