use vstd::prelude::*;

verus! {

/// Whether `text` as a whole fits the wildcard `pattern`: `*` stands for any
/// run of characters, the empty one too, `?` for exactly one character, and
/// every other character for itself. Case counts, and a dot is a character
/// like any other.
pub open spec fn glob_matches(pattern: Seq<char>, text: Seq<char>) -> bool
    decreases pattern.len() + text.len(),
{
    if pattern.len() == 0 {
        text.len() == 0
    } else if pattern[0] == '*' {
        glob_matches(pattern.drop_first(), text) || (text.len() > 0 && glob_matches(
            pattern,
            text.drop_first(),
        ))
    } else {
        text.len() > 0 && (pattern[0] == '?' || pattern[0] == text[0]) && glob_matches(
            pattern.drop_first(),
            text.drop_first(),
        )
    }
}

/// Matches `text` against `pattern` with `wildmatch::WildMatch`: the pattern
/// is compiled by `WildMatch::new` and applied by `WildMatch::matches`. The
/// contract is the crate's documented behaviour: the whole text must match,
/// `?` takes one character, `*` any number of them, nothing escapes.
#[verifier::external_body]
pub(crate) fn wild_match(pattern: &str, text: &str) -> (hit: bool)
    ensures
        hit == glob_matches(pattern@, text@),
{
    wildmatch::WildMatch::new(pattern).matches(text)
}

} // verus!
