use vstd::prelude::*;

verus! {

/// Whether `pattern` occurs in `text` as a contiguous run of characters.
pub open spec fn contains_text(text: Seq<char>, pattern: Seq<char>) -> bool {
    exists|i: int|
        0 <= i && i + pattern.len() <= text.len() && #[trigger] text.subrange(i, i + pattern.len())
            == pattern
}

/// Relies on `str::contains` with a `&str` pattern, which is documented to
/// return whether the pattern matches a sub-slice of the string.
#[verifier::external_body]
fn text_contains(text: &str, pattern: &str) -> (r: bool)
    ensures
        r == contains_text(text@, pattern@),
{
    text.contains(pattern)
}

/// Whether `url` holds at least one of `patterns`.
pub open spec fn matches_any(url: Seq<char>, patterns: Seq<String>) -> bool {
    exists|i: int| 0 <= i < patterns.len() && contains_text(url, #[trigger] patterns[i]@)
}

/// The traversal filter that expands an address when it contains any of the
/// configured substrings; with no substrings it expands nothing.
pub fn should_expand(url: &str, patterns: &Vec<String>) -> (r: bool)
    ensures
        r == matches_any(url@, patterns@),
{
    let mut i: usize = 0;
    while i < patterns.len()
        invariant
            i <= patterns@.len(),
            forall|j: int| 0 <= j < i ==> !contains_text(url@, #[trigger] patterns@[j]@),
        decreases patterns@.len() - i,
    {
        if text_contains(url, patterns[i].as_str()) {
            return true;
        }
        i = i + 1;
    }
    false
}

} // verus!
