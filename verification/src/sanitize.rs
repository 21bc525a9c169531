//! Removal of ANSI escape sequences from captured process output.

use vstd::prelude::*;

verus! {

/// The text that the ANSI stripper leaves of `s`.
pub uninterp spec fn sanitized_of(s: Seq<char>) -> Seq<char>;

/// A character the stripper passes through unchanged: a newline, or anything
/// that is neither a C0 control character (this includes the escape character)
/// nor a C1 control character.
pub open spec fn is_clean_char(c: char) -> bool {
    c == '\n' || !(c < '\u{20}' || ('\u{80}' <= c && c <= '\u{9f}'))
}

/// Text free of escape sequences and of control characters other than newline.
/// Sanitizing such text returns it unchanged.
pub open spec fn is_clean(s: Seq<char>) -> bool {
    forall|i: int| 0 <= i < s.len() ==> is_clean_char(s[i])
}

/// Relies on `strip_ansi_escapes::strip_str`: it removes ANSI escape sequences
/// and control characters other than newline, keeps all other text, depends on
/// the input alone, and never fails. Text that is already clean comes back
/// unchanged, and the result is always clean.
#[verifier::external_body]
pub fn sanitize(s: &str) -> (r: String)
    ensures
        r@ == sanitized_of(s@),
        is_clean(s@) ==> r@ == s@,
        is_clean(r@),
{
    strip_ansi_escapes::strip_str(s)
}

} // verus!
