//! Character classes that the lexer sorts its input by.
use vstd::prelude::*;

verus! {

/// Whether `c` has the Unicode `White_Space` property, as `char::is_whitespace`
/// documents it.
pub open spec fn is_white_space(c: char) -> bool {
    ||| ('\t' <= c && c <= '\r')
    ||| c == ' '
    ||| c == '\u{85}'
    ||| c == '\u{a0}'
    ||| c == '\u{1680}'
    ||| ('\u{2000}' <= c && c <= '\u{200a}')
    ||| c == '\u{2028}'
    ||| c == '\u{2029}'
    ||| c == '\u{202f}'
    ||| c == '\u{205f}'
    ||| c == '\u{3000}'
}

pub open spec fn is_ascii_digit(c: char) -> bool {
    '0' <= c && c <= '9'
}

pub open spec fn is_ascii_alpha(c: char) -> bool {
    ('a' <= c && c <= 'z') || ('A' <= c && c <= 'Z')
}

/// Whether an identifier may begin with `c`.
pub open spec fn spec_ident_start(c: char) -> bool {
    is_ascii_alpha(c) || c == '_'
}

/// Whether an identifier may go on with `c`.
pub open spec fn spec_ident_continue(c: char) -> bool {
    is_ascii_alpha(c) || is_ascii_digit(c) || c == '_'
}

/// Whether `c` has the Unicode `White_Space` property.
pub fn white_space(c: char) -> (r: bool)
    ensures r == is_white_space(c),
{
    ('\t' <= c && c <= '\r') || c == ' ' || c == '\u{85}' || c == '\u{a0}' || c == '\u{1680}'
        || ('\u{2000}' <= c && c <= '\u{200a}') || c == '\u{2028}' || c == '\u{2029}'
        || c == '\u{202f}' || c == '\u{205f}' || c == '\u{3000}'
}

/// Whether an identifier may begin with `c`: an ASCII letter or `_`.
pub fn is_ident_start(c: char) -> (r: bool)
    ensures r == spec_ident_start(c),
{
    ('a' <= c && c <= 'z') || ('A' <= c && c <= 'Z') || c == '_'
}

/// Whether an identifier may go on with `c`: an ASCII letter or digit, or `_`.
pub fn is_ident_continue(c: char) -> (r: bool)
    ensures r == spec_ident_continue(c),
{
    ('a' <= c && c <= 'z') || ('A' <= c && c <= 'Z') || ('0' <= c && c <= '9') || c == '_'
}

/// The classes of characters that the lexer reads runs of.
#[derive(Clone, Copy, PartialEq, Eq, Structural)]
pub enum Run {
    /// Letters, digits and `_`.
    IdentContinue,
    /// ASCII digits and `.`.
    DigitOrDot,
    /// ASCII digits.
    Digit,
    /// Everything but `\n`.
    NotNewline,
    /// Everything but `\n` and `\r`.
    NotLineBreak,
}

pub open spec fn in_run(k: Run, c: char) -> bool {
    match k {
        Run::IdentContinue => spec_ident_continue(c),
        Run::DigitOrDot => is_ascii_digit(c) || c == '.',
        Run::Digit => is_ascii_digit(c),
        Run::NotNewline => c != '\n',
        Run::NotLineBreak => c != '\n' && c != '\r',
    }
}

/// Whether `c` belongs to the run class `k`.
pub fn belongs(k: Run, c: char) -> (r: bool)
    ensures r == in_run(k, c),
{
    match k {
        Run::IdentContinue => is_ident_continue(c),
        Run::DigitOrDot => ('0' <= c && c <= '9') || c == '.',
        Run::Digit => '0' <= c && c <= '9',
        Run::NotNewline => c != '\n',
        Run::NotLineBreak => c != '\n' && c != '\r',
    }
}

/// The end of the longest run of class `k` in `s` that starts at `p`.
pub open spec fn run_end(s: Seq<char>, p: nat, k: Run) -> nat
    decreases s.len() - p,
{
    if p < s.len() && in_run(k, s[p as int]) {
        run_end(s, p + 1, k)
    } else {
        p
    }
}

/// A run ends at or after its start, and not past the end of the input.
pub proof fn lemma_run_end_bounds(s: Seq<char>, p: nat, k: Run)
    requires p <= s.len(),
    ensures p <= run_end(s, p, k) <= s.len(),
    decreases s.len() - p,
{
    if p < s.len() && in_run(k, s[p as int]) {
        lemma_run_end_bounds(s, p + 1, k);
    }
}

/// Every character of a run belongs to its class, and the character after
/// it does not.
pub proof fn lemma_run_end_maximal(s: Seq<char>, p: nat, k: Run)
    requires p <= s.len(),
    ensures
        forall|i: int| p <= i < run_end(s, p, k) ==> in_run(k, #[trigger] s[i]),
        run_end(s, p, k) < s.len() ==> !in_run(k, s[run_end(s, p, k) as int]),
    decreases s.len() - p,
{
    if p < s.len() && in_run(k, s[p as int]) {
        lemma_run_end_maximal(s, p + 1, k);
    }
}

} // verus!
