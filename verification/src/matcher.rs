//! Keyword matching.
//!
//! A message qualifies when the keyword `rust` appears in it as a separate
//! word, case-insensitively: the four letters in order (each in either
//! case), with no word character immediately before or after.  Word
//! characters are the ASCII letters, the ASCII digits and the underscore;
//! any other character — punctuation, whitespace, or a character outside
//! ASCII — acts as a word boundary.  Case folding is ASCII-only, so only
//! `A`–`Z` fold onto their lower-case counterparts.

use vstd::prelude::*;

verus! {

/// A word character: ASCII letter, ASCII digit or underscore.  Everything
/// else (including every character outside ASCII) is a word boundary.
pub open spec fn is_word_char(c: char) -> bool {
    ||| ('a' as u32) <= (c as u32) && (c as u32) <= ('z' as u32)
    ||| ('A' as u32) <= (c as u32) && (c as u32) <= ('Z' as u32)
    ||| ('0' as u32) <= (c as u32) && (c as u32) <= ('9' as u32)
    ||| c == '_'
}

/// `c` equals the lower-case letter `k` up to ASCII case folding.
pub open spec fn eq_case_insensitive(c: char, k: char) -> bool {
    c == k || (c as u32) + 32 == (k as u32)
}

/// The keyword occurs at position `i` of `s` as a separate word: the four
/// letters of `rust` (case-insensitively) with a word boundary, or the edge
/// of the text, on both sides.
pub open spec fn keyword_at(s: Seq<char>, i: int) -> bool {
    &&& 0 <= i
    &&& i + 4 <= s.len()
    &&& eq_case_insensitive(s[i], 'r')
    &&& eq_case_insensitive(s[i + 1], 'u')
    &&& eq_case_insensitive(s[i + 2], 's')
    &&& eq_case_insensitive(s[i + 3], 't')
    &&& (i == 0 || !is_word_char(s[i - 1]))
    &&& (i + 4 == s.len() || !is_word_char(s[i + 4]))
}

/// The keyword occurs somewhere in `s` as a separate word.
pub open spec fn mentions_keyword(s: Seq<char>) -> bool {
    exists|i: int| keyword_at(s, i)
}

/// Executable form of [`is_word_char`].
fn word_char(c: char) -> (r: bool)
    ensures
        r == is_word_char(c),
{
    let v = c as u32;
    (97 <= v && v <= 122) || (65 <= v && v <= 90) || (48 <= v && v <= 57) || c == '_'
}

/// Executable form of [`eq_case_insensitive`].
fn char_eq_ci(c: char, k: char) -> (r: bool)
    ensures
        r == eq_case_insensitive(c, k),
{
    c == k || (c as u32) + 32 == (k as u32)
}

/// Does the keyword occur at position `i` of `chars`, as a separate word?
fn keyword_here(chars: &Vec<char>, i: usize) -> (r: bool)
    requires
        i + 4 <= chars@.len(),
    ensures
        r == keyword_at(chars@, i as int),
{
    let len = chars.len();
    let before_ok = i == 0 || !word_char(chars[i - 1]);
    let after_ok = i + 4 == len || !word_char(chars[i + 4]);
    before_ok && after_ok && char_eq_ci(chars[i], 'r') && char_eq_ci(chars[i + 1], 'u')
        && char_eq_ci(chars[i + 2], 's') && char_eq_ci(chars[i + 3], 't')
}

/// Classify a message text: `true` iff the keyword appears in it as a
/// separate word, case-insensitively.  Pure, total, and never panics;
/// text in which the keyword appears only as part of a longer word
/// (`trust`, `rusty`) does not match.
pub fn matches(text: &str) -> (r: bool)
    ensures
        r == mentions_keyword(text@),
{
    let n = text.unicode_len();
    let mut chars: Vec<char> = Vec::new();
    let mut j: usize = 0;
    while j < n
        invariant
            n == text@.len(),
            j <= n,
            chars@ == text@.take(j as int),
        decreases n - j,
    {
        chars.push(text.get_char(j));
        proof {
            assert(chars@ =~= text@.take(j + 1 as int));
        }
        j = j + 1;
    }
    proof {
        assert(chars@ =~= text@);
    }

    if n < 4 {
        return false;
    }
    let mut i: usize = 0;
    while i <= n - 4
        invariant
            n == chars@.len(),
            n == text@.len(),
            chars@ == text@,
            4 <= n,
            i <= n - 3,
            forall|k: int| 0 <= k < i ==> !keyword_at(text@, k),
        decreases n - i,
    {
        if keyword_here(&chars, i) {
            proof {
                assert(keyword_at(text@, i as int));
            }
            return true;
        }
        i = i + 1;
    }
    false
}

} // verus!
