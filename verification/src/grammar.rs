//! The lexical layer of the grammar: character classes, case-insensitive
//! keyword comparison, whitespace skipping and token scanning, each as a
//! specification function with a verified executable counterpart.

use vstd::prelude::*;

verus! {

/// Insignificant whitespace between tokens.
pub open spec fn is_ws_char(c: char) -> bool {
    c == ' ' || c == '\t' || c == '\r' || c == '\n'
}

/// A decimal digit.
pub open spec fn is_digit_char(c: char) -> bool {
    48 <= c as int && c as int <= 57
}

/// A character that may open an identifier: an ASCII letter or underscore.
pub open spec fn is_ident_start_char(c: char) -> bool {
    (65 <= c as int && c as int <= 90) || (97 <= c as int && c as int <= 122) || c as int == 95
}

/// A character that may continue a word token: letter, digit or underscore.
pub open spec fn is_word_char(c: char) -> bool {
    is_ident_start_char(c) || is_digit_char(c)
}

/// The code of `c` with an ASCII lowercase letter folded to uppercase.
pub open spec fn upper_code(c: char) -> int {
    if 97 <= c as int && c as int <= 122 {
        c as int - 32
    } else {
        c as int
    }
}

/// Two characters are equal up to ASCII case.
pub open spec fn char_eq_ci(a: char, b: char) -> bool {
    upper_code(a) == upper_code(b)
}

/// Two character sequences are equal up to ASCII case.
pub open spec fn seq_eq_ci(a: Seq<char>, b: Seq<char>) -> bool {
    a.len() == b.len() && (forall|i: int| 0 <= i < a.len() ==> char_eq_ci(a[i], b[i]))
}

/// The first index at or after `i` holding a non-whitespace character, or
/// the end of the input.
pub open spec fn skip_ws(s: Seq<char>, i: int) -> int
    decreases s.len() - i,
{
    if 0 <= i < s.len() && is_ws_char(s[i]) {
        skip_ws(s, i + 1)
    } else {
        i
    }
}

/// The first index at or after `i` holding a non-word character, or the end
/// of the input: the end of the word token starting at `i`.
pub open spec fn word_end(s: Seq<char>, i: int) -> int
    decreases s.len() - i,
{
    if 0 <= i < s.len() && is_word_char(s[i]) {
        word_end(s, i + 1)
    } else {
        i
    }
}

pub proof fn lemma_skip_ws_bounds(s: Seq<char>, i: int)
    requires
        0 <= i <= s.len(),
    ensures
        i <= skip_ws(s, i) <= s.len(),
    decreases s.len() - i,
{
    if i < s.len() && is_ws_char(s[i]) {
        lemma_skip_ws_bounds(s, i + 1);
    }
}

pub proof fn lemma_word_end_bounds(s: Seq<char>, i: int)
    requires
        0 <= i <= s.len(),
    ensures
        i <= word_end(s, i) <= s.len(),
    decreases s.len() - i,
{
    if i < s.len() && is_word_char(s[i]) {
        lemma_word_end_bounds(s, i + 1);
    }
}

/// Every character inside a word token is a word character, and the token
/// is maximal: the character after it, if any, is not a word character.
pub proof fn lemma_word_end_chars(s: Seq<char>, i: int)
    requires
        0 <= i <= s.len(),
    ensures
        forall|j: int| i <= j < word_end(s, i) ==> #[trigger] is_word_char(s[j]),
        word_end(s, i) < s.len() ==> !is_word_char(s[word_end(s, i)]),
    decreases s.len() - i,
{
    if i < s.len() && is_word_char(s[i]) {
        lemma_word_end_chars(s, i + 1);
    }
}

/// The grammar recognizer. Its associated functions scan the raw statement
/// text token by token; the parser in [`crate::parser`] drives them.
pub struct SQLParser;

impl SQLParser {
    /// Index of the first non-whitespace character at or after `i`.
    pub fn skip_ws(s: &str, i: usize) -> (j: usize)
        requires
            i <= s@.len(),
        ensures
            j as int == skip_ws(s@, i as int),
            i <= j <= s@.len(),
    {
        let n = s.unicode_len();
        let mut j = i;
        loop
            invariant
                i <= j <= n,
                n == s@.len(),
                skip_ws(s@, i as int) == skip_ws(s@, j as int),
            decreases n - j,
        {
            if j == n {
                return j;
            }
            let c = s.get_char(j);
            if !(c == ' ' || c == '\t' || c == '\r' || c == '\n') {
                return j;
            }
            j = j + 1;
        }
    }

    /// Index just past the word token starting at `i`.
    pub fn word_end(s: &str, i: usize) -> (j: usize)
        requires
            i <= s@.len(),
        ensures
            j as int == word_end(s@, i as int),
            i <= j <= s@.len(),
    {
        let n = s.unicode_len();
        let mut j = i;
        loop
            invariant
                i <= j <= n,
                n == s@.len(),
                word_end(s@, i as int) == word_end(s@, j as int),
            decreases n - j,
        {
            if j == n {
                return j;
            }
            if !Self::is_word_char(s.get_char(j)) {
                return j;
            }
            j = j + 1;
        }
    }

    /// Whether `c` may continue a word token.
    pub fn is_word_char(c: char) -> (r: bool)
        ensures
            r == is_word_char(c),
    {
        let u = c as u32;
        (65 <= u && u <= 90) || (97 <= u && u <= 122) || u == 95 || (48 <= u && u <= 57)
    }

    /// Whether `c` is a decimal digit.
    pub fn is_digit_char(c: char) -> (r: bool)
        ensures
            r == is_digit_char(c),
    {
        let u = c as u32;
        48 <= u && u <= 57
    }

    /// Whether `c` may open an identifier.
    pub fn is_ident_start_char(c: char) -> (r: bool)
        ensures
            r == is_ident_start_char(c),
    {
        let u = c as u32;
        (65 <= u && u <= 90) || (97 <= u && u <= 122) || u == 95
    }

    /// The code of `c` with an ASCII lowercase letter folded to uppercase.
    pub fn upper_code(c: char) -> (u: u32)
        ensures
            u as int == upper_code(c),
    {
        let x = c as u32;
        if 97 <= x && x <= 122 {
            x - 32
        } else {
            x
        }
    }

    /// Whether `a` and `b` are equal up to ASCII case.
    pub fn str_eq_ci(a: &str, b: &str) -> (r: bool)
        ensures
            r == seq_eq_ci(a@, b@),
    {
        let na = a.unicode_len();
        let nb = b.unicode_len();
        if na != nb {
            return false;
        }
        let mut k: usize = 0;
        loop
            invariant
                0 <= k <= na,
                na == a@.len(),
                na == b@.len(),
                forall|i: int| 0 <= i < k ==> char_eq_ci(a@[i], b@[i]),
            decreases na - k,
        {
            if k == na {
                return true;
            }
            let ca = a.get_char(k);
            let cb = b.get_char(k);
            if Self::upper_code(ca) != Self::upper_code(cb) {
                proof {
                    assert(!char_eq_ci(a@[k as int], b@[k as int]));
                }
                return false;
            }
            k = k + 1;
        }
    }
}

} // verus!
