//! The two lexical primitives of the grammar: identifiers, and the scan for
//! the bracket that closes a nested span.

use vstd::prelude::*;
use crate::error::ParseError;
use crate::chars::{
    alpha1, cut_at, identifier_run, is_alpha, is_digit, lemma_prefix_of_one, run_len, tag,
    CharClass,
};

verus! {

/// A letter or `_`.
pub open spec fn is_identifier_start(c: char) -> bool {
    is_alpha(c) || c == '_'
}

/// The length of the identifier at the start of `s`: a letter or `_`, then
/// letters, digits and `_`. It is 0 where `s` starts with no identifier.
pub open spec fn identifier_len(s: Seq<char>) -> nat {
    if s.len() > 0 && is_identifier_start(s[0]) {
        1 + run_len(s.skip(1), CharClass::IdentifierPart)
    } else {
        0
    }
}

/// An identifier at the start of `input`: the rest of the input, and the
/// identifier. An input that starts with a digit starts with no identifier.
pub fn get_identifier<'a>(input: &'a str) -> (r: Option<(&'a str, &'a str)>)
    ensures
        (match r {
            Some(cut) => identifier_len(input@) > 0 && cut_at(input@, identifier_len(input@) as int, cut),
            None => identifier_len(input@) == 0,
        }),
        input@.len() > 0 && is_digit(input@[0]) ==> r is None,
{
    proof {
        reveal_strlit("_");
        lemma_prefix_of_one("_"@, '_', input@);
    }
    let starts = match alpha1(input) {
        Some(_) => true,
        None => tag(input, "_").is_some(),
    };
    if !starts {
        return None;
    }
    identifier_run(input)
}

/// Where a scan for the closing bracket ends.
pub enum Scan {
    /// At this index stands a closing bracket that no opening bracket before
    /// it matches.
    Close(int),
    /// The input ended with every bracket closed.
    Exhausted,
    /// The input ended inside an open bracket.
    Unbalanced,
}

/// The scan of `s` from index `i` on, with `depth` brackets open. A backslash
/// hides the character behind it. Where `open` and `close` are the same
/// character it counts as opening, and a backslash is never a bracket.
pub open spec fn scan(s: Seq<char>, open: char, close: char, i: int, depth: nat) -> Scan
    decreases s.len() - i,
{
    if i < 0 || i >= s.len() {
        if depth == 0 {
            Scan::Exhausted
        } else {
            Scan::Unbalanced
        }
    } else if s[i] == '\\' {
        scan(s, open, close, if i + 2 <= s.len() { i + 2 } else { s.len() as int }, depth)
    } else if s[i] == open {
        scan(s, open, close, i + 1, depth + 1)
    } else if s[i] == close {
        if depth == 0 {
            Scan::Close(i)
        } else {
            scan(s, open, close, i + 1, (depth - 1) as nat)
        }
    } else {
        scan(s, open, close, i + 1, depth)
    }
}

/// Cuts `input` before the first closing bracket that closes nothing opened
/// in `input`, so that the rest starts with that bracket. Where there is none
/// and every bracket is closed, all of `input` is cut off and the rest is
/// empty; where one is left open, the scan fails.
pub fn take_until_unbalanced<'a>(opening_bracket: char, closing_bracket: char, input: &'a str) -> (r:
    Result<(&'a str, &'a str), ParseError>)
    ensures
        match scan(input@, opening_bracket, closing_bracket, 0, 0) {
            Scan::Close(i) => r matches Ok(cut) && cut_at(input@, i, cut),
            Scan::Exhausted => r matches Ok(cut) && cut_at(input@, input@.len() as int, cut),
            Scan::Unbalanced => r == Err::<(&str, &str), ParseError>(ParseError::UnbalancedBracket),
        },
{
    let total: usize = input.unicode_len();
    let ghost s = input@;
    let mut depth: usize = 0;
    let mut escaped: bool = false;
    let mut idx: usize = 0;
    for c in it: input.chars()
        invariant
            it.seq() == s,
            s == input@,
            total == s.len(),
            idx == it.index(),
            depth <= idx,
            scan(s, opening_bracket, closing_bracket, 0, 0) == scan(
                s,
                opening_bracket,
                closing_bracket,
                idx + if escaped { 1int } else { 0int },
                depth as nat,
            ),
    {
        proof {
            assert(c == s[idx as int]);
            // Behind the end of the text every scan ends alike.
            assert(idx + 2 > s.len() ==> scan(s, opening_bracket, closing_bracket, s.len() as int, depth as nat)
                == scan(s, opening_bracket, closing_bracket, idx + 2, depth as nat));
        }
        if escaped {
            escaped = false;
        } else if c == '\\' {
            escaped = true;
        } else if c == opening_bracket {
            depth = depth + 1;
        } else if c == closing_bracket {
            if depth == 0 {
                let found = input.substring_char(0, idx);
                let rest = input.substring_char(idx, total);
                return Ok((rest, found));
            }
            depth = depth - 1;
        }
        idx = idx + 1;
    }
    if depth == 0 {
        proof {
            assert(s.take(s.len() as int) =~= s);
        }
        Ok((input.substring_char(total, total), input))
    } else {
        Err(ParseError::UnbalancedBracket)
    }
}

/// A scan that starts inside the text ends at a closing bracket inside it.
pub proof fn lemma_scan_close(s: Seq<char>, open: char, close: char, i: int, depth: nat)
    requires
        0 <= i,
    ensures
        scan(s, open, close, i, depth) matches Scan::Close(at) ==> i <= at < s.len() && s[at] == close,
    decreases s.len() - i,
{
    if i < s.len() {
        if s[i] == '\\' {
            lemma_scan_close(s, open, close, if i + 2 <= s.len() { i + 2 } else { s.len() as int }, depth);
        } else if s[i] == open {
            lemma_scan_close(s, open, close, i + 1, depth + 1);
        } else if s[i] == close {
            if depth > 0 {
                lemma_scan_close(s, open, close, i + 1, (depth - 1) as nat);
            }
        } else {
            lemma_scan_close(s, open, close, i + 1, depth);
        }
    }
}

} // verus!
