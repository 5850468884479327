//! Character classes, and the scanning primitives that the grammar is built
//! from. The primitives are calls into `nom` and `std`; their contracts are
//! stated over sequences of characters and are not proved here.

use vstd::prelude::*;

verus! {

/// The classes of characters that the scanning primitives tell apart.
#[derive(Clone, Copy, PartialEq, Eq, Debug)]
pub enum CharClass {
    /// `0` to `9`.
    Digit,
    /// `a` to `z` and `A` to `Z`.
    Alpha,
    /// A letter, a digit or `_`.
    IdentifierPart,
    /// Space or tab.
    Space,
    /// Space, tab, carriage return or line feed.
    MultiSpace,
    /// Anything but carriage return and line feed.
    NotLineBreak,
    /// `;`.
    Semicolon,
    /// What `str::trim` removes.
    Whitespace,
    /// What `char::is_numeric` accepts.
    Numeric,
    /// What `char::is_alphanumeric` accepts, and `_`.
    WordPart,
}

/// Whether `str::trim` counts `c` as whitespace.
pub uninterp spec fn trims(c: char) -> bool;

/// Whether `char::is_numeric` accepts `c`.
pub uninterp spec fn numeric(c: char) -> bool;

/// Whether `char::is_alphabetic` accepts `c`.
pub uninterp spec fn alphabetic(c: char) -> bool;

/// An ASCII digit.
pub open spec fn is_digit(c: char) -> bool {
    '0' <= c <= '9'
}

/// An ASCII letter.
pub open spec fn is_alpha(c: char) -> bool {
    'a' <= c <= 'z' || 'A' <= c <= 'Z'
}

/// Carriage return or line feed.
pub open spec fn is_line_break(c: char) -> bool {
    c == '\n' || c == '\r'
}

impl CharClass {
    /// Whether `c` is of the class.
    pub open spec fn holds(self, c: char) -> bool {
        match self {
            CharClass::Digit => is_digit(c),
            CharClass::Alpha => is_alpha(c),
            CharClass::IdentifierPart => is_alpha(c) || is_digit(c) || c == '_',
            CharClass::Space => c == ' ' || c == '\t',
            CharClass::MultiSpace => c == ' ' || c == '\t' || c == '\r' || c == '\n',
            CharClass::NotLineBreak => !is_line_break(c),
            CharClass::Semicolon => c == ';',
            CharClass::Whitespace => trims(c),
            CharClass::Numeric => numeric(c),
            CharClass::WordPart => alphabetic(c) || numeric(c) || c == '_',
        }
    }
}

/// The length of the longest prefix of `s` whose characters are all in `class`.
pub open spec fn run_len(s: Seq<char>, class: CharClass) -> nat
    decreases s.len(),
{
    if s.len() > 0 && class.holds(s[0]) {
        1 + run_len(s.skip(1), class)
    } else {
        0
    }
}

/// `s` without its longest prefix in `class`.
pub open spec fn skip_run(s: Seq<char>, class: CharClass) -> Seq<char> {
    s.skip(run_len(s, class) as int)
}

/// The index at which `pat` first occurs in `s`.
pub open spec fn find(s: Seq<char>, pat: Seq<char>) -> Option<int>
    decreases s.len(),
{
    if pat.is_prefix_of(s) {
        Some(0)
    } else if s.len() == 0 {
        None
    } else {
        match find(s.skip(1), pat) {
            Some(i) => Some(i + 1),
            None => None,
        }
    }
}

/// `s` without the whitespace at its end.
pub open spec fn trim_end(s: Seq<char>) -> Seq<char>
    decreases s.len(),
{
    if s.len() > 0 && trims(s.last()) {
        trim_end(s.drop_last())
    } else {
        s
    }
}

/// `s` without the whitespace at both ends.
pub open spec fn trimmed(s: Seq<char>) -> Seq<char> {
    trim_end(skip_run(s, CharClass::Whitespace))
}

/// Whether `s` starts with the character `c`.
pub open spec fn starts_with(s: Seq<char>, c: char) -> bool {
    s.len() > 0 && s[0] == c
}

/// What a primitive returns that cuts `input` after `n` characters: the
/// rest first, then what was cut off.
pub open spec fn cut_at(input: Seq<char>, n: int, r: (&str, &str)) -> bool {
    &&& 0 <= n <= input.len()
    &&& r.1@ == input.take(n)
    &&& r.0@ == input.skip(n)
}

/// What a primitive returns that takes the longest non-empty run of `class`.
pub open spec fn took_run1(input: Seq<char>, class: CharClass, r: Option<(&str, &str)>) -> bool {
    match r {
        Some(cut) => run_len(input, class) > 0 && cut_at(input, run_len(input, class) as int, cut),
        None => run_len(input, class) == 0,
    }
}

/// What a primitive returns that takes the longest run of `class`, which may
/// be empty.
pub open spec fn took_run0(input: Seq<char>, class: CharClass, r: Option<(&str, &str)>) -> bool {
    match r {
        Some(cut) => cut_at(input, run_len(input, class) as int, cut),
        None => false,
    }
}

/// A run lies inside the text, holds only characters of its class, and
/// ends before a character that is not of the class.
pub proof fn lemma_run_len_bound(s: Seq<char>, class: CharClass)
    ensures
        run_len(s, class) <= s.len(),
        forall|i: int| 0 <= i < run_len(s, class) ==> class.holds(#[trigger] s[i]),
        run_len(s, class) < s.len() ==> !class.holds(s[run_len(s, class) as int]),
    decreases s.len(),
{
    if s.len() > 0 && class.holds(s[0]) {
        lemma_run_len_bound(s.skip(1), class);
        assert forall|i: int| 0 <= i < run_len(s, class) implies class.holds(#[trigger] s[i]) by {
            if i > 0 {
                assert(s[i] == s.skip(1)[i - 1]);
            }
        }
        assert(run_len(s, class) < s.len() ==> s[run_len(s, class) as int] == s.skip(1)[run_len(
            s.skip(1),
            class,
        ) as int]);
    }
}

/// A prefix of `n` characters in `class` is part of the run, and the run
/// goes on behind it.
pub proof fn lemma_run_len_split(s: Seq<char>, class: CharClass, n: int)
    requires
        0 <= n <= s.len(),
        forall|i: int| 0 <= i < n ==> class.holds(#[trigger] s[i]),
    ensures
        run_len(s, class) == n + run_len(s.skip(n), class),
    decreases n,
{
    if n == 0 {
        assert(s.skip(0) =~= s);
    } else {
        assert forall|i: int| 0 <= i < n - 1 implies class.holds(#[trigger] s.skip(1)[i]) by {
            assert(s.skip(1)[i] == s[i + 1]);
        }
        lemma_run_len_split(s.skip(1), class, n - 1);
        assert(s.skip(1).skip(n - 1) =~= s.skip(n));
    }
}

/// What is left behind a run is no longer than the text.
pub proof fn lemma_skip_run_len(s: Seq<char>, class: CharClass)
    ensures
        skip_run(s, class).len() == s.len() - run_len(s, class),
        skip_run(s, class).len() <= s.len(),
{
    lemma_run_len_bound(s, class);
}

/// A pattern of one character is a prefix of exactly the texts that start
/// with that character.
pub proof fn lemma_prefix_of_one(pat: Seq<char>, c: char, s: Seq<char>)
    requires
        pat =~= seq![c],
    ensures
        pat.is_prefix_of(s) <==> starts_with(s, c),
{
    if s.len() > 0 {
        assert(s.subrange(0, 1)[0] == s[0]);
        if s[0] == c {
            assert(s.subrange(0, 1) =~= pat);
        }
    }
}

/// Where `pat` is found in `s`, it stands there.
pub proof fn lemma_find(s: Seq<char>, pat: Seq<char>)
    ensures
        match find(s, pat) {
            Some(i) => 0 <= i <= s.len() && pat.is_prefix_of(s.skip(i)) && i + pat.len() <= s.len(),
            None => true,
        },
    decreases s.len(),
{
    if pat.is_prefix_of(s) {
        assert(s.skip(0) =~= s);
    } else if s.len() > 0 {
        lemma_find(s.skip(1), pat);
        match find(s.skip(1), pat) {
            Some(i) => {
                assert(s.skip(1).skip(i) =~= s.skip(i + 1));
            },
            None => {},
        }
    }
}

/// Whether `c` ends a line. This is the test that `rest_of_line` hands to
/// `nom`.
pub fn ends_line(c: char) -> (b: bool)
    ensures
        b == is_line_break(c),
{
    c == '\n' || c == '\r'
}

/// `nom::character::complete::digit1` on a string slice: the longest run of
/// ASCII digits at the start of `input`, and nothing where that run is empty.
#[verifier::external_body]
pub(crate) fn digit1<'a>(input: &'a str) -> (r: Option<(&'a str, &'a str)>)
    ensures
        took_run1(input@, CharClass::Digit, r),
{
    match nom::character::complete::digit1::<&str, nom::error::Error<&str>>(input) {
        Ok((rest, found)) => Some((rest, found)),
        Err(_) => None,
    }
}

/// `nom::character::complete::alpha1` on a string slice: the longest run of
/// ASCII letters at the start of `input`, and nothing where that run is empty.
#[verifier::external_body]
pub(crate) fn alpha1<'a>(input: &'a str) -> (r: Option<(&'a str, &'a str)>)
    ensures
        took_run1(input@, CharClass::Alpha, r),
{
    match nom::character::complete::alpha1::<&str, nom::error::Error<&str>>(input) {
        Ok((rest, found)) => Some((rest, found)),
        Err(_) => None,
    }
}

/// `nom::character::complete::space0` on a string slice: the longest run of
/// spaces and tabs at the start of `input`. It always matches.
#[verifier::external_body]
pub(crate) fn space0<'a>(input: &'a str) -> (r: Option<(&'a str, &'a str)>)
    ensures
        took_run0(input@, CharClass::Space, r),
{
    match nom::character::complete::space0::<&str, nom::error::Error<&str>>(input) {
        Ok((rest, found)) => Some((rest, found)),
        Err(_) => None,
    }
}

/// `nom::character::complete::multispace0` on a string slice: the longest run
/// of spaces, tabs, carriage returns and line feeds at the start of `input`.
/// It always matches.
#[verifier::external_body]
pub(crate) fn multispace0<'a>(input: &'a str) -> (r: Option<(&'a str, &'a str)>)
    ensures
        took_run0(input@, CharClass::MultiSpace, r),
{
    match nom::character::complete::multispace0::<&str, nom::error::Error<&str>>(input) {
        Ok((rest, found)) => Some((rest, found)),
        Err(_) => None,
    }
}

/// `nom::bytes::complete::take_till` on a string slice, with `ends_line` as
/// its test: everything up to the first carriage return or line feed, or to
/// the end of `input`. It always matches.
#[verifier::external_body]
pub(crate) fn rest_of_line<'a>(input: &'a str) -> (r: Option<(&'a str, &'a str)>)
    ensures
        took_run0(input@, CharClass::NotLineBreak, r),
{
    match nom::bytes::complete::take_till::<_, &str, nom::error::Error<&str>>(|c| ends_line(c))(input) {
        Ok((rest, found)) => Some((rest, found)),
        Err(_) => None,
    }
}

/// Whether `c` can stand inside an identifier. This is the test that
/// `identifier_run` hands to `nom`.
pub fn in_identifier(c: char) -> (b: bool)
    ensures
        b == CharClass::IdentifierPart.holds(c),
{
    ('a' <= c && c <= 'z') || ('A' <= c && c <= 'Z') || ('0' <= c && c <= '9') || c == '_'
}

/// `nom::bytes::complete::take_while` on a string slice, with
/// `in_identifier` as its test: the longest run of ASCII letters, digits
/// and `_` at the start of `input`. It always matches.
#[verifier::external_body]
pub(crate) fn identifier_run<'a>(input: &'a str) -> (r: Option<(&'a str, &'a str)>)
    ensures
        took_run0(input@, CharClass::IdentifierPart, r),
{
    match nom::bytes::complete::take_while::<_, &str, nom::error::Error<&str>>(|c| in_identifier(c))(input) {
        Ok((rest, found)) => Some((rest, found)),
        Err(_) => None,
    }
}

/// `nom::bytes::complete::tag` on string slices: `pat` where `input` starts
/// with it, and nothing where it does not.
#[verifier::external_body]
pub(crate) fn tag<'a>(input: &'a str, pat: &str) -> (r: Option<(&'a str, &'a str)>)
    ensures
        (match r {
            Some(cut) => pat@.is_prefix_of(input@) && cut_at(input@, pat@.len() as int, cut),
            None => !pat@.is_prefix_of(input@),
        }),
{
    match nom::bytes::complete::tag::<&str, &str, nom::error::Error<&str>>(pat)(input) {
        Ok((rest, found)) => Some((rest, found)),
        Err(_) => None,
    }
}

/// `nom::bytes::complete::take_until` on string slices: everything before the
/// first place where `pat` occurs in `input`, and nothing where it does not
/// occur.
#[verifier::external_body]
pub(crate) fn take_until<'a>(input: &'a str, pat: &str) -> (r: Option<(&'a str, &'a str)>)
    ensures
        (match r {
            Some(cut) => find(input@, pat@) is Some && cut_at(input@, find(input@, pat@).unwrap(), cut),
            None => find(input@, pat@) is None,
        }),
{
    match nom::bytes::complete::take_until::<&str, &str, nom::error::Error<&str>>(pat)(input) {
        Ok((rest, found)) => Some((rest, found)),
        Err(_) => None,
    }
}

/// `str::trim`: `s` without the whitespace at its two ends, so that what is
/// left neither starts nor ends with whitespace.
#[verifier::external_body]
pub(crate) fn trim<'a>(s: &'a str) -> (r: &'a str)
    ensures
        r@ == trimmed(s@),
        r@.len() > 0 ==> !trims(r@.first()) && !trims(r@.last()),
{
    s.trim()
}

/// `char::is_numeric`: whether `c` is a number of one of Unicode's three
/// numeric categories.
pub assume_specification[ char::is_numeric ](c: char) -> (b: bool)
    ensures
        b == numeric(c),
;

/// `char::is_alphabetic`: whether `c` has Unicode's property `Alphabetic`.
pub assume_specification[ char::is_alphabetic ](c: char) -> (b: bool)
    ensures
        b == alphabetic(c),
;

/// `char::is_alphanumeric`: whether `c` is alphabetic or numeric.
pub assume_specification[ char::is_alphanumeric ](c: char) -> (b: bool)
    ensures
        b == (alphabetic(c) || numeric(c)),
;

/// `String::push`: `ch` is appended to `s`.
pub assume_specification[ String::push ](s: &mut String, ch: char)
    ensures
        final(s)@ == old(s)@.push(ch),
;

/// The character `c` at the start of `input`, where `pat` is the text made
/// of `c` alone: the rest of the input behind it.
pub(crate) fn symbol<'a>(input: &'a str, pat: &str, Ghost(c): Ghost<char>) -> (r: Option<&'a str>)
    requires
        pat@ =~= seq![c],
    ensures
        (match r {
            Some(rest) => starts_with(input@, c) && rest@ == input@.skip(1),
            None => !starts_with(input@, c),
        }),
{
    proof {
        lemma_prefix_of_one(pat@, c, input@);
    }
    match tag(input, pat) {
        Some((rest, _)) => Some(rest),
        None => None,
    }
}

/// `input` without the spaces, tabs and line ends at its start.
pub(crate) fn skip_multispace<'a>(input: &'a str) -> (rest: &'a str)
    ensures
        rest@ == skip_run(input@, CharClass::MultiSpace),
        rest@.len() <= input@.len(),
{
    proof {
        lemma_skip_run_len(input@, CharClass::MultiSpace);
    }
    match multispace0(input) {
        Some((rest, _)) => rest,
        None => input,
    }
}

/// `input` without the semicolons at its start.
pub(crate) fn skip_semicolons<'a>(input: &'a str) -> (rest: &'a str)
    ensures
        rest@ == skip_run(input@, CharClass::Semicolon),
        rest@.len() <= input@.len(),
{
    let ghost s = input@;
    let ghost mut k: int = 0;
    let mut rest = input;
    proof {
        reveal_strlit(";");
        assert(s.skip(0) =~= s);
    }
    loop
        invariant
            0 <= k <= s.len(),
            rest@ == s.skip(k),
            forall|i: int| 0 <= i < k ==> CharClass::Semicolon.holds(#[trigger] s[i]),
            ";"@ =~= seq![';'],
        ensures
            run_len(rest@, CharClass::Semicolon) == 0,
        decreases s.len() - k,
    {
        match symbol(rest, ";", Ghost(';')) {
            Some(more) => {
                proof {
                    assert(s[k] == rest@[0]);
                    assert(s.skip(k).skip(1) =~= s.skip(k + 1));
                    k = k + 1;
                }
                rest = more;
            },
            None => {
                break ;
            },
        }
    }
    proof {
        lemma_run_len_split(s, CharClass::Semicolon, k);
    }
    rest
}

/// `input` without the spaces and tabs at its start.
pub(crate) fn skip_space<'a>(input: &'a str) -> (rest: &'a str)
    ensures
        rest@ == skip_run(input@, CharClass::Space),
        rest@.len() <= input@.len(),
{
    proof {
        lemma_skip_run_len(input@, CharClass::Space);
    }
    match space0(input) {
        Some((rest, _)) => rest,
        None => input,
    }
}

/// The line that `input` starts with, up to its end: the rest of the input,
/// and the line.
pub(crate) fn line<'a>(input: &'a str) -> (r: (&'a str, &'a str))
    ensures
        cut_at(input@, run_len(input@, CharClass::NotLineBreak) as int, r),
{
    match rest_of_line(input) {
        Some(cut) => cut,
        None => (input, input),
    }
}

} // verus!
