//! A tokenizer for arithmetic: brackets, operators, numbers and names.

use vstd::prelude::*;
use crate::chars::{alphabetic, lemma_run_len_bound, lemma_run_len_split, numeric, run_len, CharClass};

verus! {

/// The kind of a token.
#[derive(Clone, Copy, PartialEq, Eq, Debug)]
pub enum TokenType {
    /// The name `None`.
    NoneLiteral,
    Number,
    Identifier,
    OpenParen,
    CloseParen,
    BinaryOperator,
}

/// A token: its text and its kind.
#[derive(PartialEq, Eq, Debug)]
pub struct Token {
    pub value: String,
    pub kind: TokenType,
}

/// What a `Token` holds, with its text as a sequence of characters.
pub struct TokenModel {
    pub value: Seq<char>,
    pub kind: TokenType,
}

impl View for Token {
    type V = TokenModel;

    open spec fn view(&self) -> TokenModel {
        TokenModel { value: self.value@, kind: self.kind }
    }
}

/// The input holds a character that starts no token.
#[derive(Clone, Copy, PartialEq, Eq, Debug)]
pub enum LexError {
    UnexpectedCharacter(char),
}

impl Token {
    pub fn new(value: String, kind: TokenType) -> (token: Self)
        ensures
            token.value == value,
            token.kind == kind,
    {
        Self { value, kind }
    }
}

/// The models of tokens.
pub open spec fn tokens_model(tokens: Seq<Token>) -> Seq<TokenModel> {
    Seq::new(tokens.len(), |i: int| tokens[i]@)
}

pub open spec fn is_operator(c: char) -> bool {
    c == '+' || c == '-' || c == '*' || c == '/' || c == '%'
}

pub open spec fn is_blank(c: char) -> bool {
    c == ' ' || c == '\n' || c == '\r' || c == '\t'
}

/// The token at the start of `s` and its length; no token and the length 1
/// for a blank; an error for a character that starts no token. `s` is not
/// empty.
pub open spec fn spec_token(s: Seq<char>) -> Result<(Option<TokenModel>, int), LexError> {
    let c = s[0];
    if c == '(' {
        Ok((Some(TokenModel { value: s.take(1), kind: TokenType::OpenParen }), 1))
    } else if c == ')' {
        Ok((Some(TokenModel { value: s.take(1), kind: TokenType::CloseParen }), 1))
    } else if is_operator(c) {
        Ok((Some(TokenModel { value: s.take(1), kind: TokenType::BinaryOperator }), 1))
    } else if is_blank(c) {
        Ok((None, 1))
    } else if numeric(c) {
        let n = run_len(s, CharClass::Numeric) as int;
        Ok((Some(TokenModel { value: s.take(n), kind: TokenType::Number }), n))
    } else if alphabetic(c) {
        let n = 1 + run_len(s.skip(1), CharClass::WordPart) as int;
        let kind = if s.take(n) == "None"@ {
            TokenType::NoneLiteral
        } else {
            TokenType::Identifier
        };
        Ok((Some(TokenModel { value: s.take(n), kind }), n))
    } else {
        Err(LexError::UnexpectedCharacter(c))
    }
}

/// The tokens of `s`, or the first character that starts none.
pub open spec fn spec_tokens(s: Seq<char>) -> Result<Seq<TokenModel>, LexError>
    decreases s.len(),
{
    if s.len() == 0 {
        Ok(Seq::empty())
    } else {
        match spec_token(s) {
            Err(e) => Err(e),
            Ok((token, n)) => if 0 < n <= s.len() {
                match spec_tokens(s.skip(n)) {
                    Err(e) => Err(e),
                    Ok(more) => Ok(
                        match token {
                            Some(t) => seq![t] + more,
                            None => more,
                        },
                    ),
                }
            } else {
                Ok(Seq::empty())
            },
        }
    }
}

/// `more` after the tokens that were found before it.
pub open spec fn after_tokens(first: Seq<TokenModel>, more: Result<Seq<TokenModel>, LexError>) -> Result<
    Seq<TokenModel>,
    LexError,
> {
    match more {
        Ok(tokens) => Ok(first + tokens),
        Err(e) => Err(e),
    }
}

/// The characters of `input`.
fn characters(input: &str) -> (chars: Vec<char>)
    ensures
        chars@ == input@,
{
    let mut chars: Vec<char> = Vec::new();
    for c in it: input.chars()
        invariant
            it.seq() == input@,
            chars@ == input@.take(it.index() as int),
    {
        proof {
            assert(input@.take(it.index() + 1) =~= input@.take(it.index() as int).push(c));
        }
        chars.push(c);
    }
    proof {
        assert(input@.take(input@.len() as int) =~= input@);
    }
    chars
}

/// The text of `chars` from `from` up to `to`.
fn text(chars: &Vec<char>, from: usize, to: usize) -> (s: String)
    requires
        from <= to <= chars.len(),
    ensures
        s@ == chars@.subrange(from as int, to as int),
{
    let mut s = String::new();
    let mut i: usize = from;
    while i < to
        invariant
            from <= i <= to <= chars.len(),
            s@ == chars@.subrange(from as int, i as int),
        decreases to - i,
    {
        s.push(chars[i]);
        proof {
            assert(chars@.subrange(from as int, i + 1) =~= chars@.subrange(from as int, i as int).push(
                chars@[i as int],
            ));
        }
        i = i + 1;
    }
    s
}

/// The class of the characters of a word, or of a number.
pub open spec fn class_of(word: bool) -> CharClass {
    if word {
        CharClass::WordPart
    } else {
        CharClass::Numeric
    }
}

/// The end of the run of a word's characters, or of a number's, that starts
/// at `from`.
fn run_end(chars: &Vec<char>, from: usize, word: bool) -> (to: usize)
    requires
        from <= chars.len(),
    ensures
        from <= to <= chars.len(),
        to - from == run_len(chars@.skip(from as int), class_of(word)),
{
    let ghost class = class_of(word);
    let ghost s = chars@.skip(from as int);
    let mut to: usize = from;
    loop
        invariant
            from <= to <= chars.len(),
            s == chars@.skip(from as int),
            class == class_of(word),
            forall|i: int| 0 <= i < to - from ==> class.holds(#[trigger] s[i]),
        ensures
            from <= to <= chars.len(),
            run_len(s, class) == to - from,
        decreases chars.len() - to,
    {
        if to >= chars.len() {
            proof {
                lemma_run_len_split(s, class, to - from);
                assert(s.skip(to - from).len() == 0);
            }
            break ;
        }
        let c = chars[to];
        let inside = if word {
            c.is_alphanumeric() || c == '_'
        } else {
            c.is_numeric()
        };
        if !inside {
            proof {
                lemma_run_len_split(s, class, to - from);
                assert(s.skip(to - from)[0] == c);
            }
            break ;
        }
        proof {
            assert(s[to - from] == c);
        }
        to = to + 1;
    }
    to
}

/// The tokens of `input`, in its order; blanks separate tokens and give
/// none. A name is a letter followed by letters, digits and `_`; the name
/// `None` is a token of its own kind.
pub fn tokenzine(input: &str) -> (r: Result<Vec<Token>, LexError>)
    ensures
        (match r {
            Ok(tokens) => spec_tokens(input@) == Ok::<_, LexError>(tokens_model(tokens@)),
            Err(e) => spec_tokens(input@) == Err::<Seq<TokenModel>, _>(e),
        }),
{
    let chars = characters(input);
    let reserved = String::from_str("None");
    let mut tokens: Vec<Token> = Vec::new();
    let mut i: usize = 0;
    proof {
        assert(chars@.skip(0) =~= chars@);
        assert(tokens_model(tokens@) =~= Seq::empty());
        match spec_tokens(chars@) {
            Ok(more) => {
                assert(Seq::<TokenModel>::empty() + more =~= more);
            },
            Err(_) => {},
        }
    }
    while i < chars.len()
        invariant
            chars@ == input@,
            reserved@ == "None"@,
            i <= chars.len(),
            spec_tokens(chars@) == after_tokens(tokens_model(tokens@), spec_tokens(chars@.skip(i as int))),
        decreases chars.len() - i,
    {
        let ghost s = chars@.skip(i as int);
        let ghost before = tokens_model(tokens@);
        let ch = chars[i];
        proof {
            assert(s[0] == ch);
            lemma_run_len_bound(s, CharClass::Numeric);
            lemma_run_len_bound(s.skip(1), CharClass::WordPart);
        }
        let (kind, end) = if ch == '(' {
            (Some(TokenType::OpenParen), i + 1)
        } else if ch == ')' {
            (Some(TokenType::CloseParen), i + 1)
        } else if ch == '+' || ch == '-' || ch == '*' || ch == '/' || ch == '%' {
            (Some(TokenType::BinaryOperator), i + 1)
        } else if ch == ' ' || ch == '\n' || ch == '\r' || ch == '\t' {
            (None, i + 1)
        } else if ch.is_numeric() {
            (Some(TokenType::Number), run_end(&chars, i, false))
        } else if ch.is_alphabetic() {
            proof {
                assert(chars@.skip(i + 1) =~= s.skip(1));
            }
            (Some(TokenType::Identifier), run_end(&chars, i + 1, true))
        } else {
            return Err(LexError::UnexpectedCharacter(ch));
        };
        proof {
            assert(chars@.skip(i as int).skip(end - i) =~= chars@.skip(end as int));
            assert(chars@.subrange(i as int, end as int) =~= s.take(end - i));
        }
        match kind {
            Some(kind) => {
                let value = text(&chars, i, end);
                let kind = match kind {
                    TokenType::Identifier => if value == reserved {
                        TokenType::NoneLiteral
                    } else {
                        TokenType::Identifier
                    },
                    other => other,
                };
                let token = Token::new(value, kind);
                proof {
                    let more = spec_tokens(chars@.skip(end as int));
                    assert(tokens_model(tokens@.push(token)) =~= before.push(token@));
                    match more {
                        Ok(rest) => {
                            assert(before + (seq![token@] + rest) =~= before.push(token@) + rest);
                        },
                        Err(_) => {},
                    }
                }
                tokens.push(token);
            },
            None => {},
        }
        i = end;
    }
    proof {
        assert(tokens_model(tokens@) + Seq::empty() =~= tokens_model(tokens@));
    }
    Ok(tokens)
}

} // verus!
