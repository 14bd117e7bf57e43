//! The lexical scanner: a single forward pass turning a source string into
//! the ordered token sequence that `spec_lex` describes.

use vstd::prelude::*;

use crate::tokens::{
    Token, TokenType, SpecToken, is_space_char, is_digit_char, is_alpha_char, is_alnum_char,
    spec_keyword_kind, all_digits, digits_val, token_wf,
};

verus! {

/// A fatal lexical error: scanning aborts at the first one. Each error names
/// the position it was found at, counted in characters from the start of the
/// source.
#[derive(Debug, Clone, Copy, PartialEq, Eq)]
pub enum LexError {
    /// A character that begins no token, and its position.
    UnrecognizedChar(char, usize),
    /// A string literal whose closing quote never comes, at the position of
    /// its opening quote.
    UnterminatedString(usize),
}

/// End of the maximal run of alphanumeric characters starting at `i`.
pub open spec fn alnum_run_end(s: Seq<char>, i: int) -> int
    decreases s.len() - i,
{
    if i < 0 || i >= s.len() || !is_alnum_char(s[i]) {
        i
    } else {
        alnum_run_end(s, i + 1)
    }
}

/// End of the maximal run of decimal digits starting at `i`.
pub open spec fn digit_run_end(s: Seq<char>, i: int) -> int
    decreases s.len() - i,
{
    if i < 0 || i >= s.len() || !is_digit_char(s[i]) {
        i
    } else {
        digit_run_end(s, i + 1)
    }
}

/// Position of the first `"` at or after `i`, if there is one.
pub open spec fn closing_quote(s: Seq<char>, i: int) -> Option<int>
    decreases s.len() - i,
{
    if i < 0 || i >= s.len() {
        None
    } else if s[i] == '"' {
        Some(i)
    } else {
        closing_quote(s, i + 1)
    }
}

pub proof fn lemma_alnum_run_end(s: Seq<char>, i: int)
    requires
        0 <= i <= s.len(),
    ensures
        i <= alnum_run_end(s, i) <= s.len(),
        forall|j: int| i <= j < alnum_run_end(s, i) ==> is_alnum_char(s[j]),
        alnum_run_end(s, i) < s.len() ==> !is_alnum_char(s[alnum_run_end(s, i)]),
        i < s.len() && is_alnum_char(s[i]) ==> alnum_run_end(s, i) > i,
    decreases s.len() - i,
{
    if i < s.len() && is_alnum_char(s[i]) {
        lemma_alnum_run_end(s, i + 1);
    }
}

/// The run end is the unique position that closes a maximal alphanumeric run.
pub proof fn lemma_alnum_run_end_is(s: Seq<char>, i: int, e: int)
    requires
        0 <= i <= e <= s.len(),
        forall|j: int| i <= j < e ==> is_alnum_char(s[j]),
        e < s.len() ==> !is_alnum_char(s[e]),
    ensures
        alnum_run_end(s, i) == e,
    decreases e - i,
{
    if i < e {
        lemma_alnum_run_end_is(s, i + 1, e);
    }
}

pub proof fn lemma_digit_run_end(s: Seq<char>, i: int)
    requires
        0 <= i <= s.len(),
    ensures
        i <= digit_run_end(s, i) <= s.len(),
        forall|j: int| i <= j < digit_run_end(s, i) ==> is_digit_char(s[j]),
        digit_run_end(s, i) < s.len() ==> !is_digit_char(s[digit_run_end(s, i)]),
        i < s.len() && is_digit_char(s[i]) ==> digit_run_end(s, i) > i,
    decreases s.len() - i,
{
    if i < s.len() && is_digit_char(s[i]) {
        lemma_digit_run_end(s, i + 1);
    }
}

/// The run end is the unique position that closes a maximal digit run.
pub proof fn lemma_digit_run_end_is(s: Seq<char>, i: int, e: int)
    requires
        0 <= i <= e <= s.len(),
        forall|j: int| i <= j < e ==> is_digit_char(s[j]),
        e < s.len() ==> !is_digit_char(s[e]),
    ensures
        digit_run_end(s, i) == e,
    decreases e - i,
{
    if i < e {
        lemma_digit_run_end_is(s, i + 1, e);
    }
}

pub proof fn lemma_closing_quote_bounds(s: Seq<char>, i: int)
    requires
        0 <= i,
    ensures
        match closing_quote(s, i) {
            Some(j) => i <= j < s.len() && s[j] == '"' && (forall|k: int|
                i <= k < j ==> s[k] != '"'),
            None => forall|k: int| i <= k < s.len() ==> s[k] != '"',
        },
    decreases s.len() - i,
{
    if i < s.len() && s[i] != '"' {
        lemma_closing_quote_bounds(s, i + 1);
    }
}

/// The first quote position is the unique one with no quote before it.
pub proof fn lemma_closing_quote_is(s: Seq<char>, i: int, j: int)
    requires
        0 <= i <= j < s.len(),
        s[j] == '"',
        forall|k: int| i <= k < j ==> s[k] != '"',
    ensures
        closing_quote(s, i) == Some(j),
    decreases j - i,
{
    if i < j {
        lemma_closing_quote_is(s, i + 1, j);
    }
}

/// Prepends one scanned token to the outcome of scanning the rest.
pub open spec fn lex_cons(t: SpecToken, rest: Result<Seq<SpecToken>, LexError>) -> Result<
    Seq<SpecToken>,
    LexError,
> {
    match rest {
        Ok(ts) => Ok(seq![t] + ts),
        Err(e) => Err(e),
    }
}

/// The tokens of `s` from position `i` on: one classification step on the
/// character at `i`, then recursion on what follows the scanned token.
pub open spec fn spec_lex_at(s: Seq<char>, i: int) -> Result<Seq<SpecToken>, LexError>
    decreases s.len() - i,
    when 0 <= i
    via spec_lex_at_decreases
{
    if i >= s.len() {
        Ok(Seq::empty())
    } else {
        let c = s[i];
        if is_space_char(c) {
            spec_lex_at(s, i + 1)
        } else if c == '+' {
            lex_cons(SpecToken { kind: TokenType::Plus, text: seq![c] }, spec_lex_at(s, i + 1))
        } else if c == '-' {
            lex_cons(SpecToken { kind: TokenType::Minus, text: seq![c] }, spec_lex_at(s, i + 1))
        } else if c == '*' {
            lex_cons(SpecToken { kind: TokenType::Asterisk, text: seq![c] }, spec_lex_at(s, i + 1))
        } else if c == ';' {
            lex_cons(SpecToken { kind: TokenType::Semicolon, text: seq![c] }, spec_lex_at(s, i + 1))
        } else if c == '(' {
            lex_cons(SpecToken { kind: TokenType::Lparen, text: seq![c] }, spec_lex_at(s, i + 1))
        } else if c == ')' {
            lex_cons(SpecToken { kind: TokenType::Rparen, text: seq![c] }, spec_lex_at(s, i + 1))
        } else if c == '{' {
            lex_cons(SpecToken { kind: TokenType::Lbrace, text: seq![c] }, spec_lex_at(s, i + 1))
        } else if c == '}' {
            lex_cons(SpecToken { kind: TokenType::Rbrace, text: seq![c] }, spec_lex_at(s, i + 1))
        } else if c == '=' {
            if i + 1 < s.len() && s[i + 1] == '=' {
                lex_cons(
                    SpecToken { kind: TokenType::Equals, text: seq![c, '='] },
                    spec_lex_at(s, i + 2),
                )
            } else {
                lex_cons(
                    SpecToken { kind: TokenType::Assignment, text: seq![c] },
                    spec_lex_at(s, i + 1),
                )
            }
        } else if c == '!' {
            if i + 1 < s.len() && s[i + 1] == '=' {
                lex_cons(
                    SpecToken { kind: TokenType::Unequal, text: seq![c, '='] },
                    spec_lex_at(s, i + 2),
                )
            } else {
                lex_cons(SpecToken { kind: TokenType::Bang, text: seq![c] }, spec_lex_at(s, i + 1))
            }
        } else if c == '<' {
            if i + 1 < s.len() && s[i + 1] == '=' {
                lex_cons(
                    SpecToken { kind: TokenType::Lteq, text: seq![c, '='] },
                    spec_lex_at(s, i + 2),
                )
            } else {
                lex_cons(SpecToken { kind: TokenType::Lt, text: seq![c] }, spec_lex_at(s, i + 1))
            }
        } else if c == '>' {
            if i + 1 < s.len() && s[i + 1] == '=' {
                lex_cons(
                    SpecToken { kind: TokenType::Gteq, text: seq![c, '='] },
                    spec_lex_at(s, i + 2),
                )
            } else {
                lex_cons(SpecToken { kind: TokenType::Gt, text: seq![c] }, spec_lex_at(s, i + 1))
            }
        } else if c == '"' {
            match closing_quote(s, i + 1) {
                None => Err(LexError::UnterminatedString(i as usize)),
                Some(j) => lex_cons(
                    SpecToken { kind: TokenType::String, text: s.subrange(i + 1, j) },
                    spec_lex_at(s, j + 1),
                ),
            }
        } else if is_alpha_char(c) {
            let k = alnum_run_end(s, i);
            lex_cons(
                SpecToken { kind: spec_keyword_kind(s.subrange(i, k)), text: s.subrange(i, k) },
                spec_lex_at(s, k),
            )
        } else if is_digit_char(c) {
            let k = digit_run_end(s, i);
            lex_cons(
                SpecToken { kind: TokenType::Number, text: s.subrange(i, k) },
                spec_lex_at(s, k),
            )
        } else {
            Err(LexError::UnrecognizedChar(c, i as usize))
        }
    }
}

#[via_fn]
proof fn spec_lex_at_decreases(s: Seq<char>, i: int) {
    if 0 <= i < s.len() {
        lemma_alnum_run_end(s, i);
        lemma_digit_run_end(s, i);
        lemma_closing_quote_bounds(s, i + 1);
    }
}

/// The token sequence of a whole source string, or the first lexical error.
pub open spec fn spec_lex(s: Seq<char>) -> Result<Seq<SpecToken>, LexError> {
    spec_lex_at(s, 0)
}

/// Appends the outcome of scanning the remaining input to the tokens already
/// scanned.
pub open spec fn lex_continue(
    done: Seq<SpecToken>,
    rest: Result<Seq<SpecToken>, LexError>,
) -> Result<Seq<SpecToken>, LexError> {
    match rest {
        Ok(ts) => Ok(done + ts),
        Err(e) => Err(e),
    }
}

proof fn lemma_lex_continue_step(
    done: Seq<SpecToken>,
    t: SpecToken,
    rest: Result<Seq<SpecToken>, LexError>,
)
    ensures
        lex_continue(done, lex_cons(t, rest)) == lex_continue(done.push(t), rest),
{
    match rest {
        Ok(ts) => {
            assert(done + (seq![t] + ts) =~= done.push(t) + ts);
        },
        Err(_) => {},
    }
}

fn is_space(c: char) -> (r: bool)
    ensures
        r == is_space_char(c),
{
    c == ' ' || c == '\t' || c == '\n' || c == '\r'
}

fn is_alpha(c: char) -> (r: bool)
    ensures
        r == is_alpha_char(c),
{
    let u = c as u32;
    (65 <= u && u <= 90) || (97 <= u && u <= 122)
}

fn is_digit(c: char) -> (r: bool)
    ensures
        r == is_digit_char(c),
{
    let u = c as u32;
    48 <= u && u <= 57
}

fn is_alnum(c: char) -> (r: bool)
    ensures
        r == is_alnum_char(c),
{
    is_alpha(c) || is_digit(c)
}

/// Scans the maximal alphanumeric word starting at `from` and classifies it
/// against the keyword table.
fn scan_identifier(s: &str, from: usize) -> (r: (Token, usize))
    requires
        from < s@.len(),
        is_alpha_char(s@[from as int]),
    ensures
        r.1 == alnum_run_end(s@, from as int),
        from < r.1 <= s@.len(),
        r.0@ == (SpecToken {
            kind: spec_keyword_kind(s@.subrange(from as int, r.1 as int)),
            text: s@.subrange(from as int, r.1 as int),
        }),
{
    let len = s.unicode_len();
    let mut end = from;
    while end < len && is_alnum(s.get_char(end))
        invariant
            from <= end <= len,
            len == s@.len(),
            forall|j: int| from <= j < end ==> is_alnum_char(s@[j]),
        decreases len - end,
    {
        end = end + 1;
    }
    proof {
        lemma_alnum_run_end_is(s@, from as int, end as int);
    }
    let word = s.substring_char(from, end);
    (Token::new_with_identifier(word), end)
}

/// Scans the maximal digit run starting at `from` into a `Number` token.
fn scan_number(s: &str, from: usize) -> (r: (Token, usize))
    requires
        from < s@.len(),
        is_digit_char(s@[from as int]),
    ensures
        r.1 == digit_run_end(s@, from as int),
        from < r.1 <= s@.len(),
        r.0@ == (SpecToken {
            kind: TokenType::Number,
            text: s@.subrange(from as int, r.1 as int),
        }),
{
    let len = s.unicode_len();
    let mut end = from;
    while end < len && is_digit(s.get_char(end))
        invariant
            from <= end <= len,
            len == s@.len(),
            forall|j: int| from <= j < end ==> is_digit_char(s@[j]),
        decreases len - end,
    {
        end = end + 1;
    }
    proof {
        lemma_digit_run_end_is(s@, from as int, end as int);
    }
    let digits = s.substring_char(from, end);
    (Token::new(TokenType::Number, String::from_str(digits)), end)
}

/// Scans a string literal whose opening quote stands at `from`: its text is
/// everything up to and excluding the closing quote. A missing closing quote
/// is fatal.
fn scan_string(s: &str, from: usize) -> (r: Result<(Token, usize), LexError>)
    requires
        from < s@.len(),
        s@[from as int] == '"',
    ensures
        match closing_quote(s@, from + 1) {
            Some(j) => r matches Ok(p) && p.0@ == (SpecToken {
                kind: TokenType::String,
                text: s@.subrange(from + 1, j),
            }) && p.1 == j + 1,
            None => r == Err::<(Token, usize), LexError>(LexError::UnterminatedString(from)),
        },
{
    let len = s.unicode_len();
    let mut j = from + 1;
    while j < len && s.get_char(j) != '"'
        invariant
            from + 1 <= j <= len,
            len == s@.len(),
            forall|k: int| from + 1 <= k < j ==> s@[k] != '"',
        decreases len - j,
    {
        j = j + 1;
    }
    if j == len {
        proof {
            lemma_closing_quote_bounds(s@, from + 1);
            if closing_quote(s@, from + 1) is Some {
                let q = closing_quote(s@, from + 1)->Some_0;
                assert(s@[q] != '"');
            }
        }
        return Err(LexError::UnterminatedString(from));
    }
    proof {
        lemma_closing_quote_is(s@, from + 1, j as int);
    }
    let content = s.substring_char(from + 1, j);
    Ok((Token::new(TokenType::String, String::from_str(content)), j + 1))
}

/// Converts a raw source string into its token sequence: exactly the tokens
/// `spec_lex` gives, or its first lexical error.
pub fn lex_program(program: &str) -> (r: Result<Vec<Token>, LexError>)
    ensures
        match r {
            Ok(toks) => spec_lex(program@) == Ok::<Seq<SpecToken>, LexError>(toks.deep_view()),
            Err(e) => spec_lex(program@) == Err::<Seq<SpecToken>, LexError>(e),
        },
{
    let len = program.unicode_len();
    let mut tokens: Vec<Token> = Vec::new();
    let mut i: usize = 0;
    proof {
        assert(tokens.deep_view() + spec_lex_at(program@, 0)->Ok_0 =~= spec_lex_at(
            program@,
            0,
        )->Ok_0);
    }
    while i < len
        invariant
            i <= len,
            len == program@.len(),
            spec_lex(program@) == lex_continue(tokens.deep_view(), spec_lex_at(program@, i as int)),
        decreases len - i,
    {
        let ghost done = tokens.deep_view();
        let ghost rest0 = spec_lex_at(program@, i as int);
        let c = program.get_char(i);
        if is_space(c) {
            i = i + 1;
        } else if c == '+' || c == '-' || c == '*' || c == ';' || c == '(' || c == ')' || c == '{'
            || c == '}' {
            let kind = if c == '+' {
                TokenType::Plus
            } else if c == '-' {
                TokenType::Minus
            } else if c == '*' {
                TokenType::Asterisk
            } else if c == ';' {
                TokenType::Semicolon
            } else if c == '(' {
                TokenType::Lparen
            } else if c == ')' {
                TokenType::Rparen
            } else if c == '{' {
                TokenType::Lbrace
            } else {
                TokenType::Rbrace
            };
            let lit = program.substring_char(i, i + 1);
            let t = Token::new(kind, String::from_str(lit));
            proof {
                assert(program@.subrange(i as int, i + 1) =~= seq![c]);
                lemma_lex_continue_step(done, t@, spec_lex_at(program@, i + 1));
                assert(tokens.deep_view().push(t@) =~= done.push(t@));
            }
            tokens.push(t);
            proof {
                assert(tokens.deep_view() =~= done.push(t@));
            }
            i = i + 1;
        } else if c == '=' || c == '!' || c == '<' || c == '>' {
            let two = i + 1 < len && program.get_char(i + 1) == '=';
            let kind = if c == '=' {
                if two {
                    TokenType::Equals
                } else {
                    TokenType::Assignment
                }
            } else if c == '!' {
                if two {
                    TokenType::Unequal
                } else {
                    TokenType::Bang
                }
            } else if c == '<' {
                if two {
                    TokenType::Lteq
                } else {
                    TokenType::Lt
                }
            } else {
                if two {
                    TokenType::Gteq
                } else {
                    TokenType::Gt
                }
            };
            let next = if two {
                i + 2
            } else {
                i + 1
            };
            let lit = program.substring_char(i, next);
            let t = Token::new(kind, String::from_str(lit));
            proof {
                if two {
                    assert(program@.subrange(i as int, i + 2) =~= seq![c, '=']);
                } else {
                    assert(program@.subrange(i as int, i + 1) =~= seq![c]);
                }
                lemma_lex_continue_step(done, t@, spec_lex_at(program@, next as int));
            }
            tokens.push(t);
            proof {
                assert(tokens.deep_view() =~= done.push(t@));
            }
            i = next;
        } else if c == '"' {
            match scan_string(program, i) {
                Ok((t, next)) => {
                    proof {
                        lemma_closing_quote_bounds(program@, i + 1);
                        lemma_lex_continue_step(done, t@, spec_lex_at(program@, next as int));
                    }
                    tokens.push(t);
                    proof {
                        assert(tokens.deep_view() =~= done.push(t@));
                    }
                    i = next;
                },
                Err(e) => {
                    return Err(e);
                },
            }
        } else if is_alpha(c) {
            let (t, next) = scan_identifier(program, i);
            proof {
                lemma_lex_continue_step(done, t@, spec_lex_at(program@, next as int));
            }
            tokens.push(t);
            proof {
                assert(tokens.deep_view() =~= done.push(t@));
            }
            i = next;
        } else if is_digit(c) {
            let (t, next) = scan_number(program, i);
            proof {
                lemma_lex_continue_step(done, t@, spec_lex_at(program@, next as int));
            }
            tokens.push(t);
            proof {
                assert(tokens.deep_view() =~= done.push(t@));
            }
            i = next;
        } else {
            return Err(LexError::UnrecognizedChar(c, i));
        }
    }
    proof {
        assert(tokens.deep_view() + Seq::<SpecToken>::empty() =~= tokens.deep_view());
    }
    Ok(tokens)
}

proof fn lemma_wf_cons(t: SpecToken, rest: Result<Seq<SpecToken>, LexError>)
    requires
        token_wf(t),
        rest is Ok ==> forall|j: int|
            0 <= j < rest->Ok_0.len() ==> token_wf(#[trigger] rest->Ok_0[j]),
    ensures
        lex_cons(t, rest) is Ok ==> forall|j: int|
            0 <= j < lex_cons(t, rest)->Ok_0.len() ==> token_wf(#[trigger] lex_cons(t, rest)->Ok_0[j]),
{
    match rest {
        Ok(ts) => {
            let all = seq![t] + ts;
            assert forall|j: int| 0 <= j < all.len() implies token_wf(all[j]) by {
                if j == 0 {
                    assert(all[0] == t);
                } else {
                    assert(all[j] == ts[j - 1]);
                }
            }
        },
        Err(_) => {},
    }
}

proof fn lemma_lex_at_tokens_wf(s: Seq<char>, i: int)
    requires
        0 <= i,
    ensures
        spec_lex_at(s, i) is Ok ==> forall|j: int|
            0 <= j < spec_lex_at(s, i)->Ok_0.len() ==> token_wf(
                #[trigger] spec_lex_at(s, i)->Ok_0[j],
            ),
    decreases s.len() - i,
{
    if i < s.len() {
        let c = s[i];
        if is_space_char(c) {
            lemma_lex_at_tokens_wf(s, i + 1);
        } else if c == '+' {
            lemma_lex_at_tokens_wf(s, i + 1);
            lemma_wf_cons(
                SpecToken { kind: TokenType::Plus, text: seq![c] },
                spec_lex_at(s, i + 1),
            );
        } else if c == '-' {
            lemma_lex_at_tokens_wf(s, i + 1);
            lemma_wf_cons(
                SpecToken { kind: TokenType::Minus, text: seq![c] },
                spec_lex_at(s, i + 1),
            );
        } else if c == '*' {
            lemma_lex_at_tokens_wf(s, i + 1);
            lemma_wf_cons(
                SpecToken { kind: TokenType::Asterisk, text: seq![c] },
                spec_lex_at(s, i + 1),
            );
        } else if c == ';' {
            lemma_lex_at_tokens_wf(s, i + 1);
            lemma_wf_cons(
                SpecToken { kind: TokenType::Semicolon, text: seq![c] },
                spec_lex_at(s, i + 1),
            );
        } else if c == '(' {
            lemma_lex_at_tokens_wf(s, i + 1);
            lemma_wf_cons(
                SpecToken { kind: TokenType::Lparen, text: seq![c] },
                spec_lex_at(s, i + 1),
            );
        } else if c == ')' {
            lemma_lex_at_tokens_wf(s, i + 1);
            lemma_wf_cons(
                SpecToken { kind: TokenType::Rparen, text: seq![c] },
                spec_lex_at(s, i + 1),
            );
        } else if c == '{' {
            lemma_lex_at_tokens_wf(s, i + 1);
            lemma_wf_cons(
                SpecToken { kind: TokenType::Lbrace, text: seq![c] },
                spec_lex_at(s, i + 1),
            );
        } else if c == '}' {
            lemma_lex_at_tokens_wf(s, i + 1);
            lemma_wf_cons(
                SpecToken { kind: TokenType::Rbrace, text: seq![c] },
                spec_lex_at(s, i + 1),
            );
        } else if c == '=' || c == '!' || c == '<' || c == '>' {
            if i + 1 < s.len() && s[i + 1] == '=' {
                lemma_lex_at_tokens_wf(s, i + 2);
                let kind = if c == '=' {
                    TokenType::Equals
                } else if c == '!' {
                    TokenType::Unequal
                } else if c == '<' {
                    TokenType::Lteq
                } else {
                    TokenType::Gteq
                };
                lemma_wf_cons(
                    SpecToken { kind, text: seq![c, '='] },
                    spec_lex_at(s, i + 2),
                );
            } else {
                lemma_lex_at_tokens_wf(s, i + 1);
                let kind = if c == '=' {
                    TokenType::Assignment
                } else if c == '!' {
                    TokenType::Bang
                } else if c == '<' {
                    TokenType::Lt
                } else {
                    TokenType::Gt
                };
                lemma_wf_cons(SpecToken { kind, text: seq![c] }, spec_lex_at(s, i + 1));
            }
        } else if c == '"' {
            lemma_closing_quote_bounds(s, i + 1);
            match closing_quote(s, i + 1) {
                None => {},
                Some(j) => {
                    lemma_lex_at_tokens_wf(s, j + 1);
                    let text = s.subrange(i + 1, j);
                    assert(forall|x: int| 0 <= x < text.len() ==> text[x] == s[i + 1 + x]);
                    lemma_wf_cons(
                        SpecToken { kind: TokenType::String, text },
                        spec_lex_at(s, j + 1),
                    );
                },
            }
        } else if is_alpha_char(c) {
            lemma_alnum_run_end(s, i);
            let k = alnum_run_end(s, i);
            lemma_lex_at_tokens_wf(s, k);
            let text = s.subrange(i, k);
            assert(forall|x: int| 0 <= x < text.len() ==> text[x] == s[i + x]);
            assert(text[0] == c);
            lemma_wf_cons(
                SpecToken { kind: spec_keyword_kind(text), text },
                spec_lex_at(s, k),
            );
        } else if is_digit_char(c) {
            lemma_digit_run_end(s, i);
            let k = digit_run_end(s, i);
            lemma_lex_at_tokens_wf(s, k);
            let text = s.subrange(i, k);
            assert(forall|x: int| 0 <= x < text.len() ==> text[x] == s[i + x]);
            lemma_wf_cons(
                SpecToken { kind: TokenType::Number, text },
                spec_lex_at(s, k),
            );
        }
    }
}

/// Every token the lexer produces is well formed: its text is consistent
/// with its kind, as `token_wf` states it.
pub proof fn lemma_lex_well_formed(s: Seq<char>)
    ensures
        spec_lex(s) is Ok ==> forall|j: int|
            0 <= j < spec_lex(s)->Ok_0.len() ==> token_wf(#[trigger] spec_lex(s)->Ok_0[j]),
{
    lemma_lex_at_tokens_wf(s, 0);
}

/// A nonempty decimal digit string lexes to a single `Number` token whose
/// text is the digit string itself: re-rendering the token's text round-trips
/// to the original spelling.
pub proof fn lemma_lex_number_round_trip(s: Seq<char>)
    requires
        s.len() > 0,
        all_digits(s),
        digits_val(s) <= i64::MAX,
    ensures
        spec_lex(s) == Ok::<Seq<SpecToken>, LexError>(
            seq![SpecToken { kind: TokenType::Number, text: s }],
        ),
{
    let c = s[0];
    assert(is_digit_char(c));
    lemma_digit_run_end_is(s, 0, s.len() as int);
    assert(s.subrange(0, s.len() as int) =~= s);
    let tok = SpecToken { kind: TokenType::Number, text: s };
    assert(spec_lex_at(s, s.len() as int) == Ok::<Seq<SpecToken>, LexError>(Seq::empty()));
    assert(seq![tok] + Seq::<SpecToken>::empty() =~= seq![tok]);
}

/// A quoted string whose content holds no `"` lexes to a single `String`
/// token whose text is exactly that content, internal whitespace included.
pub proof fn lemma_lex_string_literal(s: Seq<char>)
    requires
        forall|i: int| 0 <= i < s.len() ==> s[i] != '"',
    ensures
        spec_lex(seq!['"'] + s + seq!['"']) == Ok::<Seq<SpecToken>, LexError>(
            seq![SpecToken { kind: TokenType::String, text: s }],
        ),
{
    let t = seq!['"'] + s + seq!['"'];
    let n = s.len() as int;
    assert(t.len() == n + 2);
    assert(t[0] == '"');
    assert(forall|k: int| 1 <= k < n + 1 ==> t[k] == s[k - 1]);
    assert(t[n + 1] == '"');
    lemma_closing_quote_is(t, 1, n + 1);
    assert(t.subrange(1, n + 1) =~= s);
    let tok = SpecToken { kind: TokenType::String, text: s };
    assert(spec_lex_at(t, n + 2) == Ok::<Seq<SpecToken>, LexError>(Seq::empty()));
    assert(seq![tok] + Seq::<SpecToken>::empty() =~= seq![tok]);
}

/// A bare alphabetic word lexes to a single token classified by the keyword
/// table: each of the six keyword spellings gives its keyword kind, and every
/// other word gives an `Identifier` token.
pub proof fn lemma_lex_word(s: Seq<char>)
    requires
        s.len() > 0,
        forall|i: int| 0 <= i < s.len() ==> is_alpha_char(s[i]),
    ensures
        spec_lex(s) == Ok::<Seq<SpecToken>, LexError>(
            seq![SpecToken { kind: spec_keyword_kind(s), text: s }],
        ),
{
    let c = s[0];
    assert(is_alpha_char(c));
    assert(forall|i: int| 0 <= i < s.len() ==> is_alnum_char(s[i]));
    lemma_alnum_run_end_is(s, 0, s.len() as int);
    assert(s.subrange(0, s.len() as int) =~= s);
    let tok = SpecToken { kind: spec_keyword_kind(s), text: s };
    assert(spec_lex_at(s, s.len() as int) == Ok::<Seq<SpecToken>, LexError>(Seq::empty()));
    assert(seq![tok] + Seq::<SpecToken>::empty() =~= seq![tok]);
}

} // verus!
