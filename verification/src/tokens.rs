//! The token vocabulary shared by the lexer, the parser and the code
//! generator: token kinds, the `Token` type carrying a kind and its lexeme,
//! and the numeric reading of a digit lexeme.

use vstd::prelude::*;

verus! {

/// Every kind of token the scanner can produce.
#[derive(Debug, Clone, Copy, PartialEq, Eq, Structural)]
pub enum TokenType {
    Identifier,
    String,
    Number,
    Assignment,
    Plus,
    Minus,
    Asterisk,
    Semicolon,
    Bang,
    Equals,
    Unequal,
    Lt,
    Gt,
    Lteq,
    Gteq,
    Lparen,
    Rparen,
    Lbrace,
    Rbrace,
    KeywordIf,
    KeywordPrint,
    KeywordReturn,
    KeywordWhile,
    KeywordLet,
    KeywordFn,
}

/// The mathematical model of a token: its kind and the lexeme's characters.
pub struct SpecToken {
    pub kind: TokenType,
    pub text: Seq<char>,
}

/// A token: a kind together with the literal lexeme it was scanned from.
#[derive(Debug, Clone, PartialEq)]
pub struct Token {
    pub token_type: TokenType,
    pub literal: String,
}

impl View for Token {
    type V = SpecToken;

    open spec fn view(&self) -> SpecToken {
        SpecToken { kind: self.token_type, text: self.literal@ }
    }
}

impl DeepView for Token {
    type V = SpecToken;

    open spec fn deep_view(&self) -> SpecToken {
        self@
    }
}

/// Whitespace separating tokens: blank, tab, line feed or carriage return.
pub open spec fn is_space_char(c: char) -> bool {
    c == ' ' || c == '\t' || c == '\n' || c == '\r'
}

/// An ASCII decimal digit.
pub open spec fn is_digit_char(c: char) -> bool {
    48 <= c as u32 && c as u32 <= 57
}

/// An ASCII letter.
pub open spec fn is_alpha_char(c: char) -> bool {
    (65 <= c as u32 && c as u32 <= 90) || (97 <= c as u32 && c as u32 <= 122)
}

/// An ASCII letter or digit: the characters an identifier run may contain.
pub open spec fn is_alnum_char(c: char) -> bool {
    is_alpha_char(c) || is_digit_char(c)
}

/// The numeric value of one digit character.
pub open spec fn digit_val(c: char) -> nat {
    (c as u32 - 48) as nat
}

/// Whether every character of `s` is an ASCII decimal digit.
pub open spec fn all_digits(s: Seq<char>) -> bool {
    forall|i: int| 0 <= i < s.len() ==> is_digit_char(s[i])
}

/// The value of a digit string read as a decimal number.
pub open spec fn digits_val(s: Seq<char>) -> nat
    decreases s.len(),
{
    if s.len() == 0 {
        0
    } else {
        digits_val(s.drop_last()) * 10 + digit_val(s.last())
    }
}

/// The kind an alphanumeric word lexes to: one of the six keywords when it is
/// spelled exactly so, and `Identifier` otherwise.
pub open spec fn spec_keyword_kind(text: Seq<char>) -> TokenType {
    if text == "if"@ {
        TokenType::KeywordIf
    } else if text == "print"@ {
        TokenType::KeywordPrint
    } else if text == "return"@ {
        TokenType::KeywordReturn
    } else if text == "while"@ {
        TokenType::KeywordWhile
    } else if text == "let"@ {
        TokenType::KeywordLet
    } else if text == "fn"@ {
        TokenType::KeywordFn
    } else {
        TokenType::Identifier
    }
}

/// The digit character for one decimal digit value.
pub open spec fn dec_digit_char(d: nat) -> char {
    if d == 0 {
        '0'
    } else if d == 1 {
        '1'
    } else if d == 2 {
        '2'
    } else if d == 3 {
        '3'
    } else if d == 4 {
        '4'
    } else if d == 5 {
        '5'
    } else if d == 6 {
        '6'
    } else if d == 7 {
        '7'
    } else if d == 8 {
        '8'
    } else {
        '9'
    }
}

/// The canonical decimal spelling of a natural number: no sign, no leading
/// zeros (except for zero itself).
pub open spec fn dec_str(n: nat) -> Seq<char>
    decreases n,
{
    if n < 10 {
        seq![dec_digit_char(n)]
    } else {
        dec_str(n / 10) + seq![dec_digit_char(n % 10)]
    }
}

/// The canonical decimal spelling of an integer, with a leading minus sign
/// when it is negative.
pub open spec fn int_str(v: int) -> Seq<char> {
    if v >= 0 {
        dec_str(v as nat)
    } else {
        seq!['-'] + dec_str((-v) as nat)
    }
}

/// The one-character string spelling a decimal digit.
fn digit_str(d: u64) -> (r: &'static str)
    requires
        d <= 9,
    ensures
        r@ == seq![dec_digit_char(d as nat)],
{
    proof {
        reveal_strlit("0");
        reveal_strlit("1");
        reveal_strlit("2");
        reveal_strlit("3");
        reveal_strlit("4");
        reveal_strlit("5");
        reveal_strlit("6");
        reveal_strlit("7");
        reveal_strlit("8");
        reveal_strlit("9");
    }
    let r = if d == 0 {
        "0"
    } else if d == 1 {
        "1"
    } else if d == 2 {
        "2"
    } else if d == 3 {
        "3"
    } else if d == 4 {
        "4"
    } else if d == 5 {
        "5"
    } else if d == 6 {
        "6"
    } else if d == 7 {
        "7"
    } else if d == 8 {
        "8"
    } else {
        "9"
    };
    proof {
        assert(r@ =~= seq![dec_digit_char(d as nat)]);
    }
    r
}

/// Renders a natural number as its decimal spelling.
pub fn u64_to_string(n: u64) -> (s: String)
    ensures
        s@ == dec_str(n as nat),
    decreases n,
{
    if n < 10 {
        String::from_str(digit_str(n))
    } else {
        let mut s = u64_to_string(n / 10);
        let tail = digit_str(n % 10);
        s.append(tail);
        s
    }
}

/// Renders a 64-bit signed integer as its decimal spelling.
pub fn i64_to_string(v: i64) -> (s: String)
    ensures
        s@ == int_str(v as int),
{
    if v >= 0 {
        u64_to_string(v as u64)
    } else {
        let mag: u64 = if v == i64::MIN {
            9223372036854775808u64
        } else {
            (-v) as u64
        };
        proof {
            reveal_strlit("-");
            assert("-"@ =~= seq!['-']);
        }
        let mut s = String::from_str("-");
        let tail = u64_to_string(mag);
        s.append(tail.as_str());
        s
    }
}

/// Whether a token's text is consistent with its kind: a number holds a
/// nonempty digit run, an identifier a non-keyword alphanumeric word starting
/// with a letter, a string any content without a quote, and every symbol and
/// keyword its canonical spelling. Every token the lexer constructs satisfies
/// this.
pub open spec fn token_wf(t: SpecToken) -> bool {
    match t.kind {
        TokenType::Identifier => t.text.len() > 0 && is_alpha_char(t.text[0]) && (forall|i: int|
            0 <= i < t.text.len() ==> is_alnum_char(t.text[i])) && spec_keyword_kind(t.text)
            == TokenType::Identifier,
        TokenType::String => forall|i: int| 0 <= i < t.text.len() ==> t.text[i] != '"',
        TokenType::Number => t.text.len() > 0 && all_digits(t.text),
        TokenType::Assignment => t.text == seq!['='],
        TokenType::Plus => t.text == seq!['+'],
        TokenType::Minus => t.text == seq!['-'],
        TokenType::Asterisk => t.text == seq!['*'],
        TokenType::Semicolon => t.text == seq![';'],
        TokenType::Bang => t.text == seq!['!'],
        TokenType::Equals => t.text == seq!['=', '='],
        TokenType::Unequal => t.text == seq!['!', '='],
        TokenType::Lt => t.text == seq!['<'],
        TokenType::Gt => t.text == seq!['>'],
        TokenType::Lteq => t.text == seq!['<', '='],
        TokenType::Gteq => t.text == seq!['>', '='],
        TokenType::Lparen => t.text == seq!['('],
        TokenType::Rparen => t.text == seq![')'],
        TokenType::Lbrace => t.text == seq!['{'],
        TokenType::Rbrace => t.text == seq!['}'],
        TokenType::KeywordIf => t.text == "if"@,
        TokenType::KeywordPrint => t.text == "print"@,
        TokenType::KeywordReturn => t.text == "return"@,
        TokenType::KeywordWhile => t.text == "while"@,
        TokenType::KeywordLet => t.text == "let"@,
        TokenType::KeywordFn => t.text == "fn"@,
    }
}

/// A `Number` token whose digit string names a value within the 64-bit signed
/// range: the tokens `to_numeric` is defined on.
pub open spec fn numeric_token_in_range(t: SpecToken) -> bool {
    &&& t.kind == TokenType::Number
    &&& t.text.len() > 0
    &&& all_digits(t.text)
    &&& digits_val(t.text) <= i64::MAX
}

/// Character-by-character string equality.
pub fn str_eq(a: &str, b: &str) -> (r: bool)
    ensures
        r == (a@ == b@),
{
    let alen = a.unicode_len();
    let blen = b.unicode_len();
    if alen != blen {
        return false;
    }
    let mut i: usize = 0;
    while i < alen
        invariant
            i <= alen,
            alen == a@.len(),
            alen == b@.len(),
            forall|j: int| 0 <= j < i ==> a@[j] == b@[j],
        decreases alen - i,
    {
        if a.get_char(i) != b.get_char(i) {
            return false;
        }
        i = i + 1;
    }
    proof {
        assert(a@ =~= b@);
    }
    true
}

/// A prefix of a digit string never names a larger value than the whole.
proof fn lemma_digits_val_take_le(s: Seq<char>, i: int, j: int)
    requires
        0 <= i <= j <= s.len(),
    ensures
        digits_val(s.take(i)) <= digits_val(s.take(j)),
    decreases j - i,
{
    if i < j {
        lemma_digits_val_take_le(s, i, j - 1);
        assert(s.take(j).drop_last() =~= s.take(j - 1));
        let v = digits_val(s.take(j - 1));
        let d = digit_val(s.take(j).last());
        assert(v * 10 + d >= v) by (nonlinear_arith);
    }
}

/// The guard `acc > (i64::MAX - d) / 10` is exact: it holds precisely when
/// appending the digit `d` would push the accumulated value past `i64::MAX`.
proof fn lemma_append_digit_overflow(acc: int, d: int)
    requires
        0 <= acc,
        0 <= d <= 9,
    ensures
        acc > (i64::MAX - d) / 10 <==> acc * 10 + d > i64::MAX,
{
    let q = (i64::MAX - d) / 10;
    let r = (i64::MAX - d) % 10;
    vstd::arithmetic::div_mod::lemma_fundamental_div_mod(i64::MAX - d, 10);
    assert(i64::MAX - d == 10 * q + r);
    if acc <= q {
        vstd::arithmetic::mul::lemma_mul_inequality(acc, q, 10);
        assert(acc * 10 <= q * 10);
    } else {
        vstd::arithmetic::mul::lemma_mul_inequality(q + 1, acc, 10);
        assert((q + 1) * 10 <= acc * 10);
    }
}

impl Token {
    /// Builds a token from a kind and its lexeme.
    pub fn new(token_type: TokenType, literal: String) -> (t: Token)
        ensures
            t@.kind == token_type,
            t@.text == literal@,
    {
        Token { token_type, literal }
    }

    /// Builds a token from an alphanumeric word, classifying it as a keyword
    /// or an identifier.
    pub fn new_with_identifier(literal: &str) -> (t: Token)
        ensures
            t@.kind == spec_keyword_kind(literal@),
            t@.text == literal@,
    {
        let token_type = Self::type_given_identifier(literal);
        Token { token_type, literal: String::from_str(literal) }
    }

    /// Classifies an alphanumeric word against the fixed keyword table.
    pub fn type_given_identifier(identifier: &str) -> (k: TokenType)
        ensures
            k == spec_keyword_kind(identifier@),
    {
        if str_eq(identifier, "if") {
            TokenType::KeywordIf
        } else if str_eq(identifier, "print") {
            TokenType::KeywordPrint
        } else if str_eq(identifier, "return") {
            TokenType::KeywordReturn
        } else if str_eq(identifier, "while") {
            TokenType::KeywordWhile
        } else if str_eq(identifier, "let") {
            TokenType::KeywordLet
        } else if str_eq(identifier, "fn") {
            TokenType::KeywordFn
        } else {
            TokenType::Identifier
        }
    }

    /// Reads this token's digit string as a decimal number, reporting `None`
    /// when the token is not a `Number`, its text is not a nonempty digit
    /// run, or the value exceeds the 64-bit signed range.
    pub fn to_numeric_checked(&self) -> (r: Option<i64>)
        ensures
            match r {
                Some(v) => numeric_token_in_range(self@) && v == digits_val(self@.text),
                None => !numeric_token_in_range(self@),
            },
    {
        if self.token_type != TokenType::Number {
            return None;
        }
        let s: &str = self.literal.as_str();
        let len = s.unicode_len();
        if len == 0 {
            return None;
        }
        let mut acc: i64 = 0;
        let mut i: usize = 0;
        while i < len
            invariant
                i <= len,
                len == s@.len(),
                s@ == self@.text,
                all_digits(s@.take(i as int)),
                acc == digits_val(s@.take(i as int)),
            decreases len - i,
        {
            let c = s.get_char(i);
            let u = c as u32;
            if !(48 <= u && u <= 57) {
                return None;
            }
            let d: i64 = (u - 48) as i64;
            proof {
                assert(s@.take(i + 1).drop_last() =~= s@.take(i as int));
                assert(s@.take(i + 1).last() == s@[i as int]);
                lemma_append_digit_overflow(acc as int, d as int);
            }
            if acc > (i64::MAX - d) / 10 {
                proof {
                    lemma_digits_val_take_le(s@, i + 1, s@.len() as int);
                    assert(s@.take(s@.len() as int) =~= s@);
                }
                return None;
            }
            acc = acc * 10 + d;
            i = i + 1;
        }
        proof {
            assert(s@.take(len as int) =~= s@);
        }
        Some(acc)
    }

    /// Reads this token's digit string as a decimal number. Defined only on
    /// `Number` tokens whose value fits the 64-bit signed range; the checked
    /// reading above covers every other token.
    pub fn to_numeric(&self) -> (v: i64)
        requires
            numeric_token_in_range(self@),
        ensures
            v == digits_val(self@.text),
    {
        let r = self.to_numeric_checked();
        if let Some(v) = r {
            v
        } else {
            proof {
                assert(false);
            }
            0
        }
    }
}

} // verus!
