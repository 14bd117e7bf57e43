//! The recursive-descent expression parser: an explicit index into the token
//! sequence drives each parsing step, and every step reports the node it
//! produced (a semicolon produces none) together with how many tokens it
//! consumed.

use vstd::prelude::*;

use crate::tokens::{
    Token, TokenType, SpecToken, digits_val, numeric_token_in_range, int_str,
};

verus! {

/// The kind of an AST node.
#[derive(Debug, Clone, Copy, PartialEq, Eq, Structural)]
pub enum ExpressionType {
    Identifier,
    Number,
    String,
    Prefix,
    Infix,
    Return,
}

/// A fatal parse error: parsing aborts at the first one.
#[derive(Debug, Clone, Copy, PartialEq, Eq)]
pub enum ParseError {
    /// The token sequence ended where an expression was still owed.
    UnexpectedEnd,
    /// A token kind with no grammar rule at its position.
    UnsupportedToken(TokenType),
    /// A `Number` token whose text is not a digit run naming a value within
    /// the 64-bit signed range.
    InvalidNumericLiteral,
    /// An operator or keyword whose operand position produced no expression.
    MissingOperand,
    /// An infix operator with no literal token immediately before it.
    MissingLeftOperand,
    /// A prefix operator applied to a `return`: `return` is a statement, not
    /// a value.
    CannotNegateReturn,
    /// A `return` wrapping another `return`.
    CannotReturnReturn,
}

/// The mathematical model of an AST node.
#[allow(inconsistent_fields)]
pub enum SpecExpr {
    Identifier { token: SpecToken },
    Number { token: SpecToken, value: i64 },
    String { token: SpecToken },
    Prefix { token: SpecToken, right: Box<SpecExpr> },
    Infix { token: SpecToken, left: Box<SpecExpr>, right: Box<SpecExpr> },
    Return { token: SpecToken, value: Box<SpecExpr> },
}

impl SpecExpr {
    /// The kind of this node.
    pub open spec fn kind(&self) -> ExpressionType {
        match self {
            SpecExpr::Identifier { .. } => ExpressionType::Identifier,
            SpecExpr::Number { .. } => ExpressionType::Number,
            SpecExpr::String { .. } => ExpressionType::String,
            SpecExpr::Prefix { .. } => ExpressionType::Prefix,
            SpecExpr::Infix { .. } => ExpressionType::Infix,
            SpecExpr::Return { .. } => ExpressionType::Return,
        }
    }

    /// The short rendering of this node: a number's decimal value, another
    /// literal's text, and an operator's or keyword's lexeme.
    pub open spec fn spec_as_str(&self) -> Seq<char> {
        match self {
            SpecExpr::Identifier { token } => token.text,
            SpecExpr::Number { token, value } => int_str(*value as int),
            SpecExpr::String { token } => token.text,
            SpecExpr::Prefix { token, .. } => token.text,
            SpecExpr::Infix { token, .. } => token.text,
            SpecExpr::Return { token, .. } => token.text,
        }
    }
}

/// A literal carrying an identifier token.
#[derive(Debug, PartialEq)]
pub struct IdentifierExpression {
    pub token: Token,
}

/// A literal carrying a number token and the value its digits name.
#[derive(Debug, PartialEq)]
pub struct NumberLiteralExpression {
    pub token: Token,
    pub value: i64,
}

/// A literal carrying a string token.
#[derive(Debug, PartialEq)]
pub struct StringLiteralExpression {
    pub token: Token,
}

/// A unary operator applied to one operand.
#[derive(Debug, PartialEq)]
pub struct PrefixExpression {
    pub token: Token,
    pub right: Box<Expression>,
}

/// A binary operator applied to two operands.
#[derive(Debug, PartialEq)]
pub struct InfixExpression {
    pub token: Token,
    pub left: Box<Expression>,
    pub right: Box<Expression>,
}

/// A `return` statement wrapping the value to return.
#[derive(Debug, PartialEq)]
pub struct ReturnExpression {
    pub token: Token,
    pub value: Box<Expression>,
}

/// An AST node: a closed sum over the node kinds. Each node exclusively owns
/// its children.
#[derive(Debug, PartialEq)]
pub enum Expression {
    Identifier(IdentifierExpression),
    Number(NumberLiteralExpression),
    String(StringLiteralExpression),
    Prefix(PrefixExpression),
    Infix(InfixExpression),
    Return(ReturnExpression),
}

impl Expression {
    /// The mathematical model of this node.
    pub open spec fn model(&self) -> SpecExpr
        decreases self,
    {
        match self {
            Expression::Identifier(e) => SpecExpr::Identifier { token: e.token@ },
            Expression::Number(e) => SpecExpr::Number { token: e.token@, value: e.value },
            Expression::String(e) => SpecExpr::String { token: e.token@ },
            Expression::Prefix(e) => SpecExpr::Prefix {
                token: e.token@,
                right: Box::new(e.right.model()),
            },
            Expression::Infix(e) => SpecExpr::Infix {
                token: e.token@,
                left: Box::new(e.left.model()),
                right: Box::new(e.right.model()),
            },
            Expression::Return(e) => SpecExpr::Return {
                token: e.token@,
                value: Box::new(e.value.model()),
            },
        }
    }

    /// The kind of this node.
    pub fn get_type(&self) -> (t: ExpressionType)
        ensures
            t == self.model().kind(),
    {
        match self {
            Expression::Identifier(_) => ExpressionType::Identifier,
            Expression::Number(_) => ExpressionType::Number,
            Expression::String(_) => ExpressionType::String,
            Expression::Prefix(_) => ExpressionType::Prefix,
            Expression::Infix(_) => ExpressionType::Infix,
            Expression::Return(_) => ExpressionType::Return,
        }
    }

    /// The short rendering of this node: a number's decimal value, another
    /// literal's text, and an operator's or keyword's lexeme.
    pub fn as_str(&self) -> (s: String)
        ensures
            s@ == self.model().spec_as_str(),
    {
        match self {
            Expression::Identifier(e) => e.token.literal.clone(),
            Expression::Number(e) => crate::tokens::i64_to_string(e.value),
            Expression::String(e) => e.token.literal.clone(),
            Expression::Prefix(e) => e.token.literal.clone(),
            Expression::Infix(e) => e.token.literal.clone(),
            Expression::Return(e) => e.token.literal.clone(),
        }
    }
}

impl View for Expression {
    type V = SpecExpr;

    open spec fn view(&self) -> SpecExpr {
        self.model()
    }
}

impl DeepView for Expression {
    type V = SpecExpr;

    open spec fn deep_view(&self) -> SpecExpr {
        self.model()
    }
}

/// The node a single literal token parses to. A `Number` token must spell a
/// value within the 64-bit signed range.
pub open spec fn spec_literal(t: SpecToken) -> Result<SpecExpr, ParseError> {
    match t.kind {
        TokenType::Number => if numeric_token_in_range(t) {
            Ok(SpecExpr::Number { token: t, value: digits_val(t.text) as i64 })
        } else {
            Err(ParseError::InvalidNumericLiteral)
        },
        TokenType::String => Ok(SpecExpr::String { token: t }),
        TokenType::Identifier => Ok(SpecExpr::Identifier { token: t }),
        _ => Err(ParseError::UnsupportedToken(t.kind)),
    }
}

/// Whether a token kind is a literal: the kinds that may stand as an infix
/// operand.
pub open spec fn is_literal_kind(k: TokenType) -> bool {
    k == TokenType::Number || k == TokenType::String || k == TokenType::Identifier
}

/// Whether a token kind is an additive infix operator.
pub open spec fn is_infix_kind(k: TokenType) -> bool {
    k == TokenType::Plus || k == TokenType::Minus
}

/// One parsing step at position `from`: the node produced there (none for a
/// semicolon) and the number of tokens consumed, or the first parse error.
///
/// A literal parse consumes one token; when the next token is an additive
/// operator the step continues into the infix rule, so that an additive chain
/// parses into a right-leaning tree whose surface reading stays
/// left-associative. A step re-entered directly at an operator takes the
/// token before it as the left operand, re-parsed as a literal.
pub open spec fn spec_parse_expr(toks: Seq<SpecToken>, from: int) -> Result<
    (Option<SpecExpr>, int),
    ParseError,
>
    decreases toks.len() - from,
    when 0 <= from
{
    if from >= toks.len() {
        Err(ParseError::UnexpectedEnd)
    } else {
        let t = toks[from];
        match t.kind {
            TokenType::Semicolon => Ok((None, 1)),
            TokenType::Number | TokenType::String | TokenType::Identifier => {
                match spec_literal(t) {
                    Err(e) => Err(e),
                    Ok(lit) => if from + 1 < toks.len() && is_infix_kind(toks[from + 1].kind) {
                        match spec_parse_expr(toks, from + 2) {
                            Err(e) => Err(e),
                            Ok((None, _)) => Err(ParseError::MissingOperand),
                            Ok((Some(right), adv)) => Ok(
                                (
                                    Some(
                                        SpecExpr::Infix {
                                            token: toks[from + 1],
                                            left: Box::new(lit),
                                            right: Box::new(right),
                                        },
                                    ),
                                    2 + adv,
                                ),
                            ),
                        }
                    } else {
                        Ok((Some(lit), 1))
                    },
                }
            },
            TokenType::Bang => match spec_parse_expr(toks, from + 1) {
                Err(e) => Err(e),
                Ok((None, _)) => Err(ParseError::MissingOperand),
                Ok((Some(operand), adv)) => if operand.kind() == ExpressionType::Return {
                    Err(ParseError::CannotNegateReturn)
                } else {
                    Ok(
                        (
                            Some(SpecExpr::Prefix { token: t, right: Box::new(operand) }),
                            1 + adv,
                        ),
                    )
                },
            },
            TokenType::KeywordReturn => match spec_parse_expr(toks, from + 1) {
                Err(e) => Err(e),
                Ok((None, _)) => Err(ParseError::MissingOperand),
                Ok((Some(value), adv)) => if value.kind() == ExpressionType::Return {
                    Err(ParseError::CannotReturnReturn)
                } else {
                    Ok(
                        (Some(SpecExpr::Return { token: t, value: Box::new(value) }), 1 + adv),
                    )
                },
            },
            TokenType::Plus | TokenType::Minus => {
                if from == 0 || !is_literal_kind(toks[from - 1].kind) {
                    Err(ParseError::MissingLeftOperand)
                } else {
                    match spec_literal(toks[from - 1]) {
                        Err(e) => Err(e),
                        Ok(lit) => match spec_parse_expr(toks, from + 1) {
                            Err(e) => Err(e),
                            Ok((None, _)) => Err(ParseError::MissingOperand),
                            Ok((Some(right), adv)) => Ok(
                                (
                                    Some(
                                        SpecExpr::Infix {
                                            token: t,
                                            left: Box::new(lit),
                                            right: Box::new(right),
                                        },
                                    ),
                                    1 + adv,
                                ),
                            ),
                        },
                    }
                }
            },
            _ => Err(ParseError::UnsupportedToken(t.kind)),
        }
    }
}

/// A successful parsing step consumes at least one token and never more than
/// remain.
pub proof fn lemma_parse_expr_consumes(toks: Seq<SpecToken>, from: int)
    requires
        0 <= from,
    ensures
        match spec_parse_expr(toks, from) {
            Ok(p) => from < toks.len() && 1 <= p.1 <= toks.len() - from,
            Err(_) => true,
        },
    decreases toks.len() - from,
{
    if from < toks.len() {
        lemma_parse_expr_consumes(toks, from + 1);
        if from + 2 <= toks.len() {
            lemma_parse_expr_consumes(toks, from + 2);
        }
    }
}

/// The statement sequence parsed from position `i` to the end of the token
/// sequence: the top-level loop of the parser.
pub open spec fn spec_parse_at(toks: Seq<SpecToken>, i: int) -> Result<Seq<SpecExpr>, ParseError>
    decreases toks.len() - i,
    when 0 <= i
    via spec_parse_at_decreases
{
    if i >= toks.len() {
        Ok(Seq::empty())
    } else {
        match spec_parse_expr(toks, i) {
            Err(e) => Err(e),
            Ok((opt, adv)) => match spec_parse_at(toks, i + adv) {
                Err(e) => Err(e),
                Ok(rest) => match opt {
                    Some(e) => Ok(seq![e] + rest),
                    None => Ok(rest),
                },
            },
        }
    }
}

#[via_fn]
proof fn spec_parse_at_decreases(toks: Seq<SpecToken>, i: int) {
    if 0 <= i {
        lemma_parse_expr_consumes(toks, i);
    }
}

/// The program parsed from a whole token sequence, or the first parse error.
pub open spec fn spec_parse(toks: Seq<SpecToken>) -> Result<Seq<SpecExpr>, ParseError> {
    spec_parse_at(toks, 0)
}

/// Appends the outcome of parsing the remaining tokens to the statements
/// already parsed.
pub open spec fn parse_continue(
    done: Seq<SpecExpr>,
    rest: Result<Seq<SpecExpr>, ParseError>,
) -> Result<Seq<SpecExpr>, ParseError> {
    match rest {
        Ok(es) => Ok(done + es),
        Err(e) => Err(e),
    }
}

/// The parser: a token sequence, the statements parsed from it so far, and
/// the index the next parsing step starts at.
pub struct Parser {
    pub tokens: Vec<Token>,
    pub expressions: Vec<Expression>,
    pub token_index: usize,
}

impl Parser {
    /// A parser at the start of a token sequence, with nothing parsed yet.
    fn new(tokens: Vec<Token>) -> (p: Parser)
        ensures
            p.tokens@ == tokens@,
            p.expressions@ == Seq::<Expression>::empty(),
            p.token_index == 0,
    {
        Parser { tokens, expressions: Vec::new(), token_index: 0 }
    }

    /// A copy of the token after `from`, if there is one.
    fn peek_next(&self, from: usize) -> (r: Option<Token>)
        requires
            from < self.tokens@.len(),
        ensures
            match r {
                Some(t) => from + 1 < self.tokens@.len() && t@ == self.tokens@[from + 1]@,
                None => from + 1 >= self.tokens@.len(),
            },
    {
        let n = self.tokens.len();
        if from + 1 < n {
            let t = &self.tokens[from + 1];
            Some(Token { token_type: t.token_type, literal: t.literal.clone() })
        } else {
            None
        }
    }

    /// Parses the single literal token `t`.
    fn parse_literal(t: &Token) -> (r: Result<Expression, ParseError>)
        ensures
            match (r, spec_literal(t@)) {
                (Ok(e), Ok(se)) => e.model() == se,
                (Err(e), Err(se)) => e == se,
                _ => false,
            },
    {
        match t.token_type {
            TokenType::Number => match t.to_numeric_checked() {
                Some(v) => Ok(
                    Expression::Number(
                        NumberLiteralExpression {
                            token: Token {
                                token_type: t.token_type,
                                literal: t.literal.clone(),
                            },
                            value: v,
                        },
                    ),
                ),
                None => Err(ParseError::InvalidNumericLiteral),
            },
            TokenType::String => Ok(
                Expression::String(
                    StringLiteralExpression {
                        token: Token { token_type: t.token_type, literal: t.literal.clone() },
                    },
                ),
            ),
            TokenType::Identifier => Ok(
                Expression::Identifier(
                    IdentifierExpression {
                        token: Token { token_type: t.token_type, literal: t.literal.clone() },
                    },
                ),
            ),
            _ => Err(ParseError::UnsupportedToken(t.token_type)),
        }
    }

    /// One parsing step at position `from`: exactly the step `spec_parse_expr`
    /// describes.
    #[verifier::rlimit(50)]
    fn parse_expression(&self, from: usize) -> (r: Result<(Option<Expression>, usize), ParseError>)
        ensures
            match (r, spec_parse_expr(self.tokens.deep_view(), from as int)) {
                (Ok(p), Ok(sp)) => p.0.deep_view() == sp.0 && p.1 == sp.1,
                (Err(e), Err(se)) => e == se,
                _ => false,
            },
        decreases self.tokens@.len() - from,
    {
        let ghost toks = self.tokens.deep_view();
        if from >= self.tokens.len() {
            return Err(ParseError::UnexpectedEnd);
        }
        let t = &self.tokens[from];
        match t.token_type {
            TokenType::Semicolon => Ok((None, 1)),
            TokenType::Number | TokenType::String | TokenType::Identifier => {
                let lit = match Self::parse_literal(t) {
                    Ok(e) => e,
                    Err(e) => {
                        return Err(e);
                    },
                };
                let continue_infix = match self.peek_next(from) {
                    Some(nt) => nt.token_type == TokenType::Plus || nt.token_type
                        == TokenType::Minus,
                    None => false,
                };
                if continue_infix {
                    match self.parse_expression(from + 2) {
                        Err(e) => Err(e),
                        Ok((None, _)) => Err(ParseError::MissingOperand),
                        Ok((Some(right), adv)) => {
                            proof {
                                lemma_parse_expr_consumes(toks, from + 2);
                            }
                            let op = &self.tokens[from + 1];
                            let node = Expression::Infix(
                                InfixExpression {
                                    token: Token {
                                        token_type: op.token_type,
                                        literal: op.literal.clone(),
                                    },
                                    left: Box::new(lit),
                                    right: Box::new(right),
                                },
                            );
                            Ok((Some(node), 2 + adv))
                        },
                    }
                } else {
                    Ok((Some(lit), 1))
                }
            },
            TokenType::Bang => match self.parse_expression(from + 1) {
                Err(e) => Err(e),
                Ok((None, _)) => Err(ParseError::MissingOperand),
                Ok((Some(operand), adv)) => {
                    proof {
                        lemma_parse_expr_consumes(toks, from + 1);
                    }
                    if operand.get_type() == ExpressionType::Return {
                        Err(ParseError::CannotNegateReturn)
                    } else {
                        let node = Expression::Prefix(
                            PrefixExpression {
                                token: Token {
                                    token_type: t.token_type,
                                    literal: t.literal.clone(),
                                },
                                right: Box::new(operand),
                            },
                        );
                        Ok((Some(node), 1 + adv))
                    }
                },
            },
            TokenType::KeywordReturn => match self.parse_expression(from + 1) {
                Err(e) => Err(e),
                Ok((None, _)) => Err(ParseError::MissingOperand),
                Ok((Some(value), adv)) => {
                    proof {
                        lemma_parse_expr_consumes(toks, from + 1);
                    }
                    if value.get_type() == ExpressionType::Return {
                        Err(ParseError::CannotReturnReturn)
                    } else {
                        let node = Expression::Return(
                            ReturnExpression {
                                token: Token {
                                    token_type: t.token_type,
                                    literal: t.literal.clone(),
                                },
                                value: Box::new(value),
                            },
                        );
                        Ok((Some(node), 1 + adv))
                    }
                },
            },
            TokenType::Plus | TokenType::Minus => {
                if from == 0 {
                    return Err(ParseError::MissingLeftOperand);
                }
                let prev = &self.tokens[from - 1];
                if !(prev.token_type == TokenType::Number || prev.token_type == TokenType::String
                    || prev.token_type == TokenType::Identifier) {
                    return Err(ParseError::MissingLeftOperand);
                }
                let lit = match Self::parse_literal(prev) {
                    Ok(e) => e,
                    Err(e) => {
                        return Err(e);
                    },
                };
                match self.parse_expression(from + 1) {
                    Err(e) => Err(e),
                    Ok((None, _)) => Err(ParseError::MissingOperand),
                    Ok((Some(right), adv)) => {
                        proof {
                            lemma_parse_expr_consumes(toks, from + 1);
                        }
                        let node = Expression::Infix(
                            InfixExpression {
                                token: Token {
                                    token_type: t.token_type,
                                    literal: t.literal.clone(),
                                },
                                left: Box::new(lit),
                                right: Box::new(right),
                            },
                        );
                        Ok((Some(node), 1 + adv))
                    },
                }
            },
            _ => Err(ParseError::UnsupportedToken(t.token_type)),
        }
    }

    /// Runs the top-level loop from the current index to the end of the token
    /// sequence, appending each produced statement: exactly what
    /// `spec_parse_at` describes from the starting index.
    pub fn parse(&mut self) -> (r: Result<(), ParseError>)
        ensures
            final(self).tokens@ == old(self).tokens@,
            match r {
                Ok(_) => parse_continue(
                    old(self).expressions.deep_view(),
                    spec_parse_at(old(self).tokens.deep_view(), old(self).token_index as int),
                ) == Ok::<Seq<SpecExpr>, ParseError>(final(self).expressions.deep_view())
                    && final(self).token_index >= old(self).tokens@.len(),
                Err(e) => spec_parse_at(old(self).tokens.deep_view(), old(self).token_index as int)
                    == Err::<Seq<SpecExpr>, ParseError>(e),
            },
    {
        let ghost toks = self.tokens.deep_view();
        while self.token_index < self.tokens.len()
            invariant
                self.tokens@ == old(self).tokens@,
                toks == self.tokens.deep_view(),
                parse_continue(
                    old(self).expressions.deep_view(),
                    spec_parse_at(toks, old(self).token_index as int),
                ) == parse_continue(
                    self.expressions.deep_view(),
                    spec_parse_at(toks, self.token_index as int),
                ),
            decreases self.tokens@.len() - self.token_index,
        {
            let ghost done = self.expressions.deep_view();
            let ghost idx = self.token_index as int;
            match self.parse_expression(self.token_index) {
                Err(e) => {
                    return Err(e);
                },
                Ok((opt, adv)) => {
                    proof {
                        lemma_parse_expr_consumes(toks, idx);
                    }
                    match opt {
                        Some(node) => {
                            self.expressions.push(node);
                            proof {
                                let ghost se = spec_parse_expr(toks, idx)->Ok_0.0->Some_0;
                                assert(self.expressions.deep_view() =~= done.push(se));
                                if spec_parse_at(toks, idx + adv) is Ok {
                                    let rest = spec_parse_at(toks, idx + adv)->Ok_0;
                                    assert(done + (seq![se] + rest) =~= done.push(se) + rest);
                                }
                            }
                        },
                        None => {},
                    }
                    self.token_index = self.token_index + adv;
                },
            }
        }
        proof {
            assert(spec_parse_at(toks, self.token_index as int) == Ok::<
                Seq<SpecExpr>,
                ParseError,
            >(Seq::empty()));
            assert(self.expressions.deep_view() + Seq::<SpecExpr>::empty()
                =~= self.expressions.deep_view());
        }
        Ok(())
    }
}

/// Position of the first semicolon at or after `i`, or the end of the
/// sequence: the end of the current semicolon-or-end-delimited statement.
pub open spec fn seg_end(toks: Seq<SpecToken>, i: int) -> int
    decreases toks.len() - i,
{
    if i < 0 || i >= toks.len() || toks[i].kind == TokenType::Semicolon {
        i
    } else {
        seg_end(toks, i + 1)
    }
}

pub proof fn lemma_seg_end(toks: Seq<SpecToken>, i: int)
    requires
        0 <= i <= toks.len(),
    ensures
        i <= seg_end(toks, i) <= toks.len(),
        i < toks.len() && toks[i].kind != TokenType::Semicolon ==> seg_end(toks, i) > i,
    decreases toks.len() - i,
{
    if i < toks.len() && toks[i].kind != TokenType::Semicolon {
        lemma_seg_end(toks, i + 1);
    }
}

/// The segment end is the unique position closing a maximal run of
/// non-semicolon tokens.
pub proof fn lemma_seg_end_is(toks: Seq<SpecToken>, i: int, e: int)
    requires
        0 <= i <= e <= toks.len(),
        forall|j: int| i <= j < e ==> toks[j].kind != TokenType::Semicolon,
        e == toks.len() || toks[e].kind == TokenType::Semicolon,
    ensures
        seg_end(toks, i) == e,
    decreases e - i,
{
    if i < e {
        lemma_seg_end_is(toks, i + 1, e);
    }
}

/// The number of semicolon-or-end-delimited statements from position `i` on:
/// the maximal nonempty runs of non-semicolon tokens.
pub open spec fn statement_count_at(toks: Seq<SpecToken>, i: int) -> nat
    decreases toks.len() - i,
    when 0 <= i
    via statement_count_at_decreases
{
    if i >= toks.len() {
        0
    } else if toks[i].kind == TokenType::Semicolon {
        statement_count_at(toks, i + 1)
    } else {
        1 + statement_count_at(toks, seg_end(toks, i))
    }
}

#[via_fn]
proof fn statement_count_at_decreases(toks: Seq<SpecToken>, i: int) {
    if 0 <= i < toks.len() {
        lemma_seg_end(toks, i);
    }
}

/// Whether a token sequence forms one complete expression of the supported
/// grammar: a single literal, a literal continued by an additive operator and
/// an expression, or a bang applied to an expression. A number literal must
/// spell a value within the 64-bit signed range.
pub open spec fn is_expr_tokens(s: Seq<SpecToken>) -> bool
    decreases s.len(),
{
    if s.len() == 0 {
        false
    } else {
        let t = s[0];
        if is_literal_kind(t.kind) {
            spec_literal(t) is Ok && (s.len() == 1 || (s.len() >= 3 && is_infix_kind(s[1].kind)
                && is_expr_tokens(s.skip(2))))
        } else if t.kind == TokenType::Bang {
            is_expr_tokens(s.skip(1))
        } else {
            false
        }
    }
}

/// Whether a token sequence forms one complete statement: an expression,
/// optionally under a leading `return`.
pub open spec fn is_statement_tokens(s: Seq<SpecToken>) -> bool {
    if s.len() > 0 && s[0].kind == TokenType::KeywordReturn {
        is_expr_tokens(s.skip(1))
    } else {
        is_expr_tokens(s)
    }
}

/// Whether the tokens from position `i` on form a well-formed program:
/// statements, each extending exactly to the next semicolon or to the end of
/// the input, with any number of bare semicolons between them.
pub open spec fn is_program_from(toks: Seq<SpecToken>, i: int) -> bool
    decreases toks.len() - i,
    when 0 <= i
{
    if i >= toks.len() {
        true
    } else if toks[i].kind == TokenType::Semicolon {
        is_program_from(toks, i + 1)
    } else {
        exists|k: int|
            1 <= k && i + k <= toks.len() && is_statement_tokens(
                #[trigger] toks.subrange(i, i + k),
            ) && (i + k == toks.len() || toks[i + k].kind == TokenType::Semicolon)
                && is_program_from(toks, i + k)
    }
}

/// An expression span holds no semicolon.
proof fn lemma_expr_tokens_no_semicolon(s: Seq<SpecToken>)
    requires
        is_expr_tokens(s),
    ensures
        forall|j: int| 0 <= j < s.len() ==> s[j].kind != TokenType::Semicolon,
    decreases s.len(),
{
    let t = s[0];
    if is_literal_kind(t.kind) {
        if s.len() != 1 {
            lemma_expr_tokens_no_semicolon(s.skip(2));
            assert forall|j: int| 0 <= j < s.len() implies s[j].kind != TokenType::Semicolon by {
                if j >= 2 {
                    assert(s.skip(2)[j - 2] == s[j]);
                }
            }
        }
    } else {
        lemma_expr_tokens_no_semicolon(s.skip(1));
        assert forall|j: int| 0 <= j < s.len() implies s[j].kind != TokenType::Semicolon by {
            if j >= 1 {
                assert(s.skip(1)[j - 1] == s[j]);
            }
        }
    }
}

/// A statement span holds no semicolon.
proof fn lemma_statement_tokens_no_semicolon(s: Seq<SpecToken>)
    requires
        is_statement_tokens(s),
    ensures
        forall|j: int| 0 <= j < s.len() ==> s[j].kind != TokenType::Semicolon,
{
    if s.len() > 0 && s[0].kind == TokenType::KeywordReturn {
        lemma_expr_tokens_no_semicolon(s.skip(1));
        assert forall|j: int| 0 <= j < s.len() implies s[j].kind != TokenType::Semicolon by {
            if j >= 1 {
                assert(s.skip(1)[j - 1] == s[j]);
            }
        }
    } else {
        lemma_expr_tokens_no_semicolon(s);
    }
}

/// A complete expression span parses in one step: the parser returns a node
/// that is not a `return` and consumes exactly the span, provided no additive
/// operator immediately follows the span.
proof fn lemma_parse_expr_span(toks: Seq<SpecToken>, i: int, k: int)
    requires
        0 <= i,
        1 <= k,
        i + k <= toks.len(),
        is_expr_tokens(toks.subrange(i, i + k)),
        i + k == toks.len() || !is_infix_kind(toks[i + k].kind),
    ensures
        spec_parse_expr(toks, i) is Ok,
        spec_parse_expr(toks, i)->Ok_0.1 == k,
        spec_parse_expr(toks, i)->Ok_0.0 is Some,
        spec_parse_expr(toks, i)->Ok_0.0->Some_0.kind() != ExpressionType::Return,
    decreases k,
{
    let s = toks.subrange(i, i + k);
    let t = s[0];
    assert(t == toks[i]);
    if is_literal_kind(t.kind) {
        if s.len() == 1 {
            assert(spec_literal(t) is Ok);
        } else {
            assert(s[1] == toks[i + 1]);
            assert(s.skip(2) =~= toks.subrange(i + 2, i + k));
            lemma_parse_expr_span(toks, i + 2, k - 2);
        }
    } else {
        assert(t.kind == TokenType::Bang);
        assert(s.skip(1) =~= toks.subrange(i + 1, i + k));
        assert(is_expr_tokens(s.skip(1)));
        if k == 1 {
            assert(s.skip(1).len() == 0);
            assert(false);
        }
        lemma_parse_expr_span(toks, i + 1, k - 1);
    }
}

/// A complete statement span parses in one step to a single node, consuming
/// exactly the span.
proof fn lemma_parse_statement_span(toks: Seq<SpecToken>, i: int, k: int)
    requires
        0 <= i,
        1 <= k,
        i + k <= toks.len(),
        is_statement_tokens(toks.subrange(i, i + k)),
        i + k == toks.len() || toks[i + k].kind == TokenType::Semicolon,
    ensures
        spec_parse_expr(toks, i) is Ok,
        spec_parse_expr(toks, i)->Ok_0.1 == k,
        spec_parse_expr(toks, i)->Ok_0.0 is Some,
{
    let s = toks.subrange(i, i + k);
    if s[0].kind == TokenType::KeywordReturn {
        assert(s.skip(1) =~= toks.subrange(i + 1, i + k));
        assert(is_expr_tokens(s.skip(1)));
        if k == 1 {
            assert(s.skip(1).len() == 0);
            assert(false);
        }
        lemma_parse_expr_span(toks, i + 1, k - 1);
    } else {
        lemma_parse_expr_span(toks, i, k);
    }
}

proof fn lemma_parse_program_at(toks: Seq<SpecToken>, i: int)
    requires
        0 <= i,
        is_program_from(toks, i),
    ensures
        spec_parse_at(toks, i) is Ok,
        spec_parse_at(toks, i)->Ok_0.len() == statement_count_at(toks, i),
    decreases toks.len() - i,
{
    if i >= toks.len() {
    } else if toks[i].kind == TokenType::Semicolon {
        lemma_parse_program_at(toks, i + 1);
    } else {
        let k = choose|k: int|
            1 <= k && i + k <= toks.len() && is_statement_tokens(
                #[trigger] toks.subrange(i, i + k),
            ) && (i + k == toks.len() || toks[i + k].kind == TokenType::Semicolon)
                && is_program_from(toks, i + k);
        lemma_parse_statement_span(toks, i, k);
        lemma_parse_program_at(toks, i + k);
        let s = toks.subrange(i, i + k);
        lemma_statement_tokens_no_semicolon(s);
        assert forall|j: int| i <= j < i + k implies toks[j].kind != TokenType::Semicolon by {
            assert(s[j - i] == toks[j]);
        }
        lemma_seg_end_is(toks, i, i + k);
        let e = spec_parse_expr(toks, i)->Ok_0.0->Some_0;
        let rest = spec_parse_at(toks, i + k)->Ok_0;
        assert(spec_parse_at(toks, i) == Ok::<Seq<SpecExpr>, ParseError>(seq![e] + rest));
        assert((seq![e] + rest).len() == 1 + rest.len());
    }
}

/// Parsing is idempotent with respect to statement count: on a well-formed
/// program, parsing succeeds and the number of top-level AST nodes equals
/// the number of semicolon-or-end-delimited statements in the input.
pub proof fn lemma_parse_statement_count(toks: Seq<SpecToken>)
    requires
        is_program_from(toks, 0),
    ensures
        spec_parse(toks) is Ok,
        spec_parse(toks)->Ok_0.len() == statement_count_at(toks, 0),
{
    lemma_parse_program_at(toks, 0);
}

/// Parses a whole token sequence into its statement sequence: exactly the
/// program `spec_parse` gives, or its first parse error.
pub fn parse(tokens: Vec<Token>) -> (r: Result<Vec<Expression>, ParseError>)
    ensures
        match r {
            Ok(exprs) => spec_parse(tokens.deep_view()) == Ok::<Seq<SpecExpr>, ParseError>(
                exprs.deep_view(),
            ),
            Err(e) => spec_parse(tokens.deep_view()) == Err::<Seq<SpecExpr>, ParseError>(e),
        },
{
    let mut parser = Parser::new(tokens);
    match parser.parse() {
        Ok(_) => {
            proof {
                if spec_parse(parser.tokens.deep_view()) is Ok {
                    assert(Seq::<SpecExpr>::empty() + spec_parse(parser.tokens.deep_view())->Ok_0
                        =~= spec_parse(parser.tokens.deep_view())->Ok_0);
                }
            }
            Ok(parser.expressions)
        },
        Err(e) => Err(e),
    }
}

} // verus!
