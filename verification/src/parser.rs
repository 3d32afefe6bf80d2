use vstd::prelude::*;

use crate::consume_token;
use crate::tokenizer::Token;
use crate::Error;

verus! {

// A glot expression can be assigned to a variable or printed.
//   A, A + B or A + B * 10 are valid expressions.
//
// The grammatical definition of an expression is:
//   expression ::= term { ( "+" | "-" | "*" | "/" ) term }
// An expression always starts with a term (a variable or a number), followed
// by a series of (binary operator, term) couples.

/// A cursor over one line's token sequence with single-token consumption,
/// shared by every parser so that one of them can pick up where another
/// stopped.
pub struct TokenCursor {
    tokens: Vec<Token>,
}

impl TokenCursor {
    /// The tokens not yet consumed, in order.
    pub closed spec fn remaining(&self) -> Seq<Token> {
        self.tokens@
    }

    pub fn new(tokens: Vec<Token>) -> (c: TokenCursor)
        ensures
            c.remaining() == tokens@,
    {
        TokenCursor { tokens }
    }

    /// Hands out the front token and steps past it, or reports exhaustion.
    pub fn next(&mut self) -> (r: Option<Token>)
        ensures
            old(self).remaining().len() == 0 ==> r is None
                && final(self).remaining() == old(self).remaining(),
            old(self).remaining().len() > 0 ==> r == Some(old(self).remaining()[0])
                && final(self).remaining() == old(self).remaining().drop_first(),
    {
        if self.tokens.len() > 0 {
            let t = self.tokens.remove(0);
            proof {
                assert(old(self).remaining().remove(0) =~= old(self).remaining().drop_first());
            }
            Some(t)
        } else {
            None
        }
    }

    /// Whether any token is left.
    pub fn has_next(&self) -> (r: bool)
        ensures
            r == (self.remaining().len() > 0),
    {
        self.tokens.len() > 0
    }

    /// Whether the front token is a string literal, without consuming it.
    pub fn next_is_string_literal(&self) -> (r: bool)
        ensures
            r == (self.remaining().len() > 0 && self.remaining()[0] is StringLiteral),
    {
        if self.tokens.len() > 0 {
            match &self.tokens[0] {
                Token::StringLiteral(_) => true,
                _ => false,
            }
        } else {
            false
        }
    }

    /// Whether the front token can begin a term (a number or a variable),
    /// without consuming it.
    pub fn next_begins_term(&self) -> (r: bool)
        ensures
            r == (self.remaining().len() > 0 && spec_term(self.remaining()[0]) is Some),
    {
        if self.tokens.len() > 0 {
            match &self.tokens[0] {
                Token::Number(_) => true,
                Token::Identifier(_) => true,
                _ => false,
            }
        } else {
            false
        }
    }
}

/// A number or a variable in an expression: A, 10 and B in `A + 10 * B`.
#[derive(Debug, Clone, PartialEq)]
pub enum Term {
    Number(u64),
    Variable(char),
}

/// The term a token stands for, if it stands for one.
pub open spec fn spec_term(t: Token) -> Option<Term> {
    match t {
        Token::Number(n) => Some(Term::Number(n)),
        Token::Identifier(v) => Some(Term::Variable(v)),
        _ => None,
    }
}

impl Term {
    /// Consumes exactly one token: a number or identifier token yields the
    /// term it stands for; any other token fails as an invalid value token;
    /// an exhausted cursor fails as end of input.
    pub fn new(tokens_iter: &mut TokenCursor) -> (r: Result<Term, Error>)
        ensures
            old(tokens_iter).remaining().len() == 0 ==> r == Err::<Term, Error>(Error::EndOfInput)
                && final(tokens_iter).remaining() == old(tokens_iter).remaining(),
            old(tokens_iter).remaining().len() > 0 ==> {
                &&& final(tokens_iter).remaining() == old(tokens_iter).remaining().drop_first()
                &&& match spec_term(old(tokens_iter).remaining()[0]) {
                    Some(term) => r == Ok::<Term, Error>(term),
                    None => r == Err::<Term, Error>(
                        Error::InvalidValueToken(old(tokens_iter).remaining()[0]),
                    ),
                }
            },
    {
        match consume_token(tokens_iter) {
            Ok(Token::Number(n)) => Ok(Term::Number(n)),
            Ok(Token::Identifier(v)) => Ok(Term::Variable(v)),
            Ok(t) => Err(Error::InvalidValueToken(t)),
            Err(e) => Err(e),
        }
    }
}

/// An operator standing between two terms of an expression.
///
/// `Modulo` belongs to the expression trees of the evaluator alone: no token
/// spells it, so [`BinaryOperator::new`] never produces it.
#[derive(Debug, Clone, PartialEq)]
pub enum BinaryOperator {
    Add,
    Subtract,
    Multiply,
    Divide,
    Modulo,
}

/// The binary operator a token stands for, if it stands for one. The
/// assignment token stands for none: assignment never continues an
/// expression.
pub open spec fn spec_operator(t: Token) -> Option<BinaryOperator> {
    match t {
        Token::OperatorPlus => Some(BinaryOperator::Add),
        Token::OperatorMinus => Some(BinaryOperator::Subtract),
        Token::OperatorMultiply => Some(BinaryOperator::Multiply),
        Token::OperatorDivide => Some(BinaryOperator::Divide),
        _ => None,
    }
}

impl BinaryOperator {
    /// Consumes exactly one token: an arithmetic operator token yields the
    /// operator; any other token fails as an invalid operator token; an
    /// exhausted cursor fails as end of input.
    pub fn new(tokens_iter: &mut TokenCursor) -> (r: Result<BinaryOperator, Error>)
        ensures
            old(tokens_iter).remaining().len() == 0 ==> r == Err::<BinaryOperator, Error>(
                Error::EndOfInput,
            ) && final(tokens_iter).remaining() == old(tokens_iter).remaining(),
            old(tokens_iter).remaining().len() > 0 ==> {
                &&& final(tokens_iter).remaining() == old(tokens_iter).remaining().drop_first()
                &&& match spec_operator(old(tokens_iter).remaining()[0]) {
                    Some(op) => r == Ok::<BinaryOperator, Error>(op),
                    None => r == Err::<BinaryOperator, Error>(
                        Error::InvalidOperatorToken(old(tokens_iter).remaining()[0]),
                    ),
                }
            },
    {
        match consume_token(tokens_iter) {
            Ok(Token::OperatorPlus) => Ok(BinaryOperator::Add),
            Ok(Token::OperatorMinus) => Ok(BinaryOperator::Subtract),
            Ok(Token::OperatorMultiply) => Ok(BinaryOperator::Multiply),
            Ok(Token::OperatorDivide) => Ok(BinaryOperator::Divide),
            Ok(t) => Err(Error::InvalidOperatorToken(t)),
            Err(e) => Err(e),
        }
    }
}

/// One element of a flat expression: a term, or an operator between terms.
#[derive(Debug, Clone, PartialEq)]
pub enum ExpressionItem {
    Term(Term),
    Operator(BinaryOperator),
}

/// The (operator, term) couples of an expression, read from position `i` to
/// the end of the token sequence: each couple is one operator token and one
/// term token, and the sequence must end exactly after a couple.
pub open spec fn spec_parse_pairs(toks: Seq<Token>, i: int) -> Result<Seq<ExpressionItem>, Error>
    decreases toks.len() - i,
{
    if i < 0 || i >= toks.len() {
        Ok(Seq::empty())
    } else {
        match spec_operator(toks[i]) {
            None => Err(Error::InvalidOperatorToken(toks[i])),
            Some(op) => {
                if i + 1 >= toks.len() {
                    Err(Error::EndOfInput)
                } else {
                    match spec_term(toks[i + 1]) {
                        None => Err(Error::InvalidValueToken(toks[i + 1])),
                        Some(term) => match spec_parse_pairs(toks, i + 2) {
                            Ok(items) => Ok(
                                seq![
                                    ExpressionItem::Operator(op),
                                    ExpressionItem::Term(term),
                                ] + items,
                            ),
                            Err(e) => Err(e),
                        },
                    }
                }
            },
        }
    }
}

/// The flat expression read from a whole token sequence: a first term, then
/// (operator, term) couples until the tokens run out, or the first failure.
pub open spec fn spec_parse_expression(toks: Seq<Token>) -> Result<Seq<ExpressionItem>, Error> {
    if toks.len() == 0 {
        Err(Error::EndOfInput)
    } else {
        match spec_term(toks[0]) {
            None => Err(Error::InvalidValueToken(toks[0])),
            Some(term) => match spec_parse_pairs(toks, 1) {
                Ok(items) => Ok(seq![ExpressionItem::Term(term)] + items),
                Err(e) => Err(e),
            },
        }
    }
}

/// A flat expression: terms alternating with operators, exactly as
/// encountered, with no precedence folding.
/// `A + 10 * B` -> [Term(A), Operator(Add), Term(10), Operator(Multiply), Term(B)]
#[derive(Debug, Clone, PartialEq)]
pub struct Expression {
    pub items: Vec<ExpressionItem>,
}

impl Expression {
    /// Parses an expression out of every remaining token of the cursor.
    ///
    /// On success the items are exactly what [`spec_parse_expression`] reads
    /// from the remaining tokens, and the cursor is exhausted; the first
    /// ill-formed token aborts with its error and no expression is returned.
    pub fn new(tokens_iter: &mut TokenCursor) -> (r: Result<Expression, Error>)
        ensures
            match spec_parse_expression(old(tokens_iter).remaining()) {
                Ok(items) => r is Ok && r->Ok_0.items@ == items
                    && final(tokens_iter).remaining().len() == 0,
                Err(e) => r == Err::<Expression, Error>(e),
            },
    {
        let ghost full = tokens_iter.remaining();
        let mut items: Vec<ExpressionItem> = Vec::new();

        let first_term = match Term::new(tokens_iter) {
            Ok(t) => t,
            Err(e) => {
                return Err(e);
            },
        };
        items.push(ExpressionItem::Term(first_term));
        let ghost mut idx: int = 1;
        proof {
            assert(tokens_iter.remaining() =~= full.skip(1));
            if let Ok(more) = spec_parse_pairs(full, 1) {
                assert(items@ + more =~= seq![ExpressionItem::Term(first_term)] + more);
            }
        }

        loop
            invariant
                full == old(tokens_iter).remaining(),
                1 <= idx <= full.len(),
                tokens_iter.remaining() == full.skip(idx),
                spec_parse_expression(full) == (match spec_parse_pairs(full, idx) {
                    Ok(more) => Ok::<Seq<ExpressionItem>, Error>(items@ + more),
                    Err(e) => Err::<Seq<ExpressionItem>, Error>(e),
                }),
            ensures
                idx == full.len(),
                spec_parse_expression(full) == (match spec_parse_pairs(full, idx) {
                    Ok(more) => Ok::<Seq<ExpressionItem>, Error>(items@ + more),
                    Err(e) => Err::<Seq<ExpressionItem>, Error>(e),
                }),
            decreases full.len() - idx,
        {
            if !tokens_iter.has_next() {
                proof {
                    assert(full.skip(idx).len() == 0);
                }
                break ;
            }
            proof {
                assert(full.skip(idx)[0] == full[idx]);
            }
            let operator = match BinaryOperator::new(tokens_iter) {
                Ok(op) => op,
                Err(e) => {
                    return Err(e);
                },
            };
            proof {
                assert(full.skip(idx).drop_first() =~= full.skip(idx + 1));
                if idx + 1 < full.len() {
                    assert(full.skip(idx + 1)[0] == full[idx + 1]);
                }
            }
            let term = match Term::new(tokens_iter) {
                Ok(t) => t,
                Err(e) => {
                    return Err(e);
                },
            };
            proof {
                assert(full.skip(idx + 1).drop_first() =~= full.skip(idx + 2));
            }
            let ghost items_prev = items@;
            items.push(ExpressionItem::Operator(operator));
            items.push(ExpressionItem::Term(term));
            proof {
                assert(items@ =~= items_prev + seq![
                    ExpressionItem::Operator(operator),
                    ExpressionItem::Term(term),
                ]);
                if let Ok(more) = spec_parse_pairs(full, idx + 2) {
                    assert(items_prev + (seq![
                        ExpressionItem::Operator(operator),
                        ExpressionItem::Term(term),
                    ] + more) =~= items@ + more);
                }
                idx = idx + 2;
            }
        }
        proof {
            assert(spec_parse_pairs(full, idx) == Ok::<Seq<ExpressionItem>, Error>(Seq::empty()));
            assert(items@ + Seq::<ExpressionItem>::empty() =~= items@);
        }
        Ok(Expression { items })
    }
}

/// A complete, parsed command: the output of the statement parser, built
/// from one line's tokens.
#[derive(Debug, Clone, PartialEq)]
pub enum Statement {
    /// LET <VAR> = <expression>
    Let { variable: char, expression: Expression },
    /// PRINT "<string>"
    PrintString { value: String },
    /// PRINT <expression>
    PrintExpr { expression: Expression },
    /// END
    End,
}

/// The abstract shape of a parsed statement, with sequences in place of the
/// executable vectors and strings. Used only in specifications.
pub enum StatementShape {
    Let { variable: char, items: Seq<ExpressionItem> },
    PrintString { value: Seq<char> },
    PrintExpr { items: Seq<ExpressionItem> },
    End,
}

/// Whether an executable statement has exactly a given abstract shape.
pub open spec fn stmt_matches(s: Statement, shape: StatementShape) -> bool {
    match shape {
        StatementShape::Let { variable, items } => (s matches Statement::Let {
            variable: v,
            expression: e,
        } && v == variable && e.items@ == items),
        StatementShape::PrintString { value } => (s matches Statement::PrintString { value: w }
            && w@ == value),
        StatementShape::PrintExpr { items } => (s matches Statement::PrintExpr { expression: e }
            && e.items@ == items),
        StatementShape::End => s == Statement::End,
    }
}

/// The statement read from one line's token sequence, dispatched on its
/// first token.
///
/// An assignment keyword demands an identifier, the assignment operator and
/// an expression over all remaining tokens; an output keyword demands a
/// string literal or an expression over all remaining tokens; a terminator
/// keyword demands nothing more and ignores what follows; any other first
/// token is rejected. A wrong token fails as unexpected; a missing one fails
/// as end of input.
pub open spec fn spec_parse_statement(toks: Seq<Token>) -> Result<StatementShape, Error> {
    if toks.len() == 0 {
        Err(Error::EndOfInput)
    } else {
        match toks[0] {
            Token::KeywordLet => {
                if toks.len() == 1 {
                    Err(Error::EndOfInput)
                } else {
                    match toks[1] {
                        Token::Identifier(v) => {
                            if toks.len() == 2 {
                                Err(Error::EndOfInput)
                            } else if !(toks[2] is Equals) {
                                Err(Error::UnexpectedToken(toks[2]))
                            } else {
                                match spec_parse_expression(toks.skip(3)) {
                                    Ok(items) => Ok(StatementShape::Let { variable: v, items }),
                                    Err(e) => Err(e),
                                }
                            }
                        },
                        t => Err(Error::UnexpectedToken(t)),
                    }
                }
            },
            Token::KeywordPrint => {
                if toks.len() == 1 {
                    Err(Error::EndOfInput)
                } else {
                    match toks[1] {
                        Token::StringLiteral(s) => Ok(StatementShape::PrintString { value: s@ }),
                        _ => {
                            if spec_term(toks[1]) is Some {
                                match spec_parse_expression(toks.skip(1)) {
                                    Ok(items) => Ok(StatementShape::PrintExpr { items }),
                                    Err(e) => Err(e),
                                }
                            } else {
                                Err(Error::UnexpectedToken(toks[1]))
                            }
                        },
                    }
                }
            },
            Token::KeywordEnd => Ok(StatementShape::End),
            t => Err(Error::UnexpectedToken(t)),
        }
    }
}

impl Statement {
    /// Parses the one statement a line of tokens holds.
    ///
    /// The result has exactly the shape [`spec_parse_statement`] reads from
    /// the tokens, or its error: the parser never retries or recovers, and
    /// one malformed line yields one failure saying where and why.
    pub fn new(tokens: Vec<Token>) -> (r: Result<Statement, Error>)
        ensures
            match spec_parse_statement(tokens@) {
                Ok(shape) => r is Ok && stmt_matches(r->Ok_0, shape),
                Err(e) => r == Err::<Statement, Error>(e),
            },
    {
        let ghost toks = tokens@;
        let mut tokens_iter = TokenCursor::new(tokens);
        let first_token = match consume_token(&mut tokens_iter) {
            Ok(t) => t,
            Err(e) => {
                return Err(e);
            },
        };
        proof {
            assert(tokens_iter.remaining() =~= toks.skip(1));
        }

        match first_token {
            Token::KeywordLet => {
                // LET <VAR> = <expression>
                proof {
                    if toks.len() > 1 {
                        assert(toks.skip(1)[0] == toks[1]);
                    }
                }
                let variable = match consume_token(&mut tokens_iter) {
                    Ok(Token::Identifier(v)) => v,
                    Ok(t) => {
                        return Err(Error::UnexpectedToken(t));
                    },
                    Err(e) => {
                        return Err(e);
                    },
                };
                proof {
                    assert(toks.skip(1).drop_first() =~= toks.skip(2));
                    if toks.len() > 2 {
                        assert(toks.skip(2)[0] == toks[2]);
                    }
                }
                match consume_token(&mut tokens_iter) {
                    Ok(Token::Equals) => (),
                    Ok(t) => {
                        return Err(Error::UnexpectedToken(t));
                    },
                    Err(e) => {
                        return Err(e);
                    },
                };
                proof {
                    assert(toks.skip(2).drop_first() =~= toks.skip(3));
                }
                let expression = match Expression::new(&mut tokens_iter) {
                    Ok(e) => e,
                    Err(e) => {
                        return Err(e);
                    },
                };
                Ok(Statement::Let { variable, expression })
            },
            Token::KeywordPrint => {
                proof {
                    if toks.len() > 1 {
                        assert(toks.skip(1)[0] == toks[1]);
                    }
                }
                if tokens_iter.next_is_string_literal() {
                    // PRINT "<string>"
                    match consume_token(&mut tokens_iter) {
                        Ok(Token::StringLiteral(s)) => Ok(Statement::PrintString { value: s }),
                        _ => vstd::pervasive::unreached(),
                    }
                } else if tokens_iter.next_begins_term() {
                    // PRINT <expression>
                    let expression = match Expression::new(&mut tokens_iter) {
                        Ok(e) => e,
                        Err(e) => {
                            return Err(e);
                        },
                    };
                    Ok(Statement::PrintExpr { expression })
                } else if tokens_iter.has_next() {
                    match consume_token(&mut tokens_iter) {
                        Ok(t) => Err(Error::UnexpectedToken(t)),
                        Err(_) => vstd::pervasive::unreached(),
                    }
                } else {
                    Err(Error::EndOfInput)
                }
            },
            Token::KeywordEnd => Ok(Statement::End),
            t => Err(Error::UnexpectedToken(t)),
        }
    }
}

} // verus!
