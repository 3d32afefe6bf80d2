use glot::consume_token;
use glot::parser::BinaryOperator;
use glot::parser::Expression;
use glot::parser::ExpressionItem;
use glot::parser::Statement;
use glot::parser::Term;
use glot::parser::TokenCursor;
use glot::tokenizer::GlotLine;
use glot::tokenizer::Token;
use glot::Error;

#[test]
fn test_expression_arithmetic() -> Result<(), Error> {
    let line = "A + 10 * B";
    let expected_items = [
        ExpressionItem::Term(Term::Variable('A')),
        ExpressionItem::Operator(BinaryOperator::Add),
        ExpressionItem::Term(Term::Number(10)),
        ExpressionItem::Operator(BinaryOperator::Multiply),
        ExpressionItem::Term(Term::Variable('B')),
    ];

    let glot_line = GlotLine::new(&line)?;
    let expression = Expression::new(&mut TokenCursor::new(glot_line.tokens))?;

    assert_eq!(
        expression,
        Expression {
            items: expected_items.to_vec()
        }
    );

    Ok(())
}

#[test]
fn test_expression_variable() -> Result<(), Error> {
    let line = "A";
    let expected_items = [ExpressionItem::Term(Term::Variable('A'))];

    let glot_line = GlotLine::new(&line)?;
    let expression = Expression::new(&mut TokenCursor::new(glot_line.tokens))?;

    assert_eq!(
        expression,
        Expression {
            items: expected_items.to_vec()
        }
    );

    Ok(())
}

#[test]
fn test_invalid_expression_assign() -> Result<(), Error> {
    let line = "A = 5";

    let glot_line = GlotLine::new(&line)?;
    assert_eq!(
        Expression::new(&mut TokenCursor::new(glot_line.tokens)),
        Err(Error::InvalidOperatorToken(Token::Equals))
    );

    Ok(())
}

#[test]
fn test_invalid_expression_statement() -> Result<(), Error> {
    let line = "LET A = 5";

    let glot_line = GlotLine::new(&line)?;
    assert_eq!(
        Expression::new(&mut TokenCursor::new(glot_line.tokens)),
        Err(Error::InvalidValueToken(Token::KeywordLet))
    );

    Ok(())
}

#[test]
fn test_invalid_expression_keyword() -> Result<(), Error> {
    let line = "PRINT";

    let glot_line = GlotLine::new(&line)?;
    assert_eq!(
        Expression::new(&mut TokenCursor::new(glot_line.tokens)),
        Err(Error::InvalidValueToken(Token::KeywordPrint))
    );

    Ok(())
}

#[test]
fn test_invalid_expression_lone_keyword() -> Result<(), Error> {
    // A keyword can never stand as a term, not even on its own.
    let glot_line = GlotLine::new("LET")?;
    assert_eq!(
        Expression::new(&mut TokenCursor::new(glot_line.tokens)),
        Err(Error::InvalidValueToken(Token::KeywordLet))
    );

    Ok(())
}

#[test]
fn test_expression_missing_term_after_operator() -> Result<(), Error> {
    let glot_line = GlotLine::new("A +")?;
    assert_eq!(
        Expression::new(&mut TokenCursor::new(glot_line.tokens)),
        Err(Error::EndOfInput)
    );

    let glot_line = GlotLine::new("")?;
    assert_eq!(
        Expression::new(&mut TokenCursor::new(glot_line.tokens)),
        Err(Error::EndOfInput)
    );

    Ok(())
}

#[test]
fn test_consume_token_steps_through() {
    let mut cursor = TokenCursor::new(vec![Token::Number(1), Token::Equals]);
    assert_eq!(consume_token(&mut cursor), Ok(Token::Number(1)));
    assert_eq!(consume_token(&mut cursor), Ok(Token::Equals));
    assert_eq!(consume_token(&mut cursor), Err(Error::EndOfInput));
    assert_eq!(consume_token(&mut cursor), Err(Error::EndOfInput));
}

#[test]
fn test_term_and_operator_parsing() {
    let mut cursor = TokenCursor::new(vec![Token::Number(7), Token::Identifier('Z')]);
    assert_eq!(Term::new(&mut cursor), Ok(Term::Number(7)));
    assert_eq!(Term::new(&mut cursor), Ok(Term::Variable('Z')));
    assert_eq!(Term::new(&mut cursor), Err(Error::EndOfInput));

    let mut cursor = TokenCursor::new(vec![
        Token::OperatorPlus,
        Token::OperatorMinus,
        Token::OperatorMultiply,
        Token::OperatorDivide,
        Token::KeywordEnd,
    ]);
    assert_eq!(BinaryOperator::new(&mut cursor), Ok(BinaryOperator::Add));
    assert_eq!(BinaryOperator::new(&mut cursor), Ok(BinaryOperator::Subtract));
    assert_eq!(BinaryOperator::new(&mut cursor), Ok(BinaryOperator::Multiply));
    assert_eq!(BinaryOperator::new(&mut cursor), Ok(BinaryOperator::Divide));
    assert_eq!(
        BinaryOperator::new(&mut cursor),
        Err(Error::InvalidOperatorToken(Token::KeywordEnd))
    );
    assert_eq!(BinaryOperator::new(&mut cursor), Err(Error::EndOfInput));
}

#[test]
fn test_statement_let() -> Result<(), Error> {
    let glot_line = GlotLine::new("LET A = 5")?;
    let statement = Statement::new(glot_line.tokens)?;

    assert_eq!(
        statement,
        Statement::Let {
            variable: 'A',
            expression: Expression {
                items: vec![ExpressionItem::Term(Term::Number(5))]
            }
        }
    );

    Ok(())
}

#[test]
fn test_statement_let_expression() -> Result<(), Error> {
    let glot_line = GlotLine::new("LET X = A + 10 * B")?;
    let statement = Statement::new(glot_line.tokens)?;

    assert_eq!(
        statement,
        Statement::Let {
            variable: 'X',
            expression: Expression {
                items: vec![
                    ExpressionItem::Term(Term::Variable('A')),
                    ExpressionItem::Operator(BinaryOperator::Add),
                    ExpressionItem::Term(Term::Number(10)),
                    ExpressionItem::Operator(BinaryOperator::Multiply),
                    ExpressionItem::Term(Term::Variable('B')),
                ]
            }
        }
    );

    Ok(())
}

#[test]
fn test_statement_print_string() {
    let tokens = vec![
        Token::KeywordPrint,
        Token::StringLiteral("HELLO".to_string()),
    ];
    let statement = Statement::new(tokens);

    assert_eq!(
        statement,
        Ok(Statement::PrintString {
            value: "HELLO".to_string()
        })
    );
}

#[test]
fn test_statement_print_expression() -> Result<(), Error> {
    let glot_line = GlotLine::new("PRINT G")?;
    let statement = Statement::new(glot_line.tokens)?;

    assert_eq!(
        statement,
        Statement::PrintExpr {
            expression: Expression {
                items: vec![ExpressionItem::Term(Term::Variable('G'))]
            }
        }
    );

    let glot_line = GlotLine::new("PRINT 2 + 2")?;
    let statement = Statement::new(glot_line.tokens)?;

    assert_eq!(
        statement,
        Statement::PrintExpr {
            expression: Expression {
                items: vec![
                    ExpressionItem::Term(Term::Number(2)),
                    ExpressionItem::Operator(BinaryOperator::Add),
                    ExpressionItem::Term(Term::Number(2)),
                ]
            }
        }
    );

    Ok(())
}

#[test]
fn test_statement_end() -> Result<(), Error> {
    let glot_line = GlotLine::new("END")?;
    assert_eq!(Statement::new(glot_line.tokens), Ok(Statement::End));

    Ok(())
}

#[test]
fn test_statement_errors() -> Result<(), Error> {
    // An empty line holds no statement.
    assert_eq!(Statement::new(Vec::new()), Err(Error::EndOfInput));

    // A statement must open with a keyword.
    let glot_line = GlotLine::new("10 PRINT G")?;
    assert_eq!(
        Statement::new(glot_line.tokens),
        Err(Error::UnexpectedToken(Token::Number(10)))
    );

    // LET demands a variable, the assignment operator and an expression.
    let glot_line = GlotLine::new("LET")?;
    assert_eq!(Statement::new(glot_line.tokens), Err(Error::EndOfInput));

    let glot_line = GlotLine::new("LET 5 = 5")?;
    assert_eq!(
        Statement::new(glot_line.tokens),
        Err(Error::UnexpectedToken(Token::Number(5)))
    );

    let glot_line = GlotLine::new("LET A")?;
    assert_eq!(Statement::new(glot_line.tokens), Err(Error::EndOfInput));

    let glot_line = GlotLine::new("LET A 5")?;
    assert_eq!(
        Statement::new(glot_line.tokens),
        Err(Error::UnexpectedToken(Token::Number(5)))
    );

    let glot_line = GlotLine::new("LET A =")?;
    assert_eq!(Statement::new(glot_line.tokens), Err(Error::EndOfInput));

    let glot_line = GlotLine::new("LET A = 5 +")?;
    assert_eq!(Statement::new(glot_line.tokens), Err(Error::EndOfInput));

    // PRINT demands a string literal or an expression.
    let glot_line = GlotLine::new("PRINT")?;
    assert_eq!(Statement::new(glot_line.tokens), Err(Error::EndOfInput));

    let glot_line = GlotLine::new("PRINT = 5")?;
    assert_eq!(
        Statement::new(glot_line.tokens),
        Err(Error::UnexpectedToken(Token::Equals))
    );

    let glot_line = GlotLine::new("PRINT A =")?;
    assert_eq!(
        Statement::new(glot_line.tokens),
        Err(Error::InvalidOperatorToken(Token::Equals))
    );

    Ok(())
}
