use glot::render::render;
use glot::tokenizer::GlotLine;
use glot::tokenizer::Token;
use glot::Error;

#[test]
fn test_render_round_trip() -> Result<(), Error> {
    let line = "10 PRINT G";
    let glot_line = GlotLine::new(line)?;

    let text: String = render(&glot_line.tokens).iter().collect();
    assert_eq!(text, "10 PRINT G");

    let again = GlotLine::new(&text)?;
    assert_eq!(again.tokens, glot_line.tokens);

    Ok(())
}

#[test]
fn test_render_normalizes_whitespace() -> Result<(), Error> {
    // Rendering forgets the original spacing but keeps the tokens.
    let glot_line = GlotLine::new("\tLET  A=5   ")?;

    let text: String = render(&glot_line.tokens).iter().collect();
    assert_eq!(text, "LET A = 5");

    let again = GlotLine::new(&text)?;
    assert_eq!(again.tokens, glot_line.tokens);

    Ok(())
}

#[test]
fn test_render_spellings() -> Result<(), Error> {
    let tokens = vec![
        Token::KeywordPrint,
        Token::Number(0),
        Token::OperatorPlus,
        Token::Number(12034),
        Token::OperatorMinus,
        Token::OperatorMultiply,
        Token::OperatorDivide,
        Token::KeywordEnd,
        Token::Identifier('Z'),
    ];

    let text: String = render(&tokens).iter().collect();
    assert_eq!(text, "PRINT 0 + 12034 - * / END Z");

    let again = GlotLine::new(&text)?;
    assert_eq!(again.tokens, tokens);

    Ok(())
}
