use glot::tokenizer::GlotLine;
use glot::tokenizer::Token;
use glot::Error;

#[test]
fn test_tokenizer_print_var() -> Result<(), Error> {
    let line = "10 PRINT G";
    let expected_tokens = [
        Token::Number(10),
        Token::KeywordPrint,
        Token::Identifier('G'),
    ];

    let glot_line = GlotLine::new(&line)?;
    assert_eq!(glot_line.tokens, expected_tokens);

    Ok(())
}

#[test]
fn test_tokenize_whitespace_only() -> Result<(), Error> {
    for line in ["", " ", "   ", "\t", " \t\r\n ", "\r\r", "\n \t"] {
        let glot_line = GlotLine::new(line)?;
        assert_eq!(glot_line.tokens, Vec::new());
    }

    Ok(())
}

#[test]
fn test_tokenize_number_value() -> Result<(), Error> {
    let glot_line = GlotLine::new("12345")?;
    assert_eq!(glot_line.tokens, [Token::Number(12345)]);

    let glot_line = GlotLine::new("0042")?;
    assert_eq!(glot_line.tokens, [Token::Number(42)]);

    // The largest representable number still tokenizes.
    let glot_line = GlotLine::new("18446744073709551615")?;
    assert_eq!(glot_line.tokens, [Token::Number(u64::MAX)]);

    Ok(())
}

#[test]
fn test_tokenize_number_overflow() -> Result<(), Error> {
    // One past the largest representable number fails, naming the whole run.
    let result = GlotLine::new("18446744073709551616");
    assert_eq!(
        result,
        Err(Error::InvalidNumber("18446744073709551616".to_string()))
    );

    let result = GlotLine::new("10 PRINT 99999999999999999999");
    assert_eq!(
        result,
        Err(Error::InvalidNumber("99999999999999999999".to_string()))
    );

    Ok(())
}

#[test]
fn test_tokenize_single_letters() -> Result<(), Error> {
    // Every single uppercase letter is an identifier, never a keyword.
    for (i, line) in [
        "A", "B", "C", "D", "E", "F", "G", "H", "I", "J", "K", "L", "M", "N", "O", "P", "Q", "R",
        "S", "T", "U", "V", "W", "X", "Y", "Z",
    ]
    .iter()
    .enumerate()
    {
        let glot_line = GlotLine::new(line)?;
        let letter = (b'A' + i as u8) as char;
        assert_eq!(glot_line.tokens, [Token::Identifier(letter)]);
    }

    Ok(())
}

#[test]
fn test_tokenize_keywords() -> Result<(), Error> {
    let glot_line = GlotLine::new("LET")?;
    assert_eq!(glot_line.tokens, [Token::KeywordLet]);

    let glot_line = GlotLine::new("PRINT")?;
    assert_eq!(glot_line.tokens, [Token::KeywordPrint]);

    let glot_line = GlotLine::new("END")?;
    assert_eq!(glot_line.tokens, [Token::KeywordEnd]);

    Ok(())
}

#[test]
fn test_tokenize_invalid_identifier() -> Result<(), Error> {
    // A multi-letter run that spells no keyword is one invalid identifier,
    // never two variables.
    assert_eq!(
        GlotLine::new("AB"),
        Err(Error::InvalidIdentifier("AB".to_string()))
    );
    assert_eq!(
        GlotLine::new("LETX"),
        Err(Error::InvalidIdentifier("LETX".to_string()))
    );
    assert_eq!(
        GlotLine::new("PRINTS"),
        Err(Error::InvalidIdentifier("PRINTS".to_string()))
    );
    assert_eq!(
        GlotLine::new("EN"),
        Err(Error::InvalidIdentifier("EN".to_string()))
    );

    // A single letter succeeds.
    let glot_line = GlotLine::new("A")?;
    assert_eq!(glot_line.tokens, [Token::Identifier('A')]);

    Ok(())
}

#[test]
fn test_tokenize_invalid_character() {
    assert_eq!(GlotLine::new("a"), Err(Error::InvalidCharacter('a')));
    assert_eq!(GlotLine::new(";"), Err(Error::InvalidCharacter(';')));
    assert_eq!(GlotLine::new("@"), Err(Error::InvalidCharacter('@')));
    assert_eq!(GlotLine::new("LET a = 5"), Err(Error::InvalidCharacter('a')));
    assert_eq!(GlotLine::new("(1)"), Err(Error::InvalidCharacter('(')));
}

#[test]
fn test_tokenize_operators_and_assignment() -> Result<(), Error> {
    let glot_line = GlotLine::new("LET A = 1+2-3*4/5")?;
    assert_eq!(
        glot_line.tokens,
        [
            Token::KeywordLet,
            Token::Identifier('A'),
            Token::Equals,
            Token::Number(1),
            Token::OperatorPlus,
            Token::Number(2),
            Token::OperatorMinus,
            Token::Number(3),
            Token::OperatorMultiply,
            Token::Number(4),
            Token::OperatorDivide,
            Token::Number(5),
        ]
    );

    Ok(())
}

#[test]
fn test_tokenize_maximal_munch_boundaries() -> Result<(), Error> {
    // Runs end exactly where the character class changes.
    let glot_line = GlotLine::new("10LET20")?;
    assert_eq!(
        glot_line.tokens,
        [Token::Number(10), Token::KeywordLet, Token::Number(20)]
    );

    Ok(())
}
