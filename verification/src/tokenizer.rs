use vstd::prelude::*;
use vstd::string::StrSliceExecFns;

use crate::Error;

verus! {

/// The smallest classified unit of source text: a keyword, a variable name,
/// a literal or an operator.
///
/// An `Identifier` produced by the tokenizer always holds exactly one
/// uppercase ASCII letter: longer letter runs are rejected outright, so a
/// multi-letter variable can never arise. A `StringLiteral` never comes out
/// of the tokenizer; it exists for token sequences assembled by a
/// surrounding program.
#[derive(Debug, Clone, PartialEq)]
pub enum Token {
    KeywordLet,
    KeywordPrint,
    KeywordEnd,
    Identifier(char),
    Number(u64),
    StringLiteral(String),
    Equals,
    OperatorPlus,
    OperatorMinus,
    OperatorMultiply,
    OperatorDivide,
}

/// The abstract outcome of a failed tokenization: which kind of failure,
/// with the offending character or text run. Used only in specifications;
/// the executable result carries the same data inside [`Error`].
pub enum TokenizeError {
    Character(char),
    Identifier(Seq<char>),
    Number(Seq<char>),
}

/// The four characters the tokenizer skips between tokens.
pub open spec fn is_whitespace_char(c: char) -> bool {
    c == ' ' || c == '\t' || c == '\r' || c == '\n'
}

/// A decimal digit `0`..`9`.
pub open spec fn is_digit_char(c: char) -> bool {
    '0' as u32 <= c as u32 <= '9' as u32
}

/// An uppercase ASCII letter `A`..`Z`.
pub open spec fn is_upper_char(c: char) -> bool {
    'A' as u32 <= c as u32 <= 'Z' as u32
}

/// The numeric value of one decimal digit.
pub open spec fn digit_value(c: char) -> nat
    recommends
        is_digit_char(c),
{
    (c as u32 - '0' as u32) as nat
}

/// The numeric value of a run of decimal digits, most significant first.
pub open spec fn digits_value(s: Seq<char>) -> nat
    decreases s.len(),
{
    if s.len() == 0 {
        0
    } else {
        digits_value(s.drop_last()) * 10 + digit_value(s.last())
    }
}

/// The first position at or after `i` that does not hold a decimal digit
/// (or the end of the text): the end of the maximal digit run starting at `i`.
pub open spec fn digit_run_end(s: Seq<char>, i: int) -> int
    decreases s.len() - i,
{
    if i < 0 || i >= s.len() {
        i
    } else if is_digit_char(s[i]) {
        digit_run_end(s, i + 1)
    } else {
        i
    }
}

/// The end of the maximal uppercase-letter run starting at `i`.
pub open spec fn upper_run_end(s: Seq<char>, i: int) -> int
    decreases s.len() - i,
{
    if i < 0 || i >= s.len() {
        i
    } else if is_upper_char(s[i]) {
        upper_run_end(s, i + 1)
    } else {
        i
    }
}

/// The spelling of the assignment keyword.
pub open spec fn spells_let(s: Seq<char>) -> bool {
    s.len() == 3 && s[0] == 'L' && s[1] == 'E' && s[2] == 'T'
}

/// The spelling of the output keyword.
pub open spec fn spells_print(s: Seq<char>) -> bool {
    s.len() == 5 && s[0] == 'P' && s[1] == 'R' && s[2] == 'I' && s[3] == 'N' && s[4] == 'T'
}

/// The spelling of the terminator keyword.
pub open spec fn spells_end(s: Seq<char>) -> bool {
    s.len() == 3 && s[0] == 'E' && s[1] == 'N' && s[2] == 'D'
}

/// A letter run that is reserved: exactly one of the three keywords.
pub open spec fn is_keyword_spelling(s: Seq<char>) -> bool {
    spells_let(s) || spells_print(s) || spells_end(s)
}

/// Prepends one token to the result of tokenizing the rest of the text;
/// a failure further right stays a failure.
pub open spec fn with_token(
    t: Token,
    rest: Result<Seq<Token>, TokenizeError>,
) -> Result<Seq<Token>, TokenizeError> {
    match rest {
        Ok(ts) => Ok(seq![t] + ts),
        Err(e) => Err(e),
    }
}

/// The tokens of `s` from position `i` on: one left-to-right scan that skips
/// whitespace, takes each operator in one step, and consumes maximal digit
/// and letter runs. A digit run must fit in `u64`; a letter run must be a
/// keyword or a single letter; any other character fails at once.
pub open spec fn spec_tokenize_from(s: Seq<char>, i: int) -> Result<Seq<Token>, TokenizeError>
    decreases s.len() - i,
        via spec_tokenize_from_decreases
{
    if i < 0 || i >= s.len() {
        Ok(Seq::empty())
    } else {
        let c = s[i];
        if is_whitespace_char(c) {
            spec_tokenize_from(s, i + 1)
        } else if c == '+' {
            with_token(Token::OperatorPlus, spec_tokenize_from(s, i + 1))
        } else if c == '-' {
            with_token(Token::OperatorMinus, spec_tokenize_from(s, i + 1))
        } else if c == '*' {
            with_token(Token::OperatorMultiply, spec_tokenize_from(s, i + 1))
        } else if c == '/' {
            with_token(Token::OperatorDivide, spec_tokenize_from(s, i + 1))
        } else if c == '=' {
            with_token(Token::Equals, spec_tokenize_from(s, i + 1))
        } else if is_digit_char(c) {
            let j = digit_run_end(s, i);
            let run = s.subrange(i, j);
            if digits_value(run) <= u64::MAX {
                with_token(Token::Number(digits_value(run) as u64), spec_tokenize_from(s, j))
            } else {
                Err(TokenizeError::Number(run))
            }
        } else if is_upper_char(c) {
            let j = upper_run_end(s, i);
            let run = s.subrange(i, j);
            if spells_let(run) {
                with_token(Token::KeywordLet, spec_tokenize_from(s, j))
            } else if spells_print(run) {
                with_token(Token::KeywordPrint, spec_tokenize_from(s, j))
            } else if spells_end(run) {
                with_token(Token::KeywordEnd, spec_tokenize_from(s, j))
            } else if j == i + 1 {
                with_token(Token::Identifier(c), spec_tokenize_from(s, j))
            } else {
                Err(TokenizeError::Identifier(run))
            }
        } else {
            Err(TokenizeError::Character(c))
        }
    }
}

#[via_fn]
proof fn spec_tokenize_from_decreases(s: Seq<char>, i: int) {
    lemma_digit_run_end_bounds(s, i);
    lemma_upper_run_end_bounds(s, i);
}

/// The tokens of a whole line of source text, or the first failure.
pub open spec fn spec_tokenize(s: Seq<char>) -> Result<Seq<Token>, TokenizeError> {
    spec_tokenize_from(s, 0)
}

/// A maximal digit run ends strictly right of a digit and never past the end.
pub proof fn lemma_digit_run_end_bounds(s: Seq<char>, i: int)
    ensures
        0 <= i <= s.len() ==> i <= digit_run_end(s, i) <= s.len(),
        0 <= i < s.len() && is_digit_char(s[i]) ==> i < digit_run_end(s, i),
    decreases s.len() - i,
{
    if 0 <= i < s.len() && is_digit_char(s[i]) {
        lemma_digit_run_end_bounds(s, i + 1);
    }
}

/// A maximal letter run ends strictly right of a letter and never past the end.
pub proof fn lemma_upper_run_end_bounds(s: Seq<char>, i: int)
    ensures
        0 <= i <= s.len() ==> i <= upper_run_end(s, i) <= s.len(),
        0 <= i < s.len() && is_upper_char(s[i]) ==> i < upper_run_end(s, i),
    decreases s.len() - i,
{
    if 0 <= i < s.len() && is_upper_char(s[i]) {
        lemma_upper_run_end_bounds(s, i + 1);
    }
}

/// `digit_run_end` is the one position that closes a digit run: everything
/// from `i` to it is a digit, and it is the end of the text or a non-digit.
pub proof fn lemma_digit_run_end_is(s: Seq<char>, i: int, j: int)
    requires
        0 <= i <= j <= s.len(),
        forall|k: int| i <= k < j ==> is_digit_char(s[k]),
        j < s.len() ==> !is_digit_char(s[j]),
    ensures
        digit_run_end(s, i) == j,
    decreases j - i,
{
    if i < j {
        assert(is_digit_char(s[i]));
        lemma_digit_run_end_is(s, i + 1, j);
    }
}

/// `upper_run_end` is the one position that closes a letter run.
pub proof fn lemma_upper_run_end_is(s: Seq<char>, i: int, j: int)
    requires
        0 <= i <= j <= s.len(),
        forall|k: int| i <= k < j ==> is_upper_char(s[k]),
        j < s.len() ==> !is_upper_char(s[j]),
    ensures
        upper_run_end(s, i) == j,
    decreases j - i,
{
    if i < j {
        assert(is_upper_char(s[i]));
        lemma_upper_run_end_is(s, i + 1, j);
    }
}

/// Already-produced tokens, followed by whatever the rest of the scan gives.
pub open spec fn prepend_all(
    ts: Seq<Token>,
    rest: Result<Seq<Token>, TokenizeError>,
) -> Result<Seq<Token>, TokenizeError> {
    match rest {
        Ok(more) => Ok(ts + more),
        Err(e) => Err(e),
    }
}

proof fn lemma_prepend_shift(ts: Seq<Token>, t: Token, rest: Result<Seq<Token>, TokenizeError>)
    ensures
        prepend_all(ts, with_token(t, rest)) == prepend_all(ts.push(t), rest),
{
    match rest {
        Ok(more) => {
            assert(ts + (seq![t] + more) =~= ts.push(t) + more);
        },
        Err(_) => {},
    }
}

proof fn lemma_tokenize_whitespace_from(s: Seq<char>, i: int)
    requires
        0 <= i,
        forall|k: int| 0 <= k < s.len() ==> is_whitespace_char(s[k]),
    ensures
        spec_tokenize_from(s, i) == Ok::<Seq<Token>, TokenizeError>(Seq::empty()),
    decreases s.len() - i,
{
    if i < s.len() {
        assert(is_whitespace_char(s[i]));
        lemma_tokenize_whitespace_from(s, i + 1);
    }
}

/// Text composed only of whitespace tokenizes to the empty sequence and
/// never fails.
pub proof fn lemma_tokenize_whitespace(s: Seq<char>)
    requires
        forall|k: int| 0 <= k < s.len() ==> is_whitespace_char(s[k]),
    ensures
        spec_tokenize(s) == Ok::<Seq<Token>, TokenizeError>(Seq::empty()),
{
    lemma_tokenize_whitespace_from(s, 0);
}

/// A nonempty run of digits tokenizes to exactly one `Number` token holding
/// the run's numeric value when that value fits in `u64`, and fails with the
/// invalid-number error naming the run when it does not.
pub proof fn lemma_tokenize_digit_run(s: Seq<char>)
    requires
        s.len() >= 1,
        forall|k: int| 0 <= k < s.len() ==> is_digit_char(s[k]),
    ensures
        digits_value(s) <= u64::MAX ==> spec_tokenize(s) == Ok::<Seq<Token>, TokenizeError>(
            seq![Token::Number(digits_value(s) as u64)],
        ),
        digits_value(s) > u64::MAX ==> spec_tokenize(s) == Err::<Seq<Token>, TokenizeError>(
            TokenizeError::Number(s),
        ),
{
    assert(is_digit_char(s[0]));
    lemma_digit_run_end_is(s, 0, s.len() as int);
    assert(s.subrange(0, s.len() as int) =~= s);
    assert(spec_tokenize_from(s, s.len() as int) == Ok::<Seq<Token>, TokenizeError>(Seq::empty()));
    if digits_value(s) <= u64::MAX {
        assert(seq![Token::Number(digits_value(s) as u64)] + Seq::<Token>::empty()
            =~= seq![Token::Number(digits_value(s) as u64)]);
    }
}

/// A single uppercase letter tokenizes to exactly one `Identifier` token
/// holding that letter, never to a keyword: no keyword is spelled with one
/// letter.
pub proof fn lemma_tokenize_single_letter(c: char)
    requires
        is_upper_char(c),
    ensures
        spec_tokenize(seq![c]) == Ok::<Seq<Token>, TokenizeError>(seq![Token::Identifier(c)]),
{
    let s = seq![c];
    lemma_upper_run_end_is(s, 0, 1);
    assert(s.subrange(0, 1) =~= s);
    assert(!is_keyword_spelling(s));
    assert(spec_tokenize_from(s, 1) == Ok::<Seq<Token>, TokenizeError>(Seq::empty()));
    assert(seq![Token::Identifier(c)] + Seq::<Token>::empty() =~= seq![Token::Identifier(c)]);
}

/// A run of two or more uppercase letters that spells no keyword fails with
/// the invalid-identifier error naming the whole run: it is never split into
/// single-letter variables.
pub proof fn lemma_tokenize_letter_run(s: Seq<char>)
    requires
        s.len() >= 2,
        forall|k: int| 0 <= k < s.len() ==> is_upper_char(s[k]),
        !is_keyword_spelling(s),
    ensures
        spec_tokenize(s) == Err::<Seq<Token>, TokenizeError>(TokenizeError::Identifier(s)),
{
    assert(is_upper_char(s[0]));
    lemma_upper_run_end_is(s, 0, s.len() as int);
    assert(s.subrange(0, s.len() as int) =~= s);
}

/// A character that is no whitespace, no operator, no digit and no uppercase
/// letter fails tokenization at once with the invalid-character error naming
/// it.
pub proof fn lemma_tokenize_invalid_character(c: char)
    requires
        !is_whitespace_char(c),
        c != '+',
        c != '-',
        c != '*',
        c != '/',
        c != '=',
        !is_digit_char(c),
        !is_upper_char(c),
    ensures
        spec_tokenize(seq![c]) == Err::<Seq<Token>, TokenizeError>(TokenizeError::Character(c)),
{
    let s = seq![c];
    assert(s[0] == c);
}

/// Whether an executable error reports exactly a given abstract tokenization
/// failure, offending character or text run included.
pub open spec fn tokenize_error_matches(e: Error, te: TokenizeError) -> bool {
    match te {
        TokenizeError::Character(c) => e == Error::InvalidCharacter(c),
        TokenizeError::Identifier(run) => e matches Error::InvalidIdentifier(w) && w@ == run,
        TokenizeError::Number(run) => e matches Error::InvalidNumber(w) && w@ == run,
    }
}

/// One tokenized line of source text.
#[derive(Debug, Clone, PartialEq)]
pub struct GlotLine {
    pub tokens: Vec<Token>,
}

impl GlotLine {
    /// Tokenizes one line of source text by a single left-to-right scan.
    ///
    /// The result is exactly what [`spec_tokenize`] says of the line's
    /// characters: the token sequence on success, and otherwise the first
    /// failure, carrying the offending character, letter run or digit run.
    pub fn new(line: &str) -> (r: Result<GlotLine, Error>)
        ensures
            match spec_tokenize(line@) {
                Ok(toks) => r is Ok && r->Ok_0.tokens@ == toks,
                Err(te) => r is Err && tokenize_error_matches(r->Err_0, te),
            },
    {
        let len = line.unicode_len();
        let mut tokens: Vec<Token> = Vec::new();
        let mut i: usize = 0;

        proof {
            assert(prepend_all(tokens@, spec_tokenize_from(line@, 0)) == spec_tokenize(line@))
                by {
                match spec_tokenize_from(line@, 0) {
                    Ok(more) => {
                        assert(tokens@ + more =~= more);
                    },
                    Err(_) => {},
                }
            }
        }

        while i < len
            invariant
                len == line@.len(),
                i <= len,
                prepend_all(tokens@, spec_tokenize_from(line@, i as int)) == spec_tokenize(
                    line@,
                ),
            decreases len - i,
        {
            let c = line.get_char(i);
            let u = c as u32;
            if c == ' ' || c == '\t' || c == '\r' || c == '\n' {
                i += 1;
            } else if c == '+' {
                proof {
                    lemma_prepend_shift(
                        tokens@,
                        Token::OperatorPlus,
                        spec_tokenize_from(line@, i + 1),
                    );
                }
                tokens.push(Token::OperatorPlus);
                i += 1;
            } else if c == '-' {
                proof {
                    lemma_prepend_shift(
                        tokens@,
                        Token::OperatorMinus,
                        spec_tokenize_from(line@, i + 1),
                    );
                }
                tokens.push(Token::OperatorMinus);
                i += 1;
            } else if c == '*' {
                proof {
                    lemma_prepend_shift(
                        tokens@,
                        Token::OperatorMultiply,
                        spec_tokenize_from(line@, i + 1),
                    );
                }
                tokens.push(Token::OperatorMultiply);
                i += 1;
            } else if c == '/' {
                proof {
                    lemma_prepend_shift(
                        tokens@,
                        Token::OperatorDivide,
                        spec_tokenize_from(line@, i + 1),
                    );
                }
                tokens.push(Token::OperatorDivide);
                i += 1;
            } else if c == '=' {
                proof {
                    lemma_prepend_shift(tokens@, Token::Equals, spec_tokenize_from(line@, i + 1));
                }
                tokens.push(Token::Equals);
                i += 1;
            } else if 48 <= u && u <= 57 {
                let mut j = i;
                let mut value: u64 = 0;
                let mut too_big = false;
                loop
                    invariant
                        len == line@.len(),
                        i <= j <= len,
                        forall|k: int| i <= k < j ==> is_digit_char(line@[k]),
                        !too_big ==> value == digits_value(
                            line@.subrange(i as int, j as int),
                        ),
                        too_big ==> digits_value(line@.subrange(i as int, j as int))
                            > u64::MAX,
                    ensures
                        i <= j <= len,
                        forall|k: int| i <= k < j ==> is_digit_char(line@[k]),
                        j == len || !is_digit_char(line@[j as int]),
                        !too_big ==> value == digits_value(
                            line@.subrange(i as int, j as int),
                        ),
                        too_big ==> digits_value(line@.subrange(i as int, j as int))
                            > u64::MAX,
                    decreases len - j,
                {
                    if j >= len {
                        break ;
                    }
                    let ch = line.get_char(j);
                    let cu = ch as u32;
                    if !(48 <= cu && cu <= 57) {
                        break ;
                    }
                    let d: u64 = (cu - 48) as u64;
                    proof {
                        assert(line@.subrange(i as int, j + 1).drop_last() =~= line@.subrange(
                            i as int,
                            j as int,
                        ));
                        assert(line@.subrange(i as int, j + 1).last() == line@[j as int]);
                        assert(digit_value(line@[j as int]) == d);
                    }
                    if !too_big {
                        let limit = (u64::MAX - d) / 10;
                        if value <= limit {
                            proof {
                                assert(limit * 10 + (u64::MAX - d) % 10 == u64::MAX - d);
                                assert(value * 10 <= limit * 10);
                            }
                            value = value * 10 + d;
                        } else {
                            proof {
                                assert(limit * 10 + (u64::MAX - d) % 10 == u64::MAX - d);
                                assert(value * 10 >= (limit + 1) * 10);
                            }
                            too_big = true;
                        }
                    } else {
                        proof {
                            let prev = digits_value(line@.subrange(i as int, j as int));
                            assert(prev * 10 + d >= prev);
                        }
                    }
                    j += 1;
                }
                proof {
                    lemma_digit_run_end_is(line@, i as int, j as int);
                }
                if too_big {
                    let text = line.substring_char(i, j).to_owned();
                    return Err(Error::InvalidNumber(text));
                }
                proof {
                    lemma_prepend_shift(
                        tokens@,
                        Token::Number(value),
                        spec_tokenize_from(line@, j as int),
                    );
                }
                tokens.push(Token::Number(value));
                i = j;
            } else if 65 <= u && u <= 90 {
                let mut j = i;
                loop
                    invariant
                        len == line@.len(),
                        i <= j <= len,
                        forall|k: int| i <= k < j ==> is_upper_char(line@[k]),
                    ensures
                        i <= j <= len,
                        forall|k: int| i <= k < j ==> is_upper_char(line@[k]),
                        j == len || !is_upper_char(line@[j as int]),
                    decreases len - j,
                {
                    if j >= len {
                        break ;
                    }
                    let ch = line.get_char(j);
                    let cu = ch as u32;
                    if !(65 <= cu && cu <= 90) {
                        break ;
                    }
                    j += 1;
                }
                proof {
                    lemma_upper_run_end_is(line@, i as int, j as int);
                }
                let ghost run = line@.subrange(i as int, j as int);
                let run_len = j - i;
                if run_len == 3 && line.get_char(i) == 'L' && line.get_char(i + 1) == 'E'
                    && line.get_char(i + 2) == 'T' {
                    proof {
                        assert(spells_let(run));
                        lemma_prepend_shift(
                            tokens@,
                            Token::KeywordLet,
                            spec_tokenize_from(line@, j as int),
                        );
                    }
                    tokens.push(Token::KeywordLet);
                    i = j;
                } else if run_len == 5 && line.get_char(i) == 'P' && line.get_char(i + 1) == 'R'
                    && line.get_char(i + 2) == 'I' && line.get_char(i + 3) == 'N' && line.get_char(
                    i + 4,
                ) == 'T' {
                    proof {
                        assert(spells_print(run));
                        lemma_prepend_shift(
                            tokens@,
                            Token::KeywordPrint,
                            spec_tokenize_from(line@, j as int),
                        );
                    }
                    tokens.push(Token::KeywordPrint);
                    i = j;
                } else if run_len == 3 && line.get_char(i) == 'E' && line.get_char(i + 1) == 'N'
                    && line.get_char(i + 2) == 'D' {
                    proof {
                        assert(spells_end(run));
                        lemma_prepend_shift(
                            tokens@,
                            Token::KeywordEnd,
                            spec_tokenize_from(line@, j as int),
                        );
                    }
                    tokens.push(Token::KeywordEnd);
                    i = j;
                } else if run_len == 1 {
                    proof {
                        assert(!is_keyword_spelling(run));
                        lemma_prepend_shift(
                            tokens@,
                            Token::Identifier(c),
                            spec_tokenize_from(line@, j as int),
                        );
                    }
                    tokens.push(Token::Identifier(c));
                    i = j;
                } else {
                    proof {
                        assert(!is_keyword_spelling(run) ==> spec_tokenize_from(line@, i as int)
                            == Err::<Seq<Token>, TokenizeError>(TokenizeError::Identifier(run)));
                        assert(!spells_let(run));
                        assert(!spells_print(run));
                        assert(!spells_end(run));
                    }
                    let text = line.substring_char(i, j).to_owned();
                    return Err(Error::InvalidIdentifier(text));
                }
            } else {
                return Err(Error::InvalidCharacter(c));
            }
        }
        proof {
            assert(spec_tokenize_from(line@, len as int) == Ok::<Seq<Token>, TokenizeError>(
                Seq::empty(),
            ));
            assert(tokens@ + Seq::<Token>::empty() =~= tokens@);
        }
        Ok(GlotLine { tokens })
    }
}

} // verus!
