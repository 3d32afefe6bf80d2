use vstd::prelude::*;

use crate::tokenizer::digit_run_end;
use crate::tokenizer::digit_value;
use crate::tokenizer::digits_value;
use crate::tokenizer::is_digit_char;
use crate::tokenizer::is_upper_char;
use crate::tokenizer::is_whitespace_char;
use crate::tokenizer::lemma_digit_run_end_bounds;
use crate::tokenizer::lemma_digit_run_end_is;
use crate::tokenizer::lemma_upper_run_end_bounds;
use crate::tokenizer::lemma_upper_run_end_is;
use crate::tokenizer::spec_tokenize;
use crate::tokenizer::spec_tokenize_from;
use crate::tokenizer::spells_end;
use crate::tokenizer::spells_let;
use crate::tokenizer::spells_print;
use crate::tokenizer::upper_run_end;
use crate::tokenizer::with_token;
use crate::tokenizer::Token;
use crate::tokenizer::TokenizeError;

verus! {

/// The decimal digit character for one digit value.
pub open spec fn digit_char(d: nat) -> char
    recommends
        d < 10,
{
    if d == 0 {
        '0'
    } else if d == 1 {
        '1'
    } else if d == 2 {
        '2'
    } else if d == 3 {
        '3'
    } else if d == 4 {
        '4'
    } else if d == 5 {
        '5'
    } else if d == 6 {
        '6'
    } else if d == 7 {
        '7'
    } else if d == 8 {
        '8'
    } else {
        '9'
    }
}

/// The decimal spelling of a number, most significant digit first, with no
/// leading zero except for the number zero itself.
pub open spec fn dec_digits(n: nat) -> Seq<char>
    decreases n,
{
    if n < 10 {
        seq![digit_char(n)]
    } else {
        dec_digits(n / 10).push(digit_char(n % 10))
    }
}

proof fn lemma_digit_char_value(d: nat)
    requires
        d < 10,
    ensures
        is_digit_char(digit_char(d)),
        digit_value(digit_char(d)) == d,
{
}

/// A decimal spelling is a nonempty run of digits whose numeric value is
/// the number it spells.
pub proof fn lemma_dec_digits(n: nat)
    ensures
        dec_digits(n).len() >= 1,
        forall|k: int| 0 <= k < dec_digits(n).len() ==> is_digit_char(dec_digits(n)[k]),
        digits_value(dec_digits(n)) == n,
    decreases n,
{
    if n < 10 {
        lemma_digit_char_value(n);
        assert(dec_digits(n) =~= seq![digit_char(n)]);
        assert(dec_digits(n).drop_last() =~= Seq::<char>::empty());
        assert(digits_value(Seq::<char>::empty()) == 0);
        assert(dec_digits(n).last() == digit_char(n));
    } else {
        lemma_dec_digits(n / 10);
        lemma_digit_char_value(n % 10);
        let s = dec_digits(n);
        assert(s == dec_digits(n / 10).push(digit_char(n % 10)));
        assert(s.drop_last() =~= dec_digits(n / 10));
        assert(s.last() == digit_char(n % 10));
        assert(forall|k: int|
            0 <= k < s.len() ==> is_digit_char(
                #[trigger] s[k],
            )) by {
            assert(forall|k: int| 0 <= k < s.len() - 1 ==> s[k] == dec_digits(n / 10)[k]);
        }
        assert(n / 10 * 10 + n % 10 == n);
    }
}

/// A digit run ending shifts with the text: cutting `i` characters off the
/// front moves it left by `i`.
proof fn lemma_digit_run_end_shift(s: Seq<char>, i: int, j: int)
    requires
        0 <= i <= j <= s.len(),
    ensures
        digit_run_end(s, j) == i + digit_run_end(s.skip(i), j - i),
    decreases s.len() - j,
{
    if j < s.len() && is_digit_char(s[j]) {
        assert(s.skip(i)[j - i] == s[j]);
        lemma_digit_run_end_shift(s, i, j + 1);
    }
}

/// A letter run ending shifts with the text in the same way.
proof fn lemma_upper_run_end_shift(s: Seq<char>, i: int, j: int)
    requires
        0 <= i <= j <= s.len(),
    ensures
        upper_run_end(s, j) == i + upper_run_end(s.skip(i), j - i),
    decreases s.len() - j,
{
    if j < s.len() && is_upper_char(s[j]) {
        assert(s.skip(i)[j - i] == s[j]);
        lemma_upper_run_end_shift(s, i, j + 1);
    }
}

/// Tokenization never looks back: the scan from position `j` reads the same
/// tokens whether or not the first `i` characters are cut off the front.
proof fn lemma_tokenize_shift(s: Seq<char>, i: int, j: int)
    requires
        0 <= i <= j <= s.len(),
    ensures
        spec_tokenize_from(s, j) == spec_tokenize_from(s.skip(i), j - i),
    decreases s.len() - j,
{
    let s2 = s.skip(i);
    if j < s.len() {
        let c = s[j];
        assert(s2[j - i] == c);
        if is_whitespace_char(c) || c == '+' || c == '-' || c == '*' || c == '/' || c == '=' {
            lemma_tokenize_shift(s, i, j + 1);
        } else if is_digit_char(c) {
            lemma_digit_run_end_bounds(s, j);
            let e = digit_run_end(s, j);
            lemma_digit_run_end_shift(s, i, j);
            assert(s.subrange(j, e) =~= s2.subrange(j - i, e - i));
            lemma_tokenize_shift(s, i, e);
        } else if is_upper_char(c) {
            lemma_upper_run_end_bounds(s, j);
            let e = upper_run_end(s, j);
            lemma_upper_run_end_shift(s, i, j);
            assert(s.subrange(j, e) =~= s2.subrange(j - i, e - i));
            lemma_tokenize_shift(s, i, e);
        }
    }
}

/// The source spelling of one token: keyword letters, the one letter of a
/// variable, the decimal digits of a number, or an operator character.
pub open spec fn token_text(t: Token) -> Seq<char> {
    match t {
        Token::KeywordLet => seq!['L', 'E', 'T'],
        Token::KeywordPrint => seq!['P', 'R', 'I', 'N', 'T'],
        Token::KeywordEnd => seq!['E', 'N', 'D'],
        Token::Identifier(c) => seq![c],
        Token::Number(n) => dec_digits(n as nat),
        Token::StringLiteral(_) => Seq::empty(),
        Token::Equals => seq!['='],
        Token::OperatorPlus => seq!['+'],
        Token::OperatorMinus => seq!['-'],
        Token::OperatorMultiply => seq!['*'],
        Token::OperatorDivide => seq!['/'],
    }
}

/// A token whose source spelling the renderer can reconstruct: every token
/// the tokenizer itself produces. An identifier must hold one uppercase
/// letter, and a string literal has no source spelling in this language.
pub open spec fn renderable_token(t: Token) -> bool {
    match t {
        Token::Identifier(c) => is_upper_char(c),
        Token::StringLiteral(_) => false,
        _ => true,
    }
}

/// The reconstructed source text of a token sequence: the tokens\' spellings
/// joined by single spaces.
pub open spec fn spec_render(toks: Seq<Token>) -> Seq<char>
    decreases toks.len(),
{
    if toks.len() == 0 {
        Seq::empty()
    } else if toks.len() == 1 {
        token_text(toks[0])
    } else {
        token_text(toks[0]) + seq![' '] + spec_render(toks.drop_first())
    }
}

/// Text that opens with one token\'s spelling, followed by a space or
/// nothing, tokenizes to that token and whatever follows the spelling.
proof fn lemma_token_at_start(s: Seq<char>, t: Token)
    requires
        renderable_token(t),
        token_text(t).len() <= s.len(),
        s.subrange(0, token_text(t).len() as int) == token_text(t),
        s.len() == token_text(t).len() || s[token_text(t).len() as int] == ' ',
    ensures
        spec_tokenize_from(s, 0) == with_token(
            t,
            spec_tokenize_from(s, token_text(t).len() as int),
        ),
{
    let text = token_text(t);
    let e = text.len() as int;
    assert(forall|k: int| 0 <= k < e ==> s[k] == text[k]) by {
        assert(forall|k: int| 0 <= k < e ==> s.subrange(0, e)[k] == s[k]);
    }
    match t {
        Token::KeywordLet => {
            assert(forall|k: int| 0 <= k < e ==> is_upper_char(s[k]));
            lemma_upper_run_end_is(s, 0, e);
            assert(spells_let(s.subrange(0, e)));
        },
        Token::KeywordPrint => {
            assert(forall|k: int| 0 <= k < e ==> is_upper_char(s[k]));
            lemma_upper_run_end_is(s, 0, e);
            assert(spells_print(s.subrange(0, e)));
            assert(!spells_let(s.subrange(0, e)));
        },
        Token::KeywordEnd => {
            assert(forall|k: int| 0 <= k < e ==> is_upper_char(s[k]));
            lemma_upper_run_end_is(s, 0, e);
            assert(spells_end(s.subrange(0, e)));
            assert(!spells_let(s.subrange(0, e)));
            assert(!spells_print(s.subrange(0, e)));
        },
        Token::Identifier(c) => {
            assert(s[0] == c && is_upper_char(c));
            lemma_upper_run_end_is(s, 0, 1);
            assert(s.subrange(0, 1) =~= seq![c]);
            assert(!spells_let(s.subrange(0, 1)));
            assert(!spells_print(s.subrange(0, 1)));
            assert(!spells_end(s.subrange(0, 1)));
        },
        Token::Number(n) => {
            lemma_dec_digits(n as nat);
            assert(forall|k: int| 0 <= k < e ==> is_digit_char(s[k]));
            lemma_digit_run_end_is(s, 0, e);
            assert(digits_value(s.subrange(0, e)) == n as nat);
        },
        Token::StringLiteral(_) => {
            assert(false);
        },
        Token::Equals => {
            assert(s[0] == '=');
        },
        Token::OperatorPlus => {
            assert(s[0] == '+');
        },
        Token::OperatorMinus => {
            assert(s[0] == '-');
        },
        Token::OperatorMultiply => {
            assert(s[0] == '*');
        },
        Token::OperatorDivide => {
            assert(s[0] == '/');
        },
    }
}

/// Round trip: re-tokenizing the reconstructed source text of a token
/// sequence yields exactly that sequence, for every sequence of tokens the
/// tokenizer can produce.
pub proof fn lemma_render_tokenize_round_trip(toks: Seq<Token>)
    requires
        forall|k: int| 0 <= k < toks.len() ==> renderable_token(#[trigger] toks[k]),
    ensures
        spec_tokenize(spec_render(toks)) == Ok::<Seq<Token>, TokenizeError>(toks),
    decreases toks.len(),
{
    let s = spec_render(toks);
    if toks.len() == 0 {
        assert(spec_tokenize(s) == Ok::<Seq<Token>, TokenizeError>(Seq::empty()));
        assert(toks =~= Seq::<Token>::empty());
    } else if toks.len() == 1 {
        let t = toks[0];
        assert(s == token_text(t));
        assert(s.subrange(0, s.len() as int) =~= s);
        lemma_token_at_start(s, t);
        assert(spec_tokenize_from(s, s.len() as int) == Ok::<Seq<Token>, TokenizeError>(
            Seq::empty(),
        ));
        assert(seq![t] + Seq::<Token>::empty() =~= seq![t]);
        assert(toks =~= seq![t]);
    } else {
        let t = toks[0];
        let rest = toks.drop_first();
        let text = token_text(t);
        let e = text.len() as int;
        assert(s == text + seq![' '] + spec_render(rest));
        assert(s.subrange(0, e) =~= text);
        assert(s[e] == ' ');
        lemma_token_at_start(s, t);
        assert(spec_tokenize_from(s, e) == spec_tokenize_from(s, e + 1));
        lemma_tokenize_shift(s, e + 1, e + 1);
        assert(s.skip(e + 1) =~= spec_render(rest));
        assert(forall|k: int| 0 <= k < rest.len() ==> renderable_token(#[trigger] rest[k])) by {
            assert(forall|k: int| 0 <= k < rest.len() ==> rest[k] == toks[k + 1]);
        }
        lemma_render_tokenize_round_trip(rest);
        assert(spec_tokenize_from(s, e + 1) == Ok::<Seq<Token>, TokenizeError>(rest));
        assert(seq![t] + rest =~= toks);
    }
}

/// The rendered text of the tokens from position `i` on, each preceded by
/// its separating space.
pub open spec fn spec_render_tail(toks: Seq<Token>, i: int) -> Seq<char>
    decreases toks.len() - i,
{
    if i < 0 || i >= toks.len() {
        Seq::empty()
    } else {
        seq![' '] + token_text(toks[i]) + spec_render_tail(toks, i + 1)
    }
}

proof fn lemma_render_tail_drop(toks: Seq<Token>, i: int)
    requires
        0 <= i,
        toks.len() >= 1,
    ensures
        spec_render_tail(toks.drop_first(), i) == spec_render_tail(toks, i + 1),
    decreases toks.len() - i,
{
    let rest = toks.drop_first();
    if i < rest.len() {
        assert(rest[i] == toks[i + 1]);
        lemma_render_tail_drop(toks, i + 1);
    }
}

/// A nonempty render is its first token\'s spelling followed by the rest,
/// each with its separating space.
proof fn lemma_render_head(toks: Seq<Token>)
    requires
        toks.len() >= 1,
    ensures
        spec_render(toks) == token_text(toks[0]) + spec_render_tail(toks, 1),
    decreases toks.len(),
{
    if toks.len() == 1 {
        assert(spec_render_tail(toks, 1) =~= Seq::<char>::empty());
        assert(token_text(toks[0]) + Seq::<char>::empty() =~= token_text(toks[0]));
    } else {
        let rest = toks.drop_first();
        lemma_render_head(rest);
        lemma_render_tail_drop(toks, 1);
        assert(rest[0] == toks[1]);
        assert(spec_render_tail(toks, 1) == seq![' '] + token_text(toks[1]) + spec_render_tail(
            toks,
            2,
        ));
        assert(token_text(toks[0]) + seq![' '] + (token_text(toks[1]) + spec_render_tail(toks, 2))
            =~= token_text(toks[0]) + (seq![' '] + token_text(toks[1]) + spec_render_tail(
            toks,
            2,
        )));
    }
}

/// The digit character of one digit value, as executable code.
fn digit_char_exec(d: u64) -> (c: char)
    requires
        d < 10,
    ensures
        c == digit_char(d as nat),
{
    if d == 0 {
        '0'
    } else if d == 1 {
        '1'
    } else if d == 2 {
        '2'
    } else if d == 3 {
        '3'
    } else if d == 4 {
        '4'
    } else if d == 5 {
        '5'
    } else if d == 6 {
        '6'
    } else if d == 7 {
        '7'
    } else if d == 8 {
        '8'
    } else {
        '9'
    }
}

/// Appends the decimal spelling of a number.
fn push_number(out: &mut Vec<char>, n: u64)
    ensures
        final(out)@ == old(out)@ + dec_digits(n as nat),
{
    let ghost out0 = out@;
    let mut digits: Vec<char> = Vec::new();
    let first = digit_char_exec(n % 10);
    digits.push(first);
    let mut m: u64 = n / 10;
    proof {
        if n < 10 {
            assert(digits@.reverse() =~= seq![digit_char(n as nat)]);
            assert(dec_digits(n as nat) == digits@.reverse());
        } else {
            assert(m == n as nat / 10);
            assert(n as nat % 10 == (n % 10) as nat);
            assert(dec_digits(m as nat) + digits@.reverse() =~= dec_digits(m as nat).push(
                digit_char(n as nat % 10),
            ));
            assert(dec_digits(n as nat) == dec_digits(m as nat) + digits@.reverse());
        }
    }
    while m > 0
        invariant
            digits@.len() >= 1,
            m > 0 ==> dec_digits(n as nat) == dec_digits(m as nat) + digits@.reverse(),
            m == 0 ==> dec_digits(n as nat) == digits@.reverse(),
        decreases m,
    {
        let ghost digits0 = digits@;
        let ghost m0 = m;
        let d = digit_char_exec(m % 10);
        digits.push(d);
        m = m / 10;
        proof {
            assert(digits@.reverse() =~= seq![digit_char(m0 as nat % 10)] + digits0.reverse());
            if m0 < 10 {
                assert(dec_digits(m0 as nat) == seq![digit_char(m0 as nat)]);
                assert(dec_digits(m0 as nat) + digits0.reverse() =~= digits@.reverse());
            } else {
                assert(dec_digits(m0 as nat) == dec_digits(m0 as nat / 10).push(
                    digit_char(m0 as nat % 10),
                ));
                assert(dec_digits(m0 as nat) + digits0.reverse() =~= dec_digits(m as nat)
                    + digits@.reverse());
            }
        }
    }
    let mut k = digits.len();
    while k > 0
        invariant
            k <= digits@.len(),
            dec_digits(n as nat) == digits@.reverse(),
            out@ == out0 + digits@.reverse().take(digits@.len() - k),
        decreases k,
    {
        let ghost out_prev = out@;
        k = k - 1;
        let c = digits[k];
        out.push(c);
        proof {
            let rev = digits@.reverse();
            assert(c == rev[digits@.len() - 1 - k]);
            assert(out@ =~= out0 + rev.take(digits@.len() - k));
        }
    }
    proof {
        assert(digits@.reverse().take(digits@.len() as int) =~= digits@.reverse());
    }
}

/// Appends the source spelling of one token.
fn push_token_text(out: &mut Vec<char>, t: &Token)
    requires
        renderable_token(*t),
    ensures
        final(out)@ == old(out)@ + token_text(*t),
{
    let ghost out0 = out@;
    match t {
        Token::KeywordLet => {
            out.push('L');
            out.push('E');
            out.push('T');
            proof {
                assert(out@ =~= out0 + token_text(*t));
            }
        },
        Token::KeywordPrint => {
            out.push('P');
            out.push('R');
            out.push('I');
            out.push('N');
            out.push('T');
            proof {
                assert(out@ =~= out0 + token_text(*t));
            }
        },
        Token::KeywordEnd => {
            out.push('E');
            out.push('N');
            out.push('D');
            proof {
                assert(out@ =~= out0 + token_text(*t));
            }
        },
        Token::Identifier(c) => {
            out.push(*c);
            proof {
                assert(out@ =~= out0 + token_text(*t));
            }
        },
        Token::Number(n) => {
            push_number(out, *n);
        },
        Token::StringLiteral(_) => {
            proof {
                assert(false);
            }
        },
        Token::Equals => {
            out.push('=');
            proof {
                assert(out@ =~= out0 + token_text(*t));
            }
        },
        Token::OperatorPlus => {
            out.push('+');
            proof {
                assert(out@ =~= out0 + token_text(*t));
            }
        },
        Token::OperatorMinus => {
            out.push('-');
            proof {
                assert(out@ =~= out0 + token_text(*t));
            }
        },
        Token::OperatorMultiply => {
            out.push('*');
            proof {
                assert(out@ =~= out0 + token_text(*t));
            }
        },
        Token::OperatorDivide => {
            out.push('/');
            proof {
                assert(out@ =~= out0 + token_text(*t));
            }
        },
    }
}

/// Reconstructs the source text of a token sequence, as its characters:
/// the tokens\' spellings joined by single spaces, exactly
/// [`spec_render`]. Re-tokenizing this text yields the same tokens
/// ([`lemma_render_tokenize_round_trip`]).
pub fn render(tokens: &Vec<Token>) -> (r: Vec<char>)
    requires
        forall|k: int| 0 <= k < tokens@.len() ==> renderable_token(#[trigger] tokens@[k]),
    ensures
        r@ == spec_render(tokens@),
{
    let mut out: Vec<char> = Vec::new();
    if tokens.len() == 0 {
        proof {
            assert(out@ =~= spec_render(tokens@));
        }
        return out;
    }
    push_token_text(&mut out, &tokens[0]);
    proof {
        lemma_render_head(tokens@);
        assert(out@ =~= Seq::<char>::empty() + token_text(tokens@[0]));
        assert(out@ =~= token_text(tokens@[0]));
    }
    let mut i: usize = 1;
    while i < tokens.len()
        invariant
            1 <= i <= tokens@.len(),
            forall|k: int| 0 <= k < tokens@.len() ==> renderable_token(#[trigger] tokens@[k]),
            spec_render(tokens@) == out@ + spec_render_tail(tokens@, i as int),
        decreases tokens@.len() - i,
    {
        let ghost out_prev = out@;
        out.push(' ');
        push_token_text(&mut out, &tokens[i]);
        proof {
            assert(spec_render_tail(tokens@, i as int) == seq![' '] + token_text(tokens@[i as int])
                + spec_render_tail(tokens@, i + 1));
            assert(out@ =~= out_prev + (seq![' '] + token_text(tokens@[i as int])));
            assert(out_prev + (seq![' '] + token_text(tokens@[i as int])) + spec_render_tail(
                tokens@,
                i + 1,
            ) =~= out_prev + spec_render_tail(tokens@, i as int));
        }
        i += 1;
    }
    proof {
        assert(spec_render_tail(tokens@, i as int) =~= Seq::<char>::empty());
        assert(out@ + Seq::<char>::empty() =~= out@);
    }
    out
}

} // verus!
