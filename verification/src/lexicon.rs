//! The words of the language: how text divides into tokens.

use vstd::prelude::*;
use crate::error::TokenizerErrorModel;
use crate::tokenizer::{Keyword, Operator, TokenModel, TokenValueModel};

verus! {

/// Whether the character separates tokens and is otherwise ignored.
pub open spec fn is_space(c: char) -> bool {
    c == ' ' || c == '\t' || c == '\n' || c == '\r'
}

/// Whether the character is a decimal digit.
pub open spec fn is_digit(c: char) -> bool {
    '0' <= c <= '9'
}

/// Whether the character can start a word: a letter of the Latin alphabet or an underscore.
pub open spec fn is_letter(c: char) -> bool {
    ('a' <= c <= 'z') || ('A' <= c <= 'Z') || c == '_'
}

/// Whether the character can continue a word.
pub open spec fn is_word(c: char) -> bool {
    is_letter(c) || is_digit(c)
}

/// The end of the longest run of word characters (`word`) or of digits that starts at `i`.
pub open spec fn run_end(chars: Seq<char>, i: int, word: bool) -> int
    decreases chars.len() - i,
{
    if 0 <= i < chars.len() && (if word {
        is_word(chars[i])
    } else {
        is_digit(chars[i])
    }) {
        run_end(chars, i + 1, word)
    } else {
        i
    }
}

/// The keyword that is written `text`, if `text` is a keyword.
pub open spec fn keyword_of(text: Seq<char>) -> Option<Keyword> {
    if text == "proc"@ {
        Some(Keyword::Proc)
    } else if text == "let"@ {
        Some(Keyword::Let)
    } else if text == "if"@ {
        Some(Keyword::If)
    } else if text == "else"@ {
        Some(Keyword::Else)
    } else if text == "while"@ {
        Some(Keyword::While)
    } else if text == "for"@ {
        Some(Keyword::For)
    } else if text == "return"@ {
        Some(Keyword::Return)
    } else if text == "break"@ {
        Some(Keyword::Break)
    } else if text == "continue"@ {
        Some(Keyword::Continue)
    } else if text == "true"@ {
        Some(Keyword::True)
    } else if text == "false"@ {
        Some(Keyword::False)
    } else {
        None
    }
}

/// The number that a run of digits denotes.
pub open spec fn number_of(digits: Seq<char>) -> nat
    decreases digits.len(),
{
    if digits.len() == 0 {
        0
    } else {
        (number_of(digits.drop_last()) * 10 + (digits.last() as u32 - '0' as u32)) as nat
    }
}

/// The character that a backslash and `c` stand for in a string literal.
pub open spec fn escape(c: char) -> Option<char> {
    if c == 'n' {
        Some('\n')
    } else if c == 't' {
        Some('\t')
    } else if c == 'r' {
        Some('\r')
    } else if c == '0' {
        Some('\0')
    } else if c == '\\' {
        Some('\\')
    } else if c == '"' {
        Some('"')
    } else {
        None
    }
}

/// The rest of a string literal from position `j` on, where `done` is
/// what the literal holds so far: the characters up to the closing quote,
/// with each escape replaced, and the position after the quote.
pub open spec fn literal(chars: Seq<char>, j: int, done: Seq<char>) -> Result<
    (Seq<char>, int),
    TokenizerErrorModel,
>
    decreases chars.len() - j,
{
    if j < 0 || j >= chars.len() {
        Err(TokenizerErrorModel::UnterminatedStringLiteral)
    } else if chars[j] == '"' {
        Ok((done, j + 1))
    } else if chars[j] == '\\' {
        if j + 1 >= chars.len() {
            Err(TokenizerErrorModel::UnterminatedStringLiteral)
        } else {
            match escape(chars[j + 1]) {
                Some(c) => literal(chars, j + 2, done.push(c)),
                None => Err(TokenizerErrorModel::InvalidEscapeSequence(chars[j + 1])),
            }
        }
    } else {
        literal(chars, j + 1, done.push(chars[j]))
    }
}

/// The token that the two characters `a` and `b` form together.
pub open spec fn double_symbol(a: char, b: char) -> Option<TokenValueModel> {
    if a == '+' && b == '+' {
        Some(TokenValueModel::DOUBLE_PLUS)
    } else if a == '-' && b == '-' {
        Some(TokenValueModel::DOUBLE_MINUS)
    } else if a == '-' && b == '>' {
        Some(TokenValueModel::THIN_ARROW)
    } else if a == '=' && b == '=' {
        Some(TokenValueModel::OP(Operator::Eq))
    } else if a == '!' && b == '=' {
        Some(TokenValueModel::OP(Operator::Ne))
    } else if a == '<' && b == '=' {
        Some(TokenValueModel::OP(Operator::LTE))
    } else if a == '>' && b == '=' {
        Some(TokenValueModel::OP(Operator::GTE))
    } else if a == '|' && b == '|' {
        Some(TokenValueModel::OP(Operator::LogicOr))
    } else if a == '&' && b == '&' {
        Some(TokenValueModel::OP(Operator::LogicAnd))
    } else {
        None
    }
}

/// The token that the character `a` forms alone.
pub open spec fn single_symbol(a: char) -> Option<TokenValueModel> {
    if a == '+' {
        Some(TokenValueModel::OP(Operator::Plus))
    } else if a == '-' {
        Some(TokenValueModel::OP(Operator::Minus))
    } else if a == '*' {
        Some(TokenValueModel::OP(Operator::Times))
    } else if a == '/' {
        Some(TokenValueModel::OP(Operator::Div))
    } else if a == '%' {
        Some(TokenValueModel::OP(Operator::Mod))
    } else if a == '<' {
        Some(TokenValueModel::OP(Operator::LT))
    } else if a == '>' {
        Some(TokenValueModel::OP(Operator::GT))
    } else if a == '!' {
        Some(TokenValueModel::OP(Operator::LogicNot))
    } else if a == '=' {
        Some(TokenValueModel::ASSIGN)
    } else if a == '(' {
        Some(TokenValueModel::LPAREN)
    } else if a == ')' {
        Some(TokenValueModel::RPAREN)
    } else if a == '{' {
        Some(TokenValueModel::LBRACKET)
    } else if a == '}' {
        Some(TokenValueModel::RBRACKET)
    } else if a == ';' {
        Some(TokenValueModel::SEMICOLON)
    } else if a == ',' {
        Some(TokenValueModel::COMMA)
    } else {
        None
    }
}

/// The token that starts at position `i`, and the position after it.
///
/// A word is the longest run of word characters; it is a keyword or an
/// identifier. A number is the longest run of digits; one that is no number
/// of the language is an unknown token. A string literal runs from a double
/// quote to the next one that no backslash precedes. A symbol is two
/// characters where two form a token, and one otherwise.
pub open spec fn token_at(chars: Seq<char>, i: int) -> Result<
    (TokenValueModel, int),
    TokenizerErrorModel,
>
    recommends
        0 <= i < chars.len(),
{
    let c = chars[i];
    if is_letter(c) {
        let end = run_end(chars, i, true);
        let text = chars.subrange(i, end);
        match keyword_of(text) {
            Some(k) => Ok((TokenValueModel::KW(k), end)),
            None => Ok((TokenValueModel::ID(text), end)),
        }
    } else if is_digit(c) {
        let end = run_end(chars, i, false);
        let text = chars.subrange(i, end);
        if number_of(text) <= i64::MAX {
            Ok((TokenValueModel::NUM(number_of(text) as i64), end))
        } else {
            Err(TokenizerErrorModel::UnknownToken(text))
        }
    } else if c == '"' {
        match literal(chars, i + 1, Seq::empty()) {
            Ok((text, end)) => Ok((TokenValueModel::STR(text), end)),
            Err(e) => Err(e),
        }
    } else if i + 1 < chars.len() && double_symbol(c, chars[i + 1]) is Some {
        Ok((double_symbol(c, chars[i + 1])->0, i + 2))
    } else {
        match single_symbol(c) {
            Some(v) => Ok((v, i + 1)),
            None => Err(TokenizerErrorModel::UnknownToken(seq![c])),
        }
    }
}

/// The line of position `i`: one more than the number of line feeds before it.
pub open spec fn line_at(chars: Seq<char>, i: int) -> int
    decreases i,
{
    if i <= 0 || i > chars.len() {
        1
    } else if chars[i - 1] == '\n' {
        line_at(chars, i - 1) + 1
    } else {
        line_at(chars, i - 1)
    }
}

/// The column of position `i`: one more than the number of characters
/// between it and the line feed before it, or the start of the text.
pub open spec fn column_at(chars: Seq<char>, i: int) -> int
    decreases i,
{
    if i <= 0 || i > chars.len() {
        1
    } else if chars[i - 1] == '\n' {
        1
    } else {
        column_at(chars, i - 1) + 1
    }
}

/// A run ends at or after its start and within the text.
pub proof fn lemma_run_end(chars: Seq<char>, i: int, word: bool)
    requires
        0 <= i <= chars.len(),
    ensures
        i <= run_end(chars, i, word) <= chars.len(),
        forall|k: int|
            i <= k < run_end(chars, i, word) ==> if word {
                is_word(#[trigger] chars[k])
            } else {
                is_digit(chars[k])
            },
        run_end(chars, i, word) < chars.len() ==> !(if word {
            is_word(chars[run_end(chars, i, word)])
        } else {
            is_digit(chars[run_end(chars, i, word)])
        }),
    decreases chars.len() - i,
{
    if i < chars.len() && (if word {
        is_word(chars[i])
    } else {
        is_digit(chars[i])
    }) {
        lemma_run_end(chars, i + 1, word);
    }
}

/// A string literal ends after its start and within the text.
pub proof fn lemma_literal_end(chars: Seq<char>, j: int, done: Seq<char>)
    requires
        0 <= j,
    ensures
        literal(chars, j, done) matches Ok((_, end)) ==> j < end <= chars.len(),
    decreases chars.len() - j,
{
    if j < chars.len() && chars[j] != '"' {
        if chars[j] == '\\' {
            if j + 1 < chars.len() && escape(chars[j + 1]) is Some {
                lemma_literal_end(chars, j + 2, done.push(escape(chars[j + 1])->0));
            }
        } else {
            lemma_literal_end(chars, j + 1, done.push(chars[j]));
        }
    }
}

/// A token ends after its start and within the text.
pub proof fn lemma_token_end(chars: Seq<char>, i: int)
    requires
        0 <= i < chars.len(),
    ensures
        token_at(chars, i) matches Ok((_, end)) ==> i < end <= chars.len(),
{
    lemma_run_end(chars, i, true);
    lemma_run_end(chars, i + 1, true);
    lemma_run_end(chars, i, false);
    lemma_run_end(chars, i + 1, false);
    lemma_literal_end(chars, i + 1, Seq::empty());
}

/// The tokens of the text from position `i` on, after the tokens `done`.
/// Each token has the line and the column of its first character.
pub open spec fn scan(chars: Seq<char>, i: int, done: Seq<TokenModel>) -> Result<
    Seq<TokenModel>,
    TokenizerErrorModel,
>
    decreases chars.len() - i,
{
    if i < 0 || i >= chars.len() {
        Ok(done)
    } else if is_space(chars[i]) {
        scan(chars, i + 1, done)
    } else {
        proof {
            lemma_token_end(chars, i);
        }
        match token_at(chars, i) {
            Ok((value, end)) => scan(
                chars,
                end,
                done.push(
                    TokenModel {
                        value,
                        line: line_at(chars, i) as usize,
                        column: column_at(chars, i) as usize,
                    },
                ),
            ),
            Err(e) => Err(e),
        }
    }
}

/// The tokens of a text.
pub open spec fn tokens(text: Seq<char>) -> Result<Seq<TokenModel>, TokenizerErrorModel> {
    scan(text, 0, Seq::empty())
}

} // verus!
