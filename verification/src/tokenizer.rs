//! Tokens: the alphabet the parser reads.

use vstd::prelude::*;
use vstd::string::StringExecFns;
use crate::error::{TokenizerError, TokenizerErrorModel};
use crate::lexicon;
use crate::lists::{group_views, views};
use crate::text::{char_text, decimal, number_text, text_between};

verus! {

/// Reserved words. None of them may name a variable, a procedure or a parameter.
#[derive(Clone, Copy, Debug, PartialEq, Eq, Structural)]
pub enum Keyword {
    Proc,
    Let,
    If,
    Else,
    While,
    For,
    Return,
    Break,
    Continue,
    True,
    False,
}

/// Operators of the expression language.
///
/// The increment and decrement operators never occur in a token: the
/// tokenizer hands out `DOUBLE_PLUS` and `DOUBLE_MINUS`, and the parser
/// decides from the position which of the four is meant.
#[derive(Clone, Copy, Debug, PartialEq, Eq, Structural)]
pub enum Operator {
    Plus,
    Minus,
    Times,
    Mod,
    Div,
    Eq,
    Ne,
    LT,
    GT,
    LTE,
    GTE,
    LogicOr,
    LogicAnd,
    LogicNot,
    PreIncrement,
    PostIncrement,
    PreDecrement,
    PostDecrement,
}

/// What a token says, without its position.
#[allow(non_camel_case_types)]
#[derive(Clone, Debug, PartialEq, Eq)]
pub enum TokenValue {
    KW(Keyword),
    ID(String),
    STR(String),
    NUM(i64),
    OP(Operator),
    ASSIGN,
    LPAREN,
    RPAREN,
    LBRACKET,
    RBRACKET,
    SEMICOLON,
    COMMA,
    THIN_ARROW,
    DOUBLE_PLUS,
    DOUBLE_MINUS,
}

/// Mathematical value of a [`TokenValue`]: text is a sequence of characters.
#[allow(non_camel_case_types)]
pub ghost enum TokenValueModel {
    KW(Keyword),
    ID(Seq<char>),
    STR(Seq<char>),
    NUM(i64),
    OP(Operator),
    ASSIGN,
    LPAREN,
    RPAREN,
    LBRACKET,
    RBRACKET,
    SEMICOLON,
    COMMA,
    THIN_ARROW,
    DOUBLE_PLUS,
    DOUBLE_MINUS,
}

/// A token value with the line and the column at which it starts.
///
/// Two tokens are equal if they say the same, wherever they stand.
#[derive(Clone, Debug, Eq)]
pub struct Token(pub TokenValue, pub usize, pub usize);

impl PartialEq for Token {
    fn eq(&self, other: &Token) -> (r: bool) {
        self.0.same(&other.0)
    }
}

impl vstd::std_specs::cmp::PartialEqSpecImpl for Token {
    open spec fn obeys_eq_spec() -> bool {
        true
    }

    open spec fn eq_spec(&self, other: &Token) -> bool {
        self.0@ == other.0@
    }
}

/// Mathematical value of a [`Token`].
pub ghost struct TokenModel {
    pub value: TokenValueModel,
    pub line: usize,
    pub column: usize,
}

impl Keyword {
    /// The word as it is written in a program.
    pub open spec fn text(self) -> Seq<char> {
        match self {
            Keyword::Proc => "proc"@,
            Keyword::Let => "let"@,
            Keyword::If => "if"@,
            Keyword::Else => "else"@,
            Keyword::While => "while"@,
            Keyword::For => "for"@,
            Keyword::Return => "return"@,
            Keyword::Break => "break"@,
            Keyword::Continue => "continue"@,
            Keyword::True => "true"@,
            Keyword::False => "false"@,
        }
    }

    /// The word as it is written in a program.
    pub fn name(&self) -> (r: String)
        ensures
            r@ == self.text(),
    {
        match self {
            Keyword::Proc => String::from_str("proc"),
            Keyword::Let => String::from_str("let"),
            Keyword::If => String::from_str("if"),
            Keyword::Else => String::from_str("else"),
            Keyword::While => String::from_str("while"),
            Keyword::For => String::from_str("for"),
            Keyword::Return => String::from_str("return"),
            Keyword::Break => String::from_str("break"),
            Keyword::Continue => String::from_str("continue"),
            Keyword::True => String::from_str("true"),
            Keyword::False => String::from_str("false"),
        }
    }
}

impl Operator {
    /// The symbol of the operator.
    pub open spec fn text(self) -> Seq<char> {
        match self {
            Operator::Plus => "+"@,
            Operator::Minus => "-"@,
            Operator::Times => "*"@,
            Operator::Mod => "%"@,
            Operator::Div => "/"@,
            Operator::Eq => "=="@,
            Operator::Ne => "!="@,
            Operator::LT => "<"@,
            Operator::GT => ">"@,
            Operator::LTE => "<="@,
            Operator::GTE => ">="@,
            Operator::LogicOr => "||"@,
            Operator::LogicAnd => "&&"@,
            Operator::LogicNot => "!"@,
            Operator::PreIncrement => "++"@,
            Operator::PostIncrement => "++"@,
            Operator::PreDecrement => "--"@,
            Operator::PostDecrement => "--"@,
        }
    }

    /// The symbol of the operator.
    pub fn name(&self) -> (r: String)
        ensures
            r@ == self.text(),
    {
        match self {
            Operator::Plus => String::from_str("+"),
            Operator::Minus => String::from_str("-"),
            Operator::Times => String::from_str("*"),
            Operator::Mod => String::from_str("%"),
            Operator::Div => String::from_str("/"),
            Operator::Eq => String::from_str("=="),
            Operator::Ne => String::from_str("!="),
            Operator::LT => String::from_str("<"),
            Operator::GT => String::from_str(">"),
            Operator::LTE => String::from_str("<="),
            Operator::GTE => String::from_str(">="),
            Operator::LogicOr => String::from_str("||"),
            Operator::LogicAnd => String::from_str("&&"),
            Operator::LogicNot => String::from_str("!"),
            Operator::PreIncrement => String::from_str("++"),
            Operator::PostIncrement => String::from_str("++"),
            Operator::PreDecrement => String::from_str("--"),
            Operator::PostDecrement => String::from_str("--"),
        }
    }
}

impl View for TokenValue {
    type V = TokenValueModel;

    open spec fn view(&self) -> TokenValueModel {
        match self {
            TokenValue::KW(k) => TokenValueModel::KW(*k),
            TokenValue::ID(s) => TokenValueModel::ID(s@),
            TokenValue::STR(s) => TokenValueModel::STR(s@),
            TokenValue::NUM(n) => TokenValueModel::NUM(*n),
            TokenValue::OP(o) => TokenValueModel::OP(*o),
            TokenValue::ASSIGN => TokenValueModel::ASSIGN,
            TokenValue::LPAREN => TokenValueModel::LPAREN,
            TokenValue::RPAREN => TokenValueModel::RPAREN,
            TokenValue::LBRACKET => TokenValueModel::LBRACKET,
            TokenValue::RBRACKET => TokenValueModel::RBRACKET,
            TokenValue::SEMICOLON => TokenValueModel::SEMICOLON,
            TokenValue::COMMA => TokenValueModel::COMMA,
            TokenValue::THIN_ARROW => TokenValueModel::THIN_ARROW,
            TokenValue::DOUBLE_PLUS => TokenValueModel::DOUBLE_PLUS,
            TokenValue::DOUBLE_MINUS => TokenValueModel::DOUBLE_MINUS,
        }
    }
}

impl View for Token {
    type V = TokenModel;

    open spec fn view(&self) -> TokenModel {
        TokenModel { value: self.0@, line: self.1, column: self.2 }
    }
}

impl TokenValueModel {
    /// The token as it is shown in a message: as it is written in a
    /// program, a string literal between double quotes and without escapes.
    pub open spec fn text(self) -> Seq<char> {
        match self {
            TokenValueModel::KW(k) => k.text(),
            TokenValueModel::ID(s) => s,
            TokenValueModel::STR(s) => "\""@ + s + "\""@,
            TokenValueModel::NUM(n) => decimal(n as int),
            TokenValueModel::OP(o) => o.text(),
            TokenValueModel::ASSIGN => "="@,
            TokenValueModel::LPAREN => "("@,
            TokenValueModel::RPAREN => ")"@,
            TokenValueModel::LBRACKET => "{"@,
            TokenValueModel::RBRACKET => "}"@,
            TokenValueModel::SEMICOLON => ";"@,
            TokenValueModel::COMMA => ","@,
            TokenValueModel::THIN_ARROW => "->"@,
            TokenValueModel::DOUBLE_PLUS => "++"@,
            TokenValueModel::DOUBLE_MINUS => "--"@,
        }
    }
}

impl TokenValue {
    /// The token as it is shown in a message.
    pub fn text(&self) -> (r: String)
        ensures
            r@ == self@.text(),
    {
        match self {
            TokenValue::KW(k) => k.name(),
            TokenValue::ID(s) => s.clone(),
            TokenValue::STR(s) => {
                let mut r = String::from_str("\"");
                r.append(s.as_str());
                r.append("\"");
                r
            },
            TokenValue::NUM(n) => number_text(*n),
            TokenValue::OP(o) => o.name(),
            TokenValue::ASSIGN => String::from_str("="),
            TokenValue::LPAREN => String::from_str("("),
            TokenValue::RPAREN => String::from_str(")"),
            TokenValue::LBRACKET => String::from_str("{"),
            TokenValue::RBRACKET => String::from_str("}"),
            TokenValue::SEMICOLON => String::from_str(";"),
            TokenValue::COMMA => String::from_str(","),
            TokenValue::THIN_ARROW => String::from_str("->"),
            TokenValue::DOUBLE_PLUS => String::from_str("++"),
            TokenValue::DOUBLE_MINUS => String::from_str("--"),
        }
    }

    /// Equality of token values: same variant, same payload.
    pub fn same(&self, other: &TokenValue) -> (r: bool)
        ensures
            r == (self@ == other@),
    {
        match (self, other) {
            (TokenValue::KW(a), TokenValue::KW(b)) => *a == *b,
            (TokenValue::ID(a), TokenValue::ID(b)) => *a == *b,
            (TokenValue::STR(a), TokenValue::STR(b)) => *a == *b,
            (TokenValue::NUM(a), TokenValue::NUM(b)) => *a == *b,
            (TokenValue::OP(a), TokenValue::OP(b)) => *a == *b,
            (TokenValue::ASSIGN, TokenValue::ASSIGN) => true,
            (TokenValue::LPAREN, TokenValue::LPAREN) => true,
            (TokenValue::RPAREN, TokenValue::RPAREN) => true,
            (TokenValue::LBRACKET, TokenValue::LBRACKET) => true,
            (TokenValue::RBRACKET, TokenValue::RBRACKET) => true,
            (TokenValue::SEMICOLON, TokenValue::SEMICOLON) => true,
            (TokenValue::COMMA, TokenValue::COMMA) => true,
            (TokenValue::THIN_ARROW, TokenValue::THIN_ARROW) => true,
            (TokenValue::DOUBLE_PLUS, TokenValue::DOUBLE_PLUS) => true,
            (TokenValue::DOUBLE_MINUS, TokenValue::DOUBLE_MINUS) => true,
            _ => false,
        }
    }

    /// A copy with the same view.
    pub fn duplicate(&self) -> (r: TokenValue)
        ensures
            r@ == self@,
    {
        match self {
            TokenValue::KW(k) => TokenValue::KW(*k),
            TokenValue::ID(s) => TokenValue::ID(s.clone()),
            TokenValue::STR(s) => TokenValue::STR(s.clone()),
            TokenValue::NUM(n) => TokenValue::NUM(*n),
            TokenValue::OP(o) => TokenValue::OP(*o),
            TokenValue::ASSIGN => TokenValue::ASSIGN,
            TokenValue::LPAREN => TokenValue::LPAREN,
            TokenValue::RPAREN => TokenValue::RPAREN,
            TokenValue::LBRACKET => TokenValue::LBRACKET,
            TokenValue::RBRACKET => TokenValue::RBRACKET,
            TokenValue::SEMICOLON => TokenValue::SEMICOLON,
            TokenValue::COMMA => TokenValue::COMMA,
            TokenValue::THIN_ARROW => TokenValue::THIN_ARROW,
            TokenValue::DOUBLE_PLUS => TokenValue::DOUBLE_PLUS,
            TokenValue::DOUBLE_MINUS => TokenValue::DOUBLE_MINUS,
        }
    }
}

impl Token {
    /// A copy with the same view.
    pub fn duplicate(&self) -> (r: Token)
        ensures
            r@ == self@,
    {
        Token(self.0.duplicate(), self.1, self.2)
    }
}

/// The characters of a text.
pub fn characters(source: &str) -> (r: Vec<char>)
    ensures
        r@ == source@,
{
    let mut out: Vec<char> = Vec::new();
    for c in it: source.chars()
        invariant
            out@ == it.seq().take(it.index() as int),
    {
        out.push(c);
    }
    out
}

/// Whether the character separates tokens and is otherwise ignored.
fn is_space(c: char) -> (r: bool)
    ensures
        r == lexicon::is_space(c),
{
    c == ' ' || c == '\t' || c == '\n' || c == '\r'
}

/// Whether the character is a decimal digit.
fn is_digit(c: char) -> (r: bool)
    ensures
        r == lexicon::is_digit(c),
{
    '0' <= c && c <= '9'
}

/// Whether the character can start a word.
fn is_letter(c: char) -> (r: bool)
    ensures
        r == lexicon::is_letter(c),
{
    ('a' <= c && c <= 'z') || ('A' <= c && c <= 'Z') || c == '_'
}

/// Whether the character continues a run of word characters (`word`) or of digits.
fn continues(c: char, word: bool) -> (r: bool)
    ensures
        r == (if word {
            lexicon::is_word(c)
        } else {
            lexicon::is_digit(c)
        }),
{
    is_digit(c) || (word && is_letter(c))
}

/// The end of the longest run of word characters (`word`) or of digits that starts at `i`.
#[verifier::loop_isolation(false)]
fn run_end(chars: &Vec<char>, i: usize, word: bool) -> (r: usize)
    requires
        i <= chars.len(),
    ensures
        r == lexicon::run_end(chars@, i as int, word),
        i <= r <= chars.len(),
{
    let mut j: usize = i;
    while j < chars.len() && continues(chars[j], word)
        invariant
            i <= j <= chars.len(),
            lexicon::run_end(chars@, i as int, word) == lexicon::run_end(chars@, j as int, word),
        decreases chars.len() - j,
    {
        j += 1;
    }
    j
}

/// The keyword that is written `text`, if `text` is a keyword.
fn keyword_of(word: &String) -> (r: Option<Keyword>)
    ensures
        r == lexicon::keyword_of(word@),
{
    if *word == String::from_str("proc") {
        Some(Keyword::Proc)
    } else if *word == String::from_str("let") {
        Some(Keyword::Let)
    } else if *word == String::from_str("if") {
        Some(Keyword::If)
    } else if *word == String::from_str("else") {
        Some(Keyword::Else)
    } else if *word == String::from_str("while") {
        Some(Keyword::While)
    } else if *word == String::from_str("for") {
        Some(Keyword::For)
    } else if *word == String::from_str("return") {
        Some(Keyword::Return)
    } else if *word == String::from_str("break") {
        Some(Keyword::Break)
    } else if *word == String::from_str("continue") {
        Some(Keyword::Continue)
    } else if *word == String::from_str("true") {
        Some(Keyword::True)
    } else if *word == String::from_str("false") {
        Some(Keyword::False)
    } else {
        None
    }
}

/// The number that the digits from `from` to `to` denote, if it is a number of the language.
#[verifier::loop_isolation(false)]
fn number_of(chars: &Vec<char>, from: usize, to: usize) -> (r: Option<i64>)
    requires
        from <= to <= chars.len(),
        forall|k: int| from <= k < to ==> lexicon::is_digit(#[trigger] chars[k]),
    ensures
        match r {
            Some(n) => lexicon::number_of(chars@.subrange(from as int, to as int)) == n,
            None => lexicon::number_of(chars@.subrange(from as int, to as int)) > i64::MAX,
        },
{
    let mut value: i64 = 0;
    let mut j: usize = from;
    assert(chars@.subrange(from as int, from as int) =~= Seq::empty());
    while j < to
        invariant
            from <= j <= to,
            0 <= value,
            lexicon::number_of(chars@.subrange(from as int, j as int)) == value,
        decreases to - j,
    {
        let digit: i64 = (chars[j] as u32 - '0' as u32) as i64;
        let ghost before = chars@.subrange(from as int, j as int);
        let ghost now = chars@.subrange(from as int, j + 1);
        assert(now.drop_last() =~= before);
        assert(now.last() == chars[j as int]);
        if value > (i64::MAX - digit) / 10 {
            proof {
                lemma_number_grows(chars@, from as int, j + 1, to as int);
            }
            return None;
        }
        value = value * 10 + digit;
        j += 1;
    }
    Some(value)
}

/// More digits denote no smaller number.
proof fn lemma_number_grows(chars: Seq<char>, from: int, mid: int, to: int)
    requires
        0 <= from <= mid <= to <= chars.len(),
        forall|k: int| from <= k < to ==> lexicon::is_digit(#[trigger] chars[k]),
    ensures
        lexicon::number_of(chars.subrange(from, mid)) <= lexicon::number_of(
            chars.subrange(from, to),
        ),
    decreases to - mid,
{
    if mid < to {
        lemma_number_grows(chars, from, mid, to - 1);
        assert(chars.subrange(from, to).drop_last() =~= chars.subrange(from, to - 1));
        assert(chars.subrange(from, to).last() == chars[to - 1]);
    }
}

/// The character that a backslash and `c` stand for in a string literal.
fn escape(c: char) -> (r: Option<char>)
    ensures
        r == lexicon::escape(c),
{
    if c == 'n' {
        Some('\n')
    } else if c == 't' {
        Some('\t')
    } else if c == 'r' {
        Some('\r')
    } else if c == '0' {
        Some('\0')
    } else if c == '\\' {
        Some('\\')
    } else if c == '"' {
        Some('"')
    } else {
        None
    }
}

/// The view of the result of reading a string literal or a token.
pub open spec fn read_view<T: View>(r: Result<(T, usize), TokenizerError>) -> Result<
    (T::V, int),
    TokenizerErrorModel,
> {
    match r {
        Ok((x, end)) => Ok((x@, end as int)),
        Err(e) => Err(e@),
    }
}

/// Reads a string literal whose opening quote stands before position `start`.
#[verifier::loop_isolation(false)]
fn read_literal(chars: &Vec<char>, start: usize) -> (r: Result<(String, usize), TokenizerError>)
    requires
        start <= chars.len(),
    ensures
        read_view(r) == lexicon::literal(chars@, start as int, Seq::empty()),
        r matches Ok((_, end)) ==> start < end <= chars.len(),
{
    let mut text = String::new();
    let mut j: usize = start;
    loop
        invariant
            start <= j <= chars.len(),
            lexicon::literal(chars@, start as int, Seq::empty()) == lexicon::literal(
                chars@,
                j as int,
                text@,
            ),
        decreases chars.len() - j,
    {
        if j >= chars.len() {
            return Err(TokenizerError::UnterminatedStringLiteral);
        }
        let c = chars[j];
        let ghost before = text@;
        if c == '"' {
            return Ok((text, j + 1));
        } else if c == '\\' {
            if j + 1 >= chars.len() {
                return Err(TokenizerError::UnterminatedStringLiteral);
            }
            match escape(chars[j + 1]) {
                Some(replacement) => {
                    text.append(char_text(replacement).as_str());
                    assert(text@ =~= before.push(replacement));
                    j += 2;
                },
                None => {
                    return Err(TokenizerError::InvalidEscapeSequence(chars[j + 1]));
                },
            }
        } else {
            text.append(char_text(c).as_str());
            assert(text@ =~= before.push(c));
            j += 1;
        }
    }
}

/// The token that the two characters `a` and `b` form together.
fn double_symbol(a: char, b: char) -> (r: Option<TokenValue>)
    ensures
        option_value_view(r) == lexicon::double_symbol(a, b),
{
    if a == '+' && b == '+' {
        Some(TokenValue::DOUBLE_PLUS)
    } else if a == '-' && b == '-' {
        Some(TokenValue::DOUBLE_MINUS)
    } else if a == '-' && b == '>' {
        Some(TokenValue::THIN_ARROW)
    } else if a == '=' && b == '=' {
        Some(TokenValue::OP(Operator::Eq))
    } else if a == '!' && b == '=' {
        Some(TokenValue::OP(Operator::Ne))
    } else if a == '<' && b == '=' {
        Some(TokenValue::OP(Operator::LTE))
    } else if a == '>' && b == '=' {
        Some(TokenValue::OP(Operator::GTE))
    } else if a == '|' && b == '|' {
        Some(TokenValue::OP(Operator::LogicOr))
    } else if a == '&' && b == '&' {
        Some(TokenValue::OP(Operator::LogicAnd))
    } else {
        None
    }
}

/// The token that the character `a` forms alone.
fn single_symbol(a: char) -> (r: Option<TokenValue>)
    ensures
        option_value_view(r) == lexicon::single_symbol(a),
{
    if a == '+' {
        Some(TokenValue::OP(Operator::Plus))
    } else if a == '-' {
        Some(TokenValue::OP(Operator::Minus))
    } else if a == '*' {
        Some(TokenValue::OP(Operator::Times))
    } else if a == '/' {
        Some(TokenValue::OP(Operator::Div))
    } else if a == '%' {
        Some(TokenValue::OP(Operator::Mod))
    } else if a == '<' {
        Some(TokenValue::OP(Operator::LT))
    } else if a == '>' {
        Some(TokenValue::OP(Operator::GT))
    } else if a == '!' {
        Some(TokenValue::OP(Operator::LogicNot))
    } else if a == '=' {
        Some(TokenValue::ASSIGN)
    } else if a == '(' {
        Some(TokenValue::LPAREN)
    } else if a == ')' {
        Some(TokenValue::RPAREN)
    } else if a == '{' {
        Some(TokenValue::LBRACKET)
    } else if a == '}' {
        Some(TokenValue::RBRACKET)
    } else if a == ';' {
        Some(TokenValue::SEMICOLON)
    } else if a == ',' {
        Some(TokenValue::COMMA)
    } else {
        None
    }
}

/// The view of an optional token value.
pub open spec fn option_value_view(v: Option<TokenValue>) -> Option<TokenValueModel> {
    match v {
        Some(v) => Some(v@),
        None => None,
    }
}

/// Reads the token that starts at position `i`, and gives the position after it.
fn read_token(chars: &Vec<char>, i: usize) -> (r: Result<(TokenValue, usize), TokenizerError>)
    requires
        i < chars.len(),
    ensures
        read_view(r) == lexicon::token_at(chars@, i as int),
        r matches Ok((_, end)) ==> i < end <= chars.len(),
{
    let c = chars[i];
    proof {
        lexicon::lemma_run_end(chars@, i as int, true);
        lexicon::lemma_run_end(chars@, i as int, false);
        lexicon::lemma_run_end(chars@, i + 1, true);
        lexicon::lemma_run_end(chars@, i + 1, false);
    }
    if is_letter(c) {
        let end = run_end(chars, i, true);
        let word = text_between(chars, i, end);
        match keyword_of(&word) {
            Some(k) => Ok((TokenValue::KW(k), end)),
            None => Ok((TokenValue::ID(word), end)),
        }
    } else if is_digit(c) {
        let end = run_end(chars, i, false);
        match number_of(chars, i, end) {
            Some(n) => Ok((TokenValue::NUM(n), end)),
            None => Err(TokenizerError::UnknownToken(text_between(chars, i, end))),
        }
    } else if c == '"' {
        match read_literal(chars, i + 1) {
            Ok((text, end)) => Ok((TokenValue::STR(text), end)),
            Err(e) => Err(e),
        }
    } else {
        if i + 1 < chars.len() {
            if let Some(v) = double_symbol(c, chars[i + 1]) {
                return Ok((v, i + 2));
            }
        }
        match single_symbol(c) {
            Some(v) => Ok((v, i + 1)),
            None => Err(TokenizerError::UnknownToken(char_text(c))),
        }
    }
}

/// The view of the result of the tokenizer.
pub open spec fn tokens_view(r: Result<Vec<Token>, TokenizerError>) -> Result<
    Seq<TokenModel>,
    TokenizerErrorModel,
> {
    match r {
        Ok(tokens) => Ok(views(tokens@)),
        Err(e) => Err(e@),
    }
}

/// Divides a text into tokens, each with the line and the column at which it starts.
#[verifier::loop_isolation(false)]
pub fn tokenize(source: &str) -> (r: Result<Vec<Token>, TokenizerError>)
    ensures
        tokens_view(r) == lexicon::tokens(source@),
{
    broadcast use group_views;

    let chars = characters(source);
    let mut tokens: Vec<Token> = Vec::new();
    let mut i: usize = 0;
    // the line and the column of position `i`, counted from zero
    let mut line: usize = 0;
    let mut column: usize = 0;
    while i < chars.len()
        invariant
            i <= chars.len(),
            chars@ == source@,
            line + 1 == lexicon::line_at(chars@, i as int),
            column + 1 == lexicon::column_at(chars@, i as int),
            line <= i,
            column <= i,
            lexicon::tokens(source@) == lexicon::scan(chars@, i as int, views(tokens@)),
        decreases chars.len() - i,
    {
        let end = if is_space(chars[i]) {
            i + 1
        } else {
            match read_token(&chars, i) {
                Ok((value, end)) => {
                    tokens.push(Token(value, line + 1, column + 1));
                    end
                },
                Err(e) => return Err(e),
            }
        };
        while i < end
            invariant
                i <= end <= chars.len(),
                line + 1 == lexicon::line_at(chars@, i as int),
                column + 1 == lexicon::column_at(chars@, i as int),
                line <= i,
                column <= i,
            decreases end - i,
        {
            if chars[i] == '\n' {
                line += 1;
                column = 0;
            } else {
                column += 1;
            }
            i += 1;
        }
    }
    Ok(tokens)
}

/// Dividing a text into tokens is a function of the characters of the
/// text: two runs of [`tokenize`] on texts with the same characters give
/// tokens with the same views, or failures with the same view. And it is
/// total: every text may be given to it.
pub proof fn lemma_tokenize_is_a_function(
    first: &str,
    second: &str,
    first_result: Result<Vec<Token>, TokenizerError>,
    second_result: Result<Vec<Token>, TokenizerError>,
)
    requires
        first@ == second@,
        call_ensures(tokenize, (first,), first_result),
        call_ensures(tokenize, (second,), second_result),
    ensures
        tokens_view(first_result) == tokens_view(second_result),
        call_requires(tokenize, (first,)),
{
}

} // verus!
