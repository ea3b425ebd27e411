//! The failures of the pipeline, as values.

use vstd::prelude::*;
use vstd::string::StringExecFns;
use crate::interpreter::{display_value, join_values, Value, ValueModel};
use crate::lists::views;
use crate::semantics::{display, joined};
use crate::text::{char_text, decimal, size_text};
use crate::tokenizer::{Operator, Token, TokenModel, TokenValue, TokenValueModel};

verus! {

/// A failure of the tokenizer.
#[derive(Debug, Clone, PartialEq)]
pub enum TokenizerError {
    /// The text at this point starts no token.
    UnknownToken(String),
    /// A string literal is not closed before the end of the text.
    UnterminatedStringLiteral,
    /// A backslash in a string literal is followed by this character, which forms no escape.
    InvalidEscapeSequence(char),
}

/// Mathematical value of a [`TokenizerError`].
pub ghost enum TokenizerErrorModel {
    UnknownToken(Seq<char>),
    UnterminatedStringLiteral,
    InvalidEscapeSequence(char),
}

impl View for TokenizerError {
    type V = TokenizerErrorModel;

    open spec fn view(&self) -> TokenizerErrorModel {
        match self {
            TokenizerError::UnknownToken(s) => TokenizerErrorModel::UnknownToken(s@),
            TokenizerError::UnterminatedStringLiteral => TokenizerErrorModel::UnterminatedStringLiteral,
            TokenizerError::InvalidEscapeSequence(c) => TokenizerErrorModel::InvalidEscapeSequence(*c),
        }
    }
}

/// A failure of the parser.
#[derive(Debug, Clone, PartialEq)]
pub enum ParseError {
    /// No procedure is named `main`.
    NoMain,
    /// Two top-level procedures have this name.
    MultipleSameNamedProcs(String),
    /// This token cannot stand where it stands.
    UnexpectedToken(Token),
    /// The tokens end where more are needed.
    UnexpectedEOF,
    /// The first was needed where the second stands.
    Expected(TokenValue, Token),
    /// This keyword stands where a variable is named.
    KeywordAsVar(String),
    /// This keyword stands where a procedure is named.
    KeywordAsProc(String),
    /// This keyword stands where a parameter is named.
    KeywordAsParam(String),
    /// A statement was needed and the enclosing block ended instead.
    ExpectedStatement,
    /// A block was needed and something else was found.
    ExpectedBlock,
    /// The step of a `for` loop is no assignment.
    ExpectedAssignment,
    /// The first clause of a `for` loop is neither an assignment nor a `let`.
    ExpectedAssignmentOrInitialization,
}

/// Mathematical value of a [`ParseError`].
pub ghost enum ParseErrorModel {
    NoMain,
    MultipleSameNamedProcs(Seq<char>),
    UnexpectedToken(TokenModel),
    UnexpectedEOF,
    Expected(TokenValueModel, TokenModel),
    KeywordAsVar(Seq<char>),
    KeywordAsProc(Seq<char>),
    KeywordAsParam(Seq<char>),
    ExpectedStatement,
    ExpectedBlock,
    ExpectedAssignment,
    ExpectedAssignmentOrInitialization,
}

impl View for ParseError {
    type V = ParseErrorModel;

    open spec fn view(&self) -> ParseErrorModel {
        match self {
            ParseError::NoMain => ParseErrorModel::NoMain,
            ParseError::MultipleSameNamedProcs(s) => ParseErrorModel::MultipleSameNamedProcs(s@),
            ParseError::UnexpectedToken(t) => ParseErrorModel::UnexpectedToken(t@),
            ParseError::UnexpectedEOF => ParseErrorModel::UnexpectedEOF,
            ParseError::Expected(v, t) => ParseErrorModel::Expected(v@, t@),
            ParseError::KeywordAsVar(s) => ParseErrorModel::KeywordAsVar(s@),
            ParseError::KeywordAsProc(s) => ParseErrorModel::KeywordAsProc(s@),
            ParseError::KeywordAsParam(s) => ParseErrorModel::KeywordAsParam(s@),
            ParseError::ExpectedStatement => ParseErrorModel::ExpectedStatement,
            ParseError::ExpectedBlock => ParseErrorModel::ExpectedBlock,
            ParseError::ExpectedAssignment => ParseErrorModel::ExpectedAssignment,
            ParseError::ExpectedAssignmentOrInitialization => ParseErrorModel::ExpectedAssignmentOrInitialization,
        }
    }
}

/// A failure of the evaluator.
#[derive(Debug, PartialEq)]
pub enum RuntimeError {
    /// This name is bound in no scope that can be seen.
    UnknownVariable(String),
    /// An operation cannot take this value.
    BadArg(Value),
    /// An operation cannot take these values together.
    BadArgs(Vec<Value>),
    /// The procedure of this name was called with the first number of
    /// arguments and has the second number of parameters.
    ArgMismatch(String, usize, usize),
    /// A boolean was needed and this value was found.
    ExpectedBool(Value),
    /// This operator takes two operands and was given one.
    BinaryAsUnary(Operator),
    /// This operator takes one operand and was given two.
    UnaryAsBinary(Operator),
    /// A `break` that no loop encloses.
    BreakNotInLoop,
    /// A `continue` that no loop encloses.
    ContinueNotInLoop,
    /// An increment or decrement of something that is no variable.
    InvalidAssignmentTarget,
    /// Calls are nested more deeply than the limit allows.
    CallDepthExceeded,
    /// A loop ran more often than the limit allows.
    IterationLimitExceeded,
}

/// Mathematical value of a [`RuntimeError`].
pub ghost enum RuntimeErrorModel {
    UnknownVariable(Seq<char>),
    BadArg(ValueModel),
    BadArgs(Seq<ValueModel>),
    ArgMismatch(Seq<char>, nat, nat),
    ExpectedBool(ValueModel),
    BinaryAsUnary(Operator),
    UnaryAsBinary(Operator),
    BreakNotInLoop,
    ContinueNotInLoop,
    InvalidAssignmentTarget,
    CallDepthExceeded,
    IterationLimitExceeded,
}

impl View for RuntimeError {
    type V = RuntimeErrorModel;

    open spec fn view(&self) -> RuntimeErrorModel {
        match self {
            RuntimeError::UnknownVariable(s) => RuntimeErrorModel::UnknownVariable(s@),
            RuntimeError::BadArg(v) => RuntimeErrorModel::BadArg(v@),
            RuntimeError::BadArgs(vs) => RuntimeErrorModel::BadArgs(views(vs@)),
            RuntimeError::ArgMismatch(s, a, p) => RuntimeErrorModel::ArgMismatch(
                s@,
                *a as nat,
                *p as nat,
            ),
            RuntimeError::ExpectedBool(v) => RuntimeErrorModel::ExpectedBool(v@),
            RuntimeError::BinaryAsUnary(op) => RuntimeErrorModel::BinaryAsUnary(*op),
            RuntimeError::UnaryAsBinary(op) => RuntimeErrorModel::UnaryAsBinary(*op),
            RuntimeError::BreakNotInLoop => RuntimeErrorModel::BreakNotInLoop,
            RuntimeError::ContinueNotInLoop => RuntimeErrorModel::ContinueNotInLoop,
            RuntimeError::InvalidAssignmentTarget => RuntimeErrorModel::InvalidAssignmentTarget,
            RuntimeError::CallDepthExceeded => RuntimeErrorModel::CallDepthExceeded,
            RuntimeError::IterationLimitExceeded => RuntimeErrorModel::IterationLimitExceeded,
        }
    }
}

/// Any failure of the pipeline.
#[derive(Debug, PartialEq)]
pub enum LingerError {
    ParseError(ParseError),
    TokenizerError(TokenizerError),
    RuntimeError(RuntimeError),
}

/// Mathematical value of a [`LingerError`].
pub ghost enum LingerErrorModel {
    ParseError(ParseErrorModel),
    TokenizerError(TokenizerErrorModel),
    RuntimeError(RuntimeErrorModel),
}

impl View for LingerError {
    type V = LingerErrorModel;

    open spec fn view(&self) -> LingerErrorModel {
        match self {
            LingerError::ParseError(e) => LingerErrorModel::ParseError(e@),
            LingerError::TokenizerError(e) => LingerErrorModel::TokenizerError(e@),
            LingerError::RuntimeError(e) => LingerErrorModel::RuntimeError(e@),
        }
    }
}

/// `before`, then `middle`, then `after`.
fn framed(before: &str, middle: &str, after: &str) -> (r: String)
    ensures
        r@ == before@ + middle@ + after@,
{
    let mut r = String::from_str(before);
    r.append(middle);
    r.append(after);
    r
}

/// `before`, then `rest`.
fn prefixed(before: &str, rest: &str) -> (r: String)
    ensures
        r@ == before@ + rest@,
{
    let mut r = String::from_str(before);
    r.append(rest);
    r
}

/// A line and a column as they are shown in a message.
pub open spec fn position(line: usize, column: usize) -> Seq<char> {
    "("@ + decimal(line as int) + ", "@ + decimal(column as int) + ")"@
}

/// A line and a column as they are shown in a message.
fn position_text(line: usize, column: usize) -> (r: String)
    ensures
        r@ == position(line, column),
{
    let mut r = String::from_str("(");
    r.append(size_text(line).as_str());
    r.append(", ");
    r.append(size_text(column).as_str());
    r.append(")");
    r
}

impl TokenizerErrorModel {
    /// The message for the failure.
    pub open spec fn message(self) -> Seq<char> {
        match self {
            TokenizerErrorModel::UnknownToken(s) => "unknown token: "@ + s,
            TokenizerErrorModel::UnterminatedStringLiteral => "unterminated string literal"@,
            TokenizerErrorModel::InvalidEscapeSequence(c) => "invalid escape sequence \"\\"@
                + seq![c] + "\""@,
        }
    }
}

impl TokenizerError {
    /// The message for the failure.
    pub fn message(&self) -> (r: String)
        ensures
            r@ == self@.message(),
    {
        match self {
            TokenizerError::UnknownToken(s) => prefixed("unknown token: ", s.as_str()),
            TokenizerError::UnterminatedStringLiteral => String::from_str(
                "unterminated string literal",
            ),
            TokenizerError::InvalidEscapeSequence(c) => framed(
                "invalid escape sequence \"\\",
                char_text(*c).as_str(),
                "\"",
            ),
        }
    }
}

impl ParseErrorModel {
    /// The message for the failure.
    pub open spec fn message(self) -> Seq<char> {
        match self {
            ParseErrorModel::NoMain => "main procedure not found"@,
            ParseErrorModel::MultipleSameNamedProcs(name) => "multiple procedures with name \""@
                + name + "\""@,
            ParseErrorModel::UnexpectedToken(token) => "unexpected token "@ + token.value.text()
                + " @ "@ + position(token.line, token.column),
            ParseErrorModel::UnexpectedEOF => "unexpected end of file"@,
            ParseErrorModel::Expected(target, token) => "expected token "@ + target.text() + " @ "@
                + position(token.line, token.column) + ", instead got "@ + token.value.text(),
            ParseErrorModel::KeywordAsVar(keyword) => "keyword \""@ + keyword
                + "\" used as variable"@,
            ParseErrorModel::KeywordAsProc(keyword) => "keyword \""@ + keyword
                + "\" used as procedure name"@,
            ParseErrorModel::KeywordAsParam(keyword) => "keyword \""@ + keyword
                + "\" used as parameter name"@,
            ParseErrorModel::ExpectedStatement => "expected statement"@,
            ParseErrorModel::ExpectedBlock => "expected block"@,
            ParseErrorModel::ExpectedAssignment => "expected assignment"@,
            ParseErrorModel::ExpectedAssignmentOrInitialization =>
                "expected assignment or initialization"@,
        }
    }
}

impl ParseError {
    /// The message for the failure.
    pub fn message(&self) -> (r: String)
        ensures
            r@ == self@.message(),
    {
        match self {
            ParseError::NoMain => String::from_str("main procedure not found"),
            ParseError::MultipleSameNamedProcs(proc_name) => framed(
                "multiple procedures with name \"",
                proc_name.as_str(),
                "\"",
            ),
            ParseError::UnexpectedToken(token) => {
                let mut r = String::from_str("unexpected token ");
                r.append(token.0.text().as_str());
                r.append(" @ ");
                r.append(position_text(token.1, token.2).as_str());
                r
            },
            ParseError::UnexpectedEOF => String::from_str("unexpected end of file"),
            ParseError::Expected(target, token) => {
                let mut r = String::from_str("expected token ");
                r.append(target.text().as_str());
                r.append(" @ ");
                r.append(position_text(token.1, token.2).as_str());
                r.append(", instead got ");
                r.append(token.0.text().as_str());
                r
            },
            ParseError::KeywordAsVar(keyword) => framed(
                "keyword \"",
                keyword.as_str(),
                "\" used as variable",
            ),
            ParseError::KeywordAsProc(keyword) => framed(
                "keyword \"",
                keyword.as_str(),
                "\" used as procedure name",
            ),
            ParseError::KeywordAsParam(keyword) => framed(
                "keyword \"",
                keyword.as_str(),
                "\" used as parameter name",
            ),
            ParseError::ExpectedStatement => String::from_str("expected statement"),
            ParseError::ExpectedBlock => String::from_str("expected block"),
            ParseError::ExpectedAssignment => String::from_str("expected assignment"),
            ParseError::ExpectedAssignmentOrInitialization => String::from_str(
                "expected assignment or initialization",
            ),
        }
    }
}

impl RuntimeErrorModel {
    /// The message for the failure.
    pub open spec fn message(self) -> Seq<char> {
        match self {
            RuntimeErrorModel::UnknownVariable(id) => "unknown variable \""@ + id + "\""@,
            RuntimeErrorModel::BadArg(v) => "bad argument \""@ + display(v) + "\""@,
            RuntimeErrorModel::BadArgs(args) => "bad args: ["@ + joined(args, ", "@) + "]"@,
            RuntimeErrorModel::ArgMismatch(proc_name, actual, expected) => "procedure \""@
                + proc_name + "\" expected "@ + decimal(expected as int) + " args, instead got "@
                + decimal(actual as int),
            RuntimeErrorModel::ExpectedBool(v) => "expected boolean value, instead got "@
                + display(v),
            RuntimeErrorModel::BinaryAsUnary(op) => "binary operator \""@ + op.text()
                + "\" used as unary operator"@,
            RuntimeErrorModel::UnaryAsBinary(op) => "unary operator \""@ + op.text()
                + "\" used as binary operator"@,
            RuntimeErrorModel::BreakNotInLoop => "tried to break while not within a loop"@,
            RuntimeErrorModel::ContinueNotInLoop => "continue statement found outside of a loop"@,
            RuntimeErrorModel::InvalidAssignmentTarget => "invalid assignment target"@,
            RuntimeErrorModel::CallDepthExceeded => "calls nested too deeply"@,
            RuntimeErrorModel::IterationLimitExceeded => "loop ran too often"@,
        }
    }
}

impl RuntimeError {
    /// The message for the failure.
    pub fn message(&self) -> (r: String)
        ensures
            r@ == self@.message(),
    {
        match self {
            RuntimeError::UnknownVariable(id) => framed("unknown variable \"", id.as_str(), "\""),
            RuntimeError::BadArg(v) => framed("bad argument \"", display_value(v).as_str(), "\""),
            RuntimeError::BadArgs(args) => framed(
                "bad args: [",
                join_values(args, ", ").as_str(),
                "]",
            ),
            RuntimeError::ArgMismatch(proc_name, actual, expected) => {
                let mut r = String::from_str("procedure \"");
                r.append(proc_name.as_str());
                r.append("\" expected ");
                r.append(size_text(*expected).as_str());
                r.append(" args, instead got ");
                r.append(size_text(*actual).as_str());
                r
            },
            RuntimeError::ExpectedBool(v) => prefixed(
                "expected boolean value, instead got ",
                display_value(v).as_str(),
            ),
            RuntimeError::BinaryAsUnary(op) => framed(
                "binary operator \"",
                op.name().as_str(),
                "\" used as unary operator",
            ),
            RuntimeError::UnaryAsBinary(op) => framed(
                "unary operator \"",
                op.name().as_str(),
                "\" used as binary operator",
            ),
            RuntimeError::BreakNotInLoop => String::from_str(
                "tried to break while not within a loop",
            ),
            RuntimeError::ContinueNotInLoop => String::from_str(
                "continue statement found outside of a loop",
            ),
            RuntimeError::InvalidAssignmentTarget => String::from_str("invalid assignment target"),
            RuntimeError::CallDepthExceeded => String::from_str("calls nested too deeply"),
            RuntimeError::IterationLimitExceeded => String::from_str("loop ran too often"),
        }
    }
}

impl LingerErrorModel {
    /// The message for the failure.
    pub open spec fn message(self) -> Seq<char> {
        match self {
            LingerErrorModel::ParseError(e) => e.message(),
            LingerErrorModel::TokenizerError(e) => e.message(),
            LingerErrorModel::RuntimeError(e) => e.message(),
        }
    }
}

impl LingerError {
    /// The message for the failure: one fixed sentence for each kind, with
    /// the name, token or value that it is about.
    pub fn message(&self) -> (r: String)
        ensures
            r@ == self@.message(),
    {
        match self {
            LingerError::ParseError(e) => e.message(),
            LingerError::TokenizerError(e) => e.message(),
            LingerError::RuntimeError(e) => e.message(),
        }
    }
}

} // verus!
