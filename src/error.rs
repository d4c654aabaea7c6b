use crate::ast::{AstSpan, Span, TokenKind};
use vstd::prelude::*;

verus! {

/// A parser error.
#[derive(Debug, PartialEq, Eq, PartialOrd, Ord, Clone)]
pub struct ParserError {
    /// The kind of parser error.
    pub kind: ParserErrorKind,
    /// The spans the error crosses.
    pub spans: AstSpan,
}

/// The kinds of parser error.
#[derive(Debug, PartialEq, Eq, PartialOrd, Ord, Clone)]
pub enum ParserErrorKind {
    /// A general syntax error, with a message.
    SyntaxError(String),
    /// A token of an unexpected type.
    UnexpectedType(TokenKind),
    /// An invalid definition.
    InvalidDefinition,
    /// An invalid constant value.
    InvalidConstantValue(TokenKind),
    /// An unexpected token in a macro body.
    InvalidTokenInMacroBody(TokenKind),
    /// An unexpected token in a label definition.
    InvalidTokenInLabelDefinition(TokenKind),
    /// An unexpected single argument.
    InvalidSingleArg(TokenKind),
    /// An unexpected token in a table body.
    InvalidTableBodyToken(TokenKind),
    /// An invalid constant.
    InvalidConstant(TokenKind),
    /// An unexpected token in an argument call.
    InvalidArgCallIdent(TokenKind),
    /// An invalid name of a macro, event, function or constant.
    InvalidName(TokenKind),
    /// Invalid arguments.
    InvalidArgs(TokenKind),
    /// An invalid `uint` size.
    InvalidUint256(usize),
    /// An invalid `bytes` size.
    InvalidBytes(usize),
    /// An invalid `int` size.
    InvalidInt(usize),
    /// Invalid arguments of a macro call.
    InvalidMacroArgs(TokenKind),
    /// Invalid return arguments.
    InvalidReturnArgs,
    /// An invalid import path.
    InvalidImportPath(String),
}

/// A lexing error.
#[derive(Debug, PartialEq, Eq, Clone)]
pub struct LexicalError<'a> {
    /// The kind of error.
    pub kind: LexicalErrorKind<'a>,
    /// Where the error occurred.
    pub span: Span,
}

impl<'a> LexicalError<'a> {
    /// Builds a lexing error of `kind` at `span`.
    pub fn new(kind: LexicalErrorKind<'a>, span: Span) -> (r: Self)
        ensures
            r.kind == kind,
            r.span == span,
    {
        LexicalError { kind, span }
    }
}

/// The kinds of lexing error.
#[derive(Debug, PartialEq, Eq, Clone, Copy)]
pub enum LexicalErrorKind<'a> {
    /// Unexpected end of file.
    UnexpectedEof,
    /// An invalid character.
    InvalidCharacter(char),
    /// An array size that does not parse as an unsigned integer.
    InvalidArraySize(&'a str),
    /// An invalid primitive type.
    InvalidPrimitiveType(&'a str),
}

/// A code generation error.
#[derive(Debug, PartialEq, Eq, Clone)]
pub struct CodegenError {
    /// The kind of code generation error.
    pub kind: CodegenErrorKind,
    /// Where the error occurred.
    pub span: AstSpan,
    /// The offending token, if any.
    pub token: Option<TokenKind>,
}

impl CodegenError {
    /// Builds a code generation error of `kind` at `spans`.
    pub fn new(kind: CodegenErrorKind, spans: AstSpan, token: Option<TokenKind>) -> (r: Self)
        ensures
            r.kind == kind,
            r.span == spans,
            r.token == token,
    {
        CodegenError { kind, span: spans, token }
    }

    /// The first span of the chain: where the error occurred.
    pub fn first_span(&self) -> (r: Option<Span>)
        ensures
            r == (if self.span@.len() > 0 {
                Some(self.span@[0])
            } else {
                None
            }),
    {
        if self.span.0.len() > 0 {
            Some(self.span.0[0])
        } else {
            None
        }
    }
}

/// The kinds of code generation error.
#[derive(Debug, PartialEq, Eq, Clone)]
pub enum CodegenErrorKind {
    /// A constant still holds a storage pointer that was never derived.
    StoragePointersNotDerived,
    /// An invalid macro body statement.
    InvalidMacroStatement,
    /// The macro definition is missing.
    MissingMacroDefinition(String),
    /// A constant definition is missing.
    MissingConstantDefinition(String),
    /// ABI generation failed.
    AbiGenerationFailure,
    /// A jump whose label is defined nowhere it can see.
    UnmatchedJumpLabel,
    /// An I/O error.
    IOError(String),
    /// An argument call of an unknown type.
    UnkownArgcallType,
    /// Argument resolution needed an invocation frame that does not exist.
    MissingMacroInvocation(String),
    /// An invocation of a macro that is not defined.
    InvalidMacroInvocation(String),
    /// A value that does not fit a `usize`.
    UsizeConversion(String),
}

impl View for CodegenErrorKind {
    /// The variant, by its position in the declaration, and the text it
    /// carries, if any.
    type V = (nat, Seq<char>);

    open spec fn view(&self) -> (nat, Seq<char>) {
        match self {
            CodegenErrorKind::StoragePointersNotDerived => (0, Seq::empty()),
            CodegenErrorKind::InvalidMacroStatement => (1, Seq::empty()),
            CodegenErrorKind::MissingMacroDefinition(s) => (2, s@),
            CodegenErrorKind::MissingConstantDefinition(s) => (3, s@),
            CodegenErrorKind::AbiGenerationFailure => (4, Seq::empty()),
            CodegenErrorKind::UnmatchedJumpLabel => (5, Seq::empty()),
            CodegenErrorKind::IOError(s) => (6, s@),
            CodegenErrorKind::UnkownArgcallType => (7, Seq::empty()),
            CodegenErrorKind::MissingMacroInvocation(s) => (8, s@),
            CodegenErrorKind::InvalidMacroInvocation(s) => (9, s@),
            CodegenErrorKind::UsizeConversion(s) => (10, s@),
        }
    }
}

} // verus!
