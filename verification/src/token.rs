//! Tokens of the TRA format and the failure modes of the lexical analyzer.

use vstd::prelude::*;

verus! {

/// Failure modes of the lexical analyzer.
#[derive(Clone, Debug, PartialEq)]
pub enum LexError {
    /// A numeric literal does not fit its integer type.
    IntegerOverflow,
    /// A numeric literal holds a character that is not a valid digit.
    InvalidDigit,
    /// Any other failure while parsing a numeric literal.
    InvalidInteger(String),
    /// No lexical rule matches at this position.
    InvalidToken,
    /// A failure with no recorded cause.
    Unspecified,
}

/// Mathematical model of a `LexError`.
pub ghost enum SpecLexError {
    IntegerOverflow,
    InvalidDigit,
    InvalidInteger(Seq<char>),
    InvalidToken,
    Unspecified,
}

impl View for LexError {
    type V = SpecLexError;

    open spec fn view(&self) -> SpecLexError {
        match self {
            LexError::IntegerOverflow => SpecLexError::IntegerOverflow,
            LexError::InvalidDigit => SpecLexError::InvalidDigit,
            LexError::InvalidInteger(s) => SpecLexError::InvalidInteger(s@),
            LexError::InvalidToken => SpecLexError::InvalidToken,
            LexError::Unspecified => SpecLexError::Unspecified,
        }
    }
}

impl Default for LexError {
    fn default() -> (r: Self)
        ensures
            r@ == SpecLexError::Unspecified,
    {
        LexError::Unspecified
    }
}

/// One lexical token of the TRA format.
#[derive(Clone, Debug, PartialEq)]
pub enum Token {
    /// `@` followed by an optionally signed integer: an entry id.
    Id(i64),
    /// The literal `=`.
    Equal,
    /// The literal `^`.
    OperatorConcat,
    /// `~~~~~` + body + `~~~~~`; the body may hold runs of up to four tildes.
    FiveTildesString(String),
    /// `~` + a run of non-tilde characters + `~`.
    TildeString(String),
    /// `"` + a run of non-quote characters + `"`.
    DoubleQuoteString(String),
    /// `%` + a run of non-percent characters + `%`.
    PercentString(String),
    /// `//` through (but not including) the next newline.
    EndOfLineComment(String),
    /// `/*` + body + `*/`, non-greedy, may span newlines.
    EnclosedComment(String),
    /// `[` + a non-empty run of non-`]` characters + `]`.
    SoundRef(String),
    /// `#` followed by an unsigned integer: a string-table reference.
    TlkRef(u64),
}

/// Mathematical model of a `Token`.
pub ghost enum SpecToken {
    Id(int),
    Equal,
    OperatorConcat,
    FiveTildesString(Seq<char>),
    TildeString(Seq<char>),
    DoubleQuoteString(Seq<char>),
    PercentString(Seq<char>),
    EndOfLineComment(Seq<char>),
    EnclosedComment(Seq<char>),
    SoundRef(Seq<char>),
    TlkRef(int),
}

impl View for Token {
    type V = SpecToken;

    open spec fn view(&self) -> SpecToken {
        match self {
            Token::Id(n) => SpecToken::Id(*n as int),
            Token::Equal => SpecToken::Equal,
            Token::OperatorConcat => SpecToken::OperatorConcat,
            Token::FiveTildesString(s) => SpecToken::FiveTildesString(s@),
            Token::TildeString(s) => SpecToken::TildeString(s@),
            Token::DoubleQuoteString(s) => SpecToken::DoubleQuoteString(s@),
            Token::PercentString(s) => SpecToken::PercentString(s@),
            Token::EndOfLineComment(s) => SpecToken::EndOfLineComment(s@),
            Token::EnclosedComment(s) => SpecToken::EnclosedComment(s@),
            Token::SoundRef(s) => SpecToken::SoundRef(s@),
            Token::TlkRef(n) => SpecToken::TlkRef(*n as int),
        }
    }
}

/// The kind of a token, without its payload: used in diagnostics to name
/// the tokens that the grammar would have accepted at a failure point.
#[derive(Clone, Copy, Debug, PartialEq, Eq, Structural)]
pub enum TokenKind {
    Id,
    Equal,
    OperatorConcat,
    StringLiteral,
    EndOfLineComment,
    EnclosedComment,
    SoundRef,
    TlkRef,
}

} // verus!
