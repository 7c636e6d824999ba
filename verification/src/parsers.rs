//! Fragment parser of the TRA format, with error recovery.
//!
//! The parser consumes the token stream of [`crate::lexer`] under the
//! grammar
//!
//! ```text
//! File      := Fragment*
//! Fragment  := Comment | Entry
//! Entry     := Id '=' EntryBody
//! EntryBody := WeiduString SoundRef? (WeiduString SoundRef?)?
//!            | Id      (a bare alias value)
//!            | TlkRef  (a bare string-table reference)
//! WeiduString := StringLiteral ('^' StringLiteral)*
//!             | Id ('^' StringLiteral)*
//!             | TlkRef ('^' StringLiteral)*
//! ```
//!
//! and produces the fragment sequence in order. On a defect it records a
//! recoverable error in a side list, emits an error placeholder fragment,
//! and resynchronizes at the next token that can start a fragment — unless
//! the input ends mid-production or no fragment has been produced yet, in
//! which case the defect is fatal and no fragment list is produced at all.

use vstd::prelude::*;
use vstd::string::StrSliceExecFns;
use crate::lexer::{
    next_token, spec_next_token, lemma_next_token_bounds, LexOutcome, SpecLex,
};
use crate::token::{LexError, SpecLexError, SpecToken, Token, TokenKind};
use crate::tra_structs::{
    view_opt_string, SpecComment, SpecEntry, SpecEntryContent, SpecExplicitEntry, SpecFragment,
    SpecStringBase, SpecStringLit, SpecWeiduString, TraComment, TraEntry, TraEntryContent,
    ExplicitTraEntry, TraFragment, WeiduString, WeiduStringLit,
};

verus! {

/// A parse-time failure. Locations are character offsets into the input.
#[derive(Debug, PartialEq)]
pub enum ParseError {
    /// No lexical rule matches at this location.
    InvalidToken { location: usize },
    /// The input ended while a production expected more tokens.
    UnrecognizedEof { location: usize, expected: Vec<TokenKind> },
    /// A well-formed token that no production accepts here.
    UnrecognizedToken { token: Token, location: usize, expected: Vec<TokenKind> },
    /// A well-formed token left over after a completed parse.
    ExtraToken { token: Token, location: usize },
    /// A lexical error surfaced through the grammar.
    User { error: LexError, location: usize },
}

/// Mathematical model of a `ParseError`.
pub ghost enum SpecParseError {
    InvalidToken { location: int },
    UnrecognizedEof { location: int, expected: Seq<TokenKind> },
    UnrecognizedToken { token: SpecToken, location: int, expected: Seq<TokenKind> },
    ExtraToken { token: SpecToken, location: int },
    User { error: SpecLexError, location: int },
}

impl View for ParseError {
    type V = SpecParseError;

    open spec fn view(&self) -> SpecParseError {
        match self {
            ParseError::InvalidToken { location } => SpecParseError::InvalidToken {
                location: *location as int,
            },
            ParseError::UnrecognizedEof { location, expected } => SpecParseError::UnrecognizedEof {
                location: *location as int,
                expected: expected@,
            },
            ParseError::UnrecognizedToken { token, location, expected } => {
                SpecParseError::UnrecognizedToken {
                    token: token@,
                    location: *location as int,
                    expected: expected@,
                }
            },
            ParseError::ExtraToken { token, location } => SpecParseError::ExtraToken {
                token: token@,
                location: *location as int,
            },
            ParseError::User { error, location } => SpecParseError::User {
                error: error@,
                location: *location as int,
            },
        }
    }
}

/// One element of the fully scanned token stream: a token with its span, or
/// a lexical failure at a position (scanning resumes one character later).
pub enum LexItem {
    Token(Token, usize, usize),
    Fail(LexError, usize),
}

/// Mathematical model of a `LexItem`.
pub ghost enum SpecLexItem {
    Token(SpecToken, int, int),
    Fail(SpecLexError, int),
}

impl View for LexItem {
    type V = SpecLexItem;

    open spec fn view(&self) -> SpecLexItem {
        match self {
            LexItem::Token(t, start, end) => SpecLexItem::Token(t@, *start as int, *end as int),
            LexItem::Fail(e, p) => SpecLexItem::Fail(e@, *p as int),
        }
    }
}

/// The token stream of a text: each lexed token in order; a position where
/// no token forms contributes a failure element, and scanning resumes at the
/// following character.
pub open spec fn spec_lex_all(s: Seq<char>, pos: int) -> Seq<SpecLexItem>
    decreases s.len() - pos,
        when 0 <= pos <= s.len()
        via spec_lex_all_decreases
{
    match spec_next_token(s, pos) {
        SpecLex::End => Seq::empty(),
        SpecLex::Token(t, start, end) => seq![SpecLexItem::Token(t, start, end)] + spec_lex_all(
            s,
            end,
        ),
        SpecLex::Fail(e, p) => seq![SpecLexItem::Fail(e, p)] + spec_lex_all(s, p + 1),
    }
}

#[via_fn]
proof fn spec_lex_all_decreases(s: Seq<char>, pos: int) {
    lemma_next_token_bounds(s, pos);
}

/// The parse error standing for a lexical failure: a no-rule-matches
/// failure keeps its location, any other is wrapped as a user error.
pub open spec fn spec_lex_fail_error(e: SpecLexError, p: int) -> SpecParseError {
    if e is InvalidToken {
        SpecParseError::InvalidToken { location: p }
    } else {
        SpecParseError::User { error: e, location: p }
    }
}

/// Tokens that may start a fragment: an id or either comment form.
pub open spec fn spec_starts_fragment(it: SpecLexItem) -> bool {
    match it {
        SpecLexItem::Token(t, _, _) => t is Id || t is EndOfLineComment || t is EnclosedComment,
        SpecLexItem::Fail(_, _) => false,
    }
}

/// First index at or after `i` of a stream element that may start a
/// fragment, or the stream's length if there is none: the resynchronization
/// point of error recovery.
pub open spec fn sync_index(items: Seq<SpecLexItem>, i: int) -> int
    decreases items.len() - i,
{
    if i < 0 || i >= items.len() {
        i
    } else if spec_starts_fragment(items[i]) {
        i
    } else {
        sync_index(items, i + 1)
    }
}

pub proof fn lemma_sync_index(items: Seq<SpecLexItem>, i: int)
    requires
        0 <= i <= items.len(),
    ensures
        i <= sync_index(items, i) <= items.len(),
        sync_index(items, i) < items.len() ==> spec_starts_fragment(
            items[sync_index(items, i)],
        ),
        forall|k: int| i <= k < sync_index(items, i) ==> !spec_starts_fragment(items[k]),
    decreases items.len() - i,
{
    if i < items.len() && !spec_starts_fragment(items[i]) {
        lemma_sync_index(items, i + 1);
    }
}

/// A string-literal token, in any of the four quoting conventions.
pub open spec fn spec_is_lit(t: SpecToken) -> bool {
    ||| t is FiveTildesString
    ||| t is TildeString
    ||| t is DoubleQuoteString
    ||| t is PercentString
}

/// The literal payload of a string-literal token, keeping its convention.
pub open spec fn spec_lit_of(t: SpecToken) -> SpecStringLit {
    match t {
        SpecToken::FiveTildesString(s) => SpecStringLit::FiveTildes(s),
        SpecToken::TildeString(s) => SpecStringLit::Tilde(s),
        SpecToken::DoubleQuoteString(s) => SpecStringLit::DoubleQuote(s),
        SpecToken::PercentString(s) => SpecStringLit::Percent(s),
        _ => SpecStringLit::Tilde(Seq::empty()),
    }
}

/// A string value without concatenation.
pub open spec fn spec_plain_ws(base: SpecStringBase) -> SpecWeiduString {
    SpecWeiduString { base, tail: Seq::empty() }
}

/// Whether the stream element at `j` is a concatenation operator.
pub open spec fn spec_is_concat_at(items: Seq<SpecLexItem>, j: int) -> bool {
    &&& 0 <= j < items.len()
    &&& match items[j] {
        SpecLexItem::Token(t, _, _) => t is OperatorConcat,
        SpecLexItem::Fail(_, _) => false,
    }
}

/// Tokens accepted where a fragment may start.
pub open spec fn spec_expected_fragment() -> Seq<TokenKind> {
    seq![TokenKind::Id, TokenKind::EndOfLineComment, TokenKind::EnclosedComment]
}

/// Tokens accepted after an entry's id.
pub open spec fn spec_expected_equal() -> Seq<TokenKind> {
    seq![TokenKind::Equal]
}

/// Tokens accepted where an entry's value must start.
pub open spec fn spec_expected_value() -> Seq<TokenKind> {
    seq![TokenKind::StringLiteral, TokenKind::Id, TokenKind::TlkRef]
}

/// Tokens accepted after a concatenation operator.
pub open spec fn spec_expected_literal() -> Seq<TokenKind> {
    seq![TokenKind::StringLiteral]
}

/// Outcome of parsing one concatenation chain: the accumulated value and
/// the next stream index, or a failure with the offending stream index.
pub ghost enum SpecChain {
    Done(SpecWeiduString, int),
    Bad(SpecParseError, int),
}

/// Consumes `('^' StringLiteral)*` starting at `j`, extending `acc` by one
/// literal per step.
pub open spec fn spec_parse_chain(
    items: Seq<SpecLexItem>,
    j: int,
    acc: SpecWeiduString,
    n_chars: int,
) -> SpecChain
    decreases items.len() - j,
{
    if !spec_is_concat_at(items, j) {
        SpecChain::Done(acc, j)
    } else if j + 1 >= items.len() {
        SpecChain::Bad(
            SpecParseError::UnrecognizedEof {
                location: n_chars,
                expected: spec_expected_literal(),
            },
            j + 1,
        )
    } else {
        match items[j + 1] {
            SpecLexItem::Fail(e, p) => SpecChain::Bad(spec_lex_fail_error(e, p), j + 1),
            SpecLexItem::Token(t, ts, _) => {
                if spec_is_lit(t) {
                    spec_parse_chain(
                        items,
                        j + 2,
                        SpecWeiduString { base: acc.base, tail: acc.tail.push(spec_lit_of(t)) },
                        n_chars,
                    )
                } else {
                    SpecChain::Bad(
                        SpecParseError::UnrecognizedToken {
                            token: t,
                            location: ts,
                            expected: spec_expected_literal(),
                        },
                        j + 1,
                    )
                }
            },
        }
    }
}

pub proof fn lemma_parse_chain_bounds(
    items: Seq<SpecLexItem>,
    j: int,
    acc: SpecWeiduString,
    n_chars: int,
)
    requires
        0 <= j <= items.len(),
    ensures
        match spec_parse_chain(items, j, acc, n_chars) {
            SpecChain::Done(_, j2) => j <= j2 <= items.len(),
            SpecChain::Bad(_, k) => j < k <= items.len(),
        },
    decreases items.len() - j,
{
    if spec_is_concat_at(items, j) && j + 1 < items.len() {
        if let SpecLexItem::Token(t, _, _) = items[j + 1] {
            if spec_is_lit(t) {
                lemma_parse_chain_bounds(
                    items,
                    j + 2,
                    SpecWeiduString { base: acc.base, tail: acc.tail.push(spec_lit_of(t)) },
                    n_chars,
                );
            }
        }
    }
}

/// Outcome of parsing one entry: the entry and the next stream index, or a
/// failure with the stream index from which recovery resynchronizes.
pub ghost enum SpecEntryStep {
    Entry(SpecEntry, int),
    Bad(SpecParseError, int),
}

/// Finishes an entry after its alt value: an optional sound tag may follow
/// and attaches to the alt value.
pub open spec fn spec_finish_alt(
    items: Seq<SpecLexItem>,
    j: int,
    id: int,
    value: SpecWeiduString,
    sound: Option<Seq<char>>,
    alt: SpecWeiduString,
) -> SpecEntryStep {
    let has_alt_sound = j < items.len() && match items[j] {
        SpecLexItem::Token(t, _, _) => t is SoundRef,
        SpecLexItem::Fail(_, _) => false,
    };
    let alt_sound = if has_alt_sound {
        match items[j] {
            SpecLexItem::Token(t, _, _) => match t {
                SpecToken::SoundRef(s) => Some(s),
                _ => None,
            },
            SpecLexItem::Fail(_, _) => None,
        }
    } else {
        None
    };
    let j1 = if has_alt_sound {
        j + 1
    } else {
        j
    };
    SpecEntryStep::Entry(
        SpecEntry {
            id,
            content: SpecEntryContent::Explicit(
                SpecExplicitEntry { value, sound, alt_value: Some(alt), alt_sound },
            ),
        },
        j1,
    )
}

/// Finishes an entry after its first value: an optional sound tag, then an
/// optional alt value — a string literal, an id alias or string-table
/// reference continued by `^`, or a bare string-table reference — then an
/// optional alt sound tag. A bare id here is not an alt value: it starts
/// the next fragment.
pub open spec fn spec_parse_after_value(
    items: Seq<SpecLexItem>,
    j: int,
    id: int,
    value: SpecWeiduString,
    n_chars: int,
) -> SpecEntryStep {
    let has_sound = j < items.len() && match items[j] {
        SpecLexItem::Token(t, _, _) => t is SoundRef,
        SpecLexItem::Fail(_, _) => false,
    };
    let sound = if has_sound {
        match items[j] {
            SpecLexItem::Token(t, _, _) => match t {
                SpecToken::SoundRef(s) => Some(s),
                _ => None,
            },
            SpecLexItem::Fail(_, _) => None,
        }
    } else {
        None
    };
    let j1 = if has_sound {
        j + 1
    } else {
        j
    };
    if j1 < items.len() {
        match items[j1] {
            SpecLexItem::Token(t, ts, _) => {
                if spec_is_lit(t) {
                    match spec_parse_chain(
                        items,
                        j1 + 1,
                        spec_plain_ws(SpecStringBase::Literal(spec_lit_of(t))),
                        n_chars,
                    ) {
                        SpecChain::Bad(e, k) => SpecEntryStep::Bad(e, k),
                        SpecChain::Done(alt, j2) => spec_finish_alt(
                            items,
                            j2,
                            id,
                            value,
                            sound,
                            alt,
                        ),
                    }
                } else if t is Id && spec_is_concat_at(items, j1 + 1) {
                    let a = match t {
                        SpecToken::Id(a) => a,
                        _ => 0,
                    };
                    match spec_parse_chain(
                        items,
                        j1 + 1,
                        spec_plain_ws(SpecStringBase::At(a)),
                        n_chars,
                    ) {
                        SpecChain::Bad(e, k) => SpecEntryStep::Bad(e, k),
                        SpecChain::Done(alt, j2) => spec_finish_alt(
                            items,
                            j2,
                            id,
                            value,
                            sound,
                            alt,
                        ),
                    }
                } else if t is TlkRef {
                    let v = match t {
                        SpecToken::TlkRef(v) => v,
                        _ => 0,
                    };
                    if v > u32::MAX {
                        SpecEntryStep::Bad(
                            SpecParseError::User {
                                error: SpecLexError::IntegerOverflow,
                                location: ts,
                            },
                            j1,
                        )
                    } else {
                        match spec_parse_chain(
                            items,
                            j1 + 1,
                            spec_plain_ws(SpecStringBase::Ref(v)),
                            n_chars,
                        ) {
                            SpecChain::Bad(e, k) => SpecEntryStep::Bad(e, k),
                            SpecChain::Done(alt, j2) => spec_finish_alt(
                                items,
                                j2,
                                id,
                                value,
                                sound,
                                alt,
                            ),
                        }
                    }
                } else {
                    SpecEntryStep::Entry(
                        SpecEntry {
                            id,
                            content: SpecEntryContent::Explicit(
                                SpecExplicitEntry { value, sound, alt_value: None, alt_sound: None },
                            ),
                        },
                        j1,
                    )
                }
            },
            SpecLexItem::Fail(_, _) => SpecEntryStep::Entry(
                SpecEntry {
                    id,
                    content: SpecEntryContent::Explicit(
                        SpecExplicitEntry { value, sound, alt_value: None, alt_sound: None },
                    ),
                },
                j1,
            ),
        }
    } else {
        SpecEntryStep::Entry(
            SpecEntry {
                id,
                content: SpecEntryContent::Explicit(
                    SpecExplicitEntry { value, sound, alt_value: None, alt_sound: None },
                ),
            },
            j1,
        )
    }
}

/// Parses an entry's body, the part after `Id '='`, starting at stream
/// index `j`. A bare id is an alias entry and a bare string-table reference
/// a direct reference entry — unless continued by `^`, in which case either
/// starts an explicit string value. A reference too large for the content's
/// unsigned field fails rather than silently clamping.
pub open spec fn spec_parse_body(
    items: Seq<SpecLexItem>,
    j: int,
    id: int,
    n_chars: int,
) -> SpecEntryStep {
    if j >= items.len() {
        SpecEntryStep::Bad(
            SpecParseError::UnrecognizedEof { location: n_chars, expected: spec_expected_value() },
            j,
        )
    } else {
        match items[j] {
            SpecLexItem::Fail(e, p) => SpecEntryStep::Bad(spec_lex_fail_error(e, p), j),
            SpecLexItem::Token(t, ts, _) => {
                if spec_is_lit(t) {
                    match spec_parse_chain(
                        items,
                        j + 1,
                        spec_plain_ws(SpecStringBase::Literal(spec_lit_of(t))),
                        n_chars,
                    ) {
                        SpecChain::Bad(e, k) => SpecEntryStep::Bad(e, k),
                        SpecChain::Done(value, j2) => spec_parse_after_value(
                            items,
                            j2,
                            id,
                            value,
                            n_chars,
                        ),
                    }
                } else if t is Id {
                    let a = match t {
                        SpecToken::Id(a) => a,
                        _ => 0,
                    };
                    if spec_is_concat_at(items, j + 1) {
                        match spec_parse_chain(
                            items,
                            j + 1,
                            spec_plain_ws(SpecStringBase::At(a)),
                            n_chars,
                        ) {
                            SpecChain::Bad(e, k) => SpecEntryStep::Bad(e, k),
                            SpecChain::Done(value, j2) => spec_parse_after_value(
                                items,
                                j2,
                                id,
                                value,
                                n_chars,
                            ),
                        }
                    } else {
                        SpecEntryStep::Entry(
                            SpecEntry { id, content: SpecEntryContent::At(a) },
                            j + 1,
                        )
                    }
                } else if t is TlkRef {
                    let v = match t {
                        SpecToken::TlkRef(v) => v,
                        _ => 0,
                    };
                    if v > u32::MAX {
                        SpecEntryStep::Bad(
                            SpecParseError::User {
                                error: SpecLexError::IntegerOverflow,
                                location: ts,
                            },
                            j,
                        )
                    } else if spec_is_concat_at(items, j + 1) {
                        match spec_parse_chain(
                            items,
                            j + 1,
                            spec_plain_ws(SpecStringBase::Ref(v)),
                            n_chars,
                        ) {
                            SpecChain::Bad(e, k) => SpecEntryStep::Bad(e, k),
                            SpecChain::Done(value, j2) => spec_parse_after_value(
                                items,
                                j2,
                                id,
                                value,
                                n_chars,
                            ),
                        }
                    } else {
                        SpecEntryStep::Entry(
                            SpecEntry { id, content: SpecEntryContent::Tlk(v) },
                            j + 1,
                        )
                    }
                } else {
                    SpecEntryStep::Bad(
                        SpecParseError::UnrecognizedToken {
                            token: t,
                            location: ts,
                            expected: spec_expected_value(),
                        },
                        j,
                    )
                }
            },
        }
    }
}

/// Parses one entry whose id token stands at stream index `i`.
pub open spec fn spec_parse_entry(
    items: Seq<SpecLexItem>,
    i: int,
    id: int,
    n_chars: int,
) -> SpecEntryStep {
    if i + 1 >= items.len() {
        SpecEntryStep::Bad(
            SpecParseError::UnrecognizedEof { location: n_chars, expected: spec_expected_equal() },
            i + 1,
        )
    } else {
        match items[i + 1] {
            SpecLexItem::Fail(e, p) => SpecEntryStep::Bad(spec_lex_fail_error(e, p), i + 1),
            SpecLexItem::Token(t, ts, _) => {
                if t is Equal {
                    spec_parse_body(items, i + 2, id, n_chars)
                } else {
                    SpecEntryStep::Bad(
                        SpecParseError::UnrecognizedToken {
                            token: t,
                            location: ts,
                            expected: spec_expected_equal(),
                        },
                        i + 1,
                    )
                }
            },
        }
    }
}

/// An entry parse moves strictly forward in the stream, and its failure
/// index stays inside the stream (one past it only at end of input).
pub proof fn lemma_parse_entry_bounds(items: Seq<SpecLexItem>, i: int, id: int, n_chars: int)
    requires
        0 <= i < items.len(),
    ensures
        match spec_parse_entry(items, i, id, n_chars) {
            SpecEntryStep::Entry(_, j) => i < j <= items.len(),
            SpecEntryStep::Bad(_, k) => i < k <= items.len(),
        },
{
    if i + 1 < items.len() {
        if let SpecLexItem::Token(t, _, _) = items[i + 1] {
            if t is Equal {
                lemma_parse_body_bounds(items, i + 2, id, n_chars);
            }
        }
    }
}

pub proof fn lemma_parse_body_bounds(items: Seq<SpecLexItem>, j: int, id: int, n_chars: int)
    requires
        0 <= j <= items.len(),
    ensures
        match spec_parse_body(items, j, id, n_chars) {
            SpecEntryStep::Entry(_, j2) => j < j2 <= items.len(),
            SpecEntryStep::Bad(_, k) => j <= k <= items.len(),
        },
{
    if j < items.len() {
        if let SpecLexItem::Token(t, ts, _) = items[j] {
            if spec_is_lit(t) {
                let base = spec_plain_ws(SpecStringBase::Literal(spec_lit_of(t)));
                lemma_parse_chain_bounds(items, j + 1, base, n_chars);
                if let SpecChain::Done(value, j2) = spec_parse_chain(items, j + 1, base, n_chars) {
                    lemma_parse_after_value_bounds(items, j2, id, value, n_chars);
                }
            } else if t is Id {
                let a = match t {
                    SpecToken::Id(a) => a,
                    _ => 0,
                };
                if spec_is_concat_at(items, j + 1) {
                    let base = spec_plain_ws(SpecStringBase::At(a));
                    lemma_parse_chain_bounds(items, j + 1, base, n_chars);
                    if let SpecChain::Done(value, j2) = spec_parse_chain(
                        items,
                        j + 1,
                        base,
                        n_chars,
                    ) {
                        lemma_parse_after_value_bounds(items, j2, id, value, n_chars);
                    }
                }
            } else if t is TlkRef {
                let v = match t {
                    SpecToken::TlkRef(v) => v,
                    _ => 0,
                };
                if v <= u32::MAX && spec_is_concat_at(items, j + 1) {
                    let base = spec_plain_ws(SpecStringBase::Ref(v));
                    lemma_parse_chain_bounds(items, j + 1, base, n_chars);
                    if let SpecChain::Done(value, j2) = spec_parse_chain(
                        items,
                        j + 1,
                        base,
                        n_chars,
                    ) {
                        lemma_parse_after_value_bounds(items, j2, id, value, n_chars);
                    }
                }
            }
        }
    }
}

pub proof fn lemma_parse_after_value_bounds(
    items: Seq<SpecLexItem>,
    j: int,
    id: int,
    value: SpecWeiduString,
    n_chars: int,
)
    requires
        0 <= j <= items.len(),
    ensures
        match spec_parse_after_value(items, j, id, value, n_chars) {
            SpecEntryStep::Entry(_, j2) => j <= j2 <= items.len(),
            SpecEntryStep::Bad(_, k) => j <= k <= items.len(),
        },
{
    let has_sound = j < items.len() && match items[j] {
        SpecLexItem::Token(t, _, _) => t is SoundRef,
        SpecLexItem::Fail(_, _) => false,
    };
    let j1 = if has_sound {
        j + 1
    } else {
        j
    };
    if j1 < items.len() {
        if let SpecLexItem::Token(t, _, _) = items[j1] {
            if spec_is_lit(t) {
                let base = spec_plain_ws(SpecStringBase::Literal(spec_lit_of(t)));
                lemma_parse_chain_bounds(items, j1 + 1, base, n_chars);
            } else if t is Id && spec_is_concat_at(items, j1 + 1) {
                let a = match t {
                    SpecToken::Id(a) => a,
                    _ => 0,
                };
                let base = spec_plain_ws(SpecStringBase::At(a));
                lemma_parse_chain_bounds(items, j1 + 1, base, n_chars);
            } else if t is TlkRef {
                let v = match t {
                    SpecToken::TlkRef(v) => v,
                    _ => 0,
                };
                if v <= u32::MAX {
                    let base = spec_plain_ws(SpecStringBase::Ref(v));
                    lemma_parse_chain_bounds(items, j1 + 1, base, n_chars);
                }
            }
        }
    }
}

/// The full parse over a text: fragment list or fatal error, plus the side
/// list of recovered errors.
pub ghost struct SpecParseResult {
    pub result: Result<Seq<SpecFragment>, SpecParseError>,
    pub errors: Seq<SpecParseError>,
}

/// One pass over the token stream from index `i`, carrying the fragments
/// and recovered errors accumulated so far. A defect is fatal when the
/// input ended mid-production or when no fragment has been produced yet;
/// otherwise it is recorded, an error placeholder fragment is emitted, and
/// parsing resumes at the next possible fragment start.
pub open spec fn spec_parse_loop(
    items: Seq<SpecLexItem>,
    i: int,
    frags: Seq<SpecFragment>,
    errs: Seq<SpecParseError>,
    n_chars: int,
) -> SpecParseResult
    decreases items.len() - i,
        when 0 <= i <= items.len()
        via spec_parse_loop_decreases
{
    if i >= items.len() {
        SpecParseResult { result: Ok(frags), errors: errs }
    } else {
        match items[i] {
            SpecLexItem::Fail(e, p) => {
                let err = spec_lex_fail_error(e, p);
                if frags.len() == 0 {
                    SpecParseResult { result: Err(err), errors: errs }
                } else {
                    spec_parse_loop(
                        items,
                        sync_index(items, i + 1),
                        frags.push(SpecFragment::Error),
                        errs.push(err),
                        n_chars,
                    )
                }
            },
            SpecLexItem::Token(t, ts, _) => {
                match t {
                    SpecToken::EndOfLineComment(c) => spec_parse_loop(
                        items,
                        i + 1,
                        frags.push(SpecFragment::Comment(SpecComment::EndOfLine(c))),
                        errs,
                        n_chars,
                    ),
                    SpecToken::EnclosedComment(c) => spec_parse_loop(
                        items,
                        i + 1,
                        frags.push(SpecFragment::Comment(SpecComment::Enclosed(c))),
                        errs,
                        n_chars,
                    ),
                    SpecToken::Id(id) => {
                        match spec_parse_entry(items, i, id, n_chars) {
                            SpecEntryStep::Entry(entry, j) => spec_parse_loop(
                                items,
                                j,
                                frags.push(SpecFragment::Entry(entry)),
                                errs,
                                n_chars,
                            ),
                            SpecEntryStep::Bad(err, k) => {
                                if err is UnrecognizedEof || frags.len() == 0 {
                                    SpecParseResult { result: Err(err), errors: errs }
                                } else {
                                    spec_parse_loop(
                                        items,
                                        sync_index(items, k),
                                        frags.push(SpecFragment::Error),
                                        errs.push(err),
                                        n_chars,
                                    )
                                }
                            },
                        }
                    },
                    _ => {
                        let err = SpecParseError::UnrecognizedToken {
                            token: t,
                            location: ts,
                            expected: spec_expected_fragment(),
                        };
                        if frags.len() == 0 {
                            SpecParseResult { result: Err(err), errors: errs }
                        } else {
                            spec_parse_loop(
                                items,
                                sync_index(items, i + 1),
                                frags.push(SpecFragment::Error),
                                errs.push(err),
                                n_chars,
                            )
                        }
                    },
                }
            },
        }
    }
}

#[via_fn]
proof fn spec_parse_loop_decreases(
    items: Seq<SpecLexItem>,
    i: int,
    frags: Seq<SpecFragment>,
    errs: Seq<SpecParseError>,
    n_chars: int,
) {
    if 0 <= i < items.len() {
        lemma_sync_index(items, i + 1);
        if let SpecLexItem::Token(t, _, _) = items[i] {
            if let SpecToken::Id(id) = t {
                lemma_parse_entry_bounds(items, i, id, n_chars);
                if let SpecEntryStep::Bad(_, k) = spec_parse_entry(items, i, id, n_chars) {
                    lemma_sync_index(items, k);
                }
            }
        }
    }
}

/// The parse of a whole text: its token stream parsed from the start with
/// empty accumulators.
pub open spec fn spec_parse_trafile(s: Seq<char>) -> SpecParseResult {
    spec_parse_loop(spec_lex_all(s, 0), 0, Seq::empty(), Seq::empty(), s.len() as int)
}

/// View of a token stream.
pub open spec fn view_items(items: Seq<LexItem>) -> Seq<SpecLexItem> {
    items.map_values(|it: LexItem| it@)
}

/// View of a fragment list.
pub open spec fn view_frags(v: Seq<TraFragment>) -> Seq<SpecFragment> {
    v.map_values(|f: TraFragment| f@)
}

/// View of an error list.
pub open spec fn view_errs(v: Seq<ParseError>) -> Seq<SpecParseError> {
    v.map_values(|e: ParseError| e@)
}

pub proof fn lemma_view_items_push(v: Seq<LexItem>, x: LexItem)
    ensures
        view_items(v.push(x)) == view_items(v).push(x@),
{
    assert(view_items(v.push(x)) =~= view_items(v).push(x@));
}

pub proof fn lemma_view_frags_push(v: Seq<TraFragment>, x: TraFragment)
    ensures
        view_frags(v.push(x)) == view_frags(v).push(x@),
{
    assert(view_frags(v.push(x)) =~= view_frags(v).push(x@));
}

pub proof fn lemma_view_errs_concat(a: Seq<ParseError>, b: Seq<ParseError>)
    ensures
        view_errs(a + b) == view_errs(a) + view_errs(b),
{
    assert(view_errs(a + b) =~= view_errs(a) + view_errs(b));
}

/// Scans the whole text into its token stream. `n` is the text's character
/// length.
pub fn lex_all(text: &str, n: usize) -> (items: Vec<LexItem>)
    requires
        n == text@.len(),
    ensures
        view_items(items@) == spec_lex_all(text@, 0),
{
    let mut items: Vec<LexItem> = Vec::new();
    let mut pos: usize = 0;
    loop
        invariant
            n == text@.len(),
            pos <= n,
            spec_lex_all(text@, 0) == view_items(items@) + spec_lex_all(text@, pos as int),
        decreases n - pos,
    {
        let ghost m = view_items(items@);
        let ghost gpos = pos as int;
        match next_token(text, n, pos) {
            LexOutcome::End => {
                proof {
                    assert(spec_lex_all(text@, gpos) =~= Seq::<SpecLexItem>::empty());
                    assert(view_items(items@) =~= view_items(items@) + spec_lex_all(
                        text@,
                        gpos,
                    ));
                }
                return items;
            },
            LexOutcome::Token(t, start, end) => {
                let it = LexItem::Token(t, start, end);
                let ghost itv = it@;
                items.push(it);
                pos = end;
                proof {
                    lemma_view_items_push(items@.drop_last(), LexItem::Token(t, start, end));
                    assert(view_items(items@) =~= m.push(itv));
                    assert(m.push(itv) + spec_lex_all(text@, pos as int) =~= m + (seq![itv]
                        + spec_lex_all(text@, pos as int)));
                }
            },
            LexOutcome::Fail(e, p) => {
                let ghost ev = e@;
                items.push(LexItem::Fail(e, p));
                pos = p + 1;
                proof {
                    let itv = SpecLexItem::Fail(ev, p as int);
                    assert(view_items(items@) =~= m.push(itv));
                    assert(m.push(itv) + spec_lex_all(text@, pos as int) =~= m + (seq![itv]
                        + spec_lex_all(text@, pos as int)));
                }
            },
        }
    }
}

/// An exact copy of a lexical error.
fn clone_lex_error(e: &LexError) -> (r: LexError)
    ensures
        r@ == e@,
{
    match e {
        LexError::IntegerOverflow => LexError::IntegerOverflow,
        LexError::InvalidDigit => LexError::InvalidDigit,
        LexError::InvalidInteger(s) => LexError::InvalidInteger(s.clone()),
        LexError::InvalidToken => LexError::InvalidToken,
        LexError::Unspecified => LexError::Unspecified,
    }
}

/// An exact copy of a token.
fn clone_token(t: &Token) -> (r: Token)
    ensures
        r@ == t@,
{
    match t {
        Token::Id(n) => Token::Id(*n),
        Token::Equal => Token::Equal,
        Token::OperatorConcat => Token::OperatorConcat,
        Token::FiveTildesString(s) => Token::FiveTildesString(s.clone()),
        Token::TildeString(s) => Token::TildeString(s.clone()),
        Token::DoubleQuoteString(s) => Token::DoubleQuoteString(s.clone()),
        Token::PercentString(s) => Token::PercentString(s.clone()),
        Token::EndOfLineComment(s) => Token::EndOfLineComment(s.clone()),
        Token::EnclosedComment(s) => Token::EnclosedComment(s.clone()),
        Token::SoundRef(s) => Token::SoundRef(s.clone()),
        Token::TlkRef(n) => Token::TlkRef(*n),
    }
}

fn lex_fail_error(e: &LexError, p: usize) -> (r: ParseError)
    ensures
        r@ == spec_lex_fail_error(e@, p as int),
{
    match e {
        LexError::InvalidToken => ParseError::InvalidToken { location: p },
        _ => ParseError::User { error: clone_lex_error(e), location: p },
    }
}

fn expected_fragment() -> (v: Vec<TokenKind>)
    ensures
        v@ == spec_expected_fragment(),
{
    let mut v: Vec<TokenKind> = Vec::new();
    v.push(TokenKind::Id);
    v.push(TokenKind::EndOfLineComment);
    v.push(TokenKind::EnclosedComment);
    proof {
        assert(v@ =~= spec_expected_fragment());
    }
    v
}

fn expected_equal() -> (v: Vec<TokenKind>)
    ensures
        v@ == spec_expected_equal(),
{
    let mut v: Vec<TokenKind> = Vec::new();
    v.push(TokenKind::Equal);
    proof {
        assert(v@ =~= spec_expected_equal());
    }
    v
}

fn expected_value() -> (v: Vec<TokenKind>)
    ensures
        v@ == spec_expected_value(),
{
    let mut v: Vec<TokenKind> = Vec::new();
    v.push(TokenKind::StringLiteral);
    v.push(TokenKind::Id);
    v.push(TokenKind::TlkRef);
    proof {
        assert(v@ =~= spec_expected_value());
    }
    v
}

fn expected_literal() -> (v: Vec<TokenKind>)
    ensures
        v@ == spec_expected_literal(),
{
    let mut v: Vec<TokenKind> = Vec::new();
    v.push(TokenKind::StringLiteral);
    proof {
        assert(v@ =~= spec_expected_literal());
    }
    v
}

/// The literal payload of a string-literal token, or `None` for any other
/// token.
fn lit_of_token(t: &Token) -> (r: Option<WeiduStringLit>)
    ensures
        match r {
            Some(l) => spec_is_lit(t@) && l@ == spec_lit_of(t@),
            None => !spec_is_lit(t@),
        },
{
    match t {
        Token::FiveTildesString(s) => Some(WeiduStringLit::FiveTildes(s.clone())),
        Token::TildeString(s) => Some(WeiduStringLit::Tilde(s.clone())),
        Token::DoubleQuoteString(s) => Some(WeiduStringLit::DoubleQuote(s.clone())),
        Token::PercentString(s) => Some(WeiduStringLit::Percent(s.clone())),
        _ => None,
    }
}

fn is_concat_at_exec(items: &Vec<LexItem>, j: usize) -> (b: bool)
    ensures
        b == spec_is_concat_at(view_items(items@), j as int),
{
    if j >= items.len() {
        return false;
    }
    match &items[j] {
        LexItem::Token(Token::OperatorConcat, _, _) => true,
        _ => false,
    }
}

fn starts_fragment_exec(it: &LexItem) -> (b: bool)
    ensures
        b == spec_starts_fragment(it@),
{
    match it {
        LexItem::Token(Token::Id(_), _, _) => true,
        LexItem::Token(Token::EndOfLineComment(_), _, _) => true,
        LexItem::Token(Token::EnclosedComment(_), _, _) => true,
        _ => false,
    }
}

fn sync_exec(items: &Vec<LexItem>, j: usize) -> (r: usize)
    requires
        j <= items@.len(),
    ensures
        r == sync_index(view_items(items@), j as int),
        j <= r <= items@.len(),
{
    let ghost g = view_items(items@);
    let mut i: usize = j;
    loop
        invariant
            j <= i <= items@.len(),
            g == view_items(items@),
            sync_index(g, j as int) == sync_index(g, i as int),
        decreases items@.len() - i,
    {
        if i >= items.len() {
            return i;
        }
        if starts_fragment_exec(&items[i]) {
            return i;
        }
        i = i + 1;
    }
}

/// Outcome of the executable concatenation-chain parse.
enum ChainStep {
    Done(WeiduString, usize),
    Bad(ParseError, usize),
}

/// Consumes `('^' StringLiteral)*` from stream index `j0`, extending the
/// accumulated string value.
fn parse_chain(items: &Vec<LexItem>, j0: usize, acc0: WeiduString, n_chars: usize) -> (r:
    ChainStep)
    requires
        j0 <= items@.len(),
    ensures
        match r {
            ChainStep::Done(w, j2) => spec_parse_chain(
                view_items(items@),
                j0 as int,
                acc0@,
                n_chars as int,
            ) == SpecChain::Done(w@, j2 as int) && j0 <= j2 <= items@.len(),
            ChainStep::Bad(e, k) => spec_parse_chain(
                view_items(items@),
                j0 as int,
                acc0@,
                n_chars as int,
            ) == SpecChain::Bad(e@, k as int) && j0 < k <= items@.len(),
        },
{
    let ghost g = view_items(items@);
    let mut j: usize = j0;
    let mut acc = acc0;
    loop
        invariant
            j0 <= j <= items@.len(),
            g == view_items(items@),
            spec_parse_chain(g, j0 as int, acc0@, n_chars as int) == spec_parse_chain(
                g,
                j as int,
                acc@,
                n_chars as int,
            ),
        decreases items@.len() - j,
    {
        let m = items.len();
        if !is_concat_at_exec(items, j) {
            return ChainStep::Done(acc, j);
        }
        if j + 1 >= m {
            return ChainStep::Bad(
                ParseError::UnrecognizedEof { location: n_chars, expected: expected_literal() },
                j + 1,
            );
        }
        match &items[j + 1] {
            LexItem::Fail(e, p) => {
                return ChainStep::Bad(lex_fail_error(e, *p), j + 1);
            },
            LexItem::Token(t, ts, _) => {
                match lit_of_token(t) {
                    Some(lit) => {
                        let ghost accv = acc@;
                        let ghost litv = lit@;
                        acc = WeiduString::Concat(Box::new(acc), Box::new(lit));
                        proof {
                            assert(acc@ == SpecWeiduString {
                                base: accv.base,
                                tail: accv.tail.push(litv),
                            });
                        }
                        j = j + 2;
                    },
                    None => {
                        return ChainStep::Bad(
                            ParseError::UnrecognizedToken {
                                token: clone_token(t),
                                location: *ts,
                                expected: expected_literal(),
                            },
                            j + 1,
                        );
                    },
                }
            },
        }
    }
}

/// Outcome of the executable entry parse.
enum EntryStep {
    Parsed(TraEntry, usize),
    Bad(ParseError, usize),
}

/// Finishes an entry whose first value has been parsed: optional sound tag,
/// optional alt value, optional alt sound tag.
fn parse_after_value(
    items: &Vec<LexItem>,
    j: usize,
    id: i64,
    value: WeiduString,
    n_chars: usize,
) -> (r: EntryStep)
    requires
        j <= items@.len(),
    ensures
        match r {
            EntryStep::Parsed(e, j2) => spec_parse_after_value(
                view_items(items@),
                j as int,
                id as int,
                value@,
                n_chars as int,
            ) == SpecEntryStep::Entry(e@, j2 as int) && j2 <= items@.len(),
            EntryStep::Bad(err, k) => spec_parse_after_value(
                view_items(items@),
                j as int,
                id as int,
                value@,
                n_chars as int,
            ) == SpecEntryStep::Bad(err@, k as int) && k <= items@.len(),
        },
{
    let ghost g = view_items(items@);
    let ghost valuev = value@;
    let mut sound: Option<String> = None;
    let mut j1: usize = j;
    if j < items.len() {
        match &items[j] {
            LexItem::Token(Token::SoundRef(snd), _, _) => {
                sound = Some(snd.clone());
                j1 = j + 1;
            },
            _ => {},
        }
    }
    let ghost soundv: Option<Seq<char>> = match sound {
        Some(ref s2) => Some(s2@),
        None => None,
    };
    if j1 < items.len() {
        let step: u8 = match &items[j1] {
            LexItem::Token(t, _, _) => {
                match t {
                    Token::FiveTildesString(_) => 1,
                    Token::TildeString(_) => 1,
                    Token::DoubleQuoteString(_) => 1,
                    Token::PercentString(_) => 1,
                    Token::Id(_) => 2,
                    Token::TlkRef(_) => 3,
                    _ => 0,
                }
            },
            LexItem::Fail(_, _) => 0,
        };
        if step == 1 {
            let lit = match &items[j1] {
                LexItem::Token(t, _, _) => lit_of_token(t).unwrap(),
                LexItem::Fail(_, _) => WeiduStringLit::Tilde(String::new()),
            };
            let base = WeiduString::Literal(lit);
            match parse_chain(items, j1 + 1, base, n_chars) {
                ChainStep::Bad(e, k) => EntryStep::Bad(e, k),
                ChainStep::Done(alt, j2) => finish_alt(items, j2, id, value, sound, alt),
            }
        } else if step == 2 {
            let a: i64 = match &items[j1] {
                LexItem::Token(Token::Id(a), _, _) => *a,
                _ => 0,
            };
            if is_concat_at_exec(items, j1 + 1) {
                let base = WeiduString::At(a);
                match parse_chain(items, j1 + 1, base, n_chars) {
                    ChainStep::Bad(e, k) => EntryStep::Bad(e, k),
                    ChainStep::Done(alt, j2) => finish_alt(items, j2, id, value, sound, alt),
                }
            } else {
                EntryStep::Parsed(
                    TraEntry {
                        id,
                        content: TraEntryContent::Explicit(
                            ExplicitTraEntry { value, sound, alt_value: None, alt_sound: None },
                        ),
                    },
                    j1,
                )
            }
        } else if step == 3 {
            let (v, ts) = match &items[j1] {
                LexItem::Token(Token::TlkRef(v), ts, _) => (*v, *ts),
                _ => (0u64, 0usize),
            };
            if v > (u32::MAX as u64) {
                EntryStep::Bad(
                    ParseError::User { error: LexError::IntegerOverflow, location: ts },
                    j1,
                )
            } else {
                let base = WeiduString::Ref(v as u32);
                match parse_chain(items, j1 + 1, base, n_chars) {
                    ChainStep::Bad(e, k) => EntryStep::Bad(e, k),
                    ChainStep::Done(alt, j2) => finish_alt(items, j2, id, value, sound, alt),
                }
            }
        } else {
            EntryStep::Parsed(
                TraEntry {
                    id,
                    content: TraEntryContent::Explicit(
                        ExplicitTraEntry { value, sound, alt_value: None, alt_sound: None },
                    ),
                },
                j1,
            )
        }
    } else {
        EntryStep::Parsed(
            TraEntry {
                id,
                content: TraEntryContent::Explicit(
                    ExplicitTraEntry { value, sound, alt_value: None, alt_sound: None },
                ),
            },
            j1,
        )
    }
}

/// Finishes an entry after its alt value: an optional sound tag attaches to
/// the alt value.
fn finish_alt(
    items: &Vec<LexItem>,
    j: usize,
    id: i64,
    value: WeiduString,
    sound: Option<String>,
    alt: WeiduString,
) -> (r: EntryStep)
    requires
        j <= items@.len(),
    ensures
        match r {
            EntryStep::Parsed(e, j2) => spec_finish_alt(
                view_items(items@),
                j as int,
                id as int,
                value@,
                view_opt_string(sound),
                alt@,
            ) == SpecEntryStep::Entry(e@, j2 as int) && j2 <= items@.len(),
            EntryStep::Bad(_, _) => false,
        },
{
    let mut alt_sound: Option<String> = None;
    let mut j1: usize = j;
    if j < items.len() {
        match &items[j] {
            LexItem::Token(Token::SoundRef(snd), _, _) => {
                alt_sound = Some(snd.clone());
                j1 = j + 1;
            },
            _ => {},
        }
    }
    EntryStep::Parsed(
        TraEntry {
            id,
            content: TraEntryContent::Explicit(
                ExplicitTraEntry { value, sound, alt_value: Some(alt), alt_sound },
            ),
        },
        j1,
    )
}

/// Parses an entry body, the part after `Id '='`, from stream index `j`.
fn parse_body(items: &Vec<LexItem>, j: usize, id: i64, n_chars: usize) -> (r: EntryStep)
    requires
        j <= items@.len(),
    ensures
        match r {
            EntryStep::Parsed(e, j2) => spec_parse_body(
                view_items(items@),
                j as int,
                id as int,
                n_chars as int,
            ) == SpecEntryStep::Entry(e@, j2 as int) && j2 <= items@.len(),
            EntryStep::Bad(err, k) => spec_parse_body(
                view_items(items@),
                j as int,
                id as int,
                n_chars as int,
            ) == SpecEntryStep::Bad(err@, k as int) && k <= items@.len(),
        },
{
    if j >= items.len() {
        return EntryStep::Bad(
            ParseError::UnrecognizedEof { location: n_chars, expected: expected_value() },
            j,
        );
    }
    match &items[j] {
        LexItem::Fail(e, p) => EntryStep::Bad(lex_fail_error(e, *p), j),
        LexItem::Token(t, ts, _) => {
            match lit_of_token(t) {
                Some(lit) => {
                    let base = WeiduString::Literal(lit);
                    match parse_chain(items, j + 1, base, n_chars) {
                        ChainStep::Bad(e2, k) => EntryStep::Bad(e2, k),
                        ChainStep::Done(value, j2) => parse_after_value(
                            items,
                            j2,
                            id,
                            value,
                            n_chars,
                        ),
                    }
                },
                None => {
                    match t {
                        Token::Id(a) => {
                            if is_concat_at_exec(items, j + 1) {
                                let base = WeiduString::At(*a);
                                match parse_chain(items, j + 1, base, n_chars) {
                                    ChainStep::Bad(e2, k) => EntryStep::Bad(e2, k),
                                    ChainStep::Done(value, j2) => parse_after_value(
                                        items,
                                        j2,
                                        id,
                                        value,
                                        n_chars,
                                    ),
                                }
                            } else {
                                EntryStep::Parsed(
                                    TraEntry { id, content: TraEntryContent::At(*a) },
                                    j + 1,
                                )
                            }
                        },
                        Token::TlkRef(v) => {
                            if *v > (u32::MAX as u64) {
                                EntryStep::Bad(
                                    ParseError::User {
                                        error: LexError::IntegerOverflow,
                                        location: *ts,
                                    },
                                    j,
                                )
                            } else if is_concat_at_exec(items, j + 1) {
                                let base = WeiduString::Ref(*v as u32);
                                match parse_chain(items, j + 1, base, n_chars) {
                                    ChainStep::Bad(e2, k) => EntryStep::Bad(e2, k),
                                    ChainStep::Done(value, j2) => parse_after_value(
                                        items,
                                        j2,
                                        id,
                                        value,
                                        n_chars,
                                    ),
                                }
                            } else {
                                EntryStep::Parsed(
                                    TraEntry { id, content: TraEntryContent::Tlk(*v as u32) },
                                    j + 1,
                                )
                            }
                        },
                        _ => EntryStep::Bad(
                            ParseError::UnrecognizedToken {
                                token: clone_token(t),
                                location: *ts,
                                expected: expected_value(),
                            },
                            j,
                        ),
                    }
                },
            }
        },
    }
}

/// Parses one entry whose id token stands at stream index `i`.
fn parse_entry(items: &Vec<LexItem>, i: usize, id: i64, n_chars: usize) -> (r: EntryStep)
    requires
        i < items@.len(),
    ensures
        match r {
            EntryStep::Parsed(e, j) => spec_parse_entry(
                view_items(items@),
                i as int,
                id as int,
                n_chars as int,
            ) == SpecEntryStep::Entry(e@, j as int) && i < j <= items@.len(),
            EntryStep::Bad(err, k) => spec_parse_entry(
                view_items(items@),
                i as int,
                id as int,
                n_chars as int,
            ) == SpecEntryStep::Bad(err@, k as int) && i < k <= items@.len(),
        },
{
    proof {
        lemma_parse_entry_bounds(view_items(items@), i as int, id as int, n_chars as int);
    }
    let m = items.len();
    if i + 1 >= m {
        return EntryStep::Bad(
            ParseError::UnrecognizedEof { location: n_chars, expected: expected_equal() },
            i + 1,
        );
    }
    match &items[i + 1] {
        LexItem::Fail(e, p) => EntryStep::Bad(lex_fail_error(e, *p), i + 1),
        LexItem::Token(t, ts, _) => {
            match t {
                Token::Equal => parse_body(items, i + 2, id, n_chars),
                _ => EntryStep::Bad(
                    ParseError::UnrecognizedToken {
                        token: clone_token(t),
                        location: *ts,
                        expected: expected_equal(),
                    },
                    i + 1,
                ),
            }
        },
    }
}

/// Parses a whole TRA text into its fragment sequence.
///
/// Recoverable defects are appended to `errors` and leave an error
/// placeholder in the fragment list; a fatal defect — input exhausted
/// mid-production, or any defect before the first fragment was produced —
/// aborts the parse with no fragment list at all.
pub fn parse_trafile(errors: &mut Vec<ParseError>, content: &str) -> (r: Result<
    Vec<TraFragment>,
    ParseError,
>)
    ensures
        ({
            let sp = spec_parse_trafile(content@);
            &&& view_errs(final(errors)@) == view_errs(old(errors)@) + sp.errors
            &&& match r {
                Ok(frags) => sp.result == Ok::<Seq<SpecFragment>, SpecParseError>(
                    view_frags(frags@),
                ),
                Err(e) => sp.result == Err::<Seq<SpecFragment>, SpecParseError>(e@),
            }
        }),
{
    let n = content.unicode_len();
    let items = lex_all(content, n);
    let ghost g = view_items(items@);
    let mut frags: Vec<TraFragment> = Vec::new();
    let mut errs: Vec<ParseError> = Vec::new();
    let mut i: usize = 0;
    proof {
        assert(view_frags(frags@) =~= Seq::<SpecFragment>::empty());
        assert(view_errs(errs@) =~= Seq::<SpecParseError>::empty());
    }
    loop
        invariant
            i <= items@.len(),
            n == content@.len(),
            g == view_items(items@),
            g == spec_lex_all(content@, 0),
            errors@ == old(errors)@,
            spec_parse_loop(g, 0, Seq::empty(), Seq::empty(), n as int) == spec_parse_loop(
                g,
                i as int,
                view_frags(frags@),
                view_errs(errs@),
                n as int,
            ),
        decreases items@.len() - i,
    {
        let ghost fv = view_frags(frags@);
        let ghost ev = view_errs(errs@);
        if i >= items.len() {
            proof {
                lemma_view_errs_concat(old(errors)@, errs@);
            }
            errors.append(&mut errs);
            return Ok(frags);
        }
        match &items[i] {
            LexItem::Fail(e, p) => {
                let err = lex_fail_error(e, *p);
                if frags.len() == 0 {
                    proof {
                        lemma_view_errs_concat(old(errors)@, errs@);
                    }
                    errors.append(&mut errs);
                    return Err(err);
                }
                let ghost errv = err@;
                errs.push(err);
                frags.push(TraFragment::Error);
                proof {
                    lemma_view_frags_push(frags@.drop_last(), TraFragment::Error);
                    assert(view_frags(frags@) =~= fv.push(SpecFragment::Error));
                    assert(view_errs(errs@) =~= ev.push(errv));
                }
                i = sync_exec(&items, i + 1);
            },
            LexItem::Token(t, ts, _) => {
                match t {
                    Token::EndOfLineComment(c) => {
                        frags.push(
                            TraFragment::Comment(TraComment::EndOfLine(c.clone())),
                        );
                        proof {
                            assert(view_frags(frags@) =~= fv.push(
                                SpecFragment::Comment(SpecComment::EndOfLine(c@)),
                            ));
                        }
                        i = i + 1;
                    },
                    Token::EnclosedComment(c) => {
                        frags.push(
                            TraFragment::Comment(TraComment::Enclosed(c.clone())),
                        );
                        proof {
                            assert(view_frags(frags@) =~= fv.push(
                                SpecFragment::Comment(SpecComment::Enclosed(c@)),
                            ));
                        }
                        i = i + 1;
                    },
                    Token::Id(idv) => {
                        match parse_entry(&items, i, *idv, n) {
                            EntryStep::Parsed(entry, j) => {
                                let ghost entryv = entry@;
                                frags.push(TraFragment::Entry(entry));
                                proof {
                                    assert(view_frags(frags@) =~= fv.push(
                                        SpecFragment::Entry(entryv),
                                    ));
                                }
                                i = j;
                            },
                            EntryStep::Bad(err, k) => {
                                let is_eof = matches!(
                                    err,
                                    ParseError::UnrecognizedEof { .. }
                                );
                                if is_eof || frags.len() == 0 {
                                    proof {
                                        lemma_view_errs_concat(old(errors)@, errs@);
                                    }
                                    errors.append(&mut errs);
                                    return Err(err);
                                }
                                let ghost errv = err@;
                                errs.push(err);
                                frags.push(TraFragment::Error);
                                proof {
                                    assert(view_frags(frags@) =~= fv.push(
                                        SpecFragment::Error,
                                    ));
                                    assert(view_errs(errs@) =~= ev.push(errv));
                                }
                                i = sync_exec(&items, k);
                            },
                        }
                    },
                    _ => {
                        let err = ParseError::UnrecognizedToken {
                            token: clone_token(t),
                            location: *ts,
                            expected: expected_fragment(),
                        };
                        if frags.len() == 0 {
                            proof {
                                lemma_view_errs_concat(old(errors)@, errs@);
                            }
                            errors.append(&mut errs);
                            return Err(err);
                        }
                        let ghost errv = err@;
                        errs.push(err);
                        frags.push(TraFragment::Error);
                        proof {
                            assert(view_frags(frags@) =~= fv.push(SpecFragment::Error));
                            assert(view_errs(errs@) =~= ev.push(errv));
                        }
                        i = sync_exec(&items, i + 1);
                    },
                }
            },
        }
    }
}

} // verus!
