//! Lexical analyzer of the TRA format.
//!
//! Given an input text and a starting character offset, [`next_token`]
//! produces the next token and its span, signals end-of-input, or fails with
//! a [`LexError`]. It is restartable position-by-position, which the parser's
//! error recovery uses to resynchronize. Matching priority is explicit: the
//! five-tilde string form is attempted before the plain tilde form.

use vstd::prelude::*;
use vstd::string::StrSliceExecFns;
use vstd::string::StringExecFns;
use crate::token::{LexError, SpecLexError, SpecToken, Token};

verus! {

/// Whitespace skipped between tokens: space, tab, newline, form-feed.
pub open spec fn is_ws_char(c: char) -> bool {
    c == ' ' || c == '\t' || c == '\n' || c == '\u{000C}'
}

/// An ASCII decimal digit.
pub open spec fn is_digit_char(c: char) -> bool {
    48 <= c as u32 <= 57
}

/// Numeric value of an ASCII decimal digit.
pub open spec fn digit_val(c: char) -> int {
    c as u32 - 48
}

/// First offset at or after `pos` holding a non-whitespace character, or the
/// text's length if only whitespace remains.
pub open spec fn skip_ws(s: Seq<char>, pos: int) -> int
    decreases s.len() - pos,
{
    if pos < 0 || pos >= s.len() {
        pos
    } else if is_ws_char(s[pos]) {
        skip_ws(s, pos + 1)
    } else {
        pos
    }
}

pub proof fn lemma_skip_ws(s: Seq<char>, pos: int)
    requires
        0 <= pos <= s.len(),
    ensures
        pos <= skip_ws(s, pos) <= s.len(),
        forall|k: int| pos <= k < skip_ws(s, pos) ==> is_ws_char(s[k]),
        skip_ws(s, pos) < s.len() ==> !is_ws_char(s[skip_ws(s, pos)]),
    decreases s.len() - pos,
{
    if pos < s.len() && is_ws_char(s[pos]) {
        lemma_skip_ws(s, pos + 1);
    }
}

/// First offset at or after `pos` holding character `c`, or the text's
/// length if there is none.
pub open spec fn find_char(s: Seq<char>, pos: int, c: char) -> int
    decreases s.len() - pos,
{
    if pos < 0 || pos >= s.len() {
        pos
    } else if s[pos] == c {
        pos
    } else {
        find_char(s, pos + 1, c)
    }
}

pub proof fn lemma_find_char(s: Seq<char>, pos: int, c: char)
    requires
        0 <= pos <= s.len(),
    ensures
        pos <= find_char(s, pos, c) <= s.len(),
        forall|k: int| pos <= k < find_char(s, pos, c) ==> s[k] != c,
        find_char(s, pos, c) < s.len() ==> s[find_char(s, pos, c)] == c,
    decreases s.len() - pos,
{
    if pos < s.len() && s[pos] != c {
        lemma_find_char(s, pos + 1, c);
    }
}

/// Five consecutive tildes start at offset `q`.
pub open spec fn five_tildes_at(s: Seq<char>, q: int) -> bool {
    &&& 0 <= q
    &&& q + 5 <= s.len()
    &&& forall|k: int| q <= k < q + 5 ==> s[k] == '~'
}

/// First offset at or after `pos` where five consecutive tildes start, or
/// the text's length if there is none.
pub open spec fn find_five_tildes(s: Seq<char>, pos: int) -> int
    decreases s.len() - pos,
{
    if pos < 0 || pos >= s.len() {
        pos
    } else if five_tildes_at(s, pos) {
        pos
    } else {
        find_five_tildes(s, pos + 1)
    }
}

pub proof fn lemma_find_five_tildes(s: Seq<char>, pos: int)
    requires
        0 <= pos <= s.len(),
    ensures
        pos <= find_five_tildes(s, pos) <= s.len(),
        forall|k: int| pos <= k < find_five_tildes(s, pos) ==> !five_tildes_at(s, k),
        find_five_tildes(s, pos) < s.len() ==> five_tildes_at(s, find_five_tildes(s, pos)),
    decreases s.len() - pos,
{
    if pos < s.len() && !five_tildes_at(s, pos) {
        lemma_find_five_tildes(s, pos + 1);
    }
}

/// The two characters closing an enclosed comment start at offset `q`.
pub open spec fn close_comment_at(s: Seq<char>, q: int) -> bool {
    &&& 0 <= q
    &&& q + 2 <= s.len()
    &&& s[q] == '*'
    &&& s[q + 1] == '/'
}

/// First offset at or after `pos` where `*/` starts, or the text's length if
/// there is none.
pub open spec fn find_close_comment(s: Seq<char>, pos: int) -> int
    decreases s.len() - pos,
{
    if pos < 0 || pos >= s.len() {
        pos
    } else if close_comment_at(s, pos) {
        pos
    } else {
        find_close_comment(s, pos + 1)
    }
}

pub proof fn lemma_find_close_comment(s: Seq<char>, pos: int)
    requires
        0 <= pos <= s.len(),
    ensures
        pos <= find_close_comment(s, pos) <= s.len(),
        forall|k: int| pos <= k < find_close_comment(s, pos) ==> !close_comment_at(s, k),
        find_close_comment(s, pos) < s.len() ==> close_comment_at(s, find_close_comment(s, pos)),
    decreases s.len() - pos,
{
    if pos < s.len() && !close_comment_at(s, pos) {
        lemma_find_close_comment(s, pos + 1);
    }
}

/// End of the maximal run of ASCII digits starting at `pos`.
pub open spec fn digits_end(s: Seq<char>, pos: int) -> int
    decreases s.len() - pos,
{
    if pos < 0 || pos >= s.len() {
        pos
    } else if is_digit_char(s[pos]) {
        digits_end(s, pos + 1)
    } else {
        pos
    }
}

pub proof fn lemma_digits_end(s: Seq<char>, pos: int)
    requires
        0 <= pos <= s.len(),
    ensures
        pos <= digits_end(s, pos) <= s.len(),
        forall|k: int| pos <= k < digits_end(s, pos) ==> is_digit_char(s[k]),
        digits_end(s, pos) < s.len() ==> !is_digit_char(s[digits_end(s, pos)]),
    decreases s.len() - pos,
{
    if pos < s.len() && is_digit_char(s[pos]) {
        lemma_digits_end(s, pos + 1);
    }
}

/// Numeric value of the digit run `s[start..end]`, most significant first.
pub open spec fn digits_val(s: Seq<char>, start: int, end: int) -> int
    decreases end - start,
{
    if end <= start {
        0
    } else {
        digits_val(s, start, end - 1) * 10 + digit_val(s[end - 1])
    }
}

pub proof fn lemma_digits_val_nonneg(s: Seq<char>, start: int, end: int)
    requires
        forall|k: int| start <= k < end ==> is_digit_char(s[k]),
    ensures
        digits_val(s, start, end) >= 0,
    decreases end - start,
{
    if end > start {
        lemma_digits_val_nonneg(s, start, end - 1);
    }
}

/// A longer digit run never has a smaller value.
pub proof fn lemma_digits_val_mono(s: Seq<char>, start: int, end1: int, end2: int)
    requires
        start <= end1 <= end2,
        forall|k: int| start <= k < end2 ==> is_digit_char(s[k]),
    ensures
        digits_val(s, start, end1) <= digits_val(s, start, end2),
    decreases end2 - end1,
{
    if end1 < end2 {
        lemma_digits_val_mono(s, start, end1, end2 - 1);
        lemma_digits_val_nonneg(s, start, end2 - 1);
    }
}

/// One step of the lexical analyzer: a token with its span (start inclusive,
/// end exclusive), end of input, or a failure at a position.
pub ghost enum SpecLex {
    Token(SpecToken, int, int),
    End,
    Fail(SpecLexError, int),
}

/// Largest value an id token may carry when negated.
pub open spec fn id_neg_bound() -> int {
    0x8000_0000_0000_0000
}

/// The token produced for `@` or `#` followed by an optionally signed digit
/// run: a signed id after `@`, an unsigned string-table reference after `#`.
/// Missing or invalid digits fail with `InvalidDigit`; a value out of range
/// fails with `IntegerOverflow`, never a silent clamp.
pub open spec fn spec_number_token(s: Seq<char>, start: int, signed: bool) -> SpecLex {
    let neg = start + 1 < s.len() && s[start + 1] == '-';
    let ds = if neg {
        start + 2
    } else {
        start + 1
    };
    if ds >= s.len() || !is_digit_char(s[ds]) {
        SpecLex::Fail(SpecLexError::InvalidDigit, start)
    } else {
        let de = digits_end(s, ds);
        let v = digits_val(s, ds, de);
        if signed {
            if neg {
                if v <= id_neg_bound() {
                    SpecLex::Token(SpecToken::Id(-v), start, de)
                } else {
                    SpecLex::Fail(SpecLexError::IntegerOverflow, start)
                }
            } else {
                if v <= i64::MAX {
                    SpecLex::Token(SpecToken::Id(v), start, de)
                } else {
                    SpecLex::Fail(SpecLexError::IntegerOverflow, start)
                }
            }
        } else {
            if neg {
                SpecLex::Fail(SpecLexError::InvalidDigit, start)
            } else if v <= u64::MAX {
                SpecLex::Token(SpecToken::TlkRef(v), start, de)
            } else {
                SpecLex::Fail(SpecLexError::IntegerOverflow, start)
            }
        }
    }
}

/// The token produced for a plain tilde-delimited string: `~`, a run of
/// non-tilde characters, `~`.
pub open spec fn spec_plain_tilde_token(s: Seq<char>, start: int) -> SpecLex {
    let q = find_char(s, start + 1, '~');
    if q < s.len() {
        SpecLex::Token(SpecToken::TildeString(s.subrange(start + 1, q)), start, q + 1)
    } else {
        SpecLex::Fail(SpecLexError::InvalidToken, start)
    }
}

/// The token produced at a tilde. The five-tilde form is attempted first:
/// five tildes, a body closed by the next five-tilde run (so the body never
/// holds five consecutive tildes), five tildes. If it cannot match, the
/// plain single-tilde form is attempted at the same position.
pub open spec fn spec_tilde_token(s: Seq<char>, start: int) -> SpecLex {
    if five_tildes_at(s, start) {
        let q = find_five_tildes(s, start + 5);
        if five_tildes_at(s, q) {
            SpecLex::Token(SpecToken::FiveTildesString(s.subrange(start + 5, q)), start, q + 5)
        } else {
            spec_plain_tilde_token(s, start)
        }
    } else {
        spec_plain_tilde_token(s, start)
    }
}

/// The token produced for a delimiter pair `open ... open` (double quote or
/// percent), with the interior as payload.
pub open spec fn spec_delim_token(s: Seq<char>, start: int, dq: bool) -> SpecLex {
    let c = if dq {
        '"'
    } else {
        '%'
    };
    let q = find_char(s, start + 1, c);
    if q < s.len() {
        if dq {
            SpecLex::Token(SpecToken::DoubleQuoteString(s.subrange(start + 1, q)), start, q + 1)
        } else {
            SpecLex::Token(SpecToken::PercentString(s.subrange(start + 1, q)), start, q + 1)
        }
    } else {
        SpecLex::Fail(SpecLexError::InvalidToken, start)
    }
}

/// The token produced for a bracketed sound reference: `[`, a non-empty run
/// of non-`]` characters, `]`; stored without the brackets.
pub open spec fn spec_sound_token(s: Seq<char>, start: int) -> SpecLex {
    let q = find_char(s, start + 1, ']');
    if q < s.len() && q > start + 1 {
        SpecLex::Token(SpecToken::SoundRef(s.subrange(start + 1, q)), start, q + 1)
    } else {
        SpecLex::Fail(SpecLexError::InvalidToken, start)
    }
}

/// The token produced at a slash: `//` through (but not including) the next
/// newline, or `/*` through the earliest `*/` (non-greedy, may span lines).
pub open spec fn spec_comment_token(s: Seq<char>, start: int) -> SpecLex {
    if start + 1 < s.len() && s[start + 1] == '/' {
        let nl = find_char(s, start + 2, '\n');
        if nl < s.len() {
            SpecLex::Token(SpecToken::EndOfLineComment(s.subrange(start + 2, nl)), start, nl + 1)
        } else {
            SpecLex::Fail(SpecLexError::InvalidToken, start)
        }
    } else if start + 1 < s.len() && s[start + 1] == '*' {
        let q = find_close_comment(s, start + 2);
        if close_comment_at(s, q) {
            SpecLex::Token(SpecToken::EnclosedComment(s.subrange(start + 2, q)), start, q + 2)
        } else {
            SpecLex::Fail(SpecLexError::InvalidToken, start)
        }
    } else {
        SpecLex::Fail(SpecLexError::InvalidToken, start)
    }
}

/// The token starting at the non-whitespace offset `start`. The first
/// character decides the rule; any character starting no rule is an
/// `InvalidToken` failure.
pub open spec fn spec_token_at(s: Seq<char>, start: int) -> SpecLex {
    let c = s[start];
    if c == '@' {
        spec_number_token(s, start, true)
    } else if c == '#' {
        spec_number_token(s, start, false)
    } else if c == '=' {
        SpecLex::Token(SpecToken::Equal, start, start + 1)
    } else if c == '^' {
        SpecLex::Token(SpecToken::OperatorConcat, start, start + 1)
    } else if c == '~' {
        spec_tilde_token(s, start)
    } else if c == '"' {
        spec_delim_token(s, start, true)
    } else if c == '%' {
        spec_delim_token(s, start, false)
    } else if c == '[' {
        spec_sound_token(s, start)
    } else if c == '/' {
        spec_comment_token(s, start)
    } else {
        SpecLex::Fail(SpecLexError::InvalidToken, start)
    }
}

/// The lexical analyzer's one-step contract: skip whitespace, then either
/// end of input or the token (or failure) at the first non-whitespace
/// character.
pub open spec fn spec_next_token(s: Seq<char>, pos: int) -> SpecLex {
    let start = skip_ws(s, pos);
    if start >= s.len() {
        SpecLex::End
    } else {
        spec_token_at(s, start)
    }
}

/// A token's span lies strictly ahead of the scan position and inside the
/// text; a failure position lies at a character of the text.
pub proof fn lemma_next_token_bounds(s: Seq<char>, pos: int)
    requires
        0 <= pos <= s.len(),
    ensures
        match spec_next_token(s, pos) {
            SpecLex::Token(_, start, end) => pos <= start < end <= s.len(),
            SpecLex::End => true,
            SpecLex::Fail(_, p) => pos <= p < s.len(),
        },
{
    lemma_skip_ws(s, pos);
    let start = skip_ws(s, pos);
    if start < s.len() {
        let c = s[start];
        if c == '@' || c == '#' {
            let neg = start + 1 < s.len() && s[start + 1] == '-';
            let ds = if neg {
                start + 2
            } else {
                start + 1
            };
            if !(ds >= s.len() || !is_digit_char(s[ds])) {
                lemma_digits_end(s, ds);
                lemma_digits_end(s, ds + 1);
                assert(digits_end(s, ds) == digits_end(s, ds + 1));
            }
        } else if c == '~' {
            if five_tildes_at(s, start) {
                lemma_find_five_tildes(s, start + 5);
            }
            lemma_find_char(s, start + 1, '~');
        } else if c == '"' {
            lemma_find_char(s, start + 1, '"');
        } else if c == '%' {
            lemma_find_char(s, start + 1, '%');
        } else if c == '[' {
            lemma_find_char(s, start + 1, ']');
        } else if c == '/' {
            if start + 1 < s.len() && s[start + 1] == '/' {
                lemma_find_char(s, start + 2, '\n');
            } else if start + 1 < s.len() && s[start + 1] == '*' {
                lemma_find_close_comment(s, start + 2);
            }
        }
    }
}

/// One step of the lexical analyzer, executable form. The span and failure
/// positions are character offsets into the input.
#[derive(Debug, PartialEq)]
pub enum LexOutcome {
    Token(Token, usize, usize),
    End,
    Fail(LexError, usize),
}

impl View for LexOutcome {
    type V = SpecLex;

    open spec fn view(&self) -> SpecLex {
        match self {
            LexOutcome::Token(t, start, end) => SpecLex::Token(t@, *start as int, *end as int),
            LexOutcome::End => SpecLex::End,
            LexOutcome::Fail(e, p) => SpecLex::Fail(e@, *p as int),
        }
    }
}

fn is_ws_exec(c: char) -> (b: bool)
    ensures
        b == is_ws_char(c),
{
    c == ' ' || c == '\t' || c == '\n' || c == '\u{000C}'
}

/// The numeric value of `c` when it is an ASCII digit.
fn digit_of(c: char) -> (r: Option<u32>)
    ensures
        match r {
            Some(d) => is_digit_char(c) && d == digit_val(c),
            None => !is_digit_char(c),
        },
{
    let u = c as u32;
    if 48 <= u && u <= 57 {
        Some(u - 48)
    } else {
        None
    }
}

fn skip_ws_exec(text: &str, n: usize, pos: usize) -> (r: usize)
    requires
        n == text@.len(),
        pos <= n,
    ensures
        r == skip_ws(text@, pos as int),
        pos <= r <= n,
{
    let mut i: usize = pos;
    loop
        invariant
            pos <= i <= n,
            n == text@.len(),
            skip_ws(text@, pos as int) == skip_ws(text@, i as int),
        decreases n - i,
    {
        if i >= n {
            return i;
        }
        if !is_ws_exec(text.get_char(i)) {
            return i;
        }
        i = i + 1;
    }
}

fn find_char_exec(text: &str, n: usize, pos: usize, c: char) -> (r: usize)
    requires
        n == text@.len(),
        pos <= n,
    ensures
        r == find_char(text@, pos as int, c),
        pos <= r <= n,
{
    let mut i: usize = pos;
    loop
        invariant
            pos <= i <= n,
            n == text@.len(),
            find_char(text@, pos as int, c) == find_char(text@, i as int, c),
        decreases n - i,
    {
        if i >= n {
            return i;
        }
        if text.get_char(i) == c {
            return i;
        }
        i = i + 1;
    }
}

/// Whether five consecutive tildes start at offset `q`.
fn five_tildes_at_exec(text: &str, n: usize, q: usize) -> (b: bool)
    requires
        n == text@.len(),
        q <= n,
    ensures
        b == five_tildes_at(text@, q as int),
{
    if n - q < 5 {
        return false;
    }
    let b = text.get_char(q) == '~' && text.get_char(q + 1) == '~' && text.get_char(q + 2) == '~'
        && text.get_char(q + 3) == '~' && text.get_char(q + 4) == '~';
    proof {
        if b {
            assert forall|k: int| q <= k < q + 5 implies text@[k] == '~' by {
                assert(k == q || k == q + 1 || k == q + 2 || k == q + 3 || k == q + 4);
            }
        }
    }
    b
}

fn find_five_tildes_exec(text: &str, n: usize, pos: usize) -> (r: usize)
    requires
        n == text@.len(),
        pos <= n,
    ensures
        r == find_five_tildes(text@, pos as int),
        pos <= r <= n,
{
    let mut i: usize = pos;
    loop
        invariant
            pos <= i <= n,
            n == text@.len(),
            find_five_tildes(text@, pos as int) == find_five_tildes(text@, i as int),
        decreases n - i,
    {
        if i >= n {
            return i;
        }
        if five_tildes_at_exec(text, n, i) {
            return i;
        }
        i = i + 1;
    }
}

fn find_close_comment_exec(text: &str, n: usize, pos: usize) -> (r: usize)
    requires
        n == text@.len(),
        pos <= n,
    ensures
        r == find_close_comment(text@, pos as int),
        pos <= r <= n,
{
    let mut i: usize = pos;
    loop
        invariant
            pos <= i <= n,
            n == text@.len(),
            find_close_comment(text@, pos as int) == find_close_comment(text@, i as int),
        decreases n - i,
    {
        if i >= n {
            return i;
        }
        if text.get_char(i) == '*' && i + 1 < n && text.get_char(i + 1) == '/' {
            return i;
        }
        i = i + 1;
    }
}

/// Copies the characters `text[from..to]` into an owned string.
fn substring_of(text: &str, n: usize, from: usize, to: usize) -> (r: String)
    requires
        n == text@.len(),
        from <= to <= n,
    ensures
        r@ == text@.subrange(from as int, to as int),
{
    String::from_str(text.substring_char(from, to))
}

/// Scans the optionally signed digit run after `@` (signed) or `#`
/// (unsigned), starting at the marker character's offset.
fn scan_number(text: &str, n: usize, start: usize, signed: bool) -> (r: LexOutcome)
    requires
        n == text@.len(),
        start < n,
    ensures
        r@ == spec_number_token(text@, start as int, signed),
{
    let ghost s = text@;
    let neg = start + 1 < n && text.get_char(start + 1) == '-';
    let ds: usize = if neg {
        start + 2
    } else {
        start + 1
    };
    if ds >= n {
        return LexOutcome::Fail(LexError::InvalidDigit, start);
    }
    if digit_of(text.get_char(ds)).is_none() {
        return LexOutcome::Fail(LexError::InvalidDigit, start);
    }
    if !signed && neg {
        return LexOutcome::Fail(LexError::InvalidDigit, start);
    }
    proof {
        lemma_digits_end(s, ds as int);
    }
    let ghost de: int = digits_end(s, ds as int);
    // Largest u64 value with the final decimal digit removed; a digit run
    // whose accumulator would pass this point cannot fit in a u64.
    let cap: u64 = 1844674407370955161;
    let mut i: usize = ds;
    let mut acc: u64 = 0;
    loop
        invariant
            ds <= i <= n,
            n == s.len() == text@.len(),
            s == text@,
            0 <= ds < n,
            de == digits_end(s, ds as int),
            de == digits_end(s, i as int),
            ds <= de <= n,
            forall|k: int| ds <= k < de ==> is_digit_char(s[k]),
            de < s.len() ==> !is_digit_char(s[de]),
            acc == digits_val(s, ds as int, i as int),
            cap == 1844674407370955161,
            start < n,
            neg == (start + 1 < s.len() && s[start + 1] == '-'),
            ds as int == (if neg {
                start + 2
            } else {
                start + 1
            }),
            is_digit_char(s[ds as int]),
            signed || !neg,
        ensures
            ds <= i <= n,
            i as int == de,
            acc == digits_val(s, ds as int, de),
        decreases n - i,
    {
        if i >= n {
            proof {
                assert(digits_end(s, i as int) == i as int);
            }
            break ;
        }
        let c = text.get_char(i);
        match digit_of(c) {
            None => {
                proof {
                    assert(digits_end(s, i as int) == i as int);
                }
                break ;
            },
            Some(d) => {
                proof {
                    lemma_digits_end(s, i as int);
                    assert(digits_end(s, i as int) == digits_end(s, i + 1));
                    assert(i < de);
                    assert(digits_val(s, ds as int, i + 1) == digits_val(
                        s,
                        ds as int,
                        i as int,
                    ) * 10 + digit_val(s[i as int]));
                }
                if acc > cap || (acc == cap && d > 5) {
                    proof {
                        assert(acc * 10 + d > u64::MAX);
                        lemma_digits_val_mono(s, ds as int, i + 1, de);
                        assert(digits_val(s, ds as int, de) > u64::MAX);
                    }
                    return LexOutcome::Fail(LexError::IntegerOverflow, start);
                }
                acc = acc * 10 + (d as u64);
                i = i + 1;
            },
        }
    }
    let v: u64 = acc;
    if signed {
        if neg {
            if v <= 9223372036854775808u64 {
                let id: i64 = if v == 9223372036854775808u64 {
                    i64::MIN
                } else {
                    -(v as i64)
                };
                LexOutcome::Token(Token::Id(id), start, i)
            } else {
                LexOutcome::Fail(LexError::IntegerOverflow, start)
            }
        } else {
            if v <= 9223372036854775807u64 {
                LexOutcome::Token(Token::Id(v as i64), start, i)
            } else {
                LexOutcome::Fail(LexError::IntegerOverflow, start)
            }
        }
    } else {
        LexOutcome::Token(Token::TlkRef(v), start, i)
    }
}

/// Scans a plain single-tilde string starting at the opening tilde.
fn scan_plain_tilde(text: &str, n: usize, start: usize) -> (r: LexOutcome)
    requires
        n == text@.len(),
        start < n,
    ensures
        r@ == spec_plain_tilde_token(text@, start as int),
{
    let q = find_char_exec(text, n, start + 1, '~');
    if q < n {
        LexOutcome::Token(Token::TildeString(substring_of(text, n, start + 1, q)), start, q + 1)
    } else {
        LexOutcome::Fail(LexError::InvalidToken, start)
    }
}

/// One step of the lexical analyzer: skips whitespace from `pos`, then
/// returns the next token with its span, `End` at end of input, or the
/// failure that prevents a token from forming. `n` is the character length
/// of the whole text.
pub fn next_token(text: &str, n: usize, pos: usize) -> (r: LexOutcome)
    requires
        n == text@.len(),
        pos <= n,
    ensures
        r@ == spec_next_token(text@, pos as int),
        match r {
            LexOutcome::Token(_, start, end) => pos <= start < end <= n,
            LexOutcome::End => true,
            LexOutcome::Fail(_, p) => pos <= p < n,
        },
{
    proof {
        lemma_next_token_bounds(text@, pos as int);
    }
    let start = skip_ws_exec(text, n, pos);
    if start >= n {
        return LexOutcome::End;
    }
    let c = text.get_char(start);
    if c == '@' {
        scan_number(text, n, start, true)
    } else if c == '#' {
        scan_number(text, n, start, false)
    } else if c == '=' {
        LexOutcome::Token(Token::Equal, start, start + 1)
    } else if c == '^' {
        LexOutcome::Token(Token::OperatorConcat, start, start + 1)
    } else if c == '~' {
        if five_tildes_at_exec(text, n, start) {
            let q = find_five_tildes_exec(text, n, start + 5);
            if five_tildes_at_exec(text, n, q) {
                LexOutcome::Token(
                    Token::FiveTildesString(substring_of(text, n, start + 5, q)),
                    start,
                    q + 5,
                )
            } else {
                scan_plain_tilde(text, n, start)
            }
        } else {
            scan_plain_tilde(text, n, start)
        }
    } else if c == '"' {
        let q = find_char_exec(text, n, start + 1, '"');
        if q < n {
            LexOutcome::Token(
                Token::DoubleQuoteString(substring_of(text, n, start + 1, q)),
                start,
                q + 1,
            )
        } else {
            LexOutcome::Fail(LexError::InvalidToken, start)
        }
    } else if c == '%' {
        let q = find_char_exec(text, n, start + 1, '%');
        if q < n {
            LexOutcome::Token(
                Token::PercentString(substring_of(text, n, start + 1, q)),
                start,
                q + 1,
            )
        } else {
            LexOutcome::Fail(LexError::InvalidToken, start)
        }
    } else if c == '[' {
        let q = find_char_exec(text, n, start + 1, ']');
        if q < n && q > start + 1 {
            LexOutcome::Token(Token::SoundRef(substring_of(text, n, start + 1, q)), start, q + 1)
        } else {
            LexOutcome::Fail(LexError::InvalidToken, start)
        }
    } else if c == '/' {
        if start + 1 < n && text.get_char(start + 1) == '/' {
            let nl = find_char_exec(text, n, start + 2, '\n');
            if nl < n {
                LexOutcome::Token(
                    Token::EndOfLineComment(substring_of(text, n, start + 2, nl)),
                    start,
                    nl + 1,
                )
            } else {
                LexOutcome::Fail(LexError::InvalidToken, start)
            }
        } else if start + 1 < n && text.get_char(start + 1) == '*' {
            let q = find_close_comment_exec(text, n, start + 2);
            proof {
                lemma_find_close_comment(text@, (start + 2) as int);
            }
            if q < n {
                LexOutcome::Token(
                    Token::EnclosedComment(substring_of(text, n, start + 2, q)),
                    start,
                    q + 2,
                )
            } else {
                LexOutcome::Fail(LexError::InvalidToken, start)
            }
        } else {
            LexOutcome::Fail(LexError::InvalidToken, start)
        }
    } else {
        LexOutcome::Fail(LexError::InvalidToken, start)
    }
}

} // verus!
