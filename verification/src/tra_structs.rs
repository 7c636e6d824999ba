//! Data model of a parsed TRA file: entries, string values, comments and the
//! top-level fragments, together with their mathematical models.

use vstd::prelude::*;
use vstd::string::StringExecFns;

verus! {

/// A string literal, tagged by the quoting convention that produced it.
/// The tag is preserved because re-emission and equality depend on the
/// original delimiter style, not only on the text.
#[derive(Debug, Clone, PartialEq)]
pub enum WeiduStringLit {
    Tilde(String),
    DoubleQuote(String),
    Percent(String),
    FiveTildes(String),
}

/// Mathematical model of a `WeiduStringLit`.
pub ghost enum SpecStringLit {
    Tilde(Seq<char>),
    DoubleQuote(Seq<char>),
    Percent(Seq<char>),
    FiveTildes(Seq<char>),
}

impl View for WeiduStringLit {
    type V = SpecStringLit;

    open spec fn view(&self) -> SpecStringLit {
        match self {
            WeiduStringLit::Tilde(s) => SpecStringLit::Tilde(s@),
            WeiduStringLit::DoubleQuote(s) => SpecStringLit::DoubleQuote(s@),
            WeiduStringLit::Percent(s) => SpecStringLit::Percent(s@),
            WeiduStringLit::FiveTildes(s) => SpecStringLit::FiveTildes(s@),
        }
    }
}

/// A resolved string value. `Concat` is left-recursive: a chain of N
/// concatenations is represented as N-1 nested `Concat` nodes, innermost
/// first, each owning its left sub-expression.
#[derive(Debug, PartialEq)]
pub enum WeiduString {
    Literal(WeiduStringLit),
    At(i64),
    Ref(u32),
    Concat(Box<WeiduString>, Box<WeiduStringLit>),
}

/// The innermost node of a concatenation chain.
pub ghost enum SpecStringBase {
    Literal(SpecStringLit),
    At(int),
    Ref(int),
}

/// Mathematical model of a `WeiduString`: the innermost value together with
/// the literals concatenated onto it, in order from innermost outward. A
/// value without concatenation has an empty tail.
pub ghost struct SpecWeiduString {
    pub base: SpecStringBase,
    pub tail: Seq<SpecStringLit>,
}

/// Flattens a (possibly nested) concatenation chain into its innermost value
/// and the literals concatenated onto it, innermost first.
pub open spec fn ws_view(w: WeiduString) -> SpecWeiduString
    decreases w,
{
    match w {
        WeiduString::Literal(lit) => SpecWeiduString {
            base: SpecStringBase::Literal(lit@),
            tail: Seq::empty(),
        },
        WeiduString::At(id) => SpecWeiduString {
            base: SpecStringBase::At(id as int),
            tail: Seq::empty(),
        },
        WeiduString::Ref(n) => SpecWeiduString {
            base: SpecStringBase::Ref(n as int),
            tail: Seq::empty(),
        },
        WeiduString::Concat(left, lit) => SpecWeiduString {
            base: ws_view(*left).base,
            tail: ws_view(*left).tail.push(lit@),
        },
    }
}

impl View for WeiduString {
    type V = SpecWeiduString;

    open spec fn view(&self) -> SpecWeiduString {
        ws_view(*self)
    }
}

impl Default for WeiduString {
    fn default() -> (r: Self)
        ensures
            r@ == (SpecWeiduString {
                base: SpecStringBase::Literal(SpecStringLit::Tilde(Seq::empty())),
                tail: Seq::<SpecStringLit>::empty(),
            }),
    {
        Self::Literal(WeiduStringLit::Tilde(String::new()))
    }
}

/// A full explicit entry value: a string value with an optional sound tag,
/// and an optional second (alt) value with its own optional sound tag.
/// `alt_sound` is only meaningful when `alt_value` is present; the grammar
/// never attaches one without the other.
#[derive(Debug, PartialEq)]
pub struct ExplicitTraEntry {
    pub value: WeiduString,
    pub sound: Option<String>,
    pub alt_value: Option<WeiduString>,
    pub alt_sound: Option<String>,
}

/// Mathematical model of an `ExplicitTraEntry`.
pub ghost struct SpecExplicitEntry {
    pub value: SpecWeiduString,
    pub sound: Option<Seq<char>>,
    pub alt_value: Option<SpecWeiduString>,
    pub alt_sound: Option<Seq<char>>,
}

pub open spec fn view_opt_string(o: Option<String>) -> Option<Seq<char>> {
    match o {
        Some(s) => Some(s@),
        None => None,
    }
}

pub open spec fn view_opt_ws(o: Option<WeiduString>) -> Option<SpecWeiduString> {
    match o {
        Some(w) => Some(w@),
        None => None,
    }
}

impl View for ExplicitTraEntry {
    type V = SpecExplicitEntry;

    open spec fn view(&self) -> SpecExplicitEntry {
        SpecExplicitEntry {
            value: self.value@,
            sound: view_opt_string(self.sound),
            alt_value: view_opt_ws(self.alt_value),
            alt_sound: view_opt_string(self.alt_sound),
        }
    }
}

impl Default for ExplicitTraEntry {
    fn default() -> (r: Self)
        ensures
            r@.value == (SpecWeiduString {
                base: SpecStringBase::Literal(SpecStringLit::Tilde(Seq::empty())),
                tail: Seq::<SpecStringLit>::empty(),
            }),
            r@.sound is None,
            r@.alt_value is None,
            r@.alt_sound is None,
    {
        ExplicitTraEntry {
            value: WeiduString::default(),
            sound: None,
            alt_value: None,
            alt_sound: None,
        }
    }
}

impl ExplicitTraEntry {
    /// An explicit value with no sound tag and no alt pair.
    pub fn simplest(value: WeiduStringLit) -> (r: Self)
        ensures
            r@.value.base == SpecStringBase::Literal(value@),
            r@.value.tail == Seq::<SpecStringLit>::empty(),
            r@.sound is None,
            r@.alt_value is None,
            r@.alt_sound is None,
    {
        ExplicitTraEntry {
            value: WeiduString::Literal(value),
            sound: None,
            alt_value: None,
            alt_sound: None,
        }
    }

    /// An explicit value with an alt value and no sound tags.
    pub fn with_female(value: WeiduStringLit, alt_value: WeiduStringLit) -> (r: Self)
        ensures
            r@.value.base == SpecStringBase::Literal(value@),
            r@.value.tail == Seq::<SpecStringLit>::empty(),
            r@.sound is None,
            r@.alt_value == Some(
                SpecWeiduString {
                    base: SpecStringBase::Literal(alt_value@),
                    tail: Seq::<SpecStringLit>::empty(),
                },
            ),
            r@.alt_sound is None,
    {
        ExplicitTraEntry {
            value: WeiduString::Literal(value),
            sound: None,
            alt_value: Some(WeiduString::Literal(alt_value)),
            alt_sound: None,
        }
    }

    /// An explicit value with a sound tag and no alt pair.
    pub fn with_sound(value: WeiduStringLit, sound: &str) -> (r: Self)
        ensures
            r@.value.base == SpecStringBase::Literal(value@),
            r@.value.tail == Seq::<SpecStringLit>::empty(),
            r@.sound == Some(sound@),
            r@.alt_value is None,
            r@.alt_sound is None,
    {
        ExplicitTraEntry {
            value: WeiduString::Literal(value),
            sound: Some(String::from_str(sound)),
            alt_value: None,
            alt_sound: None,
        }
    }

    /// An explicit value built from all four fields.
    pub fn new(
        value: WeiduStringLit,
        sound: Option<&str>,
        alt_value: Option<WeiduStringLit>,
        alt_sound: Option<&str>,
    ) -> (r: Self)
        ensures
            r@.value.base == SpecStringBase::Literal(value@),
            r@.value.tail == Seq::<SpecStringLit>::empty(),
            r@.sound == (match sound {
                Some(s) => Some(s@),
                None => None::<Seq<char>>,
            }),
            r@.alt_value == (match alt_value {
                Some(v) => Some(
                    SpecWeiduString {
                        base: SpecStringBase::Literal(v@),
                        tail: Seq::<SpecStringLit>::empty(),
                    },
                ),
                None => None::<SpecWeiduString>,
            }),
            r@.alt_sound == (match alt_sound {
                Some(s) => Some(s@),
                None => None::<Seq<char>>,
            }),
    {
        let snd = match sound {
            Some(s) => Some(String::from_str(s)),
            None => None,
        };
        let alt = match alt_value {
            Some(v) => Some(WeiduString::Literal(v)),
            None => None,
        };
        let alt_snd = match alt_sound {
            Some(s) => Some(String::from_str(s)),
            None => None,
        };
        ExplicitTraEntry { value: WeiduString::Literal(value), sound: snd, alt_value: alt, alt_sound: alt_snd }
    }
}

/// The right-hand side of an entry: a full explicit value, an alias to
/// another entry id, or a direct reference into an external string table.
#[derive(Debug, PartialEq)]
pub enum TraEntryContent {
    Explicit(ExplicitTraEntry),
    At(i64),
    Tlk(u32),
}

/// Mathematical model of a `TraEntryContent`.
pub ghost enum SpecEntryContent {
    Explicit(SpecExplicitEntry),
    At(int),
    Tlk(int),
}

impl View for TraEntryContent {
    type V = SpecEntryContent;

    open spec fn view(&self) -> SpecEntryContent {
        match self {
            TraEntryContent::Explicit(e) => SpecEntryContent::Explicit(e@),
            TraEntryContent::At(id) => SpecEntryContent::At(*id as int),
            TraEntryContent::Tlk(n) => SpecEntryContent::Tlk(*n as int),
        }
    }
}

/// One numbered record of the archive. Ids may be negative, and need not be
/// unique within a file: duplication is a reportable condition, not a parse
/// error.
#[derive(Debug, PartialEq)]
pub struct TraEntry {
    pub id: i64,
    pub content: TraEntryContent,
}

/// Mathematical model of a `TraEntry`.
pub ghost struct SpecEntry {
    pub id: int,
    pub content: SpecEntryContent,
}

impl View for TraEntry {
    type V = SpecEntry;

    open spec fn view(&self) -> SpecEntry {
        SpecEntry { id: self.id as int, content: self.content@ }
    }
}

/// A comment, with its delimiters stripped.
#[derive(Debug, Clone, PartialEq)]
pub enum TraComment {
    EndOfLine(String),
    Enclosed(String),
}

/// Mathematical model of a `TraComment`.
pub ghost enum SpecComment {
    EndOfLine(Seq<char>),
    Enclosed(Seq<char>),
}

impl View for TraComment {
    type V = SpecComment;

    open spec fn view(&self) -> SpecComment {
        match self {
            TraComment::EndOfLine(s) => SpecComment::EndOfLine(s@),
            TraComment::Enclosed(s) => SpecComment::Enclosed(s@),
        }
    }
}

/// The top-level parse unit. `Error` is a placeholder inserted at a recovery
/// point; it carries no payload, the error detail lives in the side list.
#[derive(Debug, PartialEq)]
pub enum TraFragment {
    Comment(TraComment),
    Entry(TraEntry),
    Error,
}

/// Mathematical model of a `TraFragment`.
pub ghost enum SpecFragment {
    Comment(SpecComment),
    Entry(SpecEntry),
    Error,
}

impl View for TraFragment {
    type V = SpecFragment;

    open spec fn view(&self) -> SpecFragment {
        match self {
            TraFragment::Comment(c) => SpecFragment::Comment(c@),
            TraFragment::Entry(e) => SpecFragment::Entry(e@),
            TraFragment::Error => SpecFragment::Error,
        }
    }
}

impl TraFragment {
    /// The entry held by this fragment, or `None` for comments and error
    /// placeholders.
    pub fn as_entry(&self) -> (r: Option<&TraEntry>)
        ensures
            match r {
                Some(e) => self@ == SpecFragment::Entry(e@),
                None => !(self@ is Entry),
            },
    {
        match self {
            TraFragment::Entry(entry) => Some(entry),
            _ => None,
        }
    }
}

} // verus!
