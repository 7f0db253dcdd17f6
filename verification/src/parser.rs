//! The selector parser: from the tokens of a text to compiled selectors.
//!
//! The grammar is given as specification functions on the tokens; the parsing
//! functions are proved to compute exactly what those functions say, errors
//! included.

use crate::attr::{
    AttrSelectorOperation, AttrSelectorOperationView, AttrSelectorOperator, CaseSensitivity,
    NamespaceConstraint, NamespaceConstraintView,
};
use crate::selector::{
    compounds_view, count, count_in, selectors_view, AttributeSelector, AttributeSelectorView,
    Combinator, ComplexSelector, ComplexSelectorView, CompoundSelector, NonTSPseudoClass,
    PseudoClass, SimpleSelector, SimpleSelectorView, SpecificityKind,
};
use crate::text::{ascii_lower, lower_substring, str_eq, substring};
use crate::tokenizer::{
    token_wf, tokenize, tokens_of, tokens_view, tokens_wf, Token, TokenKind, TokenView,
};
use vstd::prelude::*;

verus! {

/// Why a text is not a selector list. Each error gives a position in the text,
/// counted in characters from 0.
#[derive(Clone, Copy, Debug, PartialEq, Eq, Structural)]
pub enum ParseError {
    /// Something stands at this position that cannot stand there.
    UnexpectedToken(usize),
    /// A selector is expected at this position, and there is none.
    EmptySelector(usize),
    /// The pseudo-class that begins at this position is not known.
    UnknownPseudoClass(usize),
    /// The attribute selector that begins at this position is never closed.
    UnterminatedAttribute(usize),
}

impl ParseError {
    /// The position in the text that the error names.
    pub fn position(&self) -> (r: usize)
        ensures
            r == match *self {
                ParseError::UnexpectedToken(p) => p,
                ParseError::EmptySelector(p) => p,
                ParseError::UnknownPseudoClass(p) => p,
                ParseError::UnterminatedAttribute(p) => p,
            },
    {
        match *self {
            ParseError::UnexpectedToken(p) => p,
            ParseError::EmptySelector(p) => p,
            ParseError::UnknownPseudoClass(p) => p,
            ParseError::UnterminatedAttribute(p) => p,
        }
    }
}

/// The kind of token `i`, if there is such a token.
pub open spec fn kind_at(toks: Seq<TokenView>, i: int) -> Option<TokenKind> {
    if 0 <= i < toks.len() {
        Some(toks[i].kind)
    } else {
        None
    }
}

/// Where token `i` begins; the end of the text if there is no such token.
pub open spec fn position_at(s: Seq<char>, toks: Seq<TokenView>, i: int) -> usize {
    if 0 <= i < toks.len() {
        toks[i].start as usize
    } else {
        s.len() as usize
    }
}

/// The index after token `i` if that is whitespace, else `i`.
pub open spec fn skip_whitespace(toks: Seq<TokenView>, i: int) -> int {
    if kind_at(toks, i) == Some(TokenKind::Whitespace) {
        i + 1
    } else {
        i
    }
}

/// The text of a name token.
pub open spec fn ident_text(s: Seq<char>, t: TokenView) -> Seq<char> {
    s.subrange(t.start, t.end)
}

/// The name in a hash token, without its `#`.
pub open spec fn hash_text(s: Seq<char>, t: TokenView) -> Seq<char> {
    s.subrange(t.start + 1, t.end)
}

/// What a string token holds between its quotes.
pub open spec fn string_text(s: Seq<char>, t: TokenView) -> Seq<char> {
    s.subrange(t.start + 1, t.end - 1)
}

/// The attribute operator that a token stands for, if any.
pub open spec fn operator_of(kind: TokenKind) -> Option<AttrSelectorOperator> {
    match kind {
        TokenKind::Equals => Some(AttrSelectorOperator::Equal),
        TokenKind::IncludeMatch => Some(AttrSelectorOperator::Includes),
        TokenKind::DashMatch => Some(AttrSelectorOperator::DashMatch),
        TokenKind::PrefixMatch => Some(AttrSelectorOperator::Prefix),
        TokenKind::SubstringMatch => Some(AttrSelectorOperator::Substring),
        TokenKind::SuffixMatch => Some(AttrSelectorOperator::Suffix),
        _ => None,
    }
}

/// The pseudo-class of a name, which is taken without regard to ASCII case.
pub open spec fn pseudo_class_named(name: Seq<char>) -> Option<PseudoClass> {
    let lower = ascii_lower(name);
    if lower == "link"@ {
        Some(PseudoClass::NonTS(NonTSPseudoClass::Link))
    } else if lower == "visited"@ {
        Some(PseudoClass::NonTS(NonTSPseudoClass::Visited))
    } else if lower == "hover"@ {
        Some(PseudoClass::NonTS(NonTSPseudoClass::Hover))
    } else if lower == "active"@ {
        Some(PseudoClass::NonTS(NonTSPseudoClass::Active))
    } else if lower == "root"@ {
        Some(PseudoClass::Root)
    } else if lower == "empty"@ {
        Some(PseudoClass::Empty)
    } else {
        None
    }
}

/// The case flag of an attribute selector: `i` asks for ASCII case-insensitive
/// comparison, `s` for case-sensitive comparison; either may be in upper case.
pub open spec fn case_flag_named(name: Seq<char>) -> Option<CaseSensitivity> {
    let lower = ascii_lower(name);
    if lower == "i"@ {
        Some(CaseSensitivity::AsciiCaseInsensitive)
    } else if lower == "s"@ {
        Some(CaseSensitivity::CaseSensitive)
    } else {
        None
    }
}

/// The error for an attribute selector, opened at `open`, that cannot go on at token
/// `j`: it is unterminated if the text ends there, or in a string that is never
/// closed; otherwise token `j` is unexpected.
pub open spec fn attribute_failure(toks: Seq<TokenView>, j: int, open: int) -> ParseError {
    if kind_at(toks, j) is None || kind_at(toks, j) == Some(TokenKind::OpenStr) {
        ParseError::UnterminatedAttribute(open as usize)
    } else {
        ParseError::UnexpectedToken(toks[j].start as usize)
    }
}

/// Parses the attribute selector whose `[` is token `i`. On success the result
/// holds the selector and the index after its `]`.
pub open spec fn parse_attribute_spec(s: Seq<char>, toks: Seq<TokenView>, i: int) -> Result<
    (AttributeSelectorView, int),
    ParseError,
> {
    let open = toks[i].start;
    let i1 = skip_whitespace(toks, i + 1);
    let any_namespace = kind_at(toks, i1) == Some(TokenKind::Star) && kind_at(toks, i1 + 1)
        == Some(TokenKind::Pipe);
    let no_namespace = kind_at(toks, i1) == Some(TokenKind::Pipe);
    let i2 = if any_namespace {
        i1 + 2
    } else if no_namespace {
        i1 + 1
    } else {
        i1
    };
    let namespace = if any_namespace {
        NamespaceConstraintView::Any
    } else {
        NamespaceConstraintView::Specific(Seq::empty())
    };
    if kind_at(toks, i2) != Some(TokenKind::Ident) {
        Err(attribute_failure(toks, i2, open))
    } else {
        let name = ident_text(s, toks[i2]);
        let i3 = skip_whitespace(toks, i2 + 1);
        if kind_at(toks, i3) == Some(TokenKind::CloseBracket) {
            Ok(
                (
                    AttributeSelectorView {
                        namespace,
                        local_name: name,
                        local_name_lower: ascii_lower(name),
                        operation: AttrSelectorOperationView::Exists,
                    },
                    i3 + 1,
                ),
            )
        } else if kind_at(toks, i3) is Some && operator_of(toks[i3].kind) is Some {
            let operator = operator_of(toks[i3].kind).unwrap();
            let i4 = skip_whitespace(toks, i3 + 1);
            if kind_at(toks, i4) == Some(TokenKind::Ident) || kind_at(toks, i4) == Some(
                TokenKind::Str,
            ) {
                let value = if toks[i4].kind is Ident {
                    ident_text(s, toks[i4])
                } else {
                    string_text(s, toks[i4])
                };
                let i5 = skip_whitespace(toks, i4 + 1);
                let flag = if kind_at(toks, i5) == Some(TokenKind::Ident) {
                    case_flag_named(ident_text(s, toks[i5]))
                } else {
                    None
                };
                let i6 = if flag is Some {
                    skip_whitespace(toks, i5 + 1)
                } else {
                    i5
                };
                let case_sensitivity = if flag is Some {
                    flag.unwrap()
                } else {
                    CaseSensitivity::CaseSensitive
                };
                if kind_at(toks, i6) == Some(TokenKind::CloseBracket) {
                    Ok(
                        (
                            AttributeSelectorView {
                                namespace,
                                local_name: name,
                                local_name_lower: ascii_lower(name),
                                operation: AttrSelectorOperationView::WithValue {
                                    operator,
                                    case_sensitivity,
                                    value,
                                },
                            },
                            i6 + 1,
                        ),
                    )
                } else {
                    Err(attribute_failure(toks, i6, open))
                }
            } else {
                Err(attribute_failure(toks, i4, open))
            }
        } else {
            Err(attribute_failure(toks, i3, open))
        }
    }
}

/// Parses the simple selector that begins at token `i`. A type selector and `*`
/// may only stand first in their compound.
pub open spec fn parse_simple_spec(s: Seq<char>, toks: Seq<TokenView>, i: int, first: bool) -> Result<
    (SimpleSelectorView, int),
    ParseError,
> {
    let t = toks[i];
    match t.kind {
        TokenKind::Ident => if first {
            Ok(
                (
                    SimpleSelectorView::Type {
                        name: ident_text(s, t),
                        lower_name: ascii_lower(ident_text(s, t)),
                    },
                    i + 1,
                ),
            )
        } else {
            Err(ParseError::UnexpectedToken(t.start as usize))
        },
        TokenKind::Star => if first {
            Ok((SimpleSelectorView::Universal, i + 1))
        } else {
            Err(ParseError::UnexpectedToken(t.start as usize))
        },
        TokenKind::Hash => Ok((SimpleSelectorView::Id(hash_text(s, t)), i + 1)),
        TokenKind::Dot => if kind_at(toks, i + 1) == Some(TokenKind::Ident) {
            Ok((SimpleSelectorView::Class(ident_text(s, toks[i + 1])), i + 2))
        } else {
            Err(ParseError::UnexpectedToken(position_at(s, toks, i + 1)))
        },
        TokenKind::OpenBracket => match parse_attribute_spec(s, toks, i) {
            Ok((attr, j)) => Ok((SimpleSelectorView::Attribute(attr), j)),
            Err(e) => Err(e),
        },
        TokenKind::Colon => if kind_at(toks, i + 1) == Some(TokenKind::Ident) {
            match pseudo_class_named(ident_text(s, toks[i + 1])) {
                Some(pc) => Ok((SimpleSelectorView::PseudoClass(pc), i + 2)),
                None => Err(ParseError::UnknownPseudoClass(t.start as usize)),
            }
        } else {
            Err(ParseError::UnexpectedToken(position_at(s, toks, i + 1)))
        },
        _ => Err(ParseError::UnexpectedToken(t.start as usize)),
    }
}

/// A simple selector that parses covers at least one token, within the tokens.
pub proof fn lemma_parse_simple_progress(s: Seq<char>, toks: Seq<TokenView>, i: int, first: bool)
    requires
        0 <= i < toks.len(),
    ensures
        parse_simple_spec(s, toks, i, first) matches Ok((_, j)) ==> i < j <= toks.len(),
{
}

/// Whether token `i` exists and is of the given kind.
fn is_kind(toks: &Vec<Token>, i: usize, kind: TokenKind) -> (r: bool)
    ensures
        r == (kind_at(tokens_view(toks@), i as int) == Some(kind)),
{
    i < toks.len() && toks[i].kind == kind
}

/// The index after token `i` if that is whitespace, else `i`.
fn skip_whitespace_at(toks: &Vec<Token>, i: usize) -> (j: usize)
    requires
        i <= toks.len(),
    ensures
        j == skip_whitespace(tokens_view(toks@), i as int),
        i <= j <= toks.len(),
{
    if is_kind(toks, i, TokenKind::Whitespace) {
        i + 1
    } else {
        i
    }
}

/// Where token `i` begins; the end of the text if there is no such token.
fn position_of(chars: &Vec<char>, toks: &Vec<Token>, i: usize) -> (p: usize)
    ensures
        p == position_at(chars@, tokens_view(toks@), i as int),
{
    if i < toks.len() {
        toks[i].start
    } else {
        chars.len()
    }
}

/// The attribute operator that a token stands for, if any.
fn operator_for(kind: TokenKind) -> (r: Option<AttrSelectorOperator>)
    ensures
        r == operator_of(kind),
{
    match kind {
        TokenKind::Equals => Some(AttrSelectorOperator::Equal),
        TokenKind::IncludeMatch => Some(AttrSelectorOperator::Includes),
        TokenKind::DashMatch => Some(AttrSelectorOperator::DashMatch),
        TokenKind::PrefixMatch => Some(AttrSelectorOperator::Prefix),
        TokenKind::SubstringMatch => Some(AttrSelectorOperator::Substring),
        TokenKind::SuffixMatch => Some(AttrSelectorOperator::Suffix),
        _ => None,
    }
}

/// The pseudo-class that a name token names, if any.
fn pseudo_class_for(chars: &Vec<char>, t: &Token) -> (r: Option<PseudoClass>)
    requires
        token_wf(chars@, t@),
    ensures
        r == pseudo_class_named(ident_text(chars@, t@)),
{
    let lower = lower_substring(chars, t.start, t.end);
    if str_eq(lower.as_str(), "link") {
        Some(PseudoClass::NonTS(NonTSPseudoClass::Link))
    } else if str_eq(lower.as_str(), "visited") {
        Some(PseudoClass::NonTS(NonTSPseudoClass::Visited))
    } else if str_eq(lower.as_str(), "hover") {
        Some(PseudoClass::NonTS(NonTSPseudoClass::Hover))
    } else if str_eq(lower.as_str(), "active") {
        Some(PseudoClass::NonTS(NonTSPseudoClass::Active))
    } else if str_eq(lower.as_str(), "root") {
        Some(PseudoClass::Root)
    } else if str_eq(lower.as_str(), "empty") {
        Some(PseudoClass::Empty)
    } else {
        None
    }
}

/// The case flag that a name token names, if any.
fn case_flag_for(chars: &Vec<char>, t: &Token) -> (r: Option<CaseSensitivity>)
    requires
        token_wf(chars@, t@),
    ensures
        r == case_flag_named(ident_text(chars@, t@)),
{
    let lower = lower_substring(chars, t.start, t.end);
    if str_eq(lower.as_str(), "i") {
        Some(CaseSensitivity::AsciiCaseInsensitive)
    } else if str_eq(lower.as_str(), "s") {
        Some(CaseSensitivity::CaseSensitive)
    } else {
        None
    }
}

/// The error for an attribute selector, opened at `open`, that cannot go on at
/// token `j`.
fn attribute_failure_at(toks: &Vec<Token>, j: usize, open: usize) -> (e: ParseError)
    ensures
        e == attribute_failure(tokens_view(toks@), j as int, open as int),
{
    if j >= toks.len() || toks[j].kind == TokenKind::OpenStr {
        ParseError::UnterminatedAttribute(open)
    } else {
        ParseError::UnexpectedToken(toks[j].start)
    }
}

/// Parses the attribute selector whose `[` is token `i`.
pub(crate) fn parse_attribute(chars: &Vec<char>, toks: &Vec<Token>, i: usize) -> (r: Result<
    (AttributeSelector, usize),
    ParseError,
>)
    requires
        tokens_wf(chars@, tokens_view(toks@)),
        i < toks.len(),
    ensures
        match r {
            Ok((attr, j)) => parse_attribute_spec(chars@, tokens_view(toks@), i as int) == Ok::<
                (AttributeSelectorView, int),
                ParseError,
            >((attr@, j as int)) && i < j <= toks.len(),
            Err(e) => parse_attribute_spec(chars@, tokens_view(toks@), i as int) == Err::<
                (AttributeSelectorView, int),
                ParseError,
            >(e),
        },
{
    let ghost s = chars@;
    let ghost tv = tokens_view(toks@);
    let open = toks[i].start;
    let i1 = skip_whitespace_at(toks, i + 1);
    let any_namespace = is_kind(toks, i1, TokenKind::Star) && is_kind(
        toks,
        i1 + 1,
        TokenKind::Pipe,
    );
    let no_namespace = is_kind(toks, i1, TokenKind::Pipe);
    let i2 = if any_namespace {
        i1 + 2
    } else if no_namespace {
        i1 + 1
    } else {
        i1
    };
    if !is_kind(toks, i2, TokenKind::Ident) {
        return Err(attribute_failure_at(toks, i2, open));
    }
    assert(token_wf(s, tv[i2 as int]));
    let local_name = substring(chars, toks[i2].start, toks[i2].end);
    let local_name_lower = lower_substring(chars, toks[i2].start, toks[i2].end);
    let namespace = if any_namespace {
        NamespaceConstraint::Any
    } else {
        NamespaceConstraint::Specific(String::new())
    };
    let i3 = skip_whitespace_at(toks, i2 + 1);
    if is_kind(toks, i3, TokenKind::CloseBracket) {
        let attr = AttributeSelector {
            namespace,
            local_name,
            local_name_lower,
            operation: AttrSelectorOperation::Exists,
        };
        return Ok((attr, i3 + 1));
    }
    if i3 >= toks.len() {
        return Err(attribute_failure_at(toks, i3, open));
    }
    let operator = match operator_for(toks[i3].kind) {
        Some(operator) => operator,
        None => {
            return Err(attribute_failure_at(toks, i3, open));
        },
    };
    let i4 = skip_whitespace_at(toks, i3 + 1);
    let value = if is_kind(toks, i4, TokenKind::Ident) {
        assert(token_wf(s, tv[i4 as int]));
        substring(chars, toks[i4].start, toks[i4].end)
    } else if is_kind(toks, i4, TokenKind::Str) {
        assert(token_wf(s, tv[i4 as int]));
        substring(chars, toks[i4].start + 1, toks[i4].end - 1)
    } else {
        return Err(attribute_failure_at(toks, i4, open));
    };
    let i5 = skip_whitespace_at(toks, i4 + 1);
    let flag = if is_kind(toks, i5, TokenKind::Ident) {
        assert(token_wf(s, tv[i5 as int]));
        case_flag_for(chars, &toks[i5])
    } else {
        None
    };
    let (case_sensitivity, i6) = match flag {
        Some(case_sensitivity) => (case_sensitivity, skip_whitespace_at(toks, i5 + 1)),
        None => (CaseSensitivity::CaseSensitive, i5),
    };
    if !is_kind(toks, i6, TokenKind::CloseBracket) {
        return Err(attribute_failure_at(toks, i6, open));
    }
    let attr = AttributeSelector {
        namespace,
        local_name,
        local_name_lower,
        operation: AttrSelectorOperation::WithValue { operator, case_sensitivity, value },
    };
    Ok((attr, i6 + 1))
}

/// Parses the simple selector that begins at token `i`.
pub(crate) fn parse_simple(chars: &Vec<char>, toks: &Vec<Token>, i: usize, first: bool) -> (r: Result<
    (SimpleSelector, usize),
    ParseError,
>)
    requires
        tokens_wf(chars@, tokens_view(toks@)),
        i < toks.len(),
    ensures
        match r {
            Ok((simple, j)) => parse_simple_spec(chars@, tokens_view(toks@), i as int, first)
                == Ok::<(SimpleSelectorView, int), ParseError>((simple@, j as int)) && i < j
                <= toks.len(),
            Err(e) => parse_simple_spec(chars@, tokens_view(toks@), i as int, first) == Err::<
                (SimpleSelectorView, int),
                ParseError,
            >(e),
        },
{
    let ghost s = chars@;
    let ghost tv = tokens_view(toks@);
    let t = toks[i];
    assert(token_wf(s, tv[i as int]));
    assert(tv[i as int] == t@);
    match t.kind {
        TokenKind::Ident => {
            if first {
                let name = substring(chars, t.start, t.end);
                let lower_name = lower_substring(chars, t.start, t.end);
                Ok((SimpleSelector::Type { name, lower_name }, i + 1))
            } else {
                Err(ParseError::UnexpectedToken(t.start))
            }
        },
        TokenKind::Star => {
            if first {
                Ok((SimpleSelector::Universal, i + 1))
            } else {
                Err(ParseError::UnexpectedToken(t.start))
            }
        },
        TokenKind::Hash => Ok((SimpleSelector::Id(substring(chars, t.start + 1, t.end)), i + 1)),
        TokenKind::Dot => {
            if is_kind(toks, i + 1, TokenKind::Ident) {
                let n = toks[i + 1];
                assert(token_wf(s, tv[i + 1]));
                Ok((SimpleSelector::Class(substring(chars, n.start, n.end)), i + 2))
            } else {
                Err(ParseError::UnexpectedToken(position_of(chars, toks, i + 1)))
            }
        },
        TokenKind::OpenBracket => match parse_attribute(chars, toks, i) {
            Ok((attr, j)) => Ok((SimpleSelector::Attribute(attr), j)),
            Err(e) => Err(e),
        },
        TokenKind::Colon => {
            if is_kind(toks, i + 1, TokenKind::Ident) {
                assert(token_wf(s, tv[i + 1]));
                match pseudo_class_for(chars, &toks[i + 1]) {
                    Some(pc) => Ok((SimpleSelector::PseudoClass(pc), i + 2)),
                    None => Err(ParseError::UnknownPseudoClass(t.start)),
                }
            } else {
                Err(ParseError::UnexpectedToken(position_of(chars, toks, i + 1)))
            }
        },
        _ => Err(ParseError::UnexpectedToken(t.start)),
    }
}

/// Whether a token of this kind ends the compound selector before it.
pub open spec fn ends_compound(kind: TokenKind) -> bool {
    kind is Whitespace || kind is Comma || kind is Greater || kind is Plus || kind is Tilde
}

/// Parses simple selectors from token `i` on, after those in `acc`, up to the
/// first token that ends the compound or the end of the tokens.
pub open spec fn parse_compound_rest(
    s: Seq<char>,
    toks: Seq<TokenView>,
    i: int,
    acc: Seq<SimpleSelectorView>,
) -> Result<(Seq<SimpleSelectorView>, int), ParseError>
    decreases toks.len() - i,
{
    if 0 <= i < toks.len() && !ends_compound(toks[i].kind) {
        match parse_simple_spec(s, toks, i, acc.len() == 0) {
            Ok((simple, j)) => {
                proof {
                    lemma_parse_simple_progress(s, toks, i, acc.len() == 0);
                }
                parse_compound_rest(s, toks, j, acc.push(simple))
            },
            Err(e) => Err(e),
        }
    } else {
        Ok((acc, i))
    }
}

/// Parses the compound selector that begins at token `i`; it may be empty.
pub open spec fn parse_compound_spec(s: Seq<char>, toks: Seq<TokenView>, i: int) -> Result<
    (Seq<SimpleSelectorView>, int),
    ParseError,
> {
    parse_compound_rest(s, toks, i, Seq::empty())
}

/// A compound that parses ends within the tokens, at a token that ends it or at
/// their end, and holds no more new simple selectors than it covers tokens.
pub proof fn lemma_parse_compound_progress(
    s: Seq<char>,
    toks: Seq<TokenView>,
    i: int,
    acc: Seq<SimpleSelectorView>,
)
    requires
        0 <= i <= toks.len(),
    ensures
        parse_compound_rest(s, toks, i, acc) matches Ok((c, j)) ==> {
            &&& i <= j <= toks.len()
            &&& acc.len() <= c.len() <= acc.len() + (j - i)
            &&& (c.len() > acc.len() ==> i < j)
            &&& (j < toks.len() ==> ends_compound(toks[j].kind))
        },
    decreases toks.len() - i,
{
    if i < toks.len() && !ends_compound(toks[i].kind) {
        lemma_parse_simple_progress(s, toks, i, acc.len() == 0);
        if let Ok((simple, j)) = parse_simple_spec(s, toks, i, acc.len() == 0) {
            lemma_parse_compound_progress(s, toks, j, acc.push(simple));
        }
    }
}

/// The combinator that a token stands for, if any.
pub open spec fn combinator_of(kind: TokenKind) -> Option<Combinator> {
    match kind {
        TokenKind::Greater => Some(Combinator::Child),
        TokenKind::Plus => Some(Combinator::NextSibling),
        TokenKind::Tilde => Some(Combinator::SubsequentSibling),
        _ => None,
    }
}

/// Parses what follows a compound selector that ended at token `i`: nothing, if
/// the selector ends there; or a combinator and a compound, and what follows them.
/// Each new compound goes to the front of `sel`, so that the rightmost comes first.
pub open spec fn parse_complex_rest(
    s: Seq<char>,
    toks: Seq<TokenView>,
    i: int,
    sel: ComplexSelectorView,
) -> Result<(ComplexSelectorView, int), ParseError>
    decreases toks.len() - i,
    when 0 <= i <= toks.len()
{
    let j = skip_whitespace(toks, i);
    if kind_at(toks, j) is None || kind_at(toks, j) == Some(TokenKind::Comma) {
        Ok((sel, j))
    } else {
        let explicit = combinator_of(toks[j].kind);
        let combinator = if explicit is Some {
            explicit.unwrap()
        } else {
            Combinator::Descendant
        };
        let k = if explicit is Some {
            skip_whitespace(toks, j + 1)
        } else {
            j
        };
        match parse_compound_spec(s, toks, k) {
            Err(e) => Err(e),
            Ok((c, m)) => if c.len() == 0 {
                Err(ParseError::UnexpectedToken(position_at(s, toks, k)))
            } else {
                proof {
                    lemma_parse_compound_progress(s, toks, k, Seq::empty());
                }
                parse_complex_rest(
                    s,
                    toks,
                    m,
                    ComplexSelectorView {
                        compounds: seq![c] + sel.compounds,
                        combinators: seq![combinator] + sel.combinators,
                    },
                )
            },
        }
    }
}

/// Parses the selector that begins at token `i`.
pub open spec fn parse_complex_spec(s: Seq<char>, toks: Seq<TokenView>, i: int) -> Result<
    (ComplexSelectorView, int),
    ParseError,
> {
    match parse_compound_spec(s, toks, i) {
        Err(e) => Err(e),
        Ok((c, m)) => if c.len() == 0 {
            if kind_at(toks, i) is None || kind_at(toks, i) == Some(TokenKind::Comma) {
                Err(ParseError::EmptySelector(position_at(s, toks, i)))
            } else {
                Err(ParseError::UnexpectedToken(position_at(s, toks, i)))
            }
        } else {
            parse_complex_rest(
                s,
                toks,
                m,
                ComplexSelectorView { compounds: seq![c], combinators: Seq::empty() },
            )
        },
    }
}

/// A selector that parses ends within the tokens, at a comma or at their end.
pub proof fn lemma_parse_complex_rest_progress(
    s: Seq<char>,
    toks: Seq<TokenView>,
    i: int,
    sel: ComplexSelectorView,
)
    requires
        0 <= i <= toks.len(),
    ensures
        parse_complex_rest(s, toks, i, sel) matches Ok((_, m)) ==> {
            &&& i <= m <= toks.len()
            &&& (kind_at(toks, m) is None || kind_at(toks, m) == Some(TokenKind::Comma))
        },
    decreases toks.len() - i,
{
    let j = skip_whitespace(toks, i);
    if kind_at(toks, j) is None || kind_at(toks, j) == Some(TokenKind::Comma) {
    } else {
        let explicit = combinator_of(toks[j].kind);
        let combinator = if explicit is Some {
            explicit.unwrap()
        } else {
            Combinator::Descendant
        };
        let k = if explicit is Some {
            skip_whitespace(toks, j + 1)
        } else {
            j
        };
        lemma_parse_compound_progress(s, toks, k, Seq::empty());
        if let Ok((c, m)) = parse_compound_spec(s, toks, k) {
            if c.len() > 0 {
                lemma_parse_complex_rest_progress(
                    s,
                    toks,
                    m,
                    ComplexSelectorView {
                        compounds: seq![c] + sel.compounds,
                        combinators: seq![combinator] + sel.combinators,
                    },
                );
            }
        }
    }
}

/// A selector that parses covers at least one token and ends within the tokens,
/// at a comma or at their end.
pub proof fn lemma_parse_complex_progress(s: Seq<char>, toks: Seq<TokenView>, i: int)
    requires
        0 <= i <= toks.len(),
    ensures
        parse_complex_spec(s, toks, i) matches Ok((_, m)) ==> {
            &&& i < m <= toks.len()
            &&& (kind_at(toks, m) is None || kind_at(toks, m) == Some(TokenKind::Comma))
        },
{
    lemma_parse_compound_progress(s, toks, i, Seq::empty());
    if let Ok((c, m)) = parse_compound_spec(s, toks, i) {
        if c.len() > 0 {
            lemma_parse_complex_rest_progress(
                s,
                toks,
                m,
                ComplexSelectorView { compounds: seq![c], combinators: Seq::empty() },
            );
        }
    }
}

/// Parses the selectors of a list from token `i` on, after those in `acc`.
pub open spec fn parse_list_rest(
    s: Seq<char>,
    toks: Seq<TokenView>,
    i: int,
    acc: Seq<ComplexSelectorView>,
) -> Result<Seq<ComplexSelectorView>, ParseError>
    decreases toks.len() - i,
    when 0 <= i <= toks.len()
{
    let j = skip_whitespace(toks, i);
    match parse_complex_spec(s, toks, j) {
        Err(e) => Err(e),
        Ok((sel, m)) => {
            if kind_at(toks, m) == Some(TokenKind::Comma) {
                proof {
                    lemma_parse_complex_progress(s, toks, j);
                }
                parse_list_rest(s, toks, m + 1, acc.push(sel))
            } else if kind_at(toks, m) is None {
                Ok(acc.push(sel))
            } else {
                Err(ParseError::UnexpectedToken(position_at(s, toks, m)))
            }
        },
    }
}

/// Parses a text as a list of selectors separated by commas. The whole text must
/// belong to the list. The result is the selectors in the order of the text, or the
/// first error met.
pub open spec fn parse_spec(s: Seq<char>) -> Result<Seq<ComplexSelectorView>, ParseError> {
    parse_list_rest(s, tokens_of(s), 0, Seq::empty())
}

/// No more simple selectors among the first `n` of a compound count in a column
/// than there are.
pub proof fn lemma_count_in_bound(c: Seq<SimpleSelectorView>, kind: SpecificityKind, n: int)
    requires
        0 <= n,
    ensures
        count_in(c, kind, n) <= n,
    decreases n,
{
    if n > 0 {
        lemma_count_in_bound(c, kind, n - 1);
    }
}

/// Putting a compound in front adds its count to that of the others.
pub proof fn lemma_count_prepend(
    c: Seq<SimpleSelectorView>,
    cs: Seq<Seq<SimpleSelectorView>>,
    kind: SpecificityKind,
    n: int,
)
    requires
        0 <= n <= cs.len(),
    ensures
        count(seq![c] + cs, kind, n + 1) == count_in(c, kind, c.len() as int) + count(cs, kind, n),
    decreases n,
{
    let all = seq![c] + cs;
    if n > 0 {
        lemma_count_prepend(c, cs, kind, n - 1);
        assert(all[n] == cs[n - 1]);
    } else {
        assert(all[0] == c);
        assert(count(all, kind, 0) == 0);
    }
}

/// Whether a token of this kind ends the compound selector before it.
fn ends_compound_kind(kind: TokenKind) -> (r: bool)
    ensures
        r == ends_compound(kind),
{
    match kind {
        TokenKind::Whitespace => true,
        TokenKind::Comma => true,
        TokenKind::Greater => true,
        TokenKind::Plus => true,
        TokenKind::Tilde => true,
        _ => false,
    }
}

/// The combinator that a token stands for, if any.
fn combinator_for(kind: TokenKind) -> (r: Option<Combinator>)
    ensures
        r == combinator_of(kind),
{
    match kind {
        TokenKind::Greater => Some(Combinator::Child),
        TokenKind::Plus => Some(Combinator::NextSibling),
        TokenKind::Tilde => Some(Combinator::SubsequentSibling),
        _ => None,
    }
}

/// Parses the compound selector that begins at token `i`; it may be empty.
pub(crate) fn parse_compound(chars: &Vec<char>, toks: &Vec<Token>, i: usize) -> (r: Result<
    (CompoundSelector, usize),
    ParseError,
>)
    requires
        tokens_wf(chars@, tokens_view(toks@)),
        i <= toks.len(),
    ensures
        match r {
            Ok((c, j)) => parse_compound_spec(chars@, tokens_view(toks@), i as int) == Ok::<
                (Seq<SimpleSelectorView>, int),
                ParseError,
            >((c@, j as int)) && i <= j <= toks.len() && c@.len() <= j - i,
            Err(e) => parse_compound_spec(chars@, tokens_view(toks@), i as int) == Err::<
                (Seq<SimpleSelectorView>, int),
                ParseError,
            >(e),
        },
{
    let ghost s = chars@;
    let ghost tv = tokens_view(toks@);
    let mut compound = CompoundSelector { simples: Vec::new() };
    let mut j = i;
    assert(compound@ =~= Seq::<SimpleSelectorView>::empty());
    while j < toks.len() && !ends_compound_kind(toks[j].kind)
        invariant
            s == chars@,
            tv == tokens_view(toks@),
            tokens_wf(s, tv),
            i <= j <= toks.len(),
            compound@.len() <= j - i,
            parse_compound_spec(s, tv, i as int) == parse_compound_rest(s, tv, j as int, compound@),
        decreases toks.len() - j,
    {
        let ghost before = compound@;
        match parse_simple(chars, toks, j, compound.simples.len() == 0) {
            Ok((simple, k)) => {
                compound.simples.push(simple);
                assert(compound@ =~= before.push(simple@));
                j = k;
            },
            Err(e) => {
                return Err(e);
            },
        }
    }
    Ok((compound, j))
}

/// Parses the selector that begins at token `i`.
pub(crate) fn parse_complex(chars: &Vec<char>, toks: &Vec<Token>, i: usize) -> (r: Result<
    (ComplexSelector, usize),
    ParseError,
>)
    requires
        tokens_wf(chars@, tokens_view(toks@)),
        i <= toks.len(),
    ensures
        match r {
            Ok((sel, j)) => parse_complex_spec(chars@, tokens_view(toks@), i as int) == Ok::<
                (ComplexSelectorView, int),
                ParseError,
            >((sel@, j as int)) && i < j <= toks.len() && sel@.wf(),
            Err(e) => parse_complex_spec(chars@, tokens_view(toks@), i as int) == Err::<
                (ComplexSelectorView, int),
                ParseError,
            >(e),
        },
{
    let ghost s = chars@;
    let ghost tv = tokens_view(toks@);
    let (first, m) = match parse_compound(chars, toks, i) {
        Ok(found) => found,
        Err(e) => {
            return Err(e);
        },
    };
    if first.simples.len() == 0 {
        if i >= toks.len() || toks[i].kind == TokenKind::Comma {
            return Err(ParseError::EmptySelector(position_of(chars, toks, i)));
        }
        return Err(ParseError::UnexpectedToken(position_of(chars, toks, i)));
    }
    let ghost first_view = first@;
    let mut compounds: Vec<CompoundSelector> = Vec::new();
    compounds.push(first);
    let mut combinators: Vec<Combinator> = Vec::new();
    let mut pos = m;
    proof {
        assert(compounds_view(compounds@) =~= seq![first_view]);
        assert(combinators@ =~= Seq::<Combinator>::empty());
        lemma_count_prepend(first_view, Seq::empty(), SpecificityKind::Id, 0);
        lemma_count_prepend(first_view, Seq::empty(), SpecificityKind::Class, 0);
        lemma_count_prepend(first_view, Seq::empty(), SpecificityKind::Type, 0);
        assert(seq![first_view] + Seq::<Seq<SimpleSelectorView>>::empty() =~= seq![first_view]);
        lemma_count_in_bound(first_view, SpecificityKind::Id, first_view.len() as int);
        lemma_count_in_bound(first_view, SpecificityKind::Class, first_view.len() as int);
        lemma_count_in_bound(first_view, SpecificityKind::Type, first_view.len() as int);
    }
    loop
        invariant
            s == chars@,
            tv == tokens_view(toks@),
            tokens_wf(s, tv),
            i < pos <= toks.len(),
            compounds@.len() == combinators@.len() + 1,
            forall|k: int|
                0 <= k < compounds@.len() ==> (#[trigger] compounds_view(compounds@)[k]).len() > 0,
            count(compounds_view(compounds@), SpecificityKind::Id, compounds@.len() as int) <= pos,
            count(compounds_view(compounds@), SpecificityKind::Class, compounds@.len() as int)
                <= pos,
            count(compounds_view(compounds@), SpecificityKind::Type, compounds@.len() as int)
                <= pos,
            parse_complex_spec(s, tv, i as int) == parse_complex_rest(
                s,
                tv,
                pos as int,
                ComplexSelectorView {
                    compounds: compounds_view(compounds@),
                    combinators: combinators@,
                },
            ),
        decreases toks.len() - pos,
    {
        let j = skip_whitespace_at(toks, pos);
        if j >= toks.len() || toks[j].kind == TokenKind::Comma {
            let n = toks.len();
            return match ComplexSelector::new(compounds, combinators) {
                Some(sel) => Ok((sel, j)),
                None => vstd::pervasive::unreached(),
            };
        }
        let (combinator, k) = match combinator_for(toks[j].kind) {
            Some(combinator) => (combinator, skip_whitespace_at(toks, j + 1)),
            None => (Combinator::Descendant, j),
        };
        let (compound, m) = match parse_compound(chars, toks, k) {
            Ok(found) => found,
            Err(e) => {
                return Err(e);
            },
        };
        if compound.simples.len() == 0 {
            return Err(ParseError::UnexpectedToken(position_of(chars, toks, k)));
        }
        let ghost c = compound@;
        let ghost old_compounds = compounds_view(compounds@);
        let ghost old_combinators = combinators@;
        compounds.insert(0, compound);
        combinators.insert(0, combinator);
        proof {
            lemma_parse_compound_progress(s, tv, k as int, Seq::empty());
            assert(compounds_view(compounds@) =~= seq![c] + old_compounds);
            assert(combinators@ =~= seq![combinator] + old_combinators);
            lemma_count_prepend(c, old_compounds, SpecificityKind::Id, old_compounds.len() as int);
            lemma_count_prepend(
                c,
                old_compounds,
                SpecificityKind::Class,
                old_compounds.len() as int,
            );
            lemma_count_prepend(c, old_compounds, SpecificityKind::Type, old_compounds.len() as int);
            lemma_count_in_bound(c, SpecificityKind::Id, c.len() as int);
            lemma_count_in_bound(c, SpecificityKind::Class, c.len() as int);
            lemma_count_in_bound(c, SpecificityKind::Type, c.len() as int);
        }
        pos = m;
    }
}

/// Parses a list of selectors from its characters.
pub fn parse_selector_list(chars: &Vec<char>) -> (r: Result<Vec<ComplexSelector>, ParseError>)
    ensures
        match r {
            Ok(list) => parse_spec(chars@) == Ok::<Seq<ComplexSelectorView>, ParseError>(
                selectors_view(list@),
            ) && list@.len() > 0,
            Err(e) => parse_spec(chars@) == Err::<Seq<ComplexSelectorView>, ParseError>(e),
        },
{
    let toks = tokenize(chars);
    let ghost s = chars@;
    let ghost tv = tokens_view(toks@);
    let mut list: Vec<ComplexSelector> = Vec::new();
    let mut i: usize = 0;
    assert(selectors_view(list@) =~= Seq::<ComplexSelectorView>::empty());
    loop
        invariant
            s == chars@,
            tv == tokens_view(toks@),
            tv == tokens_of(s),
            tokens_wf(s, tv),
            i <= toks.len(),
            parse_spec(s) == parse_list_rest(s, tv, i as int, selectors_view(list@)),
        decreases toks.len() - i,
    {
        let j = skip_whitespace_at(&toks, i);
        let (sel, m) = match parse_complex(chars, &toks, j) {
            Ok(found) => found,
            Err(e) => {
                return Err(e);
            },
        };
        let ghost before = selectors_view(list@);
        list.push(sel);
        assert(selectors_view(list@) =~= before.push(sel@));
        if m >= toks.len() {
            return Ok(list);
        }
        if toks[m].kind != TokenKind::Comma {
            return Err(ParseError::UnexpectedToken(position_of(chars, &toks, m)));
        }
        i = m + 1;
    }
}

} // verus!
