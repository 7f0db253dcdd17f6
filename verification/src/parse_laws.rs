//! What parsing guarantees: one result for one text, and the selectors and
//! specificities of the simplest texts.

use crate::element_ref::ElementRefView;
use crate::parser::{
    ends_compound, hash_text, ident_text, kind_at, parse_complex_rest, parse_complex_spec,
    parse_compound_rest, parse_compound_spec, parse_list_rest, parse_simple_spec, parse_spec,
    skip_whitespace, ParseError,
};
use crate::selector::{
    count, count_in, list_matches, ComplexSelectorView, NonTSPseudoClass, SimpleSelectorView,
    SpecificityKind,
};
use crate::text::{ascii_lower, is_name_char};
use crate::tokenizer::{
    name_len, starts_ident, token_at, token_extra, token_kind, tokens_from, tokens_of, TokenKind,
    TokenView,
};
use vstd::prelude::*;

verus! {

/// Parsing is a function of the text: two results for the same text are the same,
/// and so are what the parsed selectors match and their specificities.
pub proof fn lemma_parse_is_deterministic(
    text: Seq<char>,
    first: Result<Seq<ComplexSelectorView>, ParseError>,
    second: Result<Seq<ComplexSelectorView>, ParseError>,
)
    requires
        first == parse_spec(text),
        second == parse_spec(text),
    ensures
        first == second,
        first matches Ok(a) ==> second matches Ok(b) && a.len() == b.len() && forall|i: int|
            0 <= i < a.len() ==> (#[trigger] a[i]).specificity() == b[i].specificity(),
        first matches Ok(a) ==> second matches Ok(b) && forall|
            e: ElementRefView,
            state: Set<(usize, NonTSPseudoClass)>,
        | list_matches(a, e, state) == list_matches(b, e, state),
{
}

/// A name: it begins as a name does, and holds name characters only.
pub open spec fn is_identifier(name: Seq<char>) -> bool {
    &&& starts_ident(name, 0)
    &&& forall|k: int| 0 <= k < name.len() ==> is_name_char(#[trigger] name[k])
}

/// The selector list that holds one selector made of one simple selector.
pub open spec fn single(simple: SimpleSelectorView) -> Seq<ComplexSelectorView> {
    seq![ComplexSelectorView { compounds: seq![seq![simple]], combinators: Seq::empty() }]
}

/// A run of name characters that reaches the end of the text has the length of
/// what is left of the text.
proof fn lemma_name_len_to_end(s: Seq<char>, p: int)
    requires
        0 <= p <= s.len(),
        forall|k: int| p <= k < s.len() ==> is_name_char(#[trigger] s[k]),
    ensures
        name_len(s, p) == s.len() - p,
    decreases s.len() - p,
{
    if p < s.len() {
        lemma_name_len_to_end(s, p + 1);
    }
}

/// A text whose tokens are those of one simple selector parses as that selector.
proof fn lemma_parse_single(s: Seq<char>, toks: Seq<TokenView>, simple: SimpleSelectorView)
    requires
        toks.len() > 0,
        !ends_compound(toks[0].kind),
        parse_simple_spec(s, toks, 0, true) == Ok::<(SimpleSelectorView, int), ParseError>(
            (simple, toks.len() as int),
        ),
    ensures
        parse_list_rest(s, toks, 0, Seq::empty()) == Ok::<Seq<ComplexSelectorView>, ParseError>(
            single(simple),
        ),
{
    let n = toks.len() as int;
    let c = seq![simple];
    assert(Seq::<SimpleSelectorView>::empty().push(simple) =~= c);
    assert(parse_compound_rest(s, toks, n, c) == Ok::<(Seq<SimpleSelectorView>, int), ParseError>(
        (c, n),
    ));
    assert(parse_compound_spec(s, toks, 0) == Ok::<(Seq<SimpleSelectorView>, int), ParseError>(
        (c, n),
    ));
    let sel = ComplexSelectorView { compounds: seq![c], combinators: Seq::empty() };
    assert(skip_whitespace(toks, n) == n);
    assert(parse_complex_rest(s, toks, n, sel) == Ok::<(ComplexSelectorView, int), ParseError>(
        (sel, n),
    ));
    assert(parse_complex_spec(s, toks, 0) == Ok::<(ComplexSelectorView, int), ParseError>(
        (sel, n),
    ));
    assert(skip_whitespace(toks, 0) == 0);
    assert(Seq::<ComplexSelectorView>::empty().push(sel) =~= single(simple));
}

/// `#` and a name parse as the id selector of that name.
pub proof fn lemma_parse_id(id: Seq<char>)
    requires
        is_identifier(id),
    ensures
        parse_spec(seq!['#'] + id) == Ok::<Seq<ComplexSelectorView>, ParseError>(
            single(SimpleSelectorView::Id(id)),
        ),
{
    let s = seq!['#'] + id;
    assert(forall|k: int| 0 <= k < id.len() ==> s[k + 1] == id[k]);
    assert(starts_ident(s, 1)) by {
        assert(s[1] == id[0]);
        if id.len() > 1 {
            assert(s[2] == id[1]);
        }
    }
    assert(!starts_ident(s, 0));
    assert forall|k: int| 2 <= k < s.len() implies is_name_char(#[trigger] s[k]) by {
        assert(s[k] == id[k - 1]);
    }
    lemma_name_len_to_end(s, 2);
    let t = TokenView { kind: TokenKind::Hash, start: 0, end: s.len() as int };
    assert(token_at(s, 0) == t);
    assert(tokens_from(s, s.len() as int) =~= Seq::<TokenView>::empty());
    assert(tokens_of(s) =~= seq![t]);
    assert(hash_text(s, t) =~= id);
    lemma_parse_single(s, seq![t], SimpleSelectorView::Id(id));
}

/// `.` and a name parse as the class selector of that name.
pub proof fn lemma_parse_class(class: Seq<char>)
    requires
        is_identifier(class),
    ensures
        parse_spec(seq!['.'] + class) == Ok::<Seq<ComplexSelectorView>, ParseError>(
            single(SimpleSelectorView::Class(class)),
        ),
{
    let s = seq!['.'] + class;
    assert(forall|k: int| 0 <= k < class.len() ==> s[k + 1] == class[k]);
    assert(starts_ident(s, 1)) by {
        assert(s[1] == class[0]);
        if class.len() > 1 {
            assert(s[2] == class[1]);
        }
    }
    assert(!starts_ident(s, 0));
    assert forall|k: int| 2 <= k < s.len() implies is_name_char(#[trigger] s[k]) by {
        assert(s[k] == class[k - 1]);
    }
    lemma_name_len_to_end(s, 2);
    let dot = TokenView { kind: TokenKind::Dot, start: 0, end: 1 };
    let name = TokenView { kind: TokenKind::Ident, start: 1, end: s.len() as int };
    assert(token_at(s, 0) == dot);
    assert(token_at(s, 1) == name);
    assert(tokens_from(s, s.len() as int) =~= Seq::<TokenView>::empty());
    assert(tokens_from(s, 1) =~= seq![name]);
    assert(tokens_of(s) =~= seq![dot, name]);
    assert(ident_text(s, name) =~= class);
    let toks = seq![dot, name];
    assert(kind_at(toks, 1) == Some(TokenKind::Ident));
    lemma_parse_single(s, toks, SimpleSelectorView::Class(class));
}

/// A name parses as the type selector of that name.
pub proof fn lemma_parse_type(name: Seq<char>)
    requires
        is_identifier(name),
    ensures
        parse_spec(name) == Ok::<Seq<ComplexSelectorView>, ParseError>(
            single(SimpleSelectorView::Type { name, lower_name: ascii_lower(name) }),
        ),
{
    let s = name;
    assert forall|k: int| 1 <= k < s.len() implies is_name_char(#[trigger] s[k]) by {}
    lemma_name_len_to_end(s, 1);
    let t = TokenView { kind: TokenKind::Ident, start: 0, end: s.len() as int };
    assert(token_at(s, 0) == t);
    assert(tokens_from(s, s.len() as int) =~= Seq::<TokenView>::empty());
    assert(tokens_of(s) =~= seq![t]);
    assert(ident_text(s, t) =~= name);
    lemma_parse_single(
        s,
        seq![t],
        SimpleSelectorView::Type { name, lower_name: ascii_lower(name) },
    );
}

/// The selector made of one simple selector counts one in the column of that
/// simple selector, and nothing in the others.
pub proof fn lemma_single_count(simple: SimpleSelectorView, kind: SpecificityKind)
    ensures
        single(simple)[0].count(kind) == if simple.kind() == Some(kind) {
            1nat
        } else {
            0nat
        },
        single(simple)[0].wf(),
{
    let sel = single(simple)[0];
    let c = seq![simple];
    assert(sel.compounds[0] == c);
    assert(count_in(c, kind, 0) == 0);
    assert(count_in(c, kind, 1) == count_in(c, kind, 0) + if c[0].kind() == Some(kind) {
        1nat
    } else {
        0nat
    });
    assert(count(sel.compounds, kind, 0) == 0);
    assert(count(sel.compounds, kind, 1) == count(sel.compounds, kind, 0) + count_in(c, kind, 1));
    lemma_single_count_others(simple);
}

/// The selector made of one simple selector counts at most one in each column.
proof fn lemma_single_count_others(simple: SimpleSelectorView)
    ensures
        single(simple)[0].count(SpecificityKind::Id) <= 1,
        single(simple)[0].count(SpecificityKind::Class) <= 1,
        single(simple)[0].count(SpecificityKind::Type) <= 1,
{
    let sel = single(simple)[0];
    let c = seq![simple];
    assert(sel.compounds[0] == c);
    assert(count(sel.compounds, SpecificityKind::Id, 0) == 0);
    assert(count(sel.compounds, SpecificityKind::Class, 0) == 0);
    assert(count(sel.compounds, SpecificityKind::Type, 0) == 0);
    assert(count_in(c, SpecificityKind::Id, 0) == 0);
    assert(count_in(c, SpecificityKind::Class, 0) == 0);
    assert(count_in(c, SpecificityKind::Type, 0) == 0);
    assert(count_in(c, SpecificityKind::Id, 1) <= 1);
    assert(count_in(c, SpecificityKind::Class, 1) <= 1);
    assert(count_in(c, SpecificityKind::Type, 1) <= 1);
    assert(count(sel.compounds, SpecificityKind::Id, 1) == count(
        sel.compounds,
        SpecificityKind::Id,
        0,
    ) + count_in(c, SpecificityKind::Id, 1));
    assert(count(sel.compounds, SpecificityKind::Class, 1) == count(
        sel.compounds,
        SpecificityKind::Class,
        0,
    ) + count_in(c, SpecificityKind::Class, 1));
    assert(count(sel.compounds, SpecificityKind::Type, 1) == count(
        sel.compounds,
        SpecificityKind::Type,
        0,
    ) + count_in(c, SpecificityKind::Type, 1));
}

/// For any three names, the id selector `#id` is more specific than the class
/// selector `.class`, which is more specific than the type selector `tag`: their
/// weights are 1000, 10 and 1.
pub proof fn lemma_specificity_order(id: Seq<char>, class: Seq<char>, tag: Seq<char>)
    requires
        is_identifier(id),
        is_identifier(class),
        is_identifier(tag),
    ensures
        parse_spec(seq!['#'] + id) is Ok,
        parse_spec(seq!['.'] + class) is Ok,
        parse_spec(tag) is Ok,
        parse_spec(seq!['#'] + id).unwrap()[0].specificity().value_spec() == 1000,
        parse_spec(seq!['.'] + class).unwrap()[0].specificity().value_spec() == 10,
        parse_spec(tag).unwrap()[0].specificity().value_spec() == 1,
        parse_spec(seq!['#'] + id).unwrap()[0].specificity().value_spec() > parse_spec(
            seq!['.'] + class,
        ).unwrap()[0].specificity().value_spec(),
        parse_spec(seq!['.'] + class).unwrap()[0].specificity().value_spec() > parse_spec(
            tag,
        ).unwrap()[0].specificity().value_spec(),
{
    lemma_parse_id(id);
    lemma_parse_class(class);
    lemma_parse_type(tag);
    let a = SimpleSelectorView::Id(id);
    let b = SimpleSelectorView::Class(class);
    let c = SimpleSelectorView::Type { name: tag, lower_name: ascii_lower(tag) };
    lemma_single_count(a, SpecificityKind::Id);
    lemma_single_count(a, SpecificityKind::Class);
    lemma_single_count(a, SpecificityKind::Type);
    lemma_single_count(b, SpecificityKind::Id);
    lemma_single_count(b, SpecificityKind::Class);
    lemma_single_count(b, SpecificityKind::Type);
    lemma_single_count(c, SpecificityKind::Id);
    lemma_single_count(c, SpecificityKind::Class);
    lemma_single_count(c, SpecificityKind::Type);
}

} // verus!
