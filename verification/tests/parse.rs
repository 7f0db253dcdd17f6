use selector_engine::attr::{
    AttrSelectorOperation, AttrSelectorOperator, CaseSensitivity, NamespaceConstraint,
};
use selector_engine::parser::ParseError;
use selector_engine::selector::{
    AttributeSelector, Combinator, ComplexSelector, CompoundSelector, NonTSPseudoClass,
    PseudoClass, Selector, Simple, SimpleSelector, Specificity, SpecificityKind,
};
use selector_engine::text::{
    ascii_lower_char, contains_non_whitespace, is_name_char_char, is_name_start_char,
    is_whitespace_char, str_eq,
};
use selector_engine::text::chars_of;
use selector_engine::tokenizer::{tokenize, Token, TokenKind};

fn error_of(text: &str) -> ParseError {
    Selector::parse(text).unwrap_err()
}

fn type_selector(name: &str) -> SimpleSelector {
    SimpleSelector::Type { name: name.to_string(), lower_name: name.to_ascii_lowercase() }
}

fn first_simple(text: &str) -> SimpleSelector {
    let selector = Selector::parse(text).unwrap();
    selector.get(0).unwrap().compounds()[0].simples[0].clone()
}

fn weight_of(text: &str) -> u128 {
    Selector::parse(text).unwrap().get(0).unwrap().specificity().value()
}

#[test]
fn empty_text_is_an_empty_selector() {
    assert_eq!(error_of(""), ParseError::EmptySelector(0));
}

#[test]
fn whitespace_alone_is_an_empty_selector() {
    assert_eq!(error_of("   "), ParseError::EmptySelector(3));
}

#[test]
fn a_comma_needs_a_selector_on_each_side() {
    assert_eq!(error_of("a,"), ParseError::EmptySelector(2));
    assert_eq!(error_of(",a"), ParseError::EmptySelector(0));
    assert_eq!(error_of("a,,b"), ParseError::EmptySelector(2));
    assert_eq!(error_of("a , "), ParseError::EmptySelector(4));
}

#[test]
fn leading_and_trailing_combinators_fail() {
    assert_eq!(error_of("> p"), ParseError::UnexpectedToken(0));
    assert_eq!(error_of("p >"), ParseError::UnexpectedToken(3));
    assert_eq!(error_of("p > > a"), ParseError::UnexpectedToken(4));
    assert_eq!(error_of("p + , a"), ParseError::UnexpectedToken(4));
    assert_eq!(error_of("~p"), ParseError::UnexpectedToken(0));
}

#[test]
fn unknown_pseudo_classes_fail() {
    assert_eq!(error_of(":bogus"), ParseError::UnknownPseudoClass(0));
    assert_eq!(error_of("a:not(b)"), ParseError::UnknownPseudoClass(1));
    assert_eq!(error_of("a:first-child"), ParseError::UnknownPseudoClass(1));
    assert_eq!(error_of("a::before"), ParseError::UnexpectedToken(2));
    assert_eq!(error_of("a:"), ParseError::UnexpectedToken(2));
}

#[test]
fn unterminated_attributes_fail() {
    assert_eq!(error_of("[href"), ParseError::UnterminatedAttribute(0));
    assert_eq!(error_of("a[href"), ParseError::UnterminatedAttribute(1));
    assert_eq!(error_of("a[href="), ParseError::UnterminatedAttribute(1));
    assert_eq!(error_of("a[href=x"), ParseError::UnterminatedAttribute(1));
    assert_eq!(error_of("a[href='x]"), ParseError::UnterminatedAttribute(1));
    assert_eq!(error_of("a["), ParseError::UnterminatedAttribute(1));
}

#[test]
fn malformed_attributes_fail() {
    assert_eq!(error_of("[a=]"), ParseError::UnexpectedToken(3));
    assert_eq!(error_of("[a=b c]"), ParseError::UnexpectedToken(5));
    assert_eq!(error_of("[=b]"), ParseError::UnexpectedToken(1));
    assert_eq!(error_of("[]"), ParseError::UnexpectedToken(1));
    assert_eq!(error_of("[a b]"), ParseError::UnexpectedToken(3));
    assert_eq!(error_of("[ns|a]"), ParseError::UnexpectedToken(3));
}

#[test]
fn trailing_garbage_fails() {
    assert_eq!(error_of("a b$"), ParseError::UnexpectedToken(3));
    assert_eq!(error_of("p.1"), ParseError::UnexpectedToken(2));
    assert_eq!(error_of("p#"), ParseError::UnexpectedToken(1));
    assert_eq!(error_of("p\\q"), ParseError::UnexpectedToken(1));
    assert_eq!(error_of("a]"), ParseError::UnexpectedToken(1));
    assert_eq!(error_of("a*"), ParseError::UnexpectedToken(1));
    assert_eq!(error_of(".a b c d)"), ParseError::UnexpectedToken(8));
    assert_eq!(error_of("[a]b"), ParseError::UnexpectedToken(3));
}

#[test]
fn the_error_names_its_position() {
    assert_eq!(ParseError::UnexpectedToken(4).position(), 4);
    assert_eq!(ParseError::EmptySelector(0).position(), 0);
    assert_eq!(ParseError::UnknownPseudoClass(7).position(), 7);
    assert_eq!(ParseError::UnterminatedAttribute(2).position(), 2);
}

#[test]
fn positions_count_characters() {
    assert_eq!(error_of("é >"), ParseError::UnexpectedToken(3));
}

#[test]
fn parses_a_type_selector() {
    assert_eq!(first_simple("p"), type_selector("p"));
    assert_eq!(
        first_simple("DIV"),
        SimpleSelector::Type { name: "DIV".to_string(), lower_name: "div".to_string() }
    );
    assert_eq!(first_simple("-x-y_1"), type_selector("-x-y_1"));
    assert_eq!(first_simple("--v"), type_selector("--v"));
}

#[test]
fn parses_universal_id_and_class() {
    assert_eq!(first_simple("*"), SimpleSelector::Universal);
    assert_eq!(first_simple("#link_id_456"), SimpleSelector::Id("link_id_456".to_string()));
    assert_eq!(first_simple(".my_class"), SimpleSelector::Class("my_class".to_string()));
    assert_eq!(first_simple("#é"), SimpleSelector::Id("é".to_string()));
}

#[test]
fn parses_pseudo_classes_without_regard_to_case() {
    assert_eq!(
        first_simple(":hover"),
        SimpleSelector::PseudoClass(PseudoClass::NonTS(NonTSPseudoClass::Hover))
    );
    assert_eq!(
        first_simple(":ACTIVE"),
        SimpleSelector::PseudoClass(PseudoClass::NonTS(NonTSPseudoClass::Active))
    );
    assert_eq!(
        first_simple(":link"),
        SimpleSelector::PseudoClass(PseudoClass::NonTS(NonTSPseudoClass::Link))
    );
    assert_eq!(
        first_simple(":visited"),
        SimpleSelector::PseudoClass(PseudoClass::NonTS(NonTSPseudoClass::Visited))
    );
    assert_eq!(first_simple(":root"), SimpleSelector::PseudoClass(PseudoClass::Root));
    assert_eq!(first_simple(":Empty"), SimpleSelector::PseudoClass(PseudoClass::Empty));
}

fn attribute(namespace: NamespaceConstraint, name: &str, operation: AttrSelectorOperation) -> SimpleSelector {
    SimpleSelector::Attribute(AttributeSelector {
        namespace,
        local_name: name.to_string(),
        local_name_lower: name.to_ascii_lowercase(),
        operation,
    })
}

fn no_namespace() -> NamespaceConstraint {
    NamespaceConstraint::Specific(String::new())
}

fn with_value(operator: AttrSelectorOperator, case_sensitivity: CaseSensitivity, value: &str) -> AttrSelectorOperation {
    AttrSelectorOperation::WithValue { operator, case_sensitivity, value: value.to_string() }
}

#[test]
fn parses_attribute_presence() {
    assert_eq!(
        first_simple("[href]"),
        attribute(no_namespace(), "href", AttrSelectorOperation::Exists)
    );
    assert_eq!(
        first_simple("[ HREF ]"),
        attribute(no_namespace(), "HREF", AttrSelectorOperation::Exists)
    );
    assert_eq!(
        first_simple("[*|href]"),
        attribute(NamespaceConstraint::Any, "href", AttrSelectorOperation::Exists)
    );
    assert_eq!(
        first_simple("[|href]"),
        attribute(no_namespace(), "href", AttrSelectorOperation::Exists)
    );
}

#[test]
fn parses_every_attribute_operator() {
    let cases = [
        ("[a=b]", AttrSelectorOperator::Equal),
        ("[a~=b]", AttrSelectorOperator::Includes),
        ("[a|=b]", AttrSelectorOperator::DashMatch),
        ("[a^=b]", AttrSelectorOperator::Prefix),
        ("[a*=b]", AttrSelectorOperator::Substring),
        ("[a$=b]", AttrSelectorOperator::Suffix),
    ];
    for (text, operator) in cases {
        assert_eq!(
            first_simple(text),
            attribute(no_namespace(), "a", with_value(operator, CaseSensitivity::CaseSensitive, "b"))
        );
    }
}

#[test]
fn parses_attribute_values_and_flags() {
    assert_eq!(
        first_simple("[a = \"b c\" ]"),
        attribute(
            no_namespace(),
            "a",
            with_value(AttrSelectorOperator::Equal, CaseSensitivity::CaseSensitive, "b c")
        )
    );
    assert_eq!(
        first_simple("[a='x]y' i]"),
        attribute(
            no_namespace(),
            "a",
            with_value(AttrSelectorOperator::Equal, CaseSensitivity::AsciiCaseInsensitive, "x]y")
        )
    );
    assert_eq!(
        first_simple("[a=b I]"),
        attribute(
            no_namespace(),
            "a",
            with_value(AttrSelectorOperator::Equal, CaseSensitivity::AsciiCaseInsensitive, "b")
        )
    );
    assert_eq!(
        first_simple("[a=b s]"),
        attribute(
            no_namespace(),
            "a",
            with_value(AttrSelectorOperator::Equal, CaseSensitivity::CaseSensitive, "b")
        )
    );
    assert_eq!(
        first_simple("[a='']"),
        attribute(
            no_namespace(),
            "a",
            with_value(AttrSelectorOperator::Equal, CaseSensitivity::CaseSensitive, "")
        )
    );
}

#[test]
fn a_compound_keeps_its_simple_selectors_in_order() {
    let selector = Selector::parse("p.my_class#x[y]:root").unwrap();
    let complex = selector.get(0).unwrap();
    assert_eq!(complex.compounds().len(), 1);
    assert_eq!(
        complex.compounds()[0].simples,
        vec![
            type_selector("p"),
            SimpleSelector::Class("my_class".to_string()),
            SimpleSelector::Id("x".to_string()),
            attribute(no_namespace(), "y", AttrSelectorOperation::Exists),
            SimpleSelector::PseudoClass(PseudoClass::Root),
        ]
    );
    assert!(complex.combinators().is_empty());
}

#[test]
fn compounds_come_rightmost_first() {
    let selector = Selector::parse("div > p span+a ~ b").unwrap();
    let complex = selector.get(0).unwrap();
    let names: Vec<SimpleSelector> =
        complex.compounds().iter().map(|c| c.simples[0].clone()).collect();
    assert_eq!(
        names,
        vec![
            type_selector("b"),
            type_selector("a"),
            type_selector("span"),
            type_selector("p"),
            type_selector("div"),
        ]
    );
    assert_eq!(
        complex.combinators(),
        &vec![
            Combinator::SubsequentSibling,
            Combinator::NextSibling,
            Combinator::Descendant,
            Combinator::Child,
        ]
    );
}

#[test]
fn a_list_keeps_the_order_of_the_text() {
    let selector = Selector::parse(" a , b,c ").unwrap();
    assert_eq!(selector.len(), 3);
    assert_eq!(selector.get(0).unwrap().compounds()[0].simples[0], type_selector("a"));
    assert_eq!(selector.get(1).unwrap().compounds()[0].simples[0], type_selector("b"));
    assert_eq!(selector.get(2).unwrap().compounds()[0].simples[0], type_selector("c"));
    assert!(selector.get(3).is_none());
}

#[test]
fn a_parsed_list_is_never_empty() {
    for text in ["a", "a,b", "*", "#x > .y"] {
        assert!(Selector::parse(text).unwrap().len() > 0);
    }
}

#[test]
fn parsing_twice_gives_the_same_selector() {
    for text in ["div > p.x[y~='z' i], #a:hover ~ b", "p", " a  b "] {
        let first = Selector::parse(text).unwrap();
        let second = Selector::parse(text).unwrap();
        assert_eq!(first, second);
        for i in 0..first.len() {
            assert_eq!(
                first.get(i).unwrap().specificity(),
                second.get(i).unwrap().specificity()
            );
        }
    }
    assert_eq!(Selector::parse("a >"), Selector::parse("a >"));
}

#[test]
fn a_clone_equals_what_it_was_made_from() {
    let selector = Selector::parse("div > p.x[y~='z' i], #a:hover ~ b").unwrap();
    let copy = selector.clone();
    assert_eq!(selector, copy);
    assert_eq!(copy.len(), 2);
}

#[test]
fn specificity_counts_ids_classes_and_types() {
    let selector = Selector::parse("div#x.y[z]:root > p.a").unwrap();
    let specificity = selector.get(0).unwrap().specificity();
    assert_eq!(specificity, Specificity { ids: 1, classes: 4, types: 2 });
    assert_eq!(specificity.value(), 1042);
}

#[test]
fn specificity_weights() {
    assert_eq!(weight_of("#id"), 1000);
    assert_eq!(weight_of(".class"), 10);
    assert_eq!(weight_of("[attr]"), 10);
    assert_eq!(weight_of(":hover"), 10);
    assert_eq!(weight_of("tag"), 1);
    assert_eq!(weight_of("*"), 0);
    assert_eq!(weight_of("* > * + *"), 0);
}

#[test]
fn an_id_outweighs_a_class_and_a_class_a_type() {
    for name in ["a", "link_id_456", "my_class", "-x", "é"] {
        let id = weight_of(&format!("#{}", name));
        let class = weight_of(&format!(".{}", name));
        let tag = weight_of(name);
        assert!(id > class);
        assert!(class > tag);
    }
}

#[test]
fn active_and_hover_are_told_apart() {
    assert!(Simple::is_active_or_hover(&NonTSPseudoClass::Active));
    assert!(Simple::is_active_or_hover(&NonTSPseudoClass::Hover));
    assert!(!Simple::is_active_or_hover(&NonTSPseudoClass::Link));
    assert!(!Simple::is_active_or_hover(&NonTSPseudoClass::Visited));
}

#[test]
fn pseudo_classes_visit_and_print() {
    assert!(NonTSPseudoClass::Link.visit());
    assert_eq!(NonTSPseudoClass::Hover.to_css(), "");
}

#[test]
fn tokens_cover_the_text() {
    let chars = chars_of("a >b[c~='d e']");
    let tokens = tokenize(&chars);
    let expected = vec![
        Token { kind: TokenKind::Ident, start: 0, end: 1 },
        Token { kind: TokenKind::Whitespace, start: 1, end: 2 },
        Token { kind: TokenKind::Greater, start: 2, end: 3 },
        Token { kind: TokenKind::Ident, start: 3, end: 4 },
        Token { kind: TokenKind::OpenBracket, start: 4, end: 5 },
        Token { kind: TokenKind::Ident, start: 5, end: 6 },
        Token { kind: TokenKind::IncludeMatch, start: 6, end: 8 },
        Token { kind: TokenKind::Str, start: 8, end: 13 },
        Token { kind: TokenKind::CloseBracket, start: 13, end: 14 },
    ];
    assert_eq!(tokens, expected);
}

#[test]
fn tokens_of_every_kind() {
    let chars = chars_of("#a . * + ~ , : = | |= ^= $= *= ] \"x");
    let kinds: Vec<TokenKind> = tokenize(&chars)
        .iter()
        .map(|t| t.kind)
        .filter(|k| *k != TokenKind::Whitespace)
        .collect();
    assert_eq!(
        kinds,
        vec![
            TokenKind::Hash,
            TokenKind::Dot,
            TokenKind::Star,
            TokenKind::Plus,
            TokenKind::Tilde,
            TokenKind::Comma,
            TokenKind::Colon,
            TokenKind::Equals,
            TokenKind::Pipe,
            TokenKind::DashMatch,
            TokenKind::PrefixMatch,
            TokenKind::SuffixMatch,
            TokenKind::SubstringMatch,
            TokenKind::CloseBracket,
            TokenKind::OpenStr,
        ]
    );
    let odd = tokenize(&chars_of("#1 - ^ $ ("));
    assert!(odd.iter().all(|t| t.kind == TokenKind::Other || t.kind == TokenKind::Whitespace));
}

#[test]
fn a_selector_is_made_of_compounds_and_the_combinators_between_them() {
    let compound = |name: &str| CompoundSelector { simples: vec![type_selector(name)] };
    let made = ComplexSelector::new(
        vec![compound("p"), compound("div")],
        vec![Combinator::Child],
    )
    .unwrap();
    let parsed = Selector::parse("div > p").unwrap();
    assert_eq!(&made, parsed.get(0).unwrap());
    assert_eq!(made.specificity(), Specificity { ids: 0, classes: 0, types: 2 });
    assert!(ComplexSelector::new(vec![], vec![]).is_none());
    assert!(ComplexSelector::new(vec![compound("p")], vec![Combinator::Child]).is_none());
    assert!(ComplexSelector::new(vec![compound("p"), compound("a")], vec![]).is_none());
    assert!(ComplexSelector::new(vec![CompoundSelector { simples: vec![] }], vec![]).is_none());
    assert!(ComplexSelector::new(vec![compound("p")], vec![]).is_some());
}

#[test]
fn each_simple_selector_counts_in_one_column_at_most() {
    assert_eq!(first_simple("#a").kind(), Some(SpecificityKind::Id));
    assert_eq!(first_simple(".a").kind(), Some(SpecificityKind::Class));
    assert_eq!(first_simple("[a]").kind(), Some(SpecificityKind::Class));
    assert_eq!(first_simple(":root").kind(), Some(SpecificityKind::Class));
    assert_eq!(first_simple("a").kind(), Some(SpecificityKind::Type));
    assert_eq!(first_simple("*").kind(), None);
}

#[test]
fn namespace_constraints_admit_namespaces() {
    assert!(NamespaceConstraint::Any.admits(&"x".to_string()));
    assert!(NamespaceConstraint::Any.admits(&String::new()));
    assert!(no_namespace().admits(&String::new()));
    assert!(!no_namespace().admits(&"x".to_string()));
    assert!(NamespaceConstraint::Specific("x".to_string()).admits(&"x".to_string()));
    assert!(!NamespaceConstraint::Specific("x".to_string()).admits(&"X".to_string()));
}

#[test]
fn character_classes() {
    for c in [' ', '\t', '\n', '\r', '\x0c'] {
        assert!(is_whitespace_char(c));
    }
    for c in ['a', '\x0b', '\u{a0}', '\u{2003}'] {
        assert!(!is_whitespace_char(c));
    }
    for c in ['a', 'z', 'A', 'Z', '_', 'é', '\u{80}'] {
        assert!(is_name_start_char(c));
        assert!(is_name_char_char(c));
    }
    for c in ['0', '9', '-'] {
        assert!(!is_name_start_char(c));
        assert!(is_name_char_char(c));
    }
    for c in [' ', '.', '#', '[', '\\', '\x7f', '@', '`', '{'] {
        assert!(!is_name_start_char(c));
        assert!(!is_name_char_char(c));
    }
    assert_eq!(ascii_lower_char('A'), 'a');
    assert_eq!(ascii_lower_char('Z'), 'z');
    assert_eq!(ascii_lower_char('a'), 'a');
    assert_eq!(ascii_lower_char('É'), 'É');
    assert_eq!(ascii_lower_char('['), '[');
    assert_eq!(ascii_lower_char('@'), '@');
}

#[test]
fn strings_are_compared_and_searched() {
    assert!(str_eq("", ""));
    assert!(str_eq("héllo", "héllo"));
    assert!(!str_eq("hello", "hellO"));
    assert!(!str_eq("hello", "hell"));
    assert!(!str_eq("é", "e"));
    assert!(!contains_non_whitespace(""));
    assert!(!contains_non_whitespace(" \t\r\n\x0c"));
    assert!(contains_non_whitespace("  x "));
    assert!(contains_non_whitespace("\u{a0}"));
    assert_eq!(chars_of("añb"), vec!['a', 'ñ', 'b']);
}
