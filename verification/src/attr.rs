//! Attribute-selector operators, case-sensitivity modes and namespace constraints.
//!
//! Comparisons are made on the UTF-8 bytes of the strings involved: either byte
//! for byte, or with ASCII letters folded to one case.

use crate::text::lemma_utf8_injective;
use selectors::attr as outside;
use vstd::prelude::*;
use vstd::utf8::encode_utf8;

verus! {

/// How two strings are compared: byte for byte, or with ASCII letters folded.
#[derive(Clone, Copy, Debug, PartialEq, Eq, Structural)]
pub enum CaseSensitivity {
    CaseSensitive,
    AsciiCaseInsensitive,
}

/// The operator of an attribute selector with a value.
#[derive(Clone, Copy, Debug, PartialEq, Eq, Structural)]
pub enum AttrSelectorOperator {
    /// `=`
    Equal,
    /// `~=`
    Includes,
    /// `|=`
    DashMatch,
    /// `^=`
    Prefix,
    /// `*=`
    Substring,
    /// `$=`
    Suffix,
}

/// The ASCII lower-case form of a byte: `A`..`Z` move to `a`..`z`, every other byte stays.
pub open spec fn byte_lower(b: u8) -> u8 {
    if 0x41 <= b && b <= 0x5a {
        (b + 0x20) as u8
    } else {
        b
    }
}

/// Two byte strings are equal once ASCII letters are folded to lower case.
pub open spec fn eq_ignore_ascii_case(a: Seq<u8>, b: Seq<u8>) -> bool {
    &&& a.len() == b.len()
    &&& forall|i: int| 0 <= i < a.len() ==> byte_lower(#[trigger] a[i]) == byte_lower(b[i])
}

/// A whitespace byte of selector syntax.
pub open spec fn is_whitespace_byte(b: u8) -> bool {
    b == 0x20 || b == 0x09 || b == 0x0a || b == 0x0d || b == 0x0c
}

/// `e[i..j]` is one of the pieces that splitting `e` at every whitespace byte gives:
/// it holds no whitespace and is bounded on each side by whitespace or by an end of `e`.
pub open spec fn is_split_piece(e: Seq<u8>, i: int, j: int) -> bool {
    &&& 0 <= i <= j <= e.len()
    &&& (i == 0 || is_whitespace_byte(e[i - 1]))
    &&& (j == e.len() || is_whitespace_byte(e[j]))
    &&& forall|k: int| i <= k < j ==> !is_whitespace_byte(#[trigger] e[k])
}

impl CaseSensitivity {
    /// Equality of two byte strings under this mode.
    pub open spec fn eq_spec(self, a: Seq<u8>, b: Seq<u8>) -> bool {
        match self {
            CaseSensitivity::CaseSensitive => a == b,
            CaseSensitivity::AsciiCaseInsensitive => eq_ignore_ascii_case(a, b),
        }
    }

    /// Equality of two strings under this mode, taken on their UTF-8 bytes.
    pub open spec fn eq_str_spec(self, a: Seq<char>, b: Seq<char>) -> bool {
        self.eq_spec(encode_utf8(a), encode_utf8(b))
    }

    /// Compares two byte strings under this mode.
    ///
    /// Calls `selectors::attr::CaseSensitivity::eq`. Its source compares the two slices
    /// with `==` in the case-sensitive mode and with `eq_ignore_ascii_case` in the other;
    /// the contract states exactly that and is not proved here.
    #[verifier::external_body]
    pub(crate) fn eq_bytes(self, a: &[u8], b: &[u8]) -> (r: bool)
        ensures
            r == self.eq_spec(a@, b@),
    {
        let mode = match self {
            CaseSensitivity::CaseSensitive => outside::CaseSensitivity::CaseSensitive,
            CaseSensitivity::AsciiCaseInsensitive => outside::CaseSensitivity::AsciiCaseInsensitive,
        };
        mode.eq(a, b)
    }

    /// Compares two strings under this mode.
    pub fn eq_str(self, a: &str, b: &str) -> (r: bool)
        ensures
            r == self.eq_str_spec(a@, b@),
    {
        self.eq_bytes(a.as_bytes(), b.as_bytes())
    }
}

/// Under case-sensitive comparison two strings are equal exactly when they are
/// the same string, character for character.
pub proof fn lemma_case_sensitive_eq(a: Seq<char>, b: Seq<char>)
    ensures
        CaseSensitivity::CaseSensitive.eq_str_spec(a, b) <==> a == b,
{
    if encode_utf8(a) == encode_utf8(b) {
        lemma_utf8_injective(a, b);
    }
}

impl AttrSelectorOperator {
    /// Whether an attribute whose value has the bytes `e` satisfies this operator
    /// against the selector's value with the bytes `s`.
    pub open spec fn eval_spec(self, e: Seq<u8>, s: Seq<u8>, case: CaseSensitivity) -> bool {
        match self {
            AttrSelectorOperator::Equal => case.eq_spec(e, s),
            AttrSelectorOperator::Prefix => {
                &&& s.len() > 0
                &&& e.len() >= s.len()
                &&& case.eq_spec(e.subrange(0, s.len() as int), s)
            },
            AttrSelectorOperator::Suffix => {
                &&& s.len() > 0
                &&& e.len() >= s.len()
                &&& case.eq_spec(e.subrange(e.len() - s.len(), e.len() as int), s)
            },
            AttrSelectorOperator::Substring => {
                &&& s.len() > 0
                &&& exists|i: int|
                    0 <= i && i + s.len() <= e.len() && case.eq_spec(
                        #[trigger] e.subrange(i, i + s.len()),
                        s,
                    )
            },
            AttrSelectorOperator::Includes => {
                &&& s.len() > 0
                &&& exists|i: int, j: int|
                    is_split_piece(e, i, j) && case.eq_spec(#[trigger] e.subrange(i, j), s)
            },
            AttrSelectorOperator::DashMatch => {
                ||| case.eq_spec(e, s)
                ||| {
                    &&& e.len() > s.len()
                    &&& e[s.len() as int] == 0x2d
                    &&& case.eq_spec(e.subrange(0, s.len() as int), s)
                }
            },
        }
    }

    /// Evaluates this operator on an attribute's value and the selector's value.
    ///
    /// Calls `selectors::attr::AttrSelectorOperator::eval_str`. The contract restates,
    /// operator by operator, what that function's source computes on the bytes of its
    /// two arguments; it is not proved here.
    #[verifier::external_body]
    pub(crate) fn eval_str(
        self,
        element_attr_value: &str,
        attr_selector_value: &str,
        case_sensitivity: CaseSensitivity,
    ) -> (r: bool)
        ensures
            r == self.eval_spec(
                encode_utf8(element_attr_value@),
                encode_utf8(attr_selector_value@),
                case_sensitivity,
            ),
    {
        let operator = match self {
            AttrSelectorOperator::Equal => outside::AttrSelectorOperator::Equal,
            AttrSelectorOperator::Includes => outside::AttrSelectorOperator::Includes,
            AttrSelectorOperator::DashMatch => outside::AttrSelectorOperator::DashMatch,
            AttrSelectorOperator::Prefix => outside::AttrSelectorOperator::Prefix,
            AttrSelectorOperator::Substring => outside::AttrSelectorOperator::Substring,
            AttrSelectorOperator::Suffix => outside::AttrSelectorOperator::Suffix,
        };
        let case = match case_sensitivity {
            CaseSensitivity::CaseSensitive => outside::CaseSensitivity::CaseSensitive,
            CaseSensitivity::AsciiCaseInsensitive => outside::CaseSensitivity::AsciiCaseInsensitive,
        };
        operator.eval_str(element_attr_value, attr_selector_value, case)
    }
}

/// What an attribute selector asks of the attribute's value.
#[derive(Debug, PartialEq, Eq)]
pub enum AttrSelectorOperation {
    /// `[name]`: the attribute is present.
    Exists,
    /// `[name op value]`, with an optional case flag.
    WithValue { operator: AttrSelectorOperator, case_sensitivity: CaseSensitivity, value: String },
}

/// The mathematical model of an [`AttrSelectorOperation`].
pub enum AttrSelectorOperationView {
    Exists,
    WithValue {
        operator: AttrSelectorOperator,
        case_sensitivity: CaseSensitivity,
        value: Seq<char>,
    },
}

impl View for AttrSelectorOperation {
    type V = AttrSelectorOperationView;

    open spec fn view(&self) -> AttrSelectorOperationView {
        match self {
            AttrSelectorOperation::Exists => AttrSelectorOperationView::Exists,
            AttrSelectorOperation::WithValue { operator, case_sensitivity, value } => {
                AttrSelectorOperationView::WithValue {
                    operator: *operator,
                    case_sensitivity: *case_sensitivity,
                    value: value@,
                }
            },
        }
    }
}

impl AttrSelectorOperationView {
    /// Whether an attribute with the value `element_attr_value` satisfies the operation.
    pub open spec fn eval_spec(self, element_attr_value: Seq<char>) -> bool {
        match self {
            AttrSelectorOperationView::Exists => true,
            AttrSelectorOperationView::WithValue { operator, case_sensitivity, value } => {
                operator.eval_spec(
                    encode_utf8(element_attr_value),
                    encode_utf8(value),
                    case_sensitivity,
                )
            },
        }
    }
}

impl AttrSelectorOperation {
    /// Evaluates the operation on an attribute's value.
    pub fn eval_str(&self, element_attr_value: &str) -> (r: bool)
        ensures
            r == self@.eval_spec(element_attr_value@),
    {
        match self {
            AttrSelectorOperation::Exists => true,
            AttrSelectorOperation::WithValue { operator, case_sensitivity, value } => {
                operator.eval_str(element_attr_value, value.as_str(), *case_sensitivity)
            },
        }
    }
}

/// Which namespaces an attribute selector accepts.
#[derive(Debug, PartialEq, Eq)]
pub enum NamespaceConstraint {
    /// Any namespace, and none.
    Any,
    /// Exactly this namespace; the empty string stands for no namespace.
    Specific(String),
}

/// The mathematical model of a [`NamespaceConstraint`].
pub enum NamespaceConstraintView {
    Any,
    Specific(Seq<char>),
}

impl View for NamespaceConstraint {
    type V = NamespaceConstraintView;

    open spec fn view(&self) -> NamespaceConstraintView {
        match self {
            NamespaceConstraint::Any => NamespaceConstraintView::Any,
            NamespaceConstraint::Specific(url) => NamespaceConstraintView::Specific(url@),
        }
    }
}

impl NamespaceConstraintView {
    /// Whether an attribute in the namespace `ns` meets the constraint.
    pub open spec fn admits(self, ns: Seq<char>) -> bool {
        match self {
            NamespaceConstraintView::Any => true,
            NamespaceConstraintView::Specific(url) => url == ns,
        }
    }
}

impl NamespaceConstraint {
    /// Whether an attribute in the namespace `ns` meets the constraint.
    pub fn admits(&self, ns: &String) -> (r: bool)
        ensures
            r == self@.admits(ns@),
    {
        match self {
            NamespaceConstraint::Any => true,
            NamespaceConstraint::Specific(url) => *url == *ns,
        }
    }
}

impl Clone for AttrSelectorOperation {
    fn clone(&self) -> (r: Self)
        ensures
            r@ == self@,
    {
        match self {
            AttrSelectorOperation::Exists => AttrSelectorOperation::Exists,
            AttrSelectorOperation::WithValue { operator, case_sensitivity, value } => {
                AttrSelectorOperation::WithValue {
                    operator: *operator,
                    case_sensitivity: *case_sensitivity,
                    value: value.clone(),
                }
            },
        }
    }
}

impl Clone for NamespaceConstraint {
    fn clone(&self) -> (r: Self)
        ensures
            r@ == self@,
    {
        match self {
            NamespaceConstraint::Any => NamespaceConstraint::Any,
            NamespaceConstraint::Specific(url) => NamespaceConstraint::Specific(url.clone()),
        }
    }
}

} // verus!
