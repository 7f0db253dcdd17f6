//! The tokens of selector syntax.
//!
//! A token is a kind and the range of characters it covers. The tokens of a
//! text cover it from its first character to its last, without gaps.

use crate::text::{
    is_name_char, is_name_char_char, is_name_start, is_name_start_char, is_whitespace,
    is_whitespace_char,
};
use vstd::prelude::*;

verus! {

/// The kinds of token.
#[derive(Clone, Copy, Debug, PartialEq, Eq, Structural)]
pub enum TokenKind {
    /// A run of whitespace.
    Whitespace,
    /// A name.
    Ident,
    /// `#` and a name.
    Hash,
    /// A quoted string with its two quotes.
    Str,
    /// An opening quote that is never closed, and all that follows it.
    OpenStr,
    /// `.`
    Dot,
    /// `*`
    Star,
    /// `>`
    Greater,
    /// `+`
    Plus,
    /// `~`
    Tilde,
    /// `,`
    Comma,
    /// `:`
    Colon,
    /// `=`
    Equals,
    /// `|`
    Pipe,
    /// `~=`
    IncludeMatch,
    /// `|=`
    DashMatch,
    /// `^=`
    PrefixMatch,
    /// `$=`
    SuffixMatch,
    /// `*=`
    SubstringMatch,
    /// `[`
    OpenBracket,
    /// `]`
    CloseBracket,
    /// Any other character.
    Other,
}

/// A token: its kind, and the characters `start..end` of the text that it covers.
#[derive(Clone, Copy, Debug, PartialEq, Eq, Structural)]
pub struct Token {
    pub kind: TokenKind,
    pub start: usize,
    pub end: usize,
}

/// The model of a [`Token`], with positions as mathematical integers.
pub struct TokenView {
    pub kind: TokenKind,
    pub start: int,
    pub end: int,
}

impl View for Token {
    type V = TokenView;

    open spec fn view(&self) -> TokenView {
        TokenView { kind: self.kind, start: self.start as int, end: self.end as int }
    }
}

/// The model of a list of tokens.
pub open spec fn tokens_view(v: Seq<Token>) -> Seq<TokenView> {
    Seq::new(v.len(), |i: int| v[i]@)
}

/// How many whitespace characters stand in a row from `p` on.
pub open spec fn whitespace_len(s: Seq<char>, p: int) -> nat
    decreases s.len() - p,
{
    if 0 <= p < s.len() && is_whitespace(s[p]) {
        1 + whitespace_len(s, p + 1)
    } else {
        0
    }
}

/// How many name characters stand in a row from `p` on.
pub open spec fn name_len(s: Seq<char>, p: int) -> nat
    decreases s.len() - p,
{
    if 0 <= p < s.len() && is_name_char(s[p]) {
        1 + name_len(s, p + 1)
    } else {
        0
    }
}

/// How many characters other than `quote` stand in a row from `p` on.
pub open spec fn unquoted_len(s: Seq<char>, p: int, quote: char) -> nat
    decreases s.len() - p,
{
    if 0 <= p < s.len() && s[p] != quote {
        1 + unquoted_len(s, p + 1, quote)
    } else {
        0
    }
}

/// Whether a name begins at `p`: a name-start character, or `-` followed by a
/// name-start character or another `-`.
pub open spec fn starts_ident(s: Seq<char>, p: int) -> bool {
    &&& 0 <= p < s.len()
    &&& (is_name_start(s[p]) || (s[p] == '-' && p + 1 < s.len() && (is_name_start(s[p + 1])
        || s[p + 1] == '-')))
}

/// Whether `c` begins one of the two-character operators `~=`, `|=`, `^=`, `$=`, `*=`.
pub open spec fn is_match_operator_start(c: char) -> bool {
    c == '~' || c == '|' || c == '^' || c == '$' || c == '*'
}

/// The kind of the token made of the one character `c`.
pub open spec fn single_kind(c: char) -> TokenKind {
    if c == '.' {
        TokenKind::Dot
    } else if c == '*' {
        TokenKind::Star
    } else if c == '>' {
        TokenKind::Greater
    } else if c == '+' {
        TokenKind::Plus
    } else if c == '~' {
        TokenKind::Tilde
    } else if c == ',' {
        TokenKind::Comma
    } else if c == ':' {
        TokenKind::Colon
    } else if c == '=' {
        TokenKind::Equals
    } else if c == '|' {
        TokenKind::Pipe
    } else if c == '[' {
        TokenKind::OpenBracket
    } else if c == ']' {
        TokenKind::CloseBracket
    } else {
        TokenKind::Other
    }
}

/// The kind of the two-character operator that begins with `c`.
pub open spec fn match_kind(c: char) -> TokenKind {
    if c == '~' {
        TokenKind::IncludeMatch
    } else if c == '|' {
        TokenKind::DashMatch
    } else if c == '^' {
        TokenKind::PrefixMatch
    } else if c == '$' {
        TokenKind::SuffixMatch
    } else {
        TokenKind::SubstringMatch
    }
}

/// The kind of the token that begins at `p`, for `0 <= p < s.len()`.
pub open spec fn token_kind(s: Seq<char>, p: int) -> TokenKind {
    let c = s[p];
    if is_whitespace(c) {
        TokenKind::Whitespace
    } else if starts_ident(s, p) {
        TokenKind::Ident
    } else if c == '#' && starts_ident(s, p + 1) {
        TokenKind::Hash
    } else if c == '"' || c == '\'' {
        if p + 1 + unquoted_len(s, p + 1, c) < s.len() {
            TokenKind::Str
        } else {
            TokenKind::OpenStr
        }
    } else if is_match_operator_start(c) && p + 1 < s.len() && s[p + 1] == '=' {
        match_kind(c)
    } else {
        single_kind(c)
    }
}

/// How many characters the token that begins at `p` covers beyond its first.
pub open spec fn token_extra(s: Seq<char>, p: int) -> nat {
    let c = s[p];
    if is_whitespace(c) {
        whitespace_len(s, p + 1)
    } else if starts_ident(s, p) {
        name_len(s, p + 1)
    } else if c == '#' && starts_ident(s, p + 1) {
        1 + name_len(s, p + 2)
    } else if c == '"' || c == '\'' {
        let n = unquoted_len(s, p + 1, c);
        if p + 1 + n < s.len() {
            n + 1
        } else {
            n
        }
    } else if is_match_operator_start(c) && p + 1 < s.len() && s[p + 1] == '=' {
        1
    } else {
        0
    }
}

/// The token that begins at `p`.
pub open spec fn token_at(s: Seq<char>, p: int) -> TokenView {
    TokenView { kind: token_kind(s, p), start: p, end: p + 1 + token_extra(s, p) }
}

/// The tokens of `s` from `p` on.
pub open spec fn tokens_from(s: Seq<char>, p: int) -> Seq<TokenView>
    decreases s.len() - p,
{
    if 0 <= p < s.len() {
        let t = token_at(s, p);
        proof {
            lemma_token_at_wf(s, p);
        }
        seq![t] + tokens_from(s, t.end)
    } else {
        Seq::empty()
    }
}

/// The tokens of a text.
pub open spec fn tokens_of(s: Seq<char>) -> Seq<TokenView> {
    tokens_from(s, 0)
}

/// A token lies within the text, is not empty, and is long enough for its kind:
/// a hash holds `#` and a name, a string holds its two quotes.
pub open spec fn token_wf(s: Seq<char>, t: TokenView) -> bool {
    &&& 0 <= t.start < t.end <= s.len()
    &&& (t.kind is Hash ==> t.start + 2 <= t.end)
    &&& (t.kind is Str ==> t.start + 2 <= t.end)
}

/// Every token of a list is well formed.
pub open spec fn tokens_wf(s: Seq<char>, toks: Seq<TokenView>) -> bool {
    forall|i: int| 0 <= i < toks.len() ==> token_wf(s, #[trigger] toks[i])
}

/// A run of whitespace ends within the text.
pub proof fn lemma_whitespace_len(s: Seq<char>, p: int)
    requires
        0 <= p <= s.len(),
    ensures
        p + whitespace_len(s, p) <= s.len(),
    decreases s.len() - p,
{
    if p < s.len() && is_whitespace(s[p]) {
        lemma_whitespace_len(s, p + 1);
    }
}

/// A run of name characters ends within the text.
pub proof fn lemma_name_len(s: Seq<char>, p: int)
    requires
        0 <= p <= s.len(),
    ensures
        p + name_len(s, p) <= s.len(),
    decreases s.len() - p,
{
    if p < s.len() && is_name_char(s[p]) {
        lemma_name_len(s, p + 1);
    }
}

/// A run of characters other than `quote` ends within the text, and at a `quote`
/// if it ends before the end of the text.
pub proof fn lemma_unquoted_len(s: Seq<char>, p: int, quote: char)
    requires
        0 <= p <= s.len(),
    ensures
        p + unquoted_len(s, p, quote) <= s.len(),
        p + unquoted_len(s, p, quote) < s.len() ==> s[p + unquoted_len(s, p, quote)] == quote,
    decreases s.len() - p,
{
    if p < s.len() && s[p] != quote {
        lemma_unquoted_len(s, p + 1, quote);
    }
}

/// The token that begins at a position of the text is well formed.
pub proof fn lemma_token_at_wf(s: Seq<char>, p: int)
    requires
        0 <= p < s.len(),
    ensures
        token_wf(s, token_at(s, p)),
{
    let c = s[p];
    lemma_whitespace_len(s, p + 1);
    lemma_name_len(s, p + 1);
    if p + 2 <= s.len() {
        lemma_name_len(s, p + 2);
    }
    lemma_unquoted_len(s, p + 1, c);
}

/// The tokens of a text are well formed.
pub proof fn lemma_tokens_from_wf(s: Seq<char>, p: int)
    requires
        0 <= p <= s.len(),
    ensures
        tokens_wf(s, tokens_from(s, p)),
    decreases s.len() - p,
{
    if p < s.len() {
        lemma_token_at_wf(s, p);
        lemma_tokens_from_wf(s, p + 1 + token_extra(s, p));
        let rest = tokens_from(s, p + 1 + token_extra(s, p));
        assert forall|i: int| 0 <= i < tokens_from(s, p).len() implies token_wf(
            s,
            #[trigger] tokens_from(s, p)[i],
        ) by {
            if i > 0 {
                assert(tokens_from(s, p)[i] == rest[i - 1]);
            }
        }
    }
}

/// The position after the whitespace that begins at `p`.
fn scan_whitespace(chars: &Vec<char>, p: usize) -> (q: usize)
    requires
        p <= chars.len(),
    ensures
        q == p + whitespace_len(chars@, p as int),
        q <= chars.len(),
{
    let mut q = p;
    while q < chars.len() && is_whitespace_char(chars[q])
        invariant
            p <= q <= chars.len(),
            p + whitespace_len(chars@, p as int) == q + whitespace_len(chars@, q as int),
        decreases chars.len() - q,
    {
        q += 1;
    }
    q
}

/// The position after the name characters that begin at `p`.
fn scan_name(chars: &Vec<char>, p: usize) -> (q: usize)
    requires
        p <= chars.len(),
    ensures
        q == p + name_len(chars@, p as int),
        q <= chars.len(),
{
    let mut q = p;
    while q < chars.len() && is_name_char_char(chars[q])
        invariant
            p <= q <= chars.len(),
            p + name_len(chars@, p as int) == q + name_len(chars@, q as int),
        decreases chars.len() - q,
    {
        q += 1;
    }
    q
}

/// The position of the first `quote` at or after `p`, or the end of the text.
fn scan_unquoted(chars: &Vec<char>, p: usize, quote: char) -> (q: usize)
    requires
        p <= chars.len(),
    ensures
        q == p + unquoted_len(chars@, p as int, quote),
        q <= chars.len(),
{
    let mut q = p;
    while q < chars.len() && chars[q] != quote
        invariant
            p <= q <= chars.len(),
            p + unquoted_len(chars@, p as int, quote) == q + unquoted_len(chars@, q as int, quote),
        decreases chars.len() - q,
    {
        q += 1;
    }
    q
}

/// Whether a name begins at `p`.
fn is_ident_start(chars: &Vec<char>, p: usize) -> (r: bool)
    ensures
        r == starts_ident(chars@, p as int),
{
    if p >= chars.len() {
        return false;
    }
    let c = chars[p];
    if is_name_start_char(c) {
        return true;
    }
    if c == '-' && p + 1 < chars.len() {
        let d = chars[p + 1];
        is_name_start_char(d) || d == '-'
    } else {
        false
    }
}

/// The kind of the token made of the one character `c`.
fn single_kind_of(c: char) -> (r: TokenKind)
    ensures
        r == single_kind(c),
{
    if c == '.' {
        TokenKind::Dot
    } else if c == '*' {
        TokenKind::Star
    } else if c == '>' {
        TokenKind::Greater
    } else if c == '+' {
        TokenKind::Plus
    } else if c == '~' {
        TokenKind::Tilde
    } else if c == ',' {
        TokenKind::Comma
    } else if c == ':' {
        TokenKind::Colon
    } else if c == '=' {
        TokenKind::Equals
    } else if c == '|' {
        TokenKind::Pipe
    } else if c == '[' {
        TokenKind::OpenBracket
    } else if c == ']' {
        TokenKind::CloseBracket
    } else {
        TokenKind::Other
    }
}

/// The kind of the two-character operator that begins with `c`.
fn match_kind_of(c: char) -> (r: TokenKind)
    ensures
        r == match_kind(c),
{
    if c == '~' {
        TokenKind::IncludeMatch
    } else if c == '|' {
        TokenKind::DashMatch
    } else if c == '^' {
        TokenKind::PrefixMatch
    } else if c == '$' {
        TokenKind::SuffixMatch
    } else {
        TokenKind::SubstringMatch
    }
}

/// The token that begins at `p`.
fn next_token(chars: &Vec<char>, p: usize) -> (t: Token)
    requires
        p < chars.len(),
    ensures
        t@ == token_at(chars@, p as int),
        token_wf(chars@, t@),
{
    proof {
        lemma_token_at_wf(chars@, p as int);
    }
    let c = chars[p];
    if is_whitespace_char(c) {
        Token { kind: TokenKind::Whitespace, start: p, end: scan_whitespace(chars, p + 1) }
    } else if is_ident_start(chars, p) {
        Token { kind: TokenKind::Ident, start: p, end: scan_name(chars, p + 1) }
    } else if c == '#' && is_ident_start(chars, p + 1) {
        Token { kind: TokenKind::Hash, start: p, end: scan_name(chars, p + 2) }
    } else if c == '"' || c == '\'' {
        let q = scan_unquoted(chars, p + 1, c);
        if q < chars.len() {
            Token { kind: TokenKind::Str, start: p, end: q + 1 }
        } else {
            Token { kind: TokenKind::OpenStr, start: p, end: q }
        }
    } else if (c == '~' || c == '|' || c == '^' || c == '$' || c == '*') && p + 1 < chars.len()
        && chars[p + 1] == '=' {
        Token { kind: match_kind_of(c), start: p, end: p + 2 }
    } else {
        Token { kind: single_kind_of(c), start: p, end: p + 1 }
    }
}

/// Cuts a text into its tokens.
pub fn tokenize(chars: &Vec<char>) -> (toks: Vec<Token>)
    ensures
        tokens_view(toks@) == tokens_of(chars@),
        tokens_wf(chars@, tokens_view(toks@)),
{
    let mut toks: Vec<Token> = Vec::new();
    let mut p: usize = 0;
    while p < chars.len()
        invariant
            p <= chars.len(),
            tokens_of(chars@) == tokens_view(toks@) + tokens_from(chars@, p as int),
        decreases chars.len() - p,
    {
        let t = next_token(chars, p);
        let ghost before = tokens_view(toks@);
        toks.push(t);
        proof {
            assert(tokens_view(toks@) =~= before + seq![t@]);
            assert(before + (seq![t@] + tokens_from(chars@, t.end as int)) =~= (before + seq![t@])
                + tokens_from(chars@, t.end as int));
        }
        p = t.end;
    }
    proof {
        assert(tokens_view(toks@) + Seq::<TokenView>::empty() =~= tokens_view(toks@));
        lemma_tokens_from_wf(chars@, 0);
    }
    toks
}

} // verus!
