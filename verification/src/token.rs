//! The token model: identifiers, punctuation characters, literals and
//! bracketed groups, each with the place in the source it came from.

use vstd::prelude::*;

verus! {

/// The bracket style of a group.
#[derive(Clone, Copy, Debug, PartialEq, Eq, Structural)]
pub enum Delimiter {
    /// `( ... )`
    Parenthesis,
    /// `{ ... }`
    Brace,
    /// `[ ... ]`
    Bracket,
    /// A group without visible brackets.
    Undelimited,
}

/// Whether a punctuation character is fused to the punctuation character
/// that follows it.
#[derive(Clone, Copy, Debug, PartialEq, Eq, Structural)]
pub enum Spacing {
    /// Followed by whitespace or by a token that is no punctuation.
    Alone,
    /// Immediately followed by another punctuation character, as the first
    /// `&` of `&&`.
    Joint,
}

/// Where a token stands in the source.
#[derive(Clone, Copy, Debug, PartialEq, Eq, Structural)]
pub enum Span {
    /// The token was read from the source; the number identifies its place.
    Source(u64),
    /// The token was made by the rewriter and has no place of its own.
    Synthetic,
}

/// A bracketed sequence of tokens.
#[derive(Debug, PartialEq, Eq)]
pub struct Group {
    pub delimiter: Delimiter,
    pub stream: Vec<Token>,
    pub span: Span,
}

/// One lexical token.
#[derive(Debug, PartialEq, Eq)]
pub enum Token {
    Ident { name: String, span: Span },
    Punct { ch: char, spacing: Spacing, span: Span },
    Literal { text: String, span: Span },
    Group(Group),
}

/// The mathematical value of a [`Group`].
pub ghost struct GroupView {
    pub delimiter: Delimiter,
    pub stream: Seq<TokenView>,
    pub span: Span,
}

/// The mathematical value of a [`Token`].
pub ghost enum TokenView {
    Ident { name: Seq<char>, span: Span },
    Punct { ch: char, spacing: Spacing, span: Span },
    Literal { text: Seq<char>, span: Span },
    Group(GroupView),
}

/// The values of a sequence of tokens, in order.
pub open spec fn stream_view(s: Seq<Token>) -> Seq<TokenView>
    decreases s, 0int,
{
    Seq::new(s.len(), |i: int| if 0 <= i < s.len() { token_view(s[i]) } else { arbitrary() })
}

/// The value of one token.
pub open spec fn token_view(t: Token) -> TokenView
    decreases t, 1int,
{
    match t {
        Token::Ident { name, span } => TokenView::Ident { name: name@, span },
        Token::Punct { ch, spacing, span } => TokenView::Punct { ch, spacing, span },
        Token::Literal { text, span } => TokenView::Literal { text: text@, span },
        Token::Group(g) => TokenView::Group(
            GroupView { delimiter: g.delimiter, stream: stream_view(g.stream@), span: g.span },
        ),
    }
}

impl View for Token {
    type V = TokenView;

    open spec fn view(&self) -> TokenView {
        token_view(*self)
    }
}

impl View for Group {
    type V = GroupView;

    open spec fn view(&self) -> GroupView {
        GroupView { delimiter: self.delimiter, stream: stream_view(self.stream@), span: self.span }
    }
}

/// The value at `i` of the values of `s` is the value of `s[i]`.
pub proof fn lemma_stream_view_index(s: Seq<Token>, i: int)
    requires
        0 <= i < s.len(),
    ensures
        stream_view(s).len() == s.len(),
        stream_view(s)[i] == s[i]@,
{
}

/// The values of a part of `s` are that part of the values of `s`.
pub proof fn lemma_stream_view_subrange(s: Seq<Token>, from: int, to: int)
    requires
        0 <= from <= to <= s.len(),
    ensures
        stream_view(s.subrange(from, to)) == stream_view(s).subrange(from, to),
{
    assert(stream_view(s.subrange(from, to)) =~= stream_view(s).subrange(from, to));
}

/// The values of the first `n` tokens are the first `n` values.
pub proof fn lemma_stream_view_take(s: Seq<Token>, n: int)
    requires
        0 <= n <= s.len(),
    ensures
        stream_view(s.subrange(0, n)) == stream_view(s).take(n),
{
    assert(stream_view(s.subrange(0, n)) =~= stream_view(s).take(n));
}

/// The values of `s` with `t` behind it are the values of `s` with the
/// value of `t` behind them.
pub proof fn lemma_stream_view_push(s: Seq<Token>, t: Token)
    ensures
        stream_view(s.push(t)) == stream_view(s).push(t@),
{
    assert(stream_view(s.push(t)) =~= stream_view(s).push(t@));
}

/// The values of `a` followed by `b` are the values of `a` followed by
/// those of `b`.
pub proof fn lemma_stream_view_concat(a: Seq<Token>, b: Seq<Token>)
    ensures
        stream_view(a + b) == stream_view(a) + stream_view(b),
{
    assert(stream_view(a + b) =~= stream_view(a) + stream_view(b));
}

} // verus!
