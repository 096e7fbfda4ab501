//! The boundary scanner: how many of the tokens before a postfix macro
//! invocation form the expression that the invocation is attached to.
//!
//! The scanner has no grammar. It walks backward from the invocation and
//! decides token by token, from the token's kind, its character and what it
//! has just passed, whether the expression goes on to the left.

use vstd::prelude::*;
use vstd::slice::slice_subrange;
use crate::error::ScanError;
use crate::token::{lemma_stream_view_index, lemma_stream_view_take};
use crate::token::{Delimiter, Spacing, Token, TokenView, stream_view};

verus! {

/// What the scanner does with one token.
#[derive(Clone, Copy, Debug, PartialEq, Eq, Structural)]
pub enum Verdict {
    /// The token belongs to the expression, and the scan goes on.
    Take,
    /// The expression begins behind this token.
    Stop,
    /// The scan fails.
    Fail(ScanError),
}

/// `t` is the identifier `name`.
pub open spec fn is_ident(t: TokenView, name: Seq<char>) -> bool {
    t matches TokenView::Ident { name: n, .. } && n == name
}

/// `t` is the punctuation character `c`, whatever follows it.
pub open spec fn is_punct(t: TokenView, c: char) -> bool {
    t matches TokenView::Punct { ch, .. } && ch == c
}

/// `t` is a group in braces.
pub open spec fn is_block(t: TokenView) -> bool {
    t matches TokenView::Group(g) && g.delimiter == Delimiter::Brace
}

/// The verdict on `s[i]`, one of `&`, `*` and `-`, which may be a prefix
/// operator of the expression or an infix operator before it. The token to
/// its left decides:
///
/// - nothing, a brace group, an identifier, `;`, `,` or `=`: a prefix
///   operator, taken;
/// - another of `&`, `*` and `-`: a prefix operator, taken, so that in a run
///   of them the leftmost decides for itself alone; but an `&` fused to the
///   `&` at `i` makes the two the infix operator `&&`, where the scan stops;
/// - a literal or a group in parentheses or brackets: an infix operator,
///   where the scan stops;
/// - anything else: the scan fails.
pub open spec fn operator_verdict(s: Seq<TokenView>, i: int) -> Verdict
    recommends
        0 <= i < s.len(),
        s[i] is Punct,
{
    if i == 0 {
        Verdict::Take
    } else {
        match s[i - 1] {
            TokenView::Ident { .. } => Verdict::Take,
            TokenView::Literal { .. } => Verdict::Stop,
            TokenView::Group(g) => match g.delimiter {
                Delimiter::Brace => Verdict::Take,
                Delimiter::Parenthesis | Delimiter::Bracket => Verdict::Stop,
                Delimiter::Undelimited => Verdict::Fail(ScanError::AmbiguousOperator(s[i]->ch)),
            },
            TokenView::Punct { ch, spacing, .. } => {
                if ch == '&' && spacing == Spacing::Joint && is_punct(s[i], '&') {
                    Verdict::Stop
                } else if ch == '&' || ch == '*' || ch == '-' || ch == ';' || ch == ',' || ch
                    == '=' {
                    Verdict::Take
                } else {
                    Verdict::Fail(ScanError::AmbiguousOperator(s[i]->ch))
                }
            },
        }
    }
}

/// The verdict on the punctuation character `s[i]`, where `after_punct`
/// says whether the token to its right is punctuation too.
///
/// - `.` that stands alone, `:` and `?` are taken.
/// - `.` and `&` fused to the next character, and `, ; + / % = < > | ^`, end
///   the expression.
/// - `!` directly before punctuation fails the scan; behind an identifier it
///   is the mark of a macro invocation and taken; elsewhere it is a negation,
///   where the scan stops.
/// - `&`, `*` and `-` go by [`operator_verdict`].
/// - Any other character fails the scan.
pub open spec fn punct_verdict(s: Seq<TokenView>, i: int, after_punct: bool) -> Verdict
    recommends
        0 <= i < s.len(),
        s[i] is Punct,
{
    let ch = s[i]->ch;
    let joint = s[i]->spacing == Spacing::Joint;
    if (ch == '.' && !joint) || ch == ':' || ch == '?' {
        Verdict::Take
    } else if ((ch == '.' || ch == '&') && joint) || ch == ',' || ch == ';' || ch == '+' || ch
        == '/' || ch == '%' || ch == '=' || ch == '<' || ch == '>' || ch == '|' || ch == '^' {
        Verdict::Stop
    } else if ch == '!' {
        if after_punct {
            Verdict::Fail(ScanError::BangBeforePunctuation)
        } else if i >= 1 && s[i - 1] is Ident {
            Verdict::Take
        } else {
            Verdict::Stop
        }
    } else if ch == '&' || ch == '*' || ch == '-' {
        operator_verdict(s, i)
    } else {
        Verdict::Fail(ScanError::UnsupportedPunctuation(ch))
    }
}

/// The length of the expression at the end of `s`, when the tokens from
/// `start` on are known to belong to it and the token at `start` was
/// punctuation (`after_punct`) or a group (`after_group`).
///
/// - A literal is taken.
/// - An identifier is taken, unless the token to its right is an identifier
///   or a literal too: then a new construct begins with it, and the scan
///   stops. Only `mut` is taken even there.
/// - Punctuation goes by [`punct_verdict`].
/// - A group is taken only before punctuation; elsewhere it is the body of
///   something else, and the scan stops. A group without visible brackets
///   fails the scan. A group in braces goes by [`scan_block`].
pub open spec fn scan_expr(s: Seq<TokenView>, start: int, after_punct: bool, after_group: bool)
    -> Result<nat, ScanError>
    decreases s.len(), start, 1int,
{
    if start <= 0 || start > s.len() {
        Ok(s.len())
    } else {
        let here = (s.len() - start) as nat;
        match s[start - 1] {
            TokenView::Literal { .. } => scan_expr(s, start - 1, false, false),
            TokenView::Ident { name, .. } => {
                if !after_punct && !after_group && name != "mut"@ {
                    Ok(here)
                } else {
                    scan_expr(s, start - 1, false, false)
                }
            },
            TokenView::Punct { .. } => match punct_verdict(s, start - 1, after_punct) {
                Verdict::Take => scan_expr(s, start - 1, true, false),
                Verdict::Stop => Ok(here),
                Verdict::Fail(e) => Err(e),
            },
            TokenView::Group(g) => {
                if !after_punct {
                    Ok(here)
                } else {
                    match g.delimiter {
                        Delimiter::Undelimited => Err(ScanError::UndelimitedGroup),
                        Delimiter::Brace => scan_block(s, start - 1),
                        _ => scan_expr(s, start - 1, false, true),
                    }
                }
            },
        }
    }
}

/// The length of the expression at the end of `s`, when the brace group at
/// `brace` and all behind it belong to the expression. The braces may be a
/// block, the arguments of a macro, or the last arm of an `if` or `match`.
/// The token before them decides:
///
/// - nothing: a block; the expression is all of `s`;
/// - `else`: an `else` arm; the brace group before the `else` is judged in
///   the same way;
/// - `;` or `,`: a block that stands alone; the expression begins with it;
/// - `!`: the arguments of a macro; the scan goes on as behind any group;
/// - any other punctuation: the scan fails;
/// - anything else: the end of a condition or scrutinee, whose length a scan
///   of its own finds. Before the condition stands `if` behind `else` (the
///   brace group before that `else` is judged in the same way), or `if` or
///   `match` (the expression begins with that word), or nothing (the
///   expression is all of `s`); anything else fails the scan.
pub open spec fn scan_block(s: Seq<TokenView>, brace: int) -> Result<nat, ScanError>
    decreases s.len(), brace + 1, 0int,
{
    if brace <= 0 || brace >= s.len() {
        Ok(s.len())
    } else if is_ident(s[brace - 1], "else"@) {
        if brace >= 2 && is_block(s[brace - 2]) {
            scan_block(s, brace - 2)
        } else {
            Err(ScanError::MissingBlock)
        }
    } else if s[brace - 1] is Punct {
        let ch = s[brace - 1]->ch;
        if ch == ';' || ch == ',' {
            Ok((s.len() - brace) as nat)
        } else if ch == '!' {
            scan_expr(s, brace, false, true)
        } else {
            Err(ScanError::UnsupportedBeforeBlock(ch))
        }
    } else {
        match scan_expr(s.take(brace), brace, true, true) {
            Err(e) => Err(e),
            Ok(m) => {
                let c = brace - m;
                if c <= 0 {
                    Ok(s.len())
                } else if is_ident(s[c - 1], "if"@) && c >= 2 && is_ident(s[c - 2], "else"@) {
                    if c >= 3 && is_block(s[c - 3]) {
                        scan_block(s, c - 3)
                    } else {
                        Err(ScanError::MissingBlock)
                    }
                } else if (is_ident(s[c - 1], "if"@) || is_ident(s[c - 1], "match"@)) && !(c >= 2
                    && is_ident(s[c - 2], "else"@)) {
                    Ok((s.len() - (c - 1)) as nat)
                } else if s[c - 1] is Punct {
                    Err(ScanError::UnsupportedBeforeCondition(s[c - 1]->ch))
                } else {
                    Err(ScanError::UnsupportedBlockHead)
                }
            },
        }
    }
}

/// The length of the expression that ends `s`: how many of its last tokens
/// a postfix macro invocation behind `s` is attached to. The scan begins as
/// if behind punctuation, which the `.` of the invocation is.
pub open spec fn scan(s: Seq<TokenView>) -> Result<nat, ScanError> {
    scan_expr(s, s.len() as int, true, true)
}

/// Whether `name` spells `word`.
pub fn is_word(name: &String, word: &str) -> (b: bool)
    ensures
        b == (name@ == word@),
{
    let w = word.to_owned();
    *name == w
}

/// Whether the token at `i` is the identifier `word`.
fn ident_at(tokens: &[Token], i: usize, word: &str) -> (b: bool)
    requires
        i < tokens.len(),
    ensures
        b == is_ident(stream_view(tokens@)[i as int], word@),
{
    proof {
        lemma_stream_view_index(tokens@, i as int);
    }
    match &tokens[i] {
        Token::Ident { name, .. } => is_word(name, word),
        _ => false,
    }
}

/// Whether the token at `i` is a group in braces.
fn block_at(tokens: &[Token], i: usize) -> (b: bool)
    requires
        i < tokens.len(),
    ensures
        b == is_block(stream_view(tokens@)[i as int]),
{
    proof {
        lemma_stream_view_index(tokens@, i as int);
    }
    match &tokens[i] {
        Token::Group(g) => match g.delimiter {
            Delimiter::Brace => true,
            _ => false,
        },
        _ => false,
    }
}

/// The verdict on the operator at `i`, by the token to its left.
fn operator_verdict_at(tokens: &[Token], i: usize, op: char) -> (v: Verdict)
    requires
        i < tokens.len(),
        stream_view(tokens@)[i as int] is Punct,
        stream_view(tokens@)[i as int]->ch == op,
    ensures
        v == operator_verdict(stream_view(tokens@), i as int),
{
    if i == 0 {
        return Verdict::Take;
    }
    proof {
        lemma_stream_view_index(tokens@, i as int);
        lemma_stream_view_index(tokens@, i - 1);
    }
    match &tokens[i - 1] {
        Token::Ident { .. } => Verdict::Take,
        Token::Literal { .. } => Verdict::Stop,
        Token::Group(g) => match g.delimiter {
            Delimiter::Brace => Verdict::Take,
            Delimiter::Parenthesis | Delimiter::Bracket => Verdict::Stop,
            Delimiter::Undelimited => Verdict::Fail(ScanError::AmbiguousOperator(op)),
        },
        Token::Punct { ch, spacing, .. } => {
            let fused = match spacing {
                Spacing::Joint => true,
                Spacing::Alone => false,
            };
            if *ch == '&' && fused && op == '&' {
                Verdict::Stop
            } else if *ch == '&' || *ch == '*' || *ch == '-' || *ch == ';' || *ch == ',' || *ch
                == '=' {
                Verdict::Take
            } else {
                Verdict::Fail(ScanError::AmbiguousOperator(op))
            }
        },
    }
}

/// The verdict on the punctuation character at `i`.
fn punct_verdict_at(tokens: &[Token], i: usize, after_punct: bool) -> (v: Verdict)
    requires
        i < tokens.len(),
        stream_view(tokens@)[i as int] is Punct,
    ensures
        v == punct_verdict(stream_view(tokens@), i as int, after_punct),
{
    proof {
        lemma_stream_view_index(tokens@, i as int);
    }
    let (ch, joint) = match &tokens[i] {
        Token::Punct { ch, spacing, .. } => (
            *ch,
            match spacing {
                Spacing::Joint => true,
                Spacing::Alone => false,
            },
        ),
        _ => ('.', true),
    };
    if (ch == '.' && !joint) || ch == ':' || ch == '?' {
        Verdict::Take
    } else if ((ch == '.' || ch == '&') && joint) || ch == ',' || ch == ';' || ch == '+' || ch
        == '/' || ch == '%' || ch == '=' || ch == '<' || ch == '>' || ch == '|' || ch == '^' {
        Verdict::Stop
    } else if ch == '!' {
        if after_punct {
            Verdict::Fail(ScanError::BangBeforePunctuation)
        } else if i >= 1 {
            proof {
                lemma_stream_view_index(tokens@, i - 1);
            }
            match &tokens[i - 1] {
                Token::Ident { .. } => Verdict::Take,
                _ => Verdict::Stop,
            }
        } else {
            Verdict::Stop
        }
    } else if ch == '&' || ch == '*' || ch == '-' {
        operator_verdict_at(tokens, i, ch)
    } else {
        Verdict::Fail(ScanError::UnsupportedPunctuation(ch))
    }
}

/// Judges the brace group at `brace`, which belongs to the expression.
/// Returns the index at which the expression begins so far, and whether it
/// begins there for good (`true`) or the scan goes on from there as behind a
/// group (`false`).
fn block_extent(tokens: &[Token], brace: usize) -> (r: Result<(usize, bool), ScanError>)
    requires
        brace < tokens.len(),
    ensures
        match r {
            Ok((start, closed)) => {
                &&& start <= brace
                &&& closed ==> scan_block(stream_view(tokens@), brace as int) == Ok::<
                    nat,
                    ScanError,
                >((tokens.len() - start) as nat)
                &&& !closed ==> scan_block(stream_view(tokens@), brace as int) == scan_expr(
                    stream_view(tokens@),
                    start as int,
                    false,
                    true,
                )
            },
            Err(e) => scan_block(stream_view(tokens@), brace as int) == Err::<nat, ScanError>(e),
        },
    decreases tokens.len(), 0int,
{
    let ghost s = stream_view(tokens@);
    let mut b = brace;
    loop
        invariant
            b <= brace < tokens.len(),
            s == stream_view(tokens@),
            s.len() == tokens.len(),
            scan_block(s, b as int) == scan_block(s, brace as int),
        decreases b,
    {
        if b == 0 {
            return Ok((0, true));
        }
        proof {
            lemma_stream_view_index(tokens@, b - 1);
        }
        if ident_at(tokens, b - 1, "else") {
            if b >= 2 && block_at(tokens, b - 2) {
                b = b - 2;
                continue ;
            }
            return Err(ScanError::MissingBlock);
        }
        if let Token::Punct { ch, .. } = &tokens[b - 1] {
            if *ch == ';' || *ch == ',' {
                return Ok((b, true));
            } else if *ch == '!' {
                return Ok((b, false));
            } else {
                return Err(ScanError::UnsupportedBeforeBlock(*ch));
            }
        }
        let condition = slice_subrange(tokens, 0, b);
        proof {
            lemma_stream_view_take(tokens@, b as int);
        }
        let m = match expression_length(condition) {
            Ok(m) => m,
            Err(e) => {
                return Err(e);
            },
        };
        let c = b - m;
        if c == 0 {
            return Ok((0, true));
        }
        proof {
            lemma_stream_view_index(tokens@, c - 1);
        }
        let after_else = c >= 2 && ident_at(tokens, c - 2, "else");
        let is_if = ident_at(tokens, c - 1, "if");
        if is_if && after_else {
            if c >= 3 && block_at(tokens, c - 3) {
                b = c - 3;
                continue ;
            }
            return Err(ScanError::MissingBlock);
        }
        if (is_if || ident_at(tokens, c - 1, "match")) && !after_else {
            return Ok((c - 1, true));
        }
        if let Token::Punct { ch, .. } = &tokens[c - 1] {
            return Err(ScanError::UnsupportedBeforeCondition(*ch));
        }
        return Err(ScanError::UnsupportedBlockHead);
    }
}

/// Walks back over the expression that a postfix macro invocation behind
/// `tokens` is attached to, and returns the number of tokens that belong to
/// it. Zero means that no expression ends there.
pub fn expression_length(tokens: &[Token]) -> (r: Result<usize, ScanError>)
    ensures
        match r {
            Ok(n) => n <= tokens.len() && scan(stream_view(tokens@)) == Ok::<nat, ScanError>(
                n as nat,
            ),
            Err(e) => scan(stream_view(tokens@)) == Err::<nat, ScanError>(e),
        },
    decreases tokens.len(), 1int,
{
    let ghost s = stream_view(tokens@);
    let len = tokens.len();
    let mut start = len;
    let mut after_punct = true;
    let mut after_group = true;
    while start > 0
        invariant
            start <= len == tokens.len(),
            s == stream_view(tokens@),
            s.len() == tokens.len(),
            scan_expr(s, start as int, after_punct, after_group) == scan(s),
        decreases start,
    {
        let i = start - 1;
        proof {
            lemma_stream_view_index(tokens@, i as int);
        }
        match &tokens[i] {
            Token::Literal { .. } => {
                after_punct = false;
                after_group = false;
                start = i;
            },
            Token::Ident { name, .. } => {
                if !after_punct && !after_group && !is_word(name, "mut") {
                    return Ok(len - start);
                }
                after_punct = false;
                after_group = false;
                start = i;
            },
            Token::Punct { .. } => match punct_verdict_at(tokens, i, after_punct) {
                Verdict::Take => {
                    after_punct = true;
                    after_group = false;
                    start = i;
                },
                Verdict::Stop => {
                    return Ok(len - start);
                },
                Verdict::Fail(e) => {
                    return Err(e);
                },
            },
            Token::Group(g) => {
                if !after_punct {
                    return Ok(len - start);
                }
                match g.delimiter {
                    Delimiter::Undelimited => {
                        return Err(ScanError::UndelimitedGroup);
                    },
                    Delimiter::Brace => match block_extent(tokens, i) {
                        Ok((begin, closed)) => {
                            if closed {
                                return Ok(len - begin);
                            }
                            after_punct = false;
                            after_group = true;
                            start = begin;
                        },
                        Err(e) => {
                            return Err(e);
                        },
                    },
                    _ => {
                        after_punct = false;
                        after_group = true;
                        start = i;
                    },
                }
            },
        }
    }
    Ok(len)
}

} // verus!
