//! The splice: the receiver of a postfix macro invocation becomes the first
//! argument of the macro.

use vstd::prelude::*;
use crate::token::{lemma_stream_view_concat, lemma_stream_view_index};
use crate::token::{Delimiter, Group, GroupView, Spacing, Span, Token, TokenView, stream_view};

verus! {

/// `t` is a single identifier or literal, which can stand as a macro
/// argument without brackets around it.
pub open spec fn is_atom(t: TokenView) -> bool {
    t is Ident || t is Literal
}

/// The one token that stands for the receiver `receiver` in the argument
/// list: the receiver itself where it is an atom, else a brace group made
/// for it that holds the receiver.
pub open spec fn receiver_token(receiver: Seq<TokenView>) -> TokenView {
    if receiver.len() == 1 && is_atom(receiver[0]) {
        receiver[0]
    } else {
        TokenView::Group(
            GroupView { delimiter: Delimiter::Brace, stream: receiver, span: Span::Synthetic },
        )
    }
}

/// The comma that parts the receiver from the arguments.
pub open spec fn separator() -> TokenView {
    TokenView::Punct { ch: ',', spacing: Spacing::Alone, span: Span::Synthetic }
}

/// The argument group `group` with `receiver` put before its contents: the
/// receiver's token, then, where the group holds anything, a comma and what
/// the group holds. The brackets stay as they are.
pub open spec fn splice(receiver: Seq<TokenView>, group: GroupView) -> GroupView {
    GroupView {
        delimiter: group.delimiter,
        stream: if group.stream.len() == 0 {
            seq![receiver_token(receiver)]
        } else {
            seq![receiver_token(receiver), separator()] + group.stream
        },
        span: Span::Synthetic,
    }
}

/// Whether `t` is a single identifier or literal.
fn atom(t: &Token) -> (b: bool)
    ensures
        b == is_atom(t@),
{
    match t {
        Token::Ident { .. } => true,
        Token::Literal { .. } => true,
        _ => false,
    }
}

/// Puts the receiver `tokens` before the arguments that `gr` holds.
pub fn prepend_macro_arg_to_group(tokens: Vec<Token>, gr: Group) -> (r: Group)
    ensures
        r@ == splice(stream_view(tokens@), gr@),
{
    let ghost receiver = stream_view(tokens@);
    let mut tokens = tokens;
    let single = tokens.len() == 1 && atom(&tokens[0]);
    proof {
        if tokens.len() >= 1 {
            lemma_stream_view_index(tokens@, 0);
        }
    }
    let first = if single {
        match tokens.pop() {
            Some(t) => t,
            None => Token::Group(
                Group { delimiter: Delimiter::Brace, stream: tokens, span: Span::Synthetic },
            ),
        }
    } else {
        Token::Group(Group { delimiter: Delimiter::Brace, stream: tokens, span: Span::Synthetic })
    };
    assert(first@ == receiver_token(receiver));
    let Group { delimiter, stream, span: _ } = gr;
    let mut rest = stream;
    let ghost args = rest@;
    let mut out: Vec<Token> = Vec::new();
    out.push(first);
    if rest.len() > 0 {
        out.push(Token::Punct { ch: ',', spacing: Spacing::Alone, span: Span::Synthetic });
        out.append(&mut rest);
        proof {
            lemma_stream_view_concat(
                seq![
                    first,
                    Token::Punct { ch: ',', spacing: Spacing::Alone, span: Span::Synthetic },
                ],
                args,
            );
            assert(out@ =~= seq![
                first,
                Token::Punct { ch: ',', spacing: Spacing::Alone, span: Span::Synthetic },
            ] + args);
            assert(stream_view(
                seq![
                    first,
                    Token::Punct { ch: ',', spacing: Spacing::Alone, span: Span::Synthetic },
                ],
            ) =~= seq![receiver_token(receiver), separator()]);
        }
    } else {
        proof {
            assert(stream_view(out@) =~= seq![receiver_token(receiver)]);
            assert(stream_view(args) =~= Seq::<TokenView>::empty());
        }
    }
    Group { delimiter, stream: out, span: Span::Synthetic }
}

} // verus!
