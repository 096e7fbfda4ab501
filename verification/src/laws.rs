//! What holds of the scanner and of the rewriter on every input.

use vstd::prelude::*;
use crate::error::{RewriteError, ScanError};
use crate::rewrite::{ends_with_call, is_lone, lemma_failure_stays, lemma_rewrite_push};
use crate::rewrite::{place_group, rewrite_group, rewrite_stream};
use crate::scan::{Verdict, is_block, is_ident, punct_verdict, scan, scan_block, scan_expr};
use crate::splice::{is_atom, receiver_token, separator, splice};
use crate::token::{Delimiter, GroupView, Span, TokenView};

verus! {

/// The group at `i` holds the arguments of a postfix macro invocation:
/// before it stand a lone `.`, an identifier and a lone `!`.
pub open spec fn call_at(s: Seq<TokenView>, i: int) -> bool {
    &&& 3 <= i < s.len()
    &&& s[i] is Group
    &&& is_lone(s[i - 3], '.')
    &&& s[i - 2] is Ident
    &&& is_lone(s[i - 1], '!')
}

/// No group in `t`, at any depth, holds a postfix macro invocation.
pub open spec fn token_call_free(t: TokenView) -> bool
    decreases t, 0int,
{
    t matches TokenView::Group(g) ==> call_free(g.stream)
}

/// Neither `s` nor a group in it, at any depth, holds a postfix macro
/// invocation.
pub open spec fn call_free(s: Seq<TokenView>) -> bool
    decreases s, 1int,
{
    forall|i: int|
        #![trigger s[i]]
        0 <= i < s.len() ==> !call_at(s, i) && token_call_free(s[i])
}

/// The groups in `t`, `t` itself counted, are nested at most `depth` deep.
pub open spec fn token_nests_within(t: TokenView, depth: nat) -> bool
    decreases depth, 0int,
{
    t matches TokenView::Group(g) ==> depth > 0 && nests_within(g.stream, (depth - 1) as nat)
}

/// The groups in `s` are nested at most `depth` deep.
pub open spec fn nests_within(s: Seq<TokenView>, depth: nat) -> bool
    decreases depth, 1int,
{
    forall|i: int| 0 <= i < s.len() ==> token_nests_within(#[trigger] s[i], depth)
}

/// The scanner never finds more tokens than there are: counted from
/// `start`, where `start` lies in `s`.
pub proof fn lemma_scan_expr_within(
    s: Seq<TokenView>,
    start: int,
    after_punct: bool,
    after_group: bool,
)
    requires
        0 <= start <= s.len(),
    ensures
        scan_expr(s, start, after_punct, after_group) matches Ok(n) ==> s.len() - start <= n
            <= s.len(),
    decreases s.len(), start, 1int,
{
    if start > 0 {
        match s[start - 1] {
            TokenView::Literal { .. } => {
                lemma_scan_expr_within(s, start - 1, false, false);
            },
            TokenView::Ident { .. } => {
                lemma_scan_expr_within(s, start - 1, false, false);
            },
            TokenView::Punct { .. } => {
                lemma_scan_expr_within(s, start - 1, true, false);
            },
            TokenView::Group(g) => {
                lemma_scan_expr_within(s, start - 1, false, true);
                lemma_scan_block_within(s, start - 1);
            },
        }
    }
}

/// The scanner never finds more tokens than there are: counted from a
/// brace group in `s`.
pub proof fn lemma_scan_block_within(s: Seq<TokenView>, brace: int)
    requires
        0 <= brace < s.len(),
    ensures
        scan_block(s, brace) matches Ok(n) ==> s.len() - brace <= n <= s.len(),
    decreases s.len(), brace + 1, 0int,
{
    if brace > 0 {
        if brace >= 2 {
            lemma_scan_block_within(s, brace - 2);
        }
        lemma_scan_expr_within(s, brace, false, true);
        lemma_scan_expr_within(s.take(brace), brace, true, true);
        match scan_expr(s.take(brace), brace, true, true) {
            Ok(m) => {
                let c = brace - m;
                if c >= 3 {
                    lemma_scan_block_within(s, c - 3);
                }
            },
            Err(_) => {},
        }
    }
}

/// The expression that the scanner finds at the end of `s` lies within
/// `s`: its length is at most that of `s`.
pub proof fn lemma_scan_within(s: Seq<TokenView>)
    ensures
        scan(s) matches Ok(n) ==> n <= s.len(),
{
    lemma_scan_expr_within(s, s.len() as int, true, true);
}

/// Behind an identifier, a literal or a group the scanner finds a
/// receiver or fails: it finds none only at the start of the sequence and
/// behind punctuation.
pub proof fn lemma_scan_finds_receiver(s: Seq<TokenView>)
    requires
        s.len() > 0,
        !(s.last() is Punct),
    ensures
        scan(s) matches Ok(n) ==> 1 <= n <= s.len(),
{
    let n = s.len() as int;
    lemma_scan_expr_within(s, n, true, true);
    lemma_scan_expr_within(s, n - 1, false, false);
    lemma_scan_expr_within(s, n - 1, false, true);
    lemma_scan_block_within(s, n - 1);
}

/// `t` is one of `&`, `*` and `-`.
pub open spec fn is_operator(t: TokenView) -> bool {
    t matches TokenView::Punct { ch, .. } && (ch == '&' || ch == '*' || ch == '-')
}

/// `t` is a literal or a group in parentheses or brackets: a token that
/// ends an operand, so that one of `&`, `*` and `-` behind it is an infix
/// operator.
pub open spec fn ends_operand(t: TokenView) -> bool {
    ||| t is Literal
    ||| t matches TokenView::Group(g) && (g.delimiter == Delimiter::Parenthesis || g.delimiter
        == Delimiter::Bracket)
}

/// An infix operator and its left operand are no part of the receiver:
/// where `s` ends with the end of an operand, one of `&`, `*` and `-`, and a
/// single identifier or literal, the receiver is that last token alone.
pub proof fn lemma_infix_operator_excluded(s: Seq<TokenView>)
    requires
        s.len() >= 3,
        ends_operand(s[s.len() - 3]),
        is_operator(s[s.len() - 2]),
        is_atom(s[s.len() - 1]),
    ensures
        scan(s) == Ok::<nat, ScanError>(1),
{
    let n = s.len() as int;
    assert(scan_expr(s, n, true, true) == scan_expr(s, n - 1, false, false));
    assert(punct_verdict(s, n - 2, false) == Verdict::Stop);
}

/// An `if` with an `else` belongs to the receiver as a whole: where `s`
/// ends with `if`, a condition of one identifier or literal, a brace group,
/// `else` and a brace group, and the `if` does not itself follow an `else`,
/// the receiver is those five tokens.
pub proof fn lemma_if_else_is_receiver(s: Seq<TokenView>)
    requires
        s.len() >= 5,
        is_ident(s[s.len() - 5], "if"@),
        is_atom(s[s.len() - 4]),
        !is_ident(s[s.len() - 4], "else"@),
        is_block(s[s.len() - 3]),
        is_ident(s[s.len() - 2], "else"@),
        is_block(s[s.len() - 1]),
        s.len() >= 6 ==> !is_ident(s[s.len() - 6], "else"@),
    ensures
        scan(s) == Ok::<nat, ScanError>(5),
{
    reveal_strlit("if");
    reveal_strlit("mut");
    reveal_strlit("else");
    let n = s.len() as int;
    let condition = s.take(n - 3);
    assert("if"@.len() != "mut"@.len());
    assert("if"@.len() != "else"@.len());
    assert(condition[n - 4] == s[n - 4]);
    assert(condition[n - 5] == s[n - 5]);
    assert(scan_expr(condition, n - 3, true, true) == scan_expr(condition, n - 4, false, false));
    assert(scan_expr(condition, n - 4, false, false) == Ok::<nat, ScanError>(1));
    assert(scan_block(s, n - 3) == Ok::<nat, ScanError>(5));
    assert(scan_block(s, n - 1) == scan_block(s, n - 3));
}

/// A receiver that is not a single identifier or literal reaches the
/// macro as one token: a brace group that holds the receiver, first in the
/// argument list.
pub proof fn lemma_compound_receiver_wrapped(receiver: Seq<TokenView>, group: GroupView)
    requires
        receiver.len() != 1 || !is_atom(receiver[0]),
    ensures
        splice(receiver, group).stream[0] == TokenView::Group(
            GroupView { delimiter: Delimiter::Brace, stream: receiver, span: Span::Synthetic },
        ),
        splice(receiver, group).delimiter == group.delimiter,
        splice(receiver, group).stream.skip(if group.stream.len() == 0 {
            1
        } else {
            2
        }) == group.stream,
{
    if group.stream.len() == 0 {
        assert(splice(receiver, group).stream.skip(1) =~= group.stream);
    } else {
        assert(splice(receiver, group).stream.skip(2) =~= group.stream);
    }
}

/// A sequence that holds no postfix macro invocation, at any depth, and
/// whose groups are nested no deeper than the limit, is rewritten to itself,
/// token for token.
pub proof fn lemma_call_free_unchanged(s: Seq<TokenView>, depth: nat)
    requires
        call_free(s),
        nests_within(s, depth),
    ensures
        rewrite_stream(s, depth) == Ok::<Seq<TokenView>, RewriteError>(s),
    decreases depth, s.len(),
{
    if s.len() == 0 {
        assert(s =~= Seq::<TokenView>::empty());
    } else {
        let front = s.drop_last();
        let i = s.len() - 1;
        assert forall|j: int| 0 <= j < front.len() implies !call_at(front, j) && token_call_free(
            #[trigger] front[j],
        ) by {
            assert(!call_at(s, j) && token_call_free(s[j]));
            assert(front[j] == s[j]);
        }
        assert forall|j: int| 0 <= j < front.len() implies token_nests_within(
            #[trigger] front[j],
            depth,
        ) by {
            assert(token_nests_within(s[j], depth));
            assert(front[j] == s[j]);
        }
        lemma_call_free_unchanged(front, depth);
        lemma_rewrite_push(front, s[i], depth);
        assert(front.push(s[i]) =~= s);
        assert(!call_at(s, i) && token_call_free(s[i]));
        assert(token_nests_within(s[i], depth));
        match s[i] {
            TokenView::Group(g) => {
                lemma_call_free_unchanged(g.stream, (depth - 1) as nat);
                assert(rewrite_group(g, depth) == Ok::<GroupView, RewriteError>(g));
                if front.len() >= 3 {
                    assert(front[front.len() - 3] == s[i - 3]);
                    assert(front[front.len() - 2] == s[i - 2]);
                    assert(front[front.len() - 1] == s[i - 1]);
                }
                assert(!ends_with_call(front));
                assert(place_group(front, g) == Ok::<Seq<TokenView>, RewriteError>(s));
            },
            _ => {},
        }
    }
}

/// Where the receiver is a single identifier or literal `x`, the
/// invocation `x.name!(args)` becomes `name!(x, args)`, and `x.name!()`
/// becomes `name!(x)` with no comma: the output is the name, the `!`, and the
/// argument group with `x` and, where it holds anything, a comma before its
/// rewritten contents.
pub proof fn lemma_atom_receiver(
    x: TokenView,
    dot: TokenView,
    name: TokenView,
    bang: TokenView,
    args: GroupView,
    rewritten: GroupView,
    depth: nat,
)
    requires
        is_atom(x),
        is_lone(dot, '.'),
        name is Ident,
        is_lone(bang, '!'),
        rewrite_group(args, depth) == Ok::<GroupView, RewriteError>(rewritten),
    ensures
        rewrite_stream(seq![x, dot, name, bang, TokenView::Group(args)], depth) == Ok::<
            Seq<TokenView>,
            RewriteError,
        >(
            seq![
                name,
                bang,
                TokenView::Group(
                    GroupView {
                        delimiter: args.delimiter,
                        stream: if rewritten.stream.len() == 0 {
                            seq![x]
                        } else {
                            seq![x, separator()] + rewritten.stream
                        },
                        span: Span::Synthetic,
                    },
                ),
            ],
        ),
{
    let s0 = Seq::<TokenView>::empty();
    let s1 = s0.push(x);
    let s2 = s1.push(dot);
    let s3 = s2.push(name);
    let s4 = s3.push(bang);
    lemma_rewrite_push(s0, x, depth);
    lemma_rewrite_push(s1, dot, depth);
    lemma_rewrite_push(s2, name, depth);
    lemma_rewrite_push(s3, bang, depth);
    lemma_rewrite_push(s4, TokenView::Group(args), depth);
    assert(s4.push(TokenView::Group(args)) =~= seq![x, dot, name, bang, TokenView::Group(args)]);
    assert(ends_with_call(s4));
    let before = s4.take(s4.len() - 3);
    assert(before =~= seq![x]);
    assert(scan_expr(before, 0, false, false) == Ok::<nat, ScanError>(1));
    assert(scan(before) == Ok::<nat, ScanError>(1));
    assert(before.take(0) =~= Seq::<TokenView>::empty());
    assert(before.skip(0) =~= before);
    assert(receiver_token(before) == x);
    assert(before.take(0) + seq![name, bang, TokenView::Group(splice(before, rewritten))] =~= seq![
        name,
        bang,
        TokenView::Group(splice(before, rewritten)),
    ]);
}

/// Invocations in a chain are rewritten from the inside out: in
/// `x.inner!(..).outer!(..)` the receiver of `outer` is the rewritten
/// `inner!(x, ..)`, so that the result is `outer!({ inner!(x, ..) }, ..)`.
pub proof fn lemma_chained_calls(
    x: TokenView,
    dot: TokenView,
    inner: TokenView,
    bang: TokenView,
    inner_args: GroupView,
    inner_rewritten: GroupView,
    outer_dot: TokenView,
    outer: TokenView,
    outer_bang: TokenView,
    outer_args: GroupView,
    outer_rewritten: GroupView,
    depth: nat,
)
    requires
        is_atom(x),
        is_lone(dot, '.'),
        inner is Ident,
        is_lone(bang, '!'),
        inner_args.delimiter != Delimiter::Undelimited,
        rewrite_group(inner_args, depth) == Ok::<GroupView, RewriteError>(inner_rewritten),
        is_lone(outer_dot, '.'),
        outer is Ident,
        is_lone(outer_bang, '!'),
        rewrite_group(outer_args, depth) == Ok::<GroupView, RewriteError>(outer_rewritten),
    ensures
        rewrite_stream(
            seq![
                x,
                dot,
                inner,
                bang,
                TokenView::Group(inner_args),
                outer_dot,
                outer,
                outer_bang,
                TokenView::Group(outer_args),
            ],
            depth,
        ) == Ok::<Seq<TokenView>, RewriteError>(
            seq![
                outer,
                outer_bang,
                TokenView::Group(
                    splice(
                        seq![inner, bang, TokenView::Group(splice(seq![x], inner_rewritten))],
                        outer_rewritten,
                    ),
                ),
            ],
        ),
{
    let first = seq![x, dot, inner, bang, TokenView::Group(inner_args)];
    let spliced = TokenView::Group(splice(seq![x], inner_rewritten));
    let r0 = seq![inner, bang, spliced];
    lemma_atom_receiver(x, dot, inner, bang, inner_args, inner_rewritten, depth);
    assert(splice(seq![x], inner_rewritten).stream =~= if inner_rewritten.stream.len() == 0 {
        seq![x]
    } else {
        seq![x, separator()] + inner_rewritten.stream
    });
    assert(rewrite_stream(first, depth) == Ok::<Seq<TokenView>, RewriteError>(r0));
    let s1 = first.push(outer_dot);
    let s2 = s1.push(outer);
    let s3 = s2.push(outer_bang);
    let s4 = s3.push(TokenView::Group(outer_args));
    lemma_rewrite_push(first, outer_dot, depth);
    lemma_rewrite_push(s1, outer, depth);
    lemma_rewrite_push(s2, outer_bang, depth);
    lemma_rewrite_push(s3, TokenView::Group(outer_args), depth);
    assert(s4 =~= seq![
        x,
        dot,
        inner,
        bang,
        TokenView::Group(inner_args),
        outer_dot,
        outer,
        outer_bang,
        TokenView::Group(outer_args),
    ]);
    let res = r0.push(outer_dot).push(outer).push(outer_bang);
    assert(ends_with_call(res));
    let before = res.take(res.len() - 3);
    assert(before =~= r0);
    assert(inner_rewritten.delimiter == inner_args.delimiter);
    assert(punct_verdict(r0, 1, false) == Verdict::Take);
    assert(scan_expr(r0, 0, false, false) == Ok::<nat, ScanError>(3));
    assert(scan_expr(r0, 1, true, false) == Ok::<nat, ScanError>(3));
    assert(scan_expr(r0, 2, false, true) == Ok::<nat, ScanError>(3));
    assert(scan_block(r0, 2) == Ok::<nat, ScanError>(3));
    assert(scan(r0) == Ok::<nat, ScanError>(3));
    assert(r0.take(0) =~= Seq::<TokenView>::empty());
    assert(r0.skip(0) =~= r0);
    assert(r0.take(0) + seq![outer, outer_bang, TokenView::Group(splice(r0, outer_rewritten))]
        =~= seq![outer, outer_bang, TokenView::Group(splice(r0, outer_rewritten))]);
}

/// A postfix macro invocation with nothing before it, `.name!(args)` at
/// the start of a sequence, is never rewritten: once the arguments are
/// rewritten, the rewriting fails for want of a receiver, whatever follows.
pub proof fn lemma_leading_call_fails(s: Seq<TokenView>, depth: nat)
    requires
        call_at(s, 3),
        rewrite_group(s[3]->0, depth) is Ok,
    ensures
        rewrite_stream(s, depth) == Err::<Seq<TokenView>, RewriteError>(
            RewriteError::EmptyReceiver,
        ),
{
    let s0 = Seq::<TokenView>::empty();
    let s1 = s0.push(s[0]);
    let s2 = s1.push(s[1]);
    let s3 = s2.push(s[2]);
    lemma_rewrite_push(s0, s[0], depth);
    lemma_rewrite_push(s1, s[1], depth);
    lemma_rewrite_push(s2, s[2], depth);
    lemma_rewrite_push(s3, s[3], depth);
    assert(s3.push(s[3]) =~= s.take(4));
    assert(ends_with_call(s3));
    assert(s3.take(0) =~= Seq::<TokenView>::empty());
    assert(scan(s3.take(0)) == Ok::<nat, ScanError>(0));
    lemma_failure_stays(s, 4, depth);
}

} // verus!
