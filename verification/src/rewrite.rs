//! The rewriter: walks a token sequence and turns every postfix macro
//! invocation, `receiver.name!(args)`, into `name!(receiver, args)`.

use vstd::prelude::*;
use crate::error::RewriteError;
use crate::scan::{expression_length, scan};
use crate::splice::{prepend_macro_arg_to_group, splice};
use crate::token::{lemma_stream_view_index, lemma_stream_view_push, lemma_stream_view_subrange};
use crate::token::{Group, GroupView, Spacing, Token, TokenView, stream_view};

verus! {

/// How deeply groups may be nested in what [`postfix_macros`] rewrites.
pub const DEFAULT_DEPTH_LIMIT: usize = 256;

/// `t` is the punctuation character `c`, not fused to what follows it.
pub open spec fn is_lone(t: TokenView, c: char) -> bool {
    t matches TokenView::Punct { ch, spacing, .. } && ch == c && spacing == Spacing::Alone
}

/// `res` ends with the head of a postfix macro invocation: a lone `.`, the
/// macro's name and a lone `!`. A group that follows holds the arguments.
pub open spec fn ends_with_call(res: Seq<TokenView>) -> bool {
    &&& res.len() >= 3
    &&& is_lone(res[res.len() - 3], '.')
    &&& res[res.len() - 2] is Ident
    &&& is_lone(res[res.len() - 1], '!')
}

/// The output `res` with the group `group`, whose contents are rewritten
/// already, put behind it.
///
/// Where `res` does not end with the head of a postfix macro invocation,
/// the group is appended. Where it does, the receiver is what the boundary
/// scanner finds before the `.`; it leaves the output and becomes the
/// group's first argument, and name, `!` and the new group follow what is
/// left. That fails where the scanner fails and where it finds no receiver.
pub open spec fn place_group(res: Seq<TokenView>, group: GroupView) -> Result<
    Seq<TokenView>,
    RewriteError,
> {
    if ends_with_call(res) {
        let before = res.take(res.len() - 3);
        match scan(before) {
            Err(e) => Err(RewriteError::Scan(e)),
            Ok(n) => {
                if n == 0 {
                    Err(RewriteError::EmptyReceiver)
                } else {
                    let cut = before.len() - n;
                    Ok(
                        before.take(cut) + seq![
                            res[res.len() - 2],
                            res[res.len() - 1],
                            TokenView::Group(splice(before.skip(cut), group)),
                        ],
                    )
                }
            },
        }
    } else {
        Ok(res.push(TokenView::Group(group)))
    }
}

/// The group `group` with its contents rewritten, where groups may be
/// nested `depth` deep, this one counted. Brackets and span stay.
pub open spec fn rewrite_group(group: GroupView, depth: nat) -> Result<GroupView, RewriteError>
    decreases depth, 0nat,
{
    if depth == 0 {
        Err(RewriteError::DepthExceeded)
    } else {
        match rewrite_stream(group.stream, (depth - 1) as nat) {
            Err(e) => Err(e),
            Ok(stream) => Ok(
                GroupView { delimiter: group.delimiter, stream, span: group.span },
            ),
        }
    }
}

/// The output `res` with the token `t` worked in: a group is rewritten
/// within and then placed by [`place_group`]; any other token is appended.
pub open spec fn rewrite_token(res: Seq<TokenView>, t: TokenView, depth: nat) -> Result<
    Seq<TokenView>,
    RewriteError,
>
    decreases depth, 1nat,
{
    match t {
        TokenView::Group(g) => match rewrite_group(g, depth) {
            Err(e) => Err(e),
            Ok(rewritten) => place_group(res, rewritten),
        },
        _ => Ok(res.push(t)),
    }
}

/// The sequence `s` with every postfix macro invocation rewritten, where
/// groups may be nested `depth` deep. The tokens are worked in from left to
/// right, so that the receiver of an invocation is found in what the
/// invocations before it have become; the first failure is the result.
pub open spec fn rewrite_stream(s: Seq<TokenView>, depth: nat) -> Result<
    Seq<TokenView>,
    RewriteError,
>
    decreases depth, 2 + s.len(),
{
    if s.len() == 0 {
        Ok(Seq::empty())
    } else {
        match rewrite_stream(s.drop_last(), depth) {
            Err(e) => Err(e),
            Ok(res) => rewrite_token(res, s.last(), depth),
        }
    }
}

/// Whether the token is the punctuation character `c`, not fused to what
/// follows it.
fn lone(t: &Token, c: char) -> (b: bool)
    ensures
        b == is_lone(t@, c),
{
    match t {
        Token::Punct { ch, spacing, .. } => *ch == c && match spacing {
            Spacing::Alone => true,
            Spacing::Joint => false,
        },
        _ => false,
    }
}

/// Whether `res` ends with a lone `.`, an identifier and a lone `!`.
fn call_head(res: &Vec<Token>) -> (b: bool)
    ensures
        b == ends_with_call(stream_view(res@)),
{
    let n = res.len();
    if n < 3 {
        return false;
    }
    proof {
        lemma_stream_view_index(res@, n - 3);
        lemma_stream_view_index(res@, n - 2);
        lemma_stream_view_index(res@, n - 1);
    }
    let named = match &res[n - 2] {
        Token::Ident { .. } => true,
        _ => false,
    };
    lone(&res[n - 3], '.') && named && lone(&res[n - 1], '!')
}

/// Puts `group`, whose contents are rewritten already, behind the output
/// `res`, as the arguments of a postfix macro invocation where `res` ends
/// with the head of one.
fn place(res: &mut Vec<Token>, group: Group) -> (r: Result<(), RewriteError>)
    ensures
        match r {
            Ok(()) => place_group(stream_view(old(res)@), group@) == Ok::<
                Seq<TokenView>,
                RewriteError,
            >(stream_view(final(res)@)),
            Err(e) => place_group(stream_view(old(res)@), group@) == Err::<
                Seq<TokenView>,
                RewriteError,
            >(e),
        },
{
    let ghost before_all = res@;
    if !call_head(res) {
        proof {
            lemma_stream_view_push(res@, Token::Group(group));
        }
        res.push(Token::Group(group));
        return Ok(());
    }
    let len = res.len();
    proof {
        lemma_stream_view_index(before_all, len - 2);
        lemma_stream_view_index(before_all, len - 1);
        lemma_stream_view_subrange(before_all, 0, len - 3);
    }
    let bang = match res.pop() {
        Some(t) => t,
        None => {
            return Err(RewriteError::EmptyReceiver);
        },
    };
    let name = match res.pop() {
        Some(t) => t,
        None => {
            return Err(RewriteError::EmptyReceiver);
        },
    };
    let dot = res.pop();
    assert(res@ =~= before_all.subrange(0, len - 3));
    let n = match expression_length(res.as_slice()) {
        Ok(n) => n,
        Err(e) => {
            return Err(RewriteError::Scan(e));
        },
    };
    if n == 0 {
        return Err(RewriteError::EmptyReceiver);
    }
    let ghost before = res@;
    let cut = res.len() - n;
    let receiver = res.split_off(cut);
    proof {
        lemma_stream_view_subrange(before, 0, cut as int);
        lemma_stream_view_subrange(before, cut as int, before.len() as int);
    }
    let spliced = prepend_macro_arg_to_group(receiver, group);
    let ghost kept = res@;
    res.push(name);
    res.push(bang);
    res.push(Token::Group(spliced));
    proof {
        lemma_stream_view_push(kept, name);
        lemma_stream_view_push(kept.push(name), bang);
        lemma_stream_view_push(kept.push(name).push(bang), Token::Group(spliced));
        assert(stream_view(res@) =~= stream_view(kept) + seq![
            name@,
            bang@,
            TokenView::Group(spliced@),
        ]);
    }
    Ok(())
}

/// Rewrites token sequences, with a limit on how deeply groups may be
/// nested in them.
#[derive(Clone, Copy, Debug)]
pub struct Visitor {
    /// How many groups may stand one inside the other.
    pub depth_limit: usize,
}

impl Visitor {
    /// A visitor that rewrites groups nested up to `depth_limit` deep.
    pub fn new(depth_limit: usize) -> (v: Visitor)
        ensures
            v.depth_limit == depth_limit,
    {
        Visitor { depth_limit }
    }

    /// Rewrites every postfix macro invocation in `stream`, those inside
    /// groups first.
    pub fn visit_stream(&self, stream: Vec<Token>) -> (r: Result<Vec<Token>, RewriteError>)
        ensures
            match r {
                Ok(out) => rewrite_stream(stream_view(stream@), self.depth_limit as nat) == Ok::<
                    Seq<TokenView>,
                    RewriteError,
                >(stream_view(out@)),
                Err(e) => rewrite_stream(stream_view(stream@), self.depth_limit as nat) == Err::<
                    Seq<TokenView>,
                    RewriteError,
                >(e),
            },
        decreases self.depth_limit, 1int,
    {
        let ghost input = stream@;
        let ghost depth = self.depth_limit as nat;
        let mut res: Vec<Token> = Vec::new();
        proof {
            assert(stream_view(input.take(0)) =~= Seq::<TokenView>::empty());
            assert(stream_view(res@) =~= Seq::<TokenView>::empty());
        }
        for tt in it: stream
            invariant
                it.seq() == input,
                depth == self.depth_limit as nat,
                rewrite_stream(stream_view(input.take(it.index() as int)), depth) == Ok::<
                    Seq<TokenView>,
                    RewriteError,
                >(stream_view(res@)),
        {
            let ghost k = it.index() as int;
            let ghost so_far = stream_view(res@);
            proof {
                lemma_stream_view_subrange(input, 0, k + 1);
                lemma_stream_view_subrange(input, 0, k);
                lemma_stream_view_index(input, k);
                assert(input.take(k + 1).drop_last() =~= input.take(k));
                assert(stream_view(input.take(k + 1)).drop_last() =~= stream_view(input.take(k)));
                assert(stream_view(input.take(k + 1)).last() == tt@);
                assert(rewrite_stream(stream_view(input.take(k + 1)), depth) == rewrite_token(
                    so_far,
                    tt@,
                    depth,
                ));
            }
            match tt {
                Token::Group(group) => {
                    let group = match self.visit_group(group) {
                        Ok(g) => g,
                        Err(e) => {
                            proof {
                                lemma_failure_stays(stream_view(input), k + 1, depth);
                            }
                            return Err(e);
                        },
                    };
                    match place(&mut res, group) {
                        Ok(()) => {},
                        Err(e) => {
                            proof {
                                lemma_failure_stays(stream_view(input), k + 1, depth);
                            }
                            return Err(e);
                        },
                    }
                },
                other => {
                    proof {
                        lemma_stream_view_push(res@, other);
                    }
                    res.push(other);
                },
            }
        }
        proof {
            assert(input.take(input.len() as int) =~= input);
        }
        Ok(res)
    }

    /// Rewrites what `group` holds, and keeps its brackets and span.
    pub fn visit_group(&self, group: Group) -> (r: Result<Group, RewriteError>)
        ensures
            match r {
                Ok(out) => rewrite_group(group@, self.depth_limit as nat) == Ok::<
                    GroupView,
                    RewriteError,
                >(out@),
                Err(e) => rewrite_group(group@, self.depth_limit as nat) == Err::<
                    GroupView,
                    RewriteError,
                >(e),
            },
        decreases self.depth_limit, 0int,
    {
        if self.depth_limit == 0 {
            return Err(RewriteError::DepthExceeded);
        }
        let inner = Visitor { depth_limit: self.depth_limit - 1 };
        let Group { delimiter, stream, span } = group;
        match inner.visit_stream(stream) {
            Ok(stream) => Ok(Group { delimiter, stream, span }),
            Err(e) => Err(e),
        }
    }
}

/// Rewriting `s` with `t` behind it is rewriting `s` and then working `t`
/// in.
pub proof fn lemma_rewrite_push(s: Seq<TokenView>, t: TokenView, depth: nat)
    ensures
        rewrite_stream(s.push(t), depth) == match rewrite_stream(s, depth) {
            Err(e) => Err(e),
            Ok(res) => rewrite_token(res, t, depth),
        },
{
    assert(s.push(t).drop_last() =~= s);
    assert(s.push(t).last() == t);
}

/// Once the rewriting of the first `n` tokens of `s` has failed, the
/// rewriting of `s` fails in the same way.
pub proof fn lemma_failure_stays(s: Seq<TokenView>, n: int, depth: nat)
    requires
        0 <= n <= s.len(),
        rewrite_stream(s.take(n), depth) is Err,
    ensures
        rewrite_stream(s, depth) == rewrite_stream(s.take(n), depth),
    decreases s.len() - n,
{
    if n == s.len() {
        assert(s.take(n) =~= s);
    } else {
        assert(s.take(n + 1).drop_last() =~= s.take(n));
        lemma_failure_stays(s, n + 1, depth);
    }
}

/// Rewrites every postfix macro invocation `receiver.name!(args)` in
/// `stream` into `name!(receiver, args)`, in groups nested up to
/// [`DEFAULT_DEPTH_LIMIT`] deep.
pub fn postfix_macros(stream: Vec<Token>) -> (r: Result<Vec<Token>, RewriteError>)
    ensures
        match r {
            Ok(out) => rewrite_stream(stream_view(stream@), DEFAULT_DEPTH_LIMIT as nat) == Ok::<
                Seq<TokenView>,
                RewriteError,
            >(stream_view(out@)),
            Err(e) => rewrite_stream(stream_view(stream@), DEFAULT_DEPTH_LIMIT as nat) == Err::<
                Seq<TokenView>,
                RewriteError,
            >(e),
        },
{
    let vis = Visitor::new(DEFAULT_DEPTH_LIMIT);
    vis.visit_stream(stream)
}

} // verus!
