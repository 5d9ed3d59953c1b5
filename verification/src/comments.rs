//! What resolving comments means: from the IDs of a story's or a comment's
//! kids to the ordered trees of resolved comments.
//!
//! Resolution descends depth first, keeps the kids' order, and is all or
//! nothing: the first failure is the result of the whole, be it a failed
//! fetch, an item that is no comment, or a reply nested more deeply than the
//! cap.

use crate::error::{GatewayError, ResolveError};
use crate::gateway::{faithful, ItemView, World};
use crate::types::CommentView;
use vstd::prelude::*;

verus! {

/// The resolved forms of `ids`, in order, where replies may nest
/// `depth_left` levels deep counting the level of `ids` itself. The first
/// failure in depth-first order is the error of the whole.
pub open spec fn resolved_comments(world: World, ids: Seq<i64>, depth_left: nat) -> Result<
    Seq<CommentView>,
    ResolveError,
>
    decreases depth_left, ids.len() + 1,
{
    if ids.len() == 0 {
        Ok(Seq::empty())
    } else if depth_left == 0 {
        Err(ResolveError::DepthExceeded)
    } else {
        match resolved_comment(world, ids[0], depth_left) {
            Err(e) => Err(e),
            Ok(first) => match resolved_comments(world, ids.drop_first(), depth_left) {
                Err(e) => Err(e),
                Ok(rest) => Ok(seq![first] + rest),
            },
        }
    }
}

/// The resolved form of the comment `id`: the fetched comment with the
/// resolved forms of its kids as replies.
pub open spec fn resolved_comment(world: World, id: i64, depth_left: nat) -> Result<
    CommentView,
    ResolveError,
>
    decreases depth_left, 0nat,
{
    if depth_left == 0 {
        Err(ResolveError::DepthExceeded)
    } else {
        match world(id) {
            Err(e) => Err(ResolveError::of_gateway(e)),
            Ok(ItemView::Story(_)) => Err(ResolveError::DecodeError),
            Ok(ItemView::Comment(c)) => match resolved_comments(
                world,
                c.kids,
                (depth_left - 1) as nat,
            ) {
                Err(e) => Err(e),
                Ok(replies) => Ok(c.with_replies(replies)),
            },
        }
    }
}

/// Resolving the IDs from position `k` on means resolving `ids[k]`, then the
/// IDs after it.
pub proof fn lemma_resolved_comments_from(world: World, ids: Seq<i64>, k: int, depth_left: nat)
    requires
        0 <= k < ids.len(),
        depth_left > 0,
    ensures
        resolved_comments(world, ids.skip(k), depth_left) == (match resolved_comment(
            world,
            ids[k],
            depth_left,
        ) {
            Err(e) => Err(e),
            Ok(first) => match resolved_comments(world, ids.skip(k + 1), depth_left) {
                Err(e) => Err(e),
                Ok(rest) => Ok(seq![first] + rest),
            },
        }),
{
    assert(ids.skip(k).drop_first() =~= ids.skip(k + 1));
    assert(ids.skip(k)[0] == ids[k]);
}

/// Whether every comment below `ids` can be had: each fetch gives a
/// comment, and none lies deeper than `depth_left` levels.
pub open spec fn comments_available(world: World, ids: Seq<i64>, depth_left: nat) -> bool
    decreases depth_left, 1nat,
{
    ids.len() > 0 ==> depth_left > 0 && forall|i: int|
        0 <= i < ids.len() ==> comment_available(world, #[trigger] ids[i], depth_left)
}

/// Whether the comment `id` and every comment below it can be had.
pub open spec fn comment_available(world: World, id: i64, depth_left: nat) -> bool
    decreases depth_left, 0nat,
{
    depth_left > 0 && match world(id) {
        Ok(ItemView::Comment(c)) => comments_available(world, c.kids, (depth_left - 1) as nat),
        _ => false,
    }
}

/// Resolution is all or nothing: it succeeds exactly if every comment of
/// the tree can be had. One failure anywhere in the tree fails the whole.
pub proof fn lemma_resolved_iff_available(world: World, ids: Seq<i64>, depth_left: nat)
    ensures
        resolved_comments(world, ids, depth_left) is Ok <==> comments_available(
            world,
            ids,
            depth_left,
        ),
    decreases depth_left, ids.len() + 1,
{
    if ids.len() > 0 && depth_left > 0 {
        let rest = ids.drop_first();
        lemma_resolved_comment_iff_available(world, ids[0], depth_left);
        lemma_resolved_iff_available(world, rest, depth_left);
        if comments_available(world, ids, depth_left) {
            assert forall|i: int| 0 <= i < rest.len() implies comment_available(
                world,
                #[trigger] rest[i],
                depth_left,
            ) by {
                assert(rest[i] == ids[i + 1]);
            }
        }
        if comment_available(world, ids[0], depth_left) && comments_available(
            world,
            rest,
            depth_left,
        ) {
            assert forall|i: int| 0 <= i < ids.len() implies comment_available(
                world,
                #[trigger] ids[i],
                depth_left,
            ) by {
                if i > 0 {
                    assert(ids[i] == rest[i - 1]);
                }
            }
        }
    }
}

/// A comment resolves exactly if it and every comment below it can be had.
pub proof fn lemma_resolved_comment_iff_available(world: World, id: i64, depth_left: nat)
    ensures
        resolved_comment(world, id, depth_left) is Ok <==> comment_available(
            world,
            id,
            depth_left,
        ),
    decreases depth_left, 0nat,
{
    if depth_left > 0 {
        if let Ok(ItemView::Comment(c)) = world(id) {
            lemma_resolved_iff_available(world, c.kids, (depth_left - 1) as nat);
        }
    }
}

/// Order is kept: the resolved comments are exactly the resolved forms of
/// the IDs, position by position.
pub proof fn lemma_resolved_comments_positions(
    world: World,
    ids: Seq<i64>,
    depth_left: nat,
    cs: Seq<CommentView>,
)
    ensures
        resolved_comments(world, ids, depth_left) == Ok::<Seq<CommentView>, ResolveError>(cs) <==> {
            &&& cs.len() == ids.len()
            &&& forall|i: int|
                0 <= i < ids.len() ==> resolved_comment(world, #[trigger] ids[i], depth_left)
                    == Ok::<CommentView, ResolveError>(cs[i])
        },
    decreases ids.len(),
{
    let paired = forall|i: int|
        0 <= i < ids.len() ==> resolved_comment(world, #[trigger] ids[i], depth_left) == Ok::<
            CommentView,
            ResolveError,
        >(cs[i]);
    if ids.len() == 0 {
        assert(cs.len() == 0 ==> cs =~= Seq::empty());
    } else if depth_left == 0 {
        if cs.len() == ids.len() && paired {
            assert(resolved_comment(world, ids[0], depth_left) is Err);
        }
    } else {
        let rest = ids.drop_first();
        if cs.len() == ids.len() {
            let tail = cs.drop_first();
            lemma_resolved_comments_positions(world, rest, depth_left, tail);
            if resolved_comments(world, ids, depth_left) == Ok::<Seq<CommentView>, ResolveError>(
                cs,
            ) {
                let first = resolved_comment(world, ids[0], depth_left)->Ok_0;
                let others = resolved_comments(world, rest, depth_left)->Ok_0;
                assert(cs == seq![first] + others);
                assert(tail =~= others);
                assert forall|i: int| 0 <= i < ids.len() implies resolved_comment(
                    world,
                    #[trigger] ids[i],
                    depth_left,
                ) == Ok::<CommentView, ResolveError>(cs[i]) by {
                    if i > 0 {
                        assert(ids[i] == rest[i - 1]);
                        assert(cs[i] == tail[i - 1]);
                    }
                }
            }
            if paired {
                assert forall|i: int| 0 <= i < rest.len() implies resolved_comment(
                    world,
                    #[trigger] rest[i],
                    depth_left,
                ) == Ok::<CommentView, ResolveError>(tail[i]) by {
                    assert(rest[i] == ids[i + 1]);
                    assert(tail[i] == cs[i + 1]);
                }
                assert(resolved_comment(world, ids[0], depth_left) == Ok::<
                    CommentView,
                    ResolveError,
                >(cs[0]));
                assert(seq![cs[0]] + tail =~= cs);
            }
        } else {
            if let Ok(first) = resolved_comment(world, ids[0], depth_left) {
                if let Ok(others) = resolved_comments(world, rest, depth_left) {
                    lemma_resolved_comments_positions(world, rest, depth_left, others);
                }
            }
        }
    }
}

/// The first failure is the failure of the whole: where `ids[k]` is the
/// first ID that does not resolve, resolving `ids` ends in its error.
pub proof fn lemma_first_failure(world: World, ids: Seq<i64>, depth_left: nat, k: int)
    requires
        0 <= k < ids.len(),
        forall|i: int| 0 <= i < k ==> resolved_comment(world, #[trigger] ids[i], depth_left) is Ok,
        resolved_comment(world, ids[k], depth_left) is Err,
    ensures
        resolved_comments(world, ids, depth_left) == Err::<Seq<CommentView>, ResolveError>(
            resolved_comment(world, ids[k], depth_left)->Err_0,
        ),
    decreases k,
{
    if depth_left == 0 {
    } else if k > 0 {
        let rest = ids.drop_first();
        assert(resolved_comment(world, ids[0], depth_left) is Ok);
        assert forall|i: int| 0 <= i < k - 1 implies resolved_comment(
            world,
            #[trigger] rest[i],
            depth_left,
        ) is Ok by {
            assert(rest[i] == ids[i + 1]);
        }
        assert(rest[k - 1] == ids[k]);
        lemma_first_failure(world, rest, depth_left, k - 1);
    }
}

/// A comment that names itself among its kids never resolves, whatever the
/// cap: the depth guard ends what would otherwise go round for ever.
pub proof fn lemma_self_reference_fails(world: World, id: i64, depth_left: nat, k: int)
    requires
        world(id) matches Ok(ItemView::Comment(c)) && 0 <= k < c.kids.len() && c.kids[k] == id,
    ensures
        resolved_comment(world, id, depth_left) is Err,
    decreases depth_left,
{
    if depth_left > 0 {
        let c = world(id)->Ok_0->Comment_0;
        let below = (depth_left - 1) as nat;
        lemma_self_reference_fails(world, id, below, k);
        if let Ok(replies) = resolved_comments(world, c.kids, below) {
            lemma_resolved_comments_positions(world, c.kids, below, replies);
            assert(resolved_comment(world, c.kids[k], below) is Ok);
        }
    }
}

/// A resolved comment is the fetched comment, and its replies are the
/// resolved forms of its kids.
pub proof fn lemma_resolved_comment_replies(world: World, id: i64, depth_left: nat, c: CommentView)
    requires
        resolved_comment(world, id, depth_left) == Ok::<CommentView, ResolveError>(c),
    ensures
        depth_left > 0,
        world(id) matches Ok(ItemView::Comment(fetched)) && c == fetched.with_replies(
            c.sub_comments,
        ),
        resolved_comments(world, c.kids, (depth_left - 1) as nat) == Ok::<
            Seq<CommentView>,
            ResolveError,
        >(c.sub_comments),
        c.sub_comments.len() == c.kids.len(),
{
    lemma_resolved_comments_positions(world, c.kids, (depth_left - 1) as nat, c.sub_comments);
}

/// No kids resolve to no comments, whatever the cap: that is no error.
pub proof fn lemma_no_kids_no_comments(world: World, depth_left: nat)
    ensures
        resolved_comments(world, Seq::empty(), depth_left) == Ok::<Seq<CommentView>, ResolveError>(
            Seq::empty(),
        ),
{
}

/// A comment without kids resolves to itself without replies.
pub proof fn lemma_leaf_resolves(world: World, id: i64, depth_left: nat, c: CommentView)
    requires
        depth_left > 0,
        world(id) == Ok::<ItemView, GatewayError>(ItemView::Comment(c)),
        c.kids.len() == 0,
    ensures
        resolved_comment(world, id, depth_left) == Ok::<CommentView, ResolveError>(
            c.with_replies(Seq::empty()),
        ),
{
}

/// Whether, in `c` and in every comment below it, the replies stand for the
/// kids position by position: as many, and each under the ID of its kid.
pub open spec fn replies_mirror_kids(c: CommentView) -> bool
    decreases c,
{
    &&& c.sub_comments.len() == c.kids.len()
    &&& forall|i: int|
        0 <= i < c.sub_comments.len() ==> (#[trigger] c.sub_comments[i]).id == c.kids[i]
            && replies_mirror_kids(c.sub_comments[i])
}

/// Where every fetched item carries the ID it was asked for, a resolved
/// comment carries its ID, and so does every reply at every depth.
pub proof fn lemma_resolved_comment_mirrors(world: World, id: i64, depth_left: nat, c: CommentView)
    requires
        faithful(world),
        resolved_comment(world, id, depth_left) == Ok::<CommentView, ResolveError>(c),
    ensures
        c.id == id,
        replies_mirror_kids(c),
    decreases depth_left,
{
    lemma_resolved_comment_replies(world, id, depth_left, c);
    lemma_resolved_comments_positions(world, c.kids, (depth_left - 1) as nat, c.sub_comments);
    assert(world(id) is Ok);
    assert forall|i: int| 0 <= i < c.sub_comments.len() implies (#[trigger] c.sub_comments[i]).id
        == c.kids[i] && replies_mirror_kids(c.sub_comments[i]) by {
        assert(resolved_comment(world, c.kids[i], (depth_left - 1) as nat) == Ok::<
            CommentView,
            ResolveError,
        >(c.sub_comments[i]));
        lemma_resolved_comment_mirrors(
            world,
            c.kids[i],
            (depth_left - 1) as nat,
            c.sub_comments[i],
        );
    }
}

/// Whether `c` and its replies nest at most `depth` levels deep.
pub open spec fn within_depth(c: CommentView, depth: nat) -> bool
    decreases depth,
{
    depth > 0 && forall|i: int|
        0 <= i < c.sub_comments.len() ==> within_depth(
            #[trigger] c.sub_comments[i],
            (depth - 1) as nat,
        )
}

/// Whether each of `cs` nests at most `depth` levels deep.
pub open spec fn all_within_depth(cs: Seq<CommentView>, depth: nat) -> bool {
    forall|i: int| 0 <= i < cs.len() ==> within_depth(#[trigger] cs[i], depth)
}

/// The depth guard holds: what resolves never nests more deeply than the cap.
pub proof fn lemma_resolved_within_cap(
    world: World,
    ids: Seq<i64>,
    depth_left: nat,
    cs: Seq<CommentView>,
)
    requires
        resolved_comments(world, ids, depth_left) == Ok::<Seq<CommentView>, ResolveError>(cs),
    ensures
        all_within_depth(cs, depth_left),
    decreases depth_left,
{
    lemma_resolved_comments_positions(world, ids, depth_left, cs);
    assert forall|i: int| 0 <= i < cs.len() implies within_depth(#[trigger] cs[i], depth_left) by {
        let c = cs[i];
        assert(resolved_comment(world, ids[i], depth_left) == Ok::<CommentView, ResolveError>(c));
        lemma_resolved_comment_replies(world, ids[i], depth_left, c);
        lemma_resolved_within_cap(world, c.kids, (depth_left - 1) as nat, c.sub_comments);
    }
}

/// Lowering the cap changes nothing or ends in `DepthExceeded`: where the
/// tree resolves under the cap `high`, it resolves to the same comments under
/// a lower cap, or the lower cap is exceeded.
pub proof fn lemma_lower_cap(world: World, ids: Seq<i64>, low: nat, high: nat)
    requires
        low <= high,
        resolved_comments(world, ids, high) is Ok,
    ensures
        resolved_comments(world, ids, low) == resolved_comments(world, ids, high)
            || resolved_comments(world, ids, low) == Err::<Seq<CommentView>, ResolveError>(
            ResolveError::DepthExceeded,
        ),
    decreases low, ids.len(),
{
    if ids.len() > 0 && low > 0 {
        assert(resolved_comment(world, ids[0], high) is Ok);
        assert(resolved_comments(world, ids.drop_first(), high) is Ok);
        lemma_lower_cap(world, ids.drop_first(), low, high);
        if let Ok(ItemView::Comment(c)) = world(ids[0]) {
            let below_low = resolved_comments(world, c.kids, (low - 1) as nat);
            let below_high = resolved_comments(world, c.kids, (high - 1) as nat);
            assert(below_high is Ok);
            lemma_lower_cap(world, c.kids, (low - 1) as nat, (high - 1) as nat);
            if below_low == below_high {
                assert(resolved_comment(world, ids[0], low) == resolved_comment(
                    world,
                    ids[0],
                    high,
                ));
            } else {
                assert(resolved_comment(world, ids[0], low) == Err::<CommentView, ResolveError>(
                    ResolveError::DepthExceeded,
                ));
            }
        }
    }
}

/// The depth guard trips: a tree that nests more deeply than the cap does
/// not resolve under it, and the error is `DepthExceeded`.
pub proof fn lemma_deeper_than_cap(
    world: World,
    ids: Seq<i64>,
    cap: nat,
    high: nat,
    cs: Seq<CommentView>,
)
    requires
        cap <= high,
        resolved_comments(world, ids, high) == Ok::<Seq<CommentView>, ResolveError>(cs),
        !all_within_depth(cs, cap),
    ensures
        resolved_comments(world, ids, cap) == Err::<Seq<CommentView>, ResolveError>(
            ResolveError::DepthExceeded,
        ),
{
    lemma_lower_cap(world, ids, cap, high);
    if resolved_comments(world, ids, cap) is Ok {
        lemma_resolved_within_cap(world, ids, cap, cs);
    }
}

/// How many fetches the resolution of `ids` takes, up to and including
/// the one that fails it, if any does.
pub open spec fn fetches_for(world: World, ids: Seq<i64>, depth_left: nat) -> nat
    decreases depth_left, ids.len() + 1,
{
    if ids.len() == 0 || depth_left == 0 {
        0
    } else if resolved_comment(world, ids[0], depth_left) is Ok {
        fetches_for_one(world, ids[0], depth_left) + fetches_for(
            world,
            ids.drop_first(),
            depth_left,
        )
    } else {
        fetches_for_one(world, ids[0], depth_left)
    }
}

/// How many fetches the resolution of the comment `id` takes: its own and
/// those of the comments below it.
pub open spec fn fetches_for_one(world: World, id: i64, depth_left: nat) -> nat
    decreases depth_left, 0nat,
{
    if depth_left == 0 {
        0
    } else {
        match world(id) {
            Ok(ItemView::Comment(c)) => 1 + fetches_for(world, c.kids, (depth_left - 1) as nat),
            _ => 1,
        }
    }
}

/// The fetches for the IDs from position `k` on are those for `ids[k]` and,
/// if it resolves, those for the IDs after it.
pub proof fn lemma_fetches_from(world: World, ids: Seq<i64>, k: int, depth_left: nat)
    requires
        0 <= k < ids.len(),
        depth_left > 0,
    ensures
        fetches_for(world, ids.skip(k), depth_left) == fetches_for_one(world, ids[k], depth_left)
            + (if resolved_comment(world, ids[k], depth_left) is Ok {
            fetches_for(world, ids.skip(k + 1), depth_left)
        } else {
            0
        }),
{
    assert(ids.skip(k).drop_first() =~= ids.skip(k + 1));
    assert(ids.skip(k)[0] == ids[k]);
}

} // verus!
