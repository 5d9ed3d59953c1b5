//! The comment tree resolver as a mathematical object.
//!
//! The resolver never calls the gateway. It is a state machine that names the
//! one ID it waits for and takes the answer to that fetch; whoever owns the
//! gateway performs the fetch. Its state is an explicit stack of the comments
//! whose replies are being resolved, and the height of the stack is the depth
//! counter that the cap is held against.

use crate::comments::{
    fetches_for, fetches_for_one, lemma_fetches_from, lemma_resolved_comments_from,
    resolved_comment, resolved_comments,
};
use crate::error::{GatewayError, ResolveError};
use crate::gateway::{ItemView, World};
use crate::types::CommentView;
use vstd::prelude::*;

verus! {

/// A comment whose replies are being resolved.
pub struct OpenNode {
    /// The comment as it was fetched.
    pub node: CommentView,
    /// The resolved forms of the first kids of `node`.
    pub done: Seq<CommentView>,
}

/// Mathematical value of a resolver that waits for a fetch.
pub struct TreeModel {
    /// The IDs to resolve.
    pub roots: Seq<i64>,
    /// The resolved forms of the first of `roots`.
    pub done: Seq<CommentView>,
    /// The comments on the path from a root to the awaited comment's parent.
    pub open: Seq<OpenNode>,
    /// How many levels deep comments may nest.
    pub max_depth: nat,
}

/// Mathematical value of what a resolver hands back.
pub enum TreeOutcome {
    /// One more fetch is needed.
    Fetch(TreeModel),
    /// All comments are resolved.
    Done(Seq<CommentView>),
    /// The resolution failed as a whole.
    Failed(ResolveError),
}

impl TreeModel {
    /// Every list that is being filled still lacks a comment, and the
    /// awaited comment lies within the cap.
    pub open spec fn wf(self) -> bool {
        &&& self.done.len() < self.roots.len()
        &&& self.open.len() < self.max_depth
        &&& forall|i: int|
            0 <= i < self.open.len() ==> (#[trigger] self.open[i]).done.len()
                < self.open[i].node.kids.len()
    }

    /// The ID whose fetch the resolver waits for.
    pub open spec fn pending(self) -> i64 {
        if self.open.len() == 0 {
            self.roots[self.done.len() as int]
        } else {
            let top = self.open.last();
            top.node.kids[top.done.len() as int]
        }
    }

    /// How many levels the awaited comment and its replies may still take.
    pub open spec fn depth_left(self) -> nat {
        (self.max_depth - self.open.len()) as nat
    }

    /// The start of a resolution of `ids`.
    pub open spec fn begin(ids: Seq<i64>, max_depth: nat) -> TreeOutcome {
        if ids.len() == 0 {
            TreeOutcome::Done(Seq::empty())
        } else if max_depth == 0 {
            TreeOutcome::Failed(ResolveError::DepthExceeded)
        } else {
            TreeOutcome::Fetch(
                TreeModel { roots: ids, done: Seq::empty(), open: Seq::empty(), max_depth },
            )
        }
    }

    /// The resolver without its innermost open comment.
    pub open spec fn closed(self) -> TreeModel {
        TreeModel { open: self.open.drop_last(), ..self }
    }

    /// The resolver with `c` appended to the innermost list being filled.
    pub open spec fn absorb(self, c: CommentView) -> TreeModel {
        if self.open.len() == 0 {
            TreeModel { done: self.done.push(c), ..self }
        } else {
            let top = self.open.last();
            TreeModel {
                open: self.open.drop_last().push(
                    OpenNode { node: top.node, done: top.done.push(c) },
                ),
                ..self
            }
        }
    }

    /// What follows when the awaited comment is resolved as `c`: each open
    /// comment that `c` completes is closed in turn, and the first list left
    /// incomplete names the next fetch.
    pub open spec fn settle(self, c: CommentView) -> TreeOutcome
        decreases self.open.len(),
    {
        if self.open.len() == 0 {
            let done = self.done.push(c);
            if done.len() == self.roots.len() {
                TreeOutcome::Done(done)
            } else {
                TreeOutcome::Fetch(self.absorb(c))
            }
        } else {
            let top = self.open.last();
            let replies = top.done.push(c);
            if replies.len() == top.node.kids.len() {
                self.closed().settle(top.node.with_replies(replies))
            } else {
                TreeOutcome::Fetch(self.absorb(c))
            }
        }
    }

    /// What follows when the awaited fetch is answered with `outcome`.
    pub open spec fn step(self, outcome: Result<ItemView, GatewayError>) -> TreeOutcome {
        match outcome {
            Err(e) => TreeOutcome::Failed(ResolveError::of_gateway(e)),
            Ok(ItemView::Story(_)) => TreeOutcome::Failed(ResolveError::DecodeError),
            Ok(ItemView::Comment(c)) => {
                if c.kids.len() == 0 {
                    self.settle(c.with_replies(Seq::empty()))
                } else if self.open.len() + 1 < self.max_depth {
                    TreeOutcome::Fetch(
                        TreeModel {
                            open: self.open.push(OpenNode { node: c, done: Seq::empty() }),
                            ..self
                        },
                    )
                } else {
                    TreeOutcome::Failed(ResolveError::DepthExceeded)
                }
            },
        }
    }

    /// What the resolution ends in if every fetch still to come is answered
    /// as `world` says.
    pub open spec fn finish(self, world: World) -> Result<Seq<CommentView>, ResolveError>
        decreases self.open.len(),
    {
        if self.open.len() == 0 {
            let ids = self.roots.skip(self.done.len() as int);
            match resolved_comments(world, ids, self.max_depth) {
                Err(e) => Err(e),
                Ok(rest) => Ok(self.done + rest),
            }
        } else {
            let top = self.open.last();
            match resolved_comments(
                world,
                top.node.kids.skip(top.done.len() as int),
                self.depth_left(),
            ) {
                Err(e) => Err(e),
                Ok(rest) => self.closed().absorb(top.node.with_replies(top.done + rest)).finish(
                    world,
                ),
            }
        }
    }
}

impl TreeModel {
    /// How many fetches are still to come if each is answered as `world`
    /// says, the awaited one included.
    pub open spec fn remaining(self, world: World) -> nat
        decreases self.open.len(),
    {
        if self.open.len() == 0 {
            fetches_for(world, self.roots.skip(self.done.len() as int), self.max_depth)
        } else {
            let top = self.open.last();
            let kids = top.node.kids.skip(top.done.len() as int);
            match resolved_comments(world, kids, self.depth_left()) {
                Err(_) => fetches_for(world, kids, self.depth_left()),
                Ok(rest) => fetches_for(world, kids, self.depth_left()) + self.closed().absorb(
                    top.node.with_replies(top.done + rest),
                ).remaining(world),
            }
        }
    }
}

impl TreeOutcome {
    /// Whether this is where a resolution stands that still takes `fetches`
    /// fetches when each is answered as `world` says.
    pub open spec fn takes(self, world: World, fetches: nat) -> bool {
        match self {
            TreeOutcome::Fetch(m) => m.remaining(world) == fetches,
            _ => fetches == 0,
        }
    }

    /// Whether this is where a resolution stands that ends in `result` when
    /// the fetches still to come are answered as `world` says.
    pub open spec fn leads_to(
        self,
        world: World,
        result: Result<Seq<CommentView>, ResolveError>,
    ) -> bool {
        match self {
            TreeOutcome::Fetch(m) => m.wf() && m.finish(world) == result,
            TreeOutcome::Done(cs) => result == Ok::<Seq<CommentView>, ResolveError>(cs),
            TreeOutcome::Failed(e) => result == Err::<Seq<CommentView>, ResolveError>(e),
        }
    }
}

/// If the awaited comment cannot be resolved, the resolution fails with the
/// same error.
pub proof fn lemma_finish_fails(m: TreeModel, world: World, e: ResolveError)
    requires
        m.wf(),
        resolved_comment(world, m.pending(), m.depth_left()) == Err::<CommentView, ResolveError>(e),
    ensures
        m.finish(world) == Err::<Seq<CommentView>, ResolveError>(e),
{
    if m.open.len() == 0 {
        lemma_resolved_comments_from(world, m.roots, m.done.len() as int, m.max_depth);
    } else {
        let top = m.open.last();
        lemma_resolved_comments_from(world, top.node.kids, top.done.len() as int, m.depth_left());
    }
}

/// If the awaited comment resolves to `c`, the resolution ends as it does
/// from the state that holds `c` already.
pub proof fn lemma_finish_absorbs(m: TreeModel, world: World, c: CommentView)
    requires
        m.wf(),
        resolved_comment(world, m.pending(), m.depth_left()) == Ok::<CommentView, ResolveError>(c),
    ensures
        m.finish(world) == m.absorb(c).finish(world),
{
    let after = m.absorb(c);
    if m.open.len() == 0 {
        let k = m.done.len() as int;
        lemma_resolved_comments_from(world, m.roots, k, m.max_depth);
        match resolved_comments(world, m.roots.skip(k + 1), m.max_depth) {
            Err(_) => {},
            Ok(rest) => {
                assert(m.done + (seq![c] + rest) =~= m.done.push(c) + rest);
            },
        }
    } else {
        let top = m.open.last();
        let k = top.done.len() as int;
        lemma_resolved_comments_from(world, top.node.kids, k, m.depth_left());
        assert(after.open.last() == OpenNode { node: top.node, done: top.done.push(c) });
        assert(after.open.drop_last() =~= m.open.drop_last());
        assert(after.closed() == m.closed());
        match resolved_comments(world, top.node.kids.skip(k + 1), m.depth_left()) {
            Err(_) => {},
            Ok(rest) => {
                assert(top.done + (seq![c] + rest) =~= top.done.push(c) + rest);
            },
        }
    }
}

/// Settling a resolved comment stands where the resolution stands that
/// holds the comment already.
pub proof fn lemma_settle(m: TreeModel, world: World, c: CommentView)
    requires
        m.wf(),
    ensures
        m.settle(c).leads_to(world, m.absorb(c).finish(world)),
    decreases m.open.len(),
{
    let after = m.absorb(c);
    if m.open.len() == 0 {
        let done = m.done.push(c);
        if done.len() == m.roots.len() {
            assert(m.roots.skip(done.len() as int) =~= Seq::<i64>::empty());
            assert(done + Seq::<CommentView>::empty() =~= done);
        } else {
            assert(after.wf());
        }
    } else {
        let top = m.open.last();
        let replies = top.done.push(c);
        assert(after.open.last() == OpenNode { node: top.node, done: replies });
        assert(after.open.drop_last() =~= m.open.drop_last());
        assert(after.closed() == m.closed());
        if replies.len() == top.node.kids.len() {
            assert(top.node.kids.skip(replies.len() as int) =~= Seq::<i64>::empty());
            assert(replies + Seq::<CommentView>::empty() =~= replies);
            assert(m.closed().wf()) by {
                assert forall|i: int| 0 <= i < m.closed().open.len() implies (
                #[trigger] m.closed().open[i]).done.len() < m.closed().open[i].node.kids.len() by {
                    assert(m.closed().open[i] == m.open[i]);
                }
            }
            lemma_settle(m.closed(), world, top.node.with_replies(replies));
        } else {
            assert(after.wf()) by {
                assert forall|i: int| 0 <= i < after.open.len() implies (
                #[trigger] after.open[i]).done.len() < after.open[i].node.kids.len() by {
                    if i < after.open.len() - 1 {
                        assert(after.open[i] == m.open[i]);
                    }
                }
            }
        }
    }
}

/// A resolution that starts stands where the resolved forms of its IDs are
/// its end.
pub proof fn lemma_begin(world: World, ids: Seq<i64>, max_depth: nat)
    ensures
        TreeModel::begin(ids, max_depth).leads_to(
            world,
            resolved_comments(world, ids, max_depth),
        ),
{
    if ids.len() > 0 && max_depth > 0 {
        let m = TreeModel { roots: ids, done: Seq::empty(), open: Seq::empty(), max_depth };
        assert(ids.skip(0) =~= ids);
        match resolved_comments(world, ids, max_depth) {
            Err(_) => {},
            Ok(rest) => {
                assert(Seq::<CommentView>::empty() + rest =~= rest);
            },
        }
    }
}

/// A step that is answered as `world` says does not change where the
/// resolution ends.
pub proof fn lemma_step(m: TreeModel, world: World)
    requires
        m.wf(),
    ensures
        m.step(world(m.pending())).leads_to(world, m.finish(world)),
{
    let depth_left = m.depth_left();
    match world(m.pending()) {
        Err(e) => {
            lemma_finish_fails(m, world, ResolveError::of_gateway(e));
        },
        Ok(ItemView::Story(_)) => {
            lemma_finish_fails(m, world, ResolveError::DecodeError);
        },
        Ok(ItemView::Comment(c)) => {
            if c.kids.len() == 0 {
                let leaf = c.with_replies(Seq::empty());
                lemma_finish_absorbs(m, world, leaf);
                lemma_settle(m, world, leaf);
            } else if m.open.len() + 1 < m.max_depth {
                let next = TreeModel {
                    open: m.open.push(OpenNode { node: c, done: Seq::empty() }),
                    ..m
                };
                assert(next.wf()) by {
                    assert forall|i: int| 0 <= i < next.open.len() implies (
                    #[trigger] next.open[i]).done.len() < next.open[i].node.kids.len() by {
                        if i < m.open.len() {
                            assert(next.open[i] == m.open[i]);
                        }
                    }
                }
                assert(next.open.drop_last() =~= m.open);
                assert(next.closed() == m);
                assert(c.kids.skip(0) =~= c.kids);
                match resolved_comments(world, c.kids, (depth_left - 1) as nat) {
                    Err(e) => {
                        lemma_finish_fails(m, world, e);
                    },
                    Ok(replies) => {
                        assert(Seq::<CommentView>::empty() + replies =~= replies);
                        lemma_finish_absorbs(m, world, c.with_replies(replies));
                    },
                }
            } else {
                lemma_finish_fails(m, world, ResolveError::DepthExceeded);
            }
        },
    }
}

/// Settling a resolved comment never fails.
pub proof fn lemma_settle_never_fails(m: TreeModel, c: CommentView)
    ensures
        !(m.settle(c) is Failed),
    decreases m.open.len(),
{
    if m.open.len() > 0 {
        let top = m.open.last();
        lemma_settle_never_fails(m.closed(), top.node.with_replies(top.done.push(c)));
    }
}

/// A step never fails with `Superseded`: that error is not the resolver's.
pub proof fn lemma_step_failure_is_visible(m: TreeModel, outcome: Result<ItemView, GatewayError>)
    ensures
        m.step(outcome) matches TreeOutcome::Failed(e) ==> e.user_visible(),
{
    match outcome {
        Ok(ItemView::Comment(c)) => {
            lemma_settle_never_fails(m, c.with_replies(Seq::empty()));
        },
        _ => {},
    }
}

/// If the awaited comment cannot be resolved, the fetches still to come
/// are those of the attempt.
pub proof fn lemma_remaining_fails(m: TreeModel, world: World)
    requires
        m.wf(),
        resolved_comment(world, m.pending(), m.depth_left()) is Err,
    ensures
        m.remaining(world) == fetches_for_one(world, m.pending(), m.depth_left()),
{
    if m.open.len() == 0 {
        lemma_fetches_from(world, m.roots, m.done.len() as int, m.max_depth);
    } else {
        let top = m.open.last();
        lemma_fetches_from(world, top.node.kids, top.done.len() as int, m.depth_left());
        lemma_resolved_comments_from(world, top.node.kids, top.done.len() as int, m.depth_left());
    }
}

/// If the awaited comment resolves to `c`, the fetches still to come are
/// those for `c` and those that follow once `c` is held.
pub proof fn lemma_remaining_absorbs(m: TreeModel, world: World, c: CommentView)
    requires
        m.wf(),
        resolved_comment(world, m.pending(), m.depth_left()) == Ok::<CommentView, ResolveError>(c),
    ensures
        m.remaining(world) == fetches_for_one(world, m.pending(), m.depth_left()) + m.absorb(
            c,
        ).remaining(world),
{
    let after = m.absorb(c);
    if m.open.len() == 0 {
        lemma_fetches_from(world, m.roots, m.done.len() as int, m.max_depth);
    } else {
        let top = m.open.last();
        let k = top.done.len() as int;
        lemma_fetches_from(world, top.node.kids, k, m.depth_left());
        lemma_resolved_comments_from(world, top.node.kids, k, m.depth_left());
        assert(after.open.last() == OpenNode { node: top.node, done: top.done.push(c) });
        assert(after.open.drop_last() =~= m.open.drop_last());
        assert(after.closed() == m.closed());
        match resolved_comments(world, top.node.kids.skip(k + 1), m.depth_left()) {
            Err(_) => {},
            Ok(rest) => {
                assert(top.done + (seq![c] + rest) =~= top.done.push(c) + rest);
            },
        }
    }
}

/// Settling a resolved comment takes no fetch.
pub proof fn lemma_settle_takes(m: TreeModel, world: World, c: CommentView)
    requires
        m.wf(),
    ensures
        m.settle(c).takes(world, m.absorb(c).remaining(world)),
    decreases m.open.len(),
{
    let after = m.absorb(c);
    if m.open.len() == 0 {
        let done = m.done.push(c);
        if done.len() == m.roots.len() {
            assert(m.roots.skip(done.len() as int) =~= Seq::<i64>::empty());
        }
    } else {
        let top = m.open.last();
        let replies = top.done.push(c);
        assert(after.open.last() == OpenNode { node: top.node, done: replies });
        assert(after.open.drop_last() =~= m.open.drop_last());
        assert(after.closed() == m.closed());
        if replies.len() == top.node.kids.len() {
            assert(top.node.kids.skip(replies.len() as int) =~= Seq::<i64>::empty());
            assert(replies + Seq::<CommentView>::empty() =~= replies);
            assert(m.closed().wf()) by {
                assert forall|i: int| 0 <= i < m.closed().open.len() implies (
                #[trigger] m.closed().open[i]).done.len() < m.closed().open[i].node.kids.len() by {
                    assert(m.closed().open[i] == m.open[i]);
                }
            }
            lemma_settle_takes(m.closed(), world, top.node.with_replies(replies));
        }
    }
}

/// A resolution that starts takes the fetches that its IDs take.
pub proof fn lemma_begin_takes(world: World, ids: Seq<i64>, max_depth: nat)
    ensures
        TreeModel::begin(ids, max_depth).takes(world, fetches_for(world, ids, max_depth)),
{
    assert(ids.skip(0) =~= ids);
}

/// Every step that is answered as `world` says uses up one of the fetches
/// still to come.
pub proof fn lemma_step_takes(m: TreeModel, world: World)
    requires
        m.wf(),
    ensures
        m.remaining(world) > 0,
        m.step(world(m.pending())).takes(world, (m.remaining(world) - 1) as nat),
{
    let depth_left = m.depth_left();
    match world(m.pending()) {
        Ok(ItemView::Comment(c)) => {
            if c.kids.len() == 0 {
                let leaf = c.with_replies(Seq::empty());
                lemma_remaining_absorbs(m, world, leaf);
                lemma_settle_takes(m, world, leaf);
            } else if m.open.len() + 1 < m.max_depth {
                let next = TreeModel {
                    open: m.open.push(OpenNode { node: c, done: Seq::empty() }),
                    ..m
                };
                assert(next.open.drop_last() =~= m.open);
                assert(next.closed() == m);
                assert(c.kids.skip(0) =~= c.kids);
                match resolved_comments(world, c.kids, (depth_left - 1) as nat) {
                    Err(_) => {
                        lemma_remaining_fails(m, world);
                    },
                    Ok(replies) => {
                        assert(Seq::<CommentView>::empty() + replies =~= replies);
                        lemma_remaining_absorbs(m, world, c.with_replies(replies));
                    },
                }
            } else {
                lemma_remaining_fails(m, world);
            }
        },
        _ => {
            lemma_remaining_fails(m, world);
        },
    }
}

} // verus!
