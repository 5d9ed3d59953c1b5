//! The comment tree resolver as executable code: an explicit stack of the
//! comments being filled, with the depth of the stack as the depth counter.

use crate::tree::{lemma_begin, lemma_step, OpenNode, TreeModel, TreeOutcome};
use crate::error::{GatewayError, ResolveError};
use crate::comments::resolved_comments;
use crate::gateway::{outcome_view, Item, World};
use crate::types::{
    comments_view, lemma_comment_view_replies, lemma_comments_view_push, Comment,
};
use vstd::prelude::*;

verus! {

/// A fetched comment and the replies resolved for it so far.
#[derive(Debug)]
struct OpenComment {
    node: Comment,
    done: Vec<Comment>,
}

impl View for OpenComment {
    type V = OpenNode;

    closed spec fn view(&self) -> OpenNode {
        OpenNode { node: self.node@, done: comments_view(self.done@) }
    }
}

spec fn opens_view(open: Seq<OpenComment>) -> Seq<OpenNode> {
    Seq::new(open.len(), |i: int| open[i]@)
}

spec fn tree_model(
    roots: Seq<i64>,
    done: Seq<Comment>,
    open: Seq<OpenComment>,
    max_depth: usize,
) -> TreeModel {
    TreeModel {
        roots,
        done: comments_view(done),
        open: opens_view(open),
        max_depth: max_depth as nat,
    }
}

/// A resolution of comment trees that waits for the answer to one fetch.
#[derive(Debug)]
pub struct CommentResolver {
    roots: Vec<i64>,
    done: Vec<Comment>,
    open: Vec<OpenComment>,
    max_depth: usize,
}

impl View for CommentResolver {
    type V = TreeModel;

    closed spec fn view(&self) -> TreeModel {
        tree_model(self.roots@, self.done@, self.open@, self.max_depth)
    }
}

/// What a resolver hands back: itself if it needs one more fetch, or the
/// end of the resolution.
#[derive(Debug)]
pub enum CommentProgress {
    /// The resolver waits for the fetch of its pending ID.
    Fetch(CommentResolver),
    /// The resolved comments, in the order of the IDs.
    Done(Vec<Comment>),
    /// The resolution failed as a whole.
    Failed(ResolveError),
}

impl View for CommentProgress {
    type V = TreeOutcome;

    open spec fn view(&self) -> TreeOutcome {
        match self {
            CommentProgress::Fetch(r) => TreeOutcome::Fetch(r@),
            CommentProgress::Done(cs) => TreeOutcome::Done(comments_view(cs@)),
            CommentProgress::Failed(e) => TreeOutcome::Failed(*e),
        }
    }
}

impl CommentResolver {
    #[verifier::type_invariant]
    spec fn inv(self) -> bool {
        self@.wf()
    }

    /// Starts to resolve `ids`, with comments nesting at most `max_depth`
    /// levels deep. No ID needs no fetch; with a cap of zero any ID is too deep.
    pub fn begin(ids: Vec<i64>, max_depth: usize) -> (p: CommentProgress)
        ensures
            p@ == TreeModel::begin(ids@, max_depth as nat),
            p matches CommentProgress::Fetch(r) ==> r@.wf(),
            forall|world: World| #[trigger]
                p@.leads_to(world, resolved_comments(world, ids@, max_depth as nat)),
    {
        proof {
            assert forall|world: World| #[trigger]
                TreeModel::begin(ids@, max_depth as nat).leads_to(
                    world,
                    resolved_comments(world, ids@, max_depth as nat),
                ) by {
                lemma_begin(world, ids@, max_depth as nat);
            }
        }
        if ids.len() == 0 {
            let done: Vec<Comment> = Vec::new();
            assert(comments_view(done@) =~= Seq::empty());
            CommentProgress::Done(done)
        } else if max_depth == 0 {
            CommentProgress::Failed(ResolveError::DepthExceeded)
        } else {
            let done: Vec<Comment> = Vec::new();
            let open: Vec<OpenComment> = Vec::new();
            assert(comments_view(done@) =~= Seq::empty());
            assert(opens_view(open@) =~= Seq::empty());
            CommentProgress::Fetch(CommentResolver { roots: ids, done, open, max_depth })
        }
    }

    /// The ID whose fetch the resolver waits for.
    pub fn pending(&self) -> (id: i64)
        ensures
            id == self@.pending(),
            self@.wf(),
    {
        proof {
            use_type_invariant(self);
        }
        let depth = self.open.len();
        if depth == 0 {
            self.roots[self.done.len()]
        } else {
            let top = &self.open[depth - 1];
            assert(top@ == self@.open.last());
            top.node.kids[top.done.len()]
        }
    }

    /// Takes the answer to the awaited fetch. A comment without kids is
    /// complete; one with kids is opened if its kids lie within the cap.
    pub fn advance(self, outcome: Result<Item, GatewayError>) -> (p: CommentProgress)
        ensures
            p@ == self@.step(outcome_view(outcome)),
            self@.wf(),
            p matches CommentProgress::Fetch(r) ==> r@.wf(),
            forall|world: World|
                world(self@.pending()) == outcome_view(outcome) ==> #[trigger] p@.leads_to(
                    world,
                    self@.finish(world),
                ),
    {
        proof {
            use_type_invariant(&self);
            assert forall|world: World|
                world(self@.pending()) == outcome_view(outcome) implies #[trigger] self@.step(
                outcome_view(outcome),
            ).leads_to(world, self@.finish(world)) by {
                lemma_step(self@, world);
            }
        }
        let CommentResolver { roots, done, open, max_depth } = self;
        match outcome {
            Err(e) => CommentProgress::Failed(ResolveError::from_gateway(e)),
            Ok(Item::Story(_)) => CommentProgress::Failed(ResolveError::DecodeError),
            Ok(Item::Comment(c)) => {
                if c.kids.len() == 0 {
                    let ghost fetched = c@;
                    let mut leaf = c;
                    leaf.sub_comments = Vec::new();
                    proof {
                        lemma_comment_view_replies(leaf);
                        assert(leaf@.sub_comments =~= Seq::empty());
                        assert(leaf@ == fetched.with_replies(Seq::empty()));
                    }
                    settle(roots, done, open, max_depth, leaf)
                } else if open.len() + 1 < max_depth {
                    let mut open = open;
                    let ghost before = open@;
                    let replies: Vec<Comment> = Vec::new();
                    let node = OpenComment { node: c, done: replies };
                    open.push(node);
                    proof {
                        assert(comments_view(replies@) =~= Seq::empty());
                        assert(opens_view(open@) =~= opens_view(before).push(node@));
                        let next = tree_model(roots@, done@, open@, max_depth);
                        assert forall|i: int| 0 <= i < next.open.len() implies (
                        #[trigger] next.open[i]).done.len() < next.open[i].node.kids.len() by {
                            if i < before.len() {
                                assert(next.open[i] == opens_view(before)[i]);
                            }
                        }
                    }
                    CommentProgress::Fetch(CommentResolver { roots, done, open, max_depth })
                } else {
                    CommentProgress::Failed(ResolveError::DepthExceeded)
                }
            },
        }
    }
}

/// Files the resolved comment `finished` in the innermost list being
/// filled, closes every comment that this completes, and names what follows.
fn settle(
    roots: Vec<i64>,
    done: Vec<Comment>,
    open: Vec<OpenComment>,
    max_depth: usize,
    finished: Comment,
) -> (p: CommentProgress)
    requires
        tree_model(roots@, done@, open@, max_depth).wf(),
    ensures
        p@ == tree_model(roots@, done@, open@, max_depth).settle(finished@),
        p matches CommentProgress::Fetch(r) ==> r@.wf(),
{
    let ghost goal = tree_model(roots@, done@, open@, max_depth).settle(finished@);
    let mut filled = done;
    let mut stack = open;
    let mut current = finished;
    loop
        invariant
            tree_model(roots@, filled@, stack@, max_depth).wf(),
            tree_model(roots@, filled@, stack@, max_depth).settle(current@) == goal,
            goal == tree_model(roots@, done@, open@, max_depth).settle(finished@),
        decreases stack.len(),
    {
        let ghost here = tree_model(roots@, filled@, stack@, max_depth);
        let ghost before = stack@;
        match stack.pop() {
            None => {
                proof {
                    lemma_comments_view_push(filled@, current);
                }
                filled.push(current);
                if filled.len() == roots.len() {
                    return CommentProgress::Done(filled);
                } else {
                    let next = CommentResolver { roots, done: filled, open: stack, max_depth };
                    assert(next@ == here.absorb(current@));
                    return CommentProgress::Fetch(next);
                }
            },
            Some(top) => {
                assert(stack@ =~= before.drop_last());
                assert(opens_view(stack@) =~= here.open.drop_last());
                assert(top@ == here.open.last());
                let OpenComment { node, done: replies } = top;
                let mut replies = replies;
                proof {
                    lemma_comments_view_push(replies@, current);
                }
                replies.push(current);
                if replies.len() == node.kids.len() {
                    let ghost fetched = node@;
                    let mut node = node;
                    node.sub_comments = replies;
                    proof {
                        lemma_comment_view_replies(node);
                        assert(node@ == fetched.with_replies(comments_view(replies@)));
                        let closed = tree_model(roots@, filled@, stack@, max_depth);
                        assert(closed == here.closed());
                        assert forall|i: int| 0 <= i < closed.open.len() implies (
                        #[trigger] closed.open[i]).done.len() < closed.open[i].node.kids.len() by {
                            assert(closed.open[i] == here.open[i]);
                        }
                    }
                    current = node;
                } else {
                    let ghost below = stack@;
                    let refilled = OpenComment { node, done: replies };
                    stack.push(refilled);
                    proof {
                        assert(opens_view(stack@) =~= opens_view(below).push(refilled@));
                        let next = tree_model(roots@, filled@, stack@, max_depth);
                        assert(next == here.absorb(current@));
                        assert forall|i: int| 0 <= i < next.open.len() implies (
                        #[trigger] next.open[i]).done.len() < next.open[i].node.kids.len() by {
                            if i < below.len() {
                                assert(next.open[i] == here.open[i]);
                            }
                        }
                    }
                    return CommentProgress::Fetch(
                        CommentResolver { roots, done: filled, open: stack, max_depth },
                    );
                }
            },
        }
    }
}

} // verus!
