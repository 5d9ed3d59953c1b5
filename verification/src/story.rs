//! The story resolver: from a story ID to the story with its whole comment
//! tree, or to the one error that stopped the resolution.

use crate::comments::{
    comments_available, fetches_for, lemma_resolved_comment_mirrors,
    lemma_resolved_comments_positions, lemma_resolved_iff_available, replies_mirror_kids,
    resolved_comment, resolved_comments,
};
use crate::error::{GatewayError, ResolveError};
use crate::gateway::{faithful, ItemView, World};
use crate::tree::{
    lemma_begin, lemma_begin_takes, lemma_step, lemma_step_failure_is_visible, lemma_step_takes,
    TreeModel, TreeOutcome,
};
use crate::types::{CommentView, StoryItemView, StoryPageDataView};
use vstd::prelude::*;

verus! {

/// The resolved story `story_id`: the fetched story item with the resolved
/// forms of its kids. Nothing partial exists: any failure is the result.
pub open spec fn resolved_story(world: World, story_id: i64, max_depth: nat) -> Result<
    StoryPageDataView,
    ResolveError,
> {
    match world(story_id) {
        Err(e) => Err(ResolveError::of_gateway(e)),
        Ok(ItemView::Comment(_)) => Err(ResolveError::DecodeError),
        Ok(ItemView::Story(item)) => attach(item, resolved_comments(world, item.kids, max_depth)),
    }
}

/// The story `item` with the outcome of resolving its kids.
pub open spec fn attach(
    item: StoryItemView,
    comments: Result<Seq<CommentView>, ResolveError>,
) -> Result<StoryPageDataView, ResolveError> {
    match comments {
        Err(e) => Err(e),
        Ok(cs) => Ok(StoryPageDataView { item, comments: cs }),
    }
}

/// How many fetches the resolution of the story `story_id` takes, up to and
/// including the one that fails it, if any does.
pub open spec fn fetches_for_story(world: World, story_id: i64, max_depth: nat) -> nat {
    match world(story_id) {
        Ok(ItemView::Story(item)) => 1 + fetches_for(world, item.kids, max_depth),
        _ => 1,
    }
}

/// Mathematical value of a story resolver that waits for a fetch.
pub enum StoryModel {
    /// The story item itself is awaited.
    AwaitingStory { story_id: i64, max_depth: nat },
    /// The story item is here and a comment is awaited.
    AwaitingComments { item: StoryItemView, tree: TreeModel },
}

/// Mathematical value of what a story resolver hands back.
pub enum StoryOutcome {
    /// One more fetch is needed.
    Fetch(StoryModel),
    /// The story is resolved.
    Done(StoryPageDataView),
    /// The resolution failed as a whole.
    Failed(ResolveError),
}

impl StoryModel {
    pub open spec fn wf(self) -> bool {
        match self {
            StoryModel::AwaitingStory { .. } => true,
            StoryModel::AwaitingComments { tree, .. } => tree.wf(),
        }
    }

    /// The ID whose fetch the resolver waits for.
    pub open spec fn pending(self) -> i64 {
        match self {
            StoryModel::AwaitingStory { story_id, .. } => story_id,
            StoryModel::AwaitingComments { tree, .. } => tree.pending(),
        }
    }

    /// The start of a resolution of the story `story_id`.
    pub open spec fn begin(story_id: i64, max_depth: nat) -> StoryModel {
        StoryModel::AwaitingStory { story_id, max_depth }
    }

    /// Where the resolution of `item` stands when that of its comments
    /// stands at `tree`.
    pub open spec fn lift(item: StoryItemView, tree: TreeOutcome) -> StoryOutcome {
        match tree {
            TreeOutcome::Fetch(t) => StoryOutcome::Fetch(
                StoryModel::AwaitingComments { item, tree: t },
            ),
            TreeOutcome::Done(cs) => StoryOutcome::Done(StoryPageDataView { item, comments: cs }),
            TreeOutcome::Failed(e) => StoryOutcome::Failed(e),
        }
    }

    /// What follows when the awaited fetch is answered with `outcome`.
    pub open spec fn step(self, outcome: Result<ItemView, GatewayError>) -> StoryOutcome {
        match self {
            StoryModel::AwaitingStory { max_depth, .. } => match outcome {
                Err(e) => StoryOutcome::Failed(ResolveError::of_gateway(e)),
                Ok(ItemView::Comment(_)) => StoryOutcome::Failed(ResolveError::DecodeError),
                Ok(ItemView::Story(item)) => Self::lift(
                    item,
                    TreeModel::begin(item.kids, max_depth),
                ),
            },
            StoryModel::AwaitingComments { item, tree } => Self::lift(item, tree.step(outcome)),
        }
    }

    /// Where the resolution stands after at most `fetches` fetches that are
    /// answered as `world` says: its end, if it has come to one.
    pub open spec fn run(self, world: World, fetches: nat) -> Option<
        Result<StoryPageDataView, ResolveError>,
    >
        decreases fetches,
    {
        if fetches == 0 {
            None
        } else {
            match self.step(world(self.pending())) {
                StoryOutcome::Fetch(next) => next.run(world, (fetches - 1) as nat),
                StoryOutcome::Done(data) => Some(Ok(data)),
                StoryOutcome::Failed(e) => Some(Err(e)),
            }
        }
    }

    /// How many fetches are still to come if each is answered as `world`
    /// says, the awaited one included.
    pub open spec fn remaining(self, world: World) -> nat {
        match self {
            StoryModel::AwaitingStory { story_id, max_depth } => fetches_for_story(
                world,
                story_id,
                max_depth,
            ),
            StoryModel::AwaitingComments { tree, .. } => tree.remaining(world),
        }
    }

    /// What the resolution ends in if every fetch still to come is answered
    /// as `world` says.
    pub open spec fn finish(self, world: World) -> Result<StoryPageDataView, ResolveError> {
        match self {
            StoryModel::AwaitingStory { story_id, max_depth } => resolved_story(
                world,
                story_id,
                max_depth,
            ),
            StoryModel::AwaitingComments { item, tree } => attach(item, tree.finish(world)),
        }
    }
}

impl StoryOutcome {
    /// Whether this is where a resolution stands that ends in `result` when
    /// the fetches still to come are answered as `world` says.
    pub open spec fn leads_to(
        self,
        world: World,
        result: Result<StoryPageDataView, ResolveError>,
    ) -> bool {
        match self {
            StoryOutcome::Fetch(m) => m.wf() && m.finish(world) == result,
            StoryOutcome::Done(data) => result == Ok::<StoryPageDataView, ResolveError>(data),
            StoryOutcome::Failed(e) => result == Err::<StoryPageDataView, ResolveError>(e),
        }
    }

    /// Whether this is where a resolution stands that still takes `fetches`
    /// fetches when each is answered as `world` says.
    pub open spec fn takes(self, world: World, fetches: nat) -> bool {
        match self {
            StoryOutcome::Fetch(m) => m.remaining(world) == fetches,
            _ => fetches == 0,
        }
    }
}

/// A step that is answered as `world` says does not change where the
/// resolution of the story ends.
pub proof fn lemma_story_step(m: StoryModel, world: World)
    requires
        m.wf(),
    ensures
        m.step(world(m.pending())).leads_to(world, m.finish(world)),
{
    match m {
        StoryModel::AwaitingStory { story_id, max_depth } => {
            match world(story_id) {
                Ok(ItemView::Story(item)) => {
                    lemma_begin(world, item.kids, max_depth);
                },
                _ => {},
            }
        },
        StoryModel::AwaitingComments { item, tree } => {
            lemma_step(tree, world);
        },
    }
}

/// A step never fails with `Superseded`: that error is not the resolver's.
pub proof fn lemma_story_failure_is_visible(m: StoryModel, outcome: Result<ItemView, GatewayError>)
    ensures
        m.step(outcome) matches StoryOutcome::Failed(e) ==> e.user_visible(),
{
    match m {
        StoryModel::AwaitingStory { .. } => {},
        StoryModel::AwaitingComments { tree, .. } => {
            lemma_step_failure_is_visible(tree, outcome);
        },
    }
}

/// A step of a well-formed resolver leaves a well-formed resolver.
pub proof fn lemma_story_step_wf(m: StoryModel, outcome: Result<ItemView, GatewayError>)
    requires
        m.wf(),
    ensures
        m.step(outcome) matches StoryOutcome::Fetch(next) ==> next.wf(),
{
    let world: World = |id: i64| outcome;
    lemma_story_step(m, world);
}

/// A resolution that comes to an end comes to the end that `finish` names.
pub proof fn lemma_run_ends_in_finish(m: StoryModel, world: World, fetches: nat)
    requires
        m.wf(),
        m.run(world, fetches) is Some,
    ensures
        m.run(world, fetches) == Some(m.finish(world)),
    decreases fetches,
{
    lemma_story_step(m, world);
    if let StoryOutcome::Fetch(next) = m.step(world(m.pending())) {
        lemma_run_ends_in_finish(next, world, (fetches - 1) as nat);
    }
}

/// The resolver is right: a resolution of `story_id` whose fetches are
/// answered as `world` says ends, if it ends, in the resolved story.
pub proof fn lemma_run_resolves(world: World, story_id: i64, max_depth: nat, fetches: nat)
    requires
        StoryModel::begin(story_id, max_depth).run(world, fetches) is Some,
    ensures
        StoryModel::begin(story_id, max_depth).run(world, fetches) == Some(
            resolved_story(world, story_id, max_depth),
        ),
{
    lemma_run_ends_in_finish(StoryModel::begin(story_id, max_depth), world, fetches);
}

/// Resolving twice gives the same: two resolutions of one story against
/// unchanged remote data end in equal results, however many fetches each
/// was given.
pub proof fn lemma_resolution_is_repeatable(
    world: World,
    story_id: i64,
    max_depth: nat,
    once: nat,
    again: nat,
)
    requires
        StoryModel::begin(story_id, max_depth).run(world, once) is Some,
        StoryModel::begin(story_id, max_depth).run(world, again) is Some,
    ensures
        StoryModel::begin(story_id, max_depth).run(world, once) == StoryModel::begin(
            story_id,
            max_depth,
        ).run(world, again),
{
    lemma_run_resolves(world, story_id, max_depth, once);
    lemma_run_resolves(world, story_id, max_depth, again);
}

/// All or nothing: a story resolves exactly if its item can be fetched as a
/// story and every comment of its tree can be had.
pub proof fn lemma_story_resolves_iff(world: World, story_id: i64, max_depth: nat)
    ensures
        resolved_story(world, story_id, max_depth) is Ok <==> (world(story_id) matches Ok(
            ItemView::Story(item),
        ) && comments_available(world, item.kids, max_depth)),
{
    if let Ok(ItemView::Story(item)) = world(story_id) {
        lemma_resolved_iff_available(world, item.kids, max_depth);
    }
}

/// Order is kept: a resolved story holds the fetched item, and its comments
/// are the resolved forms of the item's kids, position by position.
pub proof fn lemma_story_comments_positions(
    world: World,
    story_id: i64,
    max_depth: nat,
    data: StoryPageDataView,
)
    requires
        resolved_story(world, story_id, max_depth) == Ok::<StoryPageDataView, ResolveError>(data),
    ensures
        world(story_id) == Ok::<ItemView, GatewayError>(ItemView::Story(data.item)),
        data.comments.len() == data.item.kids.len(),
        forall|i: int|
            0 <= i < data.item.kids.len() ==> resolved_comment(
                world,
                #[trigger] data.item.kids[i],
                max_depth,
            ) == Ok::<CommentView, ResolveError>(data.comments[i]),
{
    lemma_resolved_comments_positions(world, data.item.kids, max_depth, data.comments);
}

/// Where every fetched item carries the ID it was asked for, a resolved
/// story carries the requested ID, each comment the ID of the kid at its
/// position, and so on down the tree.
pub proof fn lemma_story_comments_ids(
    world: World,
    story_id: i64,
    max_depth: nat,
    data: StoryPageDataView,
)
    requires
        faithful(world),
        resolved_story(world, story_id, max_depth) == Ok::<StoryPageDataView, ResolveError>(data),
    ensures
        data.item.id == story_id,
        data.comments.len() == data.item.kids.len(),
        forall|i: int|
            0 <= i < data.comments.len() ==> (#[trigger] data.comments[i]).id
                == data.item.kids[i] && replies_mirror_kids(data.comments[i]),
{
    lemma_story_comments_positions(world, story_id, max_depth, data);
    assert(world(story_id) is Ok);
    assert forall|i: int| 0 <= i < data.comments.len() implies (#[trigger] data.comments[i]).id
        == data.item.kids[i] && replies_mirror_kids(data.comments[i]) by {
        assert(resolved_comment(world, data.item.kids[i], max_depth) == Ok::<
            CommentView,
            ResolveError,
        >(data.comments[i]));
        lemma_resolved_comment_mirrors(world, data.item.kids[i], max_depth, data.comments[i]);
    }
}

/// Every step that is answered as `world` says uses up one of the fetches
/// still to come.
pub proof fn lemma_story_step_takes(m: StoryModel, world: World)
    requires
        m.wf(),
    ensures
        m.remaining(world) > 0,
        m.step(world(m.pending())).takes(world, (m.remaining(world) - 1) as nat),
{
    match m {
        StoryModel::AwaitingStory { story_id, max_depth } => {
            if let Ok(ItemView::Story(item)) = world(story_id) {
                lemma_begin_takes(world, item.kids, max_depth);
            }
        },
        StoryModel::AwaitingComments { tree, .. } => {
            lemma_step_takes(tree, world);
        },
    }
}

/// A resolution comes to its end within the fetches still to come, and more
/// fetches than that change nothing.
pub proof fn lemma_run_ends(m: StoryModel, world: World, fetches: nat)
    requires
        m.wf(),
        fetches >= m.remaining(world),
    ensures
        m.run(world, fetches) == Some(m.finish(world)),
    decreases fetches,
{
    lemma_story_step(m, world);
    lemma_story_step_takes(m, world);
    if let StoryOutcome::Fetch(next) = m.step(world(m.pending())) {
        lemma_run_ends(next, world, (fetches - 1) as nat);
    }
}

/// The resolver is right and always comes to an end: given the fetches that
/// the story takes, each answered as `world` says, it ends in the resolved
/// story or in the error that stops the resolution.
pub proof fn lemma_resolution_completes(
    world: World,
    story_id: i64,
    max_depth: nat,
    fetches: nat,
)
    requires
        fetches >= fetches_for_story(world, story_id, max_depth),
    ensures
        StoryModel::begin(story_id, max_depth).run(world, fetches) == Some(
            resolved_story(world, story_id, max_depth),
        ),
{
    lemma_run_ends(StoryModel::begin(story_id, max_depth), world, fetches);
}

} // verus!
