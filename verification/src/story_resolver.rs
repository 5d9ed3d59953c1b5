//! The story resolver as executable code: first the story item, then its
//! comment tree, one fetch at a time.

use crate::comment_resolver::{CommentProgress, CommentResolver};
use crate::error::{GatewayError, ResolveError};
use crate::gateway::{outcome_view, Item, World};
use crate::story::{lemma_story_step, resolved_story, StoryModel, StoryOutcome};
use crate::types::{copy_ids, StoryItem, StoryPageData};
use vstd::prelude::*;

verus! {

#[derive(Debug)]
enum Phase {
    AwaitingStory { story_id: i64, max_depth: usize },
    AwaitingComments { item: StoryItem, tree: CommentResolver },
}

/// A resolution of one story that waits for the answer to one fetch.
#[derive(Debug)]
pub struct StoryResolver {
    phase: Phase,
}

impl View for StoryResolver {
    type V = StoryModel;

    closed spec fn view(&self) -> StoryModel {
        match self.phase {
            Phase::AwaitingStory { story_id, max_depth } => StoryModel::AwaitingStory {
                story_id,
                max_depth: max_depth as nat,
            },
            Phase::AwaitingComments { item, tree } => StoryModel::AwaitingComments {
                item: item@,
                tree: tree@,
            },
        }
    }
}

/// What a story resolver hands back: itself if it needs one more fetch, or
/// the end of the resolution.
#[derive(Debug)]
pub enum StoryProgress {
    /// The resolver waits for the fetch of its pending ID.
    Fetch(StoryResolver),
    /// The story with its whole comment tree.
    Done(StoryPageData),
    /// The resolution failed as a whole.
    Failed(ResolveError),
}

impl View for StoryProgress {
    type V = StoryOutcome;

    open spec fn view(&self) -> StoryOutcome {
        match self {
            StoryProgress::Fetch(r) => StoryOutcome::Fetch(r@),
            StoryProgress::Done(data) => StoryOutcome::Done(data@),
            StoryProgress::Failed(e) => StoryOutcome::Failed(*e),
        }
    }
}

/// Wraps the progress of the comment tree of `item` as progress of its story.
fn lift(item: StoryItem, tree: CommentProgress) -> (p: StoryProgress)
    requires
        tree matches CommentProgress::Fetch(r) ==> r@.wf(),
    ensures
        p@ == StoryModel::lift(item@, tree@),
        p matches StoryProgress::Fetch(r) ==> r@.wf(),
{
    match tree {
        CommentProgress::Fetch(tree) => StoryProgress::Fetch(
            StoryResolver { phase: Phase::AwaitingComments { item, tree } },
        ),
        CommentProgress::Done(comments) => StoryProgress::Done(StoryPageData { item, comments }),
        CommentProgress::Failed(e) => StoryProgress::Failed(e),
    }
}

impl StoryResolver {
    #[verifier::type_invariant]
    spec fn inv(self) -> bool {
        self@.wf()
    }

    /// Starts to resolve the story `story_id`, with comments nesting at most
    /// `max_depth` levels deep. The first fetch is that of the story itself.
    pub fn begin(story_id: i64, max_depth: usize) -> (r: StoryResolver)
        ensures
            r@ == StoryModel::begin(story_id, max_depth as nat),
            r@.wf(),
            r@.pending() == story_id,
            forall|world: World| #[trigger]
                r@.finish(world) == resolved_story(world, story_id, max_depth as nat),
    {
        StoryResolver { phase: Phase::AwaitingStory { story_id, max_depth } }
    }

    /// The ID whose fetch the resolver waits for.
    pub fn pending(&self) -> (id: i64)
        ensures
            id == self@.pending(),
            self@.wf(),
    {
        match &self.phase {
            Phase::AwaitingStory { story_id, .. } => *story_id,
            Phase::AwaitingComments { tree, .. } => tree.pending(),
        }
    }

    /// Takes the answer to the awaited fetch.
    pub fn advance(self, outcome: Result<Item, GatewayError>) -> (p: StoryProgress)
        ensures
            p@ == self@.step(outcome_view(outcome)),
            self@.wf(),
            p matches StoryProgress::Fetch(r) ==> r@.wf(),
            forall|world: World|
                world(self@.pending()) == outcome_view(outcome) ==> #[trigger] p@.leads_to(
                    world,
                    self@.finish(world),
                ),
    {
        proof {
            use_type_invariant(&self);
            assert forall|world: World|
                world(self@.pending()) == outcome_view(outcome) implies #[trigger] self@.step(
                outcome_view(outcome),
            ).leads_to(world, self@.finish(world)) by {
                lemma_story_step(self@, world);
            }
        }
        match self.phase {
            Phase::AwaitingStory { max_depth, .. } => match outcome {
                Err(e) => StoryProgress::Failed(ResolveError::from_gateway(e)),
                Ok(Item::Comment(_)) => StoryProgress::Failed(ResolveError::DecodeError),
                Ok(Item::Story(item)) => {
                    let tree = CommentResolver::begin(copy_ids(&item.kids), max_depth);
                    lift(item, tree)
                },
            },
            Phase::AwaitingComments { item, tree } => {
                let tree = tree.advance(outcome);
                lift(item, tree)
            },
        }
    }
}

} // verus!
