//! The preview coordinator as executable code: the owner of the single
//! preview slot and the only writer to it.

use crate::error::{GatewayError, ResolveError};
use crate::gateway::{outcome_view, Item, World};
use crate::preview::{lemma_deliver, lemma_deliver_shows, CoordinatorModel, FetchRequest};
use crate::story::StoryModel;
use crate::story_resolver::{StoryProgress, StoryResolver};
use crate::types::PreviewState;
use vstd::prelude::*;

verus! {

/// The preview slot together with the resolution that is to fill it.
#[derive(Debug)]
pub struct PreviewCoordinator {
    slot: PreviewState,
    failure: Option<ResolveError>,
    issued: u64,
    active: Option<StoryResolver>,
    max_depth: usize,
}

spec fn active_view(active: Option<StoryResolver>) -> Option<StoryModel> {
    match active {
        Some(r) => Some(r@),
        None => None,
    }
}

impl View for PreviewCoordinator {
    type V = CoordinatorModel;

    closed spec fn view(&self) -> CoordinatorModel {
        CoordinatorModel {
            slot: self.slot@,
            failure: self.failure,
            issued: self.issued,
            active: active_view(self.active),
            max_depth: self.max_depth as nat,
        }
    }
}

impl PreviewCoordinator {
    #[verifier::type_invariant]
    spec fn inv(self) -> bool {
        self@.wf()
    }

    /// A coordinator with an unset slot, for comments nesting at most
    /// `max_depth` levels deep.
    pub fn new(max_depth: usize) -> (c: PreviewCoordinator)
        ensures
            c@ == CoordinatorModel::initial(max_depth as nat),
            c@.wf(),
    {
        PreviewCoordinator {
            slot: PreviewState::Unset,
            failure: None,
            issued: 0,
            active: None,
            max_depth,
        }
    }

    /// What the preview slot holds.
    pub fn state(&self) -> (s: &PreviewState)
        ensures
            s@ == self@.slot,
            self@.wf(),
    {
        proof {
            use_type_invariant(self);
        }
        &self.slot
    }

    /// Why the latest resolution failed, if the slot is unset on that
    /// account. `Superseded` is never among the answers.
    pub fn failure(&self) -> (e: Option<ResolveError>)
        ensures
            e == self@.failure,
            e matches Some(kind) ==> kind.user_visible() && self@.slot is Unset,
    {
        proof {
            use_type_invariant(self);
        }
        self.failure
    }

    /// The token of the latest request; zero before the first.
    pub fn latest_token(&self) -> (token: u64)
        ensures
            token == self@.issued,
    {
        self.issued
    }

    /// Whether one more request can be made: tokens are 64-bit numbers.
    pub fn can_request(&self) -> (b: bool)
        ensures
            b == self@.can_request(),
    {
        self.issued < u64::MAX
    }

    /// Makes `story_id` the story to preview. The slot turns to `Loading`,
    /// whatever was in flight is superseded, and the first fetch of the new
    /// resolution is ordered under a fresh token.
    pub fn request_preview(&mut self, story_id: i64) -> (order: FetchRequest)
        requires
            old(self)@.can_request(),
        ensures
            final(self)@ == old(self)@.request(story_id),
            final(self)@.wf(),
            order == (FetchRequest { token: final(self)@.issued, id: story_id }),
            final(self)@.slot is Loading,
            final(self)@.issued > old(self)@.issued,
            forall|world: World| #[trigger] final(self)@.shows(world, story_id),
    {
        let token = self.issued + 1;
        let resolver = StoryResolver::begin(story_id, self.max_depth);
        *self = PreviewCoordinator {
            slot: PreviewState::Loading,
            failure: None,
            issued: token,
            active: Some(resolver),
            max_depth: self.max_depth,
        };
        FetchRequest { token, id: story_id }
    }

    /// Takes the answer to a fetch that was ordered under `token`. An answer
    /// for the resolution in flight drives it on: to the next fetch, to the
    /// loaded story, or to an unset slot with the failure on record. Any
    /// other answer is discarded without a trace.
    pub fn deliver(&mut self, token: u64, outcome: Result<Item, GatewayError>) -> (reply: Result<
        Option<FetchRequest>,
        ResolveError,
    >)
        ensures
            final(self)@ == old(self)@.deliver(token, outcome_view(outcome)),
            reply == old(self)@.reply(token, outcome_view(outcome)),
            reply == Err::<Option<FetchRequest>, ResolveError>(ResolveError::Superseded)
                <==> !old(self)@.current(token),
            final(self)@.wf(),
            forall|world: World, story_id: i64|
                old(self)@.shows(world, story_id) && (old(self)@.current(token) ==> outcome_view(
                    outcome,
                ) == world(old(self)@.active->0.pending())) ==> #[trigger] final(self)@.shows(
                    world,
                    story_id,
                ),
    {
        proof {
            use_type_invariant(&*self);
            lemma_deliver(self@, token, outcome_view(outcome));
            assert forall|world: World, story_id: i64|
                self@.shows(world, story_id) && (self@.current(token) ==> outcome_view(outcome)
                    == world(self@.active->0.pending())) implies #[trigger] self@.deliver(
                token,
                outcome_view(outcome),
            ).shows(world, story_id) by {
                lemma_deliver_shows(self@, world, story_id, token, outcome_view(outcome));
            }
        }
        if token != self.issued {
            return Err(ResolveError::Superseded);
        }
        let mut taken = PreviewCoordinator::new(self.max_depth);
        core::mem::swap(self, &mut taken);
        let PreviewCoordinator { slot, failure, issued, active, max_depth } = taken;
        match active {
            None => {
                *self = PreviewCoordinator { slot, failure, issued, active: None, max_depth };
                Err(ResolveError::Superseded)
            },
            Some(resolver) => match resolver.advance(outcome) {
                StoryProgress::Fetch(next) => {
                    let id = next.pending();
                    *self = PreviewCoordinator {
                        slot,
                        failure,
                        issued,
                        active: Some(next),
                        max_depth,
                    };
                    Ok(Some(FetchRequest { token, id }))
                },
                StoryProgress::Done(data) => {
                    *self = PreviewCoordinator {
                        slot: PreviewState::Loaded(data),
                        failure,
                        issued,
                        active: None,
                        max_depth,
                    };
                    Ok(None)
                },
                StoryProgress::Failed(e) => {
                    *self = PreviewCoordinator {
                        slot: PreviewState::Unset,
                        failure: Some(e),
                        issued,
                        active: None,
                        max_depth,
                    };
                    Err(e)
                },
            },
        }
    }
}

} // verus!
