//! The preview coordinator as a mathematical object: the single preview
//! slot, the token of the latest request, and the one resolution in flight.
//!
//! Every request gets a fresh token and replaces the resolution in flight.
//! An answer is taken only if it carries the latest token; any other answer
//! is discarded and changes nothing. So only the latest request can ever
//! write the slot, whichever fetch completes first.

use crate::error::{GatewayError, ResolveError};
use crate::gateway::{ItemView, World};
use crate::story::{
    fetches_for_story, lemma_story_failure_is_visible, lemma_story_step, lemma_story_step_takes,
    lemma_story_step_wf, resolved_story, StoryModel, StoryOutcome,
};
use crate::types::{PreviewStateView, StoryPageDataView};
use vstd::prelude::*;

verus! {

/// An order to fetch one item on behalf of the request `token`.
#[derive(Clone, Copy, Debug, PartialEq, Eq, Structural)]
pub struct FetchRequest {
    /// The token of the preview request that needs the item.
    pub token: u64,
    /// The ID of the item to fetch.
    pub id: i64,
}

/// An answer that arrives at the coordinator: the token of the request it
/// was fetched for, and what the fetch gave.
pub struct Arrival {
    pub token: u64,
    pub outcome: Result<ItemView, GatewayError>,
}

/// Mathematical value of the preview coordinator.
pub struct CoordinatorModel {
    /// What the preview slot holds.
    pub slot: PreviewStateView,
    /// Why the latest resolution failed, if the slot is unset on that account.
    pub failure: Option<ResolveError>,
    /// The token of the latest request; zero before the first.
    pub issued: u64,
    /// The resolution in flight.
    pub active: Option<StoryModel>,
    /// How many levels deep comments may nest.
    pub max_depth: nat,
}

impl CoordinatorModel {
    /// The slot is `Loading` exactly while a resolution is in flight, and a
    /// failure is on record only beside an unset slot.
    pub open spec fn wf(self) -> bool {
        &&& self.slot is Loading <==> self.active is Some
        &&& self.active matches Some(m) ==> m.wf()
        &&& self.failure matches Some(e) ==> self.slot is Unset && e.user_visible()
    }

    /// The coordinator before any request.
    pub open spec fn initial(max_depth: nat) -> CoordinatorModel {
        CoordinatorModel {
            slot: PreviewStateView::Unset,
            failure: None,
            issued: 0,
            active: None,
            max_depth,
        }
    }

    /// Whether one more token can be issued.
    pub open spec fn can_request(self) -> bool {
        self.issued < u64::MAX
    }

    /// The coordinator after a request to preview `story_id`.
    pub open spec fn request(self, story_id: i64) -> CoordinatorModel {
        CoordinatorModel {
            slot: PreviewStateView::Loading,
            failure: None,
            issued: (self.issued + 1) as u64,
            active: Some(StoryModel::begin(story_id, self.max_depth)),
            max_depth: self.max_depth,
        }
    }

    /// Whether `token` belongs to the resolution in flight.
    pub open spec fn current(self, token: u64) -> bool {
        self.active is Some && token == self.issued
    }

    /// The coordinator after an answer for `token` has arrived.
    pub open spec fn deliver(
        self,
        token: u64,
        outcome: Result<ItemView, GatewayError>,
    ) -> CoordinatorModel {
        if self.current(token) {
            match self.active->0.step(outcome) {
                StoryOutcome::Fetch(m) => CoordinatorModel { active: Some(m), ..self },
                StoryOutcome::Done(data) => CoordinatorModel {
                    slot: PreviewStateView::Loaded(data),
                    active: None,
                    ..self
                },
                StoryOutcome::Failed(e) => CoordinatorModel {
                    slot: PreviewStateView::Unset,
                    failure: Some(e),
                    active: None,
                    ..self
                },
            }
        } else {
            self
        }
    }

    /// What the coordinator says to an answer for `token`: the next fetch,
    /// nothing more to fetch, the error that ended the resolution, or
    /// `Superseded` for an answer that it discards.
    pub open spec fn reply(self, token: u64, outcome: Result<ItemView, GatewayError>) -> Result<
        Option<FetchRequest>,
        ResolveError,
    > {
        if self.current(token) {
            match self.active->0.step(outcome) {
                StoryOutcome::Fetch(m) => Ok(Some(FetchRequest { token, id: m.pending() })),
                StoryOutcome::Done(_) => Ok(None),
                StoryOutcome::Failed(e) => Err(e),
            }
        } else {
            Err(ResolveError::Superseded)
        }
    }

    /// The coordinator after the answers `arrivals`, in their order.
    pub open spec fn deliver_all(self, arrivals: Seq<Arrival>) -> CoordinatorModel
        decreases arrivals.len(),
    {
        if arrivals.len() == 0 {
            self
        } else {
            self.deliver(arrivals[0].token, arrivals[0].outcome).deliver_all(
                arrivals.drop_first(),
            )
        }
    }

    /// Whether each of `arrivals` that the coordinator takes is what `world`
    /// answers to the fetch awaited at that moment. Answers that carry an
    /// older token are free: they may hold anything.
    pub open spec fn answered_by(self, world: World, arrivals: Seq<Arrival>) -> bool
        decreases arrivals.len(),
    {
        arrivals.len() > 0 ==> {
            let first = arrivals[0];
            &&& self.current(first.token) ==> first.outcome == world(self.active->0.pending())
            &&& self.deliver(first.token, first.outcome).answered_by(world, arrivals.drop_first())
        }
    }

    /// How many of `arrivals` the coordinator takes rather than discards.
    pub open spec fn taken(self, arrivals: Seq<Arrival>) -> nat
        decreases arrivals.len(),
    {
        if arrivals.len() == 0 {
            0
        } else {
            let first = arrivals[0];
            let after = self.deliver(first.token, first.outcome).taken(arrivals.drop_first());
            if self.current(first.token) {
                after + 1
            } else {
                after
            }
        }
    }

    /// How many fetches the resolution in flight still takes if each is
    /// answered as `world` says; none if nothing is in flight.
    pub open spec fn outstanding(self, world: World) -> nat {
        match self.active {
            Some(m) => m.remaining(world),
            None => 0,
        }
    }

    /// Whether the coordinator shows the preview of `story_id` and nothing
    /// else: it is still loading that story, or holds the resolved story, or
    /// is unset with the error that the resolution of that story ends in.
    pub open spec fn shows(self, world: World, story_id: i64) -> bool {
        let result = resolved_story(world, story_id, self.max_depth);
        match self.slot {
            PreviewStateView::Loading => self.active is Some && self.active->0.finish(world)
                == result,
            PreviewStateView::Loaded(data) => result == Ok::<StoryPageDataView, ResolveError>(
                data,
            ),
            PreviewStateView::Unset => self.failure matches Some(e) && result == Err::<
                StoryPageDataView,
                ResolveError,
            >(e),
        }
    }
}

/// A request leaves the coordinator well formed, loading, and with a token
/// that no earlier request had.
pub proof fn lemma_request(c: CoordinatorModel, story_id: i64)
    requires
        c.wf(),
        c.can_request(),
    ensures
        c.request(story_id).wf(),
        c.request(story_id).slot is Loading,
        c.request(story_id).issued > c.issued,
{
}

/// An answer leaves the coordinator well formed and never changes the token.
/// Only a coordinator that is loading changes at all.
pub proof fn lemma_deliver(c: CoordinatorModel, token: u64, outcome: Result<ItemView, GatewayError>)
    requires
        c.wf(),
    ensures
        c.deliver(token, outcome).wf(),
        c.deliver(token, outcome).issued == c.issued,
        c.deliver(token, outcome).max_depth == c.max_depth,
        !(c.slot is Loading) ==> c.deliver(token, outcome) == c,
        c.reply(token, outcome) == Err::<Option<FetchRequest>, ResolveError>(
            ResolveError::Superseded,
        ) <==> !c.current(token),
{
    if c.current(token) {
        lemma_story_failure_is_visible(c.active->0, outcome);
        lemma_story_step_wf(c.active->0, outcome);
    }
}

/// An answer that the coordinator discards, or that is what `world` answers
/// to the awaited fetch, keeps the coordinator showing the story it shows.
pub proof fn lemma_deliver_shows(
    c: CoordinatorModel,
    world: World,
    story_id: i64,
    token: u64,
    outcome: Result<ItemView, GatewayError>,
)
    requires
        c.wf(),
        c.shows(world, story_id),
        c.current(token) ==> outcome == world(c.active->0.pending()),
    ensures
        c.deliver(token, outcome).shows(world, story_id),
{
    if c.current(token) {
        lemma_story_step(c.active->0, world);
    }
}

/// An answer that does not carry the latest token is discarded: the
/// coordinator stays as it is and says `Superseded`.
pub proof fn lemma_stale_answer_is_discarded(
    c: CoordinatorModel,
    token: u64,
    outcome: Result<ItemView, GatewayError>,
)
    requires
        token != c.issued,
    ensures
        c.deliver(token, outcome) == c,
        c.reply(token, outcome) == Err::<Option<FetchRequest>, ResolveError>(
            ResolveError::Superseded,
        ),
{
}

/// After a request for `first` and then one for `second`, whatever arrives
/// for `first` is discarded, before or after anything else.
pub proof fn lemma_second_request_supersedes(
    c: CoordinatorModel,
    first: i64,
    second: i64,
    outcome: Result<ItemView, GatewayError>,
)
    requires
        c.can_request(),
        c.request(first).can_request(),
    ensures
        ({
            let old_token = c.request(first).issued;
            let latest = c.request(first).request(second);
            &&& !latest.current(old_token)
            &&& latest.deliver(old_token, outcome) == latest
        }),
{
}

/// Last request wins. Once `story_id` is the latest request, the
/// coordinator shows that story and nothing else after any answers, in any
/// order, as long as those it takes are what `world` answers: it is loading
/// the story, or holds exactly the story that the resolution yields, or is
/// unset with exactly the error that the resolution ends in. What arrives
/// for earlier requests never reaches the slot.
pub proof fn lemma_latest_request_wins(
    c: CoordinatorModel,
    world: World,
    story_id: i64,
    arrivals: Seq<Arrival>,
)
    requires
        c.wf(),
        c.can_request(),
        c.request(story_id).answered_by(world, arrivals),
    ensures
        c.request(story_id).deliver_all(arrivals).shows(world, story_id),
        c.request(story_id).deliver_all(arrivals).wf(),
        c.request(story_id).deliver_all(arrivals).issued == c.request(story_id).issued,
{
    let requested = c.request(story_id);
    lemma_request(c, story_id);
    lemma_shows_is_kept(requested, world, story_id, arrivals);
}

/// Answers that agree with `world` keep the coordinator showing the story
/// that it shows.
pub proof fn lemma_shows_is_kept(
    c: CoordinatorModel,
    world: World,
    story_id: i64,
    arrivals: Seq<Arrival>,
)
    requires
        c.wf(),
        c.shows(world, story_id),
        c.answered_by(world, arrivals),
    ensures
        c.deliver_all(arrivals).shows(world, story_id),
        c.deliver_all(arrivals).wf(),
        c.deliver_all(arrivals).issued == c.issued,
    decreases arrivals.len(),
{
    if arrivals.len() > 0 {
        let first = arrivals[0];
        let next = c.deliver(first.token, first.outcome);
        lemma_deliver(c, first.token, first.outcome);
        lemma_deliver_shows(c, world, story_id, first.token, first.outcome);
        lemma_shows_is_kept(next, world, story_id, arrivals.drop_first());
    }
}

/// Every answer that the coordinator takes brings the resolution in flight
/// one fetch nearer to its end, and the slot is `Loading` exactly as long as
/// fetches are outstanding.
pub proof fn lemma_answers_count_down(c: CoordinatorModel, world: World, arrivals: Seq<Arrival>)
    requires
        c.wf(),
        c.answered_by(world, arrivals),
    ensures
        c.deliver_all(arrivals).outstanding(world) + c.taken(arrivals) == c.outstanding(world),
        c.deliver_all(arrivals).slot is Loading <==> c.deliver_all(arrivals).outstanding(world) > 0,
    decreases arrivals.len(),
{
    if arrivals.len() > 0 {
        let first = arrivals[0];
        lemma_deliver(c, first.token, first.outcome);
        if c.current(first.token) {
            lemma_story_step_takes(c.active->0, world);
        }
        lemma_answers_count_down(
            c.deliver(first.token, first.outcome),
            world,
            arrivals.drop_first(),
        );
    } else if let Some(m) = c.active {
        lemma_story_step_takes(m, world);
    }
}

/// The latest request comes to its end. Once `story_id` is the latest
/// request and as many answers have been taken as its resolution takes
/// fetches, the slot is no longer `Loading`: it holds the resolved story, or
/// is unset with the error of the resolution on record. Until then it is
/// `Loading`.
pub proof fn lemma_latest_request_settles(
    c: CoordinatorModel,
    world: World,
    story_id: i64,
    arrivals: Seq<Arrival>,
)
    requires
        c.wf(),
        c.can_request(),
        c.request(story_id).answered_by(world, arrivals),
    ensures
        c.request(story_id).taken(arrivals) <= fetches_for_story(world, story_id, c.max_depth),
        c.request(story_id).deliver_all(arrivals).slot is Loading <==> c.request(story_id).taken(
            arrivals,
        ) < fetches_for_story(world, story_id, c.max_depth),
        c.request(story_id).deliver_all(arrivals).shows(world, story_id),
{
    lemma_request(c, story_id);
    lemma_answers_count_down(c.request(story_id), world, arrivals);
    lemma_latest_request_wins(c, world, story_id, arrivals);
}

} // verus!
