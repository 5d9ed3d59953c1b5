//! The listing provider: the top stories as summaries, in the order of
//! their IDs, without those whose fetch failed.
//!
//! Loading the list takes two rounds of fetches, which the owner of the
//! gateway performs: first the IDs of the top stories, then one item for
//! each of the IDs that `plan` keeps. A failure of the first round fails the
//! whole; a failure in the second only leaves its story out.

use crate::error::{GatewayError, ResolveError};
use crate::gateway::{outcome_view, Item, ItemView, World};
use crate::types::{StoryItem, StoryItemView};
use vstd::prelude::*;

verus! {

/// The IDs whose summaries are to be fetched: the first `limit` of the top
/// story IDs, or the error that the fetch of the IDs ended in.
pub open spec fn planned_ids(answer: Result<Seq<i64>, GatewayError>, limit: nat) -> Result<
    Seq<i64>,
    ResolveError,
> {
    match answer {
        Err(e) => Err(ResolveError::of_gateway(e)),
        Ok(ids) => Ok(
            if limit < ids.len() {
                ids.take(limit as int)
            } else {
                ids
            },
        ),
    }
}

/// Whether the answer to a fetch is a story.
pub open spec fn is_summary(outcome: Result<ItemView, GatewayError>) -> bool {
    outcome matches Ok(ItemView::Story(_))
}

/// The stories among `outcomes`, in their order. Failed fetches and items
/// that are no stories are left out.
pub open spec fn summaries(outcomes: Seq<Result<ItemView, GatewayError>>) -> Seq<StoryItemView>
    decreases outcomes.len(),
{
    if outcomes.len() == 0 {
        Seq::empty()
    } else {
        let before = summaries(outcomes.drop_last());
        match outcomes.last() {
            Ok(ItemView::Story(s)) => before.push(s),
            _ => before,
        }
    }
}

/// How many of `outcomes` are no stories.
pub open spec fn omitted(outcomes: Seq<Result<ItemView, GatewayError>>) -> nat
    decreases outcomes.len(),
{
    if outcomes.len() == 0 {
        0
    } else if is_summary(outcomes.last()) {
        omitted(outcomes.drop_last())
    } else {
        omitted(outcomes.drop_last()) + 1
    }
}

/// What `world` answers to the fetch of each of `ids`, in their order.
pub open spec fn answers(world: World, ids: Seq<i64>) -> Seq<Result<ItemView, GatewayError>> {
    Seq::new(ids.len(), |i: int| world(ids[i]))
}

/// The listing of the top stories: the summaries of the first `limit` top
/// story IDs that `world` has a story for, in the order of the IDs.
pub open spec fn top_stories(
    top: Result<Seq<i64>, GatewayError>,
    world: World,
    limit: nat,
) -> Result<Seq<StoryItemView>, ResolveError> {
    match planned_ids(top, limit) {
        Err(e) => Err(e),
        Ok(ids) => Ok(summaries(answers(world, ids))),
    }
}

/// Mathematical value of the answer to the fetch of the top story IDs.
pub open spec fn ids_answer_view(answer: Result<Vec<i64>, GatewayError>) -> Result<
    Seq<i64>,
    GatewayError,
> {
    match answer {
        Ok(ids) => Ok(ids@),
        Err(e) => Err(e),
    }
}

/// Mathematical value of a plan: the IDs to fetch, or the error.
pub open spec fn plan_view(plan: Result<Vec<i64>, ResolveError>) -> Result<Seq<i64>, ResolveError> {
    match plan {
        Ok(ids) => Ok(ids@),
        Err(e) => Err(e),
    }
}

/// Mathematical value of a sequence of answers.
pub open spec fn outcomes_view(outcomes: Seq<Result<Item, GatewayError>>) -> Seq<
    Result<ItemView, GatewayError>,
> {
    Seq::new(outcomes.len(), |i: int| outcome_view(outcomes[i]))
}

/// Mathematical value of a sequence of story summaries.
pub open spec fn stories_view(stories: Seq<StoryItem>) -> Seq<StoryItemView> {
    Seq::new(stories.len(), |i: int| stories[i]@)
}

/// Every answer is either kept as a summary or counted as omitted.
pub proof fn lemma_summaries_count(outcomes: Seq<Result<ItemView, GatewayError>>)
    ensures
        summaries(outcomes).len() + omitted(outcomes) == outcomes.len(),
    decreases outcomes.len(),
{
    if outcomes.len() > 0 {
        lemma_summaries_count(outcomes.drop_last());
    }
}

/// The summaries of a prefix of the answers are a prefix of the summaries.
pub proof fn lemma_summaries_prefix(outcomes: Seq<Result<ItemView, GatewayError>>, k: int)
    requires
        0 <= k <= outcomes.len(),
    ensures
        summaries(outcomes.take(k)).is_prefix_of(summaries(outcomes)),
    decreases outcomes.len() - k,
{
    if k == outcomes.len() {
        assert(outcomes.take(k) =~= outcomes);
    } else {
        lemma_summaries_prefix(outcomes, k + 1);
        assert(outcomes.take(k + 1).drop_last() =~= outcomes.take(k));
    }
}

/// Order is kept: a story among the answers stands in the listing at the
/// position that counts the stories before it.
pub proof fn lemma_summaries_position(outcomes: Seq<Result<ItemView, GatewayError>>, k: int)
    requires
        0 <= k < outcomes.len(),
        is_summary(outcomes[k]),
    ensures
        summaries(outcomes.take(k)).len() < summaries(outcomes).len(),
        Ok::<ItemView, GatewayError>(
            ItemView::Story(summaries(outcomes)[summaries(outcomes.take(k)).len() as int]),
        ) == outcomes[k],
{
    lemma_summaries_prefix(outcomes, k + 1);
    let upto = summaries(outcomes.take(k + 1));
    let at = summaries(outcomes.take(k)).len() as int;
    assert(outcomes.take(k + 1).drop_last() =~= outcomes.take(k));
    assert(outcomes.take(k + 1).last() == outcomes[k]);
    assert(upto.len() == at + 1);
    assert(summaries(outcomes)[at] == upto[at]);
}

/// The listing never holds more stories than the limit, and holds as many
/// fewer than were planned as fetches gave no story.
pub proof fn lemma_top_stories_count(
    top: Result<Seq<i64>, GatewayError>,
    world: World,
    limit: nat,
)
    ensures
        top is Err <==> top_stories(top, world, limit) is Err,
        top_stories(top, world, limit) matches Ok(stories) ==> {
            let ids = planned_ids(top, limit)->Ok_0;
            &&& ids.len() <= limit
            &&& stories.len() + omitted(answers(world, ids)) == ids.len()
        },
{
    if let Ok(ids) = planned_ids(top, limit) {
        lemma_summaries_count(answers(world, ids));
    }
}

/// The list of story summaries that the list view shows.
#[derive(Debug)]
pub struct ListingProvider {
    limit: usize,
    stories: Vec<StoryItem>,
}

/// Mathematical value of a [`ListingProvider`].
pub struct ListingModel {
    /// How many top stories are asked for at most.
    pub limit: nat,
    /// The summaries on show.
    pub stories: Seq<StoryItemView>,
}

impl View for ListingProvider {
    type V = ListingModel;

    closed spec fn view(&self) -> ListingModel {
        ListingModel { limit: self.limit as nat, stories: stories_view(self.stories@) }
    }
}

impl ListingProvider {
    /// An empty listing for at most `limit` top stories.
    pub fn new(limit: usize) -> (p: ListingProvider)
        ensures
            p@ == (ListingModel { limit: limit as nat, stories: Seq::empty() }),
    {
        let stories: Vec<StoryItem> = Vec::new();
        assert(stories_view(stories@) =~= Seq::empty());
        ListingProvider { limit, stories }
    }

    /// How many top stories are asked for at most.
    pub fn limit(&self) -> (limit: usize)
        ensures
            limit == self@.limit,
    {
        self.limit
    }

    /// The summaries on show, in the order of their IDs.
    pub fn stories(&self) -> (stories: &Vec<StoryItem>)
        ensures
            stories_view(stories@) == self@.stories,
    {
        &self.stories
    }

    /// Takes the answer to the fetch of the top story IDs and names the IDs
    /// whose summaries are to be fetched, in order. A failed fetch fails the
    /// load with the gateway's error kind.
    pub fn plan(&self, answer: Result<Vec<i64>, GatewayError>) -> (plan: Result<
        Vec<i64>,
        ResolveError,
    >)
        ensures
            plan_view(plan) == planned_ids(ids_answer_view(answer), self@.limit),
    {
        match answer {
            Err(e) => Err(ResolveError::from_gateway(e)),
            Ok(ids) => {
                let ghost given = ids@;
                let mut ids = ids;
                ids.truncate(self.limit);
                assert(self.limit >= given.len() ==> ids@ =~= given);
                assert(self.limit < given.len() ==> ids@ =~= given.take(self.limit as int));
                Ok(ids)
            },
        }
    }

    /// Replaces the listing wholesale by the stories among `outcomes`, the
    /// answers to the fetches of the planned IDs in the order of the IDs.
    pub fn install(&mut self, outcomes: Vec<Result<Item, GatewayError>>)
        ensures
            final(self)@ == (ListingModel {
                limit: old(self)@.limit,
                stories: summaries(outcomes_view(outcomes@)),
            }),
    {
        self.stories = collect_summaries(outcomes);
    }
}

/// Keeps the stories among `outcomes`, in their order.
pub fn collect_summaries(outcomes: Vec<Result<Item, GatewayError>>) -> (stories: Vec<StoryItem>)
    ensures
        stories_view(stories@) == summaries(outcomes_view(outcomes@)),
{
    let ghost all = outcomes_view(outcomes@);
    let ghost given = outcomes@;
    let mut stories: Vec<StoryItem> = Vec::new();
    assert(all.take(0) =~= Seq::empty());
    assert(stories_view(stories@) =~= Seq::empty());
    for outcome in it: outcomes
        invariant
            it.seq() == given,
            all == outcomes_view(given),
            stories_view(stories@) == summaries(all.take(it.index() as int)),
    {
        let ghost k = it.index() as int;
        let ghost before = stories@;
        proof {
            assert(all.take(k + 1).drop_last() =~= all.take(k));
            assert(all.take(k + 1).last() == outcome_view(outcome));
        }
        match outcome {
            Ok(Item::Story(s)) => {
                stories.push(s);
                assert(stories_view(stories@) =~= stories_view(before).push(s@));
            },
            _ => {},
        }
    }
    assert(all.take(given.len() as int) =~= all);
    stories
}

} // verus!
