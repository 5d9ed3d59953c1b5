//! The interface to the remote item gateway: what one fetch can hand back,
//! and the remote data as a mathematical function from IDs to answers.

use crate::error::GatewayError;
use crate::types::{Comment, CommentView, StoryItem, StoryItemView};
use vstd::prelude::*;

verus! {

/// A remote item: a story or a comment.
#[derive(Debug, PartialEq)]
pub enum Item {
    Story(StoryItem),
    Comment(Comment),
}

/// Mathematical value of an [`Item`].
pub enum ItemView {
    Story(StoryItemView),
    Comment(CommentView),
}

impl View for Item {
    type V = ItemView;

    open spec fn view(&self) -> ItemView {
        match self {
            Item::Story(s) => ItemView::Story(s@),
            Item::Comment(c) => ItemView::Comment(c@),
        }
    }
}

/// Mathematical value of the answer to one fetch.
pub open spec fn outcome_view(outcome: Result<Item, GatewayError>) -> Result<
    ItemView,
    GatewayError,
> {
    match outcome {
        Ok(item) => Ok(item@),
        Err(e) => Err(e),
    }
}

/// The remote data at one moment: the answer that a fetch of each ID gets.
pub type World = spec_fn(i64) -> Result<ItemView, GatewayError>;

/// Whether every item that `world` hands out carries the ID it was asked for.
pub open spec fn faithful(world: World) -> bool {
    forall|id: i64|
        match #[trigger] world(id) {
            Ok(ItemView::Story(s)) => s.id == id,
            Ok(ItemView::Comment(c)) => c.id == id,
            Err(_) => true,
        }
}

impl Clone for Item {
    fn clone(&self) -> (copy: Item)
        ensures
            copy@ == self@,
    {
        match self {
            Item::Story(s) => Item::Story(s.clone()),
            Item::Comment(c) => Item::Comment(c.clone()),
        }
    }
}

} // verus!
