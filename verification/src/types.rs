//! The domain model: story summaries, comments, resolved stories and the
//! state of the preview slot, each with its mathematical value.

use crate::time::Timestamp;
use vstd::prelude::*;

verus! {

/// A list entry: one story as the remote system reports it.
#[derive(Debug, PartialEq)]
pub struct StoryItem {
    pub id: i64,
    pub title: String,
    pub url: Option<String>,
    pub text: Option<String>,
    pub by: String,
    pub score: i64,
    pub descendants: i64,
    pub time: Timestamp,
    /// IDs of the top-level comments, in the order the remote system gives.
    pub kids: Vec<i64>,
    pub kind: String,
}

/// Mathematical value of a [`StoryItem`].
pub struct StoryItemView {
    pub id: i64,
    pub title: Seq<char>,
    pub url: Option<Seq<char>>,
    pub text: Option<Seq<char>>,
    pub by: Seq<char>,
    pub score: i64,
    pub descendants: i64,
    pub time: i64,
    pub kids: Seq<i64>,
    pub kind: Seq<char>,
}

/// Mathematical value of an optional string.
pub open spec fn text_view(s: Option<String>) -> Option<Seq<char>> {
    match s {
        Some(t) => Some(t@),
        None => None,
    }
}

impl View for StoryItem {
    type V = StoryItemView;

    open spec fn view(&self) -> StoryItemView {
        StoryItemView {
            id: self.id,
            title: self.title@,
            url: text_view(self.url),
            text: text_view(self.text),
            by: self.by@,
            score: self.score,
            descendants: self.descendants,
            time: self.time@,
            kids: self.kids@,
            kind: self.kind@,
        }
    }
}

/// A comment. `sub_comments` is the resolved form of `kids`.
#[derive(Debug, PartialEq)]
pub struct Comment {
    pub id: i64,
    pub by: String,
    pub text: String,
    pub time: Timestamp,
    /// IDs of the direct replies, in the order the remote system gives.
    pub kids: Vec<i64>,
    pub sub_comments: Vec<Comment>,
    pub kind: String,
}

/// Mathematical value of a [`Comment`]: a finite tree.
pub struct CommentView {
    pub id: i64,
    pub by: Seq<char>,
    pub text: Seq<char>,
    pub time: i64,
    pub kids: Seq<i64>,
    pub sub_comments: Seq<CommentView>,
    pub kind: Seq<char>,
}

/// The tree that a comment denotes.
pub open spec fn comment_view(c: Comment) -> CommentView
    decreases c,
{
    CommentView {
        id: c.id,
        by: c.by@,
        text: c.text@,
        time: c.time@,
        kids: c.kids@,
        sub_comments: Seq::new(
            c.sub_comments@.len(),
            |i: int|
                if 0 <= i < c.sub_comments@.len() {
                    comment_view(c.sub_comments@[i])
                } else {
                    arbitrary()
                },
        ),
        kind: c.kind@,
    }
}

/// The trees that a sequence of comments denotes, in the same order.
pub open spec fn comments_view(cs: Seq<Comment>) -> Seq<CommentView> {
    Seq::new(cs.len(), |i: int| comment_view(cs[i]))
}

impl View for Comment {
    type V = CommentView;

    open spec fn view(&self) -> CommentView {
        comment_view(*self)
    }
}

impl CommentView {
    /// The same comment with `subs` in place of its replies.
    pub open spec fn with_replies(self, subs: Seq<CommentView>) -> CommentView {
        CommentView { sub_comments: subs, ..self }
    }
}

/// The replies of a comment denote the value of its `sub_comments` field.
pub proof fn lemma_comment_view_replies(c: Comment)
    ensures
        c@.sub_comments == comments_view(c.sub_comments@),
{
    assert(c@.sub_comments =~= comments_view(c.sub_comments@));
}

/// Appending a comment appends its value.
pub proof fn lemma_comments_view_push(cs: Seq<Comment>, c: Comment)
    ensures
        comments_view(cs.push(c)) == comments_view(cs).push(c@),
{
    assert(comments_view(cs.push(c)) =~= comments_view(cs).push(c@));
}

/// A fully resolved story: the story item and the resolved forms of its kids.
#[derive(Debug, PartialEq)]
pub struct StoryPageData {
    pub item: StoryItem,
    pub comments: Vec<Comment>,
}

/// Mathematical value of a [`StoryPageData`].
pub struct StoryPageDataView {
    pub item: StoryItemView,
    pub comments: Seq<CommentView>,
}

impl View for StoryPageData {
    type V = StoryPageDataView;

    open spec fn view(&self) -> StoryPageDataView {
        StoryPageDataView { item: self.item@, comments: comments_view(self.comments@) }
    }
}

/// What the preview slot holds.
#[derive(Debug, PartialEq)]
pub enum PreviewState {
    /// Nothing has been chosen yet.
    Unset,
    /// A resolution is in flight.
    Loading,
    /// The resolution is complete and current.
    Loaded(StoryPageData),
}

/// Mathematical value of a [`PreviewState`].
pub enum PreviewStateView {
    Unset,
    Loading,
    Loaded(StoryPageDataView),
}

impl View for PreviewState {
    type V = PreviewStateView;

    open spec fn view(&self) -> PreviewStateView {
        match self {
            PreviewState::Unset => PreviewStateView::Unset,
            PreviewState::Loading => PreviewStateView::Loading,
            PreviewState::Loaded(data) => PreviewStateView::Loaded(data@),
        }
    }
}

/// Copies a list of IDs.
pub fn copy_ids(ids: &Vec<i64>) -> (copy: Vec<i64>)
    ensures
        copy@ == ids@,
{
    let copy = ids.clone();
    assert(copy@ =~= ids@);
    copy
}

/// Copies an optional string.
pub fn copy_text(text: &Option<String>) -> (copy: Option<String>)
    ensures
        text_view(copy) == text_view(*text),
{
    match text {
        Some(t) => Some(t.clone()),
        None => None,
    }
}

/// Copies a list of comments, each with all its replies.
pub fn copy_comments(comments: &Vec<Comment>) -> (copy: Vec<Comment>)
    ensures
        comments_view(copy@) == comments_view(comments@),
    decreases comments,
{
    let mut copy: Vec<Comment> = Vec::new();
    let mut i: usize = 0;
    while i < comments.len()
        invariant
            i <= comments.len(),
            copy@.len() == i,
            forall|j: int| 0 <= j < i ==> copy@[j]@ == comments@[j]@,
        decreases comments.len() - i,
    {
        let c = &comments[i];
        copy.push(c.clone());
        i = i + 1;
    }
    assert(comments_view(copy@) =~= comments_view(comments@));
    copy
}

impl Clone for Comment {
    fn clone(&self) -> (copy: Comment)
        ensures
            copy@ == self@,
        decreases self,
    {
        let copy = Comment {
            id: self.id,
            by: self.by.clone(),
            text: self.text.clone(),
            time: self.time,
            kids: copy_ids(&self.kids),
            sub_comments: copy_comments(&self.sub_comments),
            kind: self.kind.clone(),
        };
        proof {
            lemma_comment_view_replies(copy);
            lemma_comment_view_replies(*self);
        }
        copy
    }
}

impl Clone for StoryItem {
    fn clone(&self) -> (copy: StoryItem)
        ensures
            copy@ == self@,
    {
        StoryItem {
            id: self.id,
            title: self.title.clone(),
            url: copy_text(&self.url),
            text: copy_text(&self.text),
            by: self.by.clone(),
            score: self.score,
            descendants: self.descendants,
            time: self.time,
            kids: copy_ids(&self.kids),
            kind: self.kind.clone(),
        }
    }
}

impl Clone for StoryPageData {
    fn clone(&self) -> (copy: StoryPageData)
        ensures
            copy@ == self@,
    {
        StoryPageData { item: self.item.clone(), comments: copy_comments(&self.comments) }
    }
}

impl Clone for PreviewState {
    fn clone(&self) -> (copy: PreviewState)
        ensures
            copy@ == self@,
    {
        match self {
            PreviewState::Unset => PreviewState::Unset,
            PreviewState::Loading => PreviewState::Loading,
            PreviewState::Loaded(data) => PreviewState::Loaded(data.clone()),
        }
    }
}

} // verus!
