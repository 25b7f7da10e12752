//! The rows of the cache and the forms in which they are inserted, each with
//! its mathematical view.

use vstd::prelude::*;

verus! {

/// The view of an optional text.
pub open spec fn opt_text(text: Option<String>) -> Option<Seq<char>> {
    match text {
        Some(t) => Some(t@),
        None => None,
    }
}

/// A copy of an optional text.
pub fn copy_opt_text(text: &Option<String>) -> (r: Option<String>)
    ensures
        r == *text,
{
    match text {
        Some(t) => Some(t.clone()),
        None => None,
    }
}

/// A tracked repository.
#[derive(Debug)]
pub struct Repository {
    pub id: i32,
    pub user: String,
    pub name: String,
}

/// A repository as the model sees it.
pub struct RepositoryView {
    pub id: int,
    pub user: Seq<char>,
    pub name: Seq<char>,
}

impl View for Repository {
    type V = RepositoryView;

    open spec fn view(&self) -> RepositoryView {
        RepositoryView { id: self.id as int, user: self.user@, name: self.name@ }
    }
}

impl Repository {
    /// A copy of the row.
    pub fn duplicate(&self) -> (r: Repository)
        ensures
            r == *self,
    {
        Repository { id: self.id, user: self.user.clone(), name: self.name.clone() }
    }
}

/// A repository that is to be tracked.
#[derive(Debug)]
pub struct NewRepository {
    pub user: String,
    pub name: String,
}

/// An issue or pull request of a tracked repository.
#[derive(Debug)]
pub struct Issue {
    pub id: i32,
    pub repository_id: i32,
    pub number: i32,
    pub title: String,
    pub body: String,
    pub created_at: String,
    pub state: String,
    pub is_pull_request: bool,
    pub author: Option<String>,
    pub last_synced_at: Option<String>,
}

/// An issue as the model sees it.
pub struct IssueView {
    pub id: int,
    pub repository_id: int,
    pub number: int,
    pub title: Seq<char>,
    pub body: Seq<char>,
    pub created_at: Seq<char>,
    pub state: Seq<char>,
    pub is_pull_request: bool,
    pub author: Option<Seq<char>>,
    pub last_synced_at: Option<Seq<char>>,
}

impl View for Issue {
    type V = IssueView;

    open spec fn view(&self) -> IssueView {
        IssueView {
            id: self.id as int,
            repository_id: self.repository_id as int,
            number: self.number as int,
            title: self.title@,
            body: self.body@,
            created_at: self.created_at@,
            state: self.state@,
            is_pull_request: self.is_pull_request,
            author: opt_text(self.author),
            last_synced_at: opt_text(self.last_synced_at),
        }
    }
}

impl Issue {
    /// A copy of the row.
    pub fn duplicate(&self) -> (r: Issue)
        ensures
            r == *self,
    {
        Issue {
            id: self.id,
            repository_id: self.repository_id,
            number: self.number,
            title: self.title.clone(),
            body: self.body.clone(),
            created_at: self.created_at.clone(),
            state: self.state.clone(),
            is_pull_request: self.is_pull_request,
            author: copy_opt_text(&self.author),
            last_synced_at: copy_opt_text(&self.last_synced_at),
        }
    }
}

/// An issue as it arrives for insertion or update.
#[derive(Debug)]
pub struct NewIssue {
    pub repository_id: i32,
    pub number: i32,
    pub title: String,
    pub body: String,
    pub created_at: String,
    pub state: String,
    pub is_pull_request: bool,
    pub author: Option<String>,
    pub last_synced_at: Option<String>,
}

/// An arriving issue as the model sees it.
pub struct NewIssueView {
    pub repository_id: int,
    pub number: int,
    pub title: Seq<char>,
    pub body: Seq<char>,
    pub created_at: Seq<char>,
    pub state: Seq<char>,
    pub is_pull_request: bool,
    pub author: Option<Seq<char>>,
    pub last_synced_at: Option<Seq<char>>,
}

impl View for NewIssue {
    type V = NewIssueView;

    open spec fn view(&self) -> NewIssueView {
        NewIssueView {
            repository_id: self.repository_id as int,
            number: self.number as int,
            title: self.title@,
            body: self.body@,
            created_at: self.created_at@,
            state: self.state@,
            is_pull_request: self.is_pull_request,
            author: opt_text(self.author),
            last_synced_at: opt_text(self.last_synced_at),
        }
    }
}

/// A label, shared by all repositories.
#[derive(Debug)]
pub struct Label {
    pub id: i32,
    pub name: String,
}

/// A label as the model sees it.
pub struct LabelView {
    pub id: int,
    pub name: Seq<char>,
}

impl View for Label {
    type V = LabelView;

    open spec fn view(&self) -> LabelView {
        LabelView { id: self.id as int, name: self.name@ }
    }
}

impl Label {
    /// A copy of the row.
    pub fn duplicate(&self) -> (r: Label)
        ensures
            r == *self,
    {
        Label { id: self.id, name: self.name.clone() }
    }
}

/// A label that is to be recorded.
#[derive(Debug)]
pub struct NewLabel {
    pub name: String,
}

/// The attachment of a label to an issue.
#[derive(Clone, Copy, Debug, PartialEq, Eq, Structural)]
pub struct IssueLabel {
    pub id: i32,
    pub issue_id: i32,
    pub label_id: i32,
}

/// An attachment as the model sees it.
pub struct IssueLabelView {
    pub id: int,
    pub issue_id: int,
    pub label_id: int,
}

impl View for IssueLabel {
    type V = IssueLabelView;

    open spec fn view(&self) -> IssueLabelView {
        IssueLabelView {
            id: self.id as int,
            issue_id: self.issue_id as int,
            label_id: self.label_id as int,
        }
    }
}

/// An attachment that is to be recorded.
#[derive(Clone, Copy, Debug, PartialEq, Eq, Structural)]
pub struct NewIssueLabel {
    pub issue_id: i32,
    pub label_id: i32,
}

/// The tally of one kind of reaction to an issue.
#[derive(Debug)]
pub struct IssueReaction {
    pub id: i32,
    pub issue_id: i32,
    pub reaction_type: String,
    pub count: i32,
}

/// A tally as the model sees it.
pub struct IssueReactionView {
    pub id: int,
    pub issue_id: int,
    pub reaction_type: Seq<char>,
    pub count: int,
}

impl View for IssueReaction {
    type V = IssueReactionView;

    open spec fn view(&self) -> IssueReactionView {
        IssueReactionView {
            id: self.id as int,
            issue_id: self.issue_id as int,
            reaction_type: self.reaction_type@,
            count: self.count as int,
        }
    }
}

impl IssueReaction {
    /// A copy of the row.
    pub fn duplicate(&self) -> (r: IssueReaction)
        ensures
            r == *self,
    {
        IssueReaction {
            id: self.id,
            issue_id: self.issue_id,
            reaction_type: self.reaction_type.clone(),
            count: self.count,
        }
    }
}

/// A tally that is to be recorded.
#[derive(Debug)]
pub struct NewIssueReaction {
    pub issue_id: i32,
    pub reaction_type: String,
    pub count: i32,
}

} // verus!
