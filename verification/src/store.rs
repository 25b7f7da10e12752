//! The cache itself: rows held in memory, written and read through
//! operations that keep the tables consistent.

use vstd::prelude::*;
use crate::error::SyncError;
use crate::models::{
    copy_opt_text, Issue, IssueLabel, IssueLabelView, IssueReaction, IssueReactionView,
    IssueView, Label, LabelView, NewIssue, NewIssueLabel, NewIssueReaction, NewLabel,
    NewRepository, Repository, RepositoryView,
};
use crate::store_model::{
    id_limit, issue_id_known, issue_ids, issue_label_ids, issue_labels_ok, issue_reaction_ids,
    issue_reactions_ok, issues_ok, label_id_known, label_ids, labels_ok, largest_id,
    lemma_largest_id_push, repositories_ok, repository_ids, StoreView,
};

verus! {

/// A row that carries an id.
pub trait Identified {
    /// The id of the row.
    spec fn ident(&self) -> int;

    /// The id of the row.
    fn id_of(&self) -> (r: i32)
        ensures
            r as int == self.ident(),
    ;
}

impl Identified for Repository {
    open spec fn ident(&self) -> int {
        self.id as int
    }

    fn id_of(&self) -> (r: i32) {
        self.id
    }
}

impl Identified for Issue {
    open spec fn ident(&self) -> int {
        self.id as int
    }

    fn id_of(&self) -> (r: i32) {
        self.id
    }
}

impl Identified for Label {
    open spec fn ident(&self) -> int {
        self.id as int
    }

    fn id_of(&self) -> (r: i32) {
        self.id
    }
}

impl Identified for IssueLabel {
    open spec fn ident(&self) -> int {
        self.id as int
    }

    fn id_of(&self) -> (r: i32) {
        self.id
    }
}

impl Identified for IssueReaction {
    open spec fn ident(&self) -> int {
        self.id as int
    }

    fn id_of(&self) -> (r: i32) {
        self.id
    }
}

/// The ids of the rows, in their order.
pub open spec fn idents<R: Identified>(rows: Seq<R>) -> Seq<int> {
    rows.map_values(|r: R| r.ident())
}

/// The largest id among the rows; 0 where none is positive.
pub fn largest_ident<R: Identified>(rows: &Vec<R>) -> (r: i32)
    ensures
        r as int == largest_id(idents(rows@)),
{
    let mut largest: i32 = 0;
    let mut i: usize = 0;
    while i < rows.len()
        invariant
            i <= rows.len(),
            largest as int == largest_id(idents(rows@.take(i as int))),
        decreases rows.len() - i,
    {
        let id: i32 = rows[i].id_of();
        proof {
            lemma_largest_id_push(idents(rows@.take(i as int)), id as int);
            assert(idents(rows@.take(i as int + 1)) =~= idents(rows@.take(i as int)).push(
                id as int,
            ));
        }
        if id > largest {
            largest = id;
        }
        i += 1;
    }
    proof {
        assert(rows@.take(rows.len() as int) =~= rows@);
    }
    largest
}

/// The repositories as the model sees them.
pub open spec fn repository_views(rows: Seq<Repository>) -> Seq<RepositoryView> {
    rows.map_values(|r: Repository| r@)
}

/// The issues as the model sees them.
pub open spec fn issue_views(rows: Seq<Issue>) -> Seq<IssueView> {
    rows.map_values(|r: Issue| r@)
}

/// The labels as the model sees them.
pub open spec fn label_views(rows: Seq<Label>) -> Seq<LabelView> {
    rows.map_values(|r: Label| r@)
}

/// The attachments as the model sees them.
pub open spec fn issue_label_views(rows: Seq<IssueLabel>) -> Seq<IssueLabelView> {
    rows.map_values(|r: IssueLabel| r@)
}

/// The tallies as the model sees them.
pub open spec fn issue_reaction_views(rows: Seq<IssueReaction>) -> Seq<IssueReactionView> {
    rows.map_values(|r: IssueReaction| r@)
}

/// The cache: repositories, their issues, labels, and what joins issues to
/// labels and to reaction tallies.
pub struct Store {
    repositories: Vec<Repository>,
    issues: Vec<Issue>,
    labels: Vec<Label>,
    issue_labels: Vec<IssueLabel>,
    issue_reactions: Vec<IssueReaction>,
}

impl View for Store {
    type V = StoreView;

    closed spec fn view(&self) -> StoreView {
        StoreView {
            repositories: repository_views(self.repositories@),
            issues: issue_views(self.issues@),
            labels: label_views(self.labels@),
            issue_labels: issue_label_views(self.issue_labels@),
            issue_reactions: issue_reaction_views(self.issue_reactions@),
        }
    }
}

impl Store {
    /// The tables are consistent.
    pub open spec fn wf(&self) -> bool {
        self@.wf()
    }

    /// A cache without a row.
    pub fn new() -> (r: Store)
        ensures
            r.wf(),
            r@ == StoreView::empty(),
    {
        let r = Store {
            repositories: Vec::new(),
            issues: Vec::new(),
            labels: Vec::new(),
            issue_labels: Vec::new(),
            issue_reactions: Vec::new(),
        };
        proof {
            assert(r@.repositories =~= Seq::empty());
            assert(r@.issues =~= Seq::empty());
            assert(r@.labels =~= Seq::empty());
            assert(r@.issue_labels =~= Seq::empty());
            assert(r@.issue_reactions =~= Seq::empty());
        }
        r
    }

    /// Whether the repositories are consistent.
    fn repositories_consistent(&self) -> (r: bool)
        ensures
            r == repositories_ok(self@.repositories),
    {
        let rows = &self.repositories;
        let ghost views = self@.repositories;
        let mut j: usize = 0;
        while j < rows.len()
            invariant
                j <= rows.len(),
                views == repository_views(rows@),
                views == self@.repositories,
                forall|a: int| 0 <= a < j ==> 1 <= (#[trigger] views[a]).id <= id_limit(),
                forall|a: int, b: int|
                    0 <= a < b < j ==> (#[trigger] views[a]).id != (#[trigger] views[b]).id,
                forall|a: int, b: int|
                    0 <= a < b < j ==> !((#[trigger] views[a]).user == (#[trigger] views[b]).user
                        && views[a].name == views[b].name),
            decreases rows.len() - j,
        {
            if rows[j].id < 1 {
                assert(views[j as int].id < 1);
                return false;
            }
            let mut i: usize = 0;
            while i < j
                invariant
                    i <= j < rows.len(),
                    views == repository_views(rows@),
                    views == self@.repositories,
                    forall|a: int| 0 <= a < i ==> (#[trigger] views[a]).id != views[j as int].id,
                    forall|a: int|
                        0 <= a < i ==> !((#[trigger] views[a]).user == views[j as int].user
                            && views[a].name == views[j as int].name),
                decreases j - i,
            {
                if rows[i].id == rows[j].id || (rows[i].user == rows[j].user && rows[i].name
                    == rows[j].name) {
                    assert(views[i as int].id == views[j as int].id || (views[i as int].user
                        == views[j as int].user && views[i as int].name == views[j as int].name));
                    return false;
                }
                i += 1;
            }
            j += 1;
        }
        true
    }

    /// Whether the issues are consistent.
    fn issues_consistent(&self) -> (r: bool)
        ensures
            r == issues_ok(self@.issues),
    {
        let rows = &self.issues;
        let ghost views = self@.issues;
        let mut j: usize = 0;
        while j < rows.len()
            invariant
                j <= rows.len(),
                views == issue_views(rows@),
                views == self@.issues,
                forall|a: int| 0 <= a < j ==> 1 <= (#[trigger] views[a]).id <= id_limit(),
                forall|a: int, b: int|
                    0 <= a < b < j ==> (#[trigger] views[a]).id != (#[trigger] views[b]).id,
                forall|a: int, b: int|
                    0 <= a < b < j ==> !((#[trigger] views[a]).repository_id == (
                    #[trigger] views[b]).repository_id && views[a].number == views[b].number),
            decreases rows.len() - j,
        {
            if rows[j].id < 1 {
                assert(views[j as int].id < 1);
                return false;
            }
            let mut i: usize = 0;
            while i < j
                invariant
                    i <= j < rows.len(),
                    views == issue_views(rows@),
                    views == self@.issues,
                    forall|a: int| 0 <= a < i ==> (#[trigger] views[a]).id != views[j as int].id,
                    forall|a: int|
                        0 <= a < i ==> !((#[trigger] views[a]).repository_id
                            == views[j as int].repository_id && views[a].number
                            == views[j as int].number),
                decreases j - i,
            {
                if rows[i].id == rows[j].id || (rows[i].repository_id == rows[j].repository_id
                    && rows[i].number == rows[j].number) {
                    assert(views[i as int].id == views[j as int].id || (
                    views[i as int].repository_id == views[j as int].repository_id
                        && views[i as int].number == views[j as int].number));
                    return false;
                }
                i += 1;
            }
            j += 1;
        }
        true
    }

    /// Whether the labels are consistent.
    fn labels_consistent(&self) -> (r: bool)
        ensures
            r == labels_ok(self@.labels),
    {
        let rows = &self.labels;
        let ghost views = self@.labels;
        let mut j: usize = 0;
        while j < rows.len()
            invariant
                j <= rows.len(),
                views == label_views(rows@),
                views == self@.labels,
                forall|a: int| 0 <= a < j ==> 1 <= (#[trigger] views[a]).id <= id_limit(),
                forall|a: int, b: int|
                    0 <= a < b < j ==> (#[trigger] views[a]).id != (#[trigger] views[b]).id,
                forall|a: int, b: int|
                    0 <= a < b < j ==> (#[trigger] views[a]).name != (#[trigger] views[b]).name,
            decreases rows.len() - j,
        {
            if rows[j].id < 1 {
                assert(views[j as int].id < 1);
                return false;
            }
            let mut i: usize = 0;
            while i < j
                invariant
                    i <= j < rows.len(),
                    views == label_views(rows@),
                    views == self@.labels,
                    forall|a: int| 0 <= a < i ==> (#[trigger] views[a]).id != views[j as int].id,
                    forall|a: int| 0 <= a < i ==> (#[trigger] views[a]).name != views[j as int].name,
                decreases j - i,
            {
                if rows[i].id == rows[j].id || rows[i].name == rows[j].name {
                    assert(views[i as int].id == views[j as int].id || views[i as int].name
                        == views[j as int].name);
                    return false;
                }
                i += 1;
            }
            j += 1;
        }
        true
    }

    /// Whether the attachments are consistent in themselves and with the
    /// issues and labels.
    fn issue_labels_consistent(&self) -> (r: bool)
        ensures
            r == issue_labels_ok(self@.issue_labels, self@.issues, self@.labels),
    {
        let rows = &self.issue_labels;
        let ghost views = self@.issue_labels;
        let mut j: usize = 0;
        while j < rows.len()
            invariant
                j <= rows.len(),
                views == issue_label_views(rows@),
                views == self@.issue_labels,
                forall|a: int| 0 <= a < j ==> 1 <= (#[trigger] views[a]).id <= id_limit(),
                forall|a: int, b: int|
                    0 <= a < b < j ==> (#[trigger] views[a]).id != (#[trigger] views[b]).id,
                forall|a: int, b: int|
                    0 <= a < b < j ==> !((#[trigger] views[a]).issue_id == (
                    #[trigger] views[b]).issue_id && views[a].label_id == views[b].label_id),
                forall|a: int|
                    0 <= a < j ==> issue_id_known(self@.issues, (#[trigger] views[a]).issue_id)
                        && label_id_known(self@.labels, views[a].label_id),
            decreases rows.len() - j,
        {
            if rows[j].id < 1 || !self.knows_issue_id(rows[j].issue_id) || !self.knows_label_id(
                rows[j].label_id,
            ) {
                assert(views[j as int].id < 1 || !issue_id_known(
                    self@.issues,
                    views[j as int].issue_id,
                ) || !label_id_known(self@.labels, views[j as int].label_id));
                return false;
            }
            let mut i: usize = 0;
            while i < j
                invariant
                    i <= j < rows.len(),
                    views == issue_label_views(rows@),
                    views == self@.issue_labels,
                    forall|a: int| 0 <= a < i ==> (#[trigger] views[a]).id != views[j as int].id,
                    forall|a: int|
                        0 <= a < i ==> !((#[trigger] views[a]).issue_id == views[j as int].issue_id
                            && views[a].label_id == views[j as int].label_id),
                decreases j - i,
            {
                if rows[i].id == rows[j].id || (rows[i].issue_id == rows[j].issue_id
                    && rows[i].label_id == rows[j].label_id) {
                    assert(views[i as int].id == views[j as int].id || (views[i as int].issue_id
                        == views[j as int].issue_id && views[i as int].label_id
                        == views[j as int].label_id));
                    return false;
                }
                i += 1;
            }
            j += 1;
        }
        true
    }

    /// Whether the tallies are consistent in themselves and with the issues.
    fn issue_reactions_consistent(&self) -> (r: bool)
        ensures
            r == issue_reactions_ok(self@.issue_reactions, self@.issues),
    {
        let rows = &self.issue_reactions;
        let ghost views = self@.issue_reactions;
        let mut j: usize = 0;
        while j < rows.len()
            invariant
                j <= rows.len(),
                views == issue_reaction_views(rows@),
                views == self@.issue_reactions,
                forall|a: int| 0 <= a < j ==> 1 <= (#[trigger] views[a]).id <= id_limit(),
                forall|a: int, b: int|
                    0 <= a < b < j ==> (#[trigger] views[a]).id != (#[trigger] views[b]).id,
                forall|a: int, b: int|
                    0 <= a < b < j ==> !((#[trigger] views[a]).issue_id == (
                    #[trigger] views[b]).issue_id && views[a].reaction_type
                        == views[b].reaction_type),
                forall|a: int|
                    0 <= a < j ==> issue_id_known(self@.issues, (#[trigger] views[a]).issue_id),
            decreases rows.len() - j,
        {
            if rows[j].id < 1 || !self.knows_issue_id(rows[j].issue_id) {
                assert(views[j as int].id < 1 || !issue_id_known(
                    self@.issues,
                    views[j as int].issue_id,
                ));
                return false;
            }
            let mut i: usize = 0;
            while i < j
                invariant
                    i <= j < rows.len(),
                    views == issue_reaction_views(rows@),
                    views == self@.issue_reactions,
                    forall|a: int| 0 <= a < i ==> (#[trigger] views[a]).id != views[j as int].id,
                    forall|a: int|
                        0 <= a < i ==> !((#[trigger] views[a]).issue_id == views[j as int].issue_id
                            && views[a].reaction_type == views[j as int].reaction_type),
                decreases j - i,
            {
                if rows[i].id == rows[j].id || (rows[i].issue_id == rows[j].issue_id
                    && rows[i].reaction_type == rows[j].reaction_type) {
                    assert(views[i as int].id == views[j as int].id || (views[i as int].issue_id
                        == views[j as int].issue_id && views[i as int].reaction_type
                        == views[j as int].reaction_type));
                    return false;
                }
                i += 1;
            }
            j += 1;
        }
        true
    }

    /// The cache that holds the given rows, where they are consistent:
    /// positive ids, none shared within a table; no two repositories of one
    /// owner and name, no two issues of one repository and number, no two
    /// labels of one name, no two attachments of one issue and label, no two
    /// tallies of one issue and kind; every attachment and tally pointing to
    /// rows that are there.
    pub fn from_rows(
        repositories: Vec<Repository>,
        issues: Vec<Issue>,
        labels: Vec<Label>,
        issue_labels: Vec<IssueLabel>,
        issue_reactions: Vec<IssueReaction>,
    ) -> (r: Option<Store>)
        ensures
            match r {
                Some(store) => store.wf() && store@ == rows_view(
                    repositories@,
                    issues@,
                    labels@,
                    issue_labels@,
                    issue_reactions@,
                ),
                None => !rows_view(
                    repositories@,
                    issues@,
                    labels@,
                    issue_labels@,
                    issue_reactions@,
                ).wf(),
            },
    {
        let store = Store { repositories, issues, labels, issue_labels, issue_reactions };
        if store.repositories_consistent() && store.issues_consistent()
            && store.labels_consistent() && store.issue_labels_consistent()
            && store.issue_reactions_consistent() {
            Some(store)
        } else {
            None
        }
    }

    // ----- repositories -----

    /// Where the repository's row stands, if it is tracked.
    fn find_repository(&self, user: &String, name: &String) -> (r: Option<usize>)
        ensures
            match r {
                Some(i) => self@.repository_at(i as int, user@, name@),
                None => !self@.tracks(user@, name@),
            },
    {
        let mut i: usize = 0;
        while i < self.repositories.len()
            invariant
                i <= self.repositories.len(),
                forall|k: int| 0 <= k < i ==> !self@.repository_at(k, user@, name@),
            decreases self.repositories.len() - i,
        {
            if self.repositories[i].user == *user && self.repositories[i].name == *name {
                return Some(i);
            }
            i += 1;
        }
        None
    }

    /// The id under which the repository is tracked.
    pub fn repository_id(&self, user: &str, name: &str) -> (r: Option<i32>)
        requires
            self.wf(),
        ensures
            opt_id(r) == self@.repository_id(user@, name@),
    {
        let user = user.to_owned();
        let name = name.to_owned();
        match self.find_repository(&user, &name) {
            Some(i) => {
                proof {
                    self@.lemma_repository_index(i as int, user@, name@);
                }
                Some(self.repositories[i].id)
            },
            None => None,
        }
    }

    /// Starts tracking a repository. A repository that is tracked already is
    /// refused, and so is one for which no id is left.
    pub fn insert_repository(&mut self, new: NewRepository) -> (r: Result<i32, SyncError>)
        requires
            old(self).wf(),
        ensures
            final(self).wf(),
            final(self)@ == old(self)@.track(new.user@, new.name@),
            match r {
                Ok(id) => old(self)@.can_track(new.user@, new.name@) && id as int == old(
                    self,
                )@.next_repository_id(),
                Err(e) => if old(self)@.tracks(new.user@, new.name@) {
                    e == SyncError::Conflict
                } else {
                    e == SyncError::Store && old(self)@.next_repository_id() > id_limit()
                },
            },
    {
        if self.find_repository(&new.user, &new.name).is_some() {
            return Err(SyncError::Conflict);
        }
        let largest: i32 = largest_ident(&self.repositories);
        proof {
            assert(idents(self.repositories@) =~= repository_ids(self@.repositories));
        }
        if largest == i32::MAX {
            return Err(SyncError::Store);
        }
        let id: i32 = largest + 1;
        let ghost before = self@;
        let row = Repository { id, user: new.user, name: new.name };
        self.repositories.push(row);
        proof {
            assert(self@.repositories =~= before.repositories.push(row@));
            before.lemma_track_consistent(row@.user, row@.name);
        }
        Ok(id)
    }

    /// Stops tracking a repository and says whether it was tracked. Its
    /// issues stay in the cache.
    pub fn remove_repository(&mut self, user: &str, name: &str) -> (r: bool)
        requires
            old(self).wf(),
        ensures
            final(self).wf(),
            final(self)@ == old(self)@.untrack(user@, name@),
            r == old(self)@.tracks(user@, name@),
    {
        let user = user.to_owned();
        let name = name.to_owned();
        match self.find_repository(&user, &name) {
            Some(i) => {
                let ghost before = self@;
                proof {
                    before.lemma_repository_index(i as int, user@, name@);
                }
                self.repositories.remove(i);
                proof {
                    assert(self@.repositories =~= before.repositories.remove(i as int));
                    before.lemma_untrack_consistent(user@, name@);
                }
                true
            },
            None => false,
        }
    }

    // ----- issues -----

    /// Where the issue's row stands, if it is cached.
    fn find_issue(&self, repository_id: i32, number: i32) -> (r: Option<usize>)
        ensures
            match r {
                Some(i) => self@.issue_at(i as int, repository_id as int, number as int),
                None => !self@.has_issue(repository_id as int, number as int),
            },
    {
        let mut i: usize = 0;
        while i < self.issues.len()
            invariant
                i <= self.issues.len(),
                forall|k: int|
                    0 <= k < i ==> !self@.issue_at(k, repository_id as int, number as int),
            decreases self.issues.len() - i,
        {
            if self.issues[i].repository_id == repository_id && self.issues[i].number == number {
                return Some(i);
            }
            i += 1;
        }
        None
    }

    /// Whether some issue has the id.
    fn knows_issue_id(&self, id: i32) -> (r: bool)
        ensures
            r == issue_id_known(self@.issues, id as int),
    {
        let mut i: usize = 0;
        while i < self.issues.len()
            invariant
                i <= self.issues.len(),
                forall|k: int| 0 <= k < i ==> (#[trigger] self@.issues[k]).id != id as int,
            decreases self.issues.len() - i,
        {
            if self.issues[i].id == id {
                assert(self@.issues[i as int].id == id as int);
                return true;
            }
            i += 1;
        }
        false
    }

    /// The cached row of the repository's issue of that number.
    pub fn issue(&self, repository_id: i32, number: i32) -> (r: Option<Issue>)
        requires
            self.wf(),
        ensures
            opt_issue(r) == self@.issue(repository_id as int, number as int),
    {
        match self.find_issue(repository_id, number) {
            Some(i) => {
                proof {
                    self@.lemma_issue_index(i as int, repository_id as int, number as int);
                }
                Some(self.issues[i].duplicate())
            },
            None => None,
        }
    }

    /// Writes an issue and hands out the id of its row. Where a row for the
    /// repository and number exists, it takes the new title, body, state and
    /// stamp and keeps its id, author, creation time and kind. Otherwise a row
    /// is added. Fails only where a row is needed and no id is left.
    pub fn upsert_issue(&mut self, new: NewIssue) -> (r: Result<i32, SyncError>)
        requires
            old(self).wf(),
        ensures
            final(self).wf(),
            final(self)@ == old(self)@.upsert_issue(new@),
            match r {
                Ok(id) => old(self)@.can_upsert_issue(new@) && final(self)@.issue_id(
                    new@.repository_id,
                    new@.number,
                ) == Some(id as int),
                Err(e) => e == SyncError::Store && !old(self)@.can_upsert_issue(new@),
            },
    {
        let ghost before = self@;
        let ghost repository_id = new@.repository_id;
        let ghost number = new@.number;
        match self.find_issue(new.repository_id, new.number) {
            Some(i) => {
                proof {
                    before.lemma_issue_index(i as int, repository_id, number);
                }
                let kept = &self.issues[i];
                let id: i32 = kept.id;
                let row = Issue {
                    id,
                    repository_id: kept.repository_id,
                    number: kept.number,
                    title: new.title,
                    body: new.body,
                    created_at: kept.created_at.clone(),
                    state: new.state,
                    is_pull_request: kept.is_pull_request,
                    author: copy_opt_text(&kept.author),
                    last_synced_at: new.last_synced_at,
                };
                self.issues.set(i, row);
                proof {
                    assert(self@.issues =~= before.issues.update(i as int, row@));
                    before.lemma_upsert_issue_consistent(new@);
                    assert(self@.issue_at(i as int, repository_id, number));
                    self@.lemma_issue_index(i as int, repository_id, number);
                }
                Ok(id)
            },
            None => {
                let largest: i32 = largest_ident(&self.issues);
                proof {
                    assert(idents(self.issues@) =~= issue_ids(before.issues));
                }
                if largest == i32::MAX {
                    return Err(SyncError::Store);
                }
                let id: i32 = largest + 1;
                let row = Issue {
                    id,
                    repository_id: new.repository_id,
                    number: new.number,
                    title: new.title,
                    body: new.body,
                    created_at: new.created_at,
                    state: new.state,
                    is_pull_request: new.is_pull_request,
                    author: new.author,
                    last_synced_at: new.last_synced_at,
                };
                self.issues.push(row);
                proof {
                    assert(self@.issues =~= before.issues.push(row@));
                    before.lemma_upsert_issue_consistent(new@);
                    let last = before.issues.len() as int;
                    assert(self@.issue_at(last, repository_id, number));
                    self@.lemma_issue_index(last, repository_id, number);
                }
                Ok(id)
            },
        }
    }

    /// The cached issues, in the order in which they were first written.
    pub fn issues(&self) -> (r: &Vec<Issue>)
        ensures
            issue_views(r@) == self@.issues,
    {
        &self.issues
    }

    // ----- labels -----

    /// Where the label's row stands, if the label is recorded.
    fn find_label(&self, name: &String) -> (r: Option<usize>)
        ensures
            match r {
                Some(i) => self@.label_at(i as int, name@),
                None => !self@.has_label(name@),
            },
    {
        let mut i: usize = 0;
        while i < self.labels.len()
            invariant
                i <= self.labels.len(),
                forall|k: int| 0 <= k < i ==> !self@.label_at(k, name@),
            decreases self.labels.len() - i,
        {
            if self.labels[i].name == *name {
                return Some(i);
            }
            i += 1;
        }
        None
    }

    /// Whether some label has the id.
    fn knows_label_id(&self, id: i32) -> (r: bool)
        ensures
            r == label_id_known(self@.labels, id as int),
    {
        let mut i: usize = 0;
        while i < self.labels.len()
            invariant
                i <= self.labels.len(),
                forall|k: int| 0 <= k < i ==> (#[trigger] self@.labels[k]).id != id as int,
            decreases self.labels.len() - i,
        {
            if self.labels[i].id == id {
                assert(self@.labels[i as int].id == id as int);
                return true;
            }
            i += 1;
        }
        false
    }

    /// The id of the label of that name.
    pub fn label_id(&self, name: &str) -> (r: Option<i32>)
        requires
            self.wf(),
        ensures
            opt_id(r) == self@.label_id(name@),
    {
        let name = name.to_owned();
        match self.find_label(&name) {
            Some(i) => {
                proof {
                    self@.lemma_label_index(i as int, name@);
                }
                Some(self.labels[i].id)
            },
            None => None,
        }
    }

    /// Records a label unless one of that name is there already, and hands
    /// out the id under which the name is then found: `None` only where the
    /// label was missing and no id was left for it.
    pub fn ensure_label(&mut self, new: NewLabel) -> (r: Option<i32>)
        requires
            old(self).wf(),
        ensures
            final(self).wf(),
            final(self)@ == old(self)@.with_label(new.name@),
            opt_id(r) == final(self)@.label_id(new.name@),
    {
        let ghost before = self@;
        let ghost name = new.name@;
        match self.find_label(&new.name) {
            Some(i) => {
                proof {
                    before.lemma_label_index(i as int, name);
                }
                Some(self.labels[i].id)
            },
            None => {
                let largest: i32 = largest_ident(&self.labels);
                proof {
                    assert(idents(self.labels@) =~= label_ids(before.labels));
                }
                if largest == i32::MAX {
                    return None;
                }
                let id: i32 = largest + 1;
                let row = Label { id, name: new.name };
                self.labels.push(row);
                proof {
                    assert(self@.labels =~= before.labels.push(row@));
                    before.lemma_with_label_consistent(name);
                    let last = before.labels.len() as int;
                    assert(self@.label_at(last, name));
                    self@.lemma_label_index(last, name);
                }
                Some(id)
            },
        }
    }

    /// The recorded labels, in the order in which they were first seen.
    pub fn labels(&self) -> (r: &Vec<Label>)
        ensures
            label_views(r@) == self@.labels,
    {
        &self.labels
    }

    // ----- attachments of labels -----

    /// Whether the label is attached to the issue.
    pub fn is_linked(&self, issue_id: i32, label_id: i32) -> (r: bool)
        ensures
            r == self@.linked(issue_id as int, label_id as int),
    {
        let mut i: usize = 0;
        while i < self.issue_labels.len()
            invariant
                i <= self.issue_labels.len(),
                forall|k: int| 0 <= k < i ==> !self@.link_at(k, issue_id as int, label_id as int),
            decreases self.issue_labels.len() - i,
        {
            if self.issue_labels[i].issue_id == issue_id && self.issue_labels[i].label_id
                == label_id {
                assert(self@.link_at(i as int, issue_id as int, label_id as int));
                return true;
            }
            i += 1;
        }
        false
    }

    /// Attaches a label to an issue unless it is attached already, and says
    /// whether the two are joined afterwards. Nothing is written where the
    /// issue or the label does not exist or no id is left.
    pub fn link_label(&mut self, new: NewIssueLabel) -> (r: bool)
        requires
            old(self).wf(),
        ensures
            final(self).wf(),
            final(self)@ == old(self)@.with_link(new.issue_id as int, new.label_id as int),
            r == final(self)@.linked(new.issue_id as int, new.label_id as int),
    {
        let ghost before = self@;
        if self.is_linked(new.issue_id, new.label_id) {
            return true;
        }
        if !self.knows_issue_id(new.issue_id) || !self.knows_label_id(new.label_id) {
            return false;
        }
        let largest: i32 = largest_ident(&self.issue_labels);
        proof {
            assert(idents(self.issue_labels@) =~= issue_label_ids(before.issue_labels));
        }
        if largest == i32::MAX {
            return false;
        }
        let id: i32 = largest + 1;
        let row = IssueLabel { id, issue_id: new.issue_id, label_id: new.label_id };
        self.issue_labels.push(row);
        proof {
            assert(self@.issue_labels =~= before.issue_labels.push(row@));
            before.lemma_with_link_consistent(row@.issue_id, row@.label_id);
            let last = before.issue_labels.len() as int;
            assert(self@.link_at(last, row@.issue_id, row@.label_id));
        }
        true
    }

    /// The attachments, in the order in which they were made.
    pub fn issue_labels(&self) -> (r: &Vec<IssueLabel>)
        ensures
            issue_label_views(r@) == self@.issue_labels,
    {
        &self.issue_labels
    }

    // ----- reaction tallies -----

    /// Where the tally's row stands, if there is one.
    fn find_reaction(&self, issue_id: i32, kind: &String) -> (r: Option<usize>)
        ensures
            match r {
                Some(i) => self@.reaction_at(i as int, issue_id as int, kind@),
                None => !self@.has_reaction(issue_id as int, kind@),
            },
    {
        let mut i: usize = 0;
        while i < self.issue_reactions.len()
            invariant
                i <= self.issue_reactions.len(),
                forall|k: int| 0 <= k < i ==> !self@.reaction_at(k, issue_id as int, kind@),
            decreases self.issue_reactions.len() - i,
        {
            if self.issue_reactions[i].issue_id == issue_id && self.issue_reactions[i].reaction_type
                == *kind {
                return Some(i);
            }
            i += 1;
        }
        None
    }

    /// The count of that kind of reaction to the issue.
    pub fn reaction_count(&self, issue_id: i32, kind: &str) -> (r: Option<i32>)
        requires
            self.wf(),
        ensures
            opt_id(r) == self@.reaction_count(issue_id as int, kind@),
    {
        let kind = kind.to_owned();
        match self.find_reaction(issue_id, &kind) {
            Some(i) => {
                proof {
                    self@.lemma_reaction_index(i as int, issue_id as int, kind@);
                }
                Some(self.issue_reactions[i].count)
            },
            None => None,
        }
    }

    /// Writes the tally of one kind of reaction to an issue, over the count
    /// that was there, and says whether it is recorded afterwards. Nothing is
    /// written where a row is needed and the issue does not exist or no id is
    /// left.
    pub fn upsert_reaction(&mut self, new: NewIssueReaction) -> (r: bool)
        requires
            old(self).wf(),
        ensures
            final(self).wf(),
            final(self)@ == old(self)@.with_reaction(
                new.issue_id as int,
                new.reaction_type@,
                new.count as int,
            ),
            r == old(self)@.can_tally(new.issue_id as int, new.reaction_type@),
            r == final(self)@.has_reaction(new.issue_id as int, new.reaction_type@),
    {
        let ghost before = self@;
        let ghost issue_id = new.issue_id as int;
        let ghost kind = new.reaction_type@;
        match self.find_reaction(new.issue_id, &new.reaction_type) {
            Some(i) => {
                proof {
                    before.lemma_reaction_index(i as int, issue_id, kind);
                }
                let row = IssueReaction {
                    id: self.issue_reactions[i].id,
                    issue_id: new.issue_id,
                    reaction_type: new.reaction_type,
                    count: new.count,
                };
                self.issue_reactions.set(i, row);
                proof {
                    assert(self@.issue_reactions =~= before.issue_reactions.update(
                        i as int,
                        row@,
                    ));
                    assert(row@ == IssueReactionView {
                        count: new.count as int,
                        ..before.issue_reactions[i as int]
                    });
                    before.lemma_with_reaction_consistent(issue_id, kind, new.count as int);
                    assert(self@.reaction_at(i as int, issue_id, kind));
                }
                true
            },
            None => {
                if !self.knows_issue_id(new.issue_id) {
                    return false;
                }
                let largest: i32 = largest_ident(&self.issue_reactions);
                proof {
                    assert(idents(self.issue_reactions@) =~= issue_reaction_ids(
                        before.issue_reactions,
                    ));
                }
                if largest == i32::MAX {
                    return false;
                }
                let id: i32 = largest + 1;
                let row = IssueReaction {
                    id,
                    issue_id: new.issue_id,
                    reaction_type: new.reaction_type,
                    count: new.count,
                };
                self.issue_reactions.push(row);
                proof {
                    assert(self@.issue_reactions =~= before.issue_reactions.push(row@));
                    before.lemma_with_reaction_consistent(issue_id, kind, new.count as int);
                    let last = before.issue_reactions.len() as int;
                    assert(self@.reaction_at(last, issue_id, kind));
                }
                true
            },
        }
    }

    /// The tallies, in the order in which they were first written.
    pub fn issue_reactions(&self) -> (r: &Vec<IssueReaction>)
        ensures
            issue_reaction_views(r@) == self@.issue_reactions,
    {
        &self.issue_reactions
    }

    /// The tracked repositories, in the order in which they were added.
    pub fn repositories(&self) -> (r: &Vec<Repository>)
        ensures
            repository_views(r@) == self@.repositories,
    {
        &self.repositories
    }
}

/// The view of an optional issue row.
pub open spec fn opt_issue(row: Option<Issue>) -> Option<IssueView> {
    match row {
        Some(r) => Some(r@),
        None => None,
    }
}

/// The tables that the given rows make up.
pub open spec fn rows_view(
    repositories: Seq<Repository>,
    issues: Seq<Issue>,
    labels: Seq<Label>,
    issue_labels: Seq<IssueLabel>,
    issue_reactions: Seq<IssueReaction>,
) -> StoreView {
    StoreView {
        repositories: repository_views(repositories),
        issues: issue_views(issues),
        labels: label_views(labels),
        issue_labels: issue_label_views(issue_labels),
        issue_reactions: issue_reaction_views(issue_reactions),
    }
}

/// An optional id as a number of the model.
pub open spec fn opt_id(id: Option<i32>) -> Option<int> {
    match id {
        Some(i) => Some(i as int),
        None => None,
    }
}

} // verus!
