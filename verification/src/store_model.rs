//! The cache as mathematics: five tables of rows, what makes them
//! consistent, and what each write does to them.

use vstd::prelude::*;
use crate::models::{
    IssueLabelView, IssueReactionView, IssueView, LabelView, NewIssueView, RepositoryView,
};

verus! {

/// The five tables, each in the order in which its rows were written.
pub struct StoreView {
    pub repositories: Seq<RepositoryView>,
    pub issues: Seq<IssueView>,
    pub labels: Seq<LabelView>,
    pub issue_labels: Seq<IssueLabelView>,
    pub issue_reactions: Seq<IssueReactionView>,
}

/// The largest of the ids, and 0 where there is none or none is positive.
pub open spec fn largest_id(ids: Seq<int>) -> int
    decreases ids.len(),
{
    if ids.len() == 0 {
        0
    } else if ids.last() > largest_id(ids.drop_last()) {
        ids.last()
    } else {
        largest_id(ids.drop_last())
    }
}

/// The largest id that a row can have.
pub open spec fn id_limit() -> int {
    i32::MAX as int
}

/// The largest id is never below 0.
pub proof fn lemma_largest_id_not_negative(ids: Seq<int>)
    ensures
        0 <= largest_id(ids),
    decreases ids.len(),
{
    if ids.len() > 0 {
        lemma_largest_id_not_negative(ids.drop_last());
    }
}

/// No id is above the largest.
pub proof fn lemma_largest_id_bounds(ids: Seq<int>, i: int)
    requires
        0 <= i < ids.len(),
    ensures
        ids[i] <= largest_id(ids),
    decreases ids.len(),
{
    if i < ids.len() - 1 {
        lemma_largest_id_bounds(ids.drop_last(), i);
    }
}

/// With one id more, the largest is that id or what it was.
pub proof fn lemma_largest_id_push(ids: Seq<int>, id: int)
    ensures
        largest_id(ids.push(id)) == if id > largest_id(ids) {
            id
        } else {
            largest_id(ids)
        },
{
    assert(ids.push(id).drop_last() =~= ids);
}

/// The ids of the repositories, in their order.
pub open spec fn repository_ids(rows: Seq<RepositoryView>) -> Seq<int> {
    rows.map_values(|r: RepositoryView| r.id)
}

/// The ids of the issues, in their order.
pub open spec fn issue_ids(rows: Seq<IssueView>) -> Seq<int> {
    rows.map_values(|r: IssueView| r.id)
}

/// The ids of the labels, in their order.
pub open spec fn label_ids(rows: Seq<LabelView>) -> Seq<int> {
    rows.map_values(|r: LabelView| r.id)
}

/// The ids of the attachments, in their order.
pub open spec fn issue_label_ids(rows: Seq<IssueLabelView>) -> Seq<int> {
    rows.map_values(|r: IssueLabelView| r.id)
}

/// The ids of the tallies, in their order.
pub open spec fn issue_reaction_ids(rows: Seq<IssueReactionView>) -> Seq<int> {
    rows.map_values(|r: IssueReactionView| r.id)
}

/// Ids are positive and no two rows share one; no two repositories share
/// owner and name.
pub open spec fn repositories_ok(rows: Seq<RepositoryView>) -> bool {
    &&& forall|i: int| 0 <= i < rows.len() ==> 1 <= (#[trigger] rows[i]).id <= id_limit()
    &&& forall|i: int, j: int|
        0 <= i < j < rows.len() ==> (#[trigger] rows[i]).id != (#[trigger] rows[j]).id
    &&& forall|i: int, j: int|
        0 <= i < j < rows.len() ==> !((#[trigger] rows[i]).user == (#[trigger] rows[j]).user
            && rows[i].name == rows[j].name)
}

/// Ids are positive and no two rows share one; no two issues share repository
/// and number.
pub open spec fn issues_ok(rows: Seq<IssueView>) -> bool {
    &&& forall|i: int| 0 <= i < rows.len() ==> 1 <= (#[trigger] rows[i]).id <= id_limit()
    &&& forall|i: int, j: int|
        0 <= i < j < rows.len() ==> (#[trigger] rows[i]).id != (#[trigger] rows[j]).id
    &&& forall|i: int, j: int|
        0 <= i < j < rows.len() ==> !((#[trigger] rows[i]).repository_id == (
        #[trigger] rows[j]).repository_id && rows[i].number == rows[j].number)
}

/// Ids are positive and no two rows share one; no two labels share a name.
pub open spec fn labels_ok(rows: Seq<LabelView>) -> bool {
    &&& forall|i: int| 0 <= i < rows.len() ==> 1 <= (#[trigger] rows[i]).id <= id_limit()
    &&& forall|i: int, j: int|
        0 <= i < j < rows.len() ==> (#[trigger] rows[i]).id != (#[trigger] rows[j]).id
    &&& forall|i: int, j: int|
        0 <= i < j < rows.len() ==> (#[trigger] rows[i]).name != (#[trigger] rows[j]).name
}

/// Whether some issue has the id.
pub open spec fn issue_id_known(issues: Seq<IssueView>, id: int) -> bool {
    exists|k: int| 0 <= k < issues.len() && (#[trigger] issues[k]).id == id
}

/// Whether some label has the id.
pub open spec fn label_id_known(labels: Seq<LabelView>, id: int) -> bool {
    exists|k: int| 0 <= k < labels.len() && (#[trigger] labels[k]).id == id
}

/// Ids are positive and no two rows share one; no two attachments join the
/// same issue and label; each joins an issue and a label that exist.
pub open spec fn issue_labels_ok(
    rows: Seq<IssueLabelView>,
    issues: Seq<IssueView>,
    labels: Seq<LabelView>,
) -> bool {
    &&& forall|i: int| 0 <= i < rows.len() ==> 1 <= (#[trigger] rows[i]).id <= id_limit()
    &&& forall|i: int, j: int|
        0 <= i < j < rows.len() ==> (#[trigger] rows[i]).id != (#[trigger] rows[j]).id
    &&& forall|i: int, j: int|
        0 <= i < j < rows.len() ==> !((#[trigger] rows[i]).issue_id == (
        #[trigger] rows[j]).issue_id && rows[i].label_id == rows[j].label_id)
    &&& forall|i: int|
        0 <= i < rows.len() ==> issue_id_known(issues, (#[trigger] rows[i]).issue_id)
            && label_id_known(labels, rows[i].label_id)
}

/// Ids are positive and no two rows share one; no two tallies count the same
/// kind for the same issue; each counts for an issue that exists.
pub open spec fn issue_reactions_ok(rows: Seq<IssueReactionView>, issues: Seq<IssueView>) -> bool {
    &&& forall|i: int| 0 <= i < rows.len() ==> 1 <= (#[trigger] rows[i]).id <= id_limit()
    &&& forall|i: int, j: int|
        0 <= i < j < rows.len() ==> (#[trigger] rows[i]).id != (#[trigger] rows[j]).id
    &&& forall|i: int, j: int|
        0 <= i < j < rows.len() ==> !((#[trigger] rows[i]).issue_id == (
        #[trigger] rows[j]).issue_id && rows[i].reaction_type == rows[j].reaction_type)
    &&& forall|i: int|
        0 <= i < rows.len() ==> issue_id_known(issues, (#[trigger] rows[i]).issue_id)
}

/// A cached row after an issue of its repository and number arrived again.
pub open spec fn overwritten(row: IssueView, new: NewIssueView) -> IssueView {
    IssueView {
        title: new.title,
        body: new.body,
        state: new.state,
        last_synced_at: new.last_synced_at,
        ..row
    }
}

/// The row that an issue is first written as.
pub open spec fn inserted(id: int, new: NewIssueView) -> IssueView {
    IssueView {
        id,
        repository_id: new.repository_id,
        number: new.number,
        title: new.title,
        body: new.body,
        created_at: new.created_at,
        state: new.state,
        is_pull_request: new.is_pull_request,
        author: new.author,
        last_synced_at: new.last_synced_at,
    }
}

impl StoreView {
    /// The cache without a row.
    pub open spec fn empty() -> StoreView {
        StoreView {
            repositories: Seq::empty(),
            issues: Seq::empty(),
            labels: Seq::empty(),
            issue_labels: Seq::empty(),
            issue_reactions: Seq::empty(),
        }
    }

    /// The tables are consistent, each in itself and with the ones its rows
    /// point into.
    pub open spec fn wf(self) -> bool {
        &&& repositories_ok(self.repositories)
        &&& issues_ok(self.issues)
        &&& labels_ok(self.labels)
        &&& issue_labels_ok(self.issue_labels, self.issues, self.labels)
        &&& issue_reactions_ok(self.issue_reactions, self.issues)
    }

    // ----- repositories -----

    /// Whether row `i` is the repository of that owner and name.
    pub open spec fn repository_at(self, i: int, user: Seq<char>, name: Seq<char>) -> bool {
        &&& 0 <= i < self.repositories.len()
        &&& self.repositories[i].user == user
        &&& self.repositories[i].name == name
    }

    /// Whether the repository is tracked.
    pub open spec fn tracks(self, user: Seq<char>, name: Seq<char>) -> bool {
        exists|i: int| self.repository_at(i, user, name)
    }

    /// Where the repository's row stands.
    pub open spec fn repository_index(self, user: Seq<char>, name: Seq<char>) -> int {
        choose|i: int| self.repository_at(i, user, name)
    }

    /// The id of the repository, if it is tracked.
    pub open spec fn repository_id(self, user: Seq<char>, name: Seq<char>) -> Option<int> {
        if self.tracks(user, name) {
            Some(self.repositories[self.repository_index(user, name)].id)
        } else {
            None
        }
    }

    /// The id that the next repository gets.
    pub open spec fn next_repository_id(self) -> int {
        largest_id(repository_ids(self.repositories)) + 1
    }

    /// Whether a repository can be added: it is not tracked yet and an id is
    /// left for it.
    pub open spec fn can_track(self, user: Seq<char>, name: Seq<char>) -> bool {
        !self.tracks(user, name) && self.next_repository_id() <= id_limit()
    }

    /// The cache after an attempt to track the repository.
    pub open spec fn track(self, user: Seq<char>, name: Seq<char>) -> StoreView {
        if self.can_track(user, name) {
            StoreView {
                repositories: self.repositories.push(
                    RepositoryView { id: self.next_repository_id(), user, name },
                ),
                ..self
            }
        } else {
            self
        }
    }

    /// The cache after the repository's row is removed, if there is one. Its
    /// issues stay.
    pub open spec fn untrack(self, user: Seq<char>, name: Seq<char>) -> StoreView {
        if self.tracks(user, name) {
            StoreView {
                repositories: self.repositories.remove(self.repository_index(user, name)),
                ..self
            }
        } else {
            self
        }
    }

    // ----- issues -----

    /// Whether row `i` is the repository's issue of that number.
    pub open spec fn issue_at(self, i: int, repository_id: int, number: int) -> bool {
        &&& 0 <= i < self.issues.len()
        &&& self.issues[i].repository_id == repository_id
        &&& self.issues[i].number == number
    }

    /// Whether the repository's issue of that number is cached.
    pub open spec fn has_issue(self, repository_id: int, number: int) -> bool {
        exists|i: int| self.issue_at(i, repository_id, number)
    }

    /// Where the issue's row stands.
    pub open spec fn issue_index(self, repository_id: int, number: int) -> int {
        choose|i: int| self.issue_at(i, repository_id, number)
    }

    /// The issue's row, if it is cached.
    pub open spec fn issue(self, repository_id: int, number: int) -> Option<IssueView> {
        if self.has_issue(repository_id, number) {
            Some(self.issues[self.issue_index(repository_id, number)])
        } else {
            None
        }
    }

    /// The id of the issue's row, if it is cached.
    pub open spec fn issue_id(self, repository_id: int, number: int) -> Option<int> {
        match self.issue(repository_id, number) {
            Some(row) => Some(row.id),
            None => None,
        }
    }

    /// The id that the next issue gets.
    pub open spec fn next_issue_id(self) -> int {
        largest_id(issue_ids(self.issues)) + 1
    }

    /// Whether the issue can be written: its row exists, or an id is left for
    /// a new one.
    pub open spec fn can_upsert_issue(self, new: NewIssueView) -> bool {
        self.has_issue(new.repository_id, new.number) || self.next_issue_id() <= id_limit()
    }

    /// The cache after the issue is written. An existing row takes the new
    /// title, body, state and stamp and keeps the rest. Otherwise a row is
    /// added under the next id.
    pub open spec fn upsert_issue(self, new: NewIssueView) -> StoreView {
        if self.has_issue(new.repository_id, new.number) {
            let i = self.issue_index(new.repository_id, new.number);
            StoreView { issues: self.issues.update(i, overwritten(self.issues[i], new)), ..self }
        } else if self.next_issue_id() <= id_limit() {
            StoreView { issues: self.issues.push(inserted(self.next_issue_id(), new)), ..self }
        } else {
            self
        }
    }

    // ----- labels -----

    /// Whether row `i` is the label of that name.
    pub open spec fn label_at(self, i: int, name: Seq<char>) -> bool {
        0 <= i < self.labels.len() && self.labels[i].name == name
    }

    /// Whether a label of that name is recorded.
    pub open spec fn has_label(self, name: Seq<char>) -> bool {
        exists|i: int| self.label_at(i, name)
    }

    /// Where the label's row stands.
    pub open spec fn label_index(self, name: Seq<char>) -> int {
        choose|i: int| self.label_at(i, name)
    }

    /// The id of the label of that name, if one is recorded.
    pub open spec fn label_id(self, name: Seq<char>) -> Option<int> {
        if self.has_label(name) {
            Some(self.labels[self.label_index(name)].id)
        } else {
            None
        }
    }

    /// The id that the next label gets.
    pub open spec fn next_label_id(self) -> int {
        largest_id(label_ids(self.labels)) + 1
    }

    /// The cache after the label is recorded unless it is there already. No
    /// row is added once the ids have run out.
    pub open spec fn with_label(self, name: Seq<char>) -> StoreView {
        if !self.has_label(name) && self.next_label_id() <= id_limit() {
            StoreView {
                labels: self.labels.push(LabelView { id: self.next_label_id(), name }),
                ..self
            }
        } else {
            self
        }
    }

    // ----- attachments of labels -----

    /// Whether row `i` joins the issue and the label.
    pub open spec fn link_at(self, i: int, issue_id: int, label_id: int) -> bool {
        &&& 0 <= i < self.issue_labels.len()
        &&& self.issue_labels[i].issue_id == issue_id
        &&& self.issue_labels[i].label_id == label_id
    }

    /// Whether the label is attached to the issue.
    pub open spec fn linked(self, issue_id: int, label_id: int) -> bool {
        exists|i: int| self.link_at(i, issue_id, label_id)
    }

    /// The id that the next attachment gets.
    pub open spec fn next_issue_label_id(self) -> int {
        largest_id(issue_label_ids(self.issue_labels)) + 1
    }

    /// Whether an attachment can be added: issue and label exist, they are
    /// not joined yet, and an id is left.
    pub open spec fn can_link(self, issue_id: int, label_id: int) -> bool {
        &&& issue_id_known(self.issues, issue_id)
        &&& label_id_known(self.labels, label_id)
        &&& !self.linked(issue_id, label_id)
        &&& self.next_issue_label_id() <= id_limit()
    }

    /// The cache after the label is attached to the issue unless it is
    /// attached already.
    pub open spec fn with_link(self, issue_id: int, label_id: int) -> StoreView {
        if self.can_link(issue_id, label_id) {
            StoreView {
                issue_labels: self.issue_labels.push(
                    IssueLabelView { id: self.next_issue_label_id(), issue_id, label_id },
                ),
                ..self
            }
        } else {
            self
        }
    }

    /// The cache after one label name of an issue is reconciled: the label is
    /// recorded if need be, and where its id resolves it is attached.
    pub open spec fn attach_label(self, issue_id: int, name: Seq<char>) -> StoreView {
        let recorded = self.with_label(name);
        match recorded.label_id(name) {
            Some(label_id) => recorded.with_link(issue_id, label_id),
            None => recorded,
        }
    }

    // ----- reaction tallies -----

    /// Whether row `i` is the issue's tally of that kind.
    pub open spec fn reaction_at(self, i: int, issue_id: int, kind: Seq<char>) -> bool {
        &&& 0 <= i < self.issue_reactions.len()
        &&& self.issue_reactions[i].issue_id == issue_id
        &&& self.issue_reactions[i].reaction_type == kind
    }

    /// Whether the issue has a tally of that kind.
    pub open spec fn has_reaction(self, issue_id: int, kind: Seq<char>) -> bool {
        exists|i: int| self.reaction_at(i, issue_id, kind)
    }

    /// Where the tally's row stands.
    pub open spec fn reaction_index(self, issue_id: int, kind: Seq<char>) -> int {
        choose|i: int| self.reaction_at(i, issue_id, kind)
    }

    /// The count of that kind for the issue, if a tally is recorded.
    pub open spec fn reaction_count(self, issue_id: int, kind: Seq<char>) -> Option<int> {
        if self.has_reaction(issue_id, kind) {
            Some(self.issue_reactions[self.reaction_index(issue_id, kind)].count)
        } else {
            None
        }
    }

    /// The id that the next tally gets.
    pub open spec fn next_issue_reaction_id(self) -> int {
        largest_id(issue_reaction_ids(self.issue_reactions)) + 1
    }

    /// Whether a tally can be written: its row exists, or the issue exists
    /// and an id is left for a new row.
    pub open spec fn can_tally(self, issue_id: int, kind: Seq<char>) -> bool {
        self.has_reaction(issue_id, kind) || (issue_id_known(self.issues, issue_id)
            && self.next_issue_reaction_id() <= id_limit())
    }

    /// The cache after the tally is written: an existing row takes the new
    /// count, otherwise a row is added.
    pub open spec fn with_reaction(self, issue_id: int, kind: Seq<char>, count: int) -> StoreView {
        if self.has_reaction(issue_id, kind) {
            let i = self.reaction_index(issue_id, kind);
            StoreView {
                issue_reactions: self.issue_reactions.update(
                    i,
                    IssueReactionView { count, ..self.issue_reactions[i] },
                ),
                ..self
            }
        } else if self.can_tally(issue_id, kind) {
            StoreView {
                issue_reactions: self.issue_reactions.push(
                    IssueReactionView {
                        id: self.next_issue_reaction_id(),
                        issue_id,
                        reaction_type: kind,
                        count,
                    },
                ),
                ..self
            }
        } else {
            self
        }
    }

    // ----- what consistency gives -----

    /// In consistent tables the row found for a repository is the only one.
    pub proof fn lemma_repository_index(self, i: int, user: Seq<char>, name: Seq<char>)
        requires
            self.wf(),
            self.repository_at(i, user, name),
        ensures
            self.tracks(user, name),
            self.repository_index(user, name) == i,
    {
        let j = self.repository_index(user, name);
        assert(self.repository_at(j, user, name));
        if i < j {
            assert(self.repositories[i].user == self.repositories[j].user);
        } else if j < i {
            assert(self.repositories[j].user == self.repositories[i].user);
        }
    }

    /// In consistent tables the row found for an issue is the only one.
    pub proof fn lemma_issue_index(self, i: int, repository_id: int, number: int)
        requires
            self.wf(),
            self.issue_at(i, repository_id, number),
        ensures
            self.has_issue(repository_id, number),
            self.issue_index(repository_id, number) == i,
    {
        let j = self.issue_index(repository_id, number);
        assert(self.issue_at(j, repository_id, number));
        if i < j {
            assert(self.issues[i].number == self.issues[j].number);
        } else if j < i {
            assert(self.issues[j].number == self.issues[i].number);
        }
    }

    /// In consistent tables the row found for a label is the only one.
    pub proof fn lemma_label_index(self, i: int, name: Seq<char>)
        requires
            self.wf(),
            self.label_at(i, name),
        ensures
            self.has_label(name),
            self.label_index(name) == i,
    {
        let j = self.label_index(name);
        assert(self.label_at(j, name));
        if i < j {
            assert(self.labels[i].name == self.labels[j].name);
        } else if j < i {
            assert(self.labels[j].name == self.labels[i].name);
        }
    }

    /// In consistent tables the row found for a tally is the only one.
    pub proof fn lemma_reaction_index(self, i: int, issue_id: int, kind: Seq<char>)
        requires
            self.wf(),
            self.reaction_at(i, issue_id, kind),
        ensures
            self.has_reaction(issue_id, kind),
            self.reaction_index(issue_id, kind) == i,
    {
        let j = self.reaction_index(issue_id, kind);
        assert(self.reaction_at(j, issue_id, kind));
        if i < j {
            assert(self.issue_reactions[i].issue_id == self.issue_reactions[j].issue_id);
        } else if j < i {
            assert(self.issue_reactions[j].issue_id == self.issue_reactions[i].issue_id);
        }
    }
}

} // verus!
