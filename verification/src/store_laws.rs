//! Every write leaves consistent tables consistent.

use vstd::prelude::*;
use crate::models::NewIssueView;
use crate::store_model::{
    id_limit, inserted, issue_id_known, issue_ids, issue_label_ids, issue_reaction_ids, issues_ok,
    label_id_known, label_ids, lemma_largest_id_bounds, lemma_largest_id_not_negative,
    overwritten, repository_ids, StoreView,
};

verus! {

/// Tables whose issues keep their ids, and whose labels keep theirs, still
/// know every issue and label that the attachments and tallies point to.
pub proof fn lemma_ids_kept(before: StoreView, after: StoreView)
    requires
        before.wf(),
        issues_ok(after.issues),
        crate::store_model::labels_ok(after.labels),
        before.issues.len() <= after.issues.len(),
        forall|k: int|
            0 <= k < before.issues.len() ==> (#[trigger] after.issues[k]).id
                == before.issues[k].id,
        before.labels.len() <= after.labels.len(),
        forall|k: int|
            0 <= k < before.labels.len() ==> (#[trigger] after.labels[k]).id
                == before.labels[k].id,
        after.repositories == before.repositories,
        after.issue_labels == before.issue_labels,
        after.issue_reactions == before.issue_reactions,
    ensures
        after.wf(),
        forall|id: int| issue_id_known(before.issues, id) ==> issue_id_known(after.issues, id),
        forall|id: int| label_id_known(before.labels, id) ==> label_id_known(after.labels, id),
{
    assert forall|id: int| issue_id_known(before.issues, id) implies issue_id_known(
        after.issues,
        id,
    ) by {
        let k = choose|k: int| 0 <= k < before.issues.len() && (#[trigger] before.issues[k]).id
            == id;
        assert(after.issues[k].id == id);
    }
    assert forall|id: int| label_id_known(before.labels, id) implies label_id_known(
        after.labels,
        id,
    ) by {
        let k = choose|k: int| 0 <= k < before.labels.len() && (#[trigger] before.labels[k]).id
            == id;
        assert(after.labels[k].id == id);
    }
}

impl StoreView {
    /// Tracking a repository keeps the tables consistent.
    pub proof fn lemma_track_consistent(self, user: Seq<char>, name: Seq<char>)
        requires
            self.wf(),
        ensures
            self.track(user, name).wf(),
    {
        if self.can_track(user, name) {
            let id = self.next_repository_id();
            lemma_largest_id_not_negative(repository_ids(self.repositories));
            assert forall|k: int| 0 <= k < self.repositories.len() implies (
            #[trigger] self.repositories[k]).id < id && !(self.repositories[k].user == user
                && self.repositories[k].name == name) by {
                lemma_largest_id_bounds(repository_ids(self.repositories), k);
                assert(!self.repository_at(k, user, name));
            }
        }
    }

    /// Dropping a repository keeps the tables consistent.
    pub proof fn lemma_untrack_consistent(self, user: Seq<char>, name: Seq<char>)
        requires
            self.wf(),
        ensures
            self.untrack(user, name).wf(),
    {
        if self.tracks(user, name) {
            let i = self.repository_index(user, name);
            assert(self.repository_at(i, user, name));
            let rows = self.repositories.remove(i);
            assert forall|k: int| 0 <= k < rows.len() implies #[trigger] rows[k]
                == self.repositories[if k < i {
                k
            } else {
                k + 1
            }] by {}
        }
    }

    /// Writing an issue keeps the tables consistent, keeps every id that was
    /// known, and leaves the issue cached wherever it could be written.
    pub proof fn lemma_upsert_issue_consistent(self, new: NewIssueView)
        requires
            self.wf(),
        ensures
            self.upsert_issue(new).wf(),
            self.upsert_issue(new).labels == self.labels,
            forall|id: int|
                issue_id_known(self.issues, id) ==> issue_id_known(
                    self.upsert_issue(new).issues,
                    id,
                ),
            self.can_upsert_issue(new) ==> self.upsert_issue(new).has_issue(
                new.repository_id,
                new.number,
            ),
            self.can_upsert_issue(new) ==> issue_id_known(
                self.upsert_issue(new).issues,
                self.upsert_issue(new).issue_id(new.repository_id, new.number).unwrap(),
            ),
    {
        let after = self.upsert_issue(new);
        if self.has_issue(new.repository_id, new.number) {
            let i = self.issue_index(new.repository_id, new.number);
            assert(self.issue_at(i, new.repository_id, new.number));
            assert forall|k: int| 0 <= k < after.issues.len() implies (
            #[trigger] after.issues[k]).id == self.issues[k].id && after.issues[k].repository_id
                == self.issues[k].repository_id && after.issues[k].number
                == self.issues[k].number by {}
            lemma_ids_kept(self, after);
            assert(after.issue_at(i, new.repository_id, new.number));
            let j = after.issue_index(new.repository_id, new.number);
            assert(after.issue_at(j, new.repository_id, new.number));
        } else if self.next_issue_id() <= id_limit() {
            let id = self.next_issue_id();
            lemma_largest_id_not_negative(issue_ids(self.issues));
            assert forall|k: int| 0 <= k < self.issues.len() implies (#[trigger] self.issues[k]).id
                < id && !(self.issues[k].repository_id == new.repository_id
                && self.issues[k].number == new.number) by {
                lemma_largest_id_bounds(issue_ids(self.issues), k);
                assert(!self.issue_at(k, new.repository_id, new.number));
            }
            lemma_ids_kept(self, after);
            assert(after.issue_at(self.issues.len() as int, new.repository_id, new.number));
            let j = after.issue_index(new.repository_id, new.number);
            assert(after.issue_at(j, new.repository_id, new.number));
        }
    }

    /// What a lookup finds after an issue is written: under the written
    /// issue's repository and number the merged or the new row, under any
    /// other what it found before.
    pub proof fn lemma_upsert_issue_lookup(self, new: NewIssueView, repository_id: int, number: int)
        requires
            self.wf(),
            self.can_upsert_issue(new),
        ensures
            self.upsert_issue(new).issue(repository_id, number) == if repository_id
                == new.repository_id && number == new.number {
                Some(
                    match self.issue(repository_id, number) {
                        Some(row) => overwritten(row, new),
                        None => inserted(self.next_issue_id(), new),
                    },
                )
            } else {
                self.issue(repository_id, number)
            },
    {
        let after = self.upsert_issue(new);
        self.lemma_upsert_issue_consistent(new);
        if self.has_issue(new.repository_id, new.number) {
            let i = self.issue_index(new.repository_id, new.number);
            assert(self.issue_at(i, new.repository_id, new.number));
            assert(after.issue_at(i, new.repository_id, new.number));
            after.lemma_issue_index(i, new.repository_id, new.number);
            if self.has_issue(repository_id, number) {
                let j = self.issue_index(repository_id, number);
                assert(self.issue_at(j, repository_id, number));
                assert(after.issue_at(j, repository_id, number));
                after.lemma_issue_index(j, repository_id, number);
            } else if after.has_issue(repository_id, number) {
                let j = after.issue_index(repository_id, number);
                assert(after.issue_at(j, repository_id, number));
                assert(self.issue_at(j, repository_id, number));
            }
        } else {
            let last = self.issues.len() as int;
            assert(after.issue_at(last, new.repository_id, new.number));
            after.lemma_issue_index(last, new.repository_id, new.number);
            if self.has_issue(repository_id, number) {
                let j = self.issue_index(repository_id, number);
                assert(self.issue_at(j, repository_id, number));
                assert(after.issue_at(j, repository_id, number));
                after.lemma_issue_index(j, repository_id, number);
            } else if after.has_issue(repository_id, number) {
                let j = after.issue_index(repository_id, number);
                assert(after.issue_at(j, repository_id, number));
                if j < last {
                    assert(self.issue_at(j, repository_id, number));
                }
            }
        }
    }

    /// Upsert correctness: writing an issue that is cached already overwrites
    /// its title, body, state and stamp, and leaves its id, repository,
    /// number, author, creation time and kind as they were. No row is added
    /// or removed, and no other row or table changes.
    pub proof fn law_upsert_overwrites_content_only(self, new: NewIssueView)
        requires
            self.wf(),
            self.has_issue(new.repository_id, new.number),
        ensures
            ({
                let before = self.issue(new.repository_id, new.number).unwrap();
                let written = self.upsert_issue(new);
                let after = written.issue(new.repository_id, new.number).unwrap();
                &&& written.has_issue(new.repository_id, new.number)
                &&& after.title == new.title
                &&& after.body == new.body
                &&& after.state == new.state
                &&& after.last_synced_at == new.last_synced_at
                &&& after.id == before.id
                &&& after.repository_id == before.repository_id
                &&& after.number == before.number
                &&& after.author == before.author
                &&& after.created_at == before.created_at
                &&& after.is_pull_request == before.is_pull_request
                &&& written.issues.len() == self.issues.len()
                &&& forall|k: int|
                    0 <= k < self.issues.len() && k != self.issue_index(
                        new.repository_id,
                        new.number,
                    ) ==> #[trigger] written.issues[k] == self.issues[k]
                &&& written.repositories == self.repositories
                &&& written.labels == self.labels
                &&& written.issue_labels == self.issue_labels
                &&& written.issue_reactions == self.issue_reactions
            }),
    {
        self.lemma_upsert_issue_lookup(new, new.repository_id, new.number);
        self.lemma_upsert_issue_consistent(new);
    }

    /// Writing an issue that is not cached yet adds one row that holds what
    /// arrived, under the next id, and changes nothing else.
    pub proof fn law_upsert_inserts_what_arrived(self, new: NewIssueView)
        requires
            self.wf(),
            !self.has_issue(new.repository_id, new.number),
            self.can_upsert_issue(new),
        ensures
            ({
                let written = self.upsert_issue(new);
                &&& written.issue(new.repository_id, new.number) == Some(
                    inserted(self.next_issue_id(), new),
                )
                &&& written.issues.len() == self.issues.len() + 1
                &&& forall|k: int|
                    0 <= k < self.issues.len() ==> #[trigger] written.issues[k] == self.issues[k]
                &&& written.repositories == self.repositories
                &&& written.labels == self.labels
                &&& written.issue_labels == self.issue_labels
                &&& written.issue_reactions == self.issue_reactions
            }),
    {
        self.lemma_upsert_issue_lookup(new, new.repository_id, new.number);
    }

    /// Recording a label keeps the tables consistent and every id known.
    pub proof fn lemma_with_label_consistent(self, name: Seq<char>)
        requires
            self.wf(),
        ensures
            self.with_label(name).wf(),
            self.with_label(name).issues == self.issues,
            forall|id: int|
                label_id_known(self.labels, id) ==> label_id_known(self.with_label(name).labels, id),
            self.with_label(name).label_id(name) matches Some(id) ==> label_id_known(
                self.with_label(name).labels,
                id,
            ),
    {
        let after = self.with_label(name);
        if !self.has_label(name) && self.next_label_id() <= id_limit() {
            let id = self.next_label_id();
            lemma_largest_id_not_negative(label_ids(self.labels));
            assert forall|k: int| 0 <= k < self.labels.len() implies (#[trigger] self.labels[k]).id
                < id && self.labels[k].name != name by {
                lemma_largest_id_bounds(label_ids(self.labels), k);
                assert(!self.label_at(k, name));
            }
            lemma_ids_kept(self, after);
        }
        if after.has_label(name) {
            let j = after.label_index(name);
            assert(after.label_at(j, name));
        }
    }

    /// Attaching a label keeps the tables consistent.
    pub proof fn lemma_with_link_consistent(self, issue_id: int, label_id: int)
        requires
            self.wf(),
        ensures
            self.with_link(issue_id, label_id).wf(),
            self.with_link(issue_id, label_id).issues == self.issues,
            self.with_link(issue_id, label_id).labels == self.labels,
    {
        if self.can_link(issue_id, label_id) {
            let id = self.next_issue_label_id();
            lemma_largest_id_not_negative(issue_label_ids(self.issue_labels));
            assert forall|k: int| 0 <= k < self.issue_labels.len() implies (
            #[trigger] self.issue_labels[k]).id < id && !(self.issue_labels[k].issue_id
                == issue_id && self.issue_labels[k].label_id == label_id) by {
                lemma_largest_id_bounds(issue_label_ids(self.issue_labels), k);
                assert(!self.link_at(k, issue_id, label_id));
            }
        }
    }

    /// Reconciling one label name keeps the tables consistent.
    pub proof fn lemma_attach_label_consistent(self, issue_id: int, name: Seq<char>)
        requires
            self.wf(),
        ensures
            self.attach_label(issue_id, name).wf(),
            self.attach_label(issue_id, name).issues == self.issues,
            self.attach_label(issue_id, name).issue_reactions == self.issue_reactions,
    {
        self.lemma_with_label_consistent(name);
        let recorded = self.with_label(name);
        match recorded.label_id(name) {
            Some(label_id) => {
                recorded.lemma_with_link_consistent(issue_id, label_id);
            },
            None => {},
        }
    }

    /// Writing a tally keeps the tables consistent.
    pub proof fn lemma_with_reaction_consistent(self, issue_id: int, kind: Seq<char>, count: int)
        requires
            self.wf(),
        ensures
            self.with_reaction(issue_id, kind, count).wf(),
            self.with_reaction(issue_id, kind, count).issues == self.issues,
    {
        let after = self.with_reaction(issue_id, kind, count);
        if self.has_reaction(issue_id, kind) {
            let i = self.reaction_index(issue_id, kind);
            assert(self.reaction_at(i, issue_id, kind));
            assert forall|k: int| 0 <= k < after.issue_reactions.len() implies (
            #[trigger] after.issue_reactions[k]).id == self.issue_reactions[k].id
                && after.issue_reactions[k].issue_id == self.issue_reactions[k].issue_id
                && after.issue_reactions[k].reaction_type
                == self.issue_reactions[k].reaction_type by {}
        } else if self.can_tally(issue_id, kind) {
            let id = self.next_issue_reaction_id();
            lemma_largest_id_not_negative(issue_reaction_ids(self.issue_reactions));
            assert forall|k: int| 0 <= k < self.issue_reactions.len() implies (
            #[trigger] self.issue_reactions[k]).id < id && !(self.issue_reactions[k].issue_id
                == issue_id && self.issue_reactions[k].reaction_type == kind) by {
                lemma_largest_id_bounds(issue_reaction_ids(self.issue_reactions), k);
                assert(!self.reaction_at(k, issue_id, kind));
            }
        }
    }
}

} // verus!
