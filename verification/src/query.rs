//! Reading the cache: the lists and lookups that a front end shows.

use vstd::prelude::*;
use vstd::seq_lib::{to_multiset_build, to_multiset_insert};
use vstd::utf8::encode_utf8;
use crate::models::{
    Issue, IssueReaction, IssueReactionView, IssueView, Label, LabelView, Repository,
    RepositoryView,
};
use crate::store::{
    issue_label_views, issue_reaction_views, issue_views, label_views, repository_views, Store,
};
use crate::store_model::{label_id_known, StoreView};
use crate::text_order::{
    lemma_bytes_order_antisymmetric, lemma_bytes_order_total, lemma_bytes_order_transitive,
    text_at_or_before, text_precedes,
};

verus! {

/// Which issues a list shows, by their state.
#[derive(Clone, Copy, Debug, PartialEq, Eq, Structural)]
pub enum StateFilter {
    Open,
    Closed,
    All,
}

impl StateFilter {
    /// The word for the filter.
    pub open spec fn name(self) -> Seq<char> {
        match self {
            StateFilter::Open => "open"@,
            StateFilter::Closed => "closed"@,
            StateFilter::All => "all"@,
        }
    }

    /// The word for the filter.
    pub fn as_str(&self) -> (r: &'static str)
        ensures
            r@ == self.name(),
    {
        match self {
            StateFilter::Open => "open",
            StateFilter::Closed => "closed",
            StateFilter::All => "all",
        }
    }

    /// Whether a list under this filter tells the state of each issue: it
    /// does where issues of more than the open state are shown.
    pub fn tells_state(&self) -> (r: bool)
        ensures
            r == (*self != StateFilter::Open),
    {
        match self {
            StateFilter::Open => false,
            _ => true,
        }
    }

    /// Whether an issue in the given state is shown.
    pub open spec fn admits(self, state: Seq<char>) -> bool {
        self == StateFilter::All || state == self.name()
    }
}

/// Which issues a list shows, by their kind.
#[derive(Clone, Copy, Debug, PartialEq, Eq, Structural)]
pub enum TypeFilter {
    Issue,
    Pr,
    All,
}

impl TypeFilter {
    /// Whether a list under this filter tells the kind of each row: it does
    /// where more than plain issues are shown.
    pub fn tells_kind(&self) -> (r: bool)
        ensures
            r == (*self != TypeFilter::Issue),
    {
        match self {
            TypeFilter::Issue => false,
            _ => true,
        }
    }

    /// Whether a row of the given kind is shown.
    pub open spec fn admits(self, is_pull_request: bool) -> bool {
        match self {
            TypeFilter::Issue => !is_pull_request,
            TypeFilter::Pr => is_pull_request,
            TypeFilter::All => true,
        }
    }

    /// Whether a row of the given kind is shown.
    pub fn shows(&self, is_pull_request: bool) -> (r: bool)
        ensures
            r == self.admits(is_pull_request),
    {
        match self {
            TypeFilter::Issue => !is_pull_request,
            TypeFilter::Pr => is_pull_request,
            TypeFilter::All => true,
        }
    }
}

/// Whether a list of the repository's issues under the two filters shows the
/// row.
pub open spec fn listed(
    row: IssueView,
    repository_id: int,
    state: StateFilter,
    kind: TypeFilter,
) -> bool {
    &&& row.repository_id == repository_id
    &&& state.admits(row.state)
    &&& kind.admits(row.is_pull_request)
}

/// The test that a list of issues puts to each row.
pub open spec fn listing(repository_id: int, state: StateFilter, kind: TypeFilter) -> spec_fn(
    IssueView,
) -> bool {
    |row: IssueView| listed(row, repository_id, state, kind)
}

/// Whether the rows stand with the highest number first.
pub open spec fn newest_first(rows: Seq<IssueView>) -> bool {
    forall|i: int, j: int|
        0 <= i < j < rows.len() ==> (#[trigger] rows[i]).number >= (#[trigger] rows[j]).number
}

/// Puts a row into a list that stands highest number first, after the rows
/// of its number and above.
fn insert_by_number(list: &mut Vec<Issue>, row: Issue)
    requires
        newest_first(issue_views(old(list)@)),
    ensures
        newest_first(issue_views(final(list)@)),
        issue_views(final(list)@).to_multiset() == issue_views(old(list)@).to_multiset().insert(
            row@,
        ),
{
    let mut at: usize = 0;
    while at < list.len() && list[at].number >= row.number
        invariant
            at <= list.len(),
            forall|k: int| 0 <= k < at ==> (#[trigger] issue_views(list@)[k]).number >= row@.number,
        decreases list.len() - at,
    {
        at += 1;
    }
    let ghost before = issue_views(list@);
    list.insert(at, row);
    proof {
        assert(issue_views(list@) =~= before.insert(at as int, row@));
        to_multiset_insert(before, at as int, row@);
        let after = issue_views(list@);
        assert forall|i: int, j: int| 0 <= i < j < after.len() implies (
        #[trigger] after[i]).number >= (#[trigger] after[j]).number by {
            let a = if i < at {
                before[i]
            } else if i == at {
                row@
            } else {
                before[i - 1]
            };
            let b = if j < at {
                before[j]
            } else if j == at {
                row@
            } else {
                before[j - 1]
            };
            assert(after[i] == a && after[j] == b);
            if i < at && j > at {
                assert(before[i].number >= before[j - 1].number);
            }
            if i == at {
                assert(before[at as int].number >= before[j - 1].number || j - 1 == at);
            }
        }
    }
}

/// The issues of a repository that pass the two filters, highest number
/// first.
pub fn list_issues(store: &Store, repository_id: i32, state: StateFilter, kind: TypeFilter) -> (r:
    Vec<Issue>)
    ensures
        newest_first(issue_views(r@)),
        issue_views(r@).to_multiset() == store@.issues.filter(
            listing(repository_id as int, state, kind),
        ).to_multiset(),
{
    let rows = store.issues();
    let wanted: String = state.as_str().to_owned();
    let ghost test = listing(repository_id as int, state, kind);
    let mut list: Vec<Issue> = Vec::new();
    let mut i: usize = 0;
    proof {
        assert(issue_views(list@) =~= Seq::empty());
        assert(store@.issues.take(0) =~= Seq::empty());
        reveal(Seq::filter);
        assert(Seq::<IssueView>::empty().filter(test) =~= Seq::empty());
    }
    while i < rows.len()
        invariant
            i <= rows.len(),
            issue_views(rows@) == store@.issues,
            wanted@ == state.name(),
            test == listing(repository_id as int, state, kind),
            newest_first(issue_views(list@)),
            issue_views(list@).to_multiset() == store@.issues.take(i as int).filter(
                test,
            ).to_multiset(),
        decreases rows.len() - i,
    {
        let row = &rows[i];
        let state_passes = match state {
            StateFilter::All => true,
            _ => row.state == wanted,
        };
        proof {
            let upto = store@.issues.take(i as int);
            assert(store@.issues.take(i as int + 1) =~= upto.push(row@));
            upto.lemma_filter_push(row@, test);
            to_multiset_build(upto.filter(test), row@);
        }
        if row.repository_id == repository_id && state_passes && kind.shows(row.is_pull_request) {
            insert_by_number(&mut list, row.duplicate());
        }
        i += 1;
    }
    proof {
        assert(store@.issues.take(rows.len() as int) =~= store@.issues);
    }
    list
}

/// Whether a lookup by number shows the row.
pub open spec fn numbered(row: IssueView, number: int, pull_requests_only: bool) -> bool {
    row.number == number && (pull_requests_only ==> row.is_pull_request)
}

/// Whether row `i` is the first that a lookup by number shows.
pub open spec fn first_numbered(
    rows: Seq<IssueView>,
    i: int,
    number: int,
    pull_requests_only: bool,
) -> bool {
    &&& 0 <= i < rows.len()
    &&& numbered(rows[i], number, pull_requests_only)
    &&& forall|k: int| 0 <= k < i ==> !numbered(#[trigger] rows[k], number, pull_requests_only)
}

/// The first cached issue of the given number, whatever its repository;
/// with `pull_requests_only`, the first pull request of that number.
pub fn find_by_number(store: &Store, number: i32, pull_requests_only: bool) -> (r: Option<Issue>)
    ensures
        match r {
            Some(row) => exists|i: int|
                first_numbered(store@.issues, i, number as int, pull_requests_only)
                    && store@.issues[i] == row@,
            None => forall|i: int|
                0 <= i < store@.issues.len() ==> !numbered(
                    #[trigger] store@.issues[i],
                    number as int,
                    pull_requests_only,
                ),
        },
{
    let rows = store.issues();
    let mut i: usize = 0;
    while i < rows.len()
        invariant
            i <= rows.len(),
            issue_views(rows@) == store@.issues,
            forall|k: int|
                0 <= k < i ==> !numbered(
                    #[trigger] store@.issues[k],
                    number as int,
                    pull_requests_only,
                ),
        decreases rows.len() - i,
    {
        if rows[i].number == number && (!pull_requests_only || rows[i].is_pull_request) {
            assert(first_numbered(store@.issues, i as int, number as int, pull_requests_only));
            return Some(rows[i].duplicate());
        }
        i += 1;
    }
    None
}

/// Whether row `i` is the repository of the given id.
pub open spec fn repository_with_id(rows: Seq<RepositoryView>, i: int, id: int) -> bool {
    0 <= i < rows.len() && rows[i].id == id
}

/// The repository of the given id.
pub fn repository_by_id(store: &Store, id: i32) -> (r: Option<Repository>)
    ensures
        match r {
            Some(row) => exists|i: int|
                repository_with_id(store@.repositories, i, id as int) && store@.repositories[i]
                    == row@,
            None => forall|i: int| !repository_with_id(store@.repositories, i, id as int),
        },
{
    let rows = store.repositories();
    let mut i: usize = 0;
    while i < rows.len()
        invariant
            i <= rows.len(),
            repository_views(rows@) == store@.repositories,
            forall|k: int| 0 <= k < i ==> !repository_with_id(store@.repositories, k, id as int),
        decreases rows.len() - i,
    {
        if rows[i].id == id {
            assert(repository_with_id(store@.repositories, i as int, id as int));
            return Some(rows[i].duplicate());
        }
        i += 1;
    }
    None
}

/// Whether row `i` is the label of the given id.
pub open spec fn label_with_id(rows: Seq<LabelView>, i: int, id: int) -> bool {
    0 <= i < rows.len() && rows[i].id == id
}

/// The label of the given id; meaningful where there is one.
pub open spec fn label_by_id(rows: Seq<LabelView>, id: int) -> LabelView {
    rows[choose|i: int| label_with_id(rows, i, id)]
}

/// The labels attached to an issue by the first `count` attachments, in the
/// order of the attachments.
pub open spec fn labels_joined(store: StoreView, issue_id: int, count: int) -> Seq<LabelView>
    decreases count,
{
    if count <= 0 {
        Seq::empty()
    } else {
        let link = store.issue_labels[count - 1];
        if link.issue_id == issue_id {
            labels_joined(store, issue_id, count - 1).push(label_by_id(store.labels, link.label_id))
        } else {
            labels_joined(store, issue_id, count - 1)
        }
    }
}

/// The label of the given id, where the cache has one.
fn find_label_by_id<'a>(store: &'a Store, id: i32) -> (r: Option<&'a Label>)
    requires
        store.wf(),
    ensures
        match r {
            Some(row) => label_id_known(store@.labels, id as int) && row@ == label_by_id(
                store@.labels,
                id as int,
            ),
            None => !label_id_known(store@.labels, id as int),
        },
{
    let rows = store.labels();
    let mut i: usize = 0;
    while i < rows.len()
        invariant
            i <= rows.len(),
            store.wf(),
            label_views(rows@) == store@.labels,
            forall|k: int| 0 <= k < i ==> (#[trigger] store@.labels[k]).id != id as int,
        decreases rows.len() - i,
    {
        if rows[i].id == id {
            proof {
                assert(label_with_id(store@.labels, i as int, id as int));
                let j = choose|j: int| label_with_id(store@.labels, j, id as int);
                assert(label_with_id(store@.labels, j, id as int));
                if i < j {
                    assert(store@.labels[i as int].id != store@.labels[j].id);
                } else if j < i {
                    assert(store@.labels[j].id != store@.labels[i as int].id);
                }
            }
            return Some(&rows[i]);
        }
        i += 1;
    }
    None
}

/// The labels of an issue, in the order in which they were attached.
pub fn labels_of(store: &Store, issue_id: i32) -> (r: Vec<Label>)
    requires
        store.wf(),
    ensures
        label_views(r@) == labels_joined(
            store@,
            issue_id as int,
            store@.issue_labels.len() as int,
        ),
{
    let links = store.issue_labels();
    let mut list: Vec<Label> = Vec::new();
    let mut i: usize = 0;
    proof {
        assert(label_views(list@) =~= Seq::empty());
    }
    while i < links.len()
        invariant
            i <= links.len(),
            store.wf(),
            issue_label_views(links@) == store@.issue_labels,
            label_views(list@) == labels_joined(store@, issue_id as int, i as int),
        decreases links.len() - i,
    {
        if links[i].issue_id == issue_id {
            assert(label_id_known(store@.labels, store@.issue_labels[i as int].label_id));
            match find_label_by_id(store, links[i].label_id) {
                Some(label) => {
                    let ghost before = label_views(list@);
                    let copy = label.duplicate();
                    list.push(copy);
                    assert(label_views(list@) =~= before.push(copy@));
                },
                None => {},
            }
        }
        i += 1;
    }
    list
}

/// Whether the tallies stand in the order of their kinds' names.
pub open spec fn by_kind(rows: Seq<IssueReactionView>) -> bool {
    forall|i: int, j: int|
        0 <= i < j < rows.len() ==> text_at_or_before(
            (#[trigger] rows[i]).reaction_type,
            (#[trigger] rows[j]).reaction_type,
        )
}

/// The test that a list of an issue's tallies puts to each row.
pub open spec fn tally_of(issue_id: int) -> spec_fn(IssueReactionView) -> bool {
    |row: IssueReactionView| row.issue_id == issue_id
}

/// Puts a tally into a list that stands in the order of the kinds' names,
/// after the rows that stand at or before it.
fn insert_by_kind(list: &mut Vec<IssueReaction>, row: IssueReaction)
    requires
        by_kind(issue_reaction_views(old(list)@)),
    ensures
        by_kind(issue_reaction_views(final(list)@)),
        issue_reaction_views(final(list)@).to_multiset() == issue_reaction_views(
            old(list)@,
        ).to_multiset().insert(row@),
{
    let mut at: usize = 0;
    while at < list.len() && text_precedes(
        list[at].reaction_type.as_str(),
        row.reaction_type.as_str(),
    )
        invariant
            at <= list.len(),
            forall|k: int|
                0 <= k < at ==> text_at_or_before(
                    (#[trigger] issue_reaction_views(list@)[k]).reaction_type,
                    row@.reaction_type,
                ),
        decreases list.len() - at,
    {
        at += 1;
    }
    let ghost before = issue_reaction_views(list@);
    list.insert(at, row);
    proof {
        assert(issue_reaction_views(list@) =~= before.insert(at as int, row@));
        to_multiset_insert(before, at as int, row@);
        let after = issue_reaction_views(list@);
        assert forall|i: int, j: int| 0 <= i < j < after.len() implies text_at_or_before(
            (#[trigger] after[i]).reaction_type,
            (#[trigger] after[j]).reaction_type,
        ) by {
            let a = if i < at {
                before[i]
            } else if i == at {
                row@
            } else {
                before[i - 1]
            };
            let b = if j < at {
                before[j]
            } else if j == at {
                row@
            } else {
                before[j - 1]
            };
            assert(after[i] == a && after[j] == b);
            if i < at && j > at {
                assert(text_at_or_before(before[i].reaction_type, before[j - 1].reaction_type));
            }
            if i == at {
                let next = before[at as int];
                lemma_bytes_order_total(
                    encode_utf8(next.reaction_type),
                    encode_utf8(row@.reaction_type),
                );
                if j - 1 > at {
                    assert(text_at_or_before(next.reaction_type, before[j - 1].reaction_type));
                    lemma_bytes_order_transitive(
                        encode_utf8(row@.reaction_type),
                        encode_utf8(next.reaction_type),
                        encode_utf8(before[j - 1].reaction_type),
                    );
                }
            }
        }
    }
}

/// The reaction tallies of an issue, in the order of their kinds' names.
pub fn reactions_of(store: &Store, issue_id: i32) -> (r: Vec<IssueReaction>)
    ensures
        by_kind(issue_reaction_views(r@)),
        issue_reaction_views(r@).to_multiset() == store@.issue_reactions.filter(
            tally_of(issue_id as int),
        ).to_multiset(),
{
    let rows = store.issue_reactions();
    let ghost test = tally_of(issue_id as int);
    let mut list: Vec<IssueReaction> = Vec::new();
    let mut i: usize = 0;
    proof {
        assert(issue_reaction_views(list@) =~= Seq::empty());
        assert(store@.issue_reactions.take(0) =~= Seq::empty());
        reveal(Seq::filter);
        assert(Seq::<IssueReactionView>::empty().filter(test) =~= Seq::empty());
    }
    while i < rows.len()
        invariant
            i <= rows.len(),
            issue_reaction_views(rows@) == store@.issue_reactions,
            test == tally_of(issue_id as int),
            by_kind(issue_reaction_views(list@)),
            issue_reaction_views(list@).to_multiset() == store@.issue_reactions.take(
                i as int,
            ).filter(test).to_multiset(),
        decreases rows.len() - i,
    {
        let row = &rows[i];
        proof {
            let upto = store@.issue_reactions.take(i as int);
            assert(store@.issue_reactions.take(i as int + 1) =~= upto.push(row@));
            upto.lemma_filter_push(row@, test);
            to_multiset_build(upto.filter(test), row@);
        }
        if row.issue_id == issue_id {
            insert_by_kind(&mut list, row.duplicate());
        }
        i += 1;
    }
    proof {
        assert(store@.issue_reactions.take(rows.len() as int) =~= store@.issue_reactions);
    }
    list
}

/// Whether repository `a` stands at or before repository `b`: by owner, and
/// under one owner by name.
pub open spec fn repository_at_or_before(a: RepositoryView, b: RepositoryView) -> bool {
    if encode_utf8(a.user) == encode_utf8(b.user) {
        text_at_or_before(a.name, b.name)
    } else {
        text_at_or_before(a.user, b.user)
    }
}

/// Whether the repositories stand in order of owner and name.
pub open spec fn by_owner_and_name(rows: Seq<RepositoryView>) -> bool {
    forall|i: int, j: int|
        0 <= i < j < rows.len() ==> repository_at_or_before(#[trigger] rows[i], #[trigger] rows[j])
}

/// Of two repositories one stands at or before the other.
pub proof fn lemma_repository_order_total(a: RepositoryView, b: RepositoryView)
    ensures
        repository_at_or_before(a, b) || repository_at_or_before(b, a),
{
    lemma_bytes_order_total(encode_utf8(a.user), encode_utf8(b.user));
    lemma_bytes_order_total(encode_utf8(a.name), encode_utf8(b.name));
}

/// What stands at or before a repository stands at or before all that
/// follows it.
pub proof fn lemma_repository_order_transitive(
    a: RepositoryView,
    b: RepositoryView,
    c: RepositoryView,
)
    requires
        repository_at_or_before(a, b),
        repository_at_or_before(b, c),
    ensures
        repository_at_or_before(a, c),
{
    let (ua, ub, uc) = (encode_utf8(a.user), encode_utf8(b.user), encode_utf8(c.user));
    let (na, nb, nc) = (encode_utf8(a.name), encode_utf8(b.name), encode_utf8(c.name));
    if ua == ub && ub == uc {
        lemma_bytes_order_transitive(na, nb, nc);
    } else if ua == ub {
    } else if ub == uc {
    } else {
        lemma_bytes_order_transitive(ua, ub, uc);
        if ua == uc {
            lemma_bytes_order_antisymmetric(ua, ub);
        }
    }
}

/// Whether repository `a` stands at or before repository `b`.
fn repository_precedes(a: &Repository, b: &Repository) -> (r: bool)
    ensures
        r == repository_at_or_before(a@, b@),
{
    let forth = text_precedes(a.user.as_str(), b.user.as_str());
    let back = text_precedes(b.user.as_str(), a.user.as_str());
    if forth && back {
        proof {
            lemma_bytes_order_antisymmetric(encode_utf8(a@.user), encode_utf8(b@.user));
        }
        text_precedes(a.name.as_str(), b.name.as_str())
    } else {
        proof {
            if encode_utf8(a@.user) == encode_utf8(b@.user) {
                lemma_bytes_order_total(encode_utf8(a@.user), encode_utf8(a@.user));
            }
        }
        forth
    }
}

/// Puts a repository into a list that stands in order, after the rows that
/// stand at or before it.
fn insert_by_owner_and_name(list: &mut Vec<Repository>, row: Repository)
    requires
        by_owner_and_name(repository_views(old(list)@)),
    ensures
        by_owner_and_name(repository_views(final(list)@)),
        repository_views(final(list)@).to_multiset() == repository_views(
            old(list)@,
        ).to_multiset().insert(row@),
{
    let mut at: usize = 0;
    while at < list.len() && repository_precedes(&list[at], &row)
        invariant
            at <= list.len(),
            forall|k: int|
                0 <= k < at ==> repository_at_or_before(
                    #[trigger] repository_views(list@)[k],
                    row@,
                ),
        decreases list.len() - at,
    {
        at += 1;
    }
    let ghost before = repository_views(list@);
    list.insert(at, row);
    proof {
        assert(repository_views(list@) =~= before.insert(at as int, row@));
        to_multiset_insert(before, at as int, row@);
        let after = repository_views(list@);
        assert forall|i: int, j: int| 0 <= i < j < after.len() implies repository_at_or_before(
            #[trigger] after[i],
            #[trigger] after[j],
        ) by {
            let a = if i < at {
                before[i]
            } else if i == at {
                row@
            } else {
                before[i - 1]
            };
            let b = if j < at {
                before[j]
            } else if j == at {
                row@
            } else {
                before[j - 1]
            };
            assert(after[i] == a && after[j] == b);
            if i < at && j > at {
                assert(repository_at_or_before(before[i], before[j - 1]));
            }
            if i == at {
                let next = before[at as int];
                lemma_repository_order_total(next, row@);
                if j - 1 > at {
                    assert(repository_at_or_before(next, before[j - 1]));
                    lemma_repository_order_transitive(row@, next, before[j - 1]);
                }
            }
        }
    }
}

/// The tracked repositories in order of owner and, under one owner, of name.
pub fn list_repositories(store: &Store) -> (r: Vec<Repository>)
    ensures
        by_owner_and_name(repository_views(r@)),
        repository_views(r@).to_multiset() == store@.repositories.to_multiset(),
{
    let rows = store.repositories();
    let mut list: Vec<Repository> = Vec::new();
    let mut i: usize = 0;
    proof {
        assert(repository_views(list@) =~= Seq::empty());
        assert(store@.repositories.take(0) =~= Seq::empty());
    }
    while i < rows.len()
        invariant
            i <= rows.len(),
            repository_views(rows@) == store@.repositories,
            by_owner_and_name(repository_views(list@)),
            repository_views(list@).to_multiset() == store@.repositories.take(
                i as int,
            ).to_multiset(),
        decreases rows.len() - i,
    {
        proof {
            let upto = store@.repositories.take(i as int);
            assert(store@.repositories.take(i as int + 1) =~= upto.push(rows@[i as int]@));
            to_multiset_build(upto, rows@[i as int]@);
        }
        insert_by_owner_and_name(&mut list, rows[i].duplicate());
        i += 1;
    }
    proof {
        assert(store@.repositories.take(rows.len() as int) =~= store@.repositories);
    }
    list
}

} // verus!
