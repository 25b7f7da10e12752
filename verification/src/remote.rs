//! Issues as the remote hands them out.

use vstd::prelude::*;
use vstd::string::StringExecFns;
use crate::models::opt_text;
use crate::text::{decimal, decimal_text};

verus! {

/// The kinds of reaction that are tallied.
#[derive(Clone, Copy, Debug, PartialEq, Eq, Structural)]
pub enum ReactionKind {
    PlusOne,
    MinusOne,
    Laugh,
    Hooray,
    Confused,
    Heart,
    Rocket,
    Eyes,
}

impl ReactionKind {
    /// The name under which the kind is stored.
    pub open spec fn name(self) -> Seq<char> {
        match self {
            ReactionKind::PlusOne => "+1"@,
            ReactionKind::MinusOne => "-1"@,
            ReactionKind::Laugh => "laugh"@,
            ReactionKind::Hooray => "hooray"@,
            ReactionKind::Confused => "confused"@,
            ReactionKind::Heart => "heart"@,
            ReactionKind::Rocket => "rocket"@,
            ReactionKind::Eyes => "eyes"@,
        }
    }

    /// The kinds in the order in which they are written.
    pub open spec fn in_order() -> Seq<ReactionKind> {
        seq![
            ReactionKind::PlusOne,
            ReactionKind::MinusOne,
            ReactionKind::Laugh,
            ReactionKind::Hooray,
            ReactionKind::Confused,
            ReactionKind::Heart,
            ReactionKind::Rocket,
            ReactionKind::Eyes,
        ]
    }

    /// The name under which the kind is stored.
    pub fn as_str(self) -> (r: &'static str)
        ensures
            r@ == self.name(),
    {
        match self {
            ReactionKind::PlusOne => "+1",
            ReactionKind::MinusOne => "-1",
            ReactionKind::Laugh => "laugh",
            ReactionKind::Hooray => "hooray",
            ReactionKind::Confused => "confused",
            ReactionKind::Heart => "heart",
            ReactionKind::Rocket => "rocket",
            ReactionKind::Eyes => "eyes",
        }
    }

    /// The kind that stands at a place of the order; `None` beyond the
    /// eighth.
    pub fn nth(i: usize) -> (r: Option<ReactionKind>)
        ensures
            r == if i < 8 {
                Some(ReactionKind::in_order()[i as int])
            } else {
                None
            },
    {
        if i == 0 {
            Some(ReactionKind::PlusOne)
        } else if i == 1 {
            Some(ReactionKind::MinusOne)
        } else if i == 2 {
            Some(ReactionKind::Laugh)
        } else if i == 3 {
            Some(ReactionKind::Hooray)
        } else if i == 4 {
            Some(ReactionKind::Confused)
        } else if i == 5 {
            Some(ReactionKind::Heart)
        } else if i == 6 {
            Some(ReactionKind::Rocket)
        } else if i == 7 {
            Some(ReactionKind::Eyes)
        } else {
            None
        }
    }
}

/// The reaction counts of an issue, each kind present or not.
#[derive(Clone, Copy, Debug, PartialEq, Eq, Structural)]
pub struct RemoteReactions {
    pub plus_one: Option<i32>,
    pub minus_one: Option<i32>,
    pub laugh: Option<i32>,
    pub hooray: Option<i32>,
    pub confused: Option<i32>,
    pub heart: Option<i32>,
    pub rocket: Option<i32>,
    pub eyes: Option<i32>,
}

impl RemoteReactions {
    /// The count of a kind, if the remote gave one.
    pub open spec fn count_of(self, kind: ReactionKind) -> Option<i32> {
        match kind {
            ReactionKind::PlusOne => self.plus_one,
            ReactionKind::MinusOne => self.minus_one,
            ReactionKind::Laugh => self.laugh,
            ReactionKind::Hooray => self.hooray,
            ReactionKind::Confused => self.confused,
            ReactionKind::Heart => self.heart,
            ReactionKind::Rocket => self.rocket,
            ReactionKind::Eyes => self.eyes,
        }
    }

    /// The count of a kind, if the remote gave one.
    pub fn count(&self, kind: ReactionKind) -> (r: Option<i32>)
        ensures
            r == self.count_of(kind),
    {
        match kind {
            ReactionKind::PlusOne => self.plus_one,
            ReactionKind::MinusOne => self.minus_one,
            ReactionKind::Laugh => self.laugh,
            ReactionKind::Hooray => self.hooray,
            ReactionKind::Confused => self.confused,
            ReactionKind::Heart => self.heart,
            ReactionKind::Rocket => self.rocket,
            ReactionKind::Eyes => self.eyes,
        }
    }
}

/// One issue or pull request of a page.
#[derive(Debug)]
pub struct RemoteIssue {
    pub number: i32,
    pub title: String,
    pub body: Option<String>,
    pub created_at: String,
    pub state: String,
    pub is_pull_request: bool,
    pub author: Option<String>,
    pub labels: Option<Vec<String>>,
    pub reactions: Option<RemoteReactions>,
}

/// A record as the model sees it.
pub struct RemoteIssueView {
    pub number: int,
    pub title: Seq<char>,
    pub body: Option<Seq<char>>,
    pub created_at: Seq<char>,
    pub state: Seq<char>,
    pub is_pull_request: bool,
    pub author: Option<Seq<char>>,
    pub labels: Option<Seq<Seq<char>>>,
    pub reactions: Option<RemoteReactions>,
}

/// The names as sequences of characters.
pub open spec fn texts(names: Seq<String>) -> Seq<Seq<char>> {
    names.map_values(|n: String| n@)
}

impl View for RemoteIssue {
    type V = RemoteIssueView;

    open spec fn view(&self) -> RemoteIssueView {
        RemoteIssueView {
            number: self.number as int,
            title: self.title@,
            body: opt_text(self.body),
            created_at: self.created_at@,
            state: self.state@,
            is_pull_request: self.is_pull_request,
            author: opt_text(self.author),
            labels: match self.labels {
                Some(names) => Some(texts(names@)),
                None => None,
            },
            reactions: self.reactions,
        }
    }
}

/// The records of a page as the model sees them.
pub open spec fn record_views(records: Seq<RemoteIssue>) -> Seq<RemoteIssueView> {
    records.map_values(|r: RemoteIssue| r@)
}

/// How many issues the remote is asked to put on a page.
pub const PAGE_SIZE: u32 = 100;

/// The media type that is asked for.
pub const ACCEPT: &'static str = "application/vnd.github+json";

/// The version of the remote's interface that is asked for.
pub const API_VERSION: &'static str = "2022-11-28";

/// The name under which requests are made.
pub const USER_AGENT: &'static str = "github_issues_rs";

/// The address of a page of a repository's issues, of every state.
pub open spec fn page_url_text(user: Seq<char>, name: Seq<char>, page: int) -> Seq<char> {
    "https://api.github.com/repos/"@ + user + "/"@ + name + "/issues?state=all&per_page="@
        + decimal_text(PAGE_SIZE as int) + "&page="@ + decimal_text(page)
}

/// The address from which a page of a repository's issues is fetched.
pub fn page_url(user: &str, name: &str, page: u32) -> (r: String)
    ensures
        r@ == page_url_text(user@, name@, page as int),
{
    let mut url = "https://api.github.com/repos/".to_owned();
    url.append(user);
    url.append("/");
    url.append(name);
    url.append("/issues?state=all&per_page=");
    url.append(decimal(PAGE_SIZE as i64).as_str());
    url.append("&page=");
    url.append(decimal(page as i64).as_str());
    url
}

/// The value of the header that carries the credential.
pub fn authorization(token: &str) -> (r: String)
    ensures
        r@ == "Bearer "@ + token@,
{
    let mut value = "Bearer ".to_owned();
    value.append(token);
    value
}

} // verus!
