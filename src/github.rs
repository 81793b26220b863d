//! Publishing a report to a pull request: the decisions around the API calls.

use vstd::prelude::*;

use crate::text::{contains, occurs_in};

verus! {

/// The token that marks the report's comment, so that a later run updates it.
pub const REPORT_MARKER: &'static str = "<!-- dit-report -->";

/// Where a CI run takes place on GitHub.
#[derive(Debug, PartialEq, Eq)]
pub struct GitHubContext {
    pub token: String,
    pub repo: String,
    pub pr_number: Option<u64>,
    pub sha: String,
    pub ref_name: String,
}

impl GitHubContext {
    /// The run belongs to a pull request.
    pub fn is_pr(&self) -> (r: bool)
        ensures
            r == self.pr_number is Some,
    {
        self.pr_number.is_some()
    }
}

/// A comment of a pull request.
#[derive(Debug, PartialEq, Eq)]
pub struct Comment {
    pub id: u64,
    pub body: String,
}

/// The report as posted: the marker, a line break, then the report.
pub open spec fn marked(body: Seq<char>) -> Seq<char> {
    REPORT_MARKER@ + "\n"@ + body
}

/// The report with the marker line in front of it.
pub fn marked_body(body: &str) -> (r: String)
    ensures
        r@ == marked(body@),
{
    let mut r = REPORT_MARKER.to_owned();
    r.append("\n");
    r.append(body);
    r
}

/// The position of the first comment that carries the marker, or -1.
pub open spec fn marked_index(cs: Seq<Comment>) -> int
    decreases cs.len(),
{
    if cs.len() == 0 {
        -1
    } else if marked_index(cs.drop_last()) >= 0 {
        marked_index(cs.drop_last())
    } else if occurs_in(REPORT_MARKER@, cs.last().body@) {
        cs.len() - 1
    } else {
        -1
    }
}

/// The id of the first comment that carries the report marker.
pub fn find_existing_comment(comments: &Vec<Comment>) -> (r: Option<u64>)
    ensures
        match r {
            Some(id) => marked_index(comments@) >= 0 && id == comments@[marked_index(
                comments@,
            )].id,
            None => marked_index(comments@) == -1,
        },
{
    let mut i: usize = 0;
    while i < comments.len()
        invariant
            i <= comments.len(),
            marked_index(comments@.take(i as int)) == -1,
        decreases comments.len() - i,
    {
        proof {
            assert(comments@.take(i + 1).drop_last() =~= comments@.take(i as int));
        }
        if contains(comments[i].body.as_str(), REPORT_MARKER) {
            proof {
                lemma_prefix_keeps_mark(comments@, i + 1);
            }
            return Some(comments[i].id);
        }
        i = i + 1;
    }
    proof {
        assert(comments@.take(comments@.len() as int) =~= comments@);
    }
    None
}

/// Once a prefix has a marked comment, so has every longer list, at the same place.
proof fn lemma_prefix_keeps_mark(cs: Seq<Comment>, k: int)
    requires
        0 <= k <= cs.len(),
        marked_index(cs.take(k)) >= 0,
    ensures
        marked_index(cs) == marked_index(cs.take(k)),
    decreases cs.len() - k,
{
    if k < cs.len() {
        assert(cs.take(k + 1).drop_last() =~= cs.take(k));
        lemma_prefix_keeps_mark(cs, k + 1);
    } else {
        assert(cs.take(k) =~= cs);
    }
}

/// What publishing a report comes to.
#[derive(Debug, PartialEq, Eq)]
pub enum PublishAction {
    /// Replace the body of the comment with this id.
    Update { comment_id: u64, body: String },
    /// Add a new comment to the pull request.
    Create { pr_number: u64, body: String },
}

/// Publishing is idempotent: the comment that carries the marker is updated
/// in place, and a new one is created only when there is none.
pub fn plan_publish(pr_number: u64, comments: &Vec<Comment>, report: &str) -> (r: PublishAction)
    ensures
        match r {
            PublishAction::Update { comment_id, body } => {
                &&& marked_index(comments@) >= 0
                &&& comment_id == comments@[marked_index(comments@)].id
                &&& body@ == marked(report@)
            },
            PublishAction::Create { pr_number: n, body } => {
                &&& marked_index(comments@) == -1
                &&& n == pr_number
                &&& body@ == marked(report@)
            },
        },
{
    let body = marked_body(report);
    match find_existing_comment(comments) {
        Some(comment_id) => PublishAction::Update { comment_id, body },
        None => PublishAction::Create { pr_number, body },
    }
}

} // verus!
