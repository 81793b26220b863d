//! The baseline resolver: which earlier snapshot a new one is compared with.

use vstd::prelude::*;

use crate::diff::{compute_diff, layer_changes_of};
use crate::error::{HistoryError, Missing};
use crate::model::{size_fits, ImageSnapshot, SizeDiff};
use crate::text::{starts_with, str_eq};

verus! {

/// The snapshots of one image, in append order.
pub open spec fn for_image(h: Seq<ImageSnapshot>, image: Seq<char>) -> Seq<ImageSnapshot>
    decreases h.len(),
{
    if h.len() == 0 {
        Seq::empty()
    } else {
        let rest = for_image(h.drop_last(), image);
        if h.last().image@ == image {
            rest.push(h.last())
        } else {
            rest
        }
    }
}

/// The first position at or after `i` whose commit starts with `prefix`, or -1.
pub open spec fn commit_index_from(h: Seq<ImageSnapshot>, prefix: Seq<char>, i: int) -> int
    decreases h.len() - i,
{
    if i < 0 || i >= h.len() {
        -1
    } else if prefix.is_prefix_of(h[i].commit_sha@) {
        i
    } else {
        commit_index_from(h, prefix, i + 1)
    }
}

/// The first position, oldest first, whose commit starts with `prefix`, or -1.
pub open spec fn commit_index(h: Seq<ImageSnapshot>, prefix: Seq<char>) -> int {
    commit_index_from(h, prefix, 0)
}

/// A snapshot is a candidate baseline: of the image, and of the branch if one is given.
pub open spec fn is_candidate(s: ImageSnapshot, image: Seq<char>, branch: Option<Seq<char>>) -> bool {
    &&& s.image@ == image
    &&& match branch {
        Some(b) => s.branch@ == b,
        None => true,
    }
}

/// The last position whose snapshot is a candidate baseline, or -1.
pub open spec fn baseline_index(h: Seq<ImageSnapshot>, image: Seq<char>, branch: Option<Seq<char>>) -> int
    decreases h.len(),
{
    if h.len() == 0 {
        -1
    } else if is_candidate(h.last(), image, branch) {
        h.len() - 1
    } else {
        baseline_index(h.drop_last(), image, branch)
    }
}

/// The last position whose snapshot was taken on `branch`, or -1.
pub open spec fn branch_index(h: Seq<ImageSnapshot>, branch: Seq<char>) -> int
    decreases h.len(),
{
    if h.len() == 0 {
        -1
    } else if h.last().branch@ == branch {
        h.len() - 1
    } else {
        branch_index(h.drop_last(), branch)
    }
}

proof fn lemma_branch_index_range(h: Seq<ImageSnapshot>, branch: Seq<char>)
    ensures
        -1 <= branch_index(h, branch) < h.len(),
    decreases h.len(),
{
    if h.len() > 0 {
        lemma_branch_index_range(h.drop_last(), branch);
    }
}

proof fn lemma_commit_index_range(h: Seq<ImageSnapshot>, prefix: Seq<char>, i: int)
    requires
        0 <= i,
    ensures
        commit_index_from(h, prefix, i) == -1 || i <= commit_index_from(h, prefix, i) < h.len(),
    decreases h.len() - i,
{
    if i < h.len() {
        lemma_commit_index_range(h, prefix, i + 1);
    }
}

/// Two histories that hold the same snapshots, position by position.
pub open spec fn same_history(a: Seq<ImageSnapshot>, b: Seq<ImageSnapshot>) -> bool {
    &&& a.len() == b.len()
    &&& forall|i: int| 0 <= i < a.len() ==> #[trigger] a[i].same_as(b[i])
}

proof fn lemma_same_commit_index(a: Seq<ImageSnapshot>, b: Seq<ImageSnapshot>, p: Seq<char>, i: int)
    requires
        same_history(a, b),
    ensures
        commit_index_from(a, p, i) == commit_index_from(b, p, i),
    decreases a.len() - i,
{
    if 0 <= i < a.len() {
        assert(a[i].same_as(b[i]));
        lemma_same_commit_index(a, b, p, i + 1);
    }
}

proof fn lemma_same_branch_index(a: Seq<ImageSnapshot>, b: Seq<ImageSnapshot>, br: Seq<char>)
    requires
        same_history(a, b),
    ensures
        branch_index(a, br) == branch_index(b, br),
    decreases a.len(),
{
    if a.len() > 0 {
        assert(a.last().same_as(b.last()));
        assert(same_history(a.drop_last(), b.drop_last())) by {
            assert forall|i: int| 0 <= i < a.len() - 1 implies #[trigger] a.drop_last()[i].same_as(
                b.drop_last()[i],
            ) by {
                assert(a[i].same_as(b[i]));
            }
        }
        lemma_same_branch_index(a.drop_last(), b.drop_last(), br);
    }
}

/// Copies of the snapshots of one image, in append order.
pub fn image_history(history: &Vec<ImageSnapshot>, image: &str) -> (r: Vec<ImageSnapshot>)
    ensures
        r@.len() == for_image(history@, image@).len(),
        forall|i: int| 0 <= i < r@.len() ==> #[trigger] r@[i].same_as(for_image(history@, image@)[i]),
{
    let mut out: Vec<ImageSnapshot> = Vec::new();
    let mut i: usize = 0;
    while i < history.len()
        invariant
            i <= history.len(),
            out@.len() == for_image(history@.take(i as int), image@).len(),
            forall|k: int|
                0 <= k < out@.len() ==> #[trigger] out@[k].same_as(
                    for_image(history@.take(i as int), image@)[k],
                ),
        decreases history.len() - i,
    {
        proof {
            assert(history@.take(i + 1).drop_last() =~= history@.take(i as int));
        }
        if str_eq(history[i].image.as_str(), image) {
            out.push(history[i].clone());
        }
        i = i + 1;
    }
    proof {
        assert(history@.take(history@.len() as int) =~= history@);
    }
    out
}

/// The oldest snapshot whose commit starts with `commit`.
fn find_snapshot_by_commit(history: &Vec<ImageSnapshot>, commit: &str) -> (r: Result<
    usize,
    HistoryError,
>)
    ensures
        match r {
            Ok(k) => k as int == commit_index(history@, commit@),
            Err(e) => commit_index(history@, commit@) == -1 && e == HistoryError::NotFound(
                Missing::Commit,
            ),
        },
{
    let mut i: usize = 0;
    while i < history.len()
        invariant
            i <= history.len(),
            commit_index(history@, commit@) == commit_index_from(history@, commit@, i as int),
        decreases history.len() - i,
    {
        if starts_with(history[i].commit_sha.as_str(), commit) {
            return Ok(i);
        }
        i = i + 1;
    }
    Err(HistoryError::NotFound(Missing::Commit))
}

/// The newest snapshot taken on `branch`.
fn find_latest_snapshot_by_branch(history: &Vec<ImageSnapshot>, branch: &str) -> (r: Result<
    usize,
    HistoryError,
>)
    ensures
        match r {
            Ok(k) => k as int == branch_index(history@, branch@),
            Err(e) => branch_index(history@, branch@) == -1 && e == HistoryError::NotFound(
                Missing::Branch,
            ),
        },
{
    let mut i: usize = history.len();
    proof {
        assert(history@.take(i as int) =~= history@);
    }
    while i > 0
        invariant
            i <= history.len(),
            branch_index(history@, branch@) == branch_index(history@.take(i as int), branch@),
        decreases i,
    {
        proof {
            assert(history@.take(i as int).drop_last() =~= history@.take(i - 1));
        }
        if str_eq(history[i - 1].branch.as_str(), branch) {
            return Ok(i - 1);
        }
        i = i - 1;
    }
    Err(HistoryError::NotFound(Missing::Branch))
}

/// The baseline for a new snapshot of `image`: the newest snapshot of the image,
/// taken on `base_branch` when one is given; none on a first run.
pub fn find_baseline_snapshot<'a>(
    history: &'a Vec<ImageSnapshot>,
    image: &str,
    base_branch: Option<&str>,
) -> (r: Option<&'a ImageSnapshot>)
    ensures
        ({
            let k = baseline_index(history@, image@, opt_view(base_branch));
            match r {
                Some(s) => 0 <= k < history@.len() && *s == history@[k],
                None => k == -1,
            }
        }),
{
    let ghost want = opt_view(base_branch);
    let mut i: usize = history.len();
    proof {
        assert(history@.take(i as int) =~= history@);
    }
    while i > 0
        invariant
            i <= history.len(),
            want == opt_view(base_branch),
            baseline_index(history@, image@, want) == baseline_index(
                history@.take(i as int),
                image@,
                want,
            ),
        decreases i,
    {
        proof {
            assert(history@.take(i as int).drop_last() =~= history@.take(i - 1));
        }
        let s = &history[i - 1];
        let on_branch = match base_branch {
            Some(b) => str_eq(s.branch.as_str(), b),
            None => true,
        };
        if str_eq(s.image.as_str(), image) && on_branch {
            return Some(s);
        }
        i = i - 1;
    }
    None
}

/// The view of an optional string slice.
pub open spec fn opt_view(o: Option<&str>) -> Option<Seq<char>> {
    match o {
        Some(s) => Some(s@),
        None => None,
    }
}

/// The view of an optional string.
pub open spec fn opt_string_view(o: Option<String>) -> Option<Seq<char>> {
    match o {
        Some(s) => Some(s@),
        None => None,
    }
}

/// Which two snapshots of an image's history an interactive diff compares, as
/// positions in that history: the two commits given, else the newest on the
/// base branch against the newest overall, else the two newest.
pub open spec fn diff_pair(
    ih: Seq<ImageSnapshot>,
    commit_a: Option<Seq<char>>,
    commit_b: Option<Seq<char>>,
    base_branch: Option<Seq<char>>,
) -> Result<(int, int), HistoryError> {
    if commit_a is Some && commit_b is Some {
        let i = commit_index(ih, commit_a->Some_0);
        let j = commit_index(ih, commit_b->Some_0);
        if i < 0 || j < 0 {
            Err(HistoryError::NotFound(Missing::Commit))
        } else {
            Ok((i, j))
        }
    } else if base_branch is Some {
        let i = branch_index(ih, base_branch->Some_0);
        if i < 0 {
            Err(HistoryError::NotFound(Missing::Branch))
        } else {
            Ok((i, ih.len() - 1))
        }
    } else if ih.len() < 2 {
        Err(HistoryError::InsufficientHistory)
    } else {
        Ok((ih.len() - 2, ih.len() - 1))
    }
}

/// Every snapshot's total size fits in a signed delta.
pub open spec fn sizes_fit(h: Seq<ImageSnapshot>) -> bool {
    forall|i: int| 0 <= i < h.len() ==> size_fits(#[trigger] h[i].total_size)
}

/// Compares two snapshots of one image from the history: those of two commits
/// (by prefix, oldest match first), or the newest on a base branch against the
/// newest of all, or the two newest.
pub fn diff_images(
    history: &Vec<ImageSnapshot>,
    image: &str,
    commit_a: Option<String>,
    commit_b: Option<String>,
    base_branch: Option<String>,
) -> (r: Result<SizeDiff, HistoryError>)
    requires
        sizes_fit(for_image(history@, image@)),
    ensures
        history@.len() == 0 ==> r == Err::<SizeDiff, HistoryError>(
            HistoryError::NotFound(Missing::AnyHistory),
        ),
        ({
            let ih = for_image(history@, image@);
            history@.len() > 0 ==> if ih.len() == 0 {
                r == Err::<SizeDiff, HistoryError>(HistoryError::NotFound(Missing::Image))
            } else {
                match (
                    r,
                    diff_pair(
                        ih,
                        opt_string_view(commit_a),
                        opt_string_view(commit_b),
                        opt_string_view(base_branch),
                    ),
                ) {
                    (Ok(d), Ok((i, j))) => {
                        &&& d.before.same_as(ih[i])
                        &&& d.after.same_as(ih[j])
                        &&& d.total_delta == ih[j].total_size - ih[i].total_size
                        &&& d.layer_changes@ == layer_changes_of(ih[i].layers@, ih[j].layers@)
                    },
                    (Err(e), Err(f)) => e == f,
                    _ => false,
                }
            }
        }),
{
    if history.len() == 0 {
        return Err(HistoryError::NotFound(Missing::AnyHistory));
    }
    let ih = image_history(history, image);
    let ghost spec_ih = for_image(history@, image@);
    proof {
        assert(same_history(ih@, spec_ih));
        if commit_a is Some {
            lemma_same_commit_index(ih@, spec_ih, opt_string_view(commit_a)->Some_0, 0);
        }
        if commit_b is Some {
            lemma_same_commit_index(ih@, spec_ih, opt_string_view(commit_b)->Some_0, 0);
        }
        if base_branch is Some {
            lemma_same_branch_index(ih@, spec_ih, opt_string_view(base_branch)->Some_0);
        }
    }
    if ih.len() == 0 {
        return Err(HistoryError::NotFound(Missing::Image));
    }
    let (i, j) = match (commit_a, commit_b) {
        (Some(a), Some(b)) => {
            let i = find_snapshot_by_commit(&ih, a.as_str());
            let j = find_snapshot_by_commit(&ih, b.as_str());
            match (i, j) {
                (Ok(i), Ok(j)) => (i, j),
                _ => {
                    return Err(HistoryError::NotFound(Missing::Commit));
                },
            }
        },
        _ => match base_branch {
            Some(base) => {
                match find_latest_snapshot_by_branch(&ih, base.as_str()) {
                    Ok(i) => (i, ih.len() - 1),
                    Err(e) => {
                        return Err(e);
                    },
                }
            },
            None => {
                if ih.len() < 2 {
                    return Err(HistoryError::InsufficientHistory);
                }
                (ih.len() - 2, ih.len() - 1)
            },
        },
    };
    assert(i < ih.len() && j < ih.len()) by {
        if commit_a is Some && commit_b is Some {
            lemma_commit_index_range(ih@, opt_string_view(commit_a)->Some_0, 0);
            lemma_commit_index_range(ih@, opt_string_view(commit_b)->Some_0, 0);
        } else if base_branch is Some {
            lemma_branch_index_range(ih@, opt_string_view(base_branch)->Some_0);
        }
    }
    assert(ih@[i as int].same_as(spec_ih[i as int]) && ih@[j as int].same_as(spec_ih[j as int]));
    assert(size_fits(spec_ih[i as int].total_size) && size_fits(spec_ih[j as int].total_size));
    let before = ih[i].clone();
    let after = ih[j].clone();
    Ok(compute_diff(before, after))
}

} // verus!
