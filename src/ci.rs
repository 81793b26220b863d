//! The comparison orchestrator: a batch of new snapshots compared with their
//! baselines, appended to the history, and held to the size policies.

use vstd::prelude::*;

use crate::baseline::{
    baseline_index, find_baseline_snapshot, for_image, opt_string_view, opt_view, sizes_fit,
};
use crate::budget::{
    budget_part, check_budgets, increase_part, percent_part, violation_views, violations_of,
    BudgetPolicy, BudgetVerdict, Percent,
};
use crate::diff::{compute_diff, layer_changes_of};
use crate::error::HistoryError;
use crate::model::{ImageSnapshot, SizeDiff, Timestamp, Comparison};
use crate::store::{append_all, append_model, load_model, HistoryStore, StoreModel, StoreState};

verus! {

/// How a CI run reports.
#[derive(Clone, Copy, Debug, PartialEq, Eq, Structural)]
pub enum CiOutputFormat {
    Table,
    Json,
    Markdown,
}

/// What a CI run is asked to do.
#[derive(Debug)]
pub struct CiConfig {
    pub images: Vec<String>,
    pub budget_bytes: Option<u64>,
    pub budget_increase_percent: Option<Percent>,
    pub github_comment: bool,
    pub base_branch: Option<String>,
    pub fail_on_increase: bool,
    pub format: CiOutputFormat,
}

impl CiConfig {
    pub open spec fn spec_policy(self) -> BudgetPolicy {
        BudgetPolicy {
            budget_bytes: self.budget_bytes,
            increase_percent: self.budget_increase_percent,
            fail_on_increase: self.fail_on_increase,
        }
    }

    /// The size policies of the run.
    pub fn policy(&self) -> (r: BudgetPolicy)
        ensures
            r == self.spec_policy(),
    {
        BudgetPolicy {
            budget_bytes: self.budget_bytes,
            increase_percent: self.budget_increase_percent,
            fail_on_increase: self.fail_on_increase,
        }
    }
}

/// The git identity of the working tree.
#[derive(Debug, PartialEq, Eq)]
pub struct GitContext {
    pub commit_sha: String,
    pub branch: String,
    pub commit_message: String,
    pub author: String,
}

/// Stamps a fresh snapshot with the capture time and, when it could be had,
/// the git identity; without one the git fields stay as they were.
pub fn attach_context(snapshot: &mut ImageSnapshot, git: Option<&GitContext>, now: Timestamp)
    ensures
        final(snapshot).timestamp == now,
        match git {
            Some(g) => {
                &&& final(snapshot).commit_sha == g.commit_sha
                &&& final(snapshot).branch == g.branch
                &&& final(snapshot).commit_message == g.commit_message
                &&& final(snapshot).author == g.author
            },
            None => {
                &&& final(snapshot).commit_sha == old(snapshot).commit_sha
                &&& final(snapshot).branch == old(snapshot).branch
                &&& final(snapshot).commit_message == old(snapshot).commit_message
                &&& final(snapshot).author == old(snapshot).author
            },
        },
        final(snapshot).image == old(snapshot).image,
        final(snapshot).tag == old(snapshot).tag,
        final(snapshot).digest == old(snapshot).digest,
        final(snapshot).total_size == old(snapshot).total_size,
        final(snapshot).layer_count == old(snapshot).layer_count,
        final(snapshot).layers@ == old(snapshot).layers@,
        final(snapshot).os == old(snapshot).os,
        final(snapshot).arch == old(snapshot).arch,
{
    if let Some(g) = git {
        snapshot.commit_sha = g.commit_sha.clone();
        snapshot.branch = g.branch.clone();
        snapshot.commit_message = g.commit_message.clone();
        snapshot.author = g.author.clone();
    }
    snapshot.timestamp = now;
}

/// `d` is the diff of `before` against `after`.
pub open spec fn is_diff_of(d: SizeDiff, before: ImageSnapshot, after: ImageSnapshot) -> bool {
    &&& d.before.same_as(before)
    &&& d.after.same_as(after)
    &&& d.total_delta == after.total_size - before.total_size
    &&& d.layer_changes@ == layer_changes_of(before.layers@, after.layers@)
}

/// `c` pairs the new snapshot `s` with its diff against the baseline that
/// `history` holds for it, or with nothing when there is none.
pub open spec fn is_comparison_of(
    c: Comparison,
    history: Seq<ImageSnapshot>,
    s: ImageSnapshot,
    base_branch: Option<Seq<char>>,
) -> bool {
    let k = baseline_index(history, s.image@, base_branch);
    &&& c.snapshot.same_as(s)
    &&& if k < 0 {
        c.diff is None
    } else {
        c.diff is Some && is_diff_of(c.diff->Some_0, history[k], s)
    }
}

/// Compares each new snapshot with its baseline in `history`: the newest
/// snapshot of the same image, on `base_branch` when one is given.
pub fn compare_batch(
    history: &Vec<ImageSnapshot>,
    current: &Vec<ImageSnapshot>,
    base_branch: Option<&str>,
) -> (r: Vec<Comparison>)
    requires
        sizes_fit(history@),
        sizes_fit(current@),
    ensures
        r@.len() == current@.len(),
        forall|i: int|
            0 <= i < r@.len() ==> #[trigger] is_comparison_of(
                r@[i],
                history@,
                current@[i],
                opt_view(base_branch),
            ),
{
    let mut out: Vec<Comparison> = Vec::new();
    let mut i: usize = 0;
    while i < current.len()
        invariant
            i <= current.len(),
            sizes_fit(history@),
            sizes_fit(current@),
            out@.len() == i,
            forall|k: int|
                0 <= k < i ==> #[trigger] is_comparison_of(
                    out@[k],
                    history@,
                    current@[k],
                    opt_view(base_branch),
                ),
        decreases current.len() - i,
    {
        let s = &current[i];
        let diff = match find_baseline_snapshot(history, s.image.as_str(), base_branch) {
            Some(base) => {
                assert(crate::model::size_fits(s.total_size));
                Some(compute_diff(base.clone(), s.clone()))
            },
            None => None,
        };
        out.push(Comparison { snapshot: s.clone(), diff });
        i = i + 1;
    }
    out
}

/// What a CI run over a batch gives: one comparison per new snapshot, the
/// outcome of the size policies, and whether some image had no baseline.
#[derive(Debug)]
pub struct CiOutcome {
    pub comparisons: Vec<Comparison>,
    pub verdict: BudgetVerdict,
    pub first_run: bool,
}

/// Runs a batch: compares each new snapshot with its baseline in the history
/// as it stood before the batch, appends every new snapshot to the store, the
/// first run of an image included, and evaluates the size policies. An
/// unreadable store fails the run with `Corrupt` and is left as it was.
pub fn run_batch(store: &mut HistoryStore, current: Vec<ImageSnapshot>, config: &CiConfig) -> (r:
    Result<CiOutcome, HistoryError>)
    requires
        old(store).wf(),
        sizes_fit(old(store).records@),
        sizes_fit(current@),
        config.spec_policy().wf(),
    ensures
        final(store).wf(),
        old(store).state == StoreState::Unreadable ==> {
            &&& r == Err::<CiOutcome, HistoryError>(HistoryError::Corrupt)
            &&& final(store).model() == old(store).model()
        },
        old(store).state != StoreState::Unreadable ==> r is Ok,
        r matches Ok(o) ==> {
            let history = load_model(old(store).model())->Ok_0;
            &&& final(store).model() == append_all(old(store).model(), current@)
            &&& o.comparisons@.len() == current@.len()
            &&& forall|i: int|
                0 <= i < current@.len() ==> #[trigger] is_comparison_of(
                    o.comparisons@[i],
                    history,
                    current@[i],
                    opt_string_view(config.base_branch),
                )
            &&& violation_views(o.verdict.violations@) == violations_of(
                o.comparisons@,
                config.spec_policy(),
            )
            &&& o.verdict.passed == (o.verdict.violations@.len() == 0)
            &&& o.first_run == exists|i: int|
                0 <= i < o.comparisons@.len() && (#[trigger] o.comparisons@[i]).diff is None
        },
{
    let comparisons = match store.load() {
        Ok(history) => {
            let base = match &config.base_branch {
                Some(b) => Some(b.as_str()),
                None => None,
            };
            compare_batch(history, &current, base)
        },
        Err(e) => {
            return Err(e);
        },
    };
    let ghost start = store.model();
    let mut first_run = false;
    let mut i: usize = 0;
    while i < comparisons.len()
        invariant
            i <= comparisons.len(),
            first_run == exists|k: int| 0 <= k < i && (#[trigger] comparisons@[k]).diff is None,
        decreases comparisons.len() - i,
    {
        if comparisons[i].diff.is_none() {
            first_run = true;
        }
        i = i + 1;
    }
    let ghost items = current@;
    let total_count = current.len();
    let mut rest = current;
    proof {
        assert(rest@ =~= items.subrange(0, items.len() as int));
    }
    let mut n: usize = 0;
    while rest.len() > 0
        invariant
            store.wf(),
            start != StoreModel::Unreadable,
            n + rest@.len() == items.len(),
            items.len() == total_count,
            rest@ == items.subrange(n as int, items.len() as int),
            store.model() == append_all(start, items.take(n as int)),
        decreases rest.len(),
    {
        let s = rest.remove(0);
        proof {
            assert(s == items[n as int]);
            assert(items.take(n + 1).drop_last() =~= items.take(n as int));
        }
        let _ = store.append(s);
        n = n + 1;
        proof {
            assert(rest@ =~= items.subrange(n as int, items.len() as int));
        }
    }
    proof {
        assert(items.take(items.len() as int) =~= items);
    }
    let verdict = check_budgets(&comparisons, &config.policy());
    Ok(CiOutcome { comparisons, verdict, first_run })
}

/// On a first run no image has a baseline: only the absolute budget can be
/// violated, whatever the percent and growth policies say.
pub proof fn lemma_first_run_budget_only(cs: Seq<Comparison>, policy: BudgetPolicy)
    requires
        forall|i: int| 0 <= i < cs.len() ==> (#[trigger] cs[i]).diff is None,
    ensures
        violations_of(cs, policy) == budget_part(cs, policy),
{
    lemma_no_baseline_parts(cs, policy);
    assert(violations_of(cs, policy) =~= budget_part(cs, policy));
}

proof fn lemma_no_history_no_baseline(h: Seq<ImageSnapshot>, image: Seq<char>, branch: Option<Seq<char>>)
    requires
        for_image(h, image).len() == 0,
    ensures
        baseline_index(h, image, branch) == -1,
    decreases h.len(),
{
    if h.len() > 0 {
        lemma_no_history_no_baseline(h.drop_last(), image, branch);
    }
}

/// A new snapshot of an image that the history has never seen is compared
/// with nothing, can violate no policy but the absolute budget, and is still
/// recorded: appending it to the history's store gives the history followed
/// by it.
pub proof fn lemma_first_run(
    history: Seq<ImageSnapshot>,
    s: ImageSnapshot,
    base_branch: Option<Seq<char>>,
    c: Comparison,
    policy: BudgetPolicy,
)
    requires
        for_image(history, s.image@).len() == 0,
        is_comparison_of(c, history, s, base_branch),
    ensures
        c.diff is None,
        c.snapshot.same_as(s),
        violations_of(seq![c], policy) == budget_part(seq![c], policy),
        load_model(append_model(StoreModel::Records(history), s)) == Ok::<
            Seq<ImageSnapshot>,
            HistoryError,
        >(history.push(s)),
{
    lemma_no_history_no_baseline(history, s.image@, base_branch);
    lemma_first_run_budget_only(seq![c], policy);
}

proof fn lemma_no_baseline_parts(cs: Seq<Comparison>, policy: BudgetPolicy)
    requires
        forall|i: int| 0 <= i < cs.len() ==> (#[trigger] cs[i]).diff is None,
    ensures
        forall|p: Percent| #[trigger] percent_part(cs, p).len() == 0,
        increase_part(cs).len() == 0,
    decreases cs.len(),
{
    if cs.len() > 0 {
        let rest = cs.drop_last();
        assert forall|i: int| 0 <= i < rest.len() implies (#[trigger] rest[i]).diff is None by {
            assert(rest[i] == cs[i]);
        }
        lemma_no_baseline_parts(rest, policy);
        assert(cs.last().diff is None);
        assert forall|p: Percent| #[trigger] percent_part(cs, p).len() == 0 by {
            assert(percent_part(rest, p).len() == 0);
        }
    }
}

} // verus!
