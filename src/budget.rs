//! Size policies evaluated over a batch of comparisons.

use vstd::prelude::*;

use crate::model::{Comparison, ImageSnapshot};

verus! {

/// A percentage held exactly as the fraction `numerator / denominator` percent.
#[derive(Clone, Copy, Debug, PartialEq, Eq, Structural)]
pub struct Percent {
    pub numerator: u64,
    pub denominator: u32,
}

impl Percent {
    pub open spec fn wf(self) -> bool {
        self.denominator > 0
    }

    /// A whole number of percent.
    pub fn whole(n: u64) -> (r: Percent)
        ensures
            r.wf(),
            r.numerator == n,
            r.denominator == 1,
    {
        Percent { numerator: n, denominator: 1 }
    }
}

/// The size policies; each one is optional.
#[derive(Clone, Copy, Debug, PartialEq, Eq, Structural)]
pub struct BudgetPolicy {
    /// Largest total size, in bytes, of all current snapshots of the batch.
    pub budget_bytes: Option<u64>,
    /// Largest growth of one image against its baseline, in percent.
    pub increase_percent: Option<Percent>,
    /// Any growth of an image against its baseline is a violation.
    pub fail_on_increase: bool,
}

impl BudgetPolicy {
    pub open spec fn wf(self) -> bool {
        match self.increase_percent {
            Some(p) => p.wf(),
            None => true,
        }
    }
}

/// A breach of a size policy.
#[derive(Debug, PartialEq, Eq)]
pub enum Violation {
    /// The current snapshots of the batch add up to more than the budget.
    TotalSize { observed: u128, limit: u64 },
    /// An image grew, against its baseline of `before` bytes, by `delta` bytes,
    /// which is more than `threshold` percent.
    PercentIncrease { image: String, before: u64, delta: i64, threshold: Percent },
    /// An image grew by `delta` bytes while any growth is refused.
    Increase { image: String, delta: i64 },
}

/// A violation as a mathematical value.
pub enum ViolationModel {
    TotalSize { observed: int, limit: int },
    PercentIncrease { image: Seq<char>, before: int, delta: int, threshold: Percent },
    Increase { image: Seq<char>, delta: int },
}

impl View for Violation {
    type V = ViolationModel;

    open spec fn view(&self) -> ViolationModel {
        match self {
            Violation::TotalSize { observed, limit } => ViolationModel::TotalSize {
                observed: *observed as int,
                limit: *limit as int,
            },
            Violation::PercentIncrease { image, before, delta, threshold } =>
                ViolationModel::PercentIncrease {
                image: image@,
                before: *before as int,
                delta: *delta as int,
                threshold: *threshold,
            },
            Violation::Increase { image, delta } => ViolationModel::Increase {
                image: image@,
                delta: *delta as int,
            },
        }
    }
}

/// The views of a list of violations.
pub open spec fn violation_views(vs: Seq<Violation>) -> Seq<ViolationModel> {
    vs.map_values(|v: Violation| v@)
}

/// The outcome of evaluating the policies: `passed` exactly when nothing is violated.
#[derive(Debug)]
pub struct BudgetVerdict {
    pub passed: bool,
    pub violations: Vec<Violation>,
}

/// The tag of a snapshot, `latest` when it has none.
pub open spec fn tag_or_latest(tag: Option<String>) -> Seq<char> {
    match tag {
        Some(t) => t@,
        None => "latest"@,
    }
}

/// How an image is named in reports: `image:tag`.
pub open spec fn image_ref(s: ImageSnapshot) -> Seq<char> {
    s.image@ + ":"@ + tag_or_latest(s.tag)
}

/// `image:tag` of a snapshot, with `latest` for a missing tag.
pub fn image_name(s: &ImageSnapshot) -> (r: String)
    ensures
        r@ == image_ref(*s),
{
    let mut r = s.image.clone();
    r.append(":");
    match &s.tag {
        Some(t) => r.append(t.as_str()),
        None => r.append("latest"),
    }
    r
}

/// The sum of the total sizes of the current snapshots.
pub open spec fn batch_total(cs: Seq<Comparison>) -> int
    decreases cs.len(),
{
    if cs.len() == 0 {
        0
    } else {
        batch_total(cs.drop_last()) + cs.last().snapshot.total_size
    }
}

/// `delta` bytes on a base of `before` bytes is more than `p` percent: the
/// growth `delta / before * 100` exceeds `numerator / denominator`.
pub open spec fn exceeds_percent(delta: int, before: int, p: Percent) -> bool {
    before > 0 && delta * 100 * p.denominator > p.numerator * before
}

/// The absolute-budget violation of a batch, if any.
pub open spec fn budget_part(cs: Seq<Comparison>, policy: BudgetPolicy) -> Seq<ViolationModel> {
    match policy.budget_bytes {
        Some(b) => if batch_total(cs) > b {
            seq![ViolationModel::TotalSize { observed: batch_total(cs), limit: b as int }]
        } else {
            Seq::empty()
        },
        None => Seq::empty(),
    }
}

/// The percent-increase violations, one per image over the threshold, in batch order.
pub open spec fn percent_part(cs: Seq<Comparison>, p: Percent) -> Seq<ViolationModel>
    decreases cs.len(),
{
    if cs.len() == 0 {
        Seq::empty()
    } else {
        let rest = percent_part(cs.drop_last(), p);
        let c = cs.last();
        match c.diff {
            Some(d) => if exceeds_percent(d.total_delta as int, d.before.total_size as int, p) {
                rest.push(
                    ViolationModel::PercentIncrease {
                        image: image_ref(c.snapshot),
                        before: d.before.total_size as int,
                        delta: d.total_delta as int,
                        threshold: p,
                    },
                )
            } else {
                rest
            },
            None => rest,
        }
    }
}

/// The growth violations, one per image that grew, in batch order.
pub open spec fn increase_part(cs: Seq<Comparison>) -> Seq<ViolationModel>
    decreases cs.len(),
{
    if cs.len() == 0 {
        Seq::empty()
    } else {
        let rest = increase_part(cs.drop_last());
        let c = cs.last();
        match c.diff {
            Some(d) => if d.total_delta > 0 {
                rest.push(
                    ViolationModel::Increase { image: image_ref(c.snapshot), delta: d.total_delta as int },
                )
            } else {
                rest
            },
            None => rest,
        }
    }
}

/// Every violation of a batch: the absolute budget, then the percent
/// threshold per image, then growth per image.
pub open spec fn violations_of(cs: Seq<Comparison>, policy: BudgetPolicy) -> Seq<ViolationModel> {
    budget_part(cs, policy) + match policy.increase_percent {
        Some(p) => percent_part(cs, p),
        None => Seq::empty(),
    } + if policy.fail_on_increase {
        increase_part(cs)
    } else {
        Seq::empty()
    }
}

/// Whether `delta` bytes on a base of `before` bytes is more than `p` percent.
pub fn exceeds_threshold(delta: i64, before: u64, p: Percent) -> (r: bool)
    requires
        p.wf(),
    ensures
        r == exceeds_percent(delta as int, before as int, p),
{
    if before == 0 {
        return false;
    }
    if delta <= 0 {
        assert(delta * 100 * p.denominator <= 0) by (nonlinear_arith)
            requires
                delta <= 0,
                p.denominator > 0,
        ;
        assert(p.numerator * before >= 0) by (nonlinear_arith);
        return false;
    }
    let d = delta as u128;
    assert(d * 100 * (p.denominator as u128) < 0x1_0000_0000_0000_0000_0000_0000_0000) by (
    nonlinear_arith)
        requires
            0 < d < 0x8000_0000_0000_0000,
            p.denominator < 0x1_0000_0000,
    ;
    assert((p.numerator as u128) * (before as u128) <= 0xFFFF_FFFF_FFFF_FFFE_0000_0000_0000_0001)
        by (nonlinear_arith)
        requires
            p.numerator <= 0xFFFF_FFFF_FFFF_FFFF,
            before <= 0xFFFF_FFFF_FFFF_FFFF,
    ;
    let lhs: u128 = d * 100 * (p.denominator as u128);
    let rhs: u128 = (p.numerator as u128) * (before as u128);
    lhs > rhs
}

/// The sum of the current snapshots' total sizes.
fn sum_current(comparisons: &Vec<Comparison>) -> (r: u128)
    ensures
        r == batch_total(comparisons@),
{
    let mut sum: u128 = 0;
    let mut i: usize = 0;
    while i < comparisons.len()
        invariant
            i <= comparisons.len(),
            sum == batch_total(comparisons@.take(i as int)),
            sum <= i * 0xFFFF_FFFF_FFFF_FFFF,
        decreases comparisons.len() - i,
    {
        proof {
            assert(comparisons@.take(i + 1).drop_last() =~= comparisons@.take(i as int));
            assert(i * 0xFFFF_FFFF_FFFF_FFFF + 0xFFFF_FFFF_FFFF_FFFF == (i + 1)
                * 0xFFFF_FFFF_FFFF_FFFF) by (nonlinear_arith);
            assert((i + 1) * 0xFFFF_FFFF_FFFF_FFFF <= 0xFFFF_FFFF_FFFF_FFFF
                * 0xFFFF_FFFF_FFFF_FFFF) by (nonlinear_arith)
                requires
                    i + 1 <= 0xFFFF_FFFF_FFFF_FFFF,
            ;
        }
        sum = sum + comparisons[i].snapshot.total_size as u128;
        i = i + 1;
    }
    proof {
        assert(comparisons@.take(comparisons@.len() as int) =~= comparisons@);
    }
    sum
}

/// Evaluates a batch against the policies. Each policy is checked on its
/// own: the total size of the current snapshots against the budget (one
/// violation for the batch), then, for each comparison with a baseline of
/// positive size, its growth in percent against the threshold (strictly
/// greater fails), then, for each comparison with a baseline, any growth when
/// growth is refused. The batch passes exactly when nothing is violated.
pub fn check_budgets(comparisons: &Vec<Comparison>, policy: &BudgetPolicy) -> (r: BudgetVerdict)
    requires
        policy.wf(),
    ensures
        violation_views(r.violations@) == violations_of(comparisons@, *policy),
        r.passed == (r.violations@.len() == 0),
{
    let mut violations: Vec<Violation> = Vec::new();
    let total = sum_current(comparisons);
    if let Some(budget) = policy.budget_bytes {
        if total > budget as u128 {
            violations.push(Violation::TotalSize { observed: total, limit: budget });
        }
    }
    proof {
        assert(violation_views(violations@) =~= budget_part(comparisons@, *policy));
    }
    let ghost head = violation_views(violations@);
    if let Some(threshold) = policy.increase_percent {
        let mut i: usize = 0;
        while i < comparisons.len()
            invariant
                i <= comparisons.len(),
                threshold.wf(),
                violation_views(violations@) == head + percent_part(
                    comparisons@.take(i as int),
                    threshold,
                ),
            decreases comparisons.len() - i,
        {
            proof {
                assert(comparisons@.take(i + 1).drop_last() =~= comparisons@.take(i as int));
                assert(comparisons@.take(i + 1).last() == comparisons@[i as int]);
            }
            let ghost before_push = violations@;
            let c = &comparisons[i];
            if let Some(d) = &c.diff {
                if exceeds_threshold(d.total_delta, d.before.total_size, threshold) {
                    violations.push(
                        Violation::PercentIncrease {
                            image: image_name(&c.snapshot),
                            before: d.before.total_size,
                            delta: d.total_delta,
                            threshold,
                        },
                    );
                }
            }
            i = i + 1;
            proof {
                if violations@.len() > before_push.len() {
                    assert(violations@ == before_push.push(violations@.last()));
                    assert(violation_views(violations@) =~= violation_views(before_push).push(
                        violations@.last()@,
                    ));
                }
                assert(violation_views(violations@) =~= head + percent_part(
                    comparisons@.take(i as int),
                    threshold,
                ));
            }
        }
        proof {
            assert(comparisons@.take(comparisons@.len() as int) =~= comparisons@);
        }
    }
    let ghost mid = violation_views(violations@);
    if policy.fail_on_increase {
        let mut i: usize = 0;
        while i < comparisons.len()
            invariant
                i <= comparisons.len(),
                violation_views(violations@) == mid + increase_part(comparisons@.take(i as int)),
            decreases comparisons.len() - i,
        {
            proof {
                assert(comparisons@.take(i + 1).drop_last() =~= comparisons@.take(i as int));
                assert(comparisons@.take(i + 1).last() == comparisons@[i as int]);
            }
            let ghost before_push = violations@;
            let c = &comparisons[i];
            if let Some(d) = &c.diff {
                if d.total_delta > 0 {
                    violations.push(
                        Violation::Increase { image: image_name(&c.snapshot), delta: d.total_delta },
                    );
                }
            }
            i = i + 1;
            proof {
                if violations@.len() > before_push.len() {
                    assert(violations@ == before_push.push(violations@.last()));
                    assert(violation_views(violations@) =~= violation_views(before_push).push(
                        violations@.last()@,
                    ));
                }
                assert(violation_views(violations@) =~= mid + increase_part(
                    comparisons@.take(i as int),
                ));
            }
        }
        proof {
            assert(comparisons@.take(comparisons@.len() as int) =~= comparisons@);
        }
    }
    proof {
        assert(violation_views(violations@) =~= violations_of(comparisons@, *policy));
    }
    let passed = violations.len() == 0;
    BudgetVerdict { passed, violations }
}

} // verus!
