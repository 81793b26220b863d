//! Sparklines: one bar character per snapshot, scaled between the smallest
//! and the largest size.

use vstd::prelude::*;

use crate::model::ImageSnapshot;
use crate::text::push_char;

verus! {

/// The bar character of height `i`, from one eighth (0) to full (7).
pub open spec fn spark_char(i: int) -> char {
    if i <= 0 {
        '▁'
    } else if i == 1 {
        '▂'
    } else if i == 2 {
        '▃'
    } else if i == 3 {
        '▄'
    } else if i == 4 {
        '▅'
    } else if i == 5 {
        '▆'
    } else if i == 6 {
        '▇'
    } else {
        '█'
    }
}

fn bar_char(i: u64) -> (r: char)
    ensures
        r == spark_char(i as int),
{
    if i == 0 {
        '▁'
    } else if i == 1 {
        '▂'
    } else if i == 2 {
        '▃'
    } else if i == 3 {
        '▄'
    } else if i == 4 {
        '▅'
    } else if i == 5 {
        '▆'
    } else if i == 6 {
        '▇'
    } else {
        '█'
    }
}

/// The smallest total size of a non-empty list.
pub open spec fn min_size(s: Seq<ImageSnapshot>) -> int
    decreases s.len(),
{
    if s.len() <= 1 {
        if s.len() == 1 { s[0].total_size as int } else { 0 }
    } else {
        let m = min_size(s.drop_last());
        if s.last().total_size < m { s.last().total_size as int } else { m }
    }
}

/// The largest total size of a non-empty list.
pub open spec fn max_size(s: Seq<ImageSnapshot>) -> int
    decreases s.len(),
{
    if s.len() <= 1 {
        if s.len() == 1 { s[0].total_size as int } else { 0 }
    } else {
        let m = max_size(s.drop_last());
        if s.last().total_size > m { s.last().total_size as int } else { m }
    }
}

/// The height of a bar: `7 * (size - lo) / (hi - lo)` rounded to the nearest
/// whole number, halves up; the middle height 4 when all sizes are equal.
pub open spec fn bar_height(size: int, lo: int, hi: int) -> int {
    if hi == lo {
        4
    } else {
        (14 * (size - lo) + (hi - lo)) / (2 * (hi - lo))
    }
}

/// The sparkline of a list of snapshots: empty for none, the middle bar for
/// one, else one bar per snapshot scaled between the smallest and largest size.
pub open spec fn sparkline_of(s: Seq<ImageSnapshot>) -> Seq<char> {
    if s.len() == 0 {
        Seq::empty()
    } else if s.len() == 1 {
        seq![spark_char(4)]
    } else {
        Seq::new(
            s.len(),
            |i: int| spark_char(bar_height(s[i].total_size as int, min_size(s), max_size(s))),
        )
    }
}

proof fn lemma_min_max(s: Seq<ImageSnapshot>)
    requires
        s.len() >= 1,
    ensures
        forall|i: int| 0 <= i < s.len() ==> min_size(s) <= #[trigger] s[i].total_size <= max_size(s),
        0 <= min_size(s) <= max_size(s) <= u64::MAX,
    decreases s.len(),
{
    if s.len() > 1 {
        lemma_min_max(s.drop_last());
        assert forall|i: int| 0 <= i < s.len() implies min_size(s) <= #[trigger] s[i].total_size
            <= max_size(s) by {
            if i < s.len() - 1 {
                assert(s.drop_last()[i] == s[i]);
            }
        }
    }
}

/// One bar character per snapshot, oldest first, scaled between the smallest
/// and the largest total size; the middle bar for a single snapshot or for
/// sizes that are all equal.
pub fn generate_sparkline(snapshots: &[ImageSnapshot]) -> (r: String)
    ensures
        r@ == sparkline_of(snapshots@),
{
    let n = snapshots.len();
    let mut out = String::new();
    if n == 0 {
        return out;
    }
    if n == 1 {
        push_char(&mut out, bar_char(4));
        return out;
    }
    let mut lo = snapshots[0].total_size;
    let mut hi = snapshots[0].total_size;
    let mut i: usize = 1;
    while i < n
        invariant
            n == snapshots@.len(),
            1 <= i <= n,
            lo == min_size(snapshots@.take(i as int)),
            hi == max_size(snapshots@.take(i as int)),
        decreases n - i,
    {
        proof {
            assert(snapshots@.take(i + 1).drop_last() =~= snapshots@.take(i as int));
        }
        let size = snapshots[i].total_size;
        if size < lo {
            lo = size;
        }
        if size > hi {
            hi = size;
        }
        i = i + 1;
    }
    proof {
        assert(snapshots@.take(n as int) =~= snapshots@);
        lemma_min_max(snapshots@);
    }
    let mut k: usize = 0;
    while k < n
        invariant
            n == snapshots@.len(),
            n >= 2,
            k <= n,
            lo == min_size(snapshots@),
            hi == max_size(snapshots@),
            lo <= hi,
            forall|j: int| 0 <= j < n ==> lo <= #[trigger] snapshots@[j].total_size <= hi,
            out@ == Seq::new(
                k as nat,
                |j: int| spark_char(bar_height(snapshots@[j].total_size as int, lo as int, hi as int)),
            ),
        decreases n - k,
    {
        let size = snapshots[k].total_size;
        let h: u64 = if hi == lo {
            4
        } else {
            let span = (hi - lo) as u128;
            let off = (size - lo) as u128;
            assert(14 * off + span <= 15 * 0xFFFF_FFFF_FFFF_FFFF) by (nonlinear_arith)
                requires
                    off <= span,
                    span <= 0xFFFF_FFFF_FFFF_FFFF,
            ;
            let q = (14 * off + span) / (2 * span);
            assert(q <= 7) by (nonlinear_arith)
                requires
                    off <= span,
                    span > 0,
                    q == (14 * off + span) / (2 * span),
            ;
            q as u64
        };
        push_char(&mut out, bar_char(h));
        k = k + 1;
        proof {
            assert(out@ =~= Seq::new(
                k as nat,
                |j: int| spark_char(bar_height(snapshots@[j].total_size as int, lo as int, hi as int)),
            ));
        }
    }
    out
}

} // verus!
