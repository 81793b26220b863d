//! The history of one image as shown to people: oldest first, optionally only
//! the most recent entries.

use vstd::prelude::*;

use crate::baseline::for_image;
use crate::error::{HistoryError, Missing};
use crate::model::ImageSnapshot;
use crate::text::str_eq;

verus! {

/// `s`, already in time order, with `x` placed after every entry not later than it.
pub open spec fn insert_by_time(s: Seq<ImageSnapshot>, x: ImageSnapshot) -> Seq<ImageSnapshot>
    decreases s.len(),
{
    if s.len() == 0 {
        seq![x]
    } else if s.last().timestamp.spec_le(x.timestamp) {
        s.push(x)
    } else {
        insert_by_time(s.drop_last(), x).push(s.last())
    }
}

/// `s` in time order, entries with equal times kept in the order they had.
pub open spec fn sorted_by_time(s: Seq<ImageSnapshot>) -> Seq<ImageSnapshot>
    decreases s.len(),
{
    if s.len() == 0 {
        s
    } else {
        insert_by_time(sorted_by_time(s.drop_last()), s.last())
    }
}

/// Relies on `slice::sort_by_key`, a stable sort, keyed by the capture time
/// as seconds then nanoseconds.
#[verifier::external_body]
fn sort_by_time(v: &mut Vec<ImageSnapshot>)
    ensures
        final(v)@ == sorted_by_time(old(v)@),
{
    v.sort_by_key(|s| (s.timestamp.secs, s.timestamp.nanos))
}

/// The snapshots of one image, moved out of the history in append order.
pub fn take_image_history(history: Vec<ImageSnapshot>, image: &str) -> (r: Vec<ImageSnapshot>)
    ensures
        r@ == for_image(history@, image@),
{
    let ghost h = history@;
    let mut rest = history;
    let mut out: Vec<ImageSnapshot> = Vec::new();
    let mut n: usize = 0;
    let total = rest.len();
    proof {
        assert(rest@ =~= h.subrange(0, h.len() as int));
    }
    while rest.len() > 0
        invariant
            n + rest@.len() == h.len(),
            total == h.len(),
            rest@ == h.subrange(n as int, h.len() as int),
            out@ == for_image(h.take(n as int), image@),
        decreases rest.len(),
    {
        let s = rest.remove(0);
        proof {
            assert(s == h[n as int]);
            assert(h.take(n + 1).drop_last() =~= h.take(n as int));
        }
        if str_eq(s.image.as_str(), image) {
            out.push(s);
        }
        n = n + 1;
        proof {
            assert(rest@ =~= h.subrange(n as int, h.len() as int));
        }
    }
    proof {
        assert(h.take(h.len() as int) =~= h);
    }
    out
}

/// The last `n` entries of `s`, or all of them when there are fewer.
pub open spec fn last_n(s: Seq<ImageSnapshot>, n: Option<usize>) -> Seq<ImageSnapshot> {
    match n {
        Some(k) => if s.len() > k {
            s.skip(s.len() - k)
        } else {
            s
        },
        None => s,
    }
}

/// The history of `image` oldest first, by capture time, cut to the most
/// recent `last` entries when a limit is given.
pub fn select_history(history: Vec<ImageSnapshot>, image: &str, last: Option<usize>) -> (r: Result<
    Vec<ImageSnapshot>,
    HistoryError,
>)
    ensures
        history@.len() == 0 ==> r == Err::<Vec<ImageSnapshot>, HistoryError>(
            HistoryError::NotFound(Missing::AnyHistory),
        ),
        history@.len() > 0 && for_image(history@, image@).len() == 0 ==> r == Err::<
            Vec<ImageSnapshot>,
            HistoryError,
        >(HistoryError::NotFound(Missing::Image)),
        history@.len() > 0 && for_image(history@, image@).len() > 0 ==> (r matches Ok(v) && v@
            == last_n(sorted_by_time(for_image(history@, image@)), last)),
{
    if history.len() == 0 {
        return Err(HistoryError::NotFound(Missing::AnyHistory));
    }
    let mut own = take_image_history(history, image);
    if own.len() == 0 {
        return Err(HistoryError::NotFound(Missing::Image));
    }
    sort_by_time(&mut own);
    match last {
        Some(k) => {
            if own.len() > k {
                let start = own.len() - k;
                let tail = own.split_off(start);
                Ok(tail)
            } else {
                Ok(own)
            }
        },
        None => Ok(own),
    }
}

} // verus!
