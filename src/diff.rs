//! The diff engine: a structured delta between two snapshots, layer by layer.

use vstd::prelude::*;

use crate::model::{size_fits, ImageSnapshot, LayerChange, LayerInfo, SizeDiff};

verus! {

/// The first position at or after `i` whose layer has digest `d`, or -1.
pub open spec fn digest_index_from(layers: Seq<LayerInfo>, d: Seq<char>, i: int) -> int
    decreases layers.len() - i,
{
    if i < 0 || i >= layers.len() {
        -1
    } else if layers[i].digest@ == d {
        i
    } else {
        digest_index_from(layers, d, i + 1)
    }
}

/// The first position whose layer has digest `d`, or -1: first match in scan order.
pub open spec fn digest_index(layers: Seq<LayerInfo>, d: Seq<char>) -> int {
    digest_index_from(layers, d, 0)
}

/// Some layer of the list has digest `d`.
pub open spec fn has_digest(layers: Seq<LayerInfo>, d: Seq<char>) -> bool {
    exists|j: int| 0 <= j < layers.len() && #[trigger] layers[j].digest@ == d
}

/// No two layers of the list share a digest.
pub open spec fn unique_digests(layers: Seq<LayerInfo>) -> bool {
    forall|i: int, j: int|
        0 <= i < layers.len() && 0 <= j < layers.len() && i != j ==> #[trigger] layers[i].digest@
            != #[trigger] layers[j].digest@
}

/// What becomes of one layer of `before` against the layers of `after`.
pub open spec fn classify(layer: LayerInfo, after: Seq<LayerInfo>) -> LayerChange {
    let k = digest_index(after, layer.digest@);
    if k < 0 {
        LayerChange::Removed(layer)
    } else if after[k].size == layer.size {
        LayerChange::Unchanged(layer)
    } else {
        LayerChange::Modified { before: layer, after: after[k] }
    }
}

/// Each layer of `before` classified against `after`, in before-order.
pub open spec fn classify_all(before: Seq<LayerInfo>, after: Seq<LayerInfo>) -> Seq<LayerChange> {
    before.map_values(|l: LayerInfo| classify(l, after))
}

/// The layers of `after` whose digest `before` lacks, in after-order, as additions.
pub open spec fn added_changes(after: Seq<LayerInfo>, before: Seq<LayerInfo>) -> Seq<LayerChange>
    decreases after.len(),
{
    if after.len() == 0 {
        Seq::empty()
    } else {
        let rest = added_changes(after.drop_last(), before);
        if digest_index(before, after.last().digest@) < 0 {
            rest.push(LayerChange::Added(after.last()))
        } else {
            rest
        }
    }
}

/// The layer changes between two layer lists.
pub open spec fn layer_changes_of(before: Seq<LayerInfo>, after: Seq<LayerInfo>) -> Seq<
    LayerChange,
> {
    classify_all(before, after) + added_changes(after, before)
}

/// The digest that a change is about.
pub open spec fn change_digest(c: LayerChange) -> Seq<char> {
    c.spec_layer().digest@
}

proof fn lemma_digest_index_from(layers: Seq<LayerInfo>, d: Seq<char>, i: int)
    requires
        0 <= i <= layers.len(),
    ensures
        digest_index_from(layers, d, i) == -1 <==> (forall|j: int|
            i <= j < layers.len() ==> #[trigger] layers[j].digest@ != d),
        digest_index_from(layers, d, i) != -1 ==> {
            let k = digest_index_from(layers, d, i);
            &&& i <= k < layers.len()
            &&& layers[k].digest@ == d
            &&& forall|j: int| i <= j < k ==> #[trigger] layers[j].digest@ != d
        },
    decreases layers.len() - i,
{
    if i < layers.len() {
        lemma_digest_index_from(layers, d, i + 1);
    }
}

/// The scan finds the first layer with the digest, and finds none exactly when
/// no layer has it.
pub proof fn lemma_digest_index(layers: Seq<LayerInfo>, d: Seq<char>)
    ensures
        digest_index(layers, d) < 0 <==> !has_digest(layers, d),
        digest_index(layers, d) < 0 ==> digest_index(layers, d) == -1,
        digest_index(layers, d) >= 0 ==> {
            let k = digest_index(layers, d);
            &&& k < layers.len()
            &&& layers[k].digest@ == d
            &&& forall|j: int| 0 <= j < k ==> #[trigger] layers[j].digest@ != d
        },
{
    lemma_digest_index_from(layers, d, 0);
}

/// Each addition is a layer of `after` whose digest `before` lacks.
proof fn lemma_added_from_after(after: Seq<LayerInfo>, before: Seq<LayerInfo>)
    ensures
        forall|m: int|
            0 <= m < added_changes(after, before).len() ==> exists|j: int|
                0 <= j < after.len() && #[trigger] added_changes(after, before)[m]
                    == LayerChange::Added(after[j]) && !has_digest(before, after[j].digest@),
    decreases after.len(),
{
    if after.len() > 0 {
        let rest = after.drop_last();
        lemma_added_from_after(rest, before);
        lemma_digest_index(before, after.last().digest@);
        let ac = added_changes(after, before);
        let rc = added_changes(rest, before);
        assert forall|m: int| 0 <= m < ac.len() implies exists|j: int|
            0 <= j < after.len() && #[trigger] ac[m] == LayerChange::Added(after[j])
                && !has_digest(before, after[j].digest@) by {
            if m < rc.len() {
                let j = choose|j: int|
                    0 <= j < rest.len() && #[trigger] rc[m] == LayerChange::Added(rest[j])
                        && !has_digest(before, rest[j].digest@);
                assert(after[j] == rest[j]);
            } else {
                assert(ac[m] == LayerChange::Added(after[after.len() - 1]));
            }
        }
    }
}

/// Every layer of `after` whose digest `before` lacks is among the additions.
proof fn lemma_added_complete(after: Seq<LayerInfo>, before: Seq<LayerInfo>)
    ensures
        forall|j: int|
            0 <= j < after.len() && !has_digest(before, #[trigger] after[j].digest@) ==> exists|
                m: int,
            |
                0 <= m < added_changes(after, before).len() && #[trigger] added_changes(
                    after,
                    before,
                )[m] == LayerChange::Added(after[j]),
    decreases after.len(),
{
    if after.len() > 0 {
        let rest = after.drop_last();
        lemma_added_complete(rest, before);
        lemma_digest_index(before, after.last().digest@);
        let ac = added_changes(after, before);
        let rc = added_changes(rest, before);
        assert forall|j: int|
            0 <= j < after.len() && !has_digest(before, #[trigger] after[j].digest@) implies exists|
                m: int,
            | 0 <= m < ac.len() && #[trigger] ac[m] == LayerChange::Added(after[j]) by {
            if j < rest.len() {
                assert(rest[j] == after[j]);
                let m = choose|m: int|
                    0 <= m < rc.len() && #[trigger] rc[m] == LayerChange::Added(rest[j]);
                assert(ac[m] == rc[m]);
            } else {
                assert(ac[rc.len() as int] == LayerChange::Added(after[j]));
            }
        }
    }
}

/// With unique digests in `after`, no two additions share a digest.
proof fn lemma_added_unique(after: Seq<LayerInfo>, before: Seq<LayerInfo>)
    requires
        unique_digests(after),
    ensures
        forall|m1: int, m2: int|
            0 <= m1 < added_changes(after, before).len() && 0 <= m2 < added_changes(
                after,
                before,
            ).len() && m1 != m2 ==> change_digest(#[trigger] added_changes(after, before)[m1])
                != change_digest(#[trigger] added_changes(after, before)[m2]),
    decreases after.len(),
{
    if after.len() > 0 {
        let rest = after.drop_last();
        assert(unique_digests(rest));
        lemma_added_unique(rest, before);
        lemma_added_from_after(rest, before);
        lemma_digest_index(before, after.last().digest@);
        let ac = added_changes(after, before);
        let rc = added_changes(rest, before);
        assert forall|m1: int, m2: int|
            0 <= m1 < ac.len() && 0 <= m2 < ac.len() && m1 != m2 implies change_digest(
            #[trigger] ac[m1],
        ) != change_digest(#[trigger] ac[m2]) by {
            if m1 < rc.len() && m2 < rc.len() {
                assert(ac[m1] == rc[m1] && ac[m2] == rc[m2]);
            } else if m1 < rc.len() {
                let j = choose|j: int|
                    0 <= j < rest.len() && #[trigger] rc[m1] == LayerChange::Added(rest[j])
                        && !has_digest(before, rest[j].digest@);
                assert(after[j] == rest[j]);
                assert(ac[m1] == rc[m1]);
            } else if m2 < rc.len() {
                let j = choose|j: int|
                    0 <= j < rest.len() && #[trigger] rc[m2] == LayerChange::Added(rest[j])
                        && !has_digest(before, rest[j].digest@);
                assert(after[j] == rest[j]);
                assert(ac[m2] == rc[m2]);
            }
        }
    }
}

/// A classified layer keeps the digest of the layer it was made from.
proof fn lemma_classify_digest(layer: LayerInfo, after: Seq<LayerInfo>)
    ensures
        change_digest(classify(layer, after)) == layer.digest@,
{
    lemma_digest_index(after, layer.digest@);
}

/// Two snapshots whose layers carry the same digests with the same sizes diff
/// to one unchanged record per layer, in before-order, and nothing else: no
/// addition, removal or modification.
pub proof fn lemma_identical_layers(before: Seq<LayerInfo>, after: Seq<LayerInfo>)
    requires
        unique_digests(before),
        unique_digests(after),
        forall|i: int|
            #![trigger before[i]]
            0 <= i < before.len() ==> exists|j: int|
                0 <= j < after.len() && #[trigger] after[j].digest@ == before[i].digest@
                    && after[j].size == before[i].size,
        forall|j: int|
            #![trigger after[j]]
            0 <= j < after.len() ==> exists|i: int|
                0 <= i < before.len() && #[trigger] before[i].digest@ == after[j].digest@
                    && before[i].size == after[j].size,
    ensures
        layer_changes_of(before, after).len() == before.len(),
        forall|i: int|
            0 <= i < before.len() ==> #[trigger] layer_changes_of(before, after)[i]
                == LayerChange::Unchanged(before[i]),
{
    lemma_added_from_after(after, before);
    let ac = added_changes(after, before);
    if ac.len() > 0 {
        let j = choose|j: int|
            0 <= j < after.len() && #[trigger] ac[0] == LayerChange::Added(after[j]) && !has_digest(
                before,
                after[j].digest@,
            );
        let i = choose|i: int|
            0 <= i < before.len() && #[trigger] before[i].digest@ == after[j].digest@
                && before[i].size == after[j].size;
        assert(has_digest(before, after[j].digest@));
    }
    assert forall|i: int| 0 <= i < before.len() implies #[trigger] layer_changes_of(
        before,
        after,
    )[i] == LayerChange::Unchanged(before[i]) by {
        let d = before[i].digest@;
        lemma_digest_index(after, d);
        let j = choose|j: int|
            0 <= j < after.len() && #[trigger] after[j].digest@ == before[i].digest@
                && after[j].size == before[i].size;
        assert(has_digest(after, d));
        assert(digest_index(after, d) == j);
    }
}

/// Exactly one change record stands at position `i` with digest `d`.
pub open spec fn only_at(c: Seq<LayerChange>, d: Seq<char>, i: int) -> bool {
    &&& 0 <= i < c.len()
    &&& change_digest(c[i]) == d
    &&& forall|k: int| 0 <= k < c.len() && change_digest(#[trigger] c[k]) == d ==> k == i
}

/// With unique digests on each side, the diff records every digest exactly
/// once: as removed when only `before` has it, as added when only `after` has
/// it, as unchanged or modified when both do, and records no other digest.
pub proof fn lemma_partition(before: Seq<LayerInfo>, after: Seq<LayerInfo>)
    requires
        unique_digests(before),
        unique_digests(after),
    ensures
        forall|d: Seq<char>|
            #[trigger] has_digest(before, d) && !has_digest(after, d) ==> exists|i: int|
                only_at(layer_changes_of(before, after), d, i) && #[trigger] layer_changes_of(
                    before,
                    after,
                )[i] is Removed,
        forall|d: Seq<char>|
            !has_digest(before, d) && #[trigger] has_digest(after, d) ==> exists|i: int|
                only_at(layer_changes_of(before, after), d, i) && #[trigger] layer_changes_of(
                    before,
                    after,
                )[i] is Added,
        forall|d: Seq<char>|
            #[trigger] has_digest(before, d) && #[trigger] has_digest(after, d) ==> exists|i: int|
                only_at(layer_changes_of(before, after), d, i) && (#[trigger] layer_changes_of(
                    before,
                    after,
                )[i] is Unchanged || layer_changes_of(before, after)[i] is Modified),
        forall|i: int|
            0 <= i < layer_changes_of(before, after).len() ==> has_digest(
                before,
                change_digest(#[trigger] layer_changes_of(before, after)[i]),
            ) || has_digest(after, change_digest(layer_changes_of(before, after)[i])),
{
    let c = layer_changes_of(before, after);
    let ac = added_changes(after, before);
    let n = before.len();
    lemma_added_from_after(after, before);
    lemma_added_complete(after, before);
    lemma_added_unique(after, before);
    assert forall|k: int| 0 <= k < n implies change_digest(#[trigger] c[k]) == before[k].digest@
        && c[k] == classify(before[k], after) by {
        lemma_classify_digest(before[k], after);
    }
    assert forall|k: int| n <= k < c.len() implies #[trigger] c[k] == ac[k - n] && !has_digest(
        before,
        change_digest(c[k]),
    ) && has_digest(after, change_digest(c[k])) by {
        let j = choose|j: int|
            0 <= j < after.len() && #[trigger] ac[k - n] == LayerChange::Added(after[j])
                && !has_digest(before, after[j].digest@);
        assert(after[j].digest@ == change_digest(c[k]));
    }
    assert forall|i: int| 0 <= i < c.len() implies has_digest(
        before,
        change_digest(#[trigger] c[i]),
    ) || has_digest(after, change_digest(c[i])) by {
        if i < n {
            assert(before[i].digest@ == change_digest(c[i]));
        }
    }
    assert forall|d: Seq<char>| #[trigger] has_digest(before, d) implies exists|i: int|
        only_at(c, d, i) && c[i] == classify(before[i], after) by {
        lemma_digest_index(before, d);
        let i = digest_index(before, d);
        assert forall|k: int| 0 <= k < c.len() && change_digest(#[trigger] c[k]) == d implies k
            == i by {
            if k < n {
                assert(before[k].digest@ == d);
            }
        }
        assert(only_at(c, d, i));
        assert(c[i] == classify(before[i], after));
    }
    assert forall|d: Seq<char>| !has_digest(before, d) && #[trigger] has_digest(after, d) implies exists|
        i: int,
    | only_at(c, d, i) && #[trigger] c[i] is Added by {
        lemma_digest_index(after, d);
        let j = digest_index(after, d);
        assert(!has_digest(before, after[j].digest@));
        let m = choose|m: int| 0 <= m < ac.len() && #[trigger] ac[m] == LayerChange::Added(after[j]);
        assert(c[n + m] == ac[m]);
        assert forall|k: int| 0 <= k < c.len() && change_digest(#[trigger] c[k]) == d implies k
            == n + m by {
            if k < n {
                assert(before[k].digest@ == d);
            } else if k != n + m {
                assert(change_digest(ac[k - n]) != change_digest(ac[m]));
            }
        }
    }
    assert forall|d: Seq<char>| #[trigger] has_digest(before, d) && !has_digest(after, d) implies exists|
        i: int,
    | only_at(c, d, i) && #[trigger] c[i] is Removed by {
        let i = choose|i: int| only_at(c, d, i) && c[i] == classify(before[i], after);
        lemma_digest_index(after, d);
    }
    assert forall|d: Seq<char>| #[trigger] has_digest(before, d) && #[trigger] has_digest(
        after,
        d,
    ) implies exists|i: int|
        only_at(c, d, i) && (#[trigger] c[i] is Unchanged || c[i] is Modified) by {
        let i = choose|i: int| only_at(c, d, i) && c[i] == classify(before[i], after);
        lemma_digest_index(after, d);
    }
}

/// The position of the first layer with the given digest.
fn find_by_digest(layers: &Vec<LayerInfo>, digest: &String) -> (r: Option<usize>)
    ensures
        match r {
            Some(k) => k as int == digest_index(layers@, digest@) && k < layers@.len(),
            None => digest_index(layers@, digest@) == -1,
        },
{
    proof {
        lemma_digest_index(layers@, digest@);
    }
    let mut i: usize = 0;
    while i < layers.len()
        invariant
            i <= layers.len(),
            digest_index(layers@, digest@) == digest_index_from(layers@, digest@, i as int),
        decreases layers.len() - i,
    {
        if layers[i].digest == *digest {
            return Some(i);
        }
        i = i + 1;
    }
    None
}

/// Diffs two snapshots: each layer of `before` in before-order as unchanged,
/// modified or removed, then each layer of `after` whose digest `before` lacks,
/// in after-order, as added. The total delta is the difference of the total
/// sizes, whatever the layers add up to.
pub fn compute_diff(before: ImageSnapshot, after: ImageSnapshot) -> (r: SizeDiff)
    requires
        size_fits(before.total_size),
        size_fits(after.total_size),
    ensures
        r.before == before,
        r.after == after,
        r.total_delta == after.total_size - before.total_size,
        r.layer_changes@ == layer_changes_of(before.layers@, after.layers@),
{
    let total_delta = after.total_size as i64 - before.total_size as i64;
    let ghost b = before.layers@;
    let ghost a = after.layers@;
    let mut changes: Vec<LayerChange> = Vec::new();
    let mut i: usize = 0;
    while i < before.layers.len()
        invariant
            i <= b.len(),
            b == before.layers@,
            a == after.layers@,
            changes@ == classify_all(b.take(i as int), a),
        decreases b.len() - i,
    {
        let layer = &before.layers[i];
        let change = match find_by_digest(&after.layers, &layer.digest) {
            Some(k) => {
                let other = &after.layers[k];
                if layer.size == other.size {
                    LayerChange::Unchanged(layer.clone())
                } else {
                    LayerChange::Modified { before: layer.clone(), after: other.clone() }
                }
            },
            None => LayerChange::Removed(layer.clone()),
        };
        changes.push(change);
        i = i + 1;
        proof {
            assert(classify_all(b.take(i as int), a) =~= classify_all(b.take(i - 1), a).push(
                classify(b[i - 1], a),
            ));
        }
    }
    proof {
        assert(b.take(b.len() as int) =~= b);
    }
    let ghost head = changes@;
    let mut j: usize = 0;
    while j < after.layers.len()
        invariant
            j <= a.len(),
            b == before.layers@,
            a == after.layers@,
            head == classify_all(b, a),
            changes@ == head + added_changes(a.take(j as int), b),
        decreases a.len() - j,
    {
        let layer = &after.layers[j];
        let found = find_by_digest(&before.layers, &layer.digest);
        if found.is_none() {
            changes.push(LayerChange::Added(layer.clone()));
        }
        j = j + 1;
        proof {
            assert(a.take(j as int).drop_last() =~= a.take(j - 1));
            assert(head + added_changes(a.take(j as int), b) =~= changes@);
        }
    }
    proof {
        assert(a.take(a.len() as int) =~= a);
    }
    SizeDiff { before, after, total_delta, layer_changes: changes }
}

} // verus!
