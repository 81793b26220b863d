//! The data shared by every part of the library: snapshots, layers, diffs.

use vstd::prelude::*;

verus! {

/// How a single analysis is printed.
#[derive(Clone, Copy, Debug, PartialEq, Eq, Structural)]
pub enum OutputFormat {
    Table,
    Json,
}

/// A point in time as seconds since the Unix epoch plus a sub-second part.
#[derive(Clone, Copy, Debug, PartialEq, Eq, Hash, Structural)]
pub struct Timestamp {
    pub secs: i64,
    pub nanos: u32,
}

impl Timestamp {
    /// `self` is not later than `other`.
    pub open spec fn spec_le(self, other: Timestamp) -> bool {
        self.secs < other.secs || (self.secs == other.secs && self.nanos <= other.nanos)
    }
}

/// One filesystem layer of an image.
#[derive(Debug, PartialEq, Eq)]
pub struct LayerInfo {
    pub digest: String,
    pub size: u64,
    pub command: String,
    pub created: Timestamp,
}

impl Clone for LayerInfo {
    fn clone(&self) -> (r: Self)
        ensures
            r == *self,
    {
        LayerInfo {
            digest: self.digest.clone(),
            size: self.size,
            command: self.command.clone(),
            created: self.created,
        }
    }
}

/// Clones an optional string into an equal one.
pub fn clone_opt_string(o: &Option<String>) -> (r: Option<String>)
    ensures
        r == *o,
{
    match o {
        Some(s) => Some(s.clone()),
        None => None,
    }
}

/// Clones a layer list element by element into an equal one.
pub fn clone_layers(layers: &Vec<LayerInfo>) -> (r: Vec<LayerInfo>)
    ensures
        r@ == layers@,
{
    let mut out: Vec<LayerInfo> = Vec::new();
    let mut i: usize = 0;
    while i < layers.len()
        invariant
            i <= layers.len(),
            out@ == layers@.take(i as int),
        decreases layers.len() - i,
    {
        out.push(layers[i].clone());
        i = i + 1;
        proof {
            assert(out@ =~= layers@.take(i as int));
        }
    }
    proof {
        assert(out@ =~= layers@);
    }
    out
}

/// One measurement of an image at a point in time, tied to a git commit.
#[derive(Debug, PartialEq, Eq)]
pub struct ImageSnapshot {
    pub image: String,
    pub tag: Option<String>,
    pub digest: Option<String>,
    pub commit_sha: String,
    pub branch: String,
    pub commit_message: String,
    pub author: String,
    pub timestamp: Timestamp,
    pub total_size: u64,
    pub layer_count: usize,
    pub layers: Vec<LayerInfo>,
    pub os: String,
    pub arch: String,
}

impl ImageSnapshot {
    /// Field-for-field equality, with the layer lists compared by content.
    pub open spec fn same_as(self, other: ImageSnapshot) -> bool {
        &&& self.image == other.image
        &&& self.tag == other.tag
        &&& self.digest == other.digest
        &&& self.commit_sha == other.commit_sha
        &&& self.branch == other.branch
        &&& self.commit_message == other.commit_message
        &&& self.author == other.author
        &&& self.timestamp == other.timestamp
        &&& self.total_size == other.total_size
        &&& self.layer_count == other.layer_count
        &&& self.layers@ == other.layers@
        &&& self.os == other.os
        &&& self.arch == other.arch
    }
}

impl Clone for ImageSnapshot {
    fn clone(&self) -> (r: Self)
        ensures
            r.same_as(*self),
    {
        let layers = clone_layers(&self.layers);
        ImageSnapshot {
            image: self.image.clone(),
            tag: clone_opt_string(&self.tag),
            digest: clone_opt_string(&self.digest),
            commit_sha: self.commit_sha.clone(),
            branch: self.branch.clone(),
            commit_message: self.commit_message.clone(),
            author: self.author.clone(),
            timestamp: self.timestamp,
            total_size: self.total_size,
            layer_count: self.layer_count,
            layers,
            os: self.os.clone(),
            arch: self.arch.clone(),
        }
    }
}

/// A byte count that also fits in a signed 64-bit delta.
pub open spec fn size_fits(n: u64) -> bool {
    n <= i64::MAX
}

/// How one layer fared between two snapshots.
#[derive(Debug, PartialEq, Eq)]
pub enum LayerChange {
    Added(LayerInfo),
    Removed(LayerInfo),
    Modified { before: LayerInfo, after: LayerInfo },
    Unchanged(LayerInfo),
}

impl Clone for LayerChange {
    fn clone(&self) -> (r: Self)
        ensures
            r == *self,
    {
        match self {
            LayerChange::Added(l) => LayerChange::Added(l.clone()),
            LayerChange::Removed(l) => LayerChange::Removed(l.clone()),
            LayerChange::Modified { before, after } => LayerChange::Modified {
                before: before.clone(),
                after: after.clone(),
            },
            LayerChange::Unchanged(l) => LayerChange::Unchanged(l.clone()),
        }
    }
}

impl LayerChange {
    /// The sizes this change speaks of fit in a signed delta.
    pub open spec fn sizes_fit(self) -> bool {
        match self {
            LayerChange::Added(l) => size_fits(l.size),
            LayerChange::Removed(l) => size_fits(l.size),
            LayerChange::Modified { before, after } => size_fits(before.size) && size_fits(
                after.size,
            ),
            LayerChange::Unchanged(l) => true,
        }
    }

    /// Bytes gained (positive) or lost (negative) through this change.
    pub open spec fn spec_size_delta(self) -> int {
        match self {
            LayerChange::Added(l) => l.size as int,
            LayerChange::Removed(l) => -(l.size as int),
            LayerChange::Modified { before, after } => after.size - before.size,
            LayerChange::Unchanged(_) => 0,
        }
    }

    /// The layer a change is shown by: the newer one for a modification.
    pub open spec fn spec_layer(self) -> LayerInfo {
        match self {
            LayerChange::Added(l) => l,
            LayerChange::Removed(l) => l,
            LayerChange::Modified { after, .. } => after,
            LayerChange::Unchanged(l) => l,
        }
    }

    /// The name of the change's variant.
    pub open spec fn spec_kind(self) -> Seq<char> {
        match self {
            LayerChange::Added(_) => "added"@,
            LayerChange::Removed(_) => "removed"@,
            LayerChange::Modified { .. } => "modified"@,
            LayerChange::Unchanged(_) => "unchanged"@,
        }
    }

    pub fn size_delta(&self) -> (r: i64)
        requires
            self.sizes_fit(),
        ensures
            r == self.spec_size_delta(),
    {
        match self {
            LayerChange::Added(layer) => layer.size as i64,
            LayerChange::Removed(layer) => -(layer.size as i64),
            LayerChange::Modified { before, after } => after.size as i64 - before.size as i64,
            LayerChange::Unchanged(_) => 0,
        }
    }

    pub fn layer(&self) -> (r: &LayerInfo)
        ensures
            *r == self.spec_layer(),
    {
        match self {
            LayerChange::Added(layer) => layer,
            LayerChange::Removed(layer) => layer,
            LayerChange::Modified { after, .. } => after,
            LayerChange::Unchanged(layer) => layer,
        }
    }

    pub fn kind(&self) -> (r: &'static str)
        ensures
            r@ == self.spec_kind(),
    {
        match self {
            LayerChange::Added(_) => "added",
            LayerChange::Removed(_) => "removed",
            LayerChange::Modified { .. } => "modified",
            LayerChange::Unchanged(_) => "unchanged",
        }
    }
}

/// The delta between two snapshots of an image.
#[derive(Debug, PartialEq, Eq)]
pub struct SizeDiff {
    pub before: ImageSnapshot,
    pub after: ImageSnapshot,
    pub total_delta: i64,
    pub layer_changes: Vec<LayerChange>,
}

/// A new snapshot paired with its diff against a baseline, if one was found.
#[derive(Debug, PartialEq, Eq)]
pub struct Comparison {
    pub snapshot: ImageSnapshot,
    pub diff: Option<SizeDiff>,
}

} // verus!
