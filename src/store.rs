//! The history store: an append-only log of every snapshot ever captured.
//!
//! The store holds what its backing storage held when it was read; the caller
//! reads that storage into it and writes the records back after an append.

use vstd::prelude::*;

use crate::error::HistoryError;
use crate::model::ImageSnapshot;

verus! {

/// What was found where the history is kept.
#[derive(Clone, Copy, Debug, PartialEq, Eq, Structural)]
pub enum StoreState {
    /// No history has been written yet.
    Absent,
    /// Something is stored that does not parse as a list of snapshots.
    Unreadable,
    /// A list of snapshots is stored.
    Present,
}

/// The store's content as a mathematical value.
pub enum StoreModel {
    Absent,
    Unreadable,
    Records(Seq<ImageSnapshot>),
}

/// What `load` gives on a store whose content is `m`.
pub open spec fn load_model(m: StoreModel) -> Result<Seq<ImageSnapshot>, HistoryError> {
    match m {
        StoreModel::Absent => Ok(Seq::empty()),
        StoreModel::Unreadable => Err(HistoryError::Corrupt),
        StoreModel::Records(v) => Ok(v),
    }
}

/// The content after appending `s` to `m`: an unreadable store is left as it
/// is, an absent one is created.
pub open spec fn append_model(m: StoreModel, s: ImageSnapshot) -> StoreModel {
    match m {
        StoreModel::Absent => StoreModel::Records(seq![s]),
        StoreModel::Unreadable => StoreModel::Unreadable,
        StoreModel::Records(v) => StoreModel::Records(v.push(s)),
    }
}

/// The content after appending each of `items` in turn.
pub open spec fn append_all(m: StoreModel, items: Seq<ImageSnapshot>) -> StoreModel
    decreases items.len(),
{
    if items.len() == 0 {
        m
    } else {
        append_model(append_all(m, items.drop_last()), items.last())
    }
}

/// The append-only snapshot log.
#[derive(Debug)]
pub struct HistoryStore {
    pub state: StoreState,
    pub records: Vec<ImageSnapshot>,
}

impl HistoryStore {
    /// Only a store that holds a list has records.
    pub open spec fn wf(self) -> bool {
        self.state != StoreState::Present ==> self.records@.len() == 0
    }

    pub open spec fn model(self) -> StoreModel {
        match self.state {
            StoreState::Absent => StoreModel::Absent,
            StoreState::Unreadable => StoreModel::Unreadable,
            StoreState::Present => StoreModel::Records(self.records@),
        }
    }

    /// A store whose backing storage does not exist yet.
    pub fn absent() -> (r: HistoryStore)
        ensures
            r.wf(),
            r.model() == StoreModel::Absent,
    {
        HistoryStore { state: StoreState::Absent, records: Vec::new() }
    }

    /// A store whose backing storage holds something that is not a snapshot list.
    pub fn unreadable() -> (r: HistoryStore)
        ensures
            r.wf(),
            r.model() == StoreModel::Unreadable,
    {
        HistoryStore { state: StoreState::Unreadable, records: Vec::new() }
    }

    /// A store whose backing storage holds `records`, in append order.
    pub fn from_records(records: Vec<ImageSnapshot>) -> (r: HistoryStore)
        ensures
            r.wf(),
            r.model() == StoreModel::Records(records@),
    {
        HistoryStore { state: StoreState::Present, records }
    }

    /// All snapshots in append order; none where no store exists yet, and
    /// `Corrupt` where the stored content is unreadable.
    pub fn load(&self) -> (r: Result<&Vec<ImageSnapshot>, HistoryError>)
        requires
            self.wf(),
        ensures
            match (r, load_model(self.model())) {
                (Ok(v), Ok(m)) => v@ == m,
                (Err(e), Err(f)) => e == f,
                _ => false,
            },
    {
        match self.state {
            StoreState::Unreadable => Err(HistoryError::Corrupt),
            _ => Ok(&self.records),
        }
    }

    /// Appends one snapshot, creating the store if it is absent. On an
    /// unreadable store it fails with `Corrupt` and changes nothing.
    pub fn append(&mut self, snapshot: ImageSnapshot) -> (r: Result<(), HistoryError>)
        requires
            old(self).wf(),
        ensures
            final(self).wf(),
            final(self).model() == append_model(old(self).model(), snapshot),
            r is Err <==> old(self).state == StoreState::Unreadable,
            r is Err ==> r == Err::<(), HistoryError>(HistoryError::Corrupt),
    {
        match self.state {
            StoreState::Unreadable => Err(HistoryError::Corrupt),
            _ => {
                self.records.push(snapshot);
                self.state = StoreState::Present;
                proof {
                    assert(self.records@ =~= append_model(old(self).model(), snapshot)->Records_0);
                }
                Ok(())
            },
        }
    }
}

proof fn lemma_append_all_absent(items: Seq<ImageSnapshot>)
    ensures
        items.len() == 0 ==> append_all(StoreModel::Absent, items) == StoreModel::Absent,
        items.len() > 0 ==> append_all(StoreModel::Absent, items) == StoreModel::Records(items),
    decreases items.len(),
{
    if items.len() > 0 {
        lemma_append_all_absent(items.drop_last());
        assert(items.drop_last().push(items.last()) =~= items);
        if items.len() == 1 {
            assert(seq![items.last()] =~= items);
        }
    }
}

/// Appending snapshots one by one to a store that did not exist, then
/// loading it, gives back exactly those snapshots in append order.
pub proof fn lemma_round_trip(items: Seq<ImageSnapshot>)
    ensures
        load_model(append_all(StoreModel::Absent, items)) == Ok::<Seq<ImageSnapshot>, HistoryError>(
            items,
        ),
{
    lemma_append_all_absent(items);
    if items.len() == 0 {
        assert(items =~= Seq::empty());
    }
}

/// Loading a store that does not exist yet gives an empty history, not an error.
pub proof fn lemma_absent_loads_empty()
    ensures
        load_model(StoreModel::Absent) == Ok::<Seq<ImageSnapshot>, HistoryError>(Seq::empty()),
{
}

} // verus!
