//! Snapshot bookkeeping: where the snapshot lives, whether a change awaits
//! it, and what a load yields.
//!
//! Reading and writing the file is the embedding program's part. What is
//! decided here is which of the parsed layouts is installed, when a save is
//! due, and what a completed save records.

use vstd::prelude::*;
use vstd::string::*;
use crate::model::PersistenceView;
use crate::value::RedoxValue;

verus! {

/// The contents of a snapshot file: the value under each key, and the expiry
/// second of the keys that have one.
#[derive(Debug, Clone, PartialEq)]
pub struct Snapshot {
    pub data: Vec<(String, RedoxValue)>,
    pub expiry: Vec<(String, u64)>,
}

/// Why a snapshot file yielded nothing.
#[derive(Debug, Clone, Copy, PartialEq, Eq)]
pub enum LoadError {
    /// The file holds neither the current layout nor the legacy one.
    InvalidData,
}

/// The snapshot bookkeeping of a keyspace.
#[derive(Debug, Clone, PartialEq)]
pub struct Persistence {
    file_path: String,
    save_interval: u64,
    last_save: u64,
    dirty: bool,
}

impl View for Persistence {
    type V = PersistenceView;

    closed spec fn view(&self) -> PersistenceView {
        PersistenceView {
            file_path: self.file_path@,
            save_interval: self.save_interval,
            last_save: self.last_save,
            dirty: self.dirty,
        }
    }
}

impl Persistence {
    /// Bookkeeping for a snapshot at `file_path`, saved every `save_interval`
    /// seconds; nothing saved yet, nothing to save.
    pub fn new(file_path: String, save_interval: u64) -> (r: Persistence)
        ensures
            r@ == (PersistenceView {
                file_path: file_path@,
                save_interval,
                last_save: 0,
                dirty: false,
            }),
    {
        Persistence { file_path, save_interval, last_save: 0, dirty: false }
    }

    /// What a load yields. `found` says whether the file exists; `current`
    /// is what it holds in the current layout, if it parses as such;
    /// `legacy` what it holds in the layout without expiry seconds, if it
    /// parses as such. A missing file yields an empty snapshot. The current
    /// layout is preferred; the legacy layout is installed without expiry
    /// seconds.
    pub fn load(
        found: bool,
        current: Option<Snapshot>,
        legacy: Option<Vec<(String, RedoxValue)>>,
    ) -> (r: Result<Snapshot, LoadError>)
        ensures
            !found ==> r is Ok && r->Ok_0.data@.len() == 0 && r->Ok_0.expiry@.len() == 0,
            found && current is Some ==> r == Ok::<Snapshot, LoadError>(current->0),
            found && current is None && legacy is Some ==> r is Ok && r->Ok_0.data == legacy->0
                && r->Ok_0.expiry@.len() == 0,
            found && current is None && legacy is None ==> r == Err::<Snapshot, LoadError>(
                LoadError::InvalidData,
            ),
    {
        if !found {
            return Ok(Snapshot { data: Vec::new(), expiry: Vec::new() });
        }
        match current {
            Some(snapshot) => Ok(snapshot),
            None => match legacy {
                Some(data) => Ok(Snapshot { data, expiry: Vec::new() }),
                None => Err(LoadError::InvalidData),
            },
        }
    }

    /// Records that the keyspace has changed since the last snapshot.
    pub fn mark_dirty(&mut self)
        ensures
            final(self)@ == (PersistenceView { dirty: true, ..old(self)@ }),
    {
        self.dirty = true;
    }

    /// Whether a save is due at a tick of the save timer: exactly if a
    /// change awaits it.
    pub fn save_due(&self) -> (r: bool)
        ensures
            r == self@.dirty,
    {
        self.dirty
    }

    /// Records a completed save at second `now`: nothing awaits the next one.
    pub fn record_save(&mut self, now: u64)
        ensures
            final(self)@ == (PersistenceView { dirty: false, last_save: now, ..old(self)@ }),
    {
        self.dirty = false;
        self.last_save = now;
    }

    /// The path of the snapshot file.
    pub fn file_path(&self) -> (r: &String)
        ensures
            r@ == self@.file_path,
    {
        &self.file_path
    }

    /// The sibling path to which a snapshot is written before it replaces
    /// the snapshot file.
    pub fn temp_path(&self) -> (r: String)
        ensures
            r@ == self@.file_path + ".temp"@,
    {
        let mut path = self.file_path.clone();
        path.append(".temp");
        path
    }

    /// Seconds between two ticks of the save timer.
    pub fn save_interval(&self) -> (r: u64)
        ensures
            r == self@.save_interval,
    {
        self.save_interval
    }

    /// Second of the last completed save; 0 before the first.
    pub fn last_save(&self) -> (r: u64)
        ensures
            r == self@.last_save,
    {
        self.last_save
    }
}

} // verus!
