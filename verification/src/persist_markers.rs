use vstd::prelude::*;

use crate::data_to_persist::DataToPersist;
use crate::last_items::{keep_last, last_items};

verus! {

/// How many persist durations are remembered.
pub const PERSIST_DURATIONS_KEPT: usize = 120;

/// The persistence bookkeeping of one table.
pub struct PersistMarkers {
    pub data_to_persist: DataToPersist,
    /// The durations of the latest persist operations, in microseconds, oldest first.
    pub persist_duration: Vec<usize>,
    pub last_persist_time: Option<i64>,
}

impl PersistMarkers {
    pub open spec fn wf(&self) -> bool {
        self.data_to_persist.wf()
    }

    pub fn new() -> (r: Self)
        ensures
            r.wf(),
            r.data_to_persist.persisit_whole_table is None,
            r.data_to_persist.moments() == Map::<Seq<char>, i64>::empty(),
            !r.data_to_persist.persist_attrs,
            r.persist_duration@ == Seq::<usize>::empty(),
            r.last_persist_time is None,
    {
        Self {
            data_to_persist: DataToPersist::new(),
            persist_duration: Vec::new(),
            last_persist_time: None,
        }
    }

    /// Records a finished persist operation that took `duration_micros`
    /// microseconds and ended at `now`; only the latest 120 durations are kept.
    pub fn add_persist_duration(&mut self, duration_micros: u128, now: i64)
        ensures
            final(self).persist_duration@ == last_items(
                old(self).persist_duration@.push(duration_micros as usize),
                PERSIST_DURATIONS_KEPT as nat,
            ),
            final(self).persist_duration@.len() <= PERSIST_DURATIONS_KEPT,
            final(self).last_persist_time == Some(now),
            final(self).data_to_persist == old(self).data_to_persist,
    {
        self.persist_duration.push(duration_micros as usize);
        keep_last(&mut self.persist_duration, PERSIST_DURATIONS_KEPT);
        self.last_persist_time = Some(now);
    }
}

} // verus!
