use vstd::prelude::*;

verus! {

/// A change of a table that has to reach the persistent store.
pub enum PersistEvent {
    PersistRow { partition_key: String, row_key: String },
    PersistPartition { partition_key: String },
    PersistTableMetadata,
}

/// The changes of a table that wait to be written, oldest first.
pub struct PersistQueue {
    events: Vec<PersistEvent>,
}

impl View for PersistQueue {
    type V = Seq<PersistEvent>;

    closed spec fn view(&self) -> Seq<PersistEvent> {
        self.events@
    }
}

impl PersistQueue {
    pub fn new() -> (r: Self)
        ensures
            r@ == Seq::<PersistEvent>::empty(),
    {
        Self { events: Vec::new() }
    }

    /// The waiting changes, oldest first.
    pub fn events(&self) -> (r: &Vec<PersistEvent>)
        ensures
            r@ == self@,
    {
        &self.events
    }

    /// Appends a change at the end of the queue.
    pub fn enqueue(&mut self, event: PersistEvent)
        ensures
            final(self)@ == old(self)@.push(event),
    {
        self.events.push(event);
    }
}

} // verus!
