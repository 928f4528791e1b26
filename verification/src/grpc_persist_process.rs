use vstd::prelude::*;

use std::collections::HashMap;


verus! {

/// A persist request of the gRPC stream being received: the table, the
/// moment to persist at, the entities received so far; `T` is an entity.
pub struct GrpcPersistProcess<T> {
    /// When the process started, unix microseconds.
    pub created: i64,
    pub table_name: String,
    pub persist_moment: i64,
    pub items: Vec<T>,
}

impl<T> GrpcPersistProcess<T> {
    /// A process started at `now`, with no entity yet.
    pub fn new(table_name: String, persist_moment: i64, now: i64) -> (r: Self)
        ensures
            r.created == now,
            r.table_name == table_name,
            r.persist_moment == persist_moment,
            r.items@ == Seq::<T>::empty(),
    {
        GrpcPersistProcess { created: now, table_name, items: Vec::new(), persist_moment }
    }
}

/// How long a process has run at `now`, in microseconds; 0 when `now`
/// comes before its start.
pub open spec fn elapsed(created: i64, now: i64) -> int {
    if now > created {
        now - created
    } else {
        0
    }
}

/// The process has run longer than the timeout at `now`.
pub open spec fn is_expired<T>(p: GrpcPersistProcess<T>, now: i64, gc_timeout_micros: u64) -> bool {
    elapsed(p.created, now) > gc_timeout_micros
}

/// The persist processes in progress, by number.
pub struct GrpcPersistProcesses<T> {
    processes: HashMap<i64, GrpcPersistProcess<T>>,
}

impl<T> GrpcPersistProcesses<T> {
    pub closed spec fn wf(&self) -> bool {
        &&& vstd::std_specs::hash::obeys_key_model::<i64>()
        &&& vstd::std_specs::hash::builds_valid_hashers::<std::hash::RandomState>()
    }

    /// The processes by number.
    pub closed spec fn view_map(&self) -> Map<i64, GrpcPersistProcess<T>> {
        self.processes@
    }

    pub fn new() -> (r: Self)
        ensures
            r.wf(),
            r.view_map() == Map::<i64, GrpcPersistProcess<T>>::empty(),
    {
        broadcast use vstd::std_specs::hash::group_hash_axioms;

        Self { processes: HashMap::new() }
    }

    /// Starts process `process_id` at `now`; one with the same number is replaced.
    pub fn add(&mut self, process_id: i64, table_name: String, persist_moment: i64, now: i64)
        requires
            old(self).wf(),
        ensures
            final(self).wf(),
            final(self).view_map().dom() == old(self).view_map().dom().insert(process_id),
            forall|id: i64| id != process_id && #[trigger] old(self).view_map().contains_key(id) ==> final(self).view_map()[id] == old(self).view_map()[id],
            final(self).view_map()[process_id].created == now,
            final(self).view_map()[process_id].table_name == table_name,
            final(self).view_map()[process_id].persist_moment == persist_moment,
            final(self).view_map()[process_id].items@ == Seq::<T>::empty(),
    {
        broadcast use vstd::std_specs::hash::group_hash_axioms;

        self.processes.insert(process_id, GrpcPersistProcess::new(table_name, persist_moment, now));
    }

    /// Whether process `process_id` is in progress.
    pub fn contains(&self, process_id: i64) -> (r: bool)
        requires
            self.wf(),
        ensures
            r == self.view_map().contains_key(process_id),
    {
        broadcast use vstd::std_specs::hash::group_hash_axioms;

        self.processes.contains_key(&process_id)
    }

    /// Takes out process `process_id`, which must be in progress.
    pub fn get(&mut self, process_id: i64) -> (r: GrpcPersistProcess<T>)
        requires
            old(self).wf(),
            old(self).view_map().contains_key(process_id),
        ensures
            final(self).wf(),
            final(self).view_map() == old(self).view_map().remove(process_id),
            r == old(self).view_map()[process_id],
    {
        broadcast use vstd::std_specs::hash::group_hash_axioms;

        self.processes.remove(&process_id).unwrap()
    }

    /// Drops the processes that have run longer than `gc_timeout_micros` at `now`.
    pub fn gc(&mut self, gc_timeout_micros: u64, now: i64)
        requires
            old(self).wf(),
        ensures
            final(self).wf(),
            forall|id: i64| #[trigger] final(self).view_map().contains_key(id) <==> (old(self).view_map().contains_key(id) && !is_expired(old(self).view_map()[id], now, gc_timeout_micros)),
            forall|id: i64| #[trigger] final(self).view_map().contains_key(id) ==> final(self).view_map()[id] == old(self).view_map()[id],
    {
        broadcast use vstd::std_specs::hash::group_hash_axioms;

        let ghost m = self.processes@;
        let mut to_gc: Vec<i64> = Vec::new();
        let ghost mut seen: Set<i64> = Set::empty();
        assert(Seq::<i64>::empty().to_set() =~= Set::<i64>::empty());
        for id in it: self.processes.keys()
            invariant
                self.wf(),
                self.processes@ == m,
                it.seq().unref().to_set() == m.dom(),
                seen == it.seq().take(it.index() as int).unref().to_set(),
                it.index() == it.seq().len() ==> seen == m.dom(),
                forall|j: int| 0 <= j < to_gc@.len() ==> #[trigger] m.contains_key(to_gc@[j]) && is_expired(m[to_gc@[j]], now, gc_timeout_micros),
                forall|k: i64| #[trigger] seen.contains(k) && is_expired(m[k], now, gc_timeout_micros) ==> to_gc@.contains(k),
            ensures
                seen == m.dom(),
                forall|j: int| 0 <= j < to_gc@.len() ==> #[trigger] m.contains_key(to_gc@[j]) && is_expired(m[to_gc@[j]], now, gc_timeout_micros),
                forall|k: i64| #[trigger] seen.contains(k) && is_expired(m[k], now, gc_timeout_micros) ==> to_gc@.contains(k),
        {
            assert(it.seq().unref()[it.index() as int] == *id);
            assert(m.dom().contains(*id));
            let process = self.processes.get(id).unwrap();
            let running: i128 = if now > process.created {
                now as i128 - process.created as i128
            } else {
                0
            };
            let ghost before = to_gc@;
            if running > gc_timeout_micros as i128 {
                to_gc.push(*id);
                assert(to_gc@[to_gc@.len() - 1] == *id);
                assert forall|k: i64| before.contains(k) implies to_gc@.contains(k) by {
                    let j = choose|j: int| 0 <= j < before.len() && before[j] == k;
                    assert(to_gc@[j] == k);
                }
            }
            proof {
                let prev = it.seq().take(it.index() as int).unref();
                let next = it.seq().take(it.index() + 1).unref();
                assert(next =~= prev.push(*id));
                prev.lemma_push_to_set_commute(*id);
            }
            proof {
                seen = seen.insert(*id);
            }
            assert(it.index() + 1 == it.seq().len() ==> it.seq().take(it.index() + 1) =~= it.seq());
        }
        let ghost listed = to_gc@;
        let n = to_gc.len();
        let mut i: usize = 0;
        while i < n
            invariant
                self.wf(),
                n == listed.len(),
                to_gc@ == listed,
                i <= n,
                forall|id: i64| #[trigger] self.processes@.contains_key(id) <==> (m.contains_key(id) && !listed.take(i as int).to_set().contains(id)),
                forall|id: i64| #[trigger] self.processes@.contains_key(id) ==> self.processes@[id] == m[id],
            decreases n - i,
        {
            self.processes.remove(&to_gc[i]);
            proof {
                assert(listed.take(i + 1) =~= listed.take(i as int).push(listed[i as int]));
                listed.take(i as int).lemma_push_to_set_commute(listed[i as int]);
            }
            i = i + 1;
        }
        assert(listed.take(n as int) =~= listed);
        assert forall|id: i64| #[trigger] self.processes@.contains_key(id) <==> (m.contains_key(id) && !is_expired(m[id], now, gc_timeout_micros)) by {
            if m.contains_key(id) && is_expired(m[id], now, gc_timeout_micros) {
                assert(seen.contains(id));
                assert(listed.contains(id));
                let j = choose|j: int| 0 <= j < listed.len() && #[trigger] listed[j] == id;
                assert(listed.to_set().contains(listed[j]));
            }
            if listed.to_set().contains(id) {
                let j = choose|j: int| 0 <= j < listed.len() && #[trigger] listed[j] == id;
                assert(m.contains_key(listed[j]));
            }
        }
    }
}

} // verus!
