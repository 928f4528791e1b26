use vstd::prelude::*;

use crate::sorted_vec::{
    lemma_map_at, lemma_map_len, seq_to_map, EntityWithStrKey, SortedVecWithStrKey,
};

verus! {

/// The next piece of a table that is due to be written out.
pub enum PersistResult {
    PersistAttrs,
    PersistTable,
    PersistPartition(String),
}

impl PersistResult {
    pub fn is_table(&self) -> (r: bool)
        ensures
            r == (*self is PersistTable),
    {
        match self {
            PersistResult::PersistAttrs => false,
            PersistResult::PersistTable => true,
            PersistResult::PersistPartition(_) => false,
        }
    }
}

/// A partition that waits to be written out, and the moment (in unix
/// microseconds) from which it is due.
pub struct PartitionPersistMoment {
    pub partition_key: String,
    pub moment: i64,
}

impl EntityWithStrKey for PartitionPersistMoment {
    open spec fn key(&self) -> Seq<char> {
        self.partition_key@
    }

    fn get_key(&self) -> (r: &str) {
        self.partition_key.as_str()
    }
}

/// What a table still has to write out: the whole table, single partitions,
/// the table attributes; each with the moment (unix microseconds) from which it is due.
pub struct DataToPersist {
    pub persisit_whole_table: Option<i64>,
    pub partitions: SortedVecWithStrKey<PartitionPersistMoment>,
    pub persist_attrs: bool,
}

/// The earlier of two moments.
pub open spec fn earliest(a: i64, b: i64) -> i64 {
    if a <= b {
        a
    } else {
        b
    }
}

/// The waiting partitions after `k` is scheduled from `moment`: an earlier
/// moment already set for `k` is kept.
pub open spec fn moments_after_mark(moments: Map<Seq<char>, i64>, k: Seq<char>, moment: i64) -> Map<
    Seq<char>,
    i64,
> {
    moments.insert(
        k,
        if moments.contains_key(k) {
            earliest(moments[k], moment)
        } else {
            moment
        },
    )
}

/// A moment is due at `now`, or at once while shutting down.
pub open spec fn is_due(moment: i64, now: i64, is_shutting_down: bool) -> bool {
    is_shutting_down || moment <= now
}

impl DataToPersist {
    pub open spec fn wf(&self) -> bool {
        self.partitions.wf()
    }

    /// The partitions that wait, with the moments from which they are due.
    pub open spec fn moments(&self) -> Map<Seq<char>, i64> {
        self.partitions.to_map().map_values(|p: PartitionPersistMoment| p.moment)
    }

    /// How many pieces wait to be written out.
    pub open spec fn amount(&self) -> nat {
        (if self.persist_attrs { 1nat } else { 0nat }) + self.moments().len() + (
        if self.persisit_whole_table is Some {
            1nat
        } else {
            0nat
        })
    }

    /// The whole table is due.
    pub open spec fn table_is_due(&self, now: i64, is_shutting_down: bool) -> bool {
        self.persisit_whole_table matches Some(t) && is_due(t, now, is_shutting_down)
    }

    /// The partition `k` waits and is due.
    pub open spec fn partition_is_due(&self, k: Seq<char>, now: i64, is_shutting_down: bool) -> bool {
        self.moments().contains_key(k) && is_due(self.moments()[k], now, is_shutting_down)
    }

    /// Some waiting partition is due.
    pub open spec fn some_partition_is_due(&self, now: i64, is_shutting_down: bool) -> bool {
        exists|k: Seq<char>| #[trigger] self.partition_is_due(k, now, is_shutting_down)
    }

    /// One step of the persistence schedule: `r` is what `pre` hands out at
    /// `now` and `post` what is left.
    pub open spec fn persist_step(
        pre: DataToPersist,
        now: i64,
        is_shutting_down: bool,
        r: Option<PersistResult>,
        post: DataToPersist,
    ) -> bool {
        if pre.table_is_due(now, is_shutting_down) {
            &&& r == Some(PersistResult::PersistTable)
            &&& post.persisit_whole_table is None
            &&& post.moments() == Map::<Seq<char>, i64>::empty()
            &&& post.persist_attrs == pre.persist_attrs
        } else if pre.some_partition_is_due(now, is_shutting_down) {
            &&& r matches Some(PersistResult::PersistPartition(key)) && pre.partition_is_due(
                key@,
                now,
                is_shutting_down,
            ) && post.moments() == pre.moments().remove(key@)
            &&& post.persisit_whole_table == pre.persisit_whole_table
            &&& post.persist_attrs == pre.persist_attrs
        } else if pre.persist_attrs {
            &&& r == Some(PersistResult::PersistAttrs)
            &&& post.persisit_whole_table == pre.persisit_whole_table
            &&& post.moments() == pre.moments()
            &&& !post.persist_attrs
        } else {
            &&& r is None
            &&& post.persisit_whole_table == pre.persisit_whole_table
            &&& post.moments() == pre.moments()
            &&& post.persist_attrs == pre.persist_attrs
        }
    }

    /// The moment from which the next piece is due: the whole table's, else
    /// the earliest among the partitions'.
    pub open spec fn next_persist_time_is(&self, r: Option<i64>) -> bool {
        match self.persisit_whole_table {
            Some(t) => r == Some(t),
            None => match r {
                None => self.moments().len() == 0,
                Some(m) => {
                    &&& exists|k: Seq<char>| #[trigger]
                        self.moments().contains_key(k) && self.moments()[k] == m
                    &&& forall|k: Seq<char>| #[trigger]
                        self.moments().contains_key(k) ==> m <= self.moments()[k]
                },
            },
        }
    }

    /// The map of waiting partitions is finite and counts one entry per stored partition.
    pub proof fn lemma_moments_len(&self)
        requires
            self.wf(),
        ensures
            self.moments().dom().finite(),
            self.moments().len() == self.partitions@.len(),
    {
        lemma_map_len(self.partitions@);
        assert(self.moments().dom() =~= self.partitions.to_map().dom());
    }

    pub fn new() -> (r: Self)
        ensures
            r.wf(),
            r.persisit_whole_table is None,
            r.moments() == Map::<Seq<char>, i64>::empty(),
            !r.persist_attrs,
    {
        let r = Self {
            persisit_whole_table: None,
            partitions: SortedVecWithStrKey::new(),
            persist_attrs: false,
        };
        proof {
            lemma_map_len(r.partitions@);
            assert(r.moments() =~= Map::<Seq<char>, i64>::empty());
        }
        r
    }

    /// How many pieces wait to be written out.
    pub fn get_persist_amount(&self) -> (r: usize)
        requires
            self.wf(),
            self.amount() <= usize::MAX,
        ensures
            r == self.amount(),
    {
        proof {
            self.lemma_moments_len();
        }
        let mut result: usize = if self.persist_attrs {
            1
        } else {
            0
        };
        result = result + self.partitions.len();
        if self.persisit_whole_table.is_some() {
            result = result + 1;
        }
        result
    }

    /// Schedules the whole table; an earlier moment already set is kept.
    pub fn mark_table_to_persist(&mut self, moment: i64)
        ensures
            final(self).persisit_whole_table == Some(
                match old(self).persisit_whole_table {
                    Some(t) => earliest(t, moment),
                    None => moment,
                },
            ),
            final(self).partitions == old(self).partitions,
            final(self).persist_attrs == old(self).persist_attrs,
    {
        if self.persisit_whole_table.is_none() {
            self.persisit_whole_table = Some(moment);
            return ;
        }
        let persist_whole_table = self.persisit_whole_table.unwrap();
        if persist_whole_table > moment {
            self.persisit_whole_table = Some(moment)
        }
    }

    /// Schedules a partition; an earlier moment already set for it is kept.
    pub fn mark_partition_to_persist(&mut self, partition_key: &str, persist_moment: i64)
        requires
            old(self).wf(),
        ensures
            final(self).wf(),
            final(self).moments() == moments_after_mark(
                old(self).moments(),
                partition_key@,
                persist_moment,
            ),
            final(self).persisit_whole_table == old(self).persisit_whole_table,
            final(self).persist_attrs == old(self).persist_attrs,
    {
        let ghost old_moments = self.moments();
        match self.partitions.find(partition_key) {
            Ok(i) => {
                proof {
                    lemma_map_at(self.partitions@, i as int);
                }
                let moment = self.partitions.get_at(i).moment;
                if moment > persist_moment {
                    let item = PartitionPersistMoment {
                        partition_key: partition_key.to_owned(),
                        moment: persist_moment,
                    };
                    self.partitions.replace_at(i, item);
                } else {
                    assert(old_moments.insert(partition_key@, moment) =~= old_moments);
                }
            },
            Err(i) => {
                let item = PartitionPersistMoment {
                    partition_key: partition_key.to_owned(),
                    moment: persist_moment,
                };
                self.partitions.insert_at(i, item);
            },
        }
        assert(self.moments() =~= old_moments.insert(
            partition_key@,
            if old_moments.contains_key(partition_key@) {
                earliest(old_moments[partition_key@], persist_moment)
            } else {
                persist_moment
            },
        ));
    }

    /// Schedules the table attributes.
    pub fn mark_persist_attrs(&mut self)
        ensures
            final(self).persist_attrs,
            final(self).persisit_whole_table == old(self).persisit_whole_table,
            final(self).partitions == old(self).partitions,
    {
        self.persist_attrs = true;
    }

    /// A waiting partition that is due, if any.
    fn get_partition_ready_to_persist(&self, now: i64, is_shutting_down: bool) -> (r: Option<
        String,
    >)
        requires
            self.wf(),
        ensures
            match r {
                Some(key) => self.partition_is_due(key@, now, is_shutting_down),
                None => !self.some_partition_is_due(now, is_shutting_down),
            },
    {
        let n = self.partitions.len();
        let mut i: usize = 0;
        while i < n
            invariant
                self.wf(),
                n == self.partitions@.len(),
                i <= n,
                forall|j: int|
                    0 <= j < i ==> !is_due(
                        #[trigger] self.partitions@[j].moment,
                        now,
                        is_shutting_down,
                    ),
            decreases n - i,
        {
            let item = self.partitions.get_at(i);
            if is_shutting_down || item.moment <= now {
                proof {
                    lemma_map_at(self.partitions@, i as int);
                }
                return Some(item.partition_key.clone());
            }
            i = i + 1;
        }
        assert forall|k: Seq<char>| !#[trigger] self.partition_is_due(k, now, is_shutting_down) by {
            if self.moments().contains_key(k) {
                let j = choose|j: int|
                    0 <= j < self.partitions@.len() && #[trigger] self.partitions@[j].key() == k;
                lemma_map_at(self.partitions@, j);
            }
        }
        None
    }

    /// The moment from which the next piece is due, if anything waits.
    pub fn get_next_persist_time(&self) -> (r: Option<i64>)
        requires
            self.wf(),
        ensures
            self.next_persist_time_is(r),
    {
        if let Some(persisit_whole_table) = self.persisit_whole_table {
            return Some(persisit_whole_table);
        }
        proof {
            self.lemma_moments_len();
        }
        let n = self.partitions.len();
        let mut result: Option<i64> = None;
        let mut i: usize = 0;
        while i < n
            invariant
                self.wf(),
                n == self.partitions@.len(),
                i <= n,
                result is None <==> i == 0,
                result matches Some(m) ==> (exists|j: int|
                    0 <= j < i && #[trigger] self.partitions@[j].moment == m),
                result matches Some(m) ==> (forall|j: int|
                    0 <= j < i ==> m <= #[trigger] self.partitions@[j].moment),
            decreases n - i,
        {
            let moment = self.partitions.get_at(i).moment;
            match result {
                Some(current_result) => {
                    if current_result > moment {
                        result = Some(moment);
                    }
                },
                None => {
                    result = Some(moment);
                },
            }
            i = i + 1;
        }
        proof {
            if let Some(m) = result {
                let j = choose|j: int| 0 <= j < i && #[trigger] self.partitions@[j].moment == m;
                lemma_map_at(self.partitions@, j);
                assert(self.moments().contains_key(self.partitions@[j].key()));
                assert forall|k: Seq<char>| #[trigger]
                    self.moments().contains_key(k) implies m <= self.moments()[k] by {
                    let j2 = choose|j2: int|
                        0 <= j2 < self.partitions@.len() && #[trigger] self.partitions@[j2].key()
                            == k;
                    lemma_map_at(self.partitions@, j2);
                }
            }
        }
        result
    }

    /// Hands out the next piece that is due at `now` (everything is due
    /// while shutting down) and forgets it: the whole table first, which
    /// covers its partitions; then a partition; then the attributes.
    pub fn get_what_to_persist(&mut self, now: i64, is_shutting_down: bool) -> (r: Option<
        PersistResult,
    >)
        requires
            old(self).wf(),
        ensures
            final(self).wf(),
            Self::persist_step(*old(self), now, is_shutting_down, r, *final(self)),
            r is None ==> *final(self) == *old(self),
    {
        if let Some(persisit_whole_table) = self.persisit_whole_table {
            if persisit_whole_table <= now || is_shutting_down {
                self.persisit_whole_table = None;
                self.partitions = SortedVecWithStrKey::new();
                assert(self.moments() =~= Map::<Seq<char>, i64>::empty());
                return Some(PersistResult::PersistTable);
            }
        }
        if let Some(partition_key) = self.get_partition_ready_to_persist(now, is_shutting_down) {
            let ghost old_moments = self.moments();
            self.partitions.remove(partition_key.as_str());
            assert(self.moments() =~= old_moments.remove(partition_key@));
            return Some(PersistResult::PersistPartition(partition_key));
        }
        if self.persist_attrs {
            self.persist_attrs = false;
            return Some(PersistResult::PersistAttrs);
        }
        None
    }
}

/// Each step of the schedule that hands something out leaves less to do; a
/// step that hands out nothing changes nothing and finds nothing due.
pub proof fn law_step_shrinks_the_work(
    pre: DataToPersist,
    now: i64,
    is_shutting_down: bool,
    r: Option<PersistResult>,
    post: DataToPersist,
)
    requires
        pre.wf(),
        post.wf(),
        DataToPersist::persist_step(pre, now, is_shutting_down, r, post),
    ensures
        r is Some ==> post.amount() < pre.amount(),
        r is None ==> {
            &&& post.amount() == pre.amount()
            &&& !pre.table_is_due(now, is_shutting_down)
            &&& !pre.some_partition_is_due(now, is_shutting_down)
            &&& !pre.persist_attrs
        },
{
    pre.lemma_moments_len();
    post.lemma_moments_len();
    if pre.table_is_due(now, is_shutting_down) {
    } else if pre.some_partition_is_due(now, is_shutting_down) {
        if let Some(PersistResult::PersistPartition(key)) = r {
            assert(pre.moments().contains_key(key@));
            assert(post.moments().len() == pre.moments().len() - 1);
        }
    }
}

/// While shutting down everything is due: the schedule hands out nothing
/// only when nothing waits.
pub proof fn law_shutdown_drains_everything(
    pre: DataToPersist,
    now: i64,
    post: DataToPersist,
)
    requires
        pre.wf(),
        post.wf(),
        DataToPersist::persist_step(pre, now, true, None, post),
    ensures
        pre.amount() == 0,
{
    pre.lemma_moments_len();
    if pre.moments().len() > 0 {
        let k = pre.moments().dom().choose();
        assert(pre.moments().dom().contains(k));
        assert(pre.partition_is_due(k, now, true));
    }
}

/// While shutting down the schedule hands out something exactly when
/// something waits.
pub proof fn law_shutdown_hands_out_iff_work_waits(
    pre: DataToPersist,
    now: i64,
    r: Option<PersistResult>,
    post: DataToPersist,
)
    requires
        pre.wf(),
        post.wf(),
        DataToPersist::persist_step(pre, now, true, r, post),
    ensures
        r is None <==> pre.amount() == 0,
{
    pre.lemma_moments_len();
    if r is None {
        law_shutdown_drains_everything(pre, now, post);
    }
    if pre.amount() == 0 {
        assert(pre.persisit_whole_table is None);
        assert(!pre.persist_attrs);
        assert(pre.moments().len() == 0);
        assert forall|k: Seq<char>| !#[trigger] pre.partition_is_due(k, now, true) by {
            if pre.moments().contains_key(k) {
                assert(pre.moments().dom().contains(k));
                vstd::set_lib::lemma_set_empty_equivalency_len(pre.moments().dom());
            }
        }
    }
}

/// Scheduling a partition never postpones it: afterwards it is due from the
/// earlier of its old moment and the new one, so at any moment from the new
/// one on it is due.
pub proof fn law_mark_never_postpones(
    pre: DataToPersist,
    k: Seq<char>,
    moment: i64,
    post: DataToPersist,
    now: i64,
    is_shutting_down: bool,
)
    requires
        post.moments() == moments_after_mark(pre.moments(), k, moment),
    ensures
        post.moments()[k] <= moment,
        pre.moments().contains_key(k) ==> post.moments()[k] <= pre.moments()[k],
        moment <= now ==> post.partition_is_due(k, now, is_shutting_down),
        pre.partition_is_due(k, now, is_shutting_down) ==> post.partition_is_due(
            k,
            now,
            is_shutting_down,
        ),
{
}

/// The next persist time is a moment from which something is due: once it
/// has come, the schedule hands out the whole table or a partition; and
/// when the whole table is not scheduled, nothing is due before it.
pub proof fn law_next_persist_time_is_when_work_is_due(
    s: DataToPersist,
    m: i64,
    now: i64,
)
    requires
        s.next_persist_time_is(Some(m)),
    ensures
        m <= now ==> (s.table_is_due(now, false) || s.some_partition_is_due(now, false)),
        s.persisit_whole_table is None ==> (now < m ==> !s.some_partition_is_due(now, false)),
{
    if m <= now && s.persisit_whole_table is None {
        let k = choose|k: Seq<char>| #[trigger]
            s.moments().contains_key(k) && s.moments()[k] == m;
        assert(s.partition_is_due(k, now, false));
    }
    if s.persisit_whole_table is None && now < m {
        assert forall|k: Seq<char>| !#[trigger] s.partition_is_due(k, now, false) by {
            if s.moments().contains_key(k) {
                assert(m <= s.moments()[k]);
            }
        }
    }
}

} // verus!
