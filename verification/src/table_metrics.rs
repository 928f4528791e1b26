use vstd::prelude::*;

use crate::persist_markers::PersistMarkers;

verus! {

/// The figures of a table's content.
pub struct DbTableStats {
    pub table_size: usize,
    pub partitions_amount: usize,
    pub records_amount: usize,
    /// Unix microseconds.
    pub last_update_time: i64,
}

/// The figures that are reported of a table.
pub struct DbTableMetrics {
    pub table_size: usize,
    pub partitions_amount: usize,
    pub records_amount: usize,
    pub last_update_time: i64,
    pub last_persist_time: Option<i64>,
    pub next_persist_time: Option<i64>,
    pub persist_amount: usize,
    pub last_persist_duration: Vec<usize>,
}

/// The figures of a table from its content and its persistence bookkeeping.
pub fn get_table_metrics(stats: &DbTableStats, markers: &PersistMarkers) -> (r: DbTableMetrics)
    requires
        markers.wf(),
        markers.data_to_persist.amount() <= usize::MAX,
    ensures
        r.table_size == stats.table_size,
        r.partitions_amount == stats.partitions_amount,
        r.records_amount == stats.records_amount,
        r.last_update_time == stats.last_update_time,
        r.last_persist_time == markers.last_persist_time,
        markers.data_to_persist.next_persist_time_is(r.next_persist_time),
        r.persist_amount == markers.data_to_persist.amount(),
        r.last_persist_duration@ == markers.persist_duration@,
{
    DbTableMetrics {
        table_size: stats.table_size,
        partitions_amount: stats.partitions_amount,
        records_amount: stats.records_amount,
        last_update_time: stats.last_update_time,
        last_persist_time: markers.last_persist_time,
        next_persist_time: markers.data_to_persist.get_next_persist_time(),
        persist_amount: markers.data_to_persist.get_persist_amount(),
        last_persist_duration: markers.persist_duration.clone(),
    }
}

/// How long, in whole seconds, the table's last update waits for a persist:
/// 0 when it was never persisted or was persisted after its last update.
pub open spec fn persist_delay_spec(last_persist_time: Option<i64>, last_update_time: i64) -> int {
    match last_persist_time {
        Some(p) => if p < last_update_time {
            (last_update_time - p) / 1_000_000
        } else {
            0
        },
        None => 0,
    }
}

/// How long, in whole seconds, the table's last update waits for a persist.
pub fn persist_delay_seconds(metrics: &DbTableMetrics) -> (r: i64)
    ensures
        r == persist_delay_spec(metrics.last_persist_time, metrics.last_update_time),
{
    match metrics.last_persist_time {
        Some(last_persist_time) => {
            if last_persist_time < metrics.last_update_time {
                let micros: i128 = metrics.last_update_time as i128 - last_persist_time as i128;
                (micros / 1_000_000) as i64
            } else {
                0
            }
        },
        None => 0,
    }
}

/// The sum of `s`.
pub open spec fn sum_of(s: Seq<usize>) -> int
    decreases s.len(),
{
    if s.len() == 0 {
        0
    } else {
        sum_of(s.drop_last()) + s.last()
    }
}

proof fn lemma_sum_of_prefix(s: Seq<usize>, i: int)
    requires
        0 <= i <= s.len(),
    ensures
        sum_of(s.take(i)) <= sum_of(s),
    decreases s.len(),
{
    if i < s.len() {
        assert(s.take(i) =~= s.drop_last().take(i));
        lemma_sum_of_prefix(s.drop_last(), i);
    } else {
        assert(s.take(i) =~= s);
    }
}

/// The work waiting to be persisted over all tables: the sum of their
/// amounts, `None` when it does not fit in a `usize`.
pub fn total_persist_amount(amounts: &Vec<usize>) -> (r: Option<usize>)
    ensures
        match r {
            Some(t) => t == sum_of(amounts@),
            None => sum_of(amounts@) > usize::MAX,
        },
{
    let n = amounts.len();
    let mut total: usize = 0;
    let mut i: usize = 0;
    while i < n
        invariant
            n == amounts@.len(),
            i <= n,
            total == sum_of(amounts@.take(i as int)),
        decreases n - i,
    {
        assert(amounts@.take(i + 1).drop_last() =~= amounts@.take(i as int));
        match total.checked_add(amounts[i]) {
            Some(t) => {
                total = t;
            },
            None => {
                proof {
                    lemma_sum_of_prefix(amounts@, i + 1);
                }
                return None;
            },
        }
        i = i + 1;
    }
    assert(amounts@.take(n as int) =~= amounts@);
    Some(total)
}

/// The status of a table as the monitoring API reports it.
pub struct TableModel {
    pub name: String,
    pub partitions_count: usize,
    pub data_size: usize,
    pub records_amount: usize,
    pub last_update_time: i64,
    pub last_persist_time: Option<i64>,
    pub last_persist_duration: Vec<usize>,
    pub next_persist_time: Option<i64>,
    pub persist_amount: usize,
}

/// The status of table `name` from its figures.
pub open spec fn table_model(name: String, metrics: DbTableMetrics) -> TableModel {
    TableModel {
        name,
        partitions_count: metrics.partitions_amount,
        data_size: metrics.table_size,
        records_amount: metrics.records_amount,
        last_update_time: metrics.last_update_time,
        last_persist_time: metrics.last_persist_time,
        last_persist_duration: metrics.last_persist_duration,
        next_persist_time: metrics.next_persist_time,
        persist_amount: metrics.persist_amount,
    }
}

/// The status of a table reports the table's own figures, each under the
/// name of the same meaning.
pub proof fn law_table_model_reports_its_figures(name: String, metrics: DbTableMetrics)
    ensures
        table_model(name, metrics).name == name,
        table_model(name, metrics).partitions_count == metrics.partitions_amount,
        table_model(name, metrics).data_size == metrics.table_size,
        table_model(name, metrics).records_amount == metrics.records_amount,
        table_model(name, metrics).last_update_time == metrics.last_update_time,
        table_model(name, metrics).last_persist_time == metrics.last_persist_time,
        table_model(name, metrics).last_persist_duration == metrics.last_persist_duration,
        table_model(name, metrics).next_persist_time == metrics.next_persist_time,
        table_model(name, metrics).persist_amount == metrics.persist_amount,
{
}

impl TableModel {
    /// The status of table `name` from its figures.
    pub fn from_metrics(name: String, metrics: DbTableMetrics) -> (r: Self)
        ensures
            r == table_model(name, metrics),
            r.name == name,
            r.partitions_count == metrics.partitions_amount,
            r.data_size == metrics.table_size,
            r.records_amount == metrics.records_amount,
            r.last_update_time == metrics.last_update_time,
            r.last_persist_time == metrics.last_persist_time,
            r.last_persist_duration == metrics.last_persist_duration,
            r.next_persist_time == metrics.next_persist_time,
            r.persist_amount == metrics.persist_amount,
    {
        TableModel {
            name,
            partitions_count: metrics.partitions_amount,
            data_size: metrics.table_size,
            records_amount: metrics.records_amount,
            last_update_time: metrics.last_update_time,
            last_persist_time: metrics.last_persist_time,
            last_persist_duration: metrics.last_persist_duration,
            next_persist_time: metrics.next_persist_time,
            persist_amount: metrics.persist_amount,
        }
    }
}

} // verus!
