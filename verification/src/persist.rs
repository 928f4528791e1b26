use vstd::prelude::*;
use vstd::string::StringExecFns;

use crate::data_to_persist::{DataToPersist, PersistResult};
use crate::last_items::last_items;
use crate::logs::{logs_after_add, LogItem, LogLevel, Logs, LogsView, SystemProcess};
use crate::persist_markers::{PersistMarkers, PERSIST_DURATIONS_KEPT};

verus! {

/// Takes the next piece of a table that is due at `now` (everything is due
/// while shutting down); see `DataToPersist::persist_step`.
pub fn get_job_to_persist(markers: &mut PersistMarkers, now: i64, is_shutting_down: bool) -> (r: Option<PersistResult>)
    requires
        old(markers).wf(),
    ensures
        final(markers).wf(),
        DataToPersist::persist_step(old(markers).data_to_persist, now, is_shutting_down, r, final(markers).data_to_persist),
        r is None ==> *final(markers) == *old(markers),
        final(markers).persist_duration == old(markers).persist_duration,
        final(markers).last_persist_time == old(markers).last_persist_time,
{
    markers.data_to_persist.get_what_to_persist(now, is_shutting_down)
}

/// The message of the fatal error written when persisting failed with `err`.
pub open spec fn persist_failure_message(err: Seq<char>) -> Seq<char> {
    "Can not persist messages "@ + err
}

/// The journals after a persist of `table_name` failed with `err` at `now`:
/// a fatal error is counted and recorded.
pub open spec fn logs_after_persist_failure(v: LogsView, item: LogItem) -> LogsView {
    logs_after_add(
        LogsView {
            fatal_errors_amount: if v.fatal_errors_amount == i64::MAX {
                i64::MIN
            } else {
                (v.fatal_errors_amount + 1) as i64
            },
            ..v
        },
        item,
    )
}

/// Notes how a persist of table `table_name` ended at `now`: after
/// `Ok(duration)` (microseconds) the duration and the time are recorded;
/// after `Err(err)` a fatal error of the persistence is counted and
/// recorded in `logs`. Returns whether a record goes to the console.
pub fn persist_finished(
    markers: &mut PersistMarkers,
    logs: &mut Logs,
    table_name: String,
    outcome: Result<u128, String>,
    now: i64,
) -> (r: bool)
    requires
        old(logs).wf(),
    ensures
        final(logs).wf(),
        match outcome {
            Ok(duration) => {
                &&& final(markers).persist_duration@ == last_items(
                    old(markers).persist_duration@.push(duration as usize),
                    PERSIST_DURATIONS_KEPT as nat,
                )
                &&& final(markers).last_persist_time == Some(now)
                &&& final(markers).data_to_persist == old(markers).data_to_persist
                &&& final(logs)@ == old(logs)@
                &&& !r
            },
            Err(err) => {
                &&& *final(markers) == *old(markers)
                &&& exists|item: LogItem| #![trigger logs_after_persist_failure(old(logs)@, item)] {
                    &&& item.date == now
                    &&& (item.table matches Some(t) && t == table_name)
                    &&& item.level is FatalError
                    &&& item.process is PersistOperation
                    &&& item.process_name@ == "PersistTimer"@
                    &&& item.message@ == persist_failure_message(err@)
                    &&& item.err_ctx is None
                    &&& final(logs)@ == logs_after_persist_failure(old(logs)@, item)
                }
                &&& r
            },
        },
{
    match outcome {
        Ok(duration) => {
            markers.add_persist_duration(duration, now);
            false
        },
        Err(err) => {
            let mut message = String::from_str("Can not persist messages ");
            message.append(err.as_str());
            let process_name = String::from_str("PersistTimer");
            let ghost item = LogItem {
                date: now,
                table: Some(table_name),
                level: LogLevel::FatalError,
                process: SystemProcess::PersistOperation,
                process_name,
                message,
                err_ctx: None,
            };
            let printed = logs.add_fatal_error(
                Some(table_name),
                SystemProcess::PersistOperation,
                process_name,
                message,
                None,
                now,
            );
            assert(logs@ == logs_after_persist_failure(old(logs)@, item));
            printed
        },
    }
}

/// One pass of the persist loop over the tables: whether some table had a
/// job in it. The loop makes passes until one finds no job.
pub struct PersistPass {
    pub has_something_to_persist: bool,
}

impl PersistPass {
    /// A pass that has found no job yet.
    pub fn new() -> (r: Self)
        ensures
            !r.has_something_to_persist,
    {
        Self { has_something_to_persist: false }
    }

    /// Takes the next due job of one table of the pass (see
    /// `get_job_to_persist`) and notes when there is one.
    pub fn take_job(&mut self, markers: &mut PersistMarkers, now: i64, is_shutting_down: bool) -> (r: Option<PersistResult>)
        requires
            old(markers).wf(),
        ensures
            final(markers).wf(),
            DataToPersist::persist_step(old(markers).data_to_persist, now, is_shutting_down, r, final(markers).data_to_persist),
            r is None ==> *final(markers) == *old(markers),
            final(markers).persist_duration == old(markers).persist_duration,
            final(markers).last_persist_time == old(markers).last_persist_time,
            final(self).has_something_to_persist == (old(self).has_something_to_persist || r is Some),
    {
        let r = get_job_to_persist(markers, now, is_shutting_down);
        if r.is_some() {
            self.has_something_to_persist = true;
        }
        r
    }

    /// Whether the loop stops after this pass: no table had a job.
    pub fn is_last(&self) -> (r: bool)
        ensures
            r == !self.has_something_to_persist,
    {
        !self.has_something_to_persist
    }
}

/// When shutting down, the loop stops only when nothing is left: in a pass
/// where no table had a job, every table had nothing waiting.
pub proof fn law_last_pass_at_shutdown_leaves_nothing(
    before: Seq<DataToPersist>,
    after: Seq<DataToPersist>,
    jobs: Seq<Option<PersistResult>>,
    now: i64,
)
    requires
        before.len() == after.len(),
        before.len() == jobs.len(),
        forall|i: int| 0 <= i < before.len() ==> (#[trigger] before[i]).wf() && after[i].wf(),
        forall|i: int| 0 <= i < before.len() ==> DataToPersist::persist_step(#[trigger] before[i], now, true, jobs[i], after[i]),
        forall|i: int| 0 <= i < jobs.len() ==> (#[trigger] jobs[i]) is None,
    ensures
        forall|i: int| 0 <= i < before.len() ==> (#[trigger] before[i]).amount() == 0,
{
    assert forall|i: int| 0 <= i < before.len() implies (#[trigger] before[i]).amount() == 0 by {
        assert(jobs[i] is None);
        crate::data_to_persist::law_shutdown_drains_everything(before[i], now, after[i]);
    }
}

} // verus!
