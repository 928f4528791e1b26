use vstd::prelude::*;

use crate::load_table_task::{after_hand_out, after_upload, all_loaded, texts, LoadTableTask, LoadTaskView};
use crate::logs::{logs_after_add, logs_after_records, LogItem, Logs, SystemProcess};
use crate::sorted_vec::{lemma_map_at, EntityWithStrKey, SortedVecWithStrKey};
use crate::str_key::key_lt;
use vstd::string::StringExecFns;

verus! {

/// What a loader should do next.
pub enum NextFileToLoadResult {
    FileToLoad { table_name: String, file_name: String },
    NotReadyYet,
    NothingToLoad,
}

/// A table and the loading of its files.
pub struct TableTask<T> {
    pub table_name: String,
    pub task: LoadTableTask<T>,
}

impl<T> EntityWithStrKey for TableTask<T> {
    open spec fn key(&self) -> Seq<char> {
        self.table_name@
    }

    fn get_key(&self) -> (r: &str) {
        self.table_name.as_str()
    }
}

/// The tables being loaded at start-up, each with the loading of its files;
/// `T` is what a loaded file yields.
pub struct InitStateData<T> {
    tables: SortedVecWithStrKey<TableTask<T>>,
}

/// The position of the first task with a file waiting to be handed out,
/// or the number of tasks when there is none.
pub open spec fn first_with_file<T>(s: Seq<TableTask<T>>) -> int
    decreases s.len(),
{
    if s.len() == 0 {
        0
    } else if s[0].task@.pending.len() > 0 {
        0
    } else {
        1 + first_with_file(s.drop_first())
    }
}

/// The first `i` tasks have no file waiting and task `i` (if any) has one.
pub proof fn lemma_first_with_file<T>(s: Seq<TableTask<T>>, i: int)
    requires
        0 <= i <= s.len(),
        forall|j: int| 0 <= j < i ==> (#[trigger] s[j]).task@.pending.len() == 0,
        i < s.len() ==> s[i].task@.pending.len() > 0,
    ensures
        first_with_file(s) == i,
    decreases s.len(),
{
    if s.len() > 0 && i > 0 {
        assert forall|j: int| 0 <= j < i - 1 implies (#[trigger] s.drop_first()[j]).task@.pending.len()
            == 0 by {
            assert(s.drop_first()[j] == s[j + 1]);
        }
        lemma_first_with_file(s.drop_first(), i - 1);
    }
}

/// The loading of a table that has just started.
pub open spec fn fresh_task<T>() -> LoadTaskView<T> {
    LoadTaskView {
        pending: Seq::empty(),
        in_progress: Seq::empty(),
        loaded: Seq::empty(),
        list_loaded: false,
    }
}

/// A name of `names` whose validation passed.
pub open spec fn is_accepted(names: Seq<(String, Result<(), String>)>, k: Seq<char>) -> bool {
    exists|i: int| 0 <= i < names.len() && (#[trigger] names[i]).0@ == k && names[i].1 is Ok
}

/// The message logged for a table name whose validation failed for `reason`.
pub open spec fn rejection_message(reason: Seq<char>) -> Seq<char> {
    "Table name does not fit validation. Skipping loading it... Reason:"@ + reason
}

/// The names of `names` whose validation failed, each with its reason, in order.
pub open spec fn rejections(names: Seq<(String, Result<(), String>)>) -> Seq<(Seq<char>, Seq<char>)>
    decreases names.len(),
{
    if names.len() == 0 {
        Seq::empty()
    } else {
        let prev = rejections(names.drop_last());
        match names.last().1 {
            Ok(_) => prev,
            Err(reason) => prev.push((names.last().0@, reason@)),
        }
    }
}

/// `item` is the error record written at `now` for table `name`, whose
/// validation failed for `reason`.
pub open spec fn is_rejection_record(item: LogItem, name: Seq<char>, reason: Seq<char>, now: i64) -> bool {
    &&& item.date == now
    &&& (item.table matches Some(t) && t@ == name)
    &&& item.level is Error
    &&& item.process is Init
    &&& item.process_name@ == "init_tables"@
    &&& item.message@ == rejection_message(reason)
    &&& item.err_ctx is None
}

impl<T> InitStateData<T> {
    pub closed spec fn wf(&self) -> bool {
        self.tables.wf()
    }

    /// The tables in order of their names.
    pub closed spec fn table_seq(&self) -> Seq<TableTask<T>> {
        self.tables@
    }

    /// The loading of each table's files.
    pub closed spec fn tasks(&self) -> Map<Seq<char>, LoadTaskView<T>> {
        self.tables.to_map().map_values(|t: TableTask<T>| t.task@)
    }

    /// The tables in order hold each key once, ascending, and the loading
    /// of each table is what `tasks()` gives for its name; `tasks()` knows
    /// no other table.
    pub proof fn lemma_tasks_are_the_tables(&self)
        requires
            self.wf(),
        ensures
            forall|i: int, j: int| 0 <= i < j < self.table_seq().len() ==> key_lt(
                #[trigger] self.table_seq()[i].table_name@,
                #[trigger] self.table_seq()[j].table_name@,
            ),
            forall|i: int| 0 <= i < self.table_seq().len() ==> {
                &&& self.tasks().contains_key(#[trigger] self.table_seq()[i].table_name@)
                &&& self.tasks()[self.table_seq()[i].table_name@] == self.table_seq()[i].task@
            },
            forall|k: Seq<char>| #[trigger] self.tasks().contains_key(k) ==> exists|i: int|
                0 <= i < self.table_seq().len() && #[trigger] self.table_seq()[i].table_name@ == k,
    {
        let s = self.tables@;
        assert forall|i: int, j: int| 0 <= i < j < s.len() implies key_lt(
            #[trigger] s[i].table_name@,
            #[trigger] s[j].table_name@,
        ) by {
            assert(key_lt(s[i].key(), s[j].key()));
        }
        assert forall|i: int| 0 <= i < s.len() implies {
            &&& self.tasks().contains_key(#[trigger] s[i].table_name@)
            &&& self.tasks()[s[i].table_name@] == s[i].task@
        } by {
            lemma_map_at(s, i);
        }
        assert forall|k: Seq<char>| #[trigger] self.tasks().contains_key(k) implies exists|i: int|
            0 <= i < self.table_seq().len() && #[trigger] self.table_seq()[i].table_name@ == k by {
            assert(self.tables.to_map().contains_key(k));
            let i = choose|i: int| 0 <= i < s.len() && #[trigger] s[i].key() == k;
            assert(self.table_seq()[i].table_name@ == k);
        }
    }

    pub fn new() -> (r: Self)
        ensures
            r.wf(),
            r.table_seq() == Seq::<TableTask<T>>::empty(),
            r.tasks() == Map::<Seq<char>, LoadTaskView<T>>::empty(),
    {
        let r = Self { tables: SortedVecWithStrKey::new() };
        assert(r.tasks() =~= Map::<Seq<char>, LoadTaskView<T>>::empty());
        r
    }

    /// Starts the loading of the named tables, each with no file listed
    /// yet, in order; a table that was already loading starts over. Each
    /// name comes with the outcome of its validation: a name that failed is
    /// skipped and an error record for it is written to `logs` at `now`.
    pub fn init_table_names(&mut self, tables_names: Vec<(String, Result<(), String>)>, logs: &mut Logs, now: i64)
        requires
            old(self).wf(),
            old(logs).wf(),
        ensures
            final(self).wf(),
            final(logs).wf(),
            forall|k: Seq<char>| #[trigger] final(self).tasks().contains_key(k) <==> (old(self).tasks().contains_key(k) || is_accepted(tables_names@, k)),
            forall|k: Seq<char>| #[trigger] is_accepted(tables_names@, k) ==> final(self).tasks()[k] == fresh_task::<T>(),
            forall|k: Seq<char>| #[trigger] old(self).tasks().contains_key(k) && !is_accepted(tables_names@, k) ==> final(self).tasks()[k] == old(self).tasks()[k],
            exists|records: Seq<LogItem>| #![trigger logs_after_records(old(logs)@, records)] {
                &&& records.len() == rejections(tables_names@).len()
                &&& forall|j: int| 0 <= j < records.len() ==> is_rejection_record(
                    #[trigger] records[j],
                    rejections(tables_names@)[j].0,
                    rejections(tables_names@)[j].1,
                    now,
                )
                &&& final(logs)@ == logs_after_records(old(logs)@, records)
            },
    {
        let n = tables_names.len();
        let mut names = tables_names;
        let ghost all = names@;
        let ghost start_logs = logs@;
        let ghost mut records: Seq<LogItem> = Seq::empty();
        let mut i: usize = 0;
        while i < n
            invariant
                self.wf(),
                logs.wf(),
                n == all.len(),
                i <= n,
                names@ == all.subrange(i as int, n as int),
                forall|k: Seq<char>| #[trigger] self.tasks().contains_key(k) <==> (old(self).tasks().contains_key(k) || is_accepted(all.take(i as int), k)),
                forall|k: Seq<char>| #[trigger] is_accepted(all.take(i as int), k) ==> self.tasks()[k] == fresh_task::<T>(),
                forall|k: Seq<char>| #[trigger] old(self).tasks().contains_key(k) && !is_accepted(all.take(i as int), k) ==> self.tasks()[k] == old(self).tasks()[k],
                records.len() == rejections(all.take(i as int)).len(),
                forall|j: int| 0 <= j < records.len() ==> is_rejection_record(
                    #[trigger] records[j],
                    rejections(all.take(i as int))[j].0,
                    rejections(all.take(i as int))[j].1,
                    now,
                ),
                logs@ == logs_after_records(start_logs, records),
            decreases n - i,
        {
            let ghost prefix = all.take(i as int);
            let ghost next = all.take(i + 1);
            assert(next.drop_last() =~= prefix);
            let (table_name, outcome) = names.remove(0);
            assert(all[i as int] == (table_name, outcome));
            assert(names@ =~= all.subrange(i + 1, n as int));
            assert(next.last() == all[i as int]);
            assert forall|k: Seq<char>| is_accepted(next, k) <==> (is_accepted(prefix, k) || (k == table_name@ && outcome is Ok)) by {
                if is_accepted(next, k) {
                    let j = choose|j: int| 0 <= j < next.len() && (#[trigger] next[j]).0@ == k && next[j].1 is Ok;
                    if j < i {
                        assert(prefix[j] == next[j]);
                    }
                }
                if is_accepted(prefix, k) {
                    let j = choose|j: int| 0 <= j < prefix.len() && (#[trigger] prefix[j]).0@ == k && prefix[j].1 is Ok;
                    assert(next[j] == prefix[j]);
                }
                if k == table_name@ && outcome is Ok {
                    assert(next[i as int] == all[i as int]);
                }
            }
            match outcome {
                Ok(()) => {
                    let ghost before = self.tasks();
                    let task = TableTask { table_name, task: LoadTableTask::new() };
                    assert(task.task@ =~= fresh_task::<T>());
                    let ghost key = task.table_name@;
                    self.tables.insert_or_replace(task);
                    assert(self.tasks() =~= before.insert(key, fresh_task::<T>()));
                    assert(rejections(next) == rejections(prefix));
                },
                Err(reason) => {
                    let mut message = String::from_str(
                        "Table name does not fit validation. Skipping loading it... Reason:",
                    );
                    message.append(reason.as_str());
                    let process_name = String::from_str("init_tables");
                    let ghost record = LogItem {
                        date: now,
                        table: Some(table_name),
                        level: crate::logs::LogLevel::Error,
                        process: SystemProcess::Init,
                        process_name,
                        message,
                        err_ctx: None,
                    };
                    let ghost reason_text = reason@;
                    let ghost name_text = table_name@;
                    logs.add_error(Some(table_name), SystemProcess::Init, process_name, message, None, now);
                    assert(rejections(next) == rejections(prefix).push((name_text, reason_text)));
                    proof {
                        let old_records = records;
                        records = records.push(record);
                        assert(records.drop_last() =~= old_records);
                        assert forall|j: int| 0 <= j < records.len() implies is_rejection_record(
                            #[trigger] records[j],
                            rejections(next)[j].0,
                            rejections(next)[j].1,
                            now,
                        ) by {
                            if j < old_records.len() {
                                assert(records[j] == old_records[j]);
                            }
                        }
                    }
                },
            }
            i = i + 1;
        }
        assert(all.take(n as int) =~= all);
        assert(logs@ == logs_after_records(start_logs, records));
    }

    /// Hands out a file to load: the first listed and not yet handed out
    /// file of the first table (in order of names) that has one. Without
    /// such a file: `NothingToLoad` when the listing of every table is
    /// complete, else `NotReadyYet`.
    pub fn get_next_file_to_load(&mut self) -> (r: NextFileToLoadResult)
        requires
            old(self).wf(),
        ensures
            final(self).wf(),
            ({
                let s = old(self).table_seq();
                let i = first_with_file(s);
                if i < s.len() {
                    &&& r matches NextFileToLoadResult::FileToLoad { table_name, file_name }
                        && table_name@ == s[i].table_name@
                        && file_name@ == s[i].task@.pending[0]
                    &&& final(self).table_seq().len() == s.len()
                    &&& forall|j: int| 0 <= j < s.len() && j != i ==> #[trigger] final(self).table_seq()[j] == s[j]
                    &&& final(self).table_seq()[i].table_name == s[i].table_name
                    &&& final(self).table_seq()[i].task@ == after_hand_out(s[i].task@)
                } else {
                    &&& final(self).table_seq() == s
                    &&& (forall|j: int| 0 <= j < s.len() ==> (#[trigger] s[j]).task@.list_loaded) ==> r is NothingToLoad
                    &&& !(forall|j: int| 0 <= j < s.len() ==> (#[trigger] s[j]).task@.list_loaded) ==> r is NotReadyYet
                }
            }),
    {
        let ghost s = self.tables@;
        let n = self.tables.len();
        let mut all_files_are_loaded_amount: usize = 0;
        let mut i: usize = 0;
        while i < n
            invariant
                self.wf(),
                self.tables@ == s,
                n == s.len(),
                i <= n,
                all_files_are_loaded_amount <= i,
                forall|j: int| 0 <= j < i ==> (#[trigger] s[j]).task@.pending.len() == 0,
                (all_files_are_loaded_amount == i) == (forall|j: int| 0 <= j < i ==> (#[trigger] s[j]).task@.list_loaded),
            ensures
                i <= n,
                all_files_are_loaded_amount <= i,
                forall|j: int| 0 <= j < i ==> (#[trigger] s[j]).task@.pending.len() == 0,
                (all_files_are_loaded_amount == i) == (forall|j: int| 0 <= j < i ==> (#[trigger] s[j]).task@.list_loaded),
                i < n ==> s[i as int].task@.pending.len() > 0,
            decreases n - i,
        {
            if self.tables.get_at(i).task.has_file_to_load() {
                break;
            }
            if self.tables.get_at(i).task.is_file_list_loaded() {
                all_files_are_loaded_amount = all_files_are_loaded_amount + 1;
            } else {
                assert(!s[i as int].task@.list_loaded);
            }
            i = i + 1;
        }
        proof {
            lemma_first_with_file(s, i as int);
        }
        if i < n {
            let table_name = self.tables.get_at(i).table_name.clone();
            let placeholder = TableTask { table_name: table_name.clone(), task: LoadTableTask::new() };
            let mut table_task = self.tables.replace_at(i, placeholder);
            let file_name = table_task.task.get_next_file_to_load_content().unwrap();
            self.tables.replace_at(i, table_task);
            return NextFileToLoadResult::FileToLoad { table_name, file_name };
        }
        if all_files_are_loaded_amount == n {
            return NextFileToLoadResult::NothingToLoad;
        }
        return NextFileToLoadResult::NotReadyYet;
    }

    /// Appends listed files to a table's files to load; no effect for an unknown table.
    pub fn add_files_to_table(&mut self, table_name: &str, files: Vec<String>)
        requires
            old(self).wf(),
        ensures
            final(self).wf(),
            final(self).tasks() == if old(self).tasks().contains_key(table_name@) {
                old(self).tasks().insert(
                    table_name@,
                    LoadTaskView {
                        pending: old(self).tasks()[table_name@].pending + texts(files@),
                        ..old(self).tasks()[table_name@]
                    },
                )
            } else {
                old(self).tasks()
            },
    {
        let ghost before = self.tasks();
        match self.tables.find(table_name) {
            Ok(i) => {
                proof {
                    lemma_map_at(self.tables@, i as int);
                }
                let name = self.tables.get_at(i).table_name.clone();
                let placeholder = TableTask { table_name: name, task: LoadTableTask::new() };
                let mut table_task = self.tables.replace_at(i, placeholder);
                table_task.task.add_list_of_files(files);
                self.tables.replace_at(i, table_task);
                assert(self.tasks() =~= before.insert(
                    table_name@,
                    LoadTaskView {
                        pending: before[table_name@].pending + texts(files@),
                        ..before[table_name@]
                    },
                ));
            },
            Err(_) => {},
        }
    }

    /// Notes that a table's listing of files is complete; no effect for an unknown table.
    pub fn set_file_list_is_loaded(&mut self, table_name: &str)
        requires
            old(self).wf(),
        ensures
            final(self).wf(),
            final(self).tasks() == if old(self).tasks().contains_key(table_name@) {
                old(self).tasks().insert(
                    table_name@,
                    LoadTaskView { list_loaded: true, ..old(self).tasks()[table_name@] },
                )
            } else {
                old(self).tasks()
            },
    {
        let ghost before = self.tasks();
        match self.tables.find(table_name) {
            Ok(i) => {
                proof {
                    lemma_map_at(self.tables@, i as int);
                }
                let name = self.tables.get_at(i).table_name.clone();
                let placeholder = TableTask { table_name: name, task: LoadTableTask::new() };
                let mut table_task = self.tables.replace_at(i, placeholder);
                table_task.task.set_file_list_is_loaded();
                self.tables.replace_at(i, table_task);
                assert(self.tasks() =~= before.insert(
                    table_name@,
                    LoadTaskView { list_loaded: true, ..before[table_name@] },
                ));
            },
            Err(_) => {},
        }
    }

    /// Takes in the loaded content of a table's file; returns whether all
    /// files of the table have then come back. An unknown table takes
    /// nothing and gives `false`.
    pub fn upload_table_file_content(&mut self, table_name: &str, file_name: String, table_item: T) -> (r: bool)
        requires
            old(self).wf(),
        ensures
            final(self).wf(),
            old(self).tasks().contains_key(table_name@) ==> {
                let after = after_upload(old(self).tasks()[table_name@], file_name@, table_item);
                &&& final(self).tasks() == old(self).tasks().insert(table_name@, after)
                &&& r == all_loaded(after)
            },
            !old(self).tasks().contains_key(table_name@) ==> {
                &&& final(self).tasks() == old(self).tasks()
                &&& !r
            },
    {
        let ghost before = self.tasks();
        match self.tables.find(table_name) {
            Ok(i) => {
                proof {
                    lemma_map_at(self.tables@, i as int);
                }
                let name = self.tables.get_at(i).table_name.clone();
                let placeholder = TableTask { table_name: name, task: LoadTableTask::new() };
                let mut table_task = self.tables.replace_at(i, placeholder);
                table_task.task.upload(file_name, table_item);
                let done = table_task.task.all_files_are_loaded();
                self.tables.replace_at(i, table_task);
                assert(self.tasks() =~= before.insert(table_name@, table_task.task@));
                done
            },
            Err(_) => false,
        }
    }

    /// The first table name in order, if any.
    fn get_first_table_name(&self) -> (r: Option<String>)
        requires
            self.wf(),
        ensures
            self.table_seq().len() == 0 ==> r is None,
            self.table_seq().len() > 0 ==> r == Some(self.table_seq()[0].table_name),
    {
        if self.tables.len() == 0 {
            return None;
        }
        Some(self.tables.get_at(0).table_name.clone())
    }

    /// Takes out the first table in order with the loading of its files.
    pub fn remove_next_task(&mut self) -> (r: Option<(String, LoadTableTask<T>)>)
        requires
            old(self).wf(),
        ensures
            final(self).wf(),
            old(self).table_seq().len() == 0 ==> r is None && final(self).table_seq() == old(self).table_seq(),
            old(self).table_seq().len() > 0 ==> {
                &&& r matches Some((name, task)) && name == old(self).table_seq()[0].table_name && task == old(self).table_seq()[0].task
                &&& final(self).table_seq() == old(self).table_seq().drop_first()
            },
    {
        let table_name = self.get_first_table_name();
        match table_name {
            None => None,
            Some(table_name) => {
                let table_task = self.tables.remove_at(0);
                assert(self.tables@ =~= old(self).tables@.drop_first());
                Some((table_name, table_task.task))
            },
        }
    }
}

/// How the loading of a handed-out file of a table ended.
pub enum LoadFileOutcome<T> {
    /// The file name names no table file; why.
    BadFileName(String),
    /// The store has no content for the file.
    NoContent,
    /// The content of the file, decoded.
    Loaded(T),
    /// The content of the file could not be decoded; why.
    Undecodable(String),
}

/// `item` is the error record written at `now` about file `file_name` with `message`.
pub open spec fn is_file_error_record(item: LogItem, file_name: Seq<char>, message: Seq<char>, now: i64) -> bool {
    &&& item.date == now
    &&& (item.table matches Some(t) && t@ == file_name)
    &&& item.level is Error
    &&& item.process is Init
    &&& item.process_name@ == "init_tables"@
    &&& item.message@ == message
    &&& item.err_ctx is None
}

/// Takes in how the loading of file `file_name` of table `table_name`
/// ended, at `now`: decoded content goes to the table's loading; a file
/// without content changes nothing; a bad file name or undecodable content
/// is written to `logs` as an error about the file.
pub fn file_loaded<T>(
    state: &mut InitStateData<T>,
    logs: &mut Logs,
    table_name: String,
    file_name: String,
    outcome: LoadFileOutcome<T>,
    now: i64,
)
    requires
        old(state).wf(),
        old(logs).wf(),
    ensures
        final(state).wf(),
        final(logs).wf(),
        match outcome {
            LoadFileOutcome::BadFileName(err) => {
                &&& *final(state) == *old(state)
                &&& exists|item: LogItem| #![trigger logs_after_add(old(logs)@, item)] {
                    &&& is_file_error_record(item, file_name@, "Error loading table file "@ + file_name@ + ": "@ + err@, now)
                    &&& final(logs)@ == logs_after_add(old(logs)@, item)
                }
            },
            LoadFileOutcome::NoContent => {
                &&& *final(state) == *old(state)
                &&& final(logs)@ == old(logs)@
            },
            LoadFileOutcome::Loaded(item) => {
                &&& final(logs)@ == old(logs)@
                &&& final(state).tasks() == if old(state).tasks().contains_key(table_name@) {
                    old(state).tasks().insert(
                        table_name@,
                        after_upload(old(state).tasks()[table_name@], file_name@, item),
                    )
                } else {
                    old(state).tasks()
                }
            },
            LoadFileOutcome::Undecodable(err) => {
                &&& *final(state) == *old(state)
                &&& exists|item: LogItem| #![trigger logs_after_add(old(logs)@, item)] {
                    &&& is_file_error_record(item, file_name@, "Error parsing table file "@ + file_name@ + ": "@ + err@, now)
                    &&& final(logs)@ == logs_after_add(old(logs)@, item)
                }
            },
        },
{
    match outcome {
        LoadFileOutcome::BadFileName(err) => {
            let mut message = String::from_str("Error loading table file ");
            message.append(file_name.as_str());
            message.append(": ");
            message.append(err.as_str());
            let process_name = String::from_str("init_tables");
            let ghost item = LogItem {
                date: now,
                table: Some(file_name),
                level: crate::logs::LogLevel::Error,
                process: SystemProcess::Init,
                process_name,
                message,
                err_ctx: None,
            };
            logs.add_error(Some(file_name), SystemProcess::Init, process_name, message, None, now);
            assert(logs@ == logs_after_add(old(logs)@, item));
        },
        LoadFileOutcome::NoContent => {},
        LoadFileOutcome::Loaded(item) => {
            state.upload_table_file_content(table_name.as_str(), file_name, item);
        },
        LoadFileOutcome::Undecodable(err) => {
            let mut message = String::from_str("Error parsing table file ");
            message.append(file_name.as_str());
            message.append(": ");
            message.append(err.as_str());
            let process_name = String::from_str("init_tables");
            let ghost item = LogItem {
                date: now,
                table: Some(file_name),
                level: crate::logs::LogLevel::Error,
                process: SystemProcess::Init,
                process_name,
                message,
                err_ctx: None,
            };
            logs.add_error(Some(file_name), SystemProcess::Init, process_name, message, None, now);
            assert(logs@ == logs_after_add(old(logs)@, item));
        },
    }
}

} // verus!
