use vstd::prelude::*;

use std::collections::HashMap;
use std::sync::Arc;

use crate::last_items::{keep_last, last_items};
use crate::sorted_vec::{lemma_map_at, seq_to_map, EntityWithStrKey, SortedVecWithStrKey};
use vstd::string::StrSliceExecFns;

verus! {

/// The part of the server that wrote a log record.
#[derive(Clone, Copy, Debug)]
pub enum SystemProcess {
    System,
    TcpSocket,
    PersistOperation,
    TableOperation,
    Init,
    Timer,
}

/// `c` with ASCII upper-case letters turned to lower case.
pub open spec fn ascii_lower(c: char) -> char {
    if 65 <= (c as u32) <= 90 {
        ((c as u32) + 32) as char
    } else {
        c
    }
}

/// `s` with ASCII upper-case letters turned to lower case.
pub open spec fn to_ascii_lower(s: Seq<char>) -> Seq<char> {
    s.map_values(|c: char| ascii_lower(c))
}

/// Whether `value` with ASCII upper-case letters turned to lower case is `lower`.
fn equals_lowercased(value: &str, lower: &str) -> (r: bool)
    ensures
        r == (to_ascii_lower(value@) == lower@),
{
    let n = value.unicode_len();
    if n != lower.unicode_len() {
        assert(to_ascii_lower(value@).len() != lower@.len());
        return false;
    }
    let mut i: usize = 0;
    while i < n
        invariant
            n == value@.len(),
            n == lower@.len(),
            i <= n,
            forall|j: int| 0 <= j < i ==> ascii_lower(value@[j]) == lower@[j],
        decreases n - i,
    {
        let c = value.get_char(i);
        let t = lower.get_char(i);
        let same = if 'A' <= c && c <= 'Z' {
            (c as u32) + 32 == (t as u32)
        } else {
            c == t
        };
        if 65 <= (c as u32) && (c as u32) <= 90 {
            assert((((c as u32) + 32) as char) as u32 == (c as u32) + 32);
        }
        if !same {
            assert(to_ascii_lower(value@)[i as int] != lower@[i as int]);
            return false;
        }
        i = i + 1;
    }
    assert(to_ascii_lower(value@) =~= lower@);
    true
}

impl SystemProcess {
    /// The number of the process.
    pub open spec fn id(self) -> u8 {
        match self {
            SystemProcess::System => 0,
            SystemProcess::TcpSocket => 1,
            SystemProcess::PersistOperation => 2,
            SystemProcess::TableOperation => 3,
            SystemProcess::Init => 4,
            SystemProcess::Timer => 5,
        }
    }

    /// The process named `value`, ignoring ASCII case.
    pub open spec fn parse_spec(value: Seq<char>) -> Option<SystemProcess> {
        let v = to_ascii_lower(value);
        if v == "system"@ {
            Some(SystemProcess::System)
        } else if v == "tcpsocket"@ {
            Some(SystemProcess::TcpSocket)
        } else if v == "persistoperation"@ {
            Some(SystemProcess::PersistOperation)
        } else if v == "tableoperation"@ {
            Some(SystemProcess::TableOperation)
        } else if v == "init"@ {
            Some(SystemProcess::Init)
        } else if v == "timer"@ {
            Some(SystemProcess::Timer)
        } else {
            None
        }
    }

    /// All processes, in the order of their numbers.
    pub fn iterate() -> (r: Vec<Self>)
        ensures
            r@ == seq![
                SystemProcess::System,
                SystemProcess::TcpSocket,
                SystemProcess::PersistOperation,
                SystemProcess::TableOperation,
                SystemProcess::Init,
                SystemProcess::Timer,
            ],
    {
        let r = vec![
            SystemProcess::System,
            SystemProcess::TcpSocket,
            SystemProcess::PersistOperation,
            SystemProcess::TableOperation,
            SystemProcess::Init,
            SystemProcess::Timer,
        ];
        assert(r@ =~= seq![
            SystemProcess::System,
            SystemProcess::TcpSocket,
            SystemProcess::PersistOperation,
            SystemProcess::TableOperation,
            SystemProcess::Init,
            SystemProcess::Timer,
        ]);
        r
    }

    /// The process named `value`, ignoring ASCII case.
    pub fn parse(value: &str) -> (r: Option<Self>)
        ensures
            r == Self::parse_spec(value@),
    {
        if equals_lowercased(value, "system") {
            return Some(SystemProcess::System);
        }
        if equals_lowercased(value, "tcpsocket") {
            return Some(SystemProcess::TcpSocket);
        }
        if equals_lowercased(value, "persistoperation") {
            return Some(SystemProcess::PersistOperation);
        }
        if equals_lowercased(value, "tableoperation") {
            return Some(SystemProcess::TableOperation);
        }
        if equals_lowercased(value, "init") {
            return Some(SystemProcess::Init);
        }
        if equals_lowercased(value, "timer") {
            return Some(SystemProcess::Timer);
        }
        return None;
    }

    /// The number of the process.
    pub fn as_u8(&self) -> (r: u8)
        ensures
            r == self.id(),
    {
        match self {
            SystemProcess::System => 0,
            SystemProcess::TcpSocket => 1,
            SystemProcess::PersistOperation => 2,
            SystemProcess::TableOperation => 3,
            SystemProcess::Init => 4,
            SystemProcess::Timer => 5,
        }
    }
}

/// Process names are read without regard to ASCII case: a name and its
/// lower-case form name the same process, or both name none.
pub proof fn law_parse_ignores_case(value: Seq<char>)
    ensures
        SystemProcess::parse_spec(to_ascii_lower(value)) == SystemProcess::parse_spec(value),
{
    assert forall|i: int| 0 <= i < value.len() implies #[trigger] ascii_lower(ascii_lower(value[i]))
        == ascii_lower(value[i]) by {
        let c = value[i];
        if 65 <= (c as u32) <= 90 {
            assert((((c as u32) + 32) as char) as u32 == (c as u32) + 32);
        }
    }
    assert(to_ascii_lower(to_ascii_lower(value)) =~= to_ascii_lower(value));
}

/// Distinct processes have distinct numbers, so the journal keeps one list
/// per process.
pub proof fn law_process_numbers_are_distinct(a: SystemProcess, b: SystemProcess)
    ensures
        a.id() == b.id() ==> a == b,
{
}

/// How serious a log record is.
#[derive(Clone, Copy, Debug)]
pub enum LogLevel {
    Info,
    Error,
    FatalError,
}

impl LogLevel {
    pub fn is_fatal_error(&self) -> (r: bool)
        ensures
            r == (*self is FatalError),
    {
        match self {
            LogLevel::FatalError => true,
            _ => false,
        }
    }
}

/// A log record.
pub struct LogItem {
    /// When it was written, unix microseconds.
    pub date: i64,
    pub table: Option<String>,
    pub level: LogLevel,
    pub process: SystemProcess,
    pub process_name: String,
    pub message: String,
    pub err_ctx: Option<String>,
}

/// A record goes to the console when it is an error, or when it comes from
/// the system or the start-up.
pub open spec fn is_printed(level: LogLevel, process: SystemProcess) -> bool {
    match level {
        LogLevel::Info => process is System || process is Init,
        _ => true,
    }
}

/// Errors and fatal errors always go to the console; an information
/// record goes there only when it comes from the system or the start-up.
pub proof fn law_which_records_are_printed(level: LogLevel, process: SystemProcess)
    ensures
        !(level is Info) ==> is_printed(level, process),
        level is Info ==> (is_printed(level, process) <==> (process is System || process is Init)),
{
}

/// Whether `item` goes to the console.
pub fn should_log_be_printed(item: &LogItem) -> (r: bool)
    ensures
        r == is_printed(item.level, item.process),
        r == (!(item.level is Info) || item.process is System || item.process is Init),
{
    match &item.level {
        LogLevel::Info => {},
        LogLevel::Error => {
            return true;
        },
        LogLevel::FatalError => {
            return true;
        },
    }
    match &item.process {
        SystemProcess::System => {
            return true;
        },
        SystemProcess::TcpSocket => {},
        SystemProcess::PersistOperation => {},
        SystemProcess::TableOperation => {},
        SystemProcess::Init => {
            return true;
        },
        SystemProcess::Timer => {},
    }
    return false;
}

/// How many records each journal keeps.
pub const LOGS_KEPT: usize = 100;

/// The records of one table.
pub struct TableLogs {
    pub table_name: String,
    pub items: Vec<Arc<LogItem>>,
}

impl EntityWithStrKey for TableLogs {
    open spec fn key(&self) -> Seq<char> {
        self.table_name@
    }

    fn get_key(&self) -> (r: &str) {
        self.table_name.as_str()
    }
}

/// The records behind the shared pointers, oldest first.
pub open spec fn log_items(v: Seq<Arc<LogItem>>) -> Seq<LogItem> {
    v.map_values(|a: Arc<LogItem>| *a)
}

/// `journal` after `item` is appended and only the latest 100 records are kept.
pub open spec fn journal_after(journal: Seq<LogItem>, item: LogItem) -> Seq<LogItem> {
    last_items(journal.push(item), LOGS_KEPT as nat)
}

/// `Arc::clone`: another pointer to the same record.
#[verifier::external_body]
fn share<T>(a: &Arc<T>) -> (r: Arc<T>)
    ensures
        r == *a,
{
    Arc::clone(a)
}

/// `items` after `item` is appended and only the latest 100 records are kept.
fn push_and_keep_last(items: &mut Vec<Arc<LogItem>>, item: Arc<LogItem>)
    ensures
        log_items(final(items)@) == journal_after(log_items(old(items)@), *item),
        final(items)@.len() <= LOGS_KEPT,
{
    let ghost before = items@;
    items.push(item);
    let ghost pushed = items@;
    keep_last(items, LOGS_KEPT);
    assert(log_items(pushed) =~= log_items(before).push(*item));
    assert(log_items(items@) =~= journal_after(log_items(before), *item));
}

/// Another vector of pointers to the same records.
fn share_all(items: &Vec<Arc<LogItem>>) -> (r: Vec<Arc<LogItem>>)
    ensures
        r@ == items@,
{
    let mut r: Vec<Arc<LogItem>> = Vec::new();
    let n = items.len();
    let mut i: usize = 0;
    while i < n
        invariant
            n == items@.len(),
            i <= n,
            r@ == items@.take(i as int),
        decreases n - i,
    {
        r.push(share(&items[i]));
        assert(items@.take(i + 1) =~= items@.take(i as int).push(items@[i as int]));
        i = i + 1;
    }
    assert(items@.take(n as int) =~= items@);
    r
}

/// The log journals: all records, the records of each table, of each
/// process, and the fatal errors, each keeping its latest 100 records.
pub struct Logs {
    items: Vec<Arc<LogItem>>,
    items_by_table: SortedVecWithStrKey<TableLogs>,
    items_by_process: HashMap<u8, Vec<Arc<LogItem>>>,
    fatal_errors: Vec<Arc<LogItem>>,
    fatal_errors_amount: i64,
}

/// The content of the journals.
pub struct LogsView {
    pub items: Seq<LogItem>,
    pub by_table: Map<Seq<char>, Seq<LogItem>>,
    pub by_process: Map<u8, Seq<LogItem>>,
    pub fatal_errors: Seq<LogItem>,
    pub fatal_errors_amount: i64,
}

impl View for Logs {
    type V = LogsView;

    closed spec fn view(&self) -> LogsView {
        LogsView {
            items: log_items(self.items@),
            by_table: self.items_by_table.to_map().map_values(
                |t: TableLogs| log_items(t.items@),
            ),
            by_process: self.items_by_process@.map_values(|v: Vec<Arc<LogItem>>| log_items(v@)),
            fatal_errors: log_items(self.fatal_errors@),
            fatal_errors_amount: self.fatal_errors_amount,
        }
    }
}

/// The journals after `item` is added.
pub open spec fn logs_after_add(v: LogsView, item: LogItem) -> LogsView {
    LogsView {
        items: journal_after(v.items, item),
        by_table: match item.table {
            Some(t) => v.by_table.insert(
                t@,
                journal_after(
                    if v.by_table.contains_key(t@) {
                        v.by_table[t@]
                    } else {
                        Seq::empty()
                    },
                    item,
                ),
            ),
            None => v.by_table,
        },
        by_process: v.by_process.insert(
            item.process.id(),
            journal_after(
                if v.by_process.contains_key(item.process.id()) {
                    v.by_process[item.process.id()]
                } else {
                    Seq::empty()
                },
                item,
            ),
        ),
        fatal_errors: if item.level is FatalError {
            journal_after(v.fatal_errors, item)
        } else {
            v.fatal_errors
        },
        fatal_errors_amount: v.fatal_errors_amount,
    }
}

/// The journals after the records `items` are added in order.
pub open spec fn logs_after_records(v: LogsView, items: Seq<LogItem>) -> LogsView
    decreases items.len(),
{
    if items.len() == 0 {
        v
    } else {
        logs_after_add(logs_after_records(v, items.drop_last()), items.last())
    }
}

impl Logs {
    /// The table journals are keyed in order.
    pub closed spec fn wf(&self) -> bool {
        &&& self.items_by_table.wf()
        &&& vstd::std_specs::hash::obeys_key_model::<u8>()
        &&& vstd::std_specs::hash::builds_valid_hashers::<std::hash::RandomState>()
    }

    pub fn new() -> (r: Self)
        ensures
            r.wf(),
            r@.items == Seq::<LogItem>::empty(),
            r@.by_table == Map::<Seq<char>, Seq<LogItem>>::empty(),
            r@.by_process == Map::<u8, Seq<LogItem>>::empty(),
            r@.fatal_errors == Seq::<LogItem>::empty(),
            r@.fatal_errors_amount == 0,
    {
        broadcast use vstd::std_specs::hash::group_hash_axioms;

        let r = Self {
            items: Vec::new(),
            items_by_table: SortedVecWithStrKey::new(),
            items_by_process: HashMap::new(),
            fatal_errors: Vec::new(),
            fatal_errors_amount: 0,
        };
        assert(r@.items =~= Seq::<LogItem>::empty());
        assert(r@.by_table =~= Map::<Seq<char>, Seq<LogItem>>::empty());
        assert(r@.by_process =~= Map::<u8, Seq<LogItem>>::empty());
        assert(r@.fatal_errors =~= Seq::<LogItem>::empty());
        r
    }

    /// Adds `item` to the journals it belongs to; returns whether it also
    /// goes to the console.
    pub fn add(&mut self, item: LogItem) -> (r: bool)
        requires
            old(self).wf(),
        ensures
            final(self).wf(),
            final(self)@ == logs_after_add(old(self)@, item),
            r == is_printed(item.level, item.process),
    {
        broadcast use vstd::std_specs::hash::group_hash_axioms;

        let ghost v = self@;
        let ghost it = item;
        let item = Arc::new(item);
        let printed = should_log_be_printed(&item);
        if item.level.is_fatal_error() {
            push_and_keep_last(&mut self.fatal_errors, share(&item));
        }
        let process_id = item.process.as_u8();
        let mut by_process = match self.items_by_process.remove(&process_id) {
            Some(items) => items,
            None => Vec::new(),
        };
        push_and_keep_last(&mut by_process, share(&item));
        let ghost prev_process = if v.by_process.contains_key(process_id) {
            v.by_process[process_id]
        } else {
            Seq::empty()
        };
        assert(log_items(by_process@) == journal_after(prev_process, it)) by {
            if !v.by_process.contains_key(process_id) {
                assert(log_items(Seq::<Arc<LogItem>>::empty()) =~= Seq::<LogItem>::empty());
            }
        }
        self.items_by_process.insert(process_id, by_process);
        assert(self@.by_process =~= v.by_process.insert(process_id, journal_after(prev_process, it)));
        let ghost by_table_before = self.items_by_table.to_map();
        if let Some(table_name) = &item.table {
            let ghost prev_table = if v.by_table.contains_key(table_name@) {
                v.by_table[table_name@]
            } else {
                Seq::empty()
            };
            let mut table_logs = match self.items_by_table.remove(table_name.as_str()) {
                Some(t) => t,
                None => TableLogs { table_name: table_name.clone(), items: Vec::new() },
            };
            assert(table_logs.key() == table_name@);
            assert(log_items(table_logs.items@) == prev_table) by {
                if !v.by_table.contains_key(table_name@) {
                    assert(log_items(Seq::<Arc<LogItem>>::empty()) =~= Seq::<LogItem>::empty());
                }
            }
            push_and_keep_last(&mut table_logs.items, share(&item));
            self.items_by_table.insert_or_replace(table_logs);
            assert(self@.by_table =~= v.by_table.insert(table_name@, journal_after(prev_table, it)));
        } else {
            assert(self@.by_table =~= v.by_table);
        }
        push_and_keep_last(&mut self.items, item);
        assert(self@.by_table =~= logs_after_add(v, it).by_table);
        printed
    }

    /// A record written at `now`.
    fn record(
        now: i64,
        level: LogLevel,
        table: Option<String>,
        process: SystemProcess,
        process_name: String,
        message: String,
        err_ctx: Option<String>,
    ) -> (r: LogItem)
        ensures
            r == (LogItem { date: now, table, level, process, process_name, message, err_ctx }),
    {
        LogItem { date: now, table, level, process, process_name, message, err_ctx }
    }

    /// Adds an information record written at `now`; returns whether it also
    /// goes to the console.
    pub fn add_info(
        &mut self,
        table: Option<String>,
        process: SystemProcess,
        process_name: String,
        message: String,
        context: Option<String>,
        now: i64,
    ) -> (r: bool)
        requires
            old(self).wf(),
        ensures
            final(self).wf(),
            final(self)@ == logs_after_add(
                old(self)@,
                LogItem {
                    date: now,
                    table,
                    level: LogLevel::Info,
                    process,
                    process_name,
                    message,
                    err_ctx: context,
                },
            ),
            r == is_printed(LogLevel::Info, process),
            r == (process is System || process is Init),
    {
        let item = Self::record(now, LogLevel::Info, table, process, process_name, message, context);
        self.add(item)
    }

    /// Adds an error record written at `now`; it goes to the console.
    pub fn add_error(
        &mut self,
        table: Option<String>,
        process: SystemProcess,
        process_name: String,
        message: String,
        err_ctx: Option<String>,
        now: i64,
    ) -> (r: bool)
        requires
            old(self).wf(),
        ensures
            final(self).wf(),
            final(self)@ == logs_after_add(
                old(self)@,
                LogItem { date: now, table, level: LogLevel::Error, process, process_name, message, err_ctx },
            ),
            r,
    {
        let item = Self::record(now, LogLevel::Error, table, process, process_name, message, err_ctx);
        self.add(item)
    }

    /// Counts a fatal error and adds its record, written at `now`; it goes to the console.
    pub fn add_fatal_error(
        &mut self,
        table: Option<String>,
        process: SystemProcess,
        process_name: String,
        message: String,
        context: Option<String>,
        now: i64,
    ) -> (r: bool)
        requires
            old(self).wf(),
        ensures
            final(self).wf(),
            final(self)@ == logs_after_add(
                LogsView {
                    fatal_errors_amount: if old(self)@.fatal_errors_amount == i64::MAX {
                        i64::MIN
                    } else {
                        (old(self)@.fatal_errors_amount + 1) as i64
                    },
                    ..old(self)@
                },
                LogItem {
                    date: now,
                    table,
                    level: LogLevel::FatalError,
                    process,
                    process_name,
                    message,
                    err_ctx: context,
                },
            ),
            r,
    {
        self.fatal_errors_amount = if self.fatal_errors_amount == i64::MAX {
            i64::MIN
        } else {
            self.fatal_errors_amount + 1
        };
        let item = Self::record(
            now,
            LogLevel::FatalError,
            table,
            process,
            process_name,
            message,
            context,
        );
        self.add(item)
    }

    /// How many fatal errors were counted.
    pub fn get_fatal_errors_amount(&self) -> (r: i64)
        ensures
            r == self@.fatal_errors_amount,
    {
        self.fatal_errors_amount
    }

    /// The kept fatal errors, oldest first; `None` when there are none.
    pub fn get_fatal_errors(&self) -> (r: Option<Vec<Arc<LogItem>>>)
        ensures
            match r {
                Some(v) => self@.fatal_errors.len() > 0 && log_items(v@) == self@.fatal_errors,
                None => self@.fatal_errors.len() == 0,
            },
    {
        if self.fatal_errors.len() == 0 {
            return None;
        }
        Some(share_all(&self.fatal_errors))
    }

    /// The newest record, if any.
    pub fn last_item(&self) -> (r: Option<Arc<LogItem>>)
        ensures
            match r {
                Some(a) => self@.items.len() > 0 && *a == self@.items.last(),
                None => self@.items.len() == 0,
            },
    {
        let n = self.items.len();
        if n == 0 {
            return None;
        }
        Some(share(&self.items[n - 1]))
    }

    /// All kept records, oldest first.
    pub fn get(&self) -> (r: Vec<Arc<LogItem>>)
        ensures
            log_items(r@) == self@.items,
    {
        share_all(&self.items)
    }

    /// The kept records of a table, oldest first; `None` when it has none.
    pub fn get_by_table_name(&self, table_name: &str) -> (r: Option<Vec<Arc<LogItem>>>)
        requires
            self.wf(),
        ensures
            match r {
                Some(v) => self@.by_table.contains_key(table_name@) && log_items(v@)
                    == self@.by_table[table_name@],
                None => !self@.by_table.contains_key(table_name@),
            },
    {
        match self.items_by_table.get(table_name) {
            Some(t) => Some(share_all(&t.items)),
            None => None,
        }
    }

    /// The kept records of a process, oldest first; `None` when it has none.
    pub fn get_by_process(&self, process: SystemProcess) -> (r: Option<Vec<Arc<LogItem>>>)
        requires
            self.wf(),
        ensures
            match r {
                Some(v) => self@.by_process.contains_key(process.id()) && log_items(v@)
                    == self@.by_process[process.id()],
                None => !self@.by_process.contains_key(process.id()),
            },
    {
        broadcast use vstd::std_specs::hash::group_hash_axioms;

        match self.items_by_process.get(&process.as_u8()) {
            Some(items) => Some(share_all(items)),
            None => None,
        }
    }
}

/// The record names table `t`.
pub open spec fn names_table(item: LogItem, t: Seq<char>) -> bool {
    item.table matches Some(n) && n@ == t
}

/// Every journal keeps at most 100 records, and records only of its kind:
/// a table's journal those of the table, a process's those of the process,
/// the fatal journal fatal errors.
pub open spec fn journals_hold(v: LogsView) -> bool {
    &&& v.items.len() <= LOGS_KEPT
    &&& v.fatal_errors.len() <= LOGS_KEPT
    &&& forall|i: int| 0 <= i < v.fatal_errors.len() ==> #[trigger] v.fatal_errors[i].level is FatalError
    &&& forall|t: Seq<char>| #[trigger] v.by_table.contains_key(t) ==> {
        &&& v.by_table[t].len() <= LOGS_KEPT
        &&& forall|i: int| 0 <= i < v.by_table[t].len() ==> names_table(#[trigger] v.by_table[t][i], t)
    }
    &&& forall|p: u8| #[trigger] v.by_process.contains_key(p) ==> {
        &&& v.by_process[p].len() <= LOGS_KEPT
        &&& forall|i: int| 0 <= i < v.by_process[p].len() ==> (
        #[trigger] v.by_process[p][i]).process.id() == p
    }
}

/// The records kept after an addition are among the old ones and the new one.
proof fn lemma_journal_after(
    journal: Seq<LogItem>,
    item: LogItem,
    j: int,
)
    requires
        0 <= j < journal_after(journal, item).len(),
    ensures
        journal_after(journal, item).len() <= LOGS_KEPT,
        journal_after(journal, item)[j] == item || exists|i: int|
            0 <= i < journal.len() && journal[i] == journal_after(journal, item)[j],
{
    let pushed = journal.push(item);
    let k = if pushed.len() > LOGS_KEPT { pushed.len() - LOGS_KEPT + j } else { j };
    assert(journal_after(journal, item)[j] == pushed[k]);
    if k < journal.len() {
        assert(journal[k] == pushed[k]);
    }
}

/// Adding a record keeps every journal within 100 records and of its kind;
/// the record is the newest of the journal of all records, of its process,
/// of its table if it names one, and of the fatal errors if it is one.
pub proof fn law_add_keeps_journals(v: LogsView, item: LogItem)
    requires
        journals_hold(v),
    ensures
        journals_hold(logs_after_add(v, item)),
        logs_after_add(v, item).items.last() == item,
        logs_after_add(v, item).by_process[item.process.id()].last() == item,
        item.table matches Some(t) ==> logs_after_add(v, item).by_table[t@].last() == item,
        item.level is FatalError ==> logs_after_add(v, item).fatal_errors.last() == item,
{
    let w = logs_after_add(v, item);
    assert forall|i: int| 0 <= i < w.fatal_errors.len() implies #[trigger] w.fatal_errors[i].level is FatalError by {
        if item.level is FatalError {
            lemma_journal_after(v.fatal_errors, item, i);
        }
    }
    assert forall|t: Seq<char>| #[trigger] w.by_table.contains_key(t) implies {
        &&& w.by_table[t].len() <= LOGS_KEPT
        &&& forall|i: int| 0 <= i < w.by_table[t].len() ==> names_table(#[trigger] w.by_table[t][i], t)
    } by {
        if names_table(item, t) {
            let prev = if v.by_table.contains_key(t) { v.by_table[t] } else { Seq::empty() };
            assert forall|i: int| 0 <= i < w.by_table[t].len() implies names_table(
                #[trigger] w.by_table[t][i],
                t,
            ) by {
                lemma_journal_after(prev, item, i);
            }
            if w.by_table[t].len() > 0 {
                lemma_journal_after(prev, item, 0);
            }
        }
    }
    assert forall|p: u8| #[trigger] w.by_process.contains_key(p) implies {
        &&& w.by_process[p].len() <= LOGS_KEPT
        &&& forall|i: int| 0 <= i < w.by_process[p].len() ==> (
        #[trigger] w.by_process[p][i]).process.id() == p
    } by {
        if p == item.process.id() {
            let prev = if v.by_process.contains_key(p) { v.by_process[p] } else { Seq::empty() };
            assert forall|i: int| 0 <= i < w.by_process[p].len() implies (
            #[trigger] w.by_process[p][i]).process.id() == p by {
                lemma_journal_after(prev, item, i);
            }
            if w.by_process[p].len() > 0 {
                lemma_journal_after(prev, item, 0);
            }
        }
    }
}

} // verus!
