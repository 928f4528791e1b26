use vstd::prelude::*;

use crate::load_table_task::texts;
use crate::paths::{compile_sql_table_file_name, table_file_name};
use crate::persist_events::{
    delete_row_event, handle_delete_partition, handle_delete_row, handle_insert_or_update,
    handle_update_table_metadata, DeleteRowGrpcModel, InsertOrUpdateRowGrpcModel, PersistGrpcEvent,
};
use crate::persist_queue::PersistEvent;
use crate::sorted_vec::{lemma_map_at, EntityWithStrKey, SortedVecWithStrKey};
use crate::table_attributes::{default_attributes, DbTableAttributes};
use crate::table_cache::{
    view_after_delete_row, view_after_insert, view_after_rows, DbRowDto, TableCache, TableView,
};

verus! {

/// A table of the server: its name and its rows in memory.
pub struct TableEntry {
    pub table_name: String,
    pub cache: TableCache,
}

impl EntityWithStrKey for TableEntry {
    open spec fn key(&self) -> Seq<char> {
        self.table_name@
    }

    fn get_key(&self) -> (r: &str) {
        self.table_name.as_str()
    }
}

/// What is known of one table: its rows, its settings, the changes that
/// wait to be persisted.
pub struct TableState {
    pub rows: TableView,
    pub meta: DbTableAttributes,
    pub queue: Seq<PersistEvent>,
}

/// The state of a table in memory.
pub open spec fn state_of(c: TableCache) -> TableState {
    TableState { rows: c.view(), meta: c.meta_data, queue: c.persist_queue@ }
}

/// A table just created with settings `meta`: no rows, nothing to persist.
pub open spec fn new_table_state(meta: DbTableAttributes) -> TableState {
    TableState { rows: TableView::empty(), meta, queue: Seq::empty() }
}

/// The tables with table `name` present: a missing one is made with
/// default settings at `now`.
pub open spec fn with_table(m: Map<Seq<char>, TableState>, name: Seq<char>, now: i64) -> Map<
    Seq<char>,
    TableState,
> {
    if m.contains_key(name) {
        m
    } else {
        m.insert(name, new_table_state(default_attributes(now)))
    }
}

/// The tables after the settings of table `name` are set to `attr`; a
/// missing table is made first.
pub open spec fn after_update_attributes(
    m: Map<Seq<char>, TableState>,
    name: Seq<char>,
    attr: DbTableAttributes,
    now: i64,
) -> Map<Seq<char>, TableState> {
    let m1 = with_table(m, name, now);
    m1.insert(
        name,
        TableState { meta: attr, queue: m1[name].queue.push(PersistEvent::PersistTableMetadata), ..m1[name] },
    )
}

/// The tables after a row of table `name` is deleted; nothing happens when
/// the table does not exist.
pub open spec fn after_delete_row(
    m: Map<Seq<char>, TableState>,
    name: Seq<char>,
    d: DeleteRowGrpcModel,
) -> Map<Seq<char>, TableState> {
    if m.contains_key(name) {
        let t = m[name];
        m.insert(
            name,
            TableState {
                rows: view_after_delete_row(t.rows, d.partition_key@, d.row_key@),
                queue: t.queue.push(delete_row_event(t.rows, d.partition_key, d.row_key)),
                ..t
            },
        )
    } else {
        m
    }
}

/// The tables after a row of table `name` is written; a missing table is
/// made first.
pub open spec fn after_write(
    m: Map<Seq<char>, TableState>,
    name: Seq<char>,
    w: InsertOrUpdateRowGrpcModel,
    now: i64,
) -> Map<Seq<char>, TableState> {
    let m1 = with_table(m, name, now);
    let t = m1[name];
    m1.insert(
        name,
        TableState {
            rows: view_after_insert(t.rows, w.partition_key@, w.row_key@, w.data@),
            queue: t.queue.push(
                PersistEvent::PersistRow { partition_key: w.partition_key, row_key: w.row_key },
            ),
            ..t
        },
    )
}

/// The tables after a partition of table `name` is deleted; nothing
/// happens when the table does not exist.
pub open spec fn after_delete_partition(
    m: Map<Seq<char>, TableState>,
    name: Seq<char>,
    partition_key: String,
) -> Map<Seq<char>, TableState> {
    if m.contains_key(name) {
        let t = m[name];
        m.insert(
            name,
            TableState {
                rows: t.rows.remove(partition_key@),
                queue: t.queue.push(PersistEvent::PersistPartition { partition_key }),
                ..t
            },
        )
    } else {
        m
    }
}

/// The tables after one request of the persistence stream, received at
/// `now`: its parts in the order settings, row deletion, row write,
/// partition deletion, each looking its table up for itself. Setting the
/// settings or writing a row makes a missing table with default settings;
/// a deletion for a table that does not exist (yet) does nothing.
pub open spec fn state_after_event(
    m: Map<Seq<char>, TableState>,
    event: PersistGrpcEvent,
    now: i64,
) -> Map<Seq<char>, TableState> {
    let name = event.table_name@;
    let m1 = match event.update_table_attributes {
        Some(a) => after_update_attributes(m, name, a.into_attributes_spec(), now),
        None => m,
    };
    let m2 = match event.delete_row {
        Some(d) => after_delete_row(m1, name, d),
        None => m1,
    };
    let m3 = match event.insert_or_update_row {
        Some(w) => after_write(m2, name, w, now),
        None => m2,
    };
    match event.delete_partition {
        Some(p) => after_delete_partition(m3, name, p.partition_key),
        None => m3,
    }
}

/// The tables after the requests `events`, in order, received at `now`.
pub open spec fn state_after_events(
    m: Map<Seq<char>, TableState>,
    events: Seq<PersistGrpcEvent>,
    now: i64,
) -> Map<Seq<char>, TableState>
    decreases events.len(),
{
    if events.len() == 0 {
        m
    } else {
        state_after_event(state_after_events(m, events.drop_last(), now), events.last(), now)
    }
}

/// The tables of the server by name, and the directory of their files.
pub struct Tables {
    pub sqlite_table_path: String,
    pub tables: SortedVecWithStrKey<TableEntry>,
}

impl Tables {
    /// Names are kept in order and every table is well formed.
    pub closed spec fn wf(&self) -> bool {
        &&& self.tables.wf()
        &&& forall|k: Seq<char>| #[trigger] self.tables.to_map().contains_key(k)
            ==> self.tables.to_map()[k].cache.wf()
    }

    /// The tables by name.
    pub closed spec fn state(&self) -> Map<Seq<char>, TableState> {
        self.tables.to_map().map_values(|e: TableEntry| state_of(e.cache))
    }

    /// The names of the tables, in ascending order.
    pub closed spec fn names(&self) -> Seq<Seq<char>> {
        self.tables@.map_values(|e: TableEntry| e.table_name@)
    }

    /// The names, in order, are those of the tables.
    pub proof fn lemma_names(&self)
        requires
            self.wf(),
        ensures
            self.names().to_set() == self.state().dom(),
            self.names().len() == self.state().dom().len(),
    {
        let s = self.tables@;
        assert forall|k: Seq<char>| self.names().to_set().contains(k) <==> self.state().dom().contains(k) by {
            if self.names().to_set().contains(k) {
                let j = choose|j: int| 0 <= j < self.names().len() && self.names()[j] == k;
                lemma_map_at(s, j);
            }
            if self.state().dom().contains(k) {
                let j = choose|j: int| 0 <= j < s.len() && #[trigger] s[j].key() == k;
                assert(self.names()[j] == k);
            }
        }
        assert(self.names().to_set() =~= self.state().dom());
        crate::sorted_vec::lemma_map_len(s);
        assert(self.state().dom() =~= self.tables.to_map().dom());
    }

    pub fn new(sqlite_table_path: String) -> (r: Self)
        ensures
            r.wf(),
            r.sqlite_table_path == sqlite_table_path,
            r.state() == Map::<Seq<char>, TableState>::empty(),
    {
        let r = Self { sqlite_table_path, tables: SortedVecWithStrKey::new() };
        assert(r.state() =~= Map::<Seq<char>, TableState>::empty());
        r
    }

    /// The table named `table_name`, if any.
    pub fn get_table(&self, table_name: &str) -> (r: Option<&TableCache>)
        requires
            self.wf(),
        ensures
            match r {
                Some(t) => self.state().contains_key(table_name@) && state_of(*t) == self.state()[table_name@]
                    && t.wf(),
                None => !self.state().contains_key(table_name@),
            },
    {
        match self.tables.get(table_name) {
            Some(e) => Some(&e.cache),
            None => None,
        }
    }

    /// Whether a table named `table_name` exists.
    pub fn contains_table(&self, table_name: &str) -> (r: bool)
        requires
            self.wf(),
        ensures
            r == self.state().contains_key(table_name@),
    {
        self.tables.contains_key(table_name)
    }

    /// The names of the tables, in ascending order.
    pub fn get_table_names(&self) -> (r: Vec<String>)
        requires
            self.wf(),
        ensures
            texts(r@) == self.names(),
    {
        let mut names: Vec<String> = Vec::new();
        let n = self.tables.len();
        let mut i: usize = 0;
        while i < n
            invariant
                n == self.tables@.len(),
                i <= n,
                texts(names@) == self.names().take(i as int),
            decreases n - i,
        {
            let ghost before = names@;
            names.push(self.tables.get_at(i).table_name.clone());
            assert(texts(names@) =~= texts(before).push(self.names()[i as int]));
            assert(self.names().take(i + 1) =~= self.names().take(i as int).push(self.names()[i as int]));
            i = i + 1;
        }
        assert(self.names().take(n as int) =~= self.names());
        names
    }

    /// The SQLite file of table `table_name`, in the directory of the tables.
    pub fn table_file_path(&self, table_name: &str) -> (r: String)
        ensures
            exists|separator: char|
                (separator == '/' || separator == '\\') && r@ == table_file_name(
                    self.sqlite_table_path@,
                    separator,
                    table_name@,
                ),
    {
        compile_sql_table_file_name(self.sqlite_table_path.as_str(), table_name)
    }

    /// Takes out the table named `table_name`, or makes a new one with the
    /// settings `meta` when there is none.
    fn take_entry(&mut self, table_name: &str, meta: DbTableAttributes) -> (r: TableEntry)
        requires
            old(self).wf(),
        ensures
            final(self).wf(),
            final(self).sqlite_table_path == old(self).sqlite_table_path,
            final(self).state() == old(self).state().remove(table_name@),
            r.table_name@ == table_name@,
            r.cache.wf(),
            state_of(r.cache) == if old(self).state().contains_key(table_name@) {
                old(self).state()[table_name@]
            } else {
                new_table_state(meta)
            },
    {
        let ghost before = self.state();
        let ghost old_map = self.tables.to_map();
        let r = match self.tables.remove(table_name) {
            Some(e) => e,
            None => TableEntry { table_name: table_name.to_string(), cache: TableCache::new(meta) },
        };
        assert(self.state() =~= before.remove(table_name@));
        assert forall|k: Seq<char>| #[trigger] self.tables.to_map().contains_key(k) implies self.tables.to_map()[k].cache.wf() by {
            assert(old_map.contains_key(k));
        }
        r
    }

    /// Puts a table back under its name.
    fn put_entry(&mut self, entry: TableEntry)
        requires
            old(self).wf(),
            entry.cache.wf(),
        ensures
            final(self).wf(),
            final(self).sqlite_table_path == old(self).sqlite_table_path,
            final(self).state() == old(self).state().insert(entry.table_name@, state_of(entry.cache)),
    {
        let ghost before = self.state();
        let ghost old_map = self.tables.to_map();
        let ghost key = entry.table_name@;
        let ghost st = state_of(entry.cache);
        let ghost e = entry;
        self.tables.insert_or_replace(entry);
        assert(self.state() =~= before.insert(key, st));
        assert forall|k: Seq<char>| #[trigger] self.tables.to_map().contains_key(k) implies self.tables.to_map()[k].cache.wf() by {
            if k != key {
                assert(old_map.contains_key(k));
            }
        }
    }

    /// The table named `table_name`, made with default settings at `now`
    /// when it does not exist.
    pub fn get_or_create_table(&mut self, table_name: &str, now: i64)
        requires
            old(self).wf(),
        ensures
            final(self).wf(),
            final(self).sqlite_table_path == old(self).sqlite_table_path,
            final(self).state() == if old(self).state().contains_key(table_name@) {
                old(self).state()
            } else {
                old(self).state().insert(table_name@, new_table_state(default_attributes(now)))
            },
    {
        let ghost before = self.state();
        let entry = self.take_entry(table_name, DbTableAttributes::create_default(now));
        self.put_entry(entry);
        assert(self.state() =~= if before.contains_key(table_name@) {
            before
        } else {
            before.insert(table_name@, new_table_state(default_attributes(now)))
        });
    }

    /// Sets the settings of table `table_name`, made with those settings
    /// when it does not exist.
    pub fn restore_table(&mut self, table_name: &str, meta_data: DbTableAttributes)
        requires
            old(self).wf(),
        ensures
            final(self).wf(),
            final(self).sqlite_table_path == old(self).sqlite_table_path,
            final(self).state() == old(self).state().insert(
                table_name@,
                if old(self).state().contains_key(table_name@) {
                    TableState { meta: meta_data, ..old(self).state()[table_name@] }
                } else {
                    new_table_state(meta_data)
                },
            ),
    {
        let ghost before = self.state();
        let mut entry = self.take_entry(table_name, meta_data);
        entry.cache.meta_data = meta_data;
        self.put_entry(entry);
        assert(self.state() =~= before.insert(
            table_name@,
            if before.contains_key(table_name@) {
                TableState { meta: meta_data, ..before[table_name@] }
            } else {
                new_table_state(meta_data)
            },
        ));
    }

    /// Writes the rows `db_rows` of table `table_name` one after the other;
    /// the table is made with default settings at `now` when it does not exist.
    pub fn restore_records(&mut self, table_name: &str, db_rows: Vec<DbRowDto>, now: i64)
        requires
            old(self).wf(),
        ensures
            final(self).wf(),
            final(self).sqlite_table_path == old(self).sqlite_table_path,
            ({
                let base = if old(self).state().contains_key(table_name@) {
                    old(self).state()[table_name@]
                } else {
                    new_table_state(default_attributes(now))
                };
                final(self).state() == old(self).state().insert(
                    table_name@,
                    TableState { rows: view_after_rows(base.rows, db_rows@), ..base },
                )
            }),
    {
        let ghost before = self.state();
        let mut entry = self.take_entry(table_name, DbTableAttributes::create_default(now));
        entry.cache.insert_records(db_rows);
        self.put_entry(entry);
    }

    /// Sets the settings of table `table_name` and queues them to persist;
    /// a missing table is made with default settings at `now` first.
    fn update_attributes(&mut self, table_name: &str, attr: DbTableAttributes, now: i64)
        requires
            old(self).wf(),
        ensures
            final(self).wf(),
            final(self).sqlite_table_path == old(self).sqlite_table_path,
            final(self).state() == after_update_attributes(old(self).state(), table_name@, attr, now),
    {
        let ghost before = self.state();
        let mut entry = self.take_entry(table_name, DbTableAttributes::create_default(now));
        handle_update_table_metadata(&mut entry.cache, attr);
        self.put_entry(entry);
        assert(self.state() =~= after_update_attributes(before, table_name@, attr, now));
    }

    /// Deletes a row of table `table_name`; nothing happens when the table
    /// does not exist.
    fn delete_row(&mut self, table_name: &str, delete_row: DeleteRowGrpcModel, now: i64)
        requires
            old(self).wf(),
        ensures
            final(self).wf(),
            final(self).sqlite_table_path == old(self).sqlite_table_path,
            final(self).state() == after_delete_row(old(self).state(), table_name@, delete_row),
    {
        if self.contains_table(table_name) {
            let ghost before = self.state();
            let ghost d = delete_row;
            let mut entry = self.take_entry(table_name, DbTableAttributes::create_default(now));
            handle_delete_row(&mut entry.cache, delete_row);
            self.put_entry(entry);
            assert(self.state() =~= after_delete_row(before, table_name@, d));
        }
    }

    /// Writes a row of table `table_name`; a missing table is made with
    /// default settings at `now` first.
    fn write_row(&mut self, table_name: &str, write: InsertOrUpdateRowGrpcModel, now: i64)
        requires
            old(self).wf(),
        ensures
            final(self).wf(),
            final(self).sqlite_table_path == old(self).sqlite_table_path,
            final(self).state() == after_write(old(self).state(), table_name@, write, now),
    {
        let ghost before = self.state();
        let ghost w = write;
        let mut entry = self.take_entry(table_name, DbTableAttributes::create_default(now));
        handle_insert_or_update(&mut entry.cache, write);
        self.put_entry(entry);
        assert(self.state() =~= after_write(before, table_name@, w, now));
    }

    /// Deletes a partition of table `table_name`; nothing happens when the
    /// table does not exist.
    fn delete_partition(&mut self, table_name: &str, partition_key: String, now: i64)
        requires
            old(self).wf(),
        ensures
            final(self).wf(),
            final(self).sqlite_table_path == old(self).sqlite_table_path,
            final(self).state() == after_delete_partition(old(self).state(), table_name@, partition_key),
    {
        if self.contains_table(table_name) {
            let ghost before = self.state();
            let ghost pk = partition_key;
            let mut entry = self.take_entry(table_name, DbTableAttributes::create_default(now));
            handle_delete_partition(&mut entry.cache, partition_key);
            self.put_entry(entry);
            assert(self.state() =~= after_delete_partition(before, table_name@, pk));
        }
    }

    /// Applies the requests of the persistence stream in order, each to its
    /// table (see `state_after_event`); `now` is when they were received.
    pub fn handle_persist_events(&mut self, events: Vec<PersistGrpcEvent>, now: i64)
        requires
            old(self).wf(),
        ensures
            final(self).wf(),
            final(self).sqlite_table_path == old(self).sqlite_table_path,
            final(self).state() == state_after_events(old(self).state(), events@, now),
    {
        let ghost start = self.state();
        let ghost all = events@;
        let n = events.len();
        let mut events = events;
        let mut i: usize = 0;
        while i < n
            invariant
                self.wf(),
                self.sqlite_table_path == old(self).sqlite_table_path,
                n == all.len(),
                i <= n,
                events@ == all.subrange(i as int, n as int),
                self.state() == state_after_events(start, all.take(i as int), now),
            decreases n - i,
        {
            let ghost before = self.state();
            let mut event = events.remove(0);
            let ghost ev = event;
            assert(event == all[i as int]);
            assert(events@ =~= all.subrange(i + 1, n as int));
            assert(all.take(i + 1).drop_last() =~= all.take(i as int));
            if let Some(table_attributes) = event.update_table_attributes.take() {
                self.update_attributes(event.table_name.as_str(), table_attributes.into_attributes(), now);
            }
            if let Some(delete_row) = event.delete_row.take() {
                self.delete_row(event.table_name.as_str(), delete_row, now);
            }
            if let Some(insert_or_update) = event.insert_or_update_row.take() {
                self.write_row(event.table_name.as_str(), insert_or_update, now);
            }
            if let Some(delete_partition) = event.delete_partition.take() {
                self.delete_partition(event.table_name.as_str(), delete_partition.partition_key, now);
            }
            assert(self.state() == state_after_event(before, ev, now));
            i = i + 1;
        }
        assert(all.take(n as int) =~= all);
    }
}

/// A file of a table in the legacy store, as loaded and decoded.
pub enum TableFileContent {
    /// The settings file: the settings it holds, absent when the store has
    /// no content for it.
    Attributes(Option<DbTableAttributes>),
    /// The file of a partition: absent when the store has no content for
    /// it, else its rows or why they could not be decoded.
    Partition { partition_key: String, rows: Option<Result<Vec<DbRowDto>, String>> },
}

/// The partition file holds content that could not be decoded.
pub open spec fn is_broken_partition(file: TableFileContent) -> bool {
    file matches TableFileContent::Partition { rows: Some(Err(_)), .. }
}

impl Tables {
    /// Takes in a loaded file of table `table_name` at `now`: settings set
    /// the table's settings (defaults when the file had no content), rows
    /// are written one after the other; a partition file without content,
    /// or a broken one while `skip_broken_partitions` is set, changes
    /// nothing. Each makes a missing table with default settings first.
    pub fn restore_table_file(
        &mut self,
        table_name: &str,
        file: TableFileContent,
        skip_broken_partitions: bool,
        now: i64,
    )
        requires
            old(self).wf(),
            is_broken_partition(file) ==> skip_broken_partitions,
        ensures
            final(self).wf(),
            final(self).sqlite_table_path == old(self).sqlite_table_path,
            match file {
                TableFileContent::Attributes(attrs) => {
                    let meta = match attrs {
                        Some(a) => a,
                        None => default_attributes(now),
                    };
                    final(self).state() == old(self).state().insert(
                        table_name@,
                        if old(self).state().contains_key(table_name@) {
                            TableState { meta, ..old(self).state()[table_name@] }
                        } else {
                            new_table_state(meta)
                        },
                    )
                },
                TableFileContent::Partition { rows: Some(Ok(rows)), .. } => {
                    let base = if old(self).state().contains_key(table_name@) {
                        old(self).state()[table_name@]
                    } else {
                        new_table_state(default_attributes(now))
                    };
                    final(self).state() == old(self).state().insert(
                        table_name@,
                        TableState { rows: view_after_rows(base.rows, rows@), ..base },
                    )
                },
                _ => final(self).state() == old(self).state(),
            },
    {
        match file {
            TableFileContent::Attributes(attrs) => {
                let meta = match attrs {
                    Some(a) => a,
                    None => DbTableAttributes::create_default(now),
                };
                self.restore_table(table_name, meta);
            },
            TableFileContent::Partition { partition_key: _, rows } => {
                match rows {
                    Some(Ok(rows)) => {
                        self.restore_records(table_name, rows, now);
                    },
                    _ => {},
                }
            },
        }
    }
}

/// A request that only deletes, addressed to a table that does not exist,
/// changes no table.
pub proof fn law_deletes_do_not_create_tables(m: Map<Seq<char>, TableState>, event: PersistGrpcEvent, now: i64)
    requires
        !m.contains_key(event.table_name@),
        event.update_table_attributes is None,
        event.insert_or_update_row is None,
    ensures
        state_after_event(m, event, now) == m,
{
}

/// A row deletion for a table that does not exist before the request, and
/// that the request's settings do not create, is dropped: the request acts
/// as if it had no row deletion.
pub proof fn law_delete_for_missing_table_is_dropped(
    m: Map<Seq<char>, TableState>,
    event: PersistGrpcEvent,
    now: i64,
)
    requires
        !m.contains_key(event.table_name@),
        event.update_table_attributes is None,
    ensures
        state_after_event(m, event, now) == state_after_event(
            m,
            PersistGrpcEvent { delete_row: None, ..event },
            now,
        ),
{
}

/// A row written by a request can be read back from its table afterwards,
/// unless the same request deletes the row's partition.
pub proof fn law_written_row_is_read_back(m: Map<Seq<char>, TableState>, event: PersistGrpcEvent, now: i64)
    requires
        event.insert_or_update_row is Some,
        event.delete_partition matches Some(p) ==> p.partition_key@ != event.insert_or_update_row.unwrap().partition_key@,
    ensures
        ({
            let w = event.insert_or_update_row.unwrap();
            let after = state_after_event(m, event, now);
            &&& after.contains_key(event.table_name@)
            &&& after[event.table_name@].rows.contains_key(w.partition_key@)
            &&& after[event.table_name@].rows[w.partition_key@].contains_key(w.row_key@)
            &&& after[event.table_name@].rows[w.partition_key@][w.row_key@] == w.data@
        }),
{
}

/// Requests addressed to other tables leave a table as it is.
pub proof fn law_other_tables_untouched(
    m: Map<Seq<char>, TableState>,
    events: Seq<PersistGrpcEvent>,
    now: i64,
    name: Seq<char>,
)
    requires
        forall|i: int| 0 <= i < events.len() ==> (#[trigger] events[i]).table_name@ != name,
    ensures
        state_after_events(m, events, now).contains_key(name) == m.contains_key(name),
        m.contains_key(name) ==> state_after_events(m, events, now)[name] == m[name],
    decreases events.len(),
{
    if events.len() > 0 {
        assert forall|i: int| 0 <= i < events.drop_last().len() implies (#[trigger] events.drop_last()[i]).table_name@ != name by {
            assert(events.drop_last()[i] == events[i]);
        }
        law_other_tables_untouched(m, events.drop_last(), now, name);
        assert(events.last() == events[events.len() - 1]);
    }
}

} // verus!
