use vstd::prelude::*;

use crate::sorted_vec::{lemma_map_at, EntityWithStrKey, SortedVecWithStrKey};

verus! {

/// A table file taken from the archive: its name and its content.
pub struct InitFromArchiveContent {
    pub file_name: String,
    pub content: Vec<u8>,
}

/// The files of one table, in the order of the archive.
pub struct TableArchiveContents {
    pub table_name: String,
    pub contents: Vec<InitFromArchiveContent>,
}

impl EntityWithStrKey for TableArchiveContents {
    open spec fn key(&self) -> Seq<char> {
        self.table_name@
    }

    fn get_key(&self) -> (r: &str) {
        self.table_name.as_str()
    }
}

/// The files as (file name, content), in order.
pub open spec fn contents_view(v: Seq<InitFromArchiveContent>) -> Seq<(Seq<char>, Seq<u8>)> {
    v.map_values(|c: InitFromArchiveContent| (c.file_name@, c.content@))
}

/// The grouped files after `file` of table `table` with `content` is added.
pub open spec fn archive_after(
    m: Map<Seq<char>, Seq<(Seq<char>, Seq<u8>)>>,
    table: Seq<char>,
    file: Seq<char>,
    content: Seq<u8>,
) -> Map<Seq<char>, Seq<(Seq<char>, Seq<u8>)>> {
    m.insert(
        table,
        (if m.contains_key(table) {
            m[table]
        } else {
            Seq::empty()
        }).push((file, content)),
    )
}

/// The table files of a legacy archive: those still to load, grouped by
/// table in order of table names, and the names of the tables loaded.
pub struct InitFromArchiveState {
    pub to_load: SortedVecWithStrKey<TableArchiveContents>,
    pub loaded: Vec<String>,
}

impl InitFromArchiveState {
    pub open spec fn wf(&self) -> bool {
        self.to_load.wf()
    }

    /// The files still to load, by table.
    pub open spec fn to_load_view(&self) -> Map<Seq<char>, Seq<(Seq<char>, Seq<u8>)>> {
        self.to_load.to_map().map_values(|t: TableArchiveContents| contents_view(t.contents@))
    }

    pub fn new() -> (r: Self)
        ensures
            r.wf(),
            r.to_load_view() == Map::<Seq<char>, Seq<(Seq<char>, Seq<u8>)>>::empty(),
            r.loaded@ == Seq::<String>::empty(),
    {
        let r = Self { to_load: SortedVecWithStrKey::new(), loaded: Vec::new() };
        assert(r.to_load_view() =~= Map::<Seq<char>, Seq<(Seq<char>, Seq<u8>)>>::empty());
        r
    }

    /// Adds a file to load to its table.
    pub fn add_content(&mut self, table_name: String, content: InitFromArchiveContent)
        requires
            old(self).wf(),
        ensures
            final(self).wf(),
            final(self).to_load_view() == archive_after(
                old(self).to_load_view(),
                table_name@,
                content.file_name@,
                content.content@,
            ),
            final(self).loaded == old(self).loaded,
    {
        let ghost before = self.to_load_view();
        let ghost file = content.file_name@;
        let ghost bytes = content.content@;
        let mut table = match self.to_load.remove(table_name.as_str()) {
            Some(t) => t,
            None => TableArchiveContents { table_name, contents: Vec::new() },
        };
        let ghost prev = table.contents@;
        table.contents.push(content);
        assert(contents_view(table.contents@) =~= contents_view(prev).push((file, bytes)));
        let ghost key = table.table_name@;
        self.to_load.insert_or_replace(table);
        assert(contents_view(Seq::<InitFromArchiveContent>::empty()) =~= Seq::<(Seq<char>, Seq<u8>)>::empty());
        assert(self.to_load_view() =~= archive_after(before, key, file, bytes));
    }

    /// Takes out the table with the smallest name and its files.
    pub fn pop_first(&mut self) -> (r: Option<(String, Vec<InitFromArchiveContent>)>)
        requires
            old(self).wf(),
        ensures
            final(self).wf(),
            final(self).loaded == old(self).loaded,
            old(self).to_load@.len() == 0 ==> r is None && final(self).to_load@ == old(self).to_load@,
            old(self).to_load@.len() > 0 ==> {
                &&& r matches Some((name, contents)) && name == old(self).to_load@[0].table_name
                    && contents == old(self).to_load@[0].contents
                &&& final(self).to_load@ == old(self).to_load@.drop_first()
                &&& final(self).to_load_view() == old(self).to_load_view().remove(old(self).to_load@[0].table_name@)
            },
    {
        if self.to_load.len() == 0 {
            return None;
        }
        let ghost before = self.to_load_view();
        let t = self.to_load.remove_at(0);
        assert(self.to_load@ =~= old(self).to_load@.drop_first());
        assert(self.to_load_view() =~= before.remove(t.table_name@));
        Some((t.table_name, t.contents))
    }

    /// Notes that a table was loaded.
    pub fn mark_loaded(&mut self, table_name: String)
        ensures
            final(self).loaded@ == old(self).loaded@.push(table_name),
            final(self).to_load == old(self).to_load,
    {
        self.loaded.push(table_name);
    }
}

} // verus!
