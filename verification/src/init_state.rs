use vstd::prelude::*;

use crate::sorted_vec::{EntityWithStrKey, SortedVecWithStrKey};

verus! {

/// A table whose files are being loaded, with the handle of its listing of
/// files; `H` is that handle.
pub struct TableLoading<H> {
    pub table_name: String,
    pub files: H,
}

impl<H> EntityWithStrKey for TableLoading<H> {
    open spec fn key(&self) -> Seq<char> {
        self.table_name@
    }

    fn get_key(&self) -> (r: &str) {
        self.table_name.as_str()
    }
}

/// The progress of the start-up from the legacy store: tables still to
/// load (taken from the end), tables loading by name, tables loaded in the
/// order they finished.
pub struct InitState<H> {
    pub tables_to_load: Vec<String>,
    pub tables_loading: SortedVecWithStrKey<TableLoading<H>>,
    pub tables_loaded: Vec<String>,
}

impl<H> InitState<H> {
    pub open spec fn wf(&self) -> bool {
        self.tables_loading.wf()
    }

    /// The tables loading, by name, each with its handle.
    pub open spec fn loading(&self) -> Map<Seq<char>, H> {
        self.tables_loading.to_map().map_values(|t: TableLoading<H>| t.files)
    }

    pub fn new() -> (r: Self)
        ensures
            r.wf(),
            r.tables_to_load@ == Seq::<String>::empty(),
            r.loading() == Map::<Seq<char>, H>::empty(),
            r.tables_loaded@ == Seq::<String>::empty(),
    {
        let r = Self {
            tables_to_load: Vec::new(),
            tables_loading: SortedVecWithStrKey::new(),
            tables_loaded: Vec::new(),
        };
        assert(r.loading() =~= Map::<Seq<char>, H>::empty());
        r
    }

    /// Takes the last table still to load and notes it as loading with the
    /// handle `files`; `None` when no table is left.
    pub fn take_next_table(&mut self, files: H) -> (r: Option<String>)
        requires
            old(self).wf(),
        ensures
            final(self).wf(),
            final(self).tables_loaded == old(self).tables_loaded,
            old(self).tables_to_load@.len() == 0 ==> r is None && final(self).tables_to_load@
                == old(self).tables_to_load@ && final(self).loading() == old(self).loading(),
            old(self).tables_to_load@.len() > 0 ==> {
                &&& r == Some(old(self).tables_to_load@.last())
                &&& final(self).tables_to_load@ == old(self).tables_to_load@.drop_last()
                &&& final(self).loading() == old(self).loading().insert(
                    old(self).tables_to_load@.last()@,
                    files,
                )
            },
    {
        match self.tables_to_load.pop() {
            None => None,
            Some(table_name) => {
                let ghost before = self.loading();
                let entry = TableLoading { table_name: table_name.clone(), files };
                self.tables_loading.insert_or_replace(entry);
                assert(self.loading() =~= before.insert(table_name@, files));
                Some(table_name)
            },
        }
    }

    /// Notes that a table finished loading: it leaves the tables loading
    /// and comes last among those loaded.
    pub fn finish_table(&mut self, table_name: String)
        requires
            old(self).wf(),
        ensures
            final(self).wf(),
            final(self).tables_to_load == old(self).tables_to_load,
            final(self).loading() == old(self).loading().remove(table_name@),
            final(self).tables_loaded@ == old(self).tables_loaded@.push(table_name),
    {
        let ghost before = self.loading();
        self.tables_loading.remove(table_name.as_str());
        assert(self.loading() =~= before.remove(table_name@));
        self.tables_loaded.push(table_name);
    }
}

} // verus!
