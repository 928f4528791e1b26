use vstd::prelude::*;

use crate::table_metrics::{table_model, DbTableMetrics, TableModel};

verus! {

/// Where the server runs.
pub struct LocationModel {
    pub id: String,
}

/// The bar of the status page: location, work waiting to be persisted,
/// number of tables, master node.
pub struct StatusBarModel {
    pub location: LocationModel,
    pub persist_amount: usize,
    pub tables_amount: usize,
    pub master_node: Option<String>,
}

impl StatusBarModel {
    pub fn new(location: String, persist_amount: usize, tables_amount: usize) -> (r: Self)
        ensures
            r.location.id == location,
            r.persist_amount == persist_amount,
            r.tables_amount == tables_amount,
            r.master_node is None,
    {
        Self { master_node: None, location: LocationModel { id: location }, persist_amount, tables_amount }
    }
}

/// The progress of a start-up that is not finished.
pub struct NonInitializedModel {
    pub tables_total: usize,
    pub tables_loaded: usize,
    pub files_total: usize,
    pub files_loaded: usize,
    /// Seconds since the server started.
    pub loading_time: i64,
}

/// The tables of a started server.
pub struct InitializedModel {
    pub tables: Vec<TableModel>,
}

impl InitializedModel {
    pub fn new(tables: Vec<TableModel>) -> (r: Self)
        ensures
            r.tables == tables,
    {
        Self { tables }
    }
}

/// The status page: the start-up progress while the server is not started,
/// else its tables; and the status bar.
pub struct StatusModel {
    pub not_initialized: Option<NonInitializedModel>,
    pub initialized: Option<InitializedModel>,
    pub status_bar: StatusBarModel,
}

/// `models` are the status of the tables `tables`, in order.
pub open spec fn models_of(models: Seq<TableModel>, tables: Seq<(String, DbTableMetrics)>) -> bool {
    &&& models.len() == tables.len()
    &&& forall|j: int| 0 <= j < models.len() ==> #[trigger] models[j] == table_model(tables[j].0, tables[j].1)
}

impl StatusModel {
    /// The status page of a server with the tables `tables` (each with its
    /// figures): their status when it is started, else `not_initialized`;
    /// the bar shows `location`, `persist_amount` and the number of tables.
    pub fn new(
        tables: Vec<(String, DbTableMetrics)>,
        is_initialized: bool,
        not_initialized: NonInitializedModel,
        location: String,
        persist_amount: usize,
    ) -> (r: Self)
        ensures
            r.status_bar.location.id == location,
            r.status_bar.persist_amount == persist_amount,
            r.status_bar.tables_amount == tables@.len(),
            r.status_bar.master_node is None,
            is_initialized ==> r.not_initialized is None && (r.initialized matches Some(m) && models_of(m.tables@, tables@)),
            !is_initialized ==> r.initialized is None && r.not_initialized == Some(not_initialized),
    {
        let tables_amount = tables.len();
        let status_bar = StatusBarModel::new(location, persist_amount, tables_amount);
        if !is_initialized {
            return Self { not_initialized: Some(not_initialized), initialized: None, status_bar };
        }
        let ghost all = tables@;
        let n = tables.len();
        let mut tables = tables;
        let mut models: Vec<TableModel> = Vec::new();
        let mut i: usize = 0;
        while i < n
            invariant
                n == all.len(),
                i <= n,
                tables@ == all.subrange(i as int, n as int),
                models_of(models@, all.take(i as int)),
            decreases n - i,
        {
            let (name, metrics) = tables.remove(0);
            assert(all[i as int] == (name, metrics));
            assert(tables@ =~= all.subrange(i + 1, n as int));
            models.push(TableModel::from_metrics(name, metrics));
            assert forall|j: int| 0 <= j < models@.len() implies #[trigger] models@[j] == table_model(
                all.take(i + 1)[j].0,
                all.take(i + 1)[j].1,
            ) by {
                if j < i {
                    assert(all.take(i + 1)[j] == all.take(i as int)[j]);
                }
            }
            i = i + 1;
        }
        assert(all.take(n as int) =~= all);
        Self { not_initialized: None, initialized: Some(InitializedModel::new(models)), status_bar }
    }
}

} // verus!
