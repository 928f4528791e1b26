use vstd::prelude::*;

use crate::row_data::RawData;
use crate::sorted_vec::{lemma_map_at, EntityWithStrKey, SortedVecWithStrKey};

verus! {

/// The rows of a partition by their keys, each with its content.
pub open spec fn rows_view(rows: Map<Seq<char>, RawData>) -> Map<Seq<char>, Seq<char>> {
    rows.map_values(|r: RawData| r.content@)
}

/// The rows of one partition, in ascending order of their keys.
pub struct PartitionData {
    pub partition_key: String,
    pub rows: SortedVecWithStrKey<RawData>,
}

impl EntityWithStrKey for PartitionData {
    open spec fn key(&self) -> Seq<char> {
        self.partition_key@
    }

    fn get_key(&self) -> (r: &str) {
        self.partition_key.as_str()
    }
}

impl PartitionData {
    pub open spec fn wf(&self) -> bool {
        self.rows.wf()
    }

    /// The contents of the rows by their keys.
    pub open spec fn view_rows(&self) -> Map<Seq<char>, Seq<char>> {
        rows_view(self.rows.to_map())
    }

    /// An empty partition.
    pub fn new(partition_key: String) -> (r: Self)
        ensures
            r.wf(),
            r.partition_key == partition_key,
            r.rows@ == Seq::<RawData>::empty(),
            r.view_rows() == Map::<Seq<char>, Seq<char>>::empty(),
    {
        let r = Self { partition_key, rows: SortedVecWithStrKey::new() };
        assert(r.view_rows() =~= Map::<Seq<char>, Seq<char>>::empty());
        r
    }

    /// Sets the content of row `row_key`, adding the row when it is new.
    pub fn insert_or_update(&mut self, row_key: String, content: String)
        requires
            old(self).wf(),
        ensures
            final(self).wf(),
            final(self).partition_key == old(self).partition_key,
            final(self).view_rows() == old(self).view_rows().insert(row_key@, content@),
            final(self).rows@.len() > 0,
    {
        let ghost old_rows = self.rows.to_map();
        match self.rows.find(row_key.as_str()) {
            Ok(i) => {
                self.rows.replace_at(i, RawData::new(row_key, content));
            },
            Err(i) => {
                self.rows.insert_at(i, RawData::new(row_key, content));
            },
        }
        assert(self.view_rows() =~= rows_view(old_rows).insert(row_key@, content@));
    }

    /// Removes row `row_key`, if present; returns how many rows remain.
    pub fn remove_row(&mut self, row_key: &str) -> (r: usize)
        requires
            old(self).wf(),
        ensures
            final(self).wf(),
            final(self).partition_key == old(self).partition_key,
            final(self).view_rows() == old(self).view_rows().remove(row_key@),
            r == final(self).rows@.len(),
    {
        let ghost old_rows = self.rows.to_map();
        self.rows.remove(row_key);
        assert(self.view_rows() =~= rows_view(old_rows).remove(row_key@));
        self.rows.len()
    }
}

} // verus!
