use vstd::prelude::*;

use crate::sorted_vec::EntityWithStrKey;

verus! {

/// A stored row: its key and its content.
pub struct RawData {
    pub row_key: String,
    pub content: String,
}

impl RawData {
    pub fn new(row_key: String, content: String) -> (r: Self)
        ensures
            r.row_key == row_key,
            r.content == content,
    {
        Self { row_key, content }
    }
}

impl EntityWithStrKey for RawData {
    open spec fn key(&self) -> Seq<char> {
        self.row_key@
    }

    fn get_key(&self) -> (r: &str) {
        self.row_key.as_str()
    }
}

} // verus!
