use vstd::prelude::*;

verus! {

/// The settings of a table.
#[derive(Clone, Copy, Debug)]
pub struct DbTableAttributes {
    pub persist: bool,
    pub max_partitions_amount: Option<usize>,
    pub max_rows_per_partition_amount: Option<usize>,
    /// Creation moment, unix microseconds.
    pub created: i64,
}

/// The settings of a table created at `now`: persisted, without limits.
pub open spec fn default_attributes(now: i64) -> DbTableAttributes {
    DbTableAttributes {
        persist: true,
        max_partitions_amount: None,
        max_rows_per_partition_amount: None,
        created: now,
    }
}

impl DbTableAttributes {
    /// The settings of a table created at `now`: persisted, without limits.
    pub fn create_default(now: i64) -> (r: Self)
        ensures
            r == default_attributes(now),
    {
        Self {
            persist: true,
            max_partitions_amount: None,
            max_rows_per_partition_amount: None,
            created: now,
        }
    }
}

/// New table settings as a persistence request carries them.
pub struct UpdateTableAttributesGrpcModel {
    pub persist: bool,
    pub max_partitions_amount: Option<i32>,
    pub max_rows_per_partition: Option<i32>,
    pub created: i64,
}

/// `x as usize` of an optional limit.
pub open spec fn limit_as_usize(x: Option<i32>) -> Option<usize> {
    match x {
        Some(v) => Some(v as usize),
        None => None,
    }
}

impl UpdateTableAttributesGrpcModel {
    /// The table settings that the request describes.
    pub open spec fn into_attributes_spec(self) -> DbTableAttributes {
        DbTableAttributes {
            persist: self.persist,
            max_partitions_amount: limit_as_usize(self.max_partitions_amount),
            max_rows_per_partition_amount: limit_as_usize(self.max_rows_per_partition),
            created: self.created,
        }
    }

    /// The table settings that the request describes.
    pub fn into_attributes(self) -> (r: DbTableAttributes)
        ensures
            r == self.into_attributes_spec(),
    {
        DbTableAttributes {
            persist: self.persist,
            max_partitions_amount: match self.max_partitions_amount {
                Some(x) => Some(x as usize),
                None => None,
            },
            max_rows_per_partition_amount: match self.max_rows_per_partition {
                Some(x) => Some(x as usize),
                None => None,
            },
            created: self.created,
        }
    }
}

} // verus!
