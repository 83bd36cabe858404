//! Reconciliation of two tables in the same database: one templated query
//! compares them there, and its rows are the result.
use std::collections::HashMap;
use vstd::prelude::*;
use crate::config::DiffConfig;
use crate::differ::DiffError;
use crate::store::{
    builder_holds, is_store_error, single_store_query, store_for, try_get_store, PostgresStoreBuilder,
    SingleStoreQuery,
};
use crate::text::{uppercase, uppercase_all};

verus! {

/// A reconciliation inside one database.
pub struct SingleStoreDiffer {
    config: DiffConfig,
}

/// What a single-store diff needs run: the store, and the values of its query template.
pub struct SingleStorePlan {
    pub store: PostgresStoreBuilder,
    pub query: SingleStoreQuery,
}

impl SingleStoreDiffer {
    /// The configuration this differ runs.
    pub closed spec fn diff_config(&self) -> DiffConfig {
        self.config
    }

    pub fn new(config: DiffConfig) -> (r: Self)
        ensures
            r.diff_config() == config,
    {
        Self { config }
    }

    /// The configuration this differ runs.
    pub fn config(&self) -> (r: &DiffConfig)
        ensures
            *r == self.diff_config(),
    {
        &self.config
    }

    /// The store named by the left side's connection URI, and the query values of a
    /// diff of the left table against the right one.
    pub fn diff(&self, _params: HashMap<String, String>) -> (r: Result<SingleStorePlan, DiffError>)
        ensures
            match store_for(self.diff_config().left.connection_uri@) {
                Err(why) => r matches Err(x) && is_store_error(x, why),
                Ok(c) => r matches Ok(p) && builder_holds(p.store, c) && {
                    let left = self.diff_config().left;
                    let right = self.diff_config().right;
                    &&& p.query.left.table@ == left.table@ && p.query.right.table@ == right.table@
                    &&& p.query.left.alias@ == uppercase(left.alias@)
                    &&& p.query.right.alias@ == uppercase(right.alias@)
                    &&& p.query.left.key.deep_view() == uppercase_all(left.key.deep_view())
                    &&& p.query.right.key.deep_view() == uppercase_all(right.key.deep_view())
                    &&& p.query.left.compare_fields.deep_view() == uppercase_all(left.compare_fields.deep_view())
                    &&& p.query.right.compare_fields.deep_view() == uppercase_all(right.compare_fields.deep_view())
                    &&& p.query.left.satellite_fields.deep_view() == uppercase_all(left.satellite_fields.deep_view())
                    &&& p.query.right.satellite_fields.deep_view() == uppercase_all(right.satellite_fields.deep_view())
                    &&& p.query.left.filter_conditions.deep_view() == left.filter_conditions.deep_view()
                    &&& p.query.right.filter_conditions.deep_view() == right.filter_conditions.deep_view()
                },
            },
    {
        let store = try_get_store(&self.config.left)?;
        let query = single_store_query(&self.config.left, &self.config.right);
        Ok(SingleStorePlan { store, query })
    }
}

} // verus!
