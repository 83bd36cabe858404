//! The entry point of a reconciliation: which strategy a configuration calls for,
//! and the shape of what a reconciliation produces.
use std::collections::HashMap;
use vstd::prelude::*;
use crate::config::DiffConfig;
use crate::store::DsnPart;

verus! {

/// The outcome of a reconciliation: column headers and one row of text per difference.
#[derive(Debug)]
pub struct DiffResult {
    pub headers: Vec<String>,
    pub rows: Vec<Vec<String>>,
}

/// Why a reconciliation step could not go on.
#[derive(Debug)]
pub enum DiffError {
    /// The connection URI is not a well-formed data source name; the parser's own
    /// error says why.
    InvalidDsn(dsn::ParseError),
    /// The connection URL of a store is refused by the Postgres client; its error says why.
    InvalidConnection(tokio_postgres::Error),
    /// The connection URI lacks a part that a store needs.
    MissingDsnPart(DsnPart),
    /// A query that must return a row returned none.
    NoRows,
    /// A fetched row lacks a column that the result needs.
    MissingField,
    /// A table is configured without a key column.
    EmptyKey,
    /// An event came that the current state does not expect.
    UnexpectedEvent,
}

/// Which way a reconciliation runs.
#[derive(Debug, PartialEq, Eq, Structural)]
pub enum DiffRoute {
    /// Both tables live in one database: one query compares them there.
    SingleStore,
    /// The tables live in different databases: each side is summarised and fetched apart.
    MultiStore,
}

/// A reconciliation as configured.
#[derive(Debug)]
pub struct Differ {
    config: DiffConfig,
}

impl Differ {
    /// The configuration this differ runs.
    pub closed spec fn diff_config(&self) -> DiffConfig {
        self.config
    }

    pub fn new(config: DiffConfig) -> (r: Self)
        ensures
            r.diff_config() == config,
    {
        Self { config }
    }

    /// The configuration this differ runs.
    pub fn config(&self) -> (r: &DiffConfig)
        ensures
            *r == self.diff_config(),
    {
        &self.config
    }

    /// Chooses how to reconcile: in a single store when both sides share a
    /// connection URI, across two stores otherwise.
    pub fn diff(&self, _params: HashMap<String, String>) -> (r: DiffRoute)
        ensures
            r == (if self.diff_config().left.connection_uri@ == self.diff_config().right.connection_uri@ {
                DiffRoute::SingleStore
            } else {
                DiffRoute::MultiStore
            }),
    {
        if self.config.left.connection_uri == self.config.right.connection_uri {
            DiffRoute::SingleStore
        } else {
            DiffRoute::MultiStore
        }
    }
}

} // verus!
