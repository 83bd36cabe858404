//! What a reconciliation is told: the two tables to compare and where results go.
use vstd::prelude::*;

verus! {

/// One side of a reconciliation: a table, how its rows are keyed, and which
/// fields are compared or carried along.
#[derive(Debug, Clone)]
pub struct TableConfig {
    pub connection_uri: String,
    pub schema: String,
    pub table: String,
    pub alias: String,
    pub key: Vec<String>,
    pub satellite_fields: Vec<String>,
    pub compare_fields: Vec<String>,
    pub filter_conditions: Vec<String>,
    pub exclude_fields: Vec<String>,
    pub date_fields: Vec<String>,
}

/// Where the outcome of a reconciliation is stored.
#[derive(Debug, Clone)]
pub struct ResultConfig {
    pub connection_uri: String,
    pub schema: String,
    pub diff_table: String,
    pub summary_table: String,
}

/// A named reconciliation between a left and a right table.
#[derive(Debug, Clone)]
pub struct DiffConfig {
    pub name: String,
    pub left: TableConfig,
    pub right: TableConfig,
    pub result: ResultConfig,
}

} // verus!
