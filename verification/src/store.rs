//! What a Postgres store is given and what it makes of query results: connection
//! parameters from a data source name, the values that fill the SQL templates, and
//! the conversion of fetched rows into segments, key sets and keyed rows.
use std::collections::HashMap;
use vstd::prelude::*;
use crate::config::TableConfig;
use crate::differ::{DiffError, DiffResult};
use crate::row::{live_values, row_values_are_map_values, Row};
use crate::text::{
    copy_strings, decimal, decimal_string, signed_decimal, signed_decimal_string, parse_usize, parsed_usize, text_eq, to_uppercase,
    uppercase, uppercase_all, uppercase_each,
};

verus! {

/// A part of a data source name that a store cannot do without.
#[derive(Debug, Clone, Copy, PartialEq, Eq, Structural)]
pub enum DsnPart {
    Host,
    Port,
    Username,
    Password,
    Database,
}

#[verifier::external_type_specification]
#[verifier::external_body]
pub struct ExDsnParseError(dsn::ParseError);

/// The optional parts of a parsed data source name that a store reads.
pub struct DsnParts {
    pub host: Option<String>,
    pub port: Option<u16>,
    pub username: Option<String>,
    pub password: Option<String>,
    pub database: Option<String>,
}

/// The text of an optional string.
pub open spec fn opt_text(o: Option<String>) -> Option<Seq<char>> {
    match o {
        Some(s) => Some(s@),
        None => None,
    }
}

impl View for DsnParts {
    type V = (Option<Seq<char>>, Option<u16>, Option<Seq<char>>, Option<Seq<char>>, Option<Seq<char>>);

    open spec fn view(&self) -> Self::V {
        (opt_text(self.host), self.port, opt_text(self.username), opt_text(self.password), opt_text(self.database))
    }
}

/// What `dsn::parse` finds in a connection URI: `None` when it refuses the URI,
/// otherwise its host, port, user name, password and database, each when present.
pub uninterp spec fn dsn_components(uri: Seq<char>) -> Option<
    (Option<Seq<char>>, Option<u16>, Option<Seq<char>>, Option<Seq<char>>, Option<Seq<char>>),
>;

/// Calls `dsn::parse` and keeps the host, port, username, password and database of
/// the result, or hands back the parser's own error unchanged. Claimed: success and
/// the parts kept depend on the URI alone, as the named `dsn_components` of it; what
/// the parser accepts, and which error it gives, is not stated.
#[verifier::external_body]
fn parse_dsn(uri: &str) -> (r: Result<DsnParts, dsn::ParseError>)
    ensures
        match r {
            Ok(p) => dsn_components(uri@) == Some(p@),
            Err(_) => dsn_components(uri@) is None,
        },
{
    match dsn::parse(uri) {
        Ok(d) => Ok(
            DsnParts {
                host: d.host,
                port: d.port,
                username: d.username,
                password: d.password,
                database: d.database,
            },
        ),
        Err(e) => Err(e),
    }
}

/// Whether a parsed data source name has every part a store needs.
pub open spec fn dsn_complete(
    c: (Option<Seq<char>>, Option<u16>, Option<Seq<char>>, Option<Seq<char>>, Option<Seq<char>>),
) -> bool {
    &&& c.0 is Some
    &&& c.1 is Some
    &&& c.2 is Some
    &&& c.3 is Some
    &&& c.4 is Some
}

/// The first part, in the order host, port, username, password, database, that is missing.
pub open spec fn first_missing(
    c: (Option<Seq<char>>, Option<u16>, Option<Seq<char>>, Option<Seq<char>>, Option<Seq<char>>),
) -> DsnPart {
    if c.0 is None {
        DsnPart::Host
    } else if c.1 is None {
        DsnPart::Port
    } else if c.2 is None {
        DsnPart::Username
    } else if c.3 is None {
        DsnPart::Password
    } else {
        DsnPart::Database
    }
}

/// Connection parameters of a Postgres store, gathered before the pool is built.
pub struct PostgresStoreBuilder {
    pub host: String,
    pub port: u16,
    pub username: String,
    pub password: String,
    pub dbname: String,
    pub params: Option<HashMap<String, String>>,
}

impl PostgresStoreBuilder {
    pub fn new(
        host: String,
        port: u16,
        username: String,
        password: String,
        dbname: String,
        params: Option<HashMap<String, String>>,
    ) -> (r: Self)
        ensures
            r.host == host,
            r.port == port,
            r.username == username,
            r.password == password,
            r.dbname == dbname,
            r.params == params,
    {
        Self { host, port, username, password, dbname, params }
    }

    /// The URL that the connection pool is configured from.
    pub open spec fn connection_url(&self) -> Seq<char> {
        "postgresql://"@ + self.username@ + ":"@ + self.password@ + "@"@ + self.host@ + ":"@
            + decimal(self.port as nat) + "/"@ + self.dbname@
    }

    /// The URL that the connection pool is configured from.
    pub fn connection_string(&self) -> (r: String)
        ensures
            r@ == self.connection_url(),
    {
        let mut r = String::from_str("postgresql://");
        r.append(self.username.as_str());
        r.append(":");
        r.append(self.password.as_str());
        r.append("@");
        r.append(self.host.as_str());
        r.append(":");
        let port = decimal_string(self.port as u64);
        r.append(port.as_str());
        r.append("/");
        r.append(self.dbname.as_str());
        r
    }
}

#[verifier::external_type_specification]
#[verifier::external_body]
pub struct ExPgConfig(tokio_postgres::Config);

#[verifier::external_type_specification]
#[verifier::external_body]
pub struct ExPgError(tokio_postgres::Error);

/// The connection configuration `tokio_postgres` reads from the text, when it reads one.
pub uninterp spec fn pg_config_of(text: Seq<char>) -> Option<tokio_postgres::Config>;

/// Whether `tokio_postgres` reads the text as a connection configuration.
pub open spec fn pg_config_accepts(text: Seq<char>) -> bool {
    pg_config_of(text) is Some
}

/// Calls `tokio_postgres::Config::from_str`, which reads a URL or a key-value
/// connection string by parsing the text alone. Claimed: the result depends on the
/// text alone, as the named `pg_config_of` of it; what it accepts, what the
/// configuration holds, and the error it gives, is not stated.
#[verifier::external_body]
fn parse_pg_config(text: &str) -> (r: Result<tokio_postgres::Config, tokio_postgres::Error>)
    ensures
        r is Ok == pg_config_accepts(text@),
        r matches Ok(c) ==> pg_config_of(text@) == Some(c),
{
    text.parse::<tokio_postgres::Config>()
}

impl PostgresStoreBuilder {
    /// The configuration of the connection pool: the one `tokio_postgres` reads from
    /// this builder's own connection URL; a URL that it refuses gives its error.
    pub fn connection_config(&self) -> (r: Result<tokio_postgres::Config, DiffError>)
        ensures
            r is Ok == pg_config_accepts(self.connection_url()),
            r matches Ok(c) ==> pg_config_of(self.connection_url()) == Some(c),
            r is Err ==> r matches Err(DiffError::InvalidConnection(_)),
    {
        let url = self.connection_string();
        match parse_pg_config(url.as_str()) {
            Ok(config) => Ok(config),
            Err(e) => Err(DiffError::InvalidConnection(e)),
        }
    }
}

/// A store for the given parts of a data source name.
fn store_from_parts(parts: DsnParts) -> (r: PostgresStoreBuilder)
    requires
        dsn_complete(parts@),
    ensures
        r.host@ == parts@.0->0,
        r.port == parts@.1->0,
        r.username@ == parts@.2->0,
        r.password@ == parts@.3->0,
        r.dbname@ == parts@.4->0,
        r.params is None,
{
    PostgresStoreBuilder::new(
        parts.host.unwrap(),
        parts.port.unwrap(),
        parts.username.unwrap(),
        parts.password.unwrap(),
        parts.database.unwrap(),
        None,
    )
}

/// The store for a table's connection URI, read as a data source name.
/// Refuses a URI that is no data source name; one that parses must name all parts.
pub fn get_store(config: &TableConfig) -> (r: Result<PostgresStoreBuilder, DiffError>)
    requires
        dsn_components(config.connection_uri@) matches Some(c) ==> dsn_complete(c),
    ensures
        match dsn_components(config.connection_uri@) {
            None => r matches Err(DiffError::InvalidDsn(_)),
            Some(c) => r matches Ok(s) && s.host@ == c.0->0 && s.port == c.1->0 && s.username@ == c.2->0
                && s.password@ == c.3->0 && s.dbname@ == c.4->0 && s.params is None,
        },
{
    match parse_dsn(config.connection_uri.as_str()) {
        Ok(parts) => Ok(store_from_parts(parts)),
        Err(e) => Err(DiffError::InvalidDsn(e)),
    }
}

/// What a store reads from a connection URI: the host, port, username, password and
/// database of the data source name, or why there is no store: `None` when the URI is
/// no data source name, else the first part that it lacks.
pub open spec fn store_for(uri: Seq<char>) -> Result<(Seq<char>, u16, Seq<char>, Seq<char>, Seq<char>), Option<DsnPart>> {
    match dsn_components(uri) {
        None => Err(None),
        Some(c) => if dsn_complete(c) {
            Ok((c.0->0, c.1->0, c.2->0, c.3->0, c.4->0))
        } else {
            Err(Some(first_missing(c)))
        },
    }
}

/// Whether `x` is the error for why there is no store: the parser's refusal of the
/// URI, or the missing part.
pub open spec fn is_store_error(x: DiffError, why: Option<DsnPart>) -> bool {
    match why {
        None => x is InvalidDsn,
        Some(part) => x matches DiffError::MissingDsnPart(q) && q == part,
    }
}

/// Whether a builder holds the given connection parts and no extra parameters.
pub open spec fn builder_holds(b: PostgresStoreBuilder, p: (Seq<char>, u16, Seq<char>, Seq<char>, Seq<char>)) -> bool {
    &&& b.host@ == p.0
    &&& b.port == p.1
    &&& b.username@ == p.2
    &&& b.password@ == p.3
    &&& b.dbname@ == p.4
    &&& b.params is None
}

/// As `get_store`, but a URI that parses without some part gives an error naming the
/// first part missing.
pub fn try_get_store(config: &TableConfig) -> (r: Result<PostgresStoreBuilder, DiffError>)
    ensures
        match store_for(config.connection_uri@) {
            Ok(p) => r matches Ok(b) && builder_holds(b, p),
            Err(why) => r matches Err(x) && is_store_error(x, why),
        },
{
    match parse_dsn(config.connection_uri.as_str()) {
        Err(e) => Err(DiffError::InvalidDsn(e)),
        Ok(parts) => {
            if parts.host.is_none() {
                Err(DiffError::MissingDsnPart(DsnPart::Host))
            } else if parts.port.is_none() {
                Err(DiffError::MissingDsnPart(DsnPart::Port))
            } else if parts.username.is_none() {
                Err(DiffError::MissingDsnPart(DsnPart::Username))
            } else if parts.password.is_none() {
                Err(DiffError::MissingDsnPart(DsnPart::Password))
            } else if parts.database.is_none() {
                Err(DiffError::MissingDsnPart(DsnPart::Database))
            } else {
                get_store(config)
            }
        },
    }
}

/// A summary of one side's rows: how many, their combined checksum, and the key range.
#[derive(Debug)]
pub struct Segment {
    pub count: usize,
    pub checksum: String,
    pub min: String,
    pub max: String,
}

/// Whether two segments agree in row count and checksum.
pub fn segments_match(left: &Segment, right: &Segment) -> (b: bool)
    ensures
        b == (left.count == right.count && left.checksum@ == right.checksum@),
{
    left.count == right.count && left.checksum == right.checksum
}

/// The segment that the first row of a summary query describes; its count is 0
/// when the `seg_count` text is no number.
pub fn segment_from_rows(rows: &Vec<Row>) -> (r: Result<Segment, DiffError>)
    requires
        rows.len() > 0 ==> {
            &&& rows[0]@.contains_key("seg_min"@)
            &&& rows[0]@.contains_key("seg_max"@)
            &&& rows[0]@.contains_key("seg_count"@)
            &&& rows[0]@.contains_key("seg_checksum"@)
        },
    ensures
        rows.len() == 0 ==> (r matches Err(e) && e == DiffError::NoRows),
        rows.len() > 0 ==> (r matches Ok(s) && {
            &&& s.min@ == rows[0]@["seg_min"@]
            &&& s.max@ == rows[0]@["seg_max"@]
            &&& s.checksum@ == rows[0]@["seg_checksum"@]
            &&& s.count == match parsed_usize(rows[0]@["seg_count"@]) {
                Some(v) => v,
                None => 0,
            }
        }),
{
    if rows.len() == 0 {
        return Err(DiffError::NoRows);
    }
    let row = &rows[0];
    let min = row.get("seg_min").unwrap().clone();
    let max = row.get("seg_max").unwrap().clone();
    let count_text = row.get("seg_count").unwrap();
    let count = match parse_usize(count_text.as_str()) {
        Some(v) => v,
        None => 0,
    };
    let checksum = row.get("seg_checksum").unwrap().clone();
    Ok(Segment { count, checksum, min, max })
}

/// How the text of a column is read, by the name of its SQL type.
#[derive(Debug, Clone, Copy, PartialEq, Eq, Structural)]
pub enum ColumnKind {
    Bool,
    Text,
    SmallInt,
    Int,
    BigInt,
    Real,
    Double,
    Timestamp,
    Numeric,
    Unknown,
}

/// The kind of a column of the named SQL type.
pub open spec fn kind_of(t: Seq<char>) -> ColumnKind {
    if t == "bool"@ {
        ColumnKind::Bool
    } else if t == "varchar"@ || t == "char(n)"@ || t == "text"@ || t == "name"@ {
        ColumnKind::Text
    } else if t == "int2"@ || t == "smallserial"@ || t == "smallint"@ {
        ColumnKind::SmallInt
    } else if t == "int"@ || t == "int4"@ || t == "serial"@ {
        ColumnKind::Int
    } else if t == "int8"@ || t == "bigserial"@ || t == "bigint"@ {
        ColumnKind::BigInt
    } else if t == "float4"@ || t == "real"@ {
        ColumnKind::Real
    } else if t == "float8"@ || t == "double precision"@ {
        ColumnKind::Double
    } else if t == "timestamp"@ || t == "timestamptz"@ {
        ColumnKind::Timestamp
    } else if t == "numeric"@ {
        ColumnKind::Numeric
    } else {
        ColumnKind::Unknown
    }
}

/// Every SQL type name whose values a store reads has its kind, and none of them is
/// unreadable: booleans, the four text types, the small, plain and big integer
/// types under each of their names, both float widths, both timestamp types and
/// `numeric`.
#[verifier::rlimit(50)]
pub proof fn read_types_have_their_kinds()
    ensures
        kind_of("bool"@) == ColumnKind::Bool,
        kind_of("varchar"@) == ColumnKind::Text,
        kind_of("char(n)"@) == ColumnKind::Text,
        kind_of("text"@) == ColumnKind::Text,
        kind_of("name"@) == ColumnKind::Text,
        kind_of("int2"@) == ColumnKind::SmallInt,
        kind_of("smallserial"@) == ColumnKind::SmallInt,
        kind_of("smallint"@) == ColumnKind::SmallInt,
        kind_of("int"@) == ColumnKind::Int,
        kind_of("int4"@) == ColumnKind::Int,
        kind_of("serial"@) == ColumnKind::Int,
        kind_of("int8"@) == ColumnKind::BigInt,
        kind_of("bigserial"@) == ColumnKind::BigInt,
        kind_of("bigint"@) == ColumnKind::BigInt,
        kind_of("float4"@) == ColumnKind::Real,
        kind_of("real"@) == ColumnKind::Real,
        kind_of("float8"@) == ColumnKind::Double,
        kind_of("double precision"@) == ColumnKind::Double,
        kind_of("timestamp"@) == ColumnKind::Timestamp,
        kind_of("timestamptz"@) == ColumnKind::Timestamp,
        kind_of("numeric"@) == ColumnKind::Numeric,
{
    reveal_strlit("bool");
    reveal_strlit("varchar");
    reveal_strlit("char(n)");
    reveal_strlit("text");
    reveal_strlit("name");
    reveal_strlit("int2");
    reveal_strlit("smallserial");
    reveal_strlit("smallint");
    reveal_strlit("int");
    reveal_strlit("int4");
    reveal_strlit("serial");
    reveal_strlit("int8");
    reveal_strlit("bigserial");
    reveal_strlit("bigint");
    reveal_strlit("float4");
    reveal_strlit("real");
    reveal_strlit("float8");
    reveal_strlit("double precision");
    reveal_strlit("timestamp");
    reveal_strlit("timestamptz");
    reveal_strlit("numeric");
    assert("bool"@.len() == 4);
    assert("varchar"@.len() == 7);
    assert("char(n)"@.len() == 7);
    assert("text"@.len() == 4);
    assert("name"@.len() == 4);
    assert("int2"@.len() == 4);
    assert("smallserial"@.len() == 11);
    assert("smallint"@.len() == 8);
    assert("int"@.len() == 3);
    assert("int4"@.len() == 4);
    assert("serial"@.len() == 6);
    assert("int8"@.len() == 4);
    assert("bigserial"@.len() == 9);
    assert("bigint"@.len() == 6);
    assert("float4"@.len() == 6);
    assert("real"@.len() == 4);
    assert("float8"@.len() == 6);
    assert("double precision"@.len() == 16);
    assert("timestamp"@.len() == 9);
    assert("timestamptz"@.len() == 11);
    assert("numeric"@.len() == 7);
    assert("char(n)"@[0] != "varchar"@[0]);
    assert("text"@[0] != "bool"@[0]);
    assert("name"@[0] != "bool"@[0]);
    assert("name"@[0] != "text"@[0]);
    assert("int2"@[0] != "bool"@[0]);
    assert("int2"@[0] != "text"@[0]);
    assert("int2"@[0] != "name"@[0]);
    assert("int4"@[0] != "bool"@[0]);
    assert("int4"@[0] != "text"@[0]);
    assert("int4"@[0] != "name"@[0]);
    assert("int4"@[3] != "int2"@[3]);
    assert("int8"@[0] != "bool"@[0]);
    assert("int8"@[0] != "text"@[0]);
    assert("int8"@[0] != "name"@[0]);
    assert("int8"@[3] != "int2"@[3]);
    assert("int8"@[3] != "int4"@[3]);
    assert("bigint"@[0] != "serial"@[0]);
    assert("float4"@[0] != "serial"@[0]);
    assert("float4"@[0] != "bigint"@[0]);
    assert("real"@[0] != "bool"@[0]);
    assert("real"@[0] != "text"@[0]);
    assert("real"@[0] != "name"@[0]);
    assert("real"@[0] != "int2"@[0]);
    assert("real"@[0] != "int4"@[0]);
    assert("real"@[0] != "int8"@[0]);
    assert("float8"@[0] != "serial"@[0]);
    assert("float8"@[0] != "bigint"@[0]);
    assert("float8"@[5] != "float4"@[5]);
    assert("timestamp"@[0] != "bigserial"@[0]);
    assert("timestamptz"@[0] != "smallserial"@[0]);
    assert("numeric"@[0] != "varchar"@[0]);
    assert("numeric"@[0] != "char(n)"@[0]);
}

/// The kind of a column of the named SQL type.
pub fn column_kind(t: &str) -> (k: ColumnKind)
    ensures
        k == kind_of(t@),
{
    if text_eq(t, "bool") {
        ColumnKind::Bool
    } else if text_eq(t, "varchar") || text_eq(t, "char(n)") || text_eq(t, "text") || text_eq(t, "name") {
        ColumnKind::Text
    } else if text_eq(t, "int2") || text_eq(t, "smallserial") || text_eq(t, "smallint") {
        ColumnKind::SmallInt
    } else if text_eq(t, "int") || text_eq(t, "int4") || text_eq(t, "serial") {
        ColumnKind::Int
    } else if text_eq(t, "int8") || text_eq(t, "bigserial") || text_eq(t, "bigint") {
        ColumnKind::BigInt
    } else if text_eq(t, "float4") || text_eq(t, "real") {
        ColumnKind::Real
    } else if text_eq(t, "float8") || text_eq(t, "double precision") {
        ColumnKind::Double
    } else if text_eq(t, "timestamp") || text_eq(t, "timestamptz") {
        ColumnKind::Timestamp
    } else if text_eq(t, "numeric") {
        ColumnKind::Numeric
    } else {
        ColumnKind::Unknown
    }
}

/// The value of a fetched cell: null, a boolean, an integer (of any width up to
/// 64 bits), or the text of any other value.
pub enum CellValue {
    Null,
    Bool(bool),
    Int(i64),
    Text(String),
}

/// A fetched cell: its column's name and SQL type, and its value.
pub struct Cell {
    pub name: String,
    pub sql_type: String,
    pub value: CellValue,
}

/// The text of a cell's value, as the value's `to_string` gives it: `true` or
/// `false`, an integer in decimal, the text itself; null gives the empty string.
pub open spec fn value_text(v: CellValue) -> Seq<char> {
    match v {
        CellValue::Null => Seq::empty(),
        CellValue::Bool(b) => if b {
            "true"@
        } else {
            "false"@
        },
        CellValue::Int(n) => signed_decimal(n as int),
        CellValue::Text(t) => t@,
    }
}

/// The text a cell stands for in a row: a marker for a type that cannot be read,
/// the text of its value otherwise.
pub open spec fn cell_text(kind: ColumnKind, value: CellValue) -> Seq<char> {
    if kind == ColumnKind::Unknown {
        "CANNOT PARSE"@
    } else {
        value_text(value)
    }
}

/// The (name, text) pair a cell gives a row.
pub open spec fn cell_entry(c: Cell) -> (Seq<char>, Seq<char>) {
    (c.name@, cell_text(kind_of(c.sql_type@), c.value))
}

/// The text of a cell's value.
pub fn value_to_text(v: CellValue) -> (r: String)
    ensures
        r@ == value_text(v),
{
    match v {
        CellValue::Null => String::new(),
        CellValue::Bool(b) => if b {
            String::from_str("true")
        } else {
            String::from_str("false")
        },
        CellValue::Int(n) => signed_decimal_string(n),
        CellValue::Text(t) => t,
    }
}

/// The row of a query result, cell by cell in column order.
pub fn row_to_map(cells: Vec<Cell>) -> (r: Row)
    ensures
        r.entries() == cells@.map_values(|c: Cell| cell_entry(c)),
{
    let ghost all = cells@;
    let mut row = Row::new();
    for c in it: cells
        invariant
            it.seq() == all,
            row.entries() == all.take(it.index()).map_values(|c: Cell| cell_entry(c)),
    {
        let ghost i = it.index();
        let kind = column_kind(c.sql_type.as_str());
        let text = if kind == ColumnKind::Unknown {
            String::from_str("CANNOT PARSE")
        } else {
            value_to_text(c.value)
        };
        row.insert(c.name, text);
        assert(all.take(i + 1).map_values(|c: Cell| cell_entry(c)) =~= all.take(i).map_values(
            |c: Cell| cell_entry(c),
        ).push(cell_entry(all[i])));
    }
    assert(all.take(all.len() as int) =~= all);
    row
}

/// The values that fill one table's SQL template.
pub struct TableQuery {
    pub table: String,
    pub alias: String,
    pub key: Vec<String>,
    pub compare_fields: Vec<String>,
    pub satellite_fields: Vec<String>,
    pub filter_conditions: Vec<String>,
}

/// The template values of a per-table query: the alias upper-cased, the rest as configured.
pub fn table_query(config: &TableConfig) -> (q: TableQuery)
    ensures
        q.table@ == config.table@,
        q.alias@ == uppercase(config.alias@),
        q.key.deep_view() == config.key.deep_view(),
        q.compare_fields.deep_view() == config.compare_fields.deep_view(),
        q.satellite_fields.deep_view() == config.satellite_fields.deep_view(),
        q.filter_conditions.deep_view() == config.filter_conditions.deep_view(),
{
    TableQuery {
        table: config.table.clone(),
        alias: to_uppercase(config.alias.as_str()),
        key: copy_strings(&config.key),
        compare_fields: copy_strings(&config.compare_fields),
        satellite_fields: copy_strings(&config.satellite_fields),
        filter_conditions: copy_strings(&config.filter_conditions),
    }
}

/// The template values of one side of a single-store diff: alias, key, satellite and
/// compare fields upper-cased, filter conditions as configured.
pub fn single_store_side(config: &TableConfig) -> (q: TableQuery)
    ensures
        q.table@ == config.table@,
        q.alias@ == uppercase(config.alias@),
        q.key.deep_view() == uppercase_all(config.key.deep_view()),
        q.compare_fields.deep_view() == uppercase_all(config.compare_fields.deep_view()),
        q.satellite_fields.deep_view() == uppercase_all(config.satellite_fields.deep_view()),
        q.filter_conditions.deep_view() == config.filter_conditions.deep_view(),
{
    TableQuery {
        table: config.table.clone(),
        alias: to_uppercase(config.alias.as_str()),
        key: uppercase_each(&config.key),
        compare_fields: uppercase_each(&config.compare_fields),
        satellite_fields: uppercase_each(&config.satellite_fields),
        filter_conditions: copy_strings(&config.filter_conditions),
    }
}

/// The template values of a single-store diff, one set per side.
pub struct SingleStoreQuery {
    pub left: TableQuery,
    pub right: TableQuery,
}

/// The template values of a single-store diff of `left` against `right`.
pub fn single_store_query(left: &TableConfig, right: &TableConfig) -> (q: SingleStoreQuery)
    ensures
        q.left.table@ == left.table@,
        q.left.alias@ == uppercase(left.alias@),
        q.left.key.deep_view() == uppercase_all(left.key.deep_view()),
        q.left.compare_fields.deep_view() == uppercase_all(left.compare_fields.deep_view()),
        q.left.satellite_fields.deep_view() == uppercase_all(left.satellite_fields.deep_view()),
        q.left.filter_conditions.deep_view() == left.filter_conditions.deep_view(),
        q.right.table@ == right.table@,
        q.right.alias@ == uppercase(right.alias@),
        q.right.key.deep_view() == uppercase_all(right.key.deep_view()),
        q.right.compare_fields.deep_view() == uppercase_all(right.compare_fields.deep_view()),
        q.right.satellite_fields.deep_view() == uppercase_all(right.satellite_fields.deep_view()),
        q.right.filter_conditions.deep_view() == right.filter_conditions.deep_view(),
{
    SingleStoreQuery { left: single_store_side(left), right: single_store_side(right) }
}

/// The values of each row, read as maps, in column order.
pub open spec fn row_values(rows: Seq<Row>) -> Seq<Seq<Seq<char>>> {
    rows.map_values(|r: Row| live_values(r.entries()))
}

/// Each result row of a single-store diff holds one value per distinct column of its
/// fetched row, null cells (read as empty texts) included.
pub proof fn single_store_rows_keep_every_column(rows: Seq<Row>, i: int)
    requires
        0 <= i < rows.len(),
    ensures
        row_values(rows)[i].len() == rows[i]@.dom().len(),
{
    row_values_are_map_values(rows[i]);
}

/// The outcome of a single-store diff: the given headers, and the values of each row.
pub fn single_store_result(headers: Vec<String>, rows: &Vec<Row>) -> (d: DiffResult)
    ensures
        d.headers == headers,
        d.rows.deep_view() == row_values(rows@),
{
    let mut out: Vec<Vec<String>> = Vec::new();
    let n = rows.len();
    for i in 0..n
        invariant
            n == rows.len(),
            out.deep_view() == row_values(rows@.take(i as int)),
    {
        let vals = rows[i].values();
        out.push(vals);
        assert(row_values(rows@.take(i + 1)) =~= row_values(rows@.take(i as int)).push(
            live_values(rows@[i as int].entries()),
        ));
        assert(out.deep_view() =~= row_values(rows@.take(i + 1)));
    }
    assert(rows@.take(n as int) =~= rows@);
    DiffResult { headers, rows: out }
}

} // verus!
