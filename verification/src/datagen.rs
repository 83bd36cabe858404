//! Benchmark data: customer records, the SQL that holds them, and the random
//! differences introduced between two copies of a customer table.
use vstd::prelude::*;
use rand::rngs::ThreadRng;

verus! {

/// One customer row of the benchmark tables.
pub struct Customer {
    pub id: usize,
    pub uuid: String,
    pub age: u8,
    pub first_name: String,
    pub last_name: String,
    pub city: String,
    pub country: String,
    pub updated_at: String,
}

/// `DROP TABLE IF EXISTS <table>`.
pub fn drop_table_sql(table_name: &str) -> (r: String)
    ensures
        r@ == "DROP TABLE IF EXISTS "@ + table_name@,
{
    let mut r = String::from_str("DROP TABLE IF EXISTS ");
    r.append(table_name);
    r
}

/// The statement that creates a customer table of the given name.
pub fn create_table_sql(table_name: &str) -> (r: String)
    ensures
        r@ == "CREATE TABLE IF NOT EXISTS "@ + table_name@
            + " (\n            ID INT PRIMARY KEY,\n            UUID VARCHAR(36) NOT NULL,\n            AGE SMALLINT NOT NULL,\n            FIRST_NAME VARCHAR(255) NOT NULL,\n            LAST_NAME VARCHAR(255) NOT NULL,\n            CITY VARCHAR(255) NOT NULL,\n            COUNTRY VARCHAR(255) NOT NULL,\n            UPDATED_AT TIMESTAMP\n        )"@,
{
    let mut r = String::from_str("CREATE TABLE IF NOT EXISTS ");
    r.append(table_name);
    r.append(
        " (\n            ID INT PRIMARY KEY,\n            UUID VARCHAR(36) NOT NULL,\n            AGE SMALLINT NOT NULL,\n            FIRST_NAME VARCHAR(255) NOT NULL,\n            LAST_NAME VARCHAR(255) NOT NULL,\n            CITY VARCHAR(255) NOT NULL,\n            COUNTRY VARCHAR(255) NOT NULL,\n            UPDATED_AT TIMESTAMP\n        )",
    );
    r
}

/// The statement that loads `<table>.csv` from the server's benchmark directory into the table.
pub fn copy_sql(table_name: &str) -> (r: String)
    ensures
        r@ == "\n                COPY "@ + table_name@ + " \n                FROM '/var/lib/postgresql/bench_data/"@
            + table_name@ + ".csv' \n                WITH (FORMAT CSV, HEADER true, DELIMITER ',')\n             "@,
{
    let mut r = String::from_str("\n                COPY ");
    r.append(table_name);
    r.append(" \n                FROM '/var/lib/postgresql/bench_data/");
    r.append(table_name);
    r.append(".csv' \n                WITH (FORMAT CSV, HEADER true, DELIMITER ',')\n             ");
    r
}

/// The key-value connection string of a Postgres client.
pub fn connection_params(host: &str, port: &str, dbname: &str, user: &str, password: &str) -> (r: String)
    ensures
        r@ == "host="@ + host@ + " port="@ + port@ + " dbname="@ + dbname@ + " user="@ + user@
            + " password="@ + password@,
{
    let mut r = String::from_str("host=");
    r.append(host);
    r.append(" port=");
    r.append(port);
    r.append(" dbname=");
    r.append(dbname);
    r.append(" user=");
    r.append(user);
    r.append(" password=");
    r.append(password);
    r
}

/// The entry of a non-empty table that a random number picks: the one at the number
/// modulo the table's length.
pub fn pick_entry(table: &Vec<(String, String)>, random: usize) -> (r: &(String, String))
    requires
        table.len() > 0,
    ensures
        *r == table@[(random % table.len()) as int],
{
    &table[random % table.len()]
}

/// The customer numbered `index + 1` in a generated table.
pub fn new_customer(
    index: usize,
    uuid: String,
    age: u8,
    name: &(String, String),
    city_country: &(String, String),
    updated_at: String,
) -> (c: Customer)
    requires
        index < usize::MAX,
    ensures
        c.id == index + 1,
        c.uuid == uuid,
        c.age == age,
        c.first_name == name.0,
        c.last_name == name.1,
        c.city == city_country.1,
        c.country == city_country.0,
        c.updated_at == updated_at,
{
    Customer {
        id: index + 1,
        uuid,
        age,
        first_name: name.0.clone(),
        last_name: name.1.clone(),
        city: city_country.1.clone(),
        country: city_country.0.clone(),
        updated_at,
    }
}

/// A column of a customer that a difference may change.
#[derive(Debug, Clone, Copy, PartialEq, Eq, Structural)]
pub enum CustomerColumn {
    Age,
    FirstName,
    LastName,
    City,
    Country,
}

/// The columns a difference may change, in their table order.
pub fn changeable_columns() -> (r: Vec<CustomerColumn>)
    ensures
        r@ == seq![
            CustomerColumn::Age,
            CustomerColumn::FirstName,
            CustomerColumn::LastName,
            CustomerColumn::City,
            CustomerColumn::Country,
        ],
{
    let mut r = Vec::new();
    r.push(CustomerColumn::Age);
    r.push(CustomerColumn::FirstName);
    r.push(CustomerColumn::LastName);
    r.push(CustomerColumn::City);
    r.push(CustomerColumn::Country);
    assert(r@ =~= seq![
        CustomerColumn::Age,
        CustomerColumn::FirstName,
        CustomerColumn::LastName,
        CustomerColumn::City,
        CustomerColumn::Country,
    ]);
    r
}

/// A new value for one column of a customer.
pub enum Replacement {
    Age(u8),
    FirstName(String),
    LastName(String),
    City(String),
    Country(String),
}

/// The column a replacement changes.
pub open spec fn replaced_column(r: Replacement) -> CustomerColumn {
    match r {
        Replacement::Age(_) => CustomerColumn::Age,
        Replacement::FirstName(_) => CustomerColumn::FirstName,
        Replacement::LastName(_) => CustomerColumn::LastName,
        Replacement::City(_) => CustomerColumn::City,
        Replacement::Country(_) => CustomerColumn::Country,
    }
}

/// Whether `after` is `before` with only column `col` (perhaps) changed.
pub open spec fn same_except(before: Customer, after: Customer, col: CustomerColumn) -> bool {
    &&& after.id == before.id
    &&& after.uuid == before.uuid
    &&& after.updated_at == before.updated_at
    &&& col != CustomerColumn::Age ==> after.age == before.age
    &&& col != CustomerColumn::FirstName ==> after.first_name == before.first_name
    &&& col != CustomerColumn::LastName ==> after.last_name == before.last_name
    &&& col != CustomerColumn::City ==> after.city == before.city
    &&& col != CustomerColumn::Country ==> after.country == before.country
}

/// Whether `after` holds the replacement's value in its column.
pub open spec fn holds_replacement(after: Customer, r: Replacement) -> bool {
    match r {
        Replacement::Age(a) => after.age == a,
        Replacement::FirstName(s) => after.first_name == s,
        Replacement::LastName(s) => after.last_name == s,
        Replacement::City(s) => after.city == s,
        Replacement::Country(s) => after.country == s,
    }
}

/// The customer with the replacement's column set to its value.
pub open spec fn replaced(c: Customer, r: Replacement) -> Customer {
    match r {
        Replacement::Age(a) => Customer { age: a, ..c },
        Replacement::FirstName(s) => Customer { first_name: s, ..c },
        Replacement::LastName(s) => Customer { last_name: s, ..c },
        Replacement::City(s) => Customer { city: s, ..c },
        Replacement::Country(s) => Customer { country: s, ..c },
    }
}

/// The customer with one column replaced.
pub fn apply_replacement(customer: Customer, r: Replacement) -> (c: Customer)
    ensures
        c == replaced(customer, r),
        same_except(customer, c, replaced_column(r)),
        holds_replacement(c, r),
{
    let mut c = customer;
    match r {
        Replacement::Age(a) => c.age = a,
        Replacement::FirstName(s) => c.first_name = s,
        Replacement::LastName(s) => c.last_name = s,
        Replacement::City(s) => c.city = s,
        Replacement::Country(s) => c.country = s,
    }
    c
}

/// Whether a record is to be changed: the coin came up 0 and changes remain.
pub fn should_change(coin: u32, remaining: usize) -> (b: bool)
    ensures
        b == (coin == 0 && remaining > 0),
{
    coin == 0 && remaining > 0
}

#[verifier::external_type_specification]
#[verifier::external_body]
pub struct ExThreadRng(ThreadRng);

/// Calls `Rng::gen_range(low..=high)` on the thread's generator, which panics on an
/// empty range. Claimed: the result lies in the range; which value comes is chance.
#[verifier::external_body]
fn random_in(rng: &mut ThreadRng, low: u32, high: u32) -> (r: u32)
    requires
        low <= high,
    ensures
        low <= r <= high,
{
    rand::Rng::gen_range(rng, low..=high)
}

/// Calls `rand::random::<usize>()`. Nothing is claimed of the result.
#[verifier::external_body]
fn random_usize() -> usize {
    rand::random::<usize>()
}

/// Calls `SliceRandom::shuffle` on the columns with the thread's generator.
/// Claimed: the columns afterwards are a reordering of those before.
#[verifier::external_body]
fn shuffle_columns(columns: &mut Vec<CustomerColumn>, rng: &mut ThreadRng)
    ensures
        final(columns)@.to_multiset() == old(columns)@.to_multiset(),
{
    rand::seq::SliceRandom::shuffle(columns.as_mut_slice(), rng)
}

/// The replacement that the draws give for a column: the drawn age, or the name
/// or place at the drawn number modulo the table's length.
pub open spec fn drawn_replacement(
    column: CustomerColumn,
    age: u8,
    pick: usize,
    names: Seq<(String, String)>,
    city_countries: Seq<(String, String)>,
) -> Replacement {
    match column {
        CustomerColumn::Age => Replacement::Age(age),
        CustomerColumn::FirstName => Replacement::FirstName(names[(pick as int % names.len() as int)].0),
        CustomerColumn::LastName => Replacement::LastName(names[(pick as int % names.len() as int)].1),
        CustomerColumn::City => Replacement::City(city_countries[(pick as int % city_countries.len() as int)].1),
        CustomerColumn::Country => Replacement::Country(city_countries[(pick as int % city_countries.len() as int)].0),
    }
}

/// The record and the remaining budget after the draws: changed in `column` with one
/// change fewer left when the coin is 0 and changes remain, else as they were.
pub open spec fn differed(
    customer: Customer,
    remaining: usize,
    coin: u32,
    column: CustomerColumn,
    age: u8,
    pick: usize,
    names: Seq<(String, String)>,
    city_countries: Seq<(String, String)>,
) -> (Customer, usize) {
    if coin == 0 && remaining > 0 {
        (replaced(customer, drawn_replacement(column, age, pick, names, city_countries)), (remaining - 1) as usize)
    } else {
        (customer, remaining)
    }
}

/// The new value for `column` that the drawn age or the drawn number selects.
pub fn replacement_for(
    column: CustomerColumn,
    age: u8,
    pick: usize,
    names: &Vec<(String, String)>,
    city_countries: &Vec<(String, String)>,
) -> (r: Replacement)
    requires
        names.len() > 0,
        city_countries.len() > 0,
    ensures
        r == drawn_replacement(column, age, pick, names@, city_countries@),
{
    match column {
        CustomerColumn::Age => Replacement::Age(age),
        CustomerColumn::FirstName => Replacement::FirstName(pick_entry(names, pick).0.clone()),
        CustomerColumn::LastName => Replacement::LastName(pick_entry(names, pick).1.clone()),
        CustomerColumn::City => Replacement::City(pick_entry(city_countries, pick).1.clone()),
        CustomerColumn::Country => Replacement::Country(pick_entry(city_countries, pick).0.clone()),
    }
}

/// Applies the draws to one record: when the coin is 0 and changes remain, `column`
/// of the record gets the drawn value and one change is used up; otherwise the record
/// and the budget are returned as they came.
pub fn differ_record(
    customer: Customer,
    remaining: usize,
    coin: u32,
    column: CustomerColumn,
    age: u8,
    pick: usize,
    names: &Vec<(String, String)>,
    city_countries: &Vec<(String, String)>,
) -> (r: (Customer, usize))
    requires
        names.len() > 0,
        city_countries.len() > 0,
    ensures
        r == differed(customer, remaining, coin, column, age, pick, names@, city_countries@),
{
    if should_change(coin, remaining) {
        let rep = replacement_for(column, age, pick, names, city_countries);
        (apply_replacement(customer, rep), remaining - 1)
    } else {
        (customer, remaining)
    }
}

/// The records after drawing for each in turn, `draws[i]` being the coin, first column,
/// age and number drawn for record `i`, and the changes still allowed after the last.
pub open spec fn differed_all(
    records: Seq<Customer>,
    budget: usize,
    draws: Seq<(u32, CustomerColumn, u8, usize)>,
    names: Seq<(String, String)>,
    city_countries: Seq<(String, String)>,
) -> (Seq<Customer>, usize)
    decreases records.len(),
{
    if records.len() == 0 {
        (Seq::empty(), budget)
    } else {
        let (before, remaining) = differed_all(records.drop_last(), budget, draws, names, city_countries);
        let d = draws[records.len() - 1];
        let (c, left) = differed(records.last(), remaining, d.0, d.1, d.2, d.3, names, city_countries);
        (before.push(c), left)
    }
}

/// How many positions of `after` hold another record than `before` does.
pub open spec fn changed_count(before: Seq<Customer>, after: Seq<Customer>) -> nat
    decreases before.len(),
{
    if before.len() == 0 {
        0
    } else {
        changed_count(before.drop_last(), after.drop_last()) + if before.last() == after.last() {
            0nat
        } else {
            1nat
        }
    }
}

/// Differences are introduced up to the budget and no further: whatever is drawn,
/// every record is kept in its place, the budget never grows, and the records that
/// differ afterwards are no more than the changes used up.
pub proof fn differences_stay_within_budget(
    records: Seq<Customer>,
    budget: usize,
    draws: Seq<(u32, CustomerColumn, u8, usize)>,
    names: Seq<(String, String)>,
    city_countries: Seq<(String, String)>,
)
    ensures
        ({
            let (after, left) = differed_all(records, budget, draws, names, city_countries);
            &&& after.len() == records.len()
            &&& left <= budget
            &&& changed_count(records, after) <= budget - left
        }),
    decreases records.len(),
{
    if records.len() > 0 {
        differences_stay_within_budget(records.drop_last(), budget, draws, names, city_countries);
        let (before, remaining) = differed_all(records.drop_last(), budget, draws, names, city_countries);
        let (after, left) = differed_all(records, budget, draws, names, city_countries);
        assert(after.drop_last() =~= before);
    }
}

/// Perhaps introduces a difference into one record: a coin is tossed, and when it
/// comes up 0 while changes remain, the columns are shuffled and the first of them
/// gets a random value (an age up to 100, or a name or place from the tables).
/// Gives the record and the number of changes still allowed. Which coin, order and
/// value come is chance; the result is what `differ_record` makes of some such draws.
pub fn introduce_difference(
    customer: Customer,
    remaining: usize,
    columns: &mut Vec<CustomerColumn>,
    rng: &mut ThreadRng,
    names: &Vec<(String, String)>,
    city_countries: &Vec<(String, String)>,
) -> (r: (Customer, usize))
    requires
        names.len() > 0,
        city_countries.len() > 0,
        old(columns).len() > 0,
    ensures
        final(columns)@.to_multiset() == old(columns)@.to_multiset(),
        r.1 == remaining ==> final(columns)@ == old(columns)@,
        exists|coin: u32, age: u8, pick: usize|
            coin <= 1 && age <= 100 && r == #[trigger] differed(
                customer,
                remaining,
                coin,
                final(columns)@[0],
                age,
                pick,
                names@,
                city_countries@,
            ),
{
    let coin = random_in(rng, 0, 1);
    let mut age: u8 = 0;
    let mut pick: usize = 0;
    if should_change(coin, remaining) {
        shuffle_columns(columns, rng);
        proof {
            old(columns)@.to_multiset_ensures();
            columns@.to_multiset_ensures();
        }
        match columns[0] {
            CustomerColumn::Age => age = random_in(rng, 0, 100) as u8,
            _ => pick = random_usize(),
        }
    }
    let column = columns[0];
    let r = differ_record(customer, remaining, coin, column, age, pick, names, city_countries);
    assert(r == differed(customer, remaining, coin, columns@[0], age, pick, names@, city_countries@));
    r
}

} // verus!
