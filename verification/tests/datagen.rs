use reconnect::datagen::{
    apply_replacement, changeable_columns, connection_params, copy_sql, create_table_sql,
    differ_record, drop_table_sql, introduce_difference, new_customer, pick_entry, should_change, Customer,
    CustomerColumn, Replacement,
};

fn customer() -> Customer {
    new_customer(
        0,
        "u-1".to_string(),
        33,
        &("Ann".to_string(), "Lee".to_string()),
        &("NO".to_string(), "Oslo".to_string()),
        "2024-01-01 00:00:00".to_string(),
    )
}

fn same(a: &Customer, b: &Customer) -> bool {
    a.id == b.id
        && a.uuid == b.uuid
        && a.age == b.age
        && a.first_name == b.first_name
        && a.last_name == b.last_name
        && a.city == b.city
        && a.country == b.country
        && a.updated_at == b.updated_at
}

#[test]
fn sql_statements() {
    assert_eq!(drop_table_sql("customer1"), "DROP TABLE IF EXISTS customer1");
    let create = create_table_sql("c");
    assert!(create.starts_with("CREATE TABLE IF NOT EXISTS c (\n            ID INT PRIMARY KEY,"));
    assert!(create.ends_with("UPDATED_AT TIMESTAMP\n        )"));
    let copy = copy_sql("c");
    assert!(copy.contains("COPY c \n"));
    assert!(copy.contains("FROM '/var/lib/postgresql/bench_data/c.csv' \n"));
    assert_eq!(
        connection_params("h", "5432", "d", "u", "p"),
        "host=h port=5432 dbname=d user=u password=p"
    );
}

#[test]
fn customers_are_numbered_from_one() {
    let c = customer();
    assert_eq!(c.id, 1);
    assert_eq!((c.first_name.as_str(), c.last_name.as_str()), ("Ann", "Lee"));
    assert_eq!((c.country.as_str(), c.city.as_str()), ("NO", "Oslo"));
}

#[test]
fn pick_entry_wraps_around() {
    let t = vec![("a".to_string(), "b".to_string()), ("c".to_string(), "d".to_string())];
    assert_eq!(pick_entry(&t, 5).0, "c");
    assert_eq!(pick_entry(&t, 4).0, "a");
}

#[test]
fn replacement_changes_one_column() {
    let c = apply_replacement(customer(), Replacement::City("Bergen".to_string()));
    assert_eq!(c.city, "Bergen");
    assert_eq!(c.country, "NO");
    let c = apply_replacement(customer(), Replacement::Age(99));
    assert_eq!(c.age, 99);
    assert_eq!(c.first_name, "Ann");
}

#[test]
fn change_only_on_zero_with_budget() {
    assert!(should_change(0, 1));
    assert!(!should_change(1, 1));
    assert!(!should_change(0, 0));
}

#[test]
fn differences_stay_within_budget() {
    let names = vec![("Zed".to_string(), "Zork".to_string())];
    let places = vec![("SE".to_string(), "Lund".to_string())];
    let mut cols = changeable_columns();
    assert_eq!(cols[0], CustomerColumn::Age);
    let mut rng = rand::thread_rng();
    let mut remaining = 3;
    for _ in 0..50 {
        let before = customer();
        let (after, rem) = introduce_difference(customer(), remaining, &mut cols, &mut rng, &names, &places);
        assert!(rem == remaining || rem + 1 == remaining);
        if rem == remaining {
            assert!(same(&before, &after));
        } else {
            assert!(after.age <= 100);
            assert_eq!(after.id, before.id);
        }
        remaining = rem;
        let mut sorted = cols.clone();
        sorted.sort_by_key(|c| *c as u8);
        assert_eq!(sorted.len(), 5);
    }
    assert!(remaining <= 3);
}

#[test]
fn draws_decide_the_difference() {
    let names = vec![("Zed".to_string(), "Zork".to_string()), ("Amy".to_string(), "Ames".to_string())];
    let places = vec![("SE".to_string(), "Lund".to_string()), ("FI".to_string(), "Oulu".to_string())];
    let (c, rem) = differ_record(customer(), 2, 1, CustomerColumn::City, 0, 1, &names, &places);
    assert!(same(&c, &customer()));
    assert_eq!(rem, 2);
    let (c, rem) = differ_record(customer(), 0, 0, CustomerColumn::City, 0, 1, &names, &places);
    assert!(same(&c, &customer()));
    assert_eq!(rem, 0);
    let (c, rem) = differ_record(customer(), 2, 0, CustomerColumn::City, 0, 3, &names, &places);
    assert_eq!(rem, 1);
    assert_eq!(c.city, "Oulu");
    assert_eq!(c.country, "NO");
    let (c, _) = differ_record(customer(), 2, 0, CustomerColumn::LastName, 0, 4, &names, &places);
    assert_eq!(c.last_name, "Zork");
    assert_eq!(c.first_name, "Ann");
    let (c, _) = differ_record(customer(), 2, 0, CustomerColumn::Age, 77, 0, &names, &places);
    assert_eq!(c.age, 77);
    assert_eq!(c.city, "Oslo");
}

#[test]
fn drawn_changes_stop_at_the_budget() {
    let names = vec![("Zed".to_string(), "Zork".to_string())];
    let places = vec![("SE".to_string(), "Lund".to_string())];
    let mut remaining = 2;
    let mut changed = 0;
    for i in 0..6usize {
        let (after, rem) = differ_record(customer(), remaining, 0, CustomerColumn::City, 0, i, &names, &places);
        if !same(&after, &customer()) {
            changed += 1;
        }
        remaining = rem;
    }
    assert_eq!(remaining, 0);
    assert_eq!(changed, 2);
}
