use reconnect::keys::{diff_keys, KeySet};
use reconnect::row::{rows_by_key, Row, RowResult};
use reconnect::text::{
    copy_strings, decimal_string, key_prefix, parse_usize, qualify, text_eq, uppercase_each,
};

fn strings(v: &[&str]) -> Vec<String> {
    v.iter().map(|s| s.to_string()).collect()
}

fn row(cells: &[(&str, &str)]) -> Row {
    let mut r = Row::new();
    for (n, v) in cells {
        r.insert(n.to_string(), v.to_string());
    }
    r
}

#[test]
fn key_prefix_stops_at_first_separator() {
    assert_eq!(key_prefix("42__abcdef"), "42");
    assert_eq!(key_prefix("a___b"), "a");
    assert_eq!(key_prefix("___"), "");
    assert_eq!(key_prefix("plain"), "plain");
    assert_eq!(key_prefix("a_b"), "a_b");
    assert_eq!(key_prefix(""), "");
    assert_eq!(key_prefix("x_"), "x_");
}

#[test]
fn qualify_joins_with_double_underscore() {
    assert_eq!(qualify("L", "age"), "L__age");
    assert_eq!(qualify("", "x"), "__x");
}

#[test]
fn uppercase_each_keeps_order() {
    let v = strings(&["age", "First_Name", "ß"]);
    assert_eq!(uppercase_each(&v), strings(&["AGE", "FIRST_NAME", "SS"]));
    assert_eq!(copy_strings(&v), v);
}

#[test]
fn text_eq_compares_characters() {
    assert!(text_eq("bool", "bool"));
    assert!(!text_eq("bool", "boo"));
    assert!(!text_eq("int4", "int8"));
}

#[test]
fn decimal_rendering() {
    assert_eq!(decimal_string(0), "0");
    assert_eq!(decimal_string(5432), "5432");
    assert_eq!(decimal_string(u64::MAX), u64::MAX.to_string());
}

#[test]
fn parse_usize_matches_std() {
    for s in ["", "+", "-", "0", "+7", "-7", "++7", "12a", "007", "1000", " 1", "18446744073709551615", "18446744073709551616"] {
        assert_eq!(parse_usize(s), s.parse::<usize>().ok(), "input {:?}", s);
    }
    assert_eq!(parse_usize("1000"), Some(1000));
}

#[test]
fn parse_reads_back_rendering() {
    for n in [0u64, 9, 10, 65535, 123456789] {
        assert_eq!(parse_usize(&decimal_string(n)), Some(n as usize));
    }
}

#[test]
fn row_later_column_wins() {
    let r = row(&[("a", "1"), ("b", "2"), ("a", "3")]);
    assert_eq!(r.get("a").map(|s| s.as_str()), Some("3"));
    assert_eq!(r.get("b").map(|s| s.as_str()), Some("2"));
    assert!(r.get("c").is_none());
    assert!(r.contains("b"));
    assert_eq!(r.len(), 3);
    assert_eq!(r.values(), strings(&["2", "3"]));
}

#[test]
fn rows_keyed_by_key_column() {
    let rows = vec![
        row(&[("KEY", "1"), ("v", "a")]),
        row(&[("KEY", "2"), ("v", "b")]),
        row(&[("KEY", "1"), ("v", "c")]),
    ];
    let rr = rows_by_key(rows);
    assert_eq!(rr.len(), 2);
    assert_eq!(rr.get("1").unwrap().get("v").unwrap(), "c");
    assert_eq!(rr.get("2").unwrap().get("v").unwrap(), "b");
    assert!(rr.get("3").is_none());
    let mut manual = RowResult::new();
    manual.insert("9".to_string(), row(&[("v", "z")]));
    assert_eq!(manual.get("9").unwrap().get("v").unwrap(), "z");
}

#[test]
fn key_set_keeps_first_arrival_order() {
    let mut s = KeySet::new();
    assert!(s.insert("b".to_string()));
    assert!(s.insert("a".to_string()));
    assert!(!s.insert("b".to_string()));
    assert_eq!(s.len(), 2);
    assert_eq!(s.to_vec(), strings(&["b", "a"]));
    assert!(s.contains("a"));
    assert!(!s.contains("c"));
    assert_eq!(s.get(1), "a");
    let f = KeySet::from_values(strings(&["x", "y", "x"]));
    assert_eq!(f.to_vec(), strings(&["x", "y"]));
}

fn sorted(s: &KeySet) -> Vec<String> {
    let mut v = s.to_vec();
    v.sort();
    v
}

#[test]
fn diff_keys_of_differing_checksums() {
    let l = KeySet::from_values(strings(&["1__aa", "2__bb", "3__cc", "5__ee"]));
    let r = KeySet::from_values(strings(&["1__aa", "2__bx", "4__dd", "5__ee"]));
    let d = diff_keys(&l, &r);
    assert_eq!(sorted(&d), strings(&["2", "3", "4"]));
    let back = diff_keys(&r, &l);
    assert_eq!(sorted(&back), sorted(&d));
}

#[test]
fn identical_sides_have_no_diff_keys() {
    let l = KeySet::from_values(strings(&["1__aa", "2__bb"]));
    let r = KeySet::from_values(strings(&["2__bb", "1__aa"]));
    assert_eq!(diff_keys(&l, &r).len(), 0);
}
