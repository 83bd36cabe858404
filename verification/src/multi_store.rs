//! Reconciliation of two tables that live in different databases: each side is
//! summarised, then its `key__checksum` entries are compared, then the rows of the
//! differing keys are fetched and laid side by side.
//!
//! The fetching is the caller's: `MultiStoreDiffer::step` says what to fetch next
//! and turns what was fetched into the next state.
use std::collections::HashMap;
use vstd::prelude::*;
use vstd::multiset::Multiset;
use crate::config::{DiffConfig, TableConfig};
use crate::differ::{DiffError, DiffResult};
use crate::keys::{diff_key_set, diff_keys, KeySet};
use crate::row::{Row, RowResult};
use crate::store::{builder_holds, is_store_error, segments_match, store_for, try_get_store, PostgresStoreBuilder, Segment};
use crate::text::{copy_strings, qualified, qualify, to_uppercase, uppercase};

verus! {

/// Every field qualified by the same alias.
pub open spec fn qualified_all(alias: Seq<char>, fields: Seq<Seq<char>>) -> Seq<Seq<char>> {
    fields.map_values(|f: Seq<char>| qualified(alias, f))
}

/// The columns under which a fetched row of table `t` holds the given fields:
/// each field qualified by the table's upper-cased alias.
pub open spec fn qualified_fields(t: TableConfig, fields: Seq<Seq<char>>) -> Seq<Seq<char>> {
    qualified_all(uppercase(t.alias@), fields)
}

/// The texts of the named columns of a row, in the order of the names.
pub open spec fn pick(row: Map<Seq<char>, Seq<char>>, fields: Seq<Seq<char>>) -> Seq<Seq<char>> {
    fields.map_values(|f: Seq<char>| row[f])
}

/// `n` empty texts.
pub open spec fn blanks(n: nat) -> Seq<Seq<char>> {
    Seq::new(n, |i: int| Seq::<char>::empty())
}

/// The row a side holds under key `k`, as a map, when it holds one.
pub open spec fn side(rows: Map<Seq<char>, Row>, k: Seq<char>) -> Option<Map<Seq<char>, Seq<char>>> {
    if rows.contains_key(k) {
        Some(rows[k]@)
    } else {
        None
    }
}

/// The result row for key `k`: the key, a status (`DF` when both sides hold the key,
/// `LO` when only the left does, `RO` when only the right does), then the left and
/// right compare fields and the left and right satellite fields, a side that lacks
/// the key giving empty texts.
pub open spec fn diff_row(
    k: Seq<char>,
    l: Option<Map<Seq<char>, Seq<char>>>,
    r: Option<Map<Seq<char>, Seq<char>>>,
    lc: Seq<Seq<char>>,
    rc: Seq<Seq<char>>,
    ls: Seq<Seq<char>>,
    rs: Seq<Seq<char>>,
) -> Seq<Seq<char>> {
    match (l, r) {
        (Some(lm), Some(rm)) => seq![k, "DF"@] + pick(lm, lc) + pick(rm, rc) + pick(lm, ls) + pick(rm, rs),
        (Some(lm), None) => seq![k, "LO"@] + pick(lm, lc) + blanks(rc.len()) + pick(lm, ls) + blanks(rs.len()),
        (None, Some(rm)) => seq![k, "RO"@] + blanks(lc.len()) + pick(rm, rc) + blanks(ls.len()) + pick(rm, rs),
        (None, None) => Seq::empty(),
    }
}

/// One result row per key that either side holds, in the order of the keys;
/// a key that neither side holds is passed over.
pub open spec fn diff_rows(
    keys: Seq<Seq<char>>,
    lrows: Map<Seq<char>, Row>,
    rrows: Map<Seq<char>, Row>,
    lc: Seq<Seq<char>>,
    rc: Seq<Seq<char>>,
    ls: Seq<Seq<char>>,
    rs: Seq<Seq<char>>,
) -> Seq<Seq<Seq<char>>>
    decreases keys.len(),
{
    if keys.len() == 0 {
        Seq::empty()
    } else {
        let k = keys.last();
        let before = diff_rows(keys.drop_last(), lrows, rrows, lc, rc, ls, rs);
        if lrows.contains_key(k) || rrows.contains_key(k) {
            before.push(diff_row(k, side(lrows, k), side(rrows, k), lc, rc, ls, rs))
        } else {
            before
        }
    }
}

/// Whether every row that `rows` holds under one of `keys` has all of `fields`.
pub open spec fn holds_fields(rows: Map<Seq<char>, Row>, keys: Seq<Seq<char>>, fields: Seq<Seq<char>>) -> bool {
    forall|i: int, j: int|
        0 <= i < keys.len() && 0 <= j < fields.len() && rows.contains_key(keys[i])
            ==> (#[trigger] rows[keys[i]])@.contains_key(#[trigger] fields[j])
}

/// The headers of a multi-store result: the first key column of each side, `status`,
/// then the left and right compare fields and the left and right satellite fields.
pub open spec fn result_header_names(c: DiffConfig) -> Seq<Seq<char>> {
    seq![c.left.key@[0]@, c.right.key@[0]@, "status"@] + c.left.compare_fields.deep_view()
        + c.right.compare_fields.deep_view() + c.left.satellite_fields.deep_view()
        + c.right.satellite_fields.deep_view()
}

/// Whether the fetched rows of both sides hold every column that the result reads.
pub open spec fn rows_complete(c: DiffConfig, keys: Seq<Seq<char>>, l: Map<Seq<char>, Row>, r: Map<Seq<char>, Row>) -> bool {
    &&& holds_fields(l, keys, qualified_fields(c.left, c.left.compare_fields.deep_view()))
    &&& holds_fields(l, keys, qualified_fields(c.left, c.left.satellite_fields.deep_view()))
    &&& holds_fields(r, keys, qualified_fields(c.right, c.right.compare_fields.deep_view()))
    &&& holds_fields(r, keys, qualified_fields(c.right, c.right.satellite_fields.deep_view()))
}

/// The result rows of a multi-store diff of `c` over the given keys and fetched rows.
pub open spec fn result_rows(c: DiffConfig, keys: Seq<Seq<char>>, l: Map<Seq<char>, Row>, r: Map<Seq<char>, Row>) -> Seq<Seq<Seq<char>>> {
    diff_rows(
        keys,
        l,
        r,
        qualified_fields(c.left, c.left.compare_fields.deep_view()),
        qualified_fields(c.right, c.right.compare_fields.deep_view()),
        qualified_fields(c.left, c.left.satellite_fields.deep_view()),
        qualified_fields(c.right, c.right.satellite_fields.deep_view()),
    )
}

/// Appends the texts of the named columns of `row`.
fn push_fields(out: &mut Vec<String>, row: &Row, fields: &Vec<String>)
    requires
        forall|j: int| 0 <= j < fields.len() ==> row@.contains_key(#[trigger] fields.deep_view()[j]),
    ensures
        final(out).deep_view() == old(out).deep_view() + pick(row@, fields.deep_view()),
{
    let ghost start = out.deep_view();
    let ghost fs = fields.deep_view();
    let n = fields.len();
    for j in 0..n
        invariant
            n == fields.len(),
            fs == fields.deep_view(),
            forall|j: int| 0 <= j < fields.len() ==> row@.contains_key(#[trigger] fs[j]),
            out.deep_view() == start + pick(row@, fs.take(j as int)),
    {
        assert(fs[j as int] == fields[j as int]@);
        let v = row.get(fields[j].as_str()).unwrap();
        let ghost before = out.deep_view();
        out.push(v.clone());
        assert(out.deep_view() =~= before.push(row@[fs[j as int]]));
        assert(pick(row@, fs.take(j + 1)) =~= pick(row@, fs.take(j as int)).push(row@[fs[j as int]]));
        assert(out.deep_view() =~= start + pick(row@, fs.take(j + 1)));
    }
    assert(fs.take(n as int) =~= fs);
}

/// Appends `n` empty texts.
fn push_blanks(out: &mut Vec<String>, n: usize)
    ensures
        final(out).deep_view() == old(out).deep_view() + blanks(n as nat),
{
    let ghost start = out.deep_view();
    for j in 0..n
        invariant
            out.deep_view() == start + blanks(j as nat),
    {
        let ghost before = out.deep_view();
        out.push(String::new());
        assert(out.deep_view() =~= before.push(Seq::<char>::empty()));
        assert(out.deep_view() =~= start + blanks((j + 1) as nat));
    }
}

/// Whether every row that `rows` holds under a key of `keys` has all of `fields`.
pub fn rows_hold_fields(rows: &RowResult, keys: &KeySet, fields: &Vec<String>) -> (b: bool)
    ensures
        b == holds_fields(rows@, keys.ordered(), fields.deep_view()),
{
    let n = keys.len();
    let m = fields.len();
    let ghost ks = keys.ordered();
    let ghost fs = fields.deep_view();
    for i in 0..n
        invariant
            n == ks.len(),
            m == fs.len(),
            ks == keys.ordered(),
            fs == fields.deep_view(),
            forall|a: int, b: int|
                0 <= a < i && 0 <= b < fs.len() && rows@.contains_key(ks[a])
                    ==> (#[trigger] rows@[ks[a]])@.contains_key(#[trigger] fs[b]),
    {
        match rows.get(keys.get(i).as_str()) {
            None => {},
            Some(row) => {
                for j in 0..m
                    invariant
                        n == ks.len(),
                        m == fs.len(),
                        ks == keys.ordered(),
                        fs == fields.deep_view(),
                        i < n,
                        rows@.contains_key(ks[i as int]),
                        *row == rows@[ks[i as int]],
                        forall|b: int| 0 <= b < j ==> row@.contains_key(#[trigger] fs[b]),
                        forall|a: int, b: int|
                            0 <= a < i && 0 <= b < fs.len() && rows@.contains_key(ks[a])
                                ==> (#[trigger] rows@[ks[a]])@.contains_key(#[trigger] fs[b]),
                {
                    assert(fs[j as int] == fields[j as int]@);
                    if !row.contains(fields[j].as_str()) {
                        assert(!rows@[ks[i as int]]@.contains_key(fs[j as int]));
                        return false;
                    }
                }
            },
        }
    }
    true
}

/// The result rows for the given keys: one per key that either side holds, laid out
/// as `diff_row` says, with the columns named by the four field lists.
pub fn assemble_rows(
    keys: &KeySet,
    lrows: &RowResult,
    rrows: &RowResult,
    lc: &Vec<String>,
    rc: &Vec<String>,
    ls: &Vec<String>,
    rs: &Vec<String>,
) -> (out: Vec<Vec<String>>)
    requires
        holds_fields(lrows@, keys.ordered(), lc.deep_view()),
        holds_fields(lrows@, keys.ordered(), ls.deep_view()),
        holds_fields(rrows@, keys.ordered(), rc.deep_view()),
        holds_fields(rrows@, keys.ordered(), rs.deep_view()),
    ensures
        out.deep_view() == diff_rows(
            keys.ordered(),
            lrows@,
            rrows@,
            lc.deep_view(),
            rc.deep_view(),
            ls.deep_view(),
            rs.deep_view(),
        ),
{
    let ghost ks = keys.ordered();
    let ghost (lcv, rcv, lsv, rsv) = (lc.deep_view(), rc.deep_view(), ls.deep_view(), rs.deep_view());
    let n = keys.len();
    let mut out: Vec<Vec<String>> = Vec::new();
    assert(ks.take(0) =~= Seq::<Seq<char>>::empty());
    for i in 0..n
        invariant
            n == ks.len(),
            ks == keys.ordered(),
            lcv == lc.deep_view(),
            rcv == rc.deep_view(),
            lsv == ls.deep_view(),
            rsv == rs.deep_view(),
            holds_fields(lrows@, ks, lcv),
            holds_fields(lrows@, ks, lsv),
            holds_fields(rrows@, ks, rcv),
            holds_fields(rrows@, ks, rsv),
            out.deep_view() == diff_rows(ks.take(i as int), lrows@, rrows@, lcv, rcv, lsv, rsv),
    {
        let key = keys.get(i);
        let ghost k = ks[i as int];
        assert(ks.take(i + 1).drop_last() =~= ks.take(i as int));
        assert(ks.take(i + 1).last() == k);
        let l = lrows.get(key.as_str());
        let r = rrows.get(key.as_str());
        proof {
            assert forall|j: int| 0 <= j < lcv.len() && lrows@.contains_key(k) implies lrows@[k]@.contains_key(#[trigger] lcv[j]) by {
                assert(lrows@[ks[i as int]]@.contains_key(lcv[j]));
            }
            assert forall|j: int| 0 <= j < lsv.len() && lrows@.contains_key(k) implies lrows@[k]@.contains_key(#[trigger] lsv[j]) by {
                assert(lrows@[ks[i as int]]@.contains_key(lsv[j]));
            }
            assert forall|j: int| 0 <= j < rcv.len() && rrows@.contains_key(k) implies rrows@[k]@.contains_key(#[trigger] rcv[j]) by {
                assert(rrows@[ks[i as int]]@.contains_key(rcv[j]));
            }
            assert forall|j: int| 0 <= j < rsv.len() && rrows@.contains_key(k) implies rrows@[k]@.contains_key(#[trigger] rsv[j]) by {
                assert(rrows@[ks[i as int]]@.contains_key(rsv[j]));
            }
        }
        let ghost before = out.deep_view();
        match (l, r) {
            (Some(lm), Some(rm)) => {
                let mut row: Vec<String> = Vec::new();
                row.push(key.clone());
                row.push(String::from_str("DF"));
                push_fields(&mut row, lm, lc);
                push_fields(&mut row, rm, rc);
                push_fields(&mut row, lm, ls);
                push_fields(&mut row, rm, rs);
                assert(row.deep_view() =~= diff_row(k, side(lrows@, k), side(rrows@, k), lcv, rcv, lsv, rsv));
                out.push(row);
            },
            (Some(lm), None) => {
                let mut row: Vec<String> = Vec::new();
                row.push(key.clone());
                row.push(String::from_str("LO"));
                push_fields(&mut row, lm, lc);
                push_blanks(&mut row, rc.len());
                push_fields(&mut row, lm, ls);
                push_blanks(&mut row, rs.len());
                assert(row.deep_view() =~= diff_row(k, side(lrows@, k), side(rrows@, k), lcv, rcv, lsv, rsv));
                out.push(row);
            },
            (None, Some(rm)) => {
                let mut row: Vec<String> = Vec::new();
                row.push(key.clone());
                row.push(String::from_str("RO"));
                push_blanks(&mut row, lc.len());
                push_fields(&mut row, rm, rc);
                push_blanks(&mut row, ls.len());
                push_fields(&mut row, rm, rs);
                assert(row.deep_view() =~= diff_row(k, side(lrows@, k), side(rrows@, k), lcv, rcv, lsv, rsv));
                out.push(row);
            },
            (None, None) => {},
        }
        assert(out.deep_view() =~= diff_rows(ks.take(i + 1), lrows@, rrows@, lcv, rcv, lsv, rsv));
    }
    assert(ks.take(n as int) =~= ks);
    out
}

/// Every result row is as wide as the field lists ask (key, status, then every field),
/// starts with one of the keys that some side holds, and gives the status that the
/// key's presence on each side calls for.
pub proof fn diff_rows_shape(
    keys: Seq<Seq<char>>,
    l: Map<Seq<char>, Row>,
    r: Map<Seq<char>, Row>,
    lc: Seq<Seq<char>>,
    rc: Seq<Seq<char>>,
    ls: Seq<Seq<char>>,
    rs: Seq<Seq<char>>,
    i: int,
)
    requires
        0 <= i < diff_rows(keys, l, r, lc, rc, ls, rs).len(),
    ensures
        ({
            let row = diff_rows(keys, l, r, lc, rc, ls, rs)[i];
            &&& row.len() == 2 + lc.len() + rc.len() + ls.len() + rs.len()
            &&& keys.contains(row[0])
            &&& l.contains_key(row[0]) || r.contains_key(row[0])
            &&& row[1] == if l.contains_key(row[0]) && r.contains_key(row[0]) {
                "DF"@
            } else if l.contains_key(row[0]) {
                "LO"@
            } else {
                "RO"@
            }
        }),
    decreases keys.len(),
{
    let before = diff_rows(keys.drop_last(), l, r, lc, rc, ls, rs);
    if i < before.len() {
        diff_rows_shape(keys.drop_last(), l, r, lc, rc, ls, rs, i);
        let k = before[i][0];
        assert(keys.drop_last().contains(k));
        let j = choose|j: int| 0 <= j < keys.drop_last().len() && keys.drop_last()[j] == k;
        assert(keys[j] == k);
    } else {
        let k = keys.last();
        assert(keys[keys.len() - 1] == k);
    }
}

/// Whether two fetched sides hold the same rows under every one of `keys`.
pub open spec fn agree_on(keys: Seq<Seq<char>>, a: Map<Seq<char>, Row>, b: Map<Seq<char>, Row>) -> bool {
    forall|k: Seq<char>| #[trigger] keys.contains(k) ==> side(a, k) == side(b, k)
}

/// Row layout reads the fetched rows of the given keys only.
proof fn diff_rows_ignore_other_keys(
    keys: Seq<Seq<char>>,
    l: Map<Seq<char>, Row>,
    r: Map<Seq<char>, Row>,
    l2: Map<Seq<char>, Row>,
    r2: Map<Seq<char>, Row>,
    lc: Seq<Seq<char>>,
    rc: Seq<Seq<char>>,
    ls: Seq<Seq<char>>,
    rs: Seq<Seq<char>>,
)
    requires
        agree_on(keys, l, l2),
        agree_on(keys, r, r2),
    ensures
        diff_rows(keys, l2, r2, lc, rc, ls, rs) == diff_rows(keys, l, r, lc, rc, ls, rs),
    decreases keys.len(),
{
    if keys.len() > 0 {
        let k = keys.last();
        assert(keys.contains(k)) by {
            assert(keys[keys.len() - 1] == k);
        }
        assert forall|x: Seq<char>| #[trigger] keys.drop_last().contains(x) implies keys.contains(x) by {
            let j = choose|j: int| 0 <= j < keys.drop_last().len() && keys.drop_last()[j] == x;
            assert(keys[j] == x);
        }
        diff_rows_ignore_other_keys(keys.drop_last(), l, r, l2, r2, lc, rc, ls, rs);
        assert(side(l, k) == side(l2, k));
        assert(side(r, k) == side(r2, k));
    }
}

/// Whether a key is one of `subset`.
pub open spec fn key_in(subset: Set<Seq<char>>) -> spec_fn(Seq<char>) -> bool {
    |k: Seq<char>| subset.contains(k)
}

/// Whether a result row's key is one of `subset`.
pub open spec fn row_key_in(subset: Set<Seq<char>>) -> spec_fn(Seq<Seq<char>>) -> bool {
    |row: Seq<Seq<char>>| subset.contains(row[0])
}

/// Laying out a subset of the keys keeps the rows of those keys.
proof fn diff_rows_of_fewer_keys(
    keys: Seq<Seq<char>>,
    subset: Set<Seq<char>>,
    l: Map<Seq<char>, Row>,
    r: Map<Seq<char>, Row>,
    lc: Seq<Seq<char>>,
    rc: Seq<Seq<char>>,
    ls: Seq<Seq<char>>,
    rs: Seq<Seq<char>>,
)
    ensures
        diff_rows(keys.filter(key_in(subset)), l, r, lc, rc, ls, rs)
            == diff_rows(keys, l, r, lc, rc, ls, rs).filter(row_key_in(subset)),
    decreases keys.len(),
{
    reveal(Seq::filter);
    let pk = key_in(subset);
    if keys.len() == 0 {
        assert(keys.filter(pk) =~= Seq::<Seq<char>>::empty());
    } else {
        let k = keys.last();
        diff_rows_of_fewer_keys(keys.drop_last(), subset, l, r, lc, rc, ls, rs);
        let fk = keys.filter(pk);
        assert(fk == if pk(k) { keys.drop_last().filter(pk).push(k) } else { keys.drop_last().filter(pk) });
        if pk(k) {
            assert(fk.drop_last() =~= keys.drop_last().filter(pk));
            assert(fk.last() == k);
        }
        let full = diff_rows(keys, l, r, lc, rc, ls, rs);
        let before = diff_rows(keys.drop_last(), l, r, lc, rc, ls, rs);
        if l.contains_key(k) || r.contains_key(k) {
            let row = diff_row(k, side(l, k), side(r, k), lc, rc, ls, rs);
            assert(row[0] == k);
            assert(full.drop_last() =~= before);
            assert(full.last() == row);
        } else {
            assert(full == before);
        }
    }
}

/// The result of a multi-store diff reads the fetched rows of the differing keys only:
/// rows added to or taken from either side under other keys leave it as it is.
pub proof fn result_rows_ignore_other_keys(
    c: DiffConfig,
    keys: Seq<Seq<char>>,
    l: Map<Seq<char>, Row>,
    r: Map<Seq<char>, Row>,
    l2: Map<Seq<char>, Row>,
    r2: Map<Seq<char>, Row>,
)
    requires
        agree_on(keys, l, l2),
        agree_on(keys, r, r2),
    ensures
        result_rows(c, keys, l2, r2) == result_rows(c, keys, l, r),
{
    diff_rows_ignore_other_keys(
        keys,
        l,
        r,
        l2,
        r2,
        qualified_fields(c.left, c.left.compare_fields.deep_view()),
        qualified_fields(c.right, c.right.compare_fields.deep_view()),
        qualified_fields(c.left, c.left.satellite_fields.deep_view()),
        qualified_fields(c.right, c.right.satellite_fields.deep_view()),
    );
}

/// A multi-store diff over a subset of the differing keys gives exactly the rows, in
/// the same order, of the full result whose key is in that subset.
pub proof fn result_rows_of_fewer_keys(
    c: DiffConfig,
    keys: Seq<Seq<char>>,
    subset: Set<Seq<char>>,
    l: Map<Seq<char>, Row>,
    r: Map<Seq<char>, Row>,
)
    ensures
        result_rows(c, keys.filter(key_in(subset)), l, r) == result_rows(c, keys, l, r).filter(row_key_in(subset)),
{
    diff_rows_of_fewer_keys(
        keys,
        subset,
        l,
        r,
        qualified_fields(c.left, c.left.compare_fields.deep_view()),
        qualified_fields(c.right, c.right.compare_fields.deep_view()),
        qualified_fields(c.left, c.left.satellite_fields.deep_view()),
        qualified_fields(c.right, c.right.satellite_fields.deep_view()),
    );
}

/// The rows `ks` lays out, as a multiset, with the row of `k` added when a side holds `k`.
spec fn bag_with(
    m: Multiset<Seq<Seq<char>>>,
    k: Seq<char>,
    l: Map<Seq<char>, Row>,
    r: Map<Seq<char>, Row>,
    lc: Seq<Seq<char>>,
    rc: Seq<Seq<char>>,
    ls: Seq<Seq<char>>,
    rs: Seq<Seq<char>>,
) -> Multiset<Seq<Seq<char>>> {
    if l.contains_key(k) || r.contains_key(k) {
        m.insert(diff_row(k, side(l, k), side(r, k), lc, rc, ls, rs))
    } else {
        m
    }
}

/// The rows of a list of keys are those of all but its last key, with the last one's added.
proof fn diff_rows_bag_last(
    ks: Seq<Seq<char>>,
    l: Map<Seq<char>, Row>,
    r: Map<Seq<char>, Row>,
    lc: Seq<Seq<char>>,
    rc: Seq<Seq<char>>,
    ls: Seq<Seq<char>>,
    rs: Seq<Seq<char>>,
)
    requires
        ks.len() > 0,
    ensures
        diff_rows(ks, l, r, lc, rc, ls, rs).to_multiset() == bag_with(
            diff_rows(ks.drop_last(), l, r, lc, rc, ls, rs).to_multiset(),
            ks.last(),
            l,
            r,
            lc,
            rc,
            ls,
            rs,
        ),
{
    diff_rows(ks.drop_last(), l, r, lc, rc, ls, rs).to_multiset_ensures();
}

/// The rows of a list of keys are those of the list without its `i`-th key, with
/// that key's row added.
proof fn diff_rows_bag_remove(
    ks: Seq<Seq<char>>,
    i: int,
    l: Map<Seq<char>, Row>,
    r: Map<Seq<char>, Row>,
    lc: Seq<Seq<char>>,
    rc: Seq<Seq<char>>,
    ls: Seq<Seq<char>>,
    rs: Seq<Seq<char>>,
)
    requires
        0 <= i < ks.len(),
    ensures
        diff_rows(ks, l, r, lc, rc, ls, rs).to_multiset() == bag_with(
            diff_rows(ks.remove(i), l, r, lc, rc, ls, rs).to_multiset(),
            ks[i],
            l,
            r,
            lc,
            rc,
            ls,
            rs,
        ),
    decreases ks.len(),
{
    diff_rows_bag_last(ks, l, r, lc, rc, ls, rs);
    if i == ks.len() - 1 {
        assert(ks.remove(i) =~= ks.drop_last());
    } else {
        let t = ks.remove(i);
        assert(t.drop_last() =~= ks.drop_last().remove(i));
        assert(t.last() == ks.last());
        diff_rows_bag_remove(ks.drop_last(), i, l, r, lc, rc, ls, rs);
        diff_rows_bag_last(t, l, r, lc, rc, ls, rs);
        let d = diff_rows(t.drop_last(), l, r, lc, rc, ls, rs).to_multiset();
        let a = ks[i];
        let b = ks.last();
        assert(bag_with(bag_with(d, a, l, r, lc, rc, ls, rs), b, l, r, lc, rc, ls, rs)
            =~= bag_with(bag_with(d, b, l, r, lc, rc, ls, rs), a, l, r, lc, rc, ls, rs));
    }
}

/// Two lists of the same keys, each without repeats, lay out the same rows in some order.
proof fn diff_rows_bag_of_same_keys(
    ks1: Seq<Seq<char>>,
    ks2: Seq<Seq<char>>,
    l: Map<Seq<char>, Row>,
    r: Map<Seq<char>, Row>,
    lc: Seq<Seq<char>>,
    rc: Seq<Seq<char>>,
    ls: Seq<Seq<char>>,
    rs: Seq<Seq<char>>,
)
    requires
        ks1.no_duplicates(),
        ks2.no_duplicates(),
        ks1.to_set() == ks2.to_set(),
    ensures
        diff_rows(ks1, l, r, lc, rc, ls, rs).to_multiset() == diff_rows(ks2, l, r, lc, rc, ls, rs).to_multiset(),
    decreases ks1.len(),
{
    if ks1.len() == 0 {
        if ks2.len() > 0 {
            assert(ks2.to_set().contains(ks2[0]));
            assert(false);
        }
        assert(ks2 =~= ks1);
    } else {
        let x = ks1.last();
        assert(ks1.to_set().contains(x)) by {
            assert(ks1[ks1.len() - 1] == x);
        }
        assert(ks2.contains(x));
        let i = choose|i: int| 0 <= i < ks2.len() && ks2[i] == x;
        let k1 = ks1.drop_last();
        let k2 = ks2.remove(i);
        assert forall|a: int, b: int| 0 <= a < k2.len() && 0 <= b < k2.len() && a != b implies k2[a] != k2[b] by {
            let a2 = if a < i { a } else { a + 1 };
            let b2 = if b < i { b } else { b + 1 };
            assert(k2[a] == ks2[a2]);
            assert(k2[b] == ks2[b2]);
        }
        assert forall|y: Seq<char>| k1.to_set().contains(y) <==> k2.to_set().contains(y) by {
            if k1.contains(y) {
                let j = choose|j: int| 0 <= j < k1.len() && k1[j] == y;
                assert(ks1[j] == y);
                assert(y != x);
                assert(ks1.to_set().contains(y));
                assert(ks2.contains(y));
                let j2 = choose|j2: int| 0 <= j2 < ks2.len() && ks2[j2] == y;
                assert(j2 != i);
                let a = if j2 < i { j2 } else { j2 - 1 };
                assert(k2[a] == y);
            }
            if k2.contains(y) {
                let j = choose|j: int| 0 <= j < k2.len() && k2[j] == y;
                let j2 = if j < i { j } else { j + 1 };
                assert(ks2[j2] == y);
                assert(y != x);
                assert(ks2.to_set().contains(y));
                assert(ks1.contains(y));
                let j1 = choose|j1: int| 0 <= j1 < ks1.len() && ks1[j1] == y;
                assert(j1 != ks1.len() - 1);
                assert(k1[j1] == y);
            }
        }
        assert(k1.to_set() =~= k2.to_set());
        diff_rows_bag_of_same_keys(k1, k2, l, r, lc, rc, ls, rs);
        diff_rows_bag_last(ks1, l, r, lc, rc, ls, rs);
        diff_rows_bag_remove(ks2, i, l, r, lc, rc, ls, rs);
    }
}

/// Keeping the keys of a list without repeats that lie in `subset` gives a list
/// without repeats of the keys that lie in both.
proof fn filtered_keys(keys: Seq<Seq<char>>, subset: Set<Seq<char>>)
    requires
        keys.no_duplicates(),
    ensures
        keys.filter(key_in(subset)).no_duplicates(),
        forall|y: Seq<char>| #[trigger] keys.filter(key_in(subset)).contains(y) <==> keys.contains(y) && subset.contains(y),
    decreases keys.len(),
{
    reveal(Seq::filter);
    if keys.len() > 0 {
        let k = keys.drop_last();
        let x = keys.last();
        assert(k.no_duplicates()) by {
            assert forall|a: int, b: int| 0 <= a < k.len() && 0 <= b < k.len() && a != b implies k[a] != k[b] by {
                assert(k[a] == keys[a] && k[b] == keys[b]);
            }
        }
        filtered_keys(k, subset);
        let fk = k.filter(key_in(subset));
        assert forall|y: Seq<char>| keys.contains(y) <==> k.contains(y) || y == x by {
            if keys.contains(y) {
                let j = choose|j: int| 0 <= j < keys.len() && keys[j] == y;
                if j < keys.len() - 1 {
                    assert(k[j] == y);
                }
            }
            if k.contains(y) {
                let j = choose|j: int| 0 <= j < k.len() && k[j] == y;
                assert(keys[j] == y);
            }
            if y == x {
                assert(keys[keys.len() - 1] == y);
            }
        }
        assert(!k.contains(x)) by {
            if k.contains(x) {
                let j = choose|j: int| 0 <= j < k.len() && k[j] == x;
                assert(keys[j] == keys[keys.len() - 1]);
            }
        }
        if subset.contains(x) {
            let f = fk.push(x);
            assert(keys.filter(key_in(subset)) == f);
            assert forall|y: Seq<char>| f.contains(y) <==> fk.contains(y) || y == x by {
                if f.contains(y) {
                    let j = choose|j: int| 0 <= j < f.len() && f[j] == y;
                    if j < fk.len() {
                        assert(fk[j] == y);
                    }
                }
                if fk.contains(y) {
                    let j = choose|j: int| 0 <= j < fk.len() && fk[j] == y;
                    assert(f[j] == y);
                }
                if y == x {
                    assert(f[fk.len() as int] == y);
                }
            }
            assert forall|a: int, b: int| 0 <= a < f.len() && 0 <= b < f.len() && a != b implies f[a] != f[b] by {
                if a < fk.len() && b < fk.len() {
                    assert(f[a] == fk[a] && f[b] == fk[b]);
                } else if a < fk.len() {
                    assert(fk.contains(f[a]));
                } else {
                    assert(fk.contains(f[b]));
                }
            }
        } else {
            assert(keys.filter(key_in(subset)) == fk);
        }
    }
}

/// A multi-store diff over any subset of the differing keys, in any order, gives the
/// rows of the full result whose key is in that subset, each once, in some order.
pub proof fn result_rows_of_any_subset(
    c: DiffConfig,
    keys: Seq<Seq<char>>,
    subset_keys: Seq<Seq<char>>,
    l: Map<Seq<char>, Row>,
    r: Map<Seq<char>, Row>,
)
    requires
        keys.no_duplicates(),
        subset_keys.no_duplicates(),
        subset_keys.to_set().subset_of(keys.to_set()),
    ensures
        result_rows(c, subset_keys, l, r).to_multiset()
            == result_rows(c, keys, l, r).filter(row_key_in(subset_keys.to_set())).to_multiset(),
{
    let subset = subset_keys.to_set();
    let lc = qualified_fields(c.left, c.left.compare_fields.deep_view());
    let rc = qualified_fields(c.right, c.right.compare_fields.deep_view());
    let ls = qualified_fields(c.left, c.left.satellite_fields.deep_view());
    let rs = qualified_fields(c.right, c.right.satellite_fields.deep_view());
    let kept = keys.filter(key_in(subset));
    filtered_keys(keys, subset);
    assert forall|y: Seq<char>| kept.to_set().contains(y) <==> subset.contains(y) by {
        if subset.contains(y) {
            assert(keys.to_set().contains(y));
        }
        assert(kept.contains(y) <==> keys.contains(y) && subset.contains(y));
    }
    assert(kept.to_set() =~= subset);
    diff_rows_bag_of_same_keys(subset_keys, kept, l, r, lc, rc, ls, rs);
    diff_rows_of_fewer_keys(keys, subset, l, r, lc, rc, ls, rs);
}

/// The headers of a multi-store result, read from the configuration: the left key
/// name, the right key name, `status`, then the left compare fields, the right compare
/// fields, the left satellite fields and the right satellite fields, each as configured.
pub proof fn result_headers_from_config(c: DiffConfig)
    requires
        c.left.key.len() > 0,
        c.right.key.len() > 0,
    ensures
        ({
            let h = result_header_names(c);
            let lc = c.left.compare_fields@;
            let rc = c.right.compare_fields@;
            let ls = c.left.satellite_fields@;
            let rs = c.right.satellite_fields@;
            &&& h.len() == 3 + lc.len() + rc.len() + ls.len() + rs.len()
            &&& h[0] == c.left.key@[0]@
            &&& h[1] == c.right.key@[0]@
            &&& h[2] == "status"@
            &&& forall|j: int| 0 <= j < lc.len() ==> h[3 + j] == (#[trigger] lc[j])@
            &&& forall|j: int| 0 <= j < rc.len() ==> h[3 + lc.len() + j] == (#[trigger] rc[j])@
            &&& forall|j: int| 0 <= j < ls.len() ==> h[3 + lc.len() + rc.len() + j] == (#[trigger] ls[j])@
            &&& forall|j: int|
                0 <= j < rs.len() ==> h[3 + lc.len() + rc.len() + ls.len() + j] == (#[trigger] rs[j])@
        }),
{
    let lc = c.left.compare_fields;
    let rc = c.right.compare_fields;
    let ls = c.left.satellite_fields;
    let rs = c.right.satellite_fields;
    assert(lc.deep_view().len() == lc@.len());
    assert(rc.deep_view().len() == rc@.len());
    assert(ls.deep_view().len() == ls@.len());
    assert(rs.deep_view().len() == rs@.len());
    assert forall|j: int| 0 <= j < lc@.len() implies lc.deep_view()[j] == (#[trigger] lc@[j])@ by {}
    assert forall|j: int| 0 <= j < rc@.len() implies rc.deep_view()[j] == (#[trigger] rc@[j])@ by {}
    assert forall|j: int| 0 <= j < ls@.len() implies ls.deep_view()[j] == (#[trigger] ls@[j])@ by {}
    assert forall|j: int| 0 <= j < rs@.len() implies rs.deep_view()[j] == (#[trigger] rs@[j])@ by {}
}

/// Every row of a multi-store result has one column under each header but the first
/// two, whose two key names head the row's single key column: the headers are one
/// more than the row is wide.
pub proof fn result_headers_fit_rows(
    c: DiffConfig,
    keys: Seq<Seq<char>>,
    l: Map<Seq<char>, Row>,
    r: Map<Seq<char>, Row>,
    i: int,
)
    requires
        c.left.key.len() > 0,
        c.right.key.len() > 0,
        0 <= i < result_rows(c, keys, l, r).len(),
    ensures
        result_header_names(c).len() == result_rows(c, keys, l, r)[i].len() + 1,
{
    result_headers_from_config(c);
    diff_rows_shape(
        keys,
        l,
        r,
        qualified_fields(c.left, c.left.compare_fields.deep_view()),
        qualified_fields(c.right, c.right.compare_fields.deep_view()),
        qualified_fields(c.left, c.left.satellite_fields.deep_view()),
        qualified_fields(c.right, c.right.satellite_fields.deep_view()),
        i,
    );
}

/// Two sides that hold the same entries give a result without rows.
pub proof fn identical_sides_give_no_rows(
    c: DiffConfig,
    entries: Set<Seq<char>>,
    keys: Seq<Seq<char>>,
    l: Map<Seq<char>, Row>,
    r: Map<Seq<char>, Row>,
)
    requires
        keys.to_set() == diff_key_set(entries, entries),
    ensures
        result_rows(c, keys, l, r).len() == 0,
{
    crate::keys::identical_sides_differ_nowhere(entries);
    if keys.len() > 0 {
        assert(keys.to_set().contains(keys[0]));
    }
    assert(keys =~= Seq::<Seq<char>>::empty());
}

/// A reconciliation across two databases.
pub struct MultiStoreDiffer {
    config: DiffConfig,
}

/// Where a multi-store diff stands.
pub enum MultiStoreState {
    /// Nothing asked yet.
    Start,
    /// Waiting for both sides' summaries.
    AwaitingSegments,
    /// Waiting for both sides' `key__checksum` sets.
    AwaitingKeys { headers: Vec<String> },
    /// Waiting for both sides' rows of the differing keys.
    AwaitingRows { headers: Vec<String>, diff_keys: KeySet },
    /// Done, with a result or an error.
    Finished,
}

/// What the caller brings back to a multi-store diff.
pub enum MultiStoreEvent {
    /// Go.
    Begin,
    /// The summaries of the left and the right side.
    Segments(Segment, Segment),
    /// The `key__checksum` sets of the left and the right side.
    Keys(KeySet, KeySet),
    /// The rows of the differing keys, by key, of the left and the right side.
    Rows(RowResult, RowResult),
}

/// What a multi-store diff asks the caller to do next.
pub enum MultiStoreAction {
    /// Summarise each side: row count, checksum, smallest and largest key.
    FetchSegments,
    /// Fetch each side's `key__checksum` entries within its key range.
    FetchKeys { left_min: String, left_max: String, right_min: String, right_max: String },
    /// Fetch each side's rows of these keys.
    FetchRows { keys: Vec<String> },
    /// The diff is complete.
    Done(DiffResult),
    /// The diff cannot go on.
    Fail(DiffError),
}

/// The two stores a multi-store diff reads.
pub struct MultiStorePlan {
    pub left: PostgresStoreBuilder,
    pub right: PostgresStoreBuilder,
}

impl MultiStoreDiffer {
    /// The configuration this differ runs.
    pub closed spec fn diff_config(&self) -> DiffConfig {
        self.config
    }

    pub fn new(config: DiffConfig) -> (r: Self)
        ensures
            r.diff_config() == config,
    {
        Self { config }
    }

    /// The configuration this differ runs.
    pub fn config(&self) -> (r: &DiffConfig)
        ensures
            *r == self.diff_config(),
    {
        &self.config
    }

    /// The stores of the two sides, each from its connection URI; a URI that is no
    /// data source name, or lacks a part, gives the error of the left side first.
    pub fn diff(&self, _params: HashMap<String, String>) -> (r: Result<MultiStorePlan, DiffError>)
        ensures
            match (store_for(self.diff_config().left.connection_uri@), store_for(self.diff_config().right.connection_uri@)) {
                (Err(why), _) => r matches Err(x) && is_store_error(x, why),
                (Ok(_), Err(why)) => r matches Err(x) && is_store_error(x, why),
                (Ok(a), Ok(b)) => r matches Ok(p) && builder_holds(p.left, a) && builder_holds(p.right, b),
            },
    {
        let left = try_get_store(&self.config.left)?;
        let right = try_get_store(&self.config.right)?;
        Ok(MultiStorePlan { left, right })
    }

    /// Each field qualified by `alias`: `alias__field`.
    pub fn prefix_alias(&self, fields: &Vec<String>, alias: &str) -> (r: Vec<String>)
        ensures
            r.deep_view() == qualified_all(alias@, fields.deep_view()),
    {
        let mut r: Vec<String> = Vec::new();
        let n = fields.len();
        for i in 0..n
            invariant
                n == fields.len(),
                r.len() == i,
                forall|j: int| 0 <= j < i ==> #[trigger] r[j]@ == qualified(alias@, fields[j]@),
        {
            r.push(qualify(alias, fields[i].as_str()));
        }
        assert(r.deep_view() =~= qualified_all(alias@, fields.deep_view()));
        r
    }

    /// The keys whose `key__checksum` entries only one side holds.
    pub fn get_diff_keys(&self, lkeysums: &KeySet, rkeysums: &KeySet) -> (r: KeySet)
        ensures
            r@ == diff_key_set(lkeysums@, rkeysums@),
    {
        diff_keys(lkeysums, rkeysums)
    }

    /// The headers of the result.
    pub fn result_headers(&self) -> (r: Vec<String>)
        requires
            self.diff_config().left.key.len() > 0,
            self.diff_config().right.key.len() > 0,
        ensures
            r.deep_view() == result_header_names(self.diff_config()),
    {
        let lconfig = &self.config.left;
        let rconfig = &self.config.right;
        let mut headers: Vec<String> = Vec::new();
        headers.push(lconfig.key[0].clone());
        headers.push(rconfig.key[0].clone());
        headers.push(String::from_str("status"));
        let mut lc = copy_strings(&lconfig.compare_fields);
        let mut rc = copy_strings(&rconfig.compare_fields);
        let mut ls = copy_strings(&lconfig.satellite_fields);
        let mut rs = copy_strings(&rconfig.satellite_fields);
        let ghost (a, b, c, d, e) = (headers.deep_view(), lc.deep_view(), rc.deep_view(), ls.deep_view(), rs.deep_view());
        headers.append(&mut lc);
        assert(headers.deep_view() =~= a + b);
        headers.append(&mut rc);
        assert(headers.deep_view() =~= a + b + c);
        headers.append(&mut ls);
        assert(headers.deep_view() =~= a + b + c + d);
        headers.append(&mut rs);
        assert(headers.deep_view() =~= a + b + c + d + e);
        assert(a =~= seq![lconfig.key@[0]@, rconfig.key@[0]@, "status"@]);
        headers
    }

    /// Lays out the fetched rows of the differing keys under the given headers.
    /// Every fetched row must hold the compare and satellite fields of its side.
    pub fn build_results_from_values(
        &self,
        lrow_result: RowResult,
        rrow_result: RowResult,
        headers: Vec<String>,
        diff_keys: KeySet,
    ) -> (r: Result<DiffResult, DiffError>)
        requires
            rows_complete(self.diff_config(), diff_keys.ordered(), lrow_result@, rrow_result@),
        ensures
            r matches Ok(d) && d.headers == headers
                && d.rows.deep_view() == result_rows(self.diff_config(), diff_keys.ordered(), lrow_result@, rrow_result@),
    {
        let lalias = to_uppercase(self.config.left.alias.as_str());
        let ralias = to_uppercase(self.config.right.alias.as_str());
        let lcompare_fields = self.prefix_alias(&self.config.left.compare_fields, lalias.as_str());
        let rcompare_fields = self.prefix_alias(&self.config.right.compare_fields, ralias.as_str());
        let lsatellite_fields = self.prefix_alias(&self.config.left.satellite_fields, lalias.as_str());
        let rsatellite_fields = self.prefix_alias(&self.config.right.satellite_fields, ralias.as_str());
        let rows = assemble_rows(
            &diff_keys,
            &lrow_result,
            &rrow_result,
            &lcompare_fields,
            &rcompare_fields,
            &lsatellite_fields,
            &rsatellite_fields,
        );
        Ok(DiffResult { headers, rows })
    }

    /// As `build_results_from_values`, but a fetched row that lacks a field it must
    /// hold gives `MissingField`.
    pub fn try_build_results(
        &self,
        lrow_result: RowResult,
        rrow_result: RowResult,
        headers: Vec<String>,
        diff_keys: KeySet,
    ) -> (r: Result<DiffResult, DiffError>)
        ensures
            rows_complete(self.diff_config(), diff_keys.ordered(), lrow_result@, rrow_result@) ==> (r matches Ok(d)
                && d.headers == headers
                && d.rows.deep_view() == result_rows(self.diff_config(), diff_keys.ordered(), lrow_result@, rrow_result@)),
            !rows_complete(self.diff_config(), diff_keys.ordered(), lrow_result@, rrow_result@) ==> (r matches Err(e)
                && e == DiffError::MissingField),
    {
        let lalias = to_uppercase(self.config.left.alias.as_str());
        let ralias = to_uppercase(self.config.right.alias.as_str());
        let lc = self.prefix_alias(&self.config.left.compare_fields, lalias.as_str());
        let rc = self.prefix_alias(&self.config.right.compare_fields, ralias.as_str());
        let ls = self.prefix_alias(&self.config.left.satellite_fields, lalias.as_str());
        let rs = self.prefix_alias(&self.config.right.satellite_fields, ralias.as_str());
        if rows_hold_fields(&lrow_result, &diff_keys, &lc) && rows_hold_fields(&lrow_result, &diff_keys, &ls)
            && rows_hold_fields(&rrow_result, &diff_keys, &rc) && rows_hold_fields(&rrow_result, &diff_keys, &rs) {
            self.build_results_from_values(lrow_result, rrow_result, headers, diff_keys)
        } else {
            Err(DiffError::MissingField)
        }
    }

    /// Takes a multi-store diff one step: from `state`, on what the caller brings
    /// back, to the next state and what the caller must do next.
    ///
    /// Summaries that agree in row count and checksum end the diff with no rows;
    /// otherwise the keys whose entries differ are fetched, and their rows laid out.
    pub fn step(&self, state: MultiStoreState, event: MultiStoreEvent) -> (r: (MultiStoreState, MultiStoreAction))
        ensures
            match (state, event) {
                (MultiStoreState::Start, MultiStoreEvent::Begin) => r.0 is AwaitingSegments && r.1 is FetchSegments,
                (MultiStoreState::AwaitingSegments, MultiStoreEvent::Segments(ls, rs)) => {
                    if self.diff_config().left.key.len() == 0 || self.diff_config().right.key.len() == 0 {
                        r.0 is Finished && (r.1 matches MultiStoreAction::Fail(e) && e == DiffError::EmptyKey)
                    } else if ls.count == rs.count && ls.checksum@ == rs.checksum@ {
                        r.0 is Finished && (r.1 matches MultiStoreAction::Done(d)
                            && d.headers.deep_view() == result_header_names(self.diff_config())
                            && d.rows@.len() == 0)
                    } else {
                        &&& r.0 matches MultiStoreState::AwaitingKeys { headers }
                            && headers.deep_view() == result_header_names(self.diff_config())
                        &&& r.1 matches MultiStoreAction::FetchKeys { left_min, left_max, right_min, right_max }
                            && left_min@ == ls.min@ && left_max@ == ls.max@
                            && right_min@ == rs.min@ && right_max@ == rs.max@
                    }
                },
                (MultiStoreState::AwaitingKeys { headers }, MultiStoreEvent::Keys(lk, rk)) => {
                    &&& r.0 matches MultiStoreState::AwaitingRows { headers: h, diff_keys: dk } && h == headers
                        && dk@ == diff_key_set(lk@, rk@)
                        && (r.1 matches MultiStoreAction::FetchRows { keys } && keys.deep_view() == dk.ordered())
                },
                (MultiStoreState::AwaitingRows { headers, diff_keys }, MultiStoreEvent::Rows(lr, rr)) => {
                    &&& r.0 is Finished
                    &&& if rows_complete(self.diff_config(), diff_keys.ordered(), lr@, rr@) {
                        r.1 matches MultiStoreAction::Done(d) && d.headers == headers
                            && d.rows.deep_view() == result_rows(self.diff_config(), diff_keys.ordered(), lr@, rr@)
                    } else {
                        r.1 matches MultiStoreAction::Fail(e) && e == DiffError::MissingField
                    }
                },
                _ => r.0 is Finished && (r.1 matches MultiStoreAction::Fail(e) && e == DiffError::UnexpectedEvent),
            },
    {
        match (state, event) {
            (MultiStoreState::Start, MultiStoreEvent::Begin) => (
                MultiStoreState::AwaitingSegments,
                MultiStoreAction::FetchSegments,
            ),
            (MultiStoreState::AwaitingSegments, MultiStoreEvent::Segments(ls, rs)) => {
                if self.config.left.key.len() == 0 || self.config.right.key.len() == 0 {
                    return (MultiStoreState::Finished, MultiStoreAction::Fail(DiffError::EmptyKey));
                }
                let headers = self.result_headers();
                if segments_match(&ls, &rs) {
                    (MultiStoreState::Finished, MultiStoreAction::Done(DiffResult { headers, rows: Vec::new() }))
                } else {
                    (
                        MultiStoreState::AwaitingKeys { headers },
                        MultiStoreAction::FetchKeys {
                            left_min: ls.min,
                            left_max: ls.max,
                            right_min: rs.min,
                            right_max: rs.max,
                        },
                    )
                }
            },
            (MultiStoreState::AwaitingKeys { headers }, MultiStoreEvent::Keys(lk, rk)) => {
                let dk = self.get_diff_keys(&lk, &rk);
                let keys = dk.to_vec();
                (MultiStoreState::AwaitingRows { headers, diff_keys: dk }, MultiStoreAction::FetchRows { keys })
            },
            (MultiStoreState::AwaitingRows { headers, diff_keys }, MultiStoreEvent::Rows(lr, rr)) => {
                match self.try_build_results(lr, rr, headers, diff_keys) {
                    Ok(d) => (MultiStoreState::Finished, MultiStoreAction::Done(d)),
                    Err(e) => (MultiStoreState::Finished, MultiStoreAction::Fail(e)),
                }
            },
            _ => (MultiStoreState::Finished, MultiStoreAction::Fail(DiffError::UnexpectedEvent)),
        }
    }
}

} // verus!
