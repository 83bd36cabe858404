//! Query rows as maps from column name to text, and sets of rows keyed by their `KEY` column.
use vstd::prelude::*;
use vstd::hash_map::StringHashMap;
use crate::text::text_eq;

verus! {

/// The map that a list of (key, value) pairs gives when inserted in order:
/// a later pair overwrites an earlier one with the same key.
pub open spec fn assoc_map<K, V>(s: Seq<(K, V)>) -> Map<K, V>
    decreases s.len(),
{
    if s.len() == 0 {
        Map::empty()
    } else {
        assoc_map(s.drop_last()).insert(s.last().0, s.last().1)
    }
}

/// Pairs after position `i` that do not hold key `k` leave `k`'s entry as the first `i` pairs made it.
proof fn lemma_assoc_map_tail_free<K, V>(s: Seq<(K, V)>, i: int, k: K)
    requires
        0 <= i <= s.len(),
        forall|j: int| i <= j < s.len() ==> (#[trigger] s[j]).0 != k,
    ensures
        assoc_map(s).contains_key(k) == assoc_map(s.subrange(0, i)).contains_key(k),
        assoc_map(s).contains_key(k) ==> assoc_map(s)[k] == assoc_map(s.subrange(0, i))[k],
    decreases s.len() - i,
{
    if i == s.len() {
        assert(s.subrange(0, i) =~= s);
    } else {
        let p = s.drop_last();
        assert forall|j: int| i <= j < p.len() implies (#[trigger] p[j]).0 != k by {
            assert(p[j] == s[j]);
        }
        lemma_assoc_map_tail_free(p, i, k);
        assert(p.subrange(0, i) =~= s.subrange(0, i));
        assert(s[s.len() - 1].0 != k);
    }
}

/// The pair at position `j` is what the first `j + 1` pairs map its key to.
proof fn lemma_assoc_map_at<K, V>(s: Seq<(K, V)>, j: int)
    requires
        0 <= j < s.len(),
    ensures
        assoc_map(s.subrange(0, j + 1)).contains_key(s[j].0),
        assoc_map(s.subrange(0, j + 1))[s[j].0] == s[j].1,
{
    assert(s.subrange(0, j + 1).drop_last() =~= s.subrange(0, j));
}

/// One named cell of a query row, as text.
pub struct Column {
    pub name: String,
    pub value: String,
}

impl View for Column {
    type V = (Seq<char>, Seq<char>);

    open spec fn view(&self) -> (Seq<char>, Seq<char>) {
        (self.name@, self.value@)
    }
}

/// A query row: its cells in column order. Read as a map, a later column
/// overwrites an earlier one of the same name.
pub struct Row {
    pub columns: Vec<Column>,
}

impl Row {
    /// The row's cells as (name, text) pairs, in column order.
    pub open spec fn entries(&self) -> Seq<(Seq<char>, Seq<char>)> {
        self.columns@.map_values(|c: Column| c@)
    }
}

impl View for Row {
    type V = Map<Seq<char>, Seq<char>>;

    open spec fn view(&self) -> Map<Seq<char>, Seq<char>> {
        assoc_map(self.entries())
    }
}

impl Row {
    /// An empty row.
    pub fn new() -> (r: Row)
        ensures
            r.entries() == Seq::<(Seq<char>, Seq<char>)>::empty(),
            r@ == Map::<Seq<char>, Seq<char>>::empty(),
    {
        let r = Row { columns: Vec::new() };
        assert(r.entries() =~= Seq::<(Seq<char>, Seq<char>)>::empty());
        r
    }

    /// Appends a cell; as a map, the row now sends `name` to `value`.
    pub fn insert(&mut self, name: String, value: String)
        ensures
            final(self).entries() == old(self).entries().push((name@, value@)),
            final(self)@ == old(self)@.insert(name@, value@),
    {
        let ghost before = self.entries();
        self.columns.push(Column { name, value });
        assert(self.entries() =~= before.push((name@, value@)));
        assert(self.entries().drop_last() =~= before);
    }

    /// The number of cells.
    pub fn len(&self) -> (n: usize)
        ensures
            n == self.entries().len(),
    {
        self.columns.len()
    }

    /// The text of column `name`: that of the last cell so named.
    pub fn get(&self, name: &str) -> (r: Option<&String>)
        ensures
            match r {
                Some(v) => self@.contains_key(name@) && v@ == self@[name@],
                None => !self@.contains_key(name@),
            },
    {
        let ghost e = self.entries();
        let mut i = self.columns.len();
        while i > 0
            invariant
                i <= self.columns.len(),
                e == self.entries(),
                forall|j: int| i <= j < e.len() ==> (#[trigger] e[j]).0 != name@,
            decreases i,
        {
            let c = &self.columns[i - 1];
            if text_eq(c.name.as_str(), name) {
                proof {
                    lemma_assoc_map_tail_free(e, i as int, name@);
                    lemma_assoc_map_at(e, i - 1);
                }
                return Some(&c.value);
            }
            i = i - 1;
        }
        proof {
            lemma_assoc_map_tail_free(e, 0, name@);
            assert(e.subrange(0, 0) =~= Seq::<(Seq<char>, Seq<char>)>::empty());
        }
        None
    }

    /// Whether the row has a column `name`.
    pub fn contains(&self, name: &str) -> (b: bool)
        ensures
            b == self@.contains_key(name@),
    {
        self.get(name).is_some()
    }

    /// The text of every column whose name no later column repeats, in column order:
    /// the values of the row read as a map.
    pub fn values(&self) -> (r: Vec<String>)
        ensures
            r.deep_view() == live_values(self.entries()),
    {
        let ghost e = self.entries();
        let n = self.columns.len();
        let mut r: Vec<String> = Vec::new();
        assert(e.skip(0) =~= e);
        for i in 0..n
            invariant
                n == self.columns.len(),
                e == self.entries(),
                live_values(e) == r.deep_view() + live_values(e.skip(i as int)),
        {
            let ghost rest = e.skip(i as int);
            let mut later = false;
            let mut k = i + 1;
            while k < n
                invariant_except_break
                    !later,
                invariant
                    i < k <= n,
                    n == self.columns.len(),
                    e == self.entries(),
                    forall|m: int| i < m < k ==> (#[trigger] e[m]).0 != e[i as int].0,
                ensures
                    later ==> k < n && e[k as int].0 == e[i as int].0,
                    !later ==> forall|m: int| i < m < n ==> (#[trigger] e[m]).0 != e[i as int].0,
                decreases n - k,
            {
                if text_eq(self.columns[k].name.as_str(), self.columns[i].name.as_str()) {
                    later = true;
                    break;
                }
                k = k + 1;
            }
            proof {
                assert(rest.drop_first() =~= e.skip(i + 1));
                if later {
                    assert(rest[k - i] == e[k as int]);
                    assert(repeats_later(rest));
                } else {
                    assert forall|m: int| 1 <= m < rest.len() implies (#[trigger] rest[m]).0 != rest[0].0 by {
                        assert(rest[m] == e[i + m]);
                    }
                    assert(!repeats_later(rest));
                }
            }
            if !later {
                let ghost before = r.deep_view();
                r.push(self.columns[i].value.clone());
                assert(r.deep_view() =~= before.push(e[i as int].1));
                assert(before.push(e[i as int].1) + live_values(e.skip(i + 1)) =~= before + (seq![e[i as int].1] + live_values(e.skip(i + 1))));
            } else {
                assert(live_values(rest) =~= live_values(e.skip(i + 1)));
            }
        }
        assert(e.skip(n as int) =~= Seq::<(Seq<char>, Seq<char>)>::empty());
        assert(r.deep_view() + Seq::<Seq<char>>::empty() =~= r.deep_view());
        r
    }
}

/// Whether the first pair's key comes again later in `s`.
pub open spec fn repeats_later(s: Seq<(Seq<char>, Seq<char>)>) -> bool {
    exists|m: int| 1 <= m < s.len() && (#[trigger] s[m]).0 == s[0].0
}

/// The value of every pair whose key no later pair repeats, in order.
pub open spec fn live_values(s: Seq<(Seq<char>, Seq<char>)>) -> Seq<Seq<char>>
    decreases s.len(),
{
    if s.len() == 0 {
        Seq::empty()
    } else if repeats_later(s) {
        live_values(s.drop_first())
    } else {
        seq![s[0].1] + live_values(s.drop_first())
    }
}

/// A key is in the map of a list of pairs exactly when some pair holds it.
proof fn lemma_assoc_map_dom(s: Seq<(Seq<char>, Seq<char>)>, k: Seq<char>)
    ensures
        assoc_map(s).contains_key(k) <==> exists|j: int| 0 <= j < s.len() && (#[trigger] s[j]).0 == k,
    decreases s.len(),
{
    if s.len() > 0 {
        let p = s.drop_last();
        lemma_assoc_map_dom(p, k);
        if exists|j: int| 0 <= j < p.len() && (#[trigger] p[j]).0 == k {
            let j = choose|j: int| 0 <= j < p.len() && (#[trigger] p[j]).0 == k;
            assert(s[j] == p[j]);
        }
        if exists|j: int| 0 <= j < s.len() && (#[trigger] s[j]).0 == k {
            let j = choose|j: int| 0 <= j < s.len() && (#[trigger] s[j]).0 == k;
            if j < s.len() - 1 {
                assert(p[j] == s[j]);
            }
        }
    }
}

/// The map of a list of pairs, read from the front: the first pair stands unless a
/// later pair holds its key.
proof fn lemma_assoc_map_front(s: Seq<(Seq<char>, Seq<char>)>)
    requires
        s.len() > 0,
    ensures
        assoc_map(s) == if repeats_later(s) {
            assoc_map(s.drop_first())
        } else {
            assoc_map(s.drop_first()).insert(s[0].0, s[0].1)
        },
    decreases s.len(),
{
    let t = s.drop_first();
    let x = s[0];
    if s.len() == 1 {
        assert(s.drop_last() =~= Seq::<(Seq<char>, Seq<char>)>::empty());
        assert(t =~= Seq::<(Seq<char>, Seq<char>)>::empty());
        assert(!repeats_later(s));
        assert(assoc_map(s) =~= assoc_map(t).insert(x.0, x.1));
    } else {
        let p = s.drop_last();
        let last = s.last();
        assert(t.drop_last() =~= p.drop_first());
        assert(t.last() == last);
        lemma_assoc_map_front(p);
        assert(p[0] == x);
        if repeats_later(p) {
            let m = choose|m: int| 1 <= m < p.len() && (#[trigger] p[m]).0 == p[0].0;
            assert(s[m] == p[m]);
            assert(repeats_later(s));
            assert(assoc_map(s) =~= assoc_map(t));
        } else if last.0 == x.0 {
            assert(s[s.len() - 1] == last);
            assert(repeats_later(s));
            assert(assoc_map(s) =~= assoc_map(t));
        } else {
            assert(!repeats_later(s)) by {
                if repeats_later(s) {
                    let m = choose|m: int| 1 <= m < s.len() && (#[trigger] s[m]).0 == s[0].0;
                    if m < s.len() - 1 {
                        assert(p[m] == s[m]);
                    }
                }
            }
            assert(assoc_map(s) =~= assoc_map(t).insert(x.0, x.1));
        }
    }
}

/// The keys under which `live_values` reads the map, each once.
proof fn live_keys(s: Seq<(Seq<char>, Seq<char>)>) -> (ks: Seq<Seq<char>>)
    ensures
        ks.no_duplicates(),
        ks.to_set() == assoc_map(s).dom(),
        live_values(s) == ks.map_values(|k: Seq<char>| assoc_map(s)[k]),
    decreases s.len(),
{
    if s.len() == 0 {
        let ks = Seq::<Seq<char>>::empty();
        assert(ks.to_set() =~= assoc_map(s).dom());
        assert(live_values(s) =~= ks.map_values(|k: Seq<char>| assoc_map(s)[k]));
        ks
    } else {
        let t = s.drop_first();
        let x = s[0];
        let kt = live_keys(t);
        lemma_assoc_map_front(s);
        if repeats_later(s) {
            kt
        } else {
            assert(!assoc_map(t).contains_key(x.0)) by {
                lemma_assoc_map_dom(t, x.0);
                if assoc_map(t).contains_key(x.0) {
                    let j = choose|j: int| 0 <= j < t.len() && (#[trigger] t[j]).0 == x.0;
                    assert(s[j + 1] == t[j]);
                }
            }
            let ks = seq![x.0] + kt;
            assert forall|k: Seq<char>| #[trigger] kt.contains(k) implies k != x.0 by {
                assert(kt.to_set().contains(k));
            }
            assert forall|a: int, b: int| 0 <= a < ks.len() && 0 <= b < ks.len() && a != b implies ks[a] != ks[b] by {
                if a > 0 && b > 0 {
                    assert(ks[a] == kt[a - 1] && ks[b] == kt[b - 1]);
                } else if a == 0 {
                    assert(kt.contains(kt[b - 1]));
                } else {
                    assert(kt.contains(kt[a - 1]));
                }
            }
            assert forall|k: Seq<char>| ks.to_set().contains(k) <==> assoc_map(s).dom().contains(k) by {
                if kt.contains(k) {
                    let j = choose|j: int| 0 <= j < kt.len() && kt[j] == k;
                    assert(ks[j + 1] == k);
                }
                if ks.contains(k) && k != x.0 {
                    let j = choose|j: int| 0 <= j < ks.len() && ks[j] == k;
                    assert(kt[j - 1] == k);
                    assert(kt.to_set().contains(k));
                }
                if k == x.0 {
                    assert(ks[0] == k);
                }
                if assoc_map(t).dom().contains(k) {
                    assert(kt.to_set().contains(k));
                }
            }
            assert(ks.to_set() =~= assoc_map(s).dom());
            assert forall|j: int| 1 <= j < ks.len() implies assoc_map(s)[#[trigger] ks[j]] == assoc_map(t)[ks[j]] by {
                assert(ks[j] == kt[j - 1]);
                assert(kt.contains(kt[j - 1]));
            }
            assert(live_values(s) =~= ks.map_values(|k: Seq<char>| assoc_map(s)[k]));
            ks
        }
    }
}

/// A row's values are the values of the row read as a map, one per distinct column
/// name, empty texts included: as many as the map has entries, and each entry's value
/// once.
pub proof fn row_values_are_map_values(row: Row)
    ensures
        live_values(row.entries()).len() == row@.dom().len(),
        exists|ks: Seq<Seq<char>>|
            ks.no_duplicates() && ks.to_set() == row@.dom()
                && live_values(row.entries()) == ks.map_values(|k: Seq<char>| row@[k]),
{
    let ks = live_keys(row.entries());
    ks.unique_seq_to_set();
}

/// Rows indexed by the text of their `KEY` column; a later row with the same key
/// replaces an earlier one.
pub struct RowResult {
    rows: StringHashMap<Row>,
}

impl View for RowResult {
    type V = Map<Seq<char>, Row>;

    closed spec fn view(&self) -> Map<Seq<char>, Row> {
        self.rows@
    }
}

/// The name of the column that keys a fetched row.
pub open spec fn key_column() -> Seq<char> {
    seq!['K', 'E', 'Y']
}

/// The rows indexed by their `KEY` text, a later row replacing an earlier one of the same key.
pub open spec fn rows_keyed(rows: Seq<Row>) -> Map<Seq<char>, Row> {
    assoc_map(rows.map_values(|r: Row| (r@[key_column()], r)))
}

impl RowResult {
    /// No rows.
    pub fn new() -> (r: RowResult)
        ensures
            r@ == Map::<Seq<char>, Row>::empty(),
    {
        RowResult { rows: StringHashMap::new() }
    }

    /// Files `row` under `key`, replacing any row filed there before.
    pub fn insert(&mut self, key: String, row: Row)
        ensures
            final(self)@ == old(self)@.insert(key@, row),
    {
        self.rows.insert(key, row);
    }

    /// The row filed under `key`.
    pub fn get(&self, key: &str) -> (r: Option<&Row>)
        ensures
            match r {
                Some(v) => self@.contains_key(key@) && *v == self@[key@],
                None => !self@.contains_key(key@),
            },
    {
        self.rows.get(key)
    }

    /// The number of keys.
    pub fn len(&self) -> (n: usize)
        ensures
            n == self@.len(),
    {
        broadcast use vstd::hash_map::group_hash_map_axioms;
        self.rows.len()
    }
}

/// Files each fetched row under its `KEY` text, as the rows come.
pub fn rows_by_key(rows: Vec<Row>) -> (r: RowResult)
    requires
        forall|i: int| 0 <= i < rows.len() ==> (#[trigger] rows[i])@.contains_key(key_column()),
    ensures
        r@ == rows_keyed(rows@),
{
    let ghost all = rows@;
    let ghost pairs = all.map_values(|r: Row| (r@[key_column()], r));
    let ghost n = all.len();
    let mut result = RowResult::new();
    assert(pairs.subrange(0, 0) =~= Seq::<(Seq<char>, Row)>::empty());
    for row in it: rows
        invariant
            n == all.len(),
            it.seq() == all,
            result@ == assoc_map(pairs.subrange(0, it.index())),
            pairs == all.map_values(|r: Row| (r@[key_column()], r)),
            forall|j: int| 0 <= j < all.len() ==> (#[trigger] all[j])@.contains_key(key_column()),
    {
        let ghost i = it.index();
        assert(row == all[i]);
        proof {
            reveal_strlit("KEY");
            assert("KEY"@ =~= key_column());
        }
        let key = match row.get("KEY") {
            Some(k) => k.clone(),
            None => String::new(),
        };
        assert(key@ == row@[key_column()]);
        result.insert(key, row);
        assert(pairs.subrange(0, i + 1).drop_last() =~= pairs.subrange(0, i));
    }
    assert(pairs.subrange(0, n as int) =~= pairs);
    result
}

/// What a lookup gives back is what was filed: the row found under a key has that
/// key in its `KEY` column.
pub proof fn keyed_rows_carry_their_key(rows: Seq<Row>, k: Seq<char>)
    requires
        forall|i: int| 0 <= i < rows.len() ==> (#[trigger] rows[i])@.contains_key(key_column()),
        rows_keyed(rows).contains_key(k),
    ensures
        rows_keyed(rows)[k]@[key_column()] == k,
    decreases rows.len(),
{
    let pairs = rows.map_values(|r: Row| (r@[key_column()], r));
    let front = rows.drop_last();
    assert(pairs.drop_last() =~= front.map_values(|r: Row| (r@[key_column()], r)));
    if pairs.last().0 != k {
        assert forall|i: int| 0 <= i < front.len() implies (#[trigger] front[i])@.contains_key(key_column()) by {
            assert(front[i] == rows[i]);
        }
        keyed_rows_carry_their_key(front, k);
    }
}

} // verus!
