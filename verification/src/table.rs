//! A table of values keyed by a pair of texts.
//!
//! `Table<V>` stands for a map from `(outer, inner)` to a value, and that map
//! is its view. It keeps its rows in a vector, in the order in which their
//! keys first came and no key twice: so its rows can be walked in an order
//! that is the same at every run, and every lookup is proved against the map.

use crate::text::same;
use vstd::prelude::*;

verus! {

/// A key of a table: the outer and the inner text.
pub type Key = (Seq<char>, Seq<char>);

/// One row of a table.
#[derive(Debug)]
pub struct Row<V> {
    pub outer: String,
    pub inner: String,
    pub value: V,
}

/// The key of a row.
pub open spec fn row_key<V>(row: Row<V>) -> Key {
    (row.outer@, row.inner@)
}

/// Whether no two rows have the same key.
pub open spec fn distinct_keys<V>(rows: Seq<Row<V>>) -> bool {
    forall|i: int, j: int|
        0 <= i < j < rows.len() ==> row_key(#[trigger] rows[i]) != row_key(#[trigger] rows[j])
}

/// The map that a sequence of rows stands for. Of two rows with one key the
/// later one counts.
pub open spec fn rows_map<V: View>(rows: Seq<Row<V>>) -> Map<Key, V::V>
    decreases rows.len(),
{
    if rows.len() == 0 {
        Map::empty()
    } else {
        rows_map(rows.drop_last()).insert(row_key(rows.last()), rows.last().value@)
    }
}

/// Whether a map holds an entry whose key has the given outer text.
pub open spec fn has_outer<X>(m: Map<Key, X>, outer: Seq<char>) -> bool {
    exists|inner: Seq<char>| #[trigger] m.contains_key((outer, inner))
}

/// A key is in the map exactly when some row has it.
pub proof fn lemma_rows_map_dom<V: View>(rows: Seq<Row<V>>, key: Key)
    ensures
        rows_map(rows).contains_key(key) <==> exists|i: int|
            0 <= i < rows.len() && row_key(#[trigger] rows[i]) == key,
    decreases rows.len(),
{
    if rows.len() > 0 {
        let front = rows.drop_last();
        lemma_rows_map_dom(front, key);
        if rows_map(rows).contains_key(key) {
            if row_key(rows.last()) == key {
                assert(row_key(rows[rows.len() - 1]) == key);
            } else {
                let i = choose|i: int| 0 <= i < front.len() && row_key(#[trigger] front[i]) == key;
                assert(row_key(rows[i]) == key);
            }
        }
        if exists|i: int| 0 <= i < rows.len() && row_key(#[trigger] rows[i]) == key {
            let i = choose|i: int| 0 <= i < rows.len() && row_key(#[trigger] rows[i]) == key;
            if i < rows.len() - 1 {
                assert(row_key(front[i]) == key);
            }
        }
    }
}

/// With distinct keys, the map holds each row's value under its key.
pub proof fn lemma_rows_map_at<V: View>(rows: Seq<Row<V>>, i: int)
    requires
        distinct_keys(rows),
        0 <= i < rows.len(),
    ensures
        rows_map(rows).contains_key(row_key(rows[i])),
        rows_map(rows)[row_key(rows[i])] == rows[i].value@,
    decreases rows.len(),
{
    if i < rows.len() - 1 {
        let front = rows.drop_last();
        assert(distinct_keys(front)) by {
            assert forall|a: int, b: int| 0 <= a < b < front.len() implies row_key(
                #[trigger] front[a],
            ) != row_key(#[trigger] front[b]) by {
                assert(front[a] == rows[a] && front[b] == rows[b]);
            }
        }
        lemma_rows_map_at(front, i);
        assert(front[i] == rows[i]);
        assert(row_key(rows[i]) != row_key(rows[rows.len() - 1]));
    }
}

/// With distinct keys, a new value in a row is a new value under its key.
pub proof fn lemma_rows_map_update<V: View>(rows: Seq<Row<V>>, i: int, row: Row<V>)
    requires
        distinct_keys(rows),
        0 <= i < rows.len(),
        row_key(row) == row_key(rows[i]),
    ensures
        distinct_keys(rows.update(i, row)),
        rows_map(rows.update(i, row)) == rows_map(rows).insert(row_key(row), row.value@),
    decreases rows.len(),
{
    let next = rows.update(i, row);
    assert(distinct_keys(next)) by {
        assert forall|a: int, b: int| 0 <= a < b < next.len() implies row_key(
            #[trigger] next[a],
        ) != row_key(#[trigger] next[b]) by {
            assert(row_key(next[a]) == row_key(rows[a]));
            assert(row_key(next[b]) == row_key(rows[b]));
        }
    }
    let front = rows.drop_last();
    if i == rows.len() - 1 {
        assert(next.drop_last() =~= front);
        assert(rows_map(next) =~= rows_map(rows).insert(row_key(row), row.value@));
    } else {
        assert(distinct_keys(front)) by {
            assert forall|a: int, b: int| 0 <= a < b < front.len() implies row_key(
                #[trigger] front[a],
            ) != row_key(#[trigger] front[b]) by {
                assert(front[a] == rows[a] && front[b] == rows[b]);
            }
        }
        lemma_rows_map_update(front, i, row);
        assert(next.drop_last() =~= front.update(i, row));
        assert(next.last() == rows.last());
        assert(row_key(rows[i]) != row_key(rows[rows.len() - 1]));
        assert(rows_map(next) =~= rows_map(rows).insert(row_key(row), row.value@));
    }
}

/// A new row at the end is a new entry of the map.
pub proof fn lemma_rows_map_push<V: View>(rows: Seq<Row<V>>, row: Row<V>)
    requires
        distinct_keys(rows),
        !rows_map(rows).contains_key(row_key(row)),
    ensures
        distinct_keys(rows.push(row)),
        rows_map(rows.push(row)) == rows_map(rows).insert(row_key(row), row.value@),
{
    let next = rows.push(row);
    assert(next.drop_last() =~= rows);
    assert forall|a: int, b: int| 0 <= a < b < next.len() implies row_key(#[trigger] next[a])
        != row_key(#[trigger] next[b]) by {
        if b == rows.len() {
            lemma_rows_map_dom(rows, row_key(row));
            assert(next[a] == rows[a]);
        } else {
            assert(next[a] == rows[a] && next[b] == rows[b]);
        }
    }
}

/// A table of values keyed by a pair of texts.
#[derive(Debug)]
pub struct Table<V> {
    rows: Vec<Row<V>>,
}

impl<V: View> View for Table<V> {
    type V = Map<Key, V::V>;

    closed spec fn view(&self) -> Map<Key, V::V> {
        rows_map(self.rows@)
    }
}

impl<V> Table<V> {
    #[verifier::type_invariant]
    spec fn well_formed(&self) -> bool {
        distinct_keys(self.rows@)
    }
}

impl<V: View> Table<V> {
    /// The rows, in the order in which their keys first came.
    pub closed spec fn rows(&self) -> Seq<Row<V>> {
        self.rows@
    }

    /// An empty table.
    pub fn new() -> (t: Self)
        ensures
            t@ == Map::<Key, V::V>::empty(),
            t.rows().len() == 0,
    {
        Table { rows: Vec::new() }
    }

    /// The rows of the table: no key twice, and together the table's map.
    pub fn as_rows(&self) -> (r: &Vec<Row<V>>)
        ensures
            r@ == self.rows(),
            distinct_keys(r@),
            rows_map(r@) == self@,
    {
        proof {
            use_type_invariant(self);
        }
        &self.rows
    }

    /// The index of the row with the given key.
    pub fn position(&self, outer: &str, inner: &str) -> (r: Option<usize>)
        ensures
            match r {
                Some(i) => i < self.rows().len() && row_key(self.rows()[i as int]) == (
                    outer@,
                    inner@,
                ) && self@.contains_key((outer@, inner@)),
                None => !self@.contains_key((outer@, inner@)),
            },
    {
        proof {
            use_type_invariant(self);
        }
        let mut i: usize = 0;
        while i < self.rows.len()
            invariant
                i <= self.rows.len(),
                forall|j: int| 0 <= j < i ==> row_key(#[trigger] self.rows@[j]) != (outer@, inner@),
            decreases self.rows.len() - i,
        {
            let row = &self.rows[i];
            if same(row.outer.as_str(), outer) && same(row.inner.as_str(), inner) {
                proof {
                    lemma_rows_map_dom(self.rows@, (outer@, inner@));
                }
                return Some(i);
            }
            i += 1;
        }
        proof {
            lemma_rows_map_dom(self.rows@, (outer@, inner@));
        }
        None
    }

    /// The value under a key.
    pub fn get(&self, outer: &str, inner: &str) -> (r: Option<&V>)
        ensures
            match r {
                Some(v) => self@.contains_key((outer@, inner@)) && v@ == self@[(outer@, inner@)],
                None => !self@.contains_key((outer@, inner@)),
            },
    {
        proof {
            use_type_invariant(self);
        }
        match self.position(outer, inner) {
            Some(i) => {
                proof {
                    lemma_rows_map_at(self.rows@, i as int);
                }
                Some(&self.rows[i].value)
            },
            None => None,
        }
    }

    /// Whether the table holds a value under the key.
    pub fn contains(&self, outer: &str, inner: &str) -> (r: bool)
        ensures
            r == self@.contains_key((outer@, inner@)),
    {
        self.position(outer, inner).is_some()
    }

    /// Whether the table holds a value under a key with the given outer text.
    pub fn contains_outer(&self, outer: &str) -> (r: bool)
        ensures
            r == has_outer(self@, outer@),
    {
        let mut i: usize = 0;
        while i < self.rows.len()
            invariant
                i <= self.rows.len(),
                forall|j: int| 0 <= j < i ==> (#[trigger] self.rows@[j]).outer@ != outer@,
            decreases self.rows.len() - i,
        {
            if same(self.rows[i].outer.as_str(), outer) {
                proof {
                    let key = row_key(self.rows@[i as int]);
                    lemma_rows_map_dom(self.rows@, key);
                    assert(self@.contains_key((outer@, key.1)));
                }
                return true;
            }
            i += 1;
        }
        proof {
            if has_outer(self@, outer@) {
                let inner = choose|inner: Seq<char>| #[trigger] self@.contains_key((outer@, inner));
                lemma_rows_map_dom(self.rows@, (outer@, inner));
            }
        }
        false
    }

    /// Puts a value under a key, in place of the one that the key had. A key
    /// that the table held keeps its row; a new key gets a row behind the
    /// others.
    pub fn insert(&mut self, outer: String, inner: String, value: V)
        ensures
            final(self)@ == old(self)@.insert((outer@, inner@), value@),
            old(self)@.contains_key((outer@, inner@)) ==> exists|i: int|
                0 <= i < old(self).rows().len() && row_key(#[trigger] old(self).rows()[i]) == (
                    outer@,
                    inner@,
                ) && final(self).rows() == old(self).rows().update(
                    i,
                    (Row { outer, inner, value }),
                ),
            !old(self)@.contains_key((outer@, inner@)) ==> final(self).rows() == old(
                self,
            ).rows().push((Row { outer, inner, value })),
    {
        proof {
            use_type_invariant(&*self);
        }
        let found = self.position(outer.as_str(), inner.as_str());
        let row = Row { outer, inner, value };
        let mut rows: Vec<Row<V>> = Vec::new();
        std::mem::swap(&mut rows, &mut self.rows);
        match found {
            Some(i) => {
                proof {
                    lemma_rows_map_update(rows@, i as int, row);
                }
                rows.set(i, row);
            },
            None => {
                proof {
                    lemma_rows_map_push(rows@, row);
                }
                rows.push(row);
            },
        }
        self.rows = rows;
    }
}


/// The set of the texts that a sequence of strings holds.
pub open spec fn names_set(names: Seq<String>) -> Set<Seq<char>> {
    Set::new(|t: Seq<char>| exists|i: int| 0 <= i < names.len() && (#[trigger] names[i])@ == t)
}

/// Whether no two strings of a sequence hold the same text.
pub open spec fn distinct_names(names: Seq<String>) -> bool {
    forall|i: int, j: int|
        0 <= i < j < names.len() ==> (#[trigger] names[i])@ != (#[trigger] names[j])@
}

/// A set of texts, kept in the order in which they first came.
#[derive(Debug)]
pub struct NameSet {
    names: Vec<String>,
}

impl View for NameSet {
    type V = Set<Seq<char>>;

    closed spec fn view(&self) -> Set<Seq<char>> {
        names_set(self.names@)
    }
}

impl NameSet {
    #[verifier::type_invariant]
    spec fn well_formed(&self) -> bool {
        distinct_names(self.names@)
    }

    /// The texts, in the order in which they first came.
    pub closed spec fn names(&self) -> Seq<String> {
        self.names@
    }

    /// An empty set.
    pub fn new() -> (s: Self)
        ensures
            s@ == Set::<Seq<char>>::empty(),
            s.names().len() == 0,
    {
        let s = NameSet { names: Vec::new() };
        assert(s@ =~= Set::empty());
        s
    }

    /// The texts of the set, none twice.
    pub fn as_names(&self) -> (r: &Vec<String>)
        ensures
            r@ == self.names(),
            distinct_names(r@),
            names_set(r@) == self@,
    {
        proof {
            use_type_invariant(self);
        }
        &self.names
    }

    /// Whether the set holds the text.
    pub fn contains(&self, name: &str) -> (r: bool)
        ensures
            r == self@.contains(name@),
    {
        let mut i: usize = 0;
        while i < self.names.len()
            invariant
                i <= self.names.len(),
                forall|j: int| 0 <= j < i ==> (#[trigger] self.names@[j])@ != name@,
            decreases self.names.len() - i,
        {
            if same(self.names[i].as_str(), name) {
                return true;
            }
            i += 1;
        }
        false
    }

    /// Adds a text to the set. A text that the set did not hold goes behind
    /// the others.
    pub fn insert(&mut self, name: String)
        ensures
            final(self)@ == old(self)@.insert(name@),
            final(self).names() == if old(self)@.contains(name@) {
                old(self).names()
            } else {
                old(self).names().push(name)
            },
    {
        proof {
            use_type_invariant(&*self);
        }
        if self.contains(name.as_str()) {
            assert(self@.insert(name@) =~= self@);
        } else {
            let mut names: Vec<String> = Vec::new();
            std::mem::swap(&mut names, &mut self.names);
            let ghost before = names@;
            names.push(name);
            proof {
                assert forall|t: Seq<char>| names_set(names@).contains(t) == names_set(
                    before,
                ).insert(name@).contains(t) by {
                    if names_set(names@).contains(t) {
                        let i = choose|i: int| 0 <= i < names.len() && (#[trigger] names@[i])@ == t;
                        if i < before.len() {
                            assert(before[i]@ == t);
                        }
                    }
                    if names_set(before).contains(t) {
                        let i = choose|i: int|
                            0 <= i < before.len() && (#[trigger] before[i])@ == t;
                        assert(names@[i]@ == t);
                    }
                    if t == name@ {
                        assert(names@[before.len() as int]@ == t);
                    }
                }
                assert(names_set(names@) =~= names_set(before).insert(name@));
                assert forall|i: int, j: int| 0 <= i < j < names.len() implies (
                #[trigger] names@[i])@ != (#[trigger] names@[j])@ by {
                    assert(names@[i] == before[i]);
                    if j < before.len() {
                        assert(names@[j] == before[j]);
                    }
                }
            }
            self.names = names;
        }
    }
}

} // verus!
