//! Keyed tables: ordered lists of unique-key entries, abstracted as maps.
//!
//! Both the store's four tables and the file-contents map are such lists.
//! [`entry_map`] is the abstraction; the operations below are proved against
//! it, so everything downstream reasons in terms of `Map` alone.

use vstd::prelude::*;

verus! {

/// One keyed entry.
#[derive(Clone, Debug, PartialEq, Eq)]
pub struct Entry<T> {
    pub key: String,
    pub val: T,
}

/// Mathematical image of an [`Entry`].
pub struct EntryM<TV> {
    pub key: Seq<char>,
    pub val: TV,
}

impl<T: DeepView> DeepView for Entry<T> {
    type V = EntryM<T::V>;

    open spec fn deep_view(&self) -> EntryM<T::V> {
        EntryM { key: self.key.deep_view(), val: self.val.deep_view() }
    }
}

/// Whether some entry of `s` carries the key `k`.
pub open spec fn has_entry_key<TV>(s: Seq<EntryM<TV>>, k: Seq<char>) -> bool {
    exists|i: int| 0 <= i < s.len() && s[i].key == k
}

/// No two entries of `s` share a key.
pub open spec fn unique_entry_keys<TV>(s: Seq<EntryM<TV>>) -> bool {
    forall|i: int, j: int| 0 <= i < j < s.len() ==> s[i].key != s[j].key
}

/// Dropping the last entry loses exactly that entry's key.
pub proof fn lemma_has_key_drop_last<TV>(s: Seq<EntryM<TV>>, k: Seq<char>)
    requires
        s.len() > 0,
    ensures
        has_entry_key(s, k) <==> (has_entry_key(s.drop_last(), k) || s.last().key == k),
{
    if has_entry_key(s, k) {
        let i = choose|i: int| 0 <= i < s.len() && s[i].key == k;
        if i < s.len() - 1 {
            assert(s.drop_last()[i].key == k);
        }
    }
    if has_entry_key(s.drop_last(), k) {
        let i = choose|i: int| 0 <= i < s.drop_last().len() && s.drop_last()[i].key == k;
        assert(s[i].key == k);
    }
    if s.last().key == k {
        assert(s[s.len() - 1].key == k);
    }
}

/// Dropping the last element loses exactly that element.
pub proof fn lemma_contains_drop_last<A>(s: Seq<A>, x: A)
    requires
        s.len() > 0,
    ensures
        s.contains(x) <==> (s.drop_last().contains(x) || s.last() == x),
{
    if s.contains(x) {
        let i = choose|i: int| 0 <= i < s.len() && s[i] == x;
        if i < s.len() - 1 {
            assert(s.drop_last()[i] == x);
        }
    }
    if s.drop_last().contains(x) {
        let i = choose|i: int| 0 <= i < s.drop_last().len() && s.drop_last()[i] == x;
        assert(s[i] == x);
    }
    if s.last() == x {
        assert(s[s.len() - 1] == x);
    }
}

/// Appending an element adds exactly that element.
pub proof fn lemma_contains_push<A>(s: Seq<A>, x: A, y: A)
    ensures
        s.push(x).contains(y) <==> (s.contains(y) || x == y),
{
    if s.push(x).contains(y) {
        let i = choose|i: int| 0 <= i < s.push(x).len() && s.push(x)[i] == y;
        if i < s.len() {
            assert(s[i] == y);
        }
    }
    if s.contains(y) {
        let i = choose|i: int| 0 <= i < s.len() && s[i] == y;
        assert(s.push(x)[i] == y);
    }
    if x == y {
        assert(s.push(x)[s.len() as int] == y);
    }
}

/// Dropping the last entry keeps keys unique.
pub proof fn lemma_unique_drop_last<TV>(s: Seq<EntryM<TV>>)
    requires
        unique_entry_keys(s),
        s.len() > 0,
    ensures
        unique_entry_keys(s.drop_last()),
{
    assert(forall|x: int, y: int|
        0 <= x < y < s.drop_last().len() ==> s.drop_last()[x].key == s[x].key
            && s.drop_last()[y].key == s[y].key);
}

/// The entries as a map from key to value; on duplicate keys the later entry
/// wins, and on a well-formed table there are none.
pub open spec fn entry_map<TV>(s: Seq<EntryM<TV>>) -> Map<Seq<char>, TV>
    decreases s.len(),
{
    if s.len() == 0 {
        Map::empty()
    } else {
        entry_map(s.drop_last()).insert(s.last().key, s.last().val)
    }
}

/// A key is in the map exactly when some entry carries it.
pub proof fn lemma_entry_map_contains<TV>(s: Seq<EntryM<TV>>, k: Seq<char>)
    ensures
        entry_map(s).contains_key(k) <==> has_entry_key(s, k),
    decreases s.len(),
{
    if s.len() == 0 {
    } else {
        lemma_entry_map_contains(s.drop_last(), k);
        if s.last().key == k {
            assert(s[s.len() - 1].key == k);
        } else {
            if has_entry_key(s, k) {
                let i = choose|i: int| 0 <= i < s.len() && s[i].key == k;
                assert(i < s.len() - 1);
                assert(s.drop_last()[i].key == k);
            }
            if has_entry_key(s.drop_last(), k) {
                let i = choose|i: int| 0 <= i < s.drop_last().len() && s.drop_last()[i].key == k;
                assert(s[i].key == k);
            }
        }
    }
}

/// On a unique-key table the map agrees with every entry.
pub proof fn lemma_entry_map_index<TV>(s: Seq<EntryM<TV>>, i: int)
    requires
        unique_entry_keys(s),
        0 <= i < s.len(),
    ensures
        entry_map(s).contains_key(s[i].key),
        entry_map(s)[s[i].key] == s[i].val,
    decreases s.len(),
{
    if i == s.len() - 1 {
    } else {
        assert(unique_entry_keys(s.drop_last())) by {
            assert(forall|x: int, y: int|
                0 <= x < y < s.drop_last().len() ==> s.drop_last()[x].key == s[x].key
                    && s.drop_last()[y].key == s[y].key);
        }
        lemma_entry_map_index(s.drop_last(), i);
        assert(s.drop_last()[i] == s[i]);
        assert(s[i].key != s.last().key);
    }
}

/// Replacing the entry at `i` by one with the same key updates the map at
/// that key alone.
pub proof fn lemma_entry_map_update<TV>(s: Seq<EntryM<TV>>, i: int, e: EntryM<TV>)
    requires
        unique_entry_keys(s),
        0 <= i < s.len(),
        e.key == s[i].key,
    ensures
        unique_entry_keys(s.update(i, e)),
        entry_map(s.update(i, e)) == entry_map(s).insert(e.key, e.val),
    decreases s.len(),
{
    assert(unique_entry_keys(s.update(i, e))) by {
        assert(forall|j: int| 0 <= j < s.len() && j != i ==> s.update(i, e)[j].key == s[j].key);
        assert(s.update(i, e)[i].key == s[i].key);
    }
    if i == s.len() - 1 {
        assert(s.update(i, e).drop_last() =~= s.drop_last());
        assert(s.update(i, e).last() == e);
        assert(entry_map(s.drop_last()).insert(e.key, e.val) =~= entry_map(s.drop_last()).insert(
            s.last().key,
            s.last().val,
        ).insert(e.key, e.val));
    } else {
        assert(unique_entry_keys(s.drop_last())) by {
            assert(forall|x: int, y: int|
                0 <= x < y < s.drop_last().len() ==> s.drop_last()[x].key == s[x].key
                    && s.drop_last()[y].key == s[y].key);
        }
        assert(s.drop_last()[i] == s[i]);
        lemma_entry_map_update(s.drop_last(), i, e);
        assert(s.update(i, e).drop_last() =~= s.drop_last().update(i, e));
        assert(s.update(i, e).last() == s.last());
        assert(e.key != s.last().key);
        assert(entry_map(s.drop_last()).insert(e.key, e.val).insert(s.last().key, s.last().val)
            =~= entry_map(s.drop_last()).insert(s.last().key, s.last().val).insert(e.key, e.val));
    }
}

/// Appending an entry with a fresh key inserts it into the map.
pub proof fn lemma_entry_map_push<TV>(s: Seq<EntryM<TV>>, e: EntryM<TV>)
    requires
        unique_entry_keys(s),
        !has_entry_key(s, e.key),
    ensures
        unique_entry_keys(s.push(e)),
        entry_map(s.push(e)) == entry_map(s).insert(e.key, e.val),
{
    assert(unique_entry_keys(s.push(e))) by {
        assert(forall|j: int| 0 <= j < s.len() ==> s.push(e)[j].key == s[j].key);
        assert(s.push(e)[s.len() as int] == e);
        assert(forall|j: int| 0 <= j < s.len() ==> s[j].key != e.key);
    }
    assert(s.push(e).drop_last() =~= s);
    assert(s.push(e).last() == e);
}

/// Removing the entry at `i` removes its key from the map.
pub proof fn lemma_entry_map_remove<TV>(s: Seq<EntryM<TV>>, i: int)
    requires
        unique_entry_keys(s),
        0 <= i < s.len(),
    ensures
        unique_entry_keys(s.remove(i)),
        entry_map(s.remove(i)) == entry_map(s).remove(s[i].key),
    decreases s.len(),
{
    assert(unique_entry_keys(s.remove(i))) by {
        assert(forall|j: int| 0 <= j < i ==> s.remove(i)[j].key == s[j].key);
        assert(forall|j: int| i <= j < s.len() - 1 ==> s.remove(i)[j].key == s[j + 1].key);
    }
    assert(unique_entry_keys(s.drop_last())) by {
        assert(forall|x: int, y: int|
            0 <= x < y < s.drop_last().len() ==> s.drop_last()[x].key == s[x].key
                && s.drop_last()[y].key == s[y].key);
    }
    if i == s.len() - 1 {
        assert(s.remove(i) =~= s.drop_last());
        assert(!entry_map(s.drop_last()).contains_key(s[i].key)) by {
            lemma_entry_map_contains(s.drop_last(), s[i].key);
            if has_entry_key(s.drop_last(), s[i].key) {
                let j = choose|j: int|
                    0 <= j < s.drop_last().len() && s.drop_last()[j].key == s[i].key;
                assert(s[j].key == s[i].key);
            }
        }
        assert(entry_map(s.drop_last()) =~= entry_map(s.drop_last()).insert(
            s.last().key,
            s.last().val,
        ).remove(s[i].key));
    } else {
        lemma_entry_map_remove(s.drop_last(), i);
        assert(s.drop_last()[i] == s[i]);
        assert(s.remove(i).drop_last() =~= s.drop_last().remove(i));
        assert(s.remove(i).last() == s.last());
        assert(s[i].key != s.last().key);
        assert(entry_map(s.drop_last()).remove(s[i].key).insert(s.last().key, s.last().val)
            =~= entry_map(s.drop_last()).insert(s.last().key, s.last().val).remove(s[i].key));
    }
}

/// Index of the first entry with key `key`, if any.
pub fn find_entry<T: DeepView>(entries: &Vec<Entry<T>>, key: &String) -> (r: Option<usize>)
    ensures
        match r {
            Some(i) => i < entries@.len() && entries.deep_view()[i as int].key == key@
                && forall|j: int| 0 <= j < i ==> entries.deep_view()[j].key != key@,
            None => !has_entry_key(entries.deep_view(), key@),
        },
{
    let mut i: usize = 0;
    while i < entries.len()
        invariant
            i <= entries@.len(),
            forall|j: int| 0 <= j < i ==> entries.deep_view()[j].key != key@,
        decreases entries@.len() - i,
    {
        if entries[i].key.eq(key) {
            return Some(i);
        }
        i = i + 1;
    }
    None
}

/// Whether the table declares the key `key`.
pub fn contains_key<T: DeepView>(entries: &Vec<Entry<T>>, key: &String) -> (r: bool)
    ensures
        r == has_entry_key(entries.deep_view(), key@),
{
    match find_entry(entries, key) {
        Some(_) => true,
        None => false,
    }
}

/// Insert `val` under `key`, replacing the entry that carried `key` before,
/// if any.
pub fn upsert_entry<T: DeepView>(entries: &mut Vec<Entry<T>>, key: String, val: T)
    requires
        unique_entry_keys(old(entries).deep_view()),
    ensures
        unique_entry_keys(final(entries).deep_view()),
        entry_map(final(entries).deep_view()) == entry_map(old(entries).deep_view()).insert(
            key@,
            val.deep_view(),
        ),
{
    let ghost s0 = entries.deep_view();
    let ghost e = EntryM { key: key@, val: val.deep_view() };
    match find_entry(entries, &key) {
        Some(i) => {
            entries[i] = Entry { key, val };
            proof {
                assert(entries.deep_view() =~= s0.update(i as int, e));
                lemma_entry_map_update(s0, i as int, e);
            }
        },
        None => {
            entries.push(Entry { key, val });
            proof {
                assert(entries.deep_view() =~= s0.push(e));
                lemma_entry_map_push(s0, e);
            }
        },
    }
}

/// Delete the entry carrying `key`; without one the table stays as it is.
pub fn delete_entry<T: DeepView>(entries: &mut Vec<Entry<T>>, key: &String)
    requires
        unique_entry_keys(old(entries).deep_view()),
    ensures
        unique_entry_keys(final(entries).deep_view()),
        entry_map(final(entries).deep_view()) == entry_map(old(entries).deep_view()).remove(key@),
{
    let ghost s0 = entries.deep_view();
    match find_entry(entries, key) {
        Some(i) => {
            entries.remove(i);
            proof {
                assert(entries.deep_view() =~= s0.remove(i as int));
                lemma_entry_map_remove(s0, i as int);
            }
        },
        None => {
            proof {
                lemma_entry_map_contains(s0, key@);
                assert(entry_map(s0) =~= entry_map(s0).remove(key@));
            }
        },
    }
}

/// A store row: the entity's writable columns plus the machine-managed mark.
#[derive(Clone, Debug, PartialEq, Eq)]
pub struct Row<T> {
    pub val: T,
    pub provisioned: bool,
}

/// Mathematical image of a [`Row`].
pub struct RowM<TV> {
    pub val: TV,
    pub provisioned: bool,
}

impl<T: DeepView> DeepView for Row<T> {
    type V = RowM<T::V>;

    open spec fn deep_view(&self) -> RowM<T::V> {
        RowM { val: self.val.deep_view(), provisioned: self.provisioned }
    }
}

/// The keys of the rows marked provisioned, in table order.
pub open spec fn provisioned_keys_of<TV>(s: Seq<EntryM<RowM<TV>>>) -> Seq<Seq<char>>
    decreases s.len(),
{
    if s.len() == 0 {
        Seq::empty()
    } else {
        let p = provisioned_keys_of(s.drop_last());
        if s.last().val.provisioned {
            p.push(s.last().key)
        } else {
            p
        }
    }
}

/// A key is among the provisioned keys exactly when the map holds it with
/// the provisioned mark set.
pub proof fn lemma_provisioned_keys<TV>(s: Seq<EntryM<RowM<TV>>>, k: Seq<char>)
    requires
        unique_entry_keys(s),
    ensures
        provisioned_keys_of(s).contains(k) <==> entry_map(s).contains_key(k)
            && entry_map(s)[k].provisioned,
    decreases s.len(),
{
    if s.len() == 0 {
    } else {
        assert(unique_entry_keys(s.drop_last())) by {
            assert(forall|x: int, y: int|
                0 <= x < y < s.drop_last().len() ==> s.drop_last()[x].key == s[x].key
                    && s.drop_last()[y].key == s[y].key);
        }
        lemma_provisioned_keys(s.drop_last(), k);
        let p = provisioned_keys_of(s.drop_last());
        if s.last().key == k {
            assert(!entry_map(s.drop_last()).contains_key(k)) by {
                lemma_entry_map_contains(s.drop_last(), k);
                if has_entry_key(s.drop_last(), k) {
                    let j = choose|j: int|
                        0 <= j < s.drop_last().len() && s.drop_last()[j].key == k;
                    assert(s[j].key == k && s[s.len() - 1].key == k);
                }
            }
            assert(!p.contains(k));
            if s.last().val.provisioned {
                assert(p.push(k)[p.len() as int] == k);
            }
        } else {
            if s.last().val.provisioned {
                assert(provisioned_keys_of(s) == p.push(s.last().key));
                if p.push(s.last().key).contains(k) {
                    let j = choose|j: int|
                        0 <= j < p.push(s.last().key).len() && p.push(s.last().key)[j] == k;
                    assert(j < p.len());
                    assert(p[j] == k);
                }
                if p.contains(k) {
                    let j = choose|j: int| 0 <= j < p.len() && p[j] == k;
                    assert(p.push(s.last().key)[j] == k);
                }
            }
        }
    }
}

/// The provisioned keys of the table, in table order.
pub fn provisioned_keys<T: DeepView>(rows: &Vec<Entry<Row<T>>>) -> (r: Vec<String>)
    ensures
        r.deep_view() == provisioned_keys_of(rows.deep_view()),
{
    let mut r: Vec<String> = Vec::new();
    let mut i: usize = 0;
    proof {
        assert(rows.deep_view().take(0) =~= Seq::empty());
        assert(r.deep_view() =~= Seq::<Seq<char>>::empty());
    }
    while i < rows.len()
        invariant
            i <= rows@.len(),
            r.deep_view() == provisioned_keys_of(rows.deep_view().take(i as int)),
        decreases rows@.len() - i,
    {
        let ghost pre = r.deep_view();
        if rows[i].val.provisioned {
            let k = rows[i].key.clone();
            r.push(k);
            proof {
                assert(r.deep_view() =~= pre.push(rows.deep_view()[i as int].key));
            }
        }
        proof {
            assert(rows.deep_view().take(i + 1).drop_last() =~= rows.deep_view().take(i as int));
            assert(rows.deep_view().take(i + 1).last() == rows.deep_view()[i as int]);
        }
        i = i + 1;
    }
    proof {
        assert(rows.deep_view().take(rows.deep_view().len() as int) =~= rows.deep_view());
    }
    r
}

} // verus!
