//! Lists of key-value pairs in which a text key stands for one value.
//!
//! A new key goes to the end; a key that is there already keeps its place and gets
//! the new value.

use vstd::prelude::*;

verus! {

/// The entries of a list, keys and values taken by their views.
pub open spec fn keyed<V: View>(entries: Seq<(String, V)>) -> Seq<(Seq<char>, V::V)> {
    Seq::new(entries.len(), |i: int| (entries[i].0@, entries[i].1@))
}

/// The index of the first entry with a key, and the length where there is none.
pub open spec fn key_index<V>(s: Seq<(Seq<char>, V)>, k: Seq<char>) -> int
    decreases s.len(),
{
    if s.len() == 0 || s[0].0 == k {
        0
    } else {
        1 + key_index(s.drop_first(), k)
    }
}

/// Whether some entry has a key.
pub open spec fn has_key<V>(s: Seq<(Seq<char>, V)>, k: Seq<char>) -> bool {
    key_index(s, k) < s.len()
}

/// The value of a key, if it is there.
pub open spec fn lookup<V>(s: Seq<(Seq<char>, V)>, k: Seq<char>) -> Option<V> {
    if has_key(s, k) {
        Some(s[key_index(s, k)].1)
    } else {
        None
    }
}

/// The list with a key set to a value.
pub open spec fn put<V>(s: Seq<(Seq<char>, V)>, k: Seq<char>, v: V) -> Seq<(Seq<char>, V)> {
    if has_key(s, k) {
        s.update(key_index(s, k), (k, v))
    } else {
        s.push((k, v))
    }
}

/// The list that results from setting the entries of `more` one after another.
pub open spec fn put_all<V>(
    s: Seq<(Seq<char>, V)>,
    more: Seq<(Seq<char>, V)>,
) -> Seq<(Seq<char>, V)>
    decreases more.len(),
{
    if more.len() == 0 {
        s
    } else {
        put(put_all(s, more.drop_last()), more.last().0, more.last().1)
    }
}

/// Whether no key occurs twice.
pub open spec fn distinct_keys<V>(s: Seq<(Seq<char>, V)>) -> bool {
    forall|i: int, j: int|
        0 <= i < j < s.len() ==> (#[trigger] s[i]).0 != (#[trigger] s[j]).0
}

/// What the index of a key is: no earlier entry has the key, and the entry at the
/// index, if there is one, has it.
pub proof fn lemma_key_index<V>(s: Seq<(Seq<char>, V)>, k: Seq<char>)
    ensures
        0 <= key_index(s, k) <= s.len(),
        forall|j: int| 0 <= j < key_index(s, k) ==> (#[trigger] s[j]).0 != k,
        has_key(s, k) ==> s[key_index(s, k)].0 == k,
    decreases s.len(),
{
    if s.len() > 0 && s[0].0 != k {
        let rest = s.drop_first();
        lemma_key_index(rest, k);
        assert forall|j: int| 0 <= j < key_index(s, k) implies (#[trigger] s[j]).0 != k by {
            if j > 0 {
                assert(rest[j - 1] == s[j]);
            }
        }
        if has_key(s, k) {
            assert(rest[key_index(rest, k)] == s[key_index(s, k)]);
        }
    }
}

/// An index before which no entry has the key, and at which the key or the end is,
/// is the index of the key.
pub proof fn lemma_key_index_at<V>(s: Seq<(Seq<char>, V)>, k: Seq<char>, i: int)
    requires
        0 <= i <= s.len(),
        forall|j: int| 0 <= j < i ==> (#[trigger] s[j]).0 != k,
        i < s.len() ==> s[i].0 == k,
    ensures
        key_index(s, k) == i,
{
    lemma_key_index(s, k);
}

/// Setting a key keeps keys distinct, gives the key its value, and leaves the values
/// of the other keys.
pub proof fn lemma_put<V>(s: Seq<(Seq<char>, V)>, k: Seq<char>, v: V)
    requires
        distinct_keys(s),
    ensures
        distinct_keys(put(s, k, v)),
        lookup(put(s, k, v), k) == Some(v),
        forall|o: Seq<char>| o != k ==> #[trigger] lookup(put(s, k, v), o) == lookup(s, o),
{
    let t = put(s, k, v);
    lemma_key_index(s, k);
    lemma_key_index_at(t, k, key_index(s, k));
    assert forall|o: Seq<char>| o != k implies #[trigger] lookup(t, o) == lookup(s, o) by {
        lemma_key_index(s, o);
        let i = key_index(s, o);
        if i < s.len() {
            assert forall|j: int| 0 <= j < i implies (#[trigger] t[j]).0 != o by {
                assert(s[j].0 != o);
            }
            lemma_key_index_at(t, o, i);
        } else {
            assert forall|j: int| 0 <= j < t.len() implies (#[trigger] t[j]).0 != o by {
                if j < s.len() {
                    assert(s[j].0 != o);
                }
            }
            lemma_key_index_at(t, o, t.len() as int);
        }
    }
    assert forall|i: int, j: int| 0 <= i < j < t.len() implies (#[trigger] t[i]).0 != (
    #[trigger] t[j]).0 by {
        if j < s.len() {
            assert(s[i].0 != s[j].0);
        } else {
            assert(s[i].0 != k);
        }
    }
}

/// Setting entries one after another keeps keys distinct.
pub proof fn lemma_put_all_distinct<V>(s: Seq<(Seq<char>, V)>, more: Seq<(Seq<char>, V)>)
    requires
        distinct_keys(s),
    ensures
        distinct_keys(put_all(s, more)),
    decreases more.len(),
{
    if more.len() > 0 {
        lemma_put_all_distinct(s, more.drop_last());
        lemma_put(put_all(s, more.drop_last()), more.last().0, more.last().1);
    }
}

/// Setting the entries of a list with distinct keys, from nothing, gives the list.
pub proof fn lemma_put_all_same<V>(more: Seq<(Seq<char>, V)>)
    requires
        distinct_keys(more),
    ensures
        put_all(Seq::<(Seq<char>, V)>::empty(), more) == more,
    decreases more.len(),
{
    if more.len() > 0 {
        let init = more.drop_last();
        assert(distinct_keys(init)) by {
            assert forall|i: int, j: int| 0 <= i < j < init.len() implies (#[trigger] init[i]).0
                != (#[trigger] init[j]).0 by {
                assert(more[i].0 != more[j].0);
            }
        }
        lemma_put_all_same(init);
        assert forall|j: int| 0 <= j < init.len() implies (#[trigger] init[j]).0 != more.last().0 by {
            assert(more[j].0 != more[more.len() - 1].0);
        }
        lemma_key_index_at(init, more.last().0, init.len() as int);
        assert(init.push(more.last()) =~= more);
    } else {
        assert(more =~= Seq::<(Seq<char>, V)>::empty());
    }
}

/// Find the first entry with a key: its index, or the number of entries.
pub(crate) fn find<V: View>(entries: &Vec<(String, V)>, key: &String) -> (i: usize)
    ensures
        i == key_index(keyed(entries@), key@),
        i <= entries@.len(),
{
    let mut i: usize = 0;
    while i < entries.len()
        invariant
            i <= entries.len(),
            forall|j: int| 0 <= j < i ==> (#[trigger] keyed(entries@)[j]).0 != key@,
        decreases entries.len() - i,
    {
        if entries[i].0 == *key {
            proof {
                lemma_key_index_at(keyed(entries@), key@, i as int);
            }
            return i;
        }
        i = i + 1;
    }
    proof {
        lemma_key_index_at(keyed(entries@), key@, i as int);
    }
    i
}

/// Set a key to a value.
pub(crate) fn put_entry<V: View>(entries: &mut Vec<(String, V)>, key: String, value: V)
    ensures
        keyed(final(entries)@) == put(keyed(old(entries)@), key@, value@),
{
    let i = find(entries, &key);
    let ghost k = key@;
    if i < entries.len() {
        entries.set(i, (key, value));
        assert(keyed(entries@) =~= put(keyed(old(entries)@), k, value@));
    } else {
        entries.push((key, value));
        assert(keyed(entries@) =~= put(keyed(old(entries)@), k, value@));
    }
}

/// Setting a key that is there puts the value in the place of the old one; a key that is
/// not there goes to the end. No other entry moves or changes.
pub proof fn put_keeps_the_order<V>(s: Seq<(Seq<char>, V)>, k: Seq<char>, v: V, i: int)
    requires
        distinct_keys(s),
        0 <= i < s.len(),
    ensures
        put(s, k, v)[i] == if s[i].0 == k {
            (k, v)
        } else {
            s[i]
        },
        s[i].0 == k ==> put(s, k, v).len() == s.len(),
        (forall|j: int| 0 <= j < s.len() ==> (#[trigger] s[j]).0 != k) ==> put(s, k, v).len()
            == s.len() + 1 && put(s, k, v).last() == (k, v),
{
    lemma_key_index(s, k);
    let p = key_index(s, k);
    if p < i {
        assert(s[p].0 != s[i].0);
    }
}

/// Looking a key up gives the value of the entry that has it, and nothing where no entry
/// has it.
pub proof fn lookup_finds_the_entry<V>(s: Seq<(Seq<char>, V)>, k: Seq<char>, i: int)
    requires
        distinct_keys(s),
    ensures
        0 <= i < s.len() && s[i].0 == k ==> lookup(s, k) == Some(s[i].1),
        (forall|j: int| 0 <= j < s.len() ==> (#[trigger] s[j]).0 != k) ==> lookup(s, k) is None,
{
    lemma_key_index(s, k);
    let p = key_index(s, k);
    if 0 <= i < s.len() && s[i].0 == k && p < i {
        assert(s[p].0 != s[i].0);
    }
}

}
