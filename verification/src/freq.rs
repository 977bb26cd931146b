//! Frequency tables: collapse a sequence of repeated strings into
//! (value, count) entries in first-seen order, plus order-preserving
//! deduplication for distinct-code listings.

use vstd::prelude::*;

verus! {

/// Index of the first entry of `t` whose key is `key`.
pub open spec fn key_idx(t: Seq<(Seq<char>, nat)>, key: Seq<char>) -> Option<int>
    decreases t.len(),
{
    if t.len() == 0 {
        None
    } else if t[0].0 == key {
        Some(0int)
    } else {
        match key_idx(t.drop_first(), key) {
            Some(i) => Some(i + 1),
            None => None,
        }
    }
}

pub proof fn lemma_key_idx_bounds(t: Seq<(Seq<char>, nat)>, key: Seq<char>)
    ensures
        key_idx(t, key) matches Some(i) ==> 0 <= i < t.len() && t[i].0 == key,
        key_idx(t, key) is None ==> forall|i: int| 0 <= i < t.len() ==> t[i].0 != key,
    decreases t.len(),
{
    if t.len() > 0 {
        lemma_key_idx_bounds(t.drop_first(), key);
        if key_idx(t, key) is None {
            assert forall|i: int| 0 <= i < t.len() implies t[i].0 != key by {
                if i > 0 {
                    assert(t.drop_first()[i - 1] == t[i]);
                }
            }
        }
    }
}

/// `key_idx` is decided by a left-to-right scan: if the entries before `i`
/// miss the key and entry `i` holds it, the first index is `i`; if all
/// entries miss it, there is none.
proof fn lemma_key_idx_is(t: Seq<(Seq<char>, nat)>, key: Seq<char>, i: int)
    requires
        0 <= i <= t.len(),
        forall|k: int| 0 <= k < i ==> #[trigger] t[k].0 != key,
        i < t.len() ==> t[i].0 == key,
    ensures
        i < t.len() ==> key_idx(t, key) == Some(i),
        i == t.len() ==> key_idx(t, key) is None,
    decreases t.len(),
{
    if t.len() == 0 {
    } else if i == 0 {
    } else {
        assert(t[0].0 != key);
        assert(forall|k: int| 0 <= k < i - 1 ==> #[trigger] t.drop_first()[k] == t[k + 1]);
        lemma_key_idx_is(t.drop_first(), key, i - 1);
    }
}

/// The frequency table of `items`, entries in first-seen order.
pub open spec fn freq_of(items: Seq<Seq<char>>) -> Seq<(Seq<char>, nat)>
    decreases items.len(),
{
    if items.len() == 0 {
        Seq::empty()
    } else {
        let f = freq_of(items.drop_last());
        let key = items.last();
        match key_idx(f, key) {
            Some(i) => f.update(i, (key, (f[i].1 + 1) as nat)),
            None => f.push((key, 1nat)),
        }
    }
}

/// Total of all counts in a frequency table.
pub open spec fn sum_counts(t: Seq<(Seq<char>, nat)>) -> nat
    decreases t.len(),
{
    if t.len() == 0 {
        0
    } else {
        sum_counts(t.drop_last()) + t.last().1
    }
}

proof fn lemma_sum_counts_update(t: Seq<(Seq<char>, nat)>, i: int, key: Seq<char>)
    requires
        0 <= i < t.len(),
    ensures
        sum_counts(t.update(i, (key, (t[i].1 + 1) as nat))) == sum_counts(t) + 1,
    decreases t.len(),
{
    let u = t.update(i, (key, (t[i].1 + 1) as nat));
    if i == t.len() - 1 {
        assert(u.drop_last() =~= t.drop_last());
    } else {
        assert(u.drop_last() =~= t.drop_last().update(i, (key, (t[i].1 + 1) as nat)));
        assert(t.drop_last()[i] == t[i]);
        lemma_sum_counts_update(t.drop_last(), i, key);
        assert(u.last() == t.last());
    }
}

/// Aggregation is count-preserving: the counts of the frequency table of a
/// sequence of items always add up to the number of items.
pub proof fn lemma_freq_count_preserving(items: Seq<Seq<char>>)
    ensures
        sum_counts(freq_of(items)) == items.len(),
    decreases items.len(),
{
    if items.len() > 0 {
        lemma_freq_count_preserving(items.drop_last());
        let f = freq_of(items.drop_last());
        let key = items.last();
        lemma_key_idx_bounds(f, key);
        match key_idx(f, key) {
            Some(i) => {
                lemma_sum_counts_update(f, i, key);
            },
            None => {
                assert(freq_of(items).drop_last() =~= f);
            },
        }
    }
}

/// A (value, count) table in first-seen order, used to compress repeated
/// per-unit hardware descriptions.
pub struct FrequencyTable {
    pub entries: Vec<(String, usize)>,
}

impl View for FrequencyTable {
    type V = Seq<(Seq<char>, nat)>;

    open spec fn view(&self) -> Seq<(Seq<char>, nat)> {
        self.entries@.map_values(|e: (String, usize)| (e.0@, e.1 as nat))
    }
}

/// The views of a vector of strings.
pub open spec fn string_views(v: Seq<String>) -> Seq<Seq<char>> {
    v.map_values(|s: String| s@)
}

/// Collapse repeated strings into a frequency table, first-seen order.
pub fn count_occurrences(items: &Vec<String>) -> (t: FrequencyTable)
    ensures
        t@ == freq_of(string_views(items@)),
{
    let mut table = FrequencyTable { entries: Vec::new() };
    let mut j: usize = 0;
    proof {
        assert(string_views(items@.take(0)) =~= Seq::<Seq<char>>::empty());
        assert(table@ =~= freq_of(string_views(items@.take(0))));
    }
    while j < items.len()
        invariant
            0 <= j <= items@.len(),
            table@ == freq_of(string_views(items@.take(j as int))),
            forall|k: int| 0 <= k < table@.len() ==> #[trigger] table@[k].1 <= j,
        decreases items@.len() - j,
    {
        let ghost pre = string_views(items@.take(j as int));
        proof {
            assert(string_views(items@.take(j + 1)) =~= pre.push(items@[j as int]@));
            assert(pre.push(items@[j as int]@).drop_last() =~= pre);
        }
        let key = &items[j];
        let n = table.entries.len();
        let mut idx: usize = 0;
        while idx < n && !(table.entries[idx].0 == *key)
            invariant
                0 <= idx <= n,
                n == table.entries@.len(),
                forall|k: int| 0 <= k < idx ==> #[trigger] table@[k].0 != key@,
            decreases n - idx,
        {
            idx = idx + 1;
        }
        proof {
            lemma_key_idx_is(table@, key@, idx as int);
        }
        if idx < n {
            assert(key_idx(table@, key@) == Some(idx as int));
            let c = table.entries[idx].1;
            assert(c as nat == table@[idx as int].1);
            assert(c <= j);
            let k2 = table.entries[idx].0.clone();
            table.entries.set(idx, (k2, c + 1));
            proof {
                assert(table@ =~= freq_of(string_views(items@.take(j + 1))));
            }
        } else {
            assert(key_idx(table@, key@) is None);
            table.entries.push((key.clone(), 1));
            proof {
                assert(table@ =~= freq_of(string_views(items@.take(j + 1))));
            }
        }
        j = j + 1;
    }
    proof {
        assert(items@.take(items@.len() as int) =~= items@);
    }
    table
}

/// The distinct values of `items`, each once, in first-seen order.
pub open spec fn dedup_of(items: Seq<Seq<char>>) -> Seq<Seq<char>>
    decreases items.len(),
{
    if items.len() == 0 {
        Seq::empty()
    } else {
        let d = dedup_of(items.drop_last());
        if d.contains(items.last()) {
            d
        } else {
            d.push(items.last())
        }
    }
}

/// Distinct-value listing is faithful: every value of `items` appears in the
/// deduplicated sequence, nothing else does, and no value appears twice,
/// however often it repeats in `items`.
pub proof fn lemma_dedup_distinct(items: Seq<Seq<char>>)
    ensures
        forall|x: Seq<char>| items.contains(x) <==> dedup_of(items).contains(x),
        forall|i: int, k: int|
            0 <= i < k < dedup_of(items).len() ==> dedup_of(items)[i] != dedup_of(items)[k],
    decreases items.len(),
{
    if items.len() > 0 {
        lemma_dedup_distinct(items.drop_last());
        let d = dedup_of(items.drop_last());
        let whole = dedup_of(items);
        assert forall|x: Seq<char>| items.contains(x) implies whole.contains(x) by {
            let ix = choose|ix: int| 0 <= ix < items.len() && items[ix] == x;
            if ix < items.len() - 1 {
                assert(items.drop_last()[ix] == x);
                assert(items.drop_last().contains(x));
                assert(d.contains(x));
                if !d.contains(items.last()) {
                    let dx = choose|dx: int| 0 <= dx < d.len() && d[dx] == x;
                    assert(whole[dx] == x);
                }
            } else {
                if d.contains(items.last()) {
                } else {
                    assert(whole.last() == x);
                }
            }
        }
        assert forall|x: Seq<char>| whole.contains(x) implies items.contains(x) by {
            if d.contains(x) {
                assert(items.drop_last().contains(x));
                let ix = choose|ix: int| 0 <= ix < items.drop_last().len() && items.drop_last()[ix]
                    == x;
                assert(items[ix] == x);
            } else {
                assert(x == items.last());
                assert(items[items.len() - 1] == x);
            }
        }
    }
}

/// Deduplicate strings, keeping first occurrences in order.
pub fn dedup_strings(items: &Vec<String>) -> (r: Vec<String>)
    ensures
        string_views(r@) == dedup_of(string_views(items@)),
{
    let mut r: Vec<String> = Vec::new();
    let mut j: usize = 0;
    proof {
        assert(string_views(items@.take(0)) =~= Seq::<Seq<char>>::empty());
        assert(string_views(r@) =~= dedup_of(string_views(items@.take(0))));
    }
    while j < items.len()
        invariant
            0 <= j <= items@.len(),
            string_views(r@) == dedup_of(string_views(items@.take(j as int))),
        decreases items@.len() - j,
    {
        let ghost pre = string_views(items@.take(j as int));
        proof {
            assert(string_views(items@.take(j + 1)) =~= pre.push(items@[j as int]@));
            assert(pre.push(items@[j as int]@).drop_last() =~= pre);
        }
        let key = &items[j];
        let n = r.len();
        let mut idx: usize = 0;
        while idx < n && !(r[idx] == *key)
            invariant
                0 <= idx <= n,
                n == r@.len(),
                forall|k: int| 0 <= k < idx ==> #[trigger] r@[k]@ != key@,
            decreases n - idx,
        {
            idx = idx + 1;
        }
        let found = idx < n;
        proof {
            if found {
                assert(string_views(r@)[idx as int] == key@);
                assert(string_views(r@).contains(key@));
            } else {
                if string_views(r@).contains(key@) {
                    let k = choose|k: int|
                        0 <= k < string_views(r@).len() && string_views(r@)[k] == key@;
                    assert(r@[k]@ == key@);
                }
            }
        }
        if !found {
            r.push(key.clone());
            proof {
                assert(string_views(r@) =~= dedup_of(string_views(items@.take(j + 1))));
            }
        }
        j = j + 1;
    }
    proof {
        assert(items@.take(items@.len() as int) =~= items@);
    }
    r
}

} // verus!
