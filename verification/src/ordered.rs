//! Ordered string sets and string-keyed lists of entries, kept as vectors in
//! increasing code point order, each string held once.

use vstd::prelude::*;
use crate::catalog::{categories, strings, Categories, Strings};
use crate::text::{
    less, lemma_str_less_asymmetric, lemma_str_less_irreflexive, lemma_str_less_total,
    lemma_str_less_transitive, same, str_less,
};

verus! {

/// Strictly increasing in code point order (sorted, no string twice).
pub open spec fn increasing(s: Strings) -> bool {
    forall|i: int, j: int| 0 <= i < j < s.len() ==> str_less(#[trigger] s[i], #[trigger] s[j])
}

/// The keys of a list of entries, in order.
pub open spec fn keys(m: Categories) -> Strings {
    m.map_values(|e: (Seq<char>, Strings)| e.0)
}

/// `s` with `x` added in its place, unless it is there already.
pub open spec fn insert_sorted(s: Strings, x: Seq<char>) -> Strings
    decreases s.len(),
{
    if s.len() == 0 {
        seq![x]
    } else if s[0] == x {
        s
    } else if str_less(x, s[0]) {
        seq![x] + s
    } else {
        seq![s[0]] + insert_sorted(s.drop_first(), x)
    }
}

/// The strings of `items`, sorted, each once (`sort` then `dedup`).
pub open spec fn sorted_set(items: Strings) -> Strings
    decreases items.len(),
{
    if items.len() == 0 {
        seq![]
    } else {
        insert_sorted(sorted_set(items.drop_last()), items.last())
    }
}

/// `m` with `items` appended to the entry for `key`, which is added in its
/// place when missing (`entry(key).or_default().extend(items)`).
pub open spec fn append_entry(m: Categories, key: Seq<char>, items: Strings) -> Categories
    decreases m.len(),
{
    if m.len() == 0 {
        seq![(key, items)]
    } else if m[0].0 == key {
        m.update(0, (key, m[0].1 + items))
    } else if str_less(key, m[0].0) {
        seq![(key, items)] + m
    } else {
        seq![m[0]] + append_entry(m.drop_first(), key, items)
    }
}

/// The entries of the first category named `key`, if there is one.
pub open spec fn lookup(m: Categories, key: Seq<char>) -> Option<Strings>
    decreases m.len(),
{
    if m.len() == 0 {
        None
    } else if m[0].0 == key {
        Some(m[0].1)
    } else {
        lookup(m.drop_first(), key)
    }
}

/// How `m2` relates to `m` at `key`: a category of `m` is still there with
/// its entries as a prefix, and a category new in `m2` has entries.
pub open spec fn grows_at(m: Categories, m2: Categories, key: Seq<char>) -> bool {
    match lookup(m, key) {
        Some(a) => match lookup(m2, key) {
            Some(b) => a.is_prefix_of(b),
            None => false,
        },
        None => match lookup(m2, key) {
            Some(b) => b.len() > 0,
            None => true,
        },
    }
}

/// `m2` only adds to `m`: no category is dropped, each keeps its entries as a
/// prefix, and each new category has at least one entry.
pub open spec fn grows(m: Categories, m2: Categories) -> bool {
    forall|key: Seq<char>| #[trigger] grows_at(m, m2, key)
}

proof fn lemma_lookup_found(m: Categories, key: Seq<char>)
    ensures
        lookup(m, key) is Some ==> exists|i: int| 0 <= i < m.len() && #[trigger] m[i].0 == key,
    decreases m.len(),
{
    if m.len() > 0 && m[0].0 != key {
        lemma_lookup_found(m.drop_first(), key);
        if lookup(m, key) is Some {
            let i = choose|i: int| 0 <= i < m.drop_first().len() && #[trigger] m.drop_first()[i].0
                == key;
            assert(m[i + 1].0 == key);
        }
    }
}

proof fn lemma_lookup_below(m: Categories, key: Seq<char>)
    requires
        increasing(keys(m)),
        m.len() > 0,
        str_less(key, m[0].0),
    ensures
        lookup(m, key) is None,
{
    lemma_lookup_found(m, key);
    if lookup(m, key) is Some {
        let i = choose|i: int| 0 <= i < m.len() && #[trigger] m[i].0 == key;
        lemma_str_less_irreflexive(key);
        if i > 0 {
            assert(str_less(keys(m)[0], keys(m)[i]));
            lemma_str_less_asymmetric(key, m[0].0);
        }
    }
}

/// In a list with increasing keys, each category is found at its place.
pub proof fn lemma_lookup_at(m: Categories, i: int)
    requires
        increasing(keys(m)),
        0 <= i < m.len(),
    ensures
        lookup(m, m[i].0) == Some(m[i].1),
    decreases i,
{
    if i > 0 {
        assert(str_less(keys(m)[0], keys(m)[i]));
        lemma_str_less_irreflexive(m[i].0);
        let t = m.drop_first();
        assert(increasing(keys(t))) by {
            assert forall|a: int, b: int| 0 <= a < b < keys(t).len() implies str_less(
                #[trigger] keys(t)[a],
                #[trigger] keys(t)[b],
            ) by {
                assert(keys(t)[a] == keys(m)[a + 1] && keys(t)[b] == keys(m)[b + 1]);
            }
        }
        assert(t[i - 1] == m[i]);
        lemma_lookup_at(t, i - 1);
    }
}

/// What appending gives at one key: the list of `key` extended by `items`
/// (or `items` when it was missing); every other key unchanged.
pub open spec fn appended_at(m: Categories, key: Seq<char>, items: Strings, k: Seq<char>) -> Option<
    Strings,
> {
    if k == key {
        Some(
            match lookup(m, k) {
                Some(l) => l + items,
                None => items,
            },
        )
    } else {
        lookup(m, k)
    }
}

proof fn lemma_append_lookup(m: Categories, key: Seq<char>, items: Strings, k: Seq<char>)
    requires
        increasing(keys(m)),
    ensures
        lookup(append_entry(m, key, items), k) === appended_at(m, key, items, k),
    decreases m.len(),
{
    let r = append_entry(m, key, items);
    if m.len() == 0 {
        assert(r[0] == (key, items));
        assert(r.drop_first() =~= Seq::<(Seq<char>, Strings)>::empty());
        assert(lookup(r, k) === appended_at(m, key, items, k));
    } else if m[0].0 == key {
        assert(r[0] == (key, m[0].1 + items));
        assert(r.drop_first() =~= m.drop_first());
        assert(lookup(r, k) === appended_at(m, key, items, k));
    } else if str_less(key, m[0].0) {
        assert(r[0] == (key, items));
        assert(r.drop_first() =~= m);
        lemma_lookup_below(m, key);
        assert(lookup(r, k) === appended_at(m, key, items, k));
    } else {
        let t = m.drop_first();
        assert(increasing(keys(t))) by {
            assert forall|a: int, b: int| 0 <= a < b < keys(t).len() implies str_less(
                #[trigger] keys(t)[a],
                #[trigger] keys(t)[b],
            ) by {
                assert(keys(t)[a] == keys(m)[a + 1] && keys(t)[b] == keys(m)[b + 1]);
            }
        }
        lemma_append_lookup(t, key, items, k);
        assert(r[0] == m[0]);
        assert(r.drop_first() =~= append_entry(t, key, items));
        assert(lookup(r, k) === appended_at(m, key, items, k));
    }
}

pub proof fn lemma_grows_refl(m: Categories)
    ensures
        grows(m, m),
{
    assert forall|key: Seq<char>| #[trigger] grows_at(m, m, key) by {
        if let Some(a) = lookup(m, key) {
            assert(a =~= a.subrange(0, a.len() as int));
        }
    }
}

pub proof fn lemma_grows_trans(m: Categories, m1: Categories, m2: Categories)
    requires
        grows(m, m1),
        grows(m1, m2),
    ensures
        grows(m, m2),
{
    assert forall|key: Seq<char>| #[trigger] grows_at(m, m2, key) by {
        assert(grows_at(m, m1, key));
        assert(grows_at(m1, m2, key));
        match lookup(m, key) {
            Some(a) => {
                let b = lookup(m1, key)->0;
                let c = lookup(m2, key)->0;
                assert(b =~= c.subrange(0, b.len() as int));
                assert(a =~= c.subrange(0, a.len() as int));
            },
            None => {
                if lookup(m1, key) is Some {
                    let b = lookup(m1, key)->0;
                    let c = lookup(m2, key)->0;
                    assert(b.len() <= c.len());
                }
            },
        }
    }
}

/// Appending entries to a category only adds to the list.
pub proof fn lemma_append_grows(m: Categories, key: Seq<char>, items: Strings)
    requires
        increasing(keys(m)),
        items.len() > 0,
    ensures
        grows(m, append_entry(m, key, items)),
{
    assert forall|k: Seq<char>| #[trigger] grows_at(m, append_entry(m, key, items), k) by {
        lemma_append_lookup(m, key, items, k);
        assert(lookup(append_entry(m, key, items), k) === appended_at(m, key, items, k));
        if let Some(a) = lookup(m, k) {
            if k == key {
                assert(a =~= (a + items).subrange(0, a.len() as int));
            } else {
                assert(a =~= a.subrange(0, a.len() as int));
            }
        }
    }
}

proof fn lemma_insert_at(s: Strings, x: Seq<char>, p: int)
    requires
        0 <= p <= s.len(),
        forall|j: int| 0 <= j < p ==> str_less(#[trigger] s[j], x),
        p < s.len() ==> (s[p] == x || str_less(x, s[p])),
    ensures
        insert_sorted(s, x) == if p < s.len() && s[p] == x {
            s
        } else {
            s.insert(p, x)
        },
    decreases p,
{
    if p == 0 {
        if s.len() > 0 && s[0] != x {
            assert(seq![x] + s =~= s.insert(0, x));
        } else if s.len() == 0 {
            assert(seq![x] =~= s.insert(0, x));
        }
    } else {
        assert(str_less(s[0], x));
        lemma_str_less_irreflexive(x);
        lemma_str_less_asymmetric(s[0], x);
        let t = s.drop_first();
        assert forall|j: int| 0 <= j < p - 1 implies str_less(#[trigger] t[j], x) by {
            assert(t[j] == s[j + 1]);
        }
        lemma_insert_at(t, x, p - 1);
        if p < s.len() && s[p] == x {
            assert(seq![s[0]] + t =~= s);
        } else {
            assert(seq![s[0]] + t.insert(p - 1, x) =~= s.insert(p, x));
        }
    }
}

pub proof fn lemma_insert_sorted(s: Strings, x: Seq<char>)
    requires
        increasing(s),
    ensures
        increasing(insert_sorted(s, x)),
        forall|y: Seq<char>| #[trigger] insert_sorted(s, x).contains(y) <==> (s.contains(y) || y == x),
    decreases s.len(),
{
    let r = insert_sorted(s, x);
    if s.len() == 0 {
        assert(r =~= seq![x]);
        assert forall|y: Seq<char>| r.contains(y) <==> (s.contains(y) || y == x) by {
            if r.contains(y) {
                assert(r[0] == y);
            }
            if y == x {
                assert(r[0] == y);
            }
        }
    } else if s[0] == x {
        assert forall|y: Seq<char>| r.contains(y) <==> (s.contains(y) || y == x) by {
            if y == x {
                assert(s[0] == y);
            }
        }
    } else if str_less(x, s[0]) {
        assert forall|i: int, j: int| 0 <= i < j < r.len() implies str_less(
            #[trigger] r[i],
            #[trigger] r[j],
        ) by {
            if i == 0 {
                if j > 1 {
                    lemma_str_less_transitive(x, s[0], s[j - 1]);
                }
            } else {
                assert(r[i] == s[i - 1] && r[j] == s[j - 1]);
            }
        }
        assert forall|y: Seq<char>| r.contains(y) <==> (s.contains(y) || y == x) by {
            if s.contains(y) {
                let k = choose|k: int| 0 <= k < s.len() && s[k] == y;
                assert(r[k + 1] == y);
            }
            if r.contains(y) {
                let k = choose|k: int| 0 <= k < r.len() && r[k] == y;
                if k > 0 {
                    assert(s[k - 1] == y);
                }
            }
            if y == x {
                assert(r[0] == y);
            }
        }
    } else {
        let t = s.drop_first();
        assert(increasing(t)) by {
            assert forall|i: int, j: int| 0 <= i < j < t.len() implies str_less(
                #[trigger] t[i],
                #[trigger] t[j],
            ) by {
                assert(t[i] == s[i + 1] && t[j] == s[j + 1]);
            }
        }
        lemma_insert_sorted(t, x);
        let rt = insert_sorted(t, x);
        lemma_str_less_total(x, s[0]);
        assert(str_less(s[0], x));
        assert(r == seq![s[0]] + rt);
        assert forall|i: int, j: int| 0 <= i < j < r.len() implies str_less(
            #[trigger] r[i],
            #[trigger] r[j],
        ) by {
            if i == 0 {
                let y = rt[j - 1];
                assert(rt.contains(y));
                if y != x {
                    assert(t.contains(y));
                    let k = choose|k: int| 0 <= k < t.len() && t[k] == y;
                    assert(s[k + 1] == y);
                }
            } else {
                assert(r[i] == rt[i - 1] && r[j] == rt[j - 1]);
            }
        }
        assert forall|y: Seq<char>| r.contains(y) <==> (s.contains(y) || y == x) by {
            if s.contains(y) {
                let k = choose|k: int| 0 <= k < s.len() && s[k] == y;
                if k == 0 {
                    assert(r[0] == y);
                } else {
                    assert(t[k - 1] == y);
                    assert(t.contains(y));
                    assert(rt.contains(y));
                    let m = choose|m: int| 0 <= m < rt.len() && rt[m] == y;
                    assert(r[m + 1] == y);
                }
            }
            if y == x {
                assert(rt.contains(x));
                let m = choose|m: int| 0 <= m < rt.len() && rt[m] == x;
                assert(r[m + 1] == x);
            }
            if r.contains(y) {
                let k = choose|k: int| 0 <= k < r.len() && r[k] == y;
                if k == 0 {
                    assert(s[0] == y);
                } else {
                    assert(rt[k - 1] == y);
                    assert(rt.contains(y));
                    if t.contains(y) {
                        let m = choose|m: int| 0 <= m < t.len() && t[m] == y;
                        assert(s[m + 1] == y);
                    }
                }
            }
        }
    }
}

/// The sorted set of a list holds exactly its strings, in increasing order.
pub proof fn lemma_sorted_set(items: Strings)
    ensures
        increasing(sorted_set(items)),
        forall|y: Seq<char>| sorted_set(items).contains(y) <==> items.contains(y),
    decreases items.len(),
{
    if items.len() > 0 {
        lemma_sorted_set(items.drop_last());
        lemma_insert_sorted(sorted_set(items.drop_last()), items.last());
        assert forall|y: Seq<char>| sorted_set(items).contains(y) <==> items.contains(y) by {
            if items.drop_last().contains(y) {
                let k = choose|k: int| 0 <= k < items.drop_last().len() && items.drop_last()[k]
                    == y;
                assert(items[k] == y);
            }
            if items.contains(y) {
                let k = choose|k: int| 0 <= k < items.len() && items[k] == y;
                if k < items.len() - 1 {
                    assert(items.drop_last()[k] == y);
                }
            }
        }
    } else {
        assert(sorted_set(items) =~= Seq::<Seq<char>>::empty());
    }
}

/// Adds `x` to an increasing vector of strings, in its place, unless it is
/// there already.
pub fn insert_string(set: &mut Vec<String>, x: String)
    ensures
        strings(final(set)@) == insert_sorted(strings(old(set)@), x@),
{
    let ghost s = strings(set@);
    let mut p: usize = 0;
    while p < set.len() && less(set[p].as_str(), x.as_str())
        invariant
            p <= set.len(),
            s == strings(set@),
            forall|j: int| 0 <= j < p ==> str_less(#[trigger] s[j], x@),
        decreases set.len() - p,
    {
        p = p + 1;
    }
    proof {
        if p < set.len() {
            lemma_str_less_total(s[p as int], x@);
        }
        lemma_insert_at(s, x@, p as int);
    }
    if p < set.len() && same(set[p].as_str(), x.as_str()) {
        return ;
    }
    set.insert(p, x);
    assert(strings(set@) =~= s.insert(p as int, x@));
}

/// The strings of `items` in increasing order, each once.
pub fn to_sorted_set(items: &Vec<String>) -> (r: Vec<String>)
    ensures
        strings(r@) == sorted_set(strings(items@)),
{
    let ghost all = strings(items@);
    let mut r: Vec<String> = Vec::new();
    let mut i: usize = 0;
    assert(all.take(0) =~= Seq::<Seq<char>>::empty());
    while i < items.len()
        invariant
            i <= items.len(),
            all == strings(items@),
            strings(r@) == sorted_set(all.take(i as int)),
        decreases items.len() - i,
    {
        assert(all.take(i + 1).drop_last() =~= all.take(i as int));
        insert_string(&mut r, items[i].clone());
        i = i + 1;
    }
    assert(all.take(i as int) =~= all);
    r
}

proof fn lemma_append_at(m: Categories, key: Seq<char>, items: Strings, p: int)
    requires
        0 <= p <= m.len(),
        forall|j: int| 0 <= j < p ==> str_less(#[trigger] m[j].0, key),
        p < m.len() ==> (m[p].0 == key || str_less(key, m[p].0)),
    ensures
        append_entry(m, key, items) == if p < m.len() && m[p].0 == key {
            m.update(p, (key, m[p].1 + items))
        } else {
            m.insert(p, (key, items))
        },
    decreases p,
{
    if p == 0 {
        if m.len() > 0 && m[0].0 != key {
            assert(seq![(key, items)] + m =~= m.insert(0, (key, items)));
        } else if m.len() == 0 {
            assert(seq![(key, items)] =~= m.insert(0, (key, items)));
        }
    } else {
        assert(str_less(m[0].0, key));
        lemma_str_less_irreflexive(key);
        lemma_str_less_asymmetric(m[0].0, key);
        let t = m.drop_first();
        assert forall|j: int| 0 <= j < p - 1 implies str_less(#[trigger] t[j].0, key) by {
            assert(t[j] == m[j + 1]);
        }
        lemma_append_at(t, key, items, p - 1);
        if p < m.len() && m[p].0 == key {
            assert(seq![m[0]] + t.update(p - 1, (key, t[p - 1].1 + items)) =~= m.update(
                p,
                (key, m[p].1 + items),
            ));
        } else {
            assert(seq![m[0]] + t.insert(p - 1, (key, items)) =~= m.insert(p, (key, items)));
        }
    }
}

/// The keys stay increasing when entries are appended.
pub proof fn lemma_append_entry(m: Categories, key: Seq<char>, items: Strings)
    requires
        increasing(keys(m)),
    ensures
        increasing(keys(append_entry(m, key, items))),
        keys(append_entry(m, key, items)) == insert_sorted(keys(m), key),
    decreases m.len(),
{
    let r = append_entry(m, key, items);
    if m.len() == 0 {
        assert(keys(r) =~= seq![key]);
    } else if m[0].0 == key {
        assert(keys(r) =~= keys(m));
    } else if str_less(key, m[0].0) {
        assert(keys(r) =~= seq![key] + keys(m));
    } else {
        let t = m.drop_first();
        assert(keys(t) =~= keys(m).drop_first());
        assert(increasing(keys(t))) by {
            assert forall|i: int, j: int| 0 <= i < j < keys(t).len() implies str_less(
                #[trigger] keys(t)[i],
                #[trigger] keys(t)[j],
            ) by {
                assert(keys(t)[i] == keys(m)[i + 1] && keys(t)[j] == keys(m)[j + 1]);
            }
        }
        lemma_append_entry(t, key, items);
        assert(keys(r) =~= seq![m[0].0] + keys(append_entry(t, key, items)));
    }
    lemma_insert_sorted(keys(m), key);
}

/// Appends `items` to the entry for `key`, adding the entry in its place when
/// it is missing.
pub fn add_to_entry(m: &mut Vec<(String, Vec<String>)>, key: String, items: Vec<String>)
    ensures
        categories(final(m)@) == append_entry(categories(old(m)@), key@, strings(items@)),
{
    let ghost c = categories(m@);
    let mut p: usize = 0;
    while p < m.len() && less(m[p].0.as_str(), key.as_str())
        invariant
            p <= m.len(),
            c == categories(m@),
            forall|j: int| 0 <= j < p ==> str_less(#[trigger] c[j].0, key@),
        decreases m.len() - p,
    {
        p = p + 1;
    }
    proof {
        if p < m.len() {
            lemma_str_less_total(c[p as int].0, key@);
        }
        lemma_append_at(c, key@, strings(items@), p as int);
    }
    if p < m.len() && same(m[p].0.as_str(), key.as_str()) {
        let (k, mut values) = m.remove(p);
        let mut more = items;
        let ghost before = strings(values@);
        values.append(&mut more);
        assert(strings(values@) =~= before + strings(items@));
        m.insert(p, (k, values));
        assert(categories(m@) =~= c.update(p as int, (key@, c[p as int].1 + strings(items@))));
    } else {
        m.insert(p, (key, items));
        assert(categories(m@) =~= c.insert(p as int, (key@, strings(items@))));
    }
}

} // verus!
