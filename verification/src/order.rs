//! Stable sorting of lists by text keys.
use vstd::prelude::*;
use crate::text::{lex_less, lex_lt};

verus! {

/// A two-part sort key: ordered by its first part, then by its second.
pub struct SortKey {
    pub first: Vec<char>,
    pub second: Vec<char>,
}

impl View for SortKey {
    type V = (Seq<char>, Seq<char>);

    open spec fn view(&self) -> (Seq<char>, Seq<char>) {
        (self.first@, self.second@)
    }
}

pub open spec fn key_lt(a: (Seq<char>, Seq<char>), b: (Seq<char>, Seq<char>)) -> bool {
    lex_lt(a.0, b.0) || (a.0 == b.0 && lex_lt(a.1, b.1))
}

pub fn key_less(a: &SortKey, b: &SortKey) -> (res: bool)
    ensures
        res == key_lt(a@, b@),
{
    if lex_less(&a.first, &b.first) {
        return true;
    }
    if a.first.len() != b.first.len() {
        proof {
            if a.first@ == b.first@ {
                assert(false);
            }
        }
        return false;
    }
    let mut i: usize = 0;
    while i < a.first.len()
        invariant
            i <= a.first@.len(),
            a.first@.len() == b.first@.len(),
            !lex_lt(a.first@, b.first@),
            forall|j: int| 0 <= j < i ==> a.first@[j] == b.first@[j],
        decreases a.first@.len() - i,
    {
        if a.first[i] != b.first[i] {
            assert(a.first@[i as int] != b.first@[i as int]);
            assert(a.first@ != b.first@);
            return false;
        }
        i = i + 1;
    }
    assert(a.first@ =~= b.first@);
    lex_less(&a.second, &b.second)
}

/// The first position in `ks` whose key is greater than `k`: where a stable sort
/// puts an item with key `k` after the items already placed.
pub open spec fn insert_pos(ks: Seq<(Seq<char>, Seq<char>)>, k: (Seq<char>, Seq<char>), from: int) -> int
    decreases ks.len() - from,
{
    if from < 0 || from >= ks.len() {
        ks.len() as int
    } else if key_lt(k, ks[from]) {
        from
    } else {
        insert_pos(ks, k, from + 1)
    }
}

/// Items with their keys sorted stably by key: each item in turn goes after every
/// item already placed whose key is not greater.
pub open spec fn sorted_pairs<T>(ps: Seq<((Seq<char>, Seq<char>), T)>) -> Seq<((Seq<char>, Seq<char>), T)>
    decreases ps.len(),
{
    if ps.len() == 0 {
        ps
    } else {
        let s = sorted_pairs(ps.drop_last());
        let x = ps.last();
        let p = insert_pos(s.map_values(|q: ((Seq<char>, Seq<char>), T)| q.0), x.0, 0);
        s.insert(p, x)
    }
}

pub open spec fn zip_keys<T>(ks: Seq<(Seq<char>, Seq<char>)>, items: Seq<T>) -> Seq<((Seq<char>, Seq<char>), T)> {
    Seq::new(items.len(), |i: int| (ks[i], items[i]))
}

pub open spec fn key_views(ks: Seq<SortKey>) -> Seq<(Seq<char>, Seq<char>)> {
    ks.map_values(|k: SortKey| k@)
}

/// `items` sorted stably by the keys given for them.
pub open spec fn sorted_by_keys<T>(ks: Seq<(Seq<char>, Seq<char>)>, items: Seq<T>) -> Seq<T> {
    sorted_pairs(zip_keys(ks, items)).map_values(|q: ((Seq<char>, Seq<char>), T)| q.1)
}

proof fn lemma_insert_pos_bound(ks: Seq<(Seq<char>, Seq<char>)>, k: (Seq<char>, Seq<char>), from: int)
    requires
        0 <= from <= ks.len(),
    ensures
        from <= insert_pos(ks, k, from) <= ks.len(),
    decreases ks.len() - from,
{
    if from < ks.len() && !key_lt(k, ks[from]) {
        lemma_insert_pos_bound(ks, k, from + 1);
    }
}

proof fn lemma_sorted_pairs_len<T>(ps: Seq<((Seq<char>, Seq<char>), T)>)
    ensures
        sorted_pairs(ps).len() == ps.len(),
    decreases ps.len(),
{
    if ps.len() > 0 {
        let s = sorted_pairs(ps.drop_last());
        lemma_sorted_pairs_len(ps.drop_last());
        lemma_insert_pos_bound(s.map_values(|q: ((Seq<char>, Seq<char>), T)| q.0), ps.last().0, 0);
    }
}

/// Sorts `items` stably by `keys` (one key per item).
pub fn sort_by_keys<T>(items: Vec<T>, keys: Vec<SortKey>) -> (res: Vec<T>)
    requires
        items@.len() == keys@.len(),
    ensures
        res@ == sorted_by_keys(key_views(keys@), items@),
{
    let ghost all = zip_keys(key_views(keys@), items@);
    let ghost input = items@;
    let mut rest = items;
    let mut keys = keys;
    let ghost key_seq = keys@;
    let mut out_items: Vec<T> = Vec::new();
    let mut out_keys: Vec<SortKey> = Vec::new();
    let mut n: usize = 0;
    let total = rest.len();
    // Items are taken from the back of `rest`; `all` is handled from the front, so
    // walk the input reversed by taking from a reversed copy.
    let mut pending: Vec<T> = Vec::new();
    let mut pending_keys: Vec<SortKey> = Vec::new();
    while rest.len() > 0
        invariant
            rest@.len() + pending@.len() == total,
            keys@.len() == rest@.len(),
            pending_keys@.len() == pending@.len(),
            total == input.len(),
            key_seq.len() == total,
            forall|i: int| 0 <= i < rest@.len() ==> #[trigger] rest@[i] == input[i],
            forall|i: int| 0 <= i < keys@.len() ==> #[trigger] keys@[i] == key_seq[i],
            forall|i: int| 0 <= i < pending@.len() ==> #[trigger] pending@[i] == input[total - 1 - i],
            forall|i: int|
                0 <= i < pending_keys@.len() ==> #[trigger] pending_keys@[i] == key_seq[total - 1 - i],
        decreases rest@.len(),
    {
        let ghost r = rest@;
        let ghost rk = keys@;
        let ghost pd = pending@;
        let ghost pk = pending_keys@;
        let x = rest.pop().unwrap();
        let kx = keys.pop().unwrap();
        assert(x == r[r.len() - 1]);
        assert(r[r.len() - 1] == input[r.len() - 1]);
        assert(rk[r.len() - 1] == key_seq[r.len() - 1]);
        pending.push(x);
        pending_keys.push(kx);
        assert forall|i: int| 0 <= i < rest@.len() implies #[trigger] rest@[i] == input[i] by {
            assert(rest@[i] == r[i]);
        }
        assert forall|i: int| 0 <= i < keys@.len() implies #[trigger] keys@[i] == key_seq[i] by {
            assert(keys@[i] == rk[i]);
        }
        assert forall|i: int| 0 <= i < pending@.len() implies #[trigger] pending@[i] == input[total
            - 1 - i] by {
            if i < pd.len() {
                assert(pending@[i] == pd[i]);
            }
        }
        assert forall|i: int| 0 <= i < pending_keys@.len() implies #[trigger] pending_keys@[i]
            == key_seq[total - 1 - i] by {
            if i < pk.len() {
                assert(pending_keys@[i] == pk[i]);
            }
        }
    }
    while n < total
        invariant
            n <= total,
            total == input.len(),
            key_seq.len() == total,
            all == zip_keys(key_views(key_seq), input),
            pending@.len() == total - n,
            pending_keys@.len() == pending@.len(),
            forall|i: int| 0 <= i < pending@.len() ==> #[trigger] pending@[i] == input[total - 1 - i],
            forall|i: int|
                0 <= i < pending_keys@.len() ==> #[trigger] pending_keys@[i] == key_seq[total - 1 - i],
            out_items@.len() == out_keys@.len(),
            sorted_pairs(all.take(n as int)) == Seq::new(
                out_items@.len(),
                |i: int| (out_keys@[i]@, out_items@[i]),
            ),
        decreases total - n,
    {
        let ghost pd = pending@;
        let ghost pk = pending_keys@;
        let x = pending.pop().unwrap();
        let kx = pending_keys.pop().unwrap();
        assert(pd[pd.len() - 1] == input[n as int]);
        assert(pk[pk.len() - 1] == key_seq[n as int]);
        assert forall|i: int| 0 <= i < pending@.len() implies #[trigger] pending@[i] == input[total
            - 1 - i] by {
            assert(pending@[i] == pd[i]);
        }
        assert forall|i: int| 0 <= i < pending_keys@.len() implies #[trigger] pending_keys@[i]
            == key_seq[total - 1 - i] by {
            assert(pending_keys@[i] == pk[i]);
        }
        let ghost s = sorted_pairs(all.take(n as int));
        let ghost ks = s.map_values(|q: ((Seq<char>, Seq<char>), T)| q.0);
        proof {
            assert(all.take(n + 1).drop_last() =~= all.take(n as int));
            assert(all.take(n + 1).last() == (kx@, x));
        }
        let mut p: usize = 0;
        while p < out_keys.len() && !key_less(&kx, &out_keys[p])
            invariant
                p <= out_keys@.len(),
                ks.len() == out_keys@.len(),
                forall|i: int| 0 <= i < out_keys@.len() ==> ks[i] == #[trigger] out_keys@[i]@,
                insert_pos(ks, kx@, 0) == insert_pos(ks, kx@, p as int),
            decreases out_keys@.len() - p,
        {
            p = p + 1;
        }
        assert(insert_pos(ks, kx@, 0) == p);
        let ghost old_items = out_items@;
        let ghost old_keys = out_keys@;
        out_items.insert(p, x);
        out_keys.insert(p, kx);
        proof {
            assert(sorted_pairs(all.take(n + 1)) == s.insert(p as int, (kx@, x)));
            assert(s.insert(p as int, (kx@, x)) =~= Seq::new(
                out_items@.len(),
                |i: int| (out_keys@[i]@, out_items@[i]),
            ));
        }
        n = n + 1;
    }
    proof {
        assert(all.take(total as int) =~= all);
        assert(sorted_by_keys(key_views(key_seq), input) =~= out_items@);
    }
    out_items
}


pub open spec fn map_payload<T, U>(ps: Seq<((Seq<char>, Seq<char>), T)>, f: spec_fn(T) -> U) -> Seq<((Seq<char>, Seq<char>), U)> {
    ps.map_values(|q: ((Seq<char>, Seq<char>), T)| (q.0, f(q.1)))
}

proof fn lemma_sorted_pairs_map<T, U>(ps: Seq<((Seq<char>, Seq<char>), T)>, f: spec_fn(T) -> U)
    ensures
        sorted_pairs(map_payload(ps, f)) == map_payload(sorted_pairs(ps), f),
    decreases ps.len(),
{
    if ps.len() > 0 {
        let qs = map_payload(ps, f);
        assert(qs.drop_last() =~= map_payload(ps.drop_last(), f));
        lemma_sorted_pairs_map(ps.drop_last(), f);
        let s = sorted_pairs(ps.drop_last());
        let sm = map_payload(s, f);
        let x = ps.last();
        assert(qs.last() == (x.0, f(x.1)));
        let ks = s.map_values(|q: ((Seq<char>, Seq<char>), T)| q.0);
        assert(sm.map_values(|q: ((Seq<char>, Seq<char>), U)| q.0) =~= ks);
        let p = insert_pos(ks, x.0, 0);
        lemma_sorted_pairs_len(ps.drop_last());
        lemma_insert_pos_bound(ks, x.0, 0);
        assert(sm.insert(p, (x.0, f(x.1))) =~= map_payload(s.insert(p, x), f));
    }
}

/// Sorting by keys commutes with mapping the items: the keys alone decide the order.
pub proof fn lemma_sorted_by_keys_map<T, U>(ks: Seq<(Seq<char>, Seq<char>)>, items: Seq<T>, f: spec_fn(T) -> U)
    ensures
        sorted_by_keys(ks, items).map_values(f) == sorted_by_keys(ks, items.map_values(f)),
{
    let ps = zip_keys(ks, items);
    assert(zip_keys(ks, items.map_values(f)) =~= map_payload(ps, f));
    lemma_sorted_pairs_map(ps, f);
    assert(sorted_by_keys(ks, items).map_values(f) =~= map_payload(sorted_pairs(ps), f).map_values(
        |q: ((Seq<char>, Seq<char>), U)| q.1,
    ));
}

/// Sorting keeps the number of items.
pub proof fn lemma_sorted_by_keys_len<T>(ks: Seq<(Seq<char>, Seq<char>)>, items: Seq<T>)
    ensures
        sorted_by_keys(ks, items).len() == items.len(),
{
    lemma_sorted_pairs_len(zip_keys(ks, items));
}

// ───────────────────────── what sorting keeps ─────────────────────────

/// Keys in order: no key is smaller than one before it.
pub open spec fn keys_ordered(ks: Seq<(Seq<char>, Seq<char>)>) -> bool {
    forall|i: int, j: int| 0 <= i < j < ks.len() ==> !key_lt(#[trigger] ks[j], #[trigger] ks[i])
}

proof fn lemma_key_lt_irrefl(a: (Seq<char>, Seq<char>))
    ensures
        !key_lt(a, a),
{
    crate::text::lemma_lex_lt_irrefl(a.0);
    crate::text::lemma_lex_lt_irrefl(a.1);
}

proof fn lemma_key_lt_trans(a: (Seq<char>, Seq<char>), b: (Seq<char>, Seq<char>), c: (Seq<char>, Seq<char>))
    requires
        key_lt(a, b),
        key_lt(b, c),
    ensures
        key_lt(a, c),
{
    if lex_lt(a.0, b.0) && lex_lt(b.0, c.0) {
        crate::text::lemma_lex_lt_trans(a.0, b.0, c.0);
    } else if lex_lt(a.0, b.0) {
    } else if lex_lt(b.0, c.0) {
    } else {
        crate::text::lemma_lex_lt_trans(a.1, b.1, c.1);
    }
}

proof fn lemma_insert_pos_props(ks: Seq<(Seq<char>, Seq<char>)>, k: (Seq<char>, Seq<char>), from: int)
    requires
        0 <= from <= ks.len(),
    ensures
        forall|idx: int| from <= idx < insert_pos(ks, k, from) ==> !key_lt(k, #[trigger] ks[idx]),
        insert_pos(ks, k, from) < ks.len() ==> key_lt(k, ks[insert_pos(ks, k, from)]),
    decreases ks.len() - from,
{
    if from < ks.len() && !key_lt(k, ks[from]) {
        lemma_insert_pos_props(ks, k, from + 1);
    }
}

proof fn lemma_insert_keeps_order(ks: Seq<(Seq<char>, Seq<char>)>, k: (Seq<char>, Seq<char>))
    requires
        keys_ordered(ks),
    ensures
        keys_ordered(ks.insert(insert_pos(ks, k, 0), k)),
{
    let p = insert_pos(ks, k, 0);
    lemma_insert_pos_bound(ks, k, 0);
    lemma_insert_pos_props(ks, k, 0);
    let n = ks.insert(p, k);
    assert forall|i: int, j: int| 0 <= i < j < n.len() implies !key_lt(#[trigger] n[j], #[trigger] n[i]) by {
        if j < p {
            assert(n[i] == ks[i] && n[j] == ks[j]);
        } else if j == p {
            assert(n[i] == ks[i]);
        } else {
            assert(n[j] == ks[j - 1]);
            if i < p {
                assert(n[i] == ks[i]);
            } else if i == p {
                assert(key_lt(k, ks[p]));
                if key_lt(ks[j - 1], k) {
                    lemma_key_lt_trans(ks[j - 1], k, ks[p]);
                    if j - 1 == p {
                        lemma_key_lt_irrefl(ks[p]);
                    }
                }
            } else {
                assert(n[i] == ks[i - 1]);
            }
        }
    }
}

proof fn lemma_sorted_pairs_ordered<T>(ps: Seq<((Seq<char>, Seq<char>), T)>)
    ensures
        keys_ordered(sorted_pairs(ps).map_values(|q: ((Seq<char>, Seq<char>), T)| q.0)),
    decreases ps.len(),
{
    if ps.len() > 0 {
        lemma_sorted_pairs_ordered(ps.drop_last());
        let s = sorted_pairs(ps.drop_last());
        let x = ps.last();
        let ks = s.map_values(|q: ((Seq<char>, Seq<char>), T)| q.0);
        let p = insert_pos(ks, x.0, 0);
        lemma_insert_keeps_order(ks, x.0);
        lemma_sorted_pairs_len(ps.drop_last());
        lemma_insert_pos_bound(ks, x.0, 0);
        assert(s.insert(p, x).map_values(|q: ((Seq<char>, Seq<char>), T)| q.0) =~= ks.insert(p, x.0));
    }
}

proof fn lemma_sorted_pairs_keyed<T>(ps: Seq<((Seq<char>, Seq<char>), T)>, key: spec_fn(T) -> (Seq<char>, Seq<char>))
    requires
        forall|i: int| 0 <= i < ps.len() ==> (#[trigger] ps[i]).0 == key(ps[i].1),
    ensures
        forall|i: int| 0 <= i < sorted_pairs(ps).len() ==> (#[trigger] sorted_pairs(ps)[i]).0 == key(
            sorted_pairs(ps)[i].1,
        ),
    decreases ps.len(),
{
    if ps.len() > 0 {
        let d = ps.drop_last();
        assert forall|i: int| 0 <= i < d.len() implies (#[trigger] d[i]).0 == key(d[i].1) by {
            assert(d[i] == ps[i]);
        }
        lemma_sorted_pairs_keyed(d, key);
        let s = sorted_pairs(d);
        let x = ps.last();
        let p = insert_pos(s.map_values(|q: ((Seq<char>, Seq<char>), T)| q.0), x.0, 0);
        lemma_sorted_pairs_len(d);
        lemma_insert_pos_bound(s.map_values(|q: ((Seq<char>, Seq<char>), T)| q.0), x.0, 0);
        let n = s.insert(p, x);
        assert forall|i: int| 0 <= i < n.len() implies (#[trigger] n[i]).0 == key(n[i].1) by {
            if i < p {
                assert(n[i] == s[i]);
            } else if i > p {
                assert(n[i] == s[i - 1]);
            }
        }
    }
}

/// Sorting by keys puts the items in the order of their keys: no item has a
/// smaller key than an item before it.
pub proof fn lemma_sorted_by_keys_ordered<T>(items: Seq<T>, key: spec_fn(T) -> (Seq<char>, Seq<char>))
    ensures
        forall|i: int, j: int|
            0 <= i < j < sorted_by_keys(items.map_values(key), items).len() ==> !key_lt(
                key(#[trigger] sorted_by_keys(items.map_values(key), items)[j]),
                key(#[trigger] sorted_by_keys(items.map_values(key), items)[i]),
            ),
{
    let ps = zip_keys(items.map_values(key), items);
    assert forall|i: int| 0 <= i < ps.len() implies (#[trigger] ps[i]).0 == key(ps[i].1) by {}
    lemma_sorted_pairs_keyed(ps, key);
    lemma_sorted_pairs_ordered(ps);
    let sp = sorted_pairs(ps);
    let out = sorted_by_keys(items.map_values(key), items);
    let ks = sp.map_values(|q: ((Seq<char>, Seq<char>), T)| q.0);
    assert forall|i: int, j: int| 0 <= i < j < out.len() implies !key_lt(
        key(#[trigger] out[j]),
        key(#[trigger] out[i]),
    ) by {
        assert(out[i] == sp[i].1);
        assert(out[j] == sp[j].1);
        assert(ks[i] == sp[i].0);
        assert(ks[j] == sp[j].0);
    }
}

proof fn lemma_sorted_pairs_permutes<T>(ks: Seq<(Seq<char>, Seq<char>)>, items: Seq<T>)
    ensures
        sorted_by_keys(ks, items).to_multiset() == items.to_multiset(),
    decreases items.len(),
{
    broadcast use vstd::seq_lib::to_multiset_build, vstd::seq_lib::to_multiset_insert;

    if items.len() == 0 {
        assert(sorted_by_keys(ks, items) =~= Seq::<T>::empty());
        assert(items =~= Seq::<T>::empty());
    } else {
        let ps = zip_keys(ks, items);
        let d = items.drop_last();
        assert(ps.drop_last() =~= zip_keys(ks, d));
        lemma_sorted_pairs_permutes(ks, d);
        let s = sorted_pairs(zip_keys(ks, d));
        let x = ps.last();
        let p = insert_pos(s.map_values(|q: ((Seq<char>, Seq<char>), T)| q.0), x.0, 0);
        lemma_sorted_pairs_len(zip_keys(ks, d));
        lemma_insert_pos_bound(s.map_values(|q: ((Seq<char>, Seq<char>), T)| q.0), x.0, 0);
        let before = s.map_values(|q: ((Seq<char>, Seq<char>), T)| q.1);
        assert(sorted_by_keys(ks, items) =~= before.insert(p, items.last()));
        assert(before == sorted_by_keys(ks, d));
        assert(d.push(items.last()) =~= items);
    }
}

/// Sorting by keys keeps every item, as many times as it occurs.
pub proof fn lemma_sorted_by_keys_permutes<T>(ks: Seq<(Seq<char>, Seq<char>)>, items: Seq<T>)
    ensures
        sorted_by_keys(ks, items).to_multiset() == items.to_multiset(),
        sorted_by_keys(ks, items).len() == items.len(),
{
    lemma_sorted_pairs_permutes(ks, items);
    lemma_sorted_by_keys_len(ks, items);
}

} // verus!
