//! The keys of a map in a fixed order.
use std::collections::HashMap;
use vstd::prelude::*;
use vstd::std_specs::iter::IteratorSpec;

verus! {

broadcast use vstd::std_specs::hash::group_hash_axioms;

/// The keys of a map, in ascending order.
pub open spec fn lists_keys_u64<V>(keys: Seq<u64>, m: Map<u64, V>) -> bool {
    &&& forall|i: int, j: int| 0 <= i < j < keys.len() ==> keys[i] < keys[j]
    &&& forall|k: u64| keys.contains(k) <==> #[trigger] m.contains_key(k)
}

/// The keys of a map, in ascending order.
pub open spec fn ascending_u64<V>(m: Map<u64, V>) -> Seq<u64> {
    choose|keys: Seq<u64>| lists_keys_u64(keys, m)
}

/// There is only one way to list the keys of a map in ascending order.
pub proof fn one_order_u64<V>(a: Seq<u64>, b: Seq<u64>, m: Map<u64, V>)
    requires
        lists_keys_u64(a, m),
        lists_keys_u64(b, m),
    ensures
        a == b,
{
    assert forall|k: u64| a.contains(k) <==> b.contains(k) by {
        assert(a.contains(k) <==> m.contains_key(k));
    }
    same_u64(a, b);
}

proof fn same_u64(a: Seq<u64>, b: Seq<u64>)
    requires
        forall|i: int, j: int| 0 <= i < j < a.len() ==> a[i] < a[j],
        forall|i: int, j: int| 0 <= i < j < b.len() ==> b[i] < b[j],
        forall|k: u64| a.contains(k) <==> b.contains(k),
    ensures
        a == b,
    decreases a.len(),
{
    if a.len() == 0 {
        if b.len() > 0 {
            assert(b.contains(b[0]));
        }
        assert(a =~= b);
    } else {
        assert(a.contains(a.last()));
        let i = choose|i: int| 0 <= i < b.len() && b[i] == a.last();
        assert(b.contains(b.last()));
        let j = choose|j: int| 0 <= j < a.len() && a[j] == b.last();
        assert(a.last() == b.last());
        let x = a.drop_last();
        let y = b.drop_last();
        assert forall|k: u64| x.contains(k) <==> y.contains(k) by {
            if x.contains(k) {
                let n = choose|n: int| 0 <= n < x.len() && x[n] == k;
                assert(a[n] == k);
                assert(b.contains(k));
                let p = choose|p: int| 0 <= p < b.len() && b[p] == k;
                assert(y[p] == k);
            }
            if y.contains(k) {
                let n = choose|n: int| 0 <= n < y.len() && y[n] == k;
                assert(b[n] == k);
                assert(a.contains(k));
                let p = choose|p: int| 0 <= p < a.len() && a[p] == k;
                assert(x[p] == k);
            }
        }
        same_u64(x, y);
        assert(a =~= x.push(a.last()));
        assert(b =~= y.push(b.last()));
    }
}

/// An ascending list with `k` put in its place.
spec fn put_u64(s: Seq<u64>, k: u64) -> Seq<u64>
    decreases s.len(),
{
    if s.len() == 0 {
        seq![k]
    } else if s.last() < k {
        s.push(k)
    } else {
        put_u64(s.drop_last(), k).push(s.last())
    }
}

proof fn put_keeps_order_u64(s: Seq<u64>, k: u64)
    requires
        forall|i: int, j: int| 0 <= i < j < s.len() ==> s[i] < s[j],
        !s.contains(k),
    ensures
        forall|i: int, j: int| 0 <= i < j < put_u64(s, k).len() ==> put_u64(s, k)[i] < put_u64(s, k)[j],
        forall|x: u64| #[trigger] put_u64(s, k).contains(x) <==> (s.contains(x) || x == k),
    decreases s.len(),
{
    let t = put_u64(s, k);
    if s.len() == 0 {
        assert(t[0] == k);
    } else if s.last() < k {
        assert(t.last() == k);
        assert forall|x: u64| #[trigger] t.contains(x) <==> (s.contains(x) || x == k) by {
            if s.contains(x) {
                let i = choose|i: int| 0 <= i < s.len() && s[i] == x;
                assert(t[i] == x);
            }
            if x == k {
                assert(t[t.len() - 1] == x);
            }
            if t.contains(x) {
                let i = choose|i: int| 0 <= i < t.len() && t[i] == x;
                if i < s.len() {
                    assert(s[i] == x);
                }
            }
        }
    } else {
        assert(s.contains(s.last()));
        let d = s.drop_last();
        assert forall|x: u64| d.contains(x) implies s.contains(x) && x < s.last() by {
            let i = choose|i: int| 0 <= i < d.len() && d[i] == x;
            assert(s[i] == x);
        }
        put_keeps_order_u64(d, k);
        let p = put_u64(d, k);
        assert forall|i: int| 0 <= i < p.len() implies #[trigger] p[i] < s.last() by {
            assert(p.contains(p[i]));
        }
        assert forall|x: u64| #[trigger] t.contains(x) <==> (s.contains(x) || x == k) by {
            if s.contains(x) {
                let i = choose|i: int| 0 <= i < s.len() && s[i] == x;
                if i < d.len() {
                    assert(d[i] == x);
                    assert(p.contains(x));
                    let j = choose|j: int| 0 <= j < p.len() && p[j] == x;
                    assert(t[j] == x);
                } else {
                    assert(t[t.len() - 1] == x);
                }
            }
            if x == k {
                assert(p.contains(x));
                let j = choose|j: int| 0 <= j < p.len() && p[j] == x;
                assert(t[j] == x);
            }
            if t.contains(x) {
                let i = choose|i: int| 0 <= i < t.len() && t[i] == x;
                if i < p.len() {
                    assert(p[i] == x);
                    assert(p.contains(x));
                }
            }
        }
    }
}

/// The keys of a finite map can be listed.
pub proof fn ascending_lists_u64<V>(m: Map<u64, V>)
    requires
        m.dom().finite(),
    ensures
        lists_keys_u64(ascending_u64(m), m),
    decreases m.dom().len(),
{
    if m.dom().len() == 0 {
        assert(m.dom() =~= Set::<u64>::empty());
        let none = Seq::<u64>::empty();
        assert forall|k: u64| none.contains(k) <==> #[trigger] m.contains_key(k) by {
            assert(!m.dom().contains(k));
        }
        assert(lists_keys_u64(none, m));
    } else {
        let k = m.dom().choose();
        assert(m.dom().contains(k));
        let rest = m.remove(k);
        assert(rest.dom() =~= m.dom().remove(k));
        ascending_lists_u64(rest);
        let s = ascending_u64(rest);
        assert(!s.contains(k)) by {
            assert(s.contains(k) <==> rest.contains_key(k));
        }
        put_keeps_order_u64(s, k);
        let t = put_u64(s, k);
        assert forall|x: u64| t.contains(x) <==> #[trigger] m.contains_key(x) by {
            assert(t.contains(x) <==> (s.contains(x) || x == k));
            assert(s.contains(x) <==> rest.contains_key(x));
        }
        assert(lists_keys_u64(t, m));
    }
}

/// Puts `k` into an ascending list, where it is not there yet.
fn insert_u64(out: &mut Vec<u64>, k: u64)
    requires
        forall|i: int, j: int| 0 <= i < j < old(out)@.len() ==> old(out)@[i] < old(out)@[j],
        !old(out)@.contains(k),
    ensures
        forall|i: int, j: int| 0 <= i < j < final(out)@.len() ==> final(out)@[i] < final(out)@[j],
        forall|x: u64| #[trigger] final(out)@.contains(x) <==> (old(out)@.contains(x) || x == k),
{
    let mut at: usize = 0;
    while at < out.len() && out[at] < k
        invariant
            at <= out@.len(),
            forall|i: int| 0 <= i < at ==> out@[i] < k,
        decreases out@.len() - at,
    {
        at = at + 1;
    }
    let ghost before = out@;
    proof {
        if at < out@.len() {
            assert(before.contains(out@[at as int]));
        }
    }
    out.insert(at, k);
    proof {
        assert(out@ =~= before.insert(at as int, k));
        assert forall|x: u64| #[trigger] out@.contains(x) <==> (before.contains(x) || x == k) by {
            if before.contains(x) {
                let i = choose|i: int| 0 <= i < before.len() && before[i] == x;
                if i < at {
                    assert(out@[i] == x);
                } else {
                    assert(out@[i + 1] == x);
                }
            }
            if x == k {
                assert(out@[at as int] == k);
            }
            if out@.contains(x) {
                let i = choose|i: int| 0 <= i < out@.len() && out@[i] == x;
                if i < at {
                    assert(before[i] == x);
                } else if i > at {
                    assert(before[i - 1] == x);
                }
            }
        }
    }
}

/// The keys of a map, in ascending order.
pub fn keys_u64<V>(m: &HashMap<u64, V>) -> (r: Vec<u64>)
    ensures
        lists_keys_u64(r@, m@),
        r@ == ascending_u64(m@),
{
    let mut out: Vec<u64> = Vec::new();
    let ghost all = m.keys().remaining();
    for k in it: m.keys()
        invariant
            all == m.keys().remaining(),
            all.no_duplicates(),
            it.seq() == all,
            forall|i: int, j: int| 0 <= i < j < out@.len() ==> out@[i] < out@[j],
            forall|x: u64| #[trigger] out@.contains(x) <==> exists|i: int| 0 <= i < it.index() && *all[i] == x,
    {
        proof {
            if out@.contains(*k) {
                let i = choose|i: int| 0 <= i < it.index() && *all[i] == *k;
                assert(all[i] == all[it.index()]);
            }
        }
        let ghost before = out@;
        insert_u64(&mut out, *k);
        proof {
            assert forall|x: u64| #[trigger] out@.contains(x) <==> exists|i: int| 0 <= i < it.index() + 1 && *all[i] == x by {
                if before.contains(x) {
                    let i = choose|i: int| 0 <= i < it.index() && *all[i] == x;
                    assert(0 <= i < it.index() + 1 && *all[i] == x);
                }
                if x == *k {
                    assert(*all[it.index()] == x);
                }
            }
        }
    }
    proof {
        let set = all.unref().to_set();
        assert forall|k: u64| out@.contains(k) <==> #[trigger] m@.contains_key(k) by {
            if out@.contains(k) {
                let i = choose|i: int| 0 <= i < all.len() && *all[i] == k;
                assert(all.unref()[i] == k);
                assert(set.contains(k));
            }
            if m@.contains_key(k) {
                assert(set.contains(k));
                let i = choose|i: int| 0 <= i < all.unref().len() && all.unref()[i] == k;
                assert(*all[i] == k);
            }
        }
    }
    proof {
        assert(lists_keys_u64(out@, m@));
        one_order_u64(out@, ascending_u64(m@), m@);
    }
    out
}

/// The keys of a map, in ascending order.
pub open spec fn lists_keys_i32<V>(keys: Seq<i32>, m: Map<i32, V>) -> bool {
    &&& forall|i: int, j: int| 0 <= i < j < keys.len() ==> keys[i] < keys[j]
    &&& forall|k: i32| keys.contains(k) <==> #[trigger] m.contains_key(k)
}

/// The keys of a map, in ascending order.
pub open spec fn ascending_i32<V>(m: Map<i32, V>) -> Seq<i32> {
    choose|keys: Seq<i32>| lists_keys_i32(keys, m)
}

/// There is only one way to list the keys of a map in ascending order.
pub proof fn one_order_i32<V>(a: Seq<i32>, b: Seq<i32>, m: Map<i32, V>)
    requires
        lists_keys_i32(a, m),
        lists_keys_i32(b, m),
    ensures
        a == b,
{
    assert forall|k: i32| a.contains(k) <==> b.contains(k) by {
        assert(a.contains(k) <==> m.contains_key(k));
    }
    same_i32(a, b);
}

proof fn same_i32(a: Seq<i32>, b: Seq<i32>)
    requires
        forall|i: int, j: int| 0 <= i < j < a.len() ==> a[i] < a[j],
        forall|i: int, j: int| 0 <= i < j < b.len() ==> b[i] < b[j],
        forall|k: i32| a.contains(k) <==> b.contains(k),
    ensures
        a == b,
    decreases a.len(),
{
    if a.len() == 0 {
        if b.len() > 0 {
            assert(b.contains(b[0]));
        }
        assert(a =~= b);
    } else {
        assert(a.contains(a.last()));
        let i = choose|i: int| 0 <= i < b.len() && b[i] == a.last();
        assert(b.contains(b.last()));
        let j = choose|j: int| 0 <= j < a.len() && a[j] == b.last();
        assert(a.last() == b.last());
        let x = a.drop_last();
        let y = b.drop_last();
        assert forall|k: i32| x.contains(k) <==> y.contains(k) by {
            if x.contains(k) {
                let n = choose|n: int| 0 <= n < x.len() && x[n] == k;
                assert(a[n] == k);
                assert(b.contains(k));
                let p = choose|p: int| 0 <= p < b.len() && b[p] == k;
                assert(y[p] == k);
            }
            if y.contains(k) {
                let n = choose|n: int| 0 <= n < y.len() && y[n] == k;
                assert(b[n] == k);
                assert(a.contains(k));
                let p = choose|p: int| 0 <= p < a.len() && a[p] == k;
                assert(x[p] == k);
            }
        }
        same_i32(x, y);
        assert(a =~= x.push(a.last()));
        assert(b =~= y.push(b.last()));
    }
}

/// Puts `k` into an ascending list, where it is not there yet.
fn insert_i32(out: &mut Vec<i32>, k: i32)
    requires
        forall|i: int, j: int| 0 <= i < j < old(out)@.len() ==> old(out)@[i] < old(out)@[j],
        !old(out)@.contains(k),
    ensures
        forall|i: int, j: int| 0 <= i < j < final(out)@.len() ==> final(out)@[i] < final(out)@[j],
        forall|x: i32| #[trigger] final(out)@.contains(x) <==> (old(out)@.contains(x) || x == k),
{
    let mut at: usize = 0;
    while at < out.len() && out[at] < k
        invariant
            at <= out@.len(),
            forall|i: int| 0 <= i < at ==> out@[i] < k,
        decreases out@.len() - at,
    {
        at = at + 1;
    }
    let ghost before = out@;
    proof {
        if at < out@.len() {
            assert(before.contains(out@[at as int]));
        }
    }
    out.insert(at, k);
    proof {
        assert(out@ =~= before.insert(at as int, k));
        assert forall|x: i32| #[trigger] out@.contains(x) <==> (before.contains(x) || x == k) by {
            if before.contains(x) {
                let i = choose|i: int| 0 <= i < before.len() && before[i] == x;
                if i < at {
                    assert(out@[i] == x);
                } else {
                    assert(out@[i + 1] == x);
                }
            }
            if x == k {
                assert(out@[at as int] == k);
            }
            if out@.contains(x) {
                let i = choose|i: int| 0 <= i < out@.len() && out@[i] == x;
                if i < at {
                    assert(before[i] == x);
                } else if i > at {
                    assert(before[i - 1] == x);
                }
            }
        }
    }
}

/// The keys of a map, in ascending order.
pub fn keys_i32<V>(m: &HashMap<i32, V>) -> (r: Vec<i32>)
    ensures
        lists_keys_i32(r@, m@),
        r@ == ascending_i32(m@),
{
    let mut out: Vec<i32> = Vec::new();
    let ghost all = m.keys().remaining();
    for k in it: m.keys()
        invariant
            all == m.keys().remaining(),
            all.no_duplicates(),
            it.seq() == all,
            forall|i: int, j: int| 0 <= i < j < out@.len() ==> out@[i] < out@[j],
            forall|x: i32| #[trigger] out@.contains(x) <==> exists|i: int| 0 <= i < it.index() && *all[i] == x,
    {
        proof {
            if out@.contains(*k) {
                let i = choose|i: int| 0 <= i < it.index() && *all[i] == *k;
                assert(all[i] == all[it.index()]);
            }
        }
        let ghost before = out@;
        insert_i32(&mut out, *k);
        proof {
            assert forall|x: i32| #[trigger] out@.contains(x) <==> exists|i: int| 0 <= i < it.index() + 1 && *all[i] == x by {
                if before.contains(x) {
                    let i = choose|i: int| 0 <= i < it.index() && *all[i] == x;
                    assert(0 <= i < it.index() + 1 && *all[i] == x);
                }
                if x == *k {
                    assert(*all[it.index()] == x);
                }
            }
        }
    }
    proof {
        let set = all.unref().to_set();
        assert forall|k: i32| out@.contains(k) <==> #[trigger] m@.contains_key(k) by {
            if out@.contains(k) {
                let i = choose|i: int| 0 <= i < all.len() && *all[i] == k;
                assert(all.unref()[i] == k);
                assert(set.contains(k));
            }
            if m@.contains_key(k) {
                assert(set.contains(k));
                let i = choose|i: int| 0 <= i < all.unref().len() && all.unref()[i] == k;
                assert(*all[i] == k);
            }
        }
    }
    proof {
        assert(lists_keys_i32(out@, m@));
        one_order_i32(out@, ascending_i32(m@), m@);
    }
    out
}

} // verus!
