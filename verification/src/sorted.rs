//! Sets of keys in ascending order.
use vstd::prelude::*;

verus! {

/// Whether `s` lists the keys of `keys` in ascending order, each once.
pub open spec fn lists(s: Seq<u128>, keys: Set<u128>) -> bool {
    &&& forall|i: int, j: int| 0 <= i < j < s.len() ==> s[i] < s[j]
    &&& forall|k: u128| #[trigger] keys.contains(k) <==> s.contains(k)
}

/// The keys of a set in ascending order.
pub open spec fn ascending(keys: Set<u128>) -> Seq<u128> {
    choose|s: Seq<u128>| lists(s, keys)
}

/// The values of a map in ascending order of their keys.
pub open spec fn in_order<V>(m: Map<u128, V>) -> Seq<V> {
    Seq::new(ascending(m.dom()).len(), |i: int| m[ascending(m.dom())[i]])
}

/// There is one way to list a set in ascending order.
pub proof fn lemma_lists_unique(a: Seq<u128>, b: Seq<u128>, keys: Set<u128>)
    requires
        lists(a, keys),
        lists(b, keys),
    ensures
        a == b,
    decreases a.len(),
{
    if a.len() == 0 {
        if b.len() > 0 {
            assert(b.contains(b[0]));
            assert(keys.contains(b[0]));
        }
        assert(a =~= b);
    } else {
        assert(a.contains(a.last()));
        assert(keys.contains(a.last()));
        let i = choose|i: int| 0 <= i < b.len() && b[i] == a.last();
        assert(b.contains(b.last()));
        assert(keys.contains(b.last()));
        let j = choose|j: int| 0 <= j < a.len() && a[j] == b.last();
        assert(a.last() == b.last());
        let rest = keys.remove(a.last());
        lemma_drop_last(a, keys);
        lemma_drop_last(b, keys);
        lemma_lists_unique(a.drop_last(), b.drop_last(), rest);
        assert(a =~= a.drop_last().push(a.last()));
        assert(b =~= b.drop_last().push(b.last()));
    }
}

proof fn lemma_drop_last(a: Seq<u128>, keys: Set<u128>)
    requires
        lists(a, keys),
        a.len() > 0,
    ensures
        lists(a.drop_last(), keys.remove(a.last())),
{
    let d = a.drop_last();
    assert forall|k: u128| #[trigger] keys.remove(a.last()).contains(k) <==> d.contains(k) by {
        if keys.remove(a.last()).contains(k) {
            assert(keys.contains(k));
            let i = choose|i: int| 0 <= i < a.len() && a[i] == k;
            assert(d[i] == k);
        }
        if d.contains(k) {
            let i = choose|i: int| 0 <= i < d.len() && d[i] == k;
            assert(a[i] == k);
            assert(a.contains(k));
            assert(keys.contains(k));
        }
    }
}

/// A list in ascending order is what [`ascending`] gives.
pub proof fn lemma_ascending(s: Seq<u128>, keys: Set<u128>)
    requires
        lists(s, keys),
    ensures
        ascending(keys) == s,
        s.no_duplicates(),
{
    lemma_lists_unique(s, ascending(keys), keys);
}

/// Every finite set can be listed in ascending order, in as many places as it has keys.
pub proof fn lemma_ascending_exists(keys: Set<u128>)
    requires
        keys.finite(),
    ensures
        lists(ascending(keys), keys),
        ascending(keys).len() == keys.len(),
    decreases keys.len(),
{
    if keys.len() == 0 {
        let s = Seq::<u128>::empty();
        assert(lists(s, keys));
        lemma_ascending(s, keys);
    } else {
        let top = lemma_max(keys);
        let rest = keys.remove(top);
        lemma_ascending_exists(rest);
        let a = ascending(rest);
        let s = a.push(top);
        assert forall|i: int, j: int| 0 <= i < j < s.len() implies s[i] < s[j] by {
            assert(a.contains(a[i]));
            assert(rest.contains(a[i]));
        }
        assert forall|k: u128| #[trigger] keys.contains(k) <==> s.contains(k) by {
            if keys.contains(k) {
                if k == top {
                    assert(s[a.len() as int] == k);
                } else {
                    assert(rest.contains(k));
                    let i = choose|i: int| 0 <= i < a.len() && a[i] == k;
                    assert(s[i] == k);
                }
            }
            if s.contains(k) {
                let i = choose|i: int| 0 <= i < s.len() && s[i] == k;
                if i < a.len() {
                    assert(a.contains(a[i]));
                    assert(rest.contains(k));
                }
            }
        }
        lemma_ascending(s, keys);
    }
}

/// The largest key of a set that is not empty.
proof fn lemma_max(keys: Set<u128>) -> (top: u128)
    requires
        keys.finite(),
        keys.len() > 0,
    ensures
        keys.contains(top),
        forall|k: u128| #[trigger] keys.contains(k) ==> k <= top,
    decreases keys.len(),
{
    let x = keys.choose();
    let rest = keys.remove(x);
    if rest.len() == 0 {
        assert forall|k: u128| #[trigger] keys.contains(k) implies k <= x by {
            if k != x {
                assert(rest.contains(k));
                assert(rest =~= Set::empty());
            }
        }
        x
    } else {
        let y = lemma_max(rest);
        let top = if x < y {
            y
        } else {
            x
        };
        assert forall|k: u128| #[trigger] keys.contains(k) implies k <= top by {
            if k != x {
                assert(rest.contains(k));
            }
        }
        top
    }
}

} // verus!
