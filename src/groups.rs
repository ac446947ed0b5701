//! Grouping of the fields of a message by the `oneof` they belong to, held in
//! a `multimap::MultiMap` from oneof index to field positions.

use vstd::prelude::*;
use multimap::MultiMap;

verus! {

#[verifier::external_type_specification]
#[verifier::external_body]
#[verifier::reject_recursive_types(K)]
#[verifier::reject_recursive_types(V)]
#[verifier::reject_recursive_types(S)]
pub struct ExMultiMap<K, V, S>(MultiMap<K, V, S>);

/// What a multimap from oneof index to field positions holds: for each key,
/// its values in the order they were inserted.
pub uninterp spec fn groups_of(m: MultiMap<i32, usize>) -> Map<i32, Seq<usize>>;

/// Relies on `MultiMap::new`: an empty multimap.
#[verifier::external_body]
fn multimap_new() -> (r: MultiMap<i32, usize>)
    ensures
        groups_of(r).dom().len() == 0 && groups_of(r).dom().finite(),
{
    MultiMap::new()
}

/// Relies on `MultiMap::insert`: `v` is appended to the values of `k`, which
/// gets a vector of its own if it had none.
#[verifier::external_body]
fn multimap_insert(m: &mut MultiMap<i32, usize>, k: i32, v: usize)
    ensures
        groups_of(*final(m)) == groups_of(*old(m)).insert(
            k,
            if groups_of(*old(m)).contains_key(k) {
                groups_of(*old(m))[k].push(v)
            } else {
                seq![v]
            },
        ),
{
    m.insert(k, v)
}

/// Relies on `MultiMap::len`: the number of distinct keys.
#[verifier::external_body]
fn multimap_len(m: &MultiMap<i32, usize>) -> (r: usize)
    ensures
        r as nat == groups_of(*m).dom().len(),
{
    m.len()
}

/// Relies on `MultiMap::get_vec`: the values of `k`, if it has any.
#[verifier::external_body]
fn multimap_get_vec(m: &MultiMap<i32, usize>, k: i32) -> (r: Option<Vec<usize>>)
    ensures
        match r {
            Some(v) => groups_of(*m).contains_key(k) && v@ == groups_of(*m)[k],
            None => !groups_of(*m).contains_key(k),
        },
{
    m.get_vec(&k).cloned()
}

/// The positions of the fields whose oneof index is `k`, in order.
pub open spec fn members(idx: Seq<Option<i32>>, k: i32) -> Seq<usize>
    decreases idx.len(),
{
    if idx.len() == 0 {
        Seq::empty()
    } else if idx.last() == Some(k) {
        members(idx.drop_last(), k).push((idx.len() - 1) as usize)
    } else {
        members(idx.drop_last(), k)
    }
}

/// The oneof indices that some field carries.
pub open spec fn used_indices(idx: Seq<Option<i32>>) -> Set<i32> {
    Set::new(|k: i32| exists|i: int| 0 <= i < idx.len() && idx[i] == Some(k))
}

/// Whether the fields name exactly the oneofs `0..n`: each of them at least
/// once and no other.
pub open spec fn groups_match(idx: Seq<Option<i32>>, n: nat) -> bool {
    forall|k: i32| used_indices(idx).contains(k) <==> 0 <= k < n
}

/// Groups field positions by oneof index. Given the oneof index of each field
/// (`None` for a field outside every oneof) and the number of declared
/// oneofs, returns for each oneof the positions of its fields in order, or
/// `None` when the fields do not name exactly the declared oneofs.
pub fn group_oneof_fields(idx: &Vec<Option<i32>>, n: usize) -> (r: Option<Vec<Vec<usize>>>)
    requires
        n <= i32::MAX,
    ensures
        r is Some <==> groups_match(idx@, n as nat),
        r matches Some(g) ==> g@.len() == n && forall|k: int| 0 <= k < n ==> #[trigger] g@[k]@ == members(idx@, k as i32),
{
    let mut m = multimap_new();
    let mut i: usize = 0;
    while i < idx.len()
        invariant
            0 <= i <= idx@.len(),
            groups_of(m).dom() == used_indices(idx@.take(i as int)),
            groups_of(m).dom().finite(),
            forall|k: i32| #[trigger] groups_of(m).contains_key(k) ==> groups_of(m)[k] == members(idx@.take(i as int), k),
        decreases idx@.len() - i,
    {
        let ghost t = idx@.take(i as int);
        let ghost t1 = idx@.take(i + 1);
        proof {
            assert(t1.drop_last() =~= t);
        }
        match idx[i] {
            Some(k) => {
                multimap_insert(&mut m, k, i);
                proof {
                    assert forall|x: i32| groups_of(m).dom().contains(x) <==> used_indices(t1).contains(x) by {
                        if used_indices(t1).contains(x) {
                            let j = choose|j: int| 0 <= j < t1.len() && t1[j] == Some(x);
                            if j < i {
                                assert(t[j] == Some(x));
                                assert(used_indices(t).contains(x));
                            }
                        }
                        if used_indices(t).contains(x) {
                            let j = choose|j: int| 0 <= j < t.len() && t[j] == Some(x);
                            assert(t1[j] == Some(x));
                        }
                        assert(t1[i as int] == Some(k));
                    }
                    assert(groups_of(m).dom() =~= used_indices(t1));
                    assert forall|x: i32| #[trigger] groups_of(m).contains_key(x) implies groups_of(m)[x] == members(t1, x) by {
                        if x != k {
                        } else if !used_indices(t).contains(k) {
                            assert(members(t, k) =~= Seq::<usize>::empty()) by {
                                lemma_members_absent(t, k);
                            }
                        }
                    }
                }
            },
            None => {
                proof {
                    assert forall|x: i32| used_indices(t1).contains(x) <==> used_indices(t).contains(x) by {
                        if used_indices(t1).contains(x) {
                            let j = choose|j: int| 0 <= j < t1.len() && t1[j] == Some(x);
                            assert(t[j] == Some(x));
                        }
                        if used_indices(t).contains(x) {
                            let j = choose|j: int| 0 <= j < t.len() && t[j] == Some(x);
                            assert(t1[j] == Some(x));
                        }
                    }
                    assert(used_indices(t1) =~= used_indices(t));
                }
            },
        }
        i = i + 1;
    }
    assert(idx@.take(i as int) =~= idx@);
    let count = multimap_len(&m);
    if count != n {
        proof {
            if groups_match(idx@, n as nat) {
                lemma_range_len(idx@, n as nat);
            }
        }
        return None;
    }
    let mut g: Vec<Vec<usize>> = Vec::new();
    let mut k: usize = 0;
    while k < n
        invariant
            0 <= k <= n,
            n <= i32::MAX,
            groups_of(m).dom() == used_indices(idx@),
            groups_of(m).dom().len() == n,
            groups_of(m).dom().finite(),
            forall|x: i32| #[trigger] groups_of(m).contains_key(x) ==> groups_of(m)[x] == members(idx@, x),
            forall|x: i32| 0 <= x < k ==> used_indices(idx@).contains(x),
            g@.len() == k,
            forall|j: int| 0 <= j < k ==> #[trigger] g@[j]@ == members(idx@, j as i32),
        decreases n - k,
    {
        match multimap_get_vec(&m, k as i32) {
            Some(v) => {
                g.push(v);
            },
            None => {
                proof {
                    lemma_missing_key(idx@, n as nat, k as i32);
                }
                return None;
            },
        }
        k = k + 1;
    }
    proof {
        lemma_range_fills(idx@, n as nat);
    }
    Some(g)
}

proof fn lemma_members_absent(t: Seq<Option<i32>>, k: i32)
    requires
        !used_indices(t).contains(k),
    ensures
        members(t, k) == Seq::<usize>::empty(),
    decreases t.len(),
{
    if t.len() > 0 {
        assert(t.last() != Some(k)) by {
            assert(t[t.len() - 1] == t.last());
        }
        assert forall|j: int| 0 <= j < t.drop_last().len() implies t.drop_last()[j] != Some(k) by {
            assert(t[j] == t.drop_last()[j]);
        }
        lemma_members_absent(t.drop_last(), k);
    }
}

/// The integers `0..n` as a set of `i32`.
spec fn below(n: nat) -> Set<i32> {
    Set::new(|k: i32| 0 <= k < n)
}

proof fn lemma_below_len(n: nat)
    requires
        n <= i32::MAX,
    ensures
        below(n).finite(),
        below(n).len() == n,
    decreases n,
{
    if n == 0 {
        assert(below(0) =~= Set::<i32>::empty());
    } else {
        lemma_below_len((n - 1) as nat);
        assert(below(n) =~= below((n - 1) as nat).insert((n - 1) as i32));
    }
}

proof fn lemma_range_len(idx: Seq<Option<i32>>, n: nat)
    requires
        groups_match(idx, n),
        n <= i32::MAX,
    ensures
        used_indices(idx).len() == n,
{
    lemma_below_len(n);
    assert(used_indices(idx) =~= below(n));
}

proof fn lemma_missing_key(idx: Seq<Option<i32>>, n: nat, k: i32)
    requires
        n <= i32::MAX,
        0 <= k < n,
        !used_indices(idx).contains(k),
    ensures
        !groups_match(idx, n),
{
}

proof fn lemma_range_fills(idx: Seq<Option<i32>>, n: nat)
    requires
        n <= i32::MAX,
        forall|x: i32| 0 <= x < n ==> used_indices(idx).contains(x),
        used_indices(idx).finite(),
        used_indices(idx).len() == n,
    ensures
        groups_match(idx, n),
{
    lemma_below_len(n);
    assert(below(n).subset_of(used_indices(idx)));
    if !(below(n) =~= used_indices(idx)) {
        let x = choose|x: i32| used_indices(idx).contains(x) && !below(n).contains(x);
        vstd::set_lib::lemma_len_subset(below(n).insert(x), used_indices(idx));
    }
    assert(below(n) =~= used_indices(idx));
}

} // verus!
