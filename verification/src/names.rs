//! Byte-wise order of file names, and sorting by it.
use vstd::prelude::*;

verus! {

/// `a` is not after `b`, comparing from byte `i` on.
pub open spec fn name_le_from(a: Seq<u8>, b: Seq<u8>, i: nat) -> bool
    decreases a.len() - i,
{
    if i >= a.len() {
        true
    } else if i >= b.len() {
        false
    } else if a[i as int] != b[i as int] {
        a[i as int] < b[i as int]
    } else {
        name_le_from(a, b, i + 1)
    }
}

/// `a` is not after `b` in byte-wise lexicographic order.
pub open spec fn name_le(a: Seq<u8>, b: Seq<u8>) -> bool {
    name_le_from(a, b, 0)
}

proof fn lemma_total_from(a: Seq<u8>, b: Seq<u8>, i: nat)
    ensures
        name_le_from(a, b, i) || name_le_from(b, a, i),
    decreases a.len() - i,
{
    if i < a.len() && i < b.len() && a[i as int] == b[i as int] {
        lemma_total_from(a, b, i + 1);
    }
}

proof fn lemma_transitive_from(a: Seq<u8>, b: Seq<u8>, c: Seq<u8>, i: nat)
    requires
        name_le_from(a, b, i),
        name_le_from(b, c, i),
    ensures
        name_le_from(a, c, i),
    decreases a.len() - i,
{
    if i < a.len() && i < b.len() && i < c.len() && a[i as int] == b[i as int] && b[i as int]
        == c[i as int] {
        lemma_transitive_from(a, b, c, i + 1);
    }
}

proof fn lemma_antisymmetric_from(a: Seq<u8>, b: Seq<u8>, i: nat)
    requires
        name_le_from(a, b, i),
        name_le_from(b, a, i),
        i <= a.len(),
        i <= b.len(),
    ensures
        a.len() == b.len(),
        forall|j: int| i <= j < a.len() ==> a[j] == b[j],
    decreases a.len() - i,
{
    if i < a.len() && i < b.len() {
        lemma_antisymmetric_from(a, b, i + 1);
    }
}

/// Names are totally ordered.
pub proof fn law_name_order(a: Seq<u8>, b: Seq<u8>, c: Seq<u8>)
    ensures
        name_le(a, b) || name_le(b, a),
        name_le(a, b) && name_le(b, c) ==> name_le(a, c),
        name_le(a, b) && name_le(b, a) ==> a == b,
{
    lemma_total_from(a, b, 0);
    if name_le(a, b) && name_le(b, c) {
        lemma_transitive_from(a, b, c, 0);
    }
    if name_le(a, b) && name_le(b, a) {
        lemma_antisymmetric_from(a, b, 0);
        assert(a =~= b);
    }
}

/// Put index `i` behind the last index of `order` whose name is not after the
/// name of `i`.
pub open spec fn insert_by_name(order: Seq<usize>, names: Seq<Seq<u8>>, i: usize) -> Seq<usize>
    decreases order.len(),
{
    if order.len() == 0 || name_le(names[order.last() as int], names[i as int]) {
        order.push(i)
    } else {
        insert_by_name(order.drop_last(), names, i).push(order.last())
    }
}

/// The indexes of the first `n` names, sorted by name; equal names keep their
/// order.
pub open spec fn sorted_first(names: Seq<Seq<u8>>, n: nat) -> Seq<usize>
    decreases n,
{
    if n == 0 {
        Seq::empty()
    } else {
        insert_by_name(sorted_first(names, (n - 1) as nat), names, (n - 1) as usize)
    }
}

/// The indexes of `names`, sorted by name; equal names keep their order.
pub open spec fn sorted_order(names: Seq<Seq<u8>>) -> Seq<usize> {
    sorted_first(names, names.len())
}

/// `order` lists indexes in the order of their names, equal names in the order
/// of their indexes.
pub open spec fn is_sorted(order: Seq<usize>, names: Seq<Seq<u8>>) -> bool {
    forall|j: int, k: int|
        #![trigger order[j], order[k]]
        0 <= j < k < order.len() ==> name_le(names[order[j] as int], names[order[k] as int]) && (
        names[order[j] as int] == names[order[k] as int] ==> order[j] < order[k])
}

/// `order` holds each index below `n` once.
pub open spec fn is_permutation(order: Seq<usize>, n: nat) -> bool {
    &&& order.len() == n
    &&& order.no_duplicates()
    &&& forall|i: int| 0 <= i < n ==> 0 <= #[trigger] order[i] < n
}

/// Inserting at the first place whose name is after that of `i`.
proof fn lemma_insert_position(order: Seq<usize>, names: Seq<Seq<u8>>, i: usize, k: int)
    requires
        0 <= k <= order.len(),
        forall|j: int| 0 <= j < k ==> name_le(names[#[trigger] order[j] as int], names[i as int]),
        forall|j: int|
            k <= j < order.len() ==> !name_le(names[#[trigger] order[j] as int], names[i as int]),
    ensures
        insert_by_name(order, names, i) == order.insert(k, i),
    decreases order.len(),
{
    if k < order.len() {
        assert(order.last() == order[order.len() - 1]);
        let rest = order.drop_last();
        assert forall|j: int| 0 <= j < rest.len() implies rest[j] == order[j] by {}
        lemma_insert_position(rest, names, i, k);
        assert(order.insert(k, i) =~= rest.insert(k, i).push(order.last()));
    } else {
        assert(order.insert(k, i) =~= order.push(i));
    }
}

/// There is such a place in a sorted list.
proof fn lemma_insert_sorted(order: Seq<usize>, names: Seq<Seq<u8>>, i: usize) -> (k: int)
    requires
        is_sorted(order, names),
        is_permutation(order, i as nat),
    ensures
        0 <= k <= order.len(),
        insert_by_name(order, names, i) == order.insert(k, i),
        is_sorted(order.insert(k, i), names),
        is_permutation(order.insert(k, i), (i + 1) as nat),
{
    let k = lemma_first_after(order, names, i, order.len());
    lemma_insert_position(order, names, i, k);
    let out = order.insert(k, i);
    assert forall|a: int, b: int|
        #![trigger out[a], out[b]]
        0 <= a < b < out.len() implies name_le(names[out[a] as int], names[out[b] as int]) && (
    names[out[a] as int] == names[out[b] as int] ==> out[a] < out[b]) by {
        let oa = if a < k {
            a
        } else {
            a - 1
        };
        let ob = if b < k {
            b
        } else {
            b - 1
        };
        if a == k {
            assert(out[b] == order[ob]);
            law_name_order(names[order[ob] as int], names[i as int], names[i as int]);
            law_name_order(names[i as int], names[order[ob] as int], names[i as int]);
        } else if b == k {
            assert(out[a] == order[oa]);
        } else {
            assert(out[a] == order[oa] && out[b] == order[ob]);
        }
    }
    assert forall|a: int, b: int|
        0 <= a < out.len() && 0 <= b < out.len() && a != b implies out[a] != out[b] by {
        let oa = if a < k {
            a
        } else {
            a - 1
        };
        let ob = if b < k {
            b
        } else {
            b - 1
        };
        if a != k {
            assert(out[a] == order[oa]);
        }
        if b != k {
            assert(out[b] == order[ob]);
        }
    }
    k
}

/// The number of indexes, among the first `n` of a sorted list, whose names are
/// not after that of `i`; they come first.
proof fn lemma_first_after(order: Seq<usize>, names: Seq<Seq<u8>>, i: usize, n: nat) -> (k: int)
    requires
        is_sorted(order, names),
        n <= order.len(),
    ensures
        0 <= k <= n,
        forall|j: int| 0 <= j < k ==> name_le(names[#[trigger] order[j] as int], names[i as int]),
        forall|j: int|
            k <= j < n ==> !name_le(names[#[trigger] order[j] as int], names[i as int]),
    decreases n,
{
    if n == 0 {
        0
    } else if name_le(names[order[n - 1] as int], names[i as int]) {
        assert forall|j: int| 0 <= j < n implies name_le(
            names[#[trigger] order[j] as int],
            names[i as int],
        ) by {
            if j < n - 1 {
                assert(name_le(names[order[j] as int], names[order[n - 1] as int]));
                law_name_order(
                    names[order[j] as int],
                    names[order[n - 1] as int],
                    names[i as int],
                );
            }
        }
        n as int
    } else {
        lemma_first_after(order, names, i, (n - 1) as nat)
    }
}

proof fn lemma_sorted_first(names: Seq<Seq<u8>>, n: nat)
    requires
        n <= names.len() <= usize::MAX,
    ensures
        is_permutation(sorted_first(names, n), n),
        is_sorted(sorted_first(names, n), names),
    decreases n,
{
    if n > 0 {
        lemma_sorted_first(names, (n - 1) as nat);
        let k = lemma_insert_sorted(
            sorted_first(names, (n - 1) as nat),
            names,
            (n - 1) as usize,
        );
    }
}

/// `sorted_order` lists every index once, by name, and equal names in the order
/// in which they were given.
pub proof fn law_sorted_order(names: Seq<Seq<u8>>)
    requires
        names.len() <= usize::MAX,
    ensures
        is_permutation(sorted_order(names), names.len()),
        is_sorted(sorted_order(names), names),
{
    lemma_sorted_first(names, names.len());
}

/// Compare two names.
pub fn name_not_after(a: &Vec<u8>, b: &Vec<u8>) -> (r: bool)
    ensures
        r == name_le(a@, b@),
{
    let mut i: usize = 0;
    while i < a.len()
        invariant
            i <= a@.len(),
            name_le(a@, b@) == name_le_from(a@, b@, i as nat),
        decreases a@.len() - i,
    {
        if i >= b.len() {
            return false;
        }
        if a[i] != b[i] {
            return a[i] < b[i];
        }
        i += 1;
    }
    true
}

/// Sort the indexes of `names` by name, with a binary search for the place of
/// each.
pub fn sort_by_name(names: &Vec<&Vec<u8>>) -> (r: Vec<usize>)
    ensures
        r@ == sorted_order(Seq::new(names@.len(), |i: int| names@[i]@)),
{
    let ghost views = Seq::new(names@.len(), |i: int| names@[i]@);
    let mut order: Vec<usize> = Vec::new();
    assert(names.len() <= usize::MAX);
    let mut i: usize = 0;
    while i < names.len()
        invariant
            i <= names@.len() <= usize::MAX,
            views.len() == names@.len(),
            forall|j: int| 0 <= j < views.len() ==> #[trigger] views[j] == names@[j]@,
            order@ == sorted_first(views, i as nat),
        decreases names@.len() - i,
    {
        proof {
            lemma_sorted_first(views, i as nat);
        }
        let mut lo: usize = 0;
        let mut hi: usize = order.len();
        while lo < hi
            invariant
                lo <= hi <= order@.len(),
                i < names@.len(),
                views.len() == names@.len(),
                forall|j: int| 0 <= j < views.len() ==> #[trigger] views[j] == names@[j]@,
                is_sorted(order@, views),
                is_permutation(order@, i as nat),
                forall|j: int|
                    0 <= j < lo ==> name_le(views[#[trigger] order@[j] as int], views[i as int]),
                forall|j: int|
                    hi <= j < order@.len() ==> !name_le(
                        views[#[trigger] order@[j] as int],
                        views[i as int],
                    ),
            decreases hi - lo,
        {
            let mid: usize = lo + (hi - lo) / 2;
            let at: usize = order[mid];
            assert(views[at as int] == names@[at as int]@);
            if name_not_after(names[at], names[i]) {
                assert forall|j: int| 0 <= j < mid + 1 implies name_le(
                    views[#[trigger] order@[j] as int],
                    views[i as int],
                ) by {
                    if j < mid {
                        law_name_order(
                            views[order@[j] as int],
                            views[order@[mid as int] as int],
                            views[i as int],
                        );
                    }
                }
                lo = mid + 1;
            } else {
                assert forall|j: int| mid <= j < order@.len() implies !name_le(
                    views[#[trigger] order@[j] as int],
                    views[i as int],
                ) by {
                    if mid < j {
                        law_name_order(
                            views[order@[mid as int] as int],
                            views[order@[j] as int],
                            views[i as int],
                        );
                    }
                }
                hi = mid;
            }
        }
        proof {
            lemma_insert_position(order@, views, i, lo as int);
        }
        order.insert(lo, i);
        i += 1;
    }
    order
}

} // verus!
