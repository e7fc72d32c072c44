use vstd::prelude::*;

verus! {

/// The sort key of an IEEE-754 single-precision value given by its bit
/// pattern: `None` for a NaN, otherwise the signed magnitude bits, so that
/// keys compare as the values do (the two zeros share the key 0, and the
/// infinities come last and first).
pub open spec fn depth_key_spec(bits: u32) -> Option<i64> {
    let mag = bits % 0x8000_0000;
    if mag > 0x7f80_0000 {
        None
    } else if bits >= 0x8000_0000 {
        Some((-mag) as i64)
    } else {
        Some(mag as i64)
    }
}

pub fn depth_key(bits: u32) -> (r: Option<i64>)
    ensures
        r == depth_key_spec(bits),
{
    let mag = bits % 0x8000_0000;
    if mag > 0x7f80_0000 {
        None
    } else if bits >= 0x8000_0000 {
        Some(-(mag as i64))
    } else {
        Some(mag as i64)
    }
}

/// Both keys are present and the first is the larger.
fn greater_key(a: Option<i64>, b: Option<i64>) -> (r: bool)
    ensures
        r == (a is Some && b is Some && a->0 > b->0),
{
    match (a, b) {
        (Some(x), Some(y)) => x > y,
        _ => false,
    }
}

pub open spec fn all_keyed(keys: Seq<Option<i64>>) -> bool {
    forall|k: int| 0 <= k < keys.len() ==> (#[trigger] keys[k]) is Some
}

/// In ascending order of key, ties broken by position.
pub open spec fn rises(keys: Seq<Option<i64>>, i: usize, j: usize) -> bool {
    let (ki, kj) = (keys[i as int]->0, keys[j as int]->0);
    ki < kj || (ki == kj && i < j)
}

/// Triangle `i` is painted before triangle `j`: it lies deeper, or as deep
/// and later in the input.
pub open spec fn drawn_before(keys: Seq<Option<i64>>, i: usize, j: usize) -> bool {
    rises(keys, j, i)
}

/// `order` lists each of `0 .. n` exactly once.
pub open spec fn is_permutation(order: Seq<usize>, n: int) -> bool {
    &&& order.len() == n
    &&& forall|k: int| 0 <= k < n ==> #[trigger] order[k] < n
    &&& forall|p: int, q: int| 0 <= p < q < n ==> order[p] != order[q]
}

/// The painter's order of triangles with depth keys `keys`: a stable sort by
/// ascending key that treats a missing key as equal to any other, then
/// reversed, so the deepest triangle comes first. Where every triangle has a
/// key the order is the one in which each triangle is drawn before all that
/// follow it.
pub fn painter_order(keys: &Vec<Option<i64>>) -> (r: Vec<usize>)
    ensures
        is_permutation(r@, keys@.len() as int),
        all_keyed(keys@) ==> forall|p: int, q: int|
            0 <= p < q < r@.len() ==> drawn_before(keys@, #[trigger] r@[p], #[trigger] r@[q]),
{
    let n = keys.len();
    let ghost ks = keys@;
    let mut order: Vec<usize> = Vec::new();
    let mut i: usize = 0;
    while i < n
        invariant
            i <= n == keys@.len(),
            order@.len() == i,
            forall|k: int| 0 <= k < i ==> order@[k] == k,
        decreases n - i,
    {
        order.push(i);
        i = i + 1;
    }
    let mut j: usize = 0;
    while j < n
        invariant
            j <= n == keys@.len(),
            ks == keys@,
            order@.len() == n,
            forall|k: int| j <= k < n ==> order@[k] == k,
            forall|k: int| 0 <= k < j ==> #[trigger] order@[k] < j,
            forall|p: int, q: int| 0 <= p < q < n ==> order@[p] != order@[q],
            all_keyed(ks) ==> forall|p: int, q: int|
                0 <= p < q < j ==> rises(ks, #[trigger] order@[p], #[trigger] order@[q]),
        decreases n - j,
    {
        let mut m: usize = j;
        while m > 0 && greater_key(keys[order[m - 1]], keys[order[m]])
            invariant
                m <= j < n == keys@.len(),
                ks == keys@,
                order@.len() == n,
                order@[m as int] == j,
                forall|k: int| j < k < n ==> order@[k] == k,
                forall|k: int| 0 <= k <= j ==> #[trigger] order@[k] <= j,
                forall|p: int, q: int| 0 <= p < q < n ==> order@[p] != order@[q],
                all_keyed(ks) ==> forall|p: int, q: int|
                    0 <= p < q < m ==> rises(ks, #[trigger] order@[p], #[trigger] order@[q]),
                all_keyed(ks) ==> forall|p: int, q: int|
                    0 <= p < q <= j && q != m && p != m ==> rises(
                        ks,
                        #[trigger] order@[p],
                        #[trigger] order@[q],
                    ),
                all_keyed(ks) ==> forall|q: int|
                    m < q <= j ==> rises(ks, j, #[trigger] order@[q]),
            decreases m,
        {
            let a = order[m - 1];
            let b = order[m];
            order.set(m - 1, b);
            order.set(m, a);
            m = m - 1;
        }
        proof {
            if all_keyed(ks) && m > 0 {
                let y = order@[m - 1];
                assert(y != j);
                assert(y < j);
                assert(ks[y as int] is Some && ks[j as int] is Some);
                assert(rises(ks, y, j));
            }
        }
        j = j + 1;
    }
    let mut r: Vec<usize> = Vec::new();
    let mut k: usize = 0;
    while k < n
        invariant
            k <= n == keys@.len(),
            ks == keys@,
            order@.len() == n,
            r@.len() == k,
            forall|t: int| 0 <= t < k ==> r@[t] == order@[n - 1 - t],
        decreases n - k,
    {
        r.push(order[n - 1 - k]);
        k = k + 1;
    }
    proof {
        assert forall|p: int, q: int| 0 <= p < q < n implies r@[p] != r@[q] by {
            assert(r@[p] == order@[n - 1 - p]);
            assert(r@[q] == order@[n - 1 - q]);
        }
        assert forall|t: int| 0 <= t < n implies #[trigger] r@[t] < n by {
            assert(r@[t] == order@[n - 1 - t]);
        }
        if all_keyed(ks) {
            assert forall|p: int, q: int| 0 <= p < q < r@.len() implies drawn_before(
                ks,
                #[trigger] r@[p],
                #[trigger] r@[q],
            ) by {
                assert(r@[p] == order@[n - 1 - p]);
                assert(r@[q] == order@[n - 1 - q]);
            }
        }
    }
    r
}

/// The triangles to paint in a frame, in painting order: the indices of the
/// visible triangles, each once, ordered as `painter_order` orders their keys.
/// The keys of triangles that are not visible are not looked at.
pub fn draw_order(visible: &Vec<bool>, keys: &Vec<Option<i64>>) -> (r: Vec<usize>)
    requires
        visible@.len() == keys@.len(),
    ensures
        forall|p: int, q: int| 0 <= p < q < r@.len() ==> r@[p] != r@[q],
        forall|i: int|
            0 <= i < visible@.len() ==> (visible@[i] <==> exists|k: int|
                0 <= k < r@.len() && #[trigger] r@[k] == i),
        forall|k: int| 0 <= k < r@.len() ==> #[trigger] r@[k] < visible@.len(),
        (forall|i: int| 0 <= i < visible@.len() && #[trigger] visible@[i] ==> keys@[i] is Some)
            ==> forall|p: int, q: int|
            0 <= p < q < r@.len() ==> drawn_before(keys@, #[trigger] r@[p], #[trigger] r@[q]),
{
    let n = visible.len();
    let mut vis: Vec<usize> = Vec::new();
    let mut vkeys: Vec<Option<i64>> = Vec::new();
    let mut i: usize = 0;
    while i < n
        invariant
            i <= n == visible@.len() == keys@.len(),
            vis@.len() == vkeys@.len(),
            forall|a: int, b: int| 0 <= a < b < vis@.len() ==> vis@[a] < vis@[b],
            forall|a: int| 0 <= a < vis@.len() ==> #[trigger] vis@[a] < i,
            forall|a: int| 0 <= a < vis@.len() ==> visible@[#[trigger] vis@[a] as int],
            forall|a: int| 0 <= a < vis@.len() ==> vkeys@[a] == keys@[#[trigger] vis@[a] as int],
            forall|t: int| 0 <= t < i && #[trigger] visible@[t] ==> exists|a: int|
                0 <= a < vis@.len() && vis@[a] == t,
        decreases n - i,
    {
        let ghost before = vis@;
        if visible[i] {
            vis.push(i);
            vkeys.push(keys[i]);
            assert(vis@[vis@.len() - 1] == i);
        }
        assert forall|t: int| 0 <= t < i + 1 && #[trigger] visible@[t] implies exists|a: int|
            0 <= a < vis@.len() && vis@[a] == t by {
            if t == i {
                assert(vis@[vis@.len() - 1] == i);
            } else {
                let a = choose|a: int| 0 <= a < before.len() && before[a] == t;
                assert(vis@[a] == t);
            }
        }
        i = i + 1;
    }
    let order = painter_order(&vkeys);
    let mut r: Vec<usize> = Vec::new();
    let mut k: usize = 0;
    while k < order.len()
        invariant
            k <= order@.len() == vis@.len(),
            is_permutation(order@, vis@.len() as int),
            r@.len() == k,
            forall|t: int| 0 <= t < k ==> r@[t] == vis@[#[trigger] order@[t] as int],
        decreases order@.len() - k,
    {
        r.push(vis[order[k]]);
        k = k + 1;
    }
    proof {
        let m = vis@.len() as int;
        assert forall|p: int, q: int| 0 <= p < q < r@.len() implies r@[p] != r@[q] by {
            assert(r@[p] == vis@[order@[p] as int]);
            assert(r@[q] == vis@[order@[q] as int]);
            assert(order@[p] != order@[q]);
            assert(order@[p] < m && order@[q] < m);
        }
        assert forall|t: int| 0 <= t < r@.len() implies #[trigger] r@[t] < visible@.len() by {
            assert(r@[t] == vis@[order@[t] as int]);
            assert(order@[t] < m);
        }
        assert forall|t: int| 0 <= t < visible@.len() implies (visible@[t] <==> exists|k: int|
            0 <= k < r@.len() && #[trigger] r@[k] == t) by {
            if visible@[t] {
                let a = choose|a: int| 0 <= a < vis@.len() && vis@[a] == t;
                // `order` is onto `0 .. m`: some position holds `a`.
                assert(exists|c: int| 0 <= c < m && order@[c] == a) by {
                    lemma_permutation_onto(order@, m, a);
                }
                let c = choose|c: int| 0 <= c < m && order@[c] == a;
                assert(r@[c] == vis@[order@[c] as int]);
            }
            if exists|k: int| 0 <= k < r@.len() && #[trigger] r@[k] == t {
                let k = choose|k: int| 0 <= k < r@.len() && #[trigger] r@[k] == t;
                assert(r@[k] == vis@[order@[k] as int]);
                assert(order@[k] < m);
            }
        }
        if forall|i: int| 0 <= i < visible@.len() && #[trigger] visible@[i] ==> keys@[i] is Some {
            assert(all_keyed(vkeys@)) by {
                assert forall|a: int| 0 <= a < vkeys@.len() implies (#[trigger] vkeys@[a]) is Some by {
                    assert(visible@[vis@[a] as int]);
                }
            }
            assert forall|p: int, q: int| 0 <= p < q < r@.len() implies drawn_before(
                keys@,
                #[trigger] r@[p],
                #[trigger] r@[q],
            ) by {
                let (op, oq) = (order@[p], order@[q]);
                assert(r@[p] == vis@[op as int]);
                assert(r@[q] == vis@[oq as int]);
                assert(drawn_before(vkeys@, op, oq));
                assert(op < m && oq < m && op != oq);
                assert(vkeys@[op as int] == keys@[vis@[op as int] as int]);
                assert(vkeys@[oq as int] == keys@[vis@[oq as int] as int]);
                if op < oq {
                    assert(vis@[op as int] < vis@[oq as int]);
                } else {
                    assert(vis@[oq as int] < vis@[op as int]);
                }
            }
        }
    }
    r
}

/// A list of `n` distinct values below `n` holds each of them.
proof fn lemma_permutation_onto(order: Seq<usize>, n: int, a: int)
    requires
        is_permutation(order, n),
        0 <= a < n,
    ensures
        exists|c: int| 0 <= c < n && order[c] == a,
{
    if !(exists|c: int| 0 <= c < n && order[c] == a) {
        let positions = vstd::set_lib::set_int_range(0, n);
        let range = vstd::set_lib::set_int_range(0, n).remove(a);
        let f = |c: int| order[c] as int;
        vstd::set_lib::lemma_int_range(0, n);
        assert(vstd::relations::injective_on(f, positions)) by {
            assert forall|x: int, y: int|
                positions.contains(x) && positions.contains(y) && #[trigger] f(x) == #[trigger] f(
                    y,
                ) implies x == y by {
                if x < y {
                    assert(order[x] != order[y]);
                } else if y < x {
                    assert(order[y] != order[x]);
                }
            }
        }
        let image = positions.map(f);
        assert(image.subset_of(range)) by {
            assert forall|v: int| image.contains(v) implies range.contains(v) by {
                let c = choose|c: int| positions.contains(c) && f(c) == v;
                assert(order[c] < n);
            }
        }
        vstd::set_lib::lemma_map_size(positions, image, f);
        vstd::set_lib::lemma_len_subset(image, range);
    }
}

} // verus!
