//! Dependency ordering of sub-tasks (Kahn's algorithm).
use vstd::prelude::*;

verus! {

/// Every edge of `deps` joins two of the nodes `0..n`.
pub open spec fn edges_in_range(n: nat, deps: Seq<(usize, usize)>) -> bool {
    forall|k: int| 0 <= k < deps.len() ==> (deps[k].0 as nat) < n && (deps[k].1 as nat) < n
}

/// `o` lists each node `0..n` once, and for every edge `(a, b)` of `deps`
/// node `a` comes before node `b`.
pub open spec fn is_topo_order(n: nat, deps: Seq<(usize, usize)>, o: Seq<usize>) -> bool {
    &&& o.len() == n
    &&& o.no_duplicates()
    &&& forall|i: int| 0 <= i < o.len() ==> (o[i] as nat) < n
    &&& forall|k: int, i: int, j: int|
        #![trigger o[i], o[j], deps[k]]
        0 <= k < deps.len() && 0 <= i < o.len() && 0 <= j < o.len() && o[i] == deps[k].1 && o[j]
            == deps[k].0 ==> j < i
}

/// Some order of `0..n` respects every edge.
pub open spec fn has_topo_order(n: nat, deps: Seq<(usize, usize)>) -> bool {
    exists|o: Seq<usize>| is_topo_order(n, deps, o)
}

/// Number of edges into `v` whose source is not yet in `done`.
pub open spec fn cnt_in(deps: Seq<(usize, usize)>, v: usize, done: Seq<usize>) -> nat
    decreases deps.len(),
{
    if deps.len() == 0 {
        0
    } else {
        cnt_in(deps.drop_last(), v, done) + if deps.last().1 == v && !done.contains(
            deps.last().0,
        ) {
            1nat
        } else {
            0nat
        }
    }
}

/// Number of copies of the edge `(u, v)` in `deps`.
pub open spec fn occ(deps: Seq<(usize, usize)>, u: usize, v: usize) -> nat
    decreases deps.len(),
{
    if deps.len() == 0 {
        0
    } else {
        occ(deps.drop_last(), u, v) + if deps.last() == (u, v) {
            1nat
        } else {
            0nat
        }
    }
}

proof fn lemma_cnt_le_len(deps: Seq<(usize, usize)>, v: usize, done: Seq<usize>)
    ensures
        cnt_in(deps, v, done) <= deps.len(),
    decreases deps.len(),
{
    if deps.len() > 0 {
        lemma_cnt_le_len(deps.drop_last(), v, done);
    }
}

proof fn lemma_cnt_split(deps: Seq<(usize, usize)>, v: usize, done: Seq<usize>, u: usize)
    requires
        !done.contains(u),
    ensures
        cnt_in(deps, v, done) == cnt_in(deps, v, done.push(u)) + occ(deps, u, v),
    decreases deps.len(),
{
    if deps.len() > 0 {
        lemma_cnt_split(deps.drop_last(), v, done, u);
        let e = deps.last();
        assert(done.push(u).contains(e.0) <==> (done.contains(e.0) || e.0 == u)) by {
            if e.0 == u {
                assert(done.push(u)[done.len() as int] == u);
            }
            if done.contains(e.0) {
                let j = choose|j: int| 0 <= j < done.len() && done[j] == e.0;
                assert(done.push(u)[j] == e.0);
            }
            if done.push(u).contains(e.0) {
                let j = choose|j: int| 0 <= j < done.len() + 1 && done.push(u)[j] == e.0;
                if j < done.len() {
                    assert(done[j] == e.0);
                }
            }
        }
    }
}

proof fn lemma_cnt_zero(deps: Seq<(usize, usize)>, v: usize, done: Seq<usize>)
    ensures
        cnt_in(deps, v, done) == 0 <==> forall|k: int|
            0 <= k < deps.len() && #[trigger] deps[k].1 == v ==> done.contains(deps[k].0),
    decreases deps.len(),
{
    if deps.len() > 0 {
        lemma_cnt_zero(deps.drop_last(), v, done);
        let last = deps.len() - 1;
        if cnt_in(deps, v, done) == 0 {
            assert forall|k: int|
                0 <= k < deps.len() && #[trigger] deps[k].1 == v implies done.contains(
                deps[k].0,
            ) by {
                if k < last {
                    assert(deps.drop_last()[k] == deps[k]);
                }
            }
        } else {
            if cnt_in(deps.drop_last(), v, done) > 0 {
                let k = choose|k: int|
                    0 <= k < deps.drop_last().len() && #[trigger] deps.drop_last()[k].1 == v
                        && !done.contains(deps.drop_last()[k].0);
                assert(deps[k] == deps.drop_last()[k]);
                assert(deps[k].1 == v);
            } else {
                assert(deps[last].1 == v);
            }
        }
    }
}

proof fn lemma_occ_prefix(deps: Seq<(usize, usize)>, u: usize, v: usize, k: int)
    requires
        0 <= k < deps.len(),
    ensures
        occ(deps.take(k + 1), u, v) == occ(deps.take(k), u, v) + if deps[k] == (u, v) {
            1nat
        } else {
            0nat
        },
        occ(deps.take(k + 1), u, v) <= occ(deps, u, v),
    decreases deps.len() - k,
{
    assert(deps.take(k + 1).drop_last() =~= deps.take(k));
    if k + 1 < deps.len() {
        lemma_occ_prefix(deps, u, v, k + 1);
    } else {
        assert(deps.take(k + 1) =~= deps);
    }
}

/// Pigeonhole: a duplicate-free sequence whose items all occur in `s`
/// is no longer than `s`.
pub proof fn lemma_nodup_subset_len<T>(s1: Seq<T>, s: Seq<T>)
    requires
        s1.no_duplicates(),
        forall|i: int| 0 <= i < s1.len() ==> s.contains(#[trigger] s1[i]),
    ensures
        s1.len() <= s.len(),
{
    s1.unique_seq_to_set();
    s.lemma_cardinality_of_set();
    assert(s1.to_set().subset_of(s.to_set())) by {
        assert forall|x: T| s1.to_set().contains(x) implies s.to_set().contains(x) by {
            let i = choose|i: int| 0 <= i < s1.len() && s1[i] == x;
            assert(s.contains(s1[i]));
        }
    }
    vstd::set_lib::lemma_len_subset(s1.to_set(), s.to_set());
}

/// The nodes `0..n` in increasing order.
pub open spec fn node_range(n: nat) -> Seq<usize> {
    Seq::new(n, |i: int| i as usize)
}

/// Pigeonhole: a duplicate-free sequence of nodes below `n` has at most `n` items.
pub proof fn lemma_nodup_bounded(s: Seq<usize>, n: nat)
    requires
        s.no_duplicates(),
        forall|i: int| 0 <= i < s.len() ==> (s[i] as nat) < n,
        n <= usize::MAX + 1,
    ensures
        s.len() <= n,
{
    assert forall|i: int| 0 <= i < s.len() implies node_range(n).contains(#[trigger] s[i]) by {
        assert(node_range(n)[s[i] as int] == s[i]);
    }
    lemma_nodup_subset_len(s, node_range(n));
}

proof fn lemma_first_missing(o: Seq<usize>, done: Seq<usize>, from: int) -> (i0: int)
    requires
        0 <= from <= o.len(),
        exists|i: int| from <= i < o.len() && !done.contains(o[i]),
    ensures
        from <= i0 < o.len(),
        !done.contains(o[i0]),
        forall|j: int| from <= j < i0 ==> done.contains(#[trigger] o[j]),
    decreases o.len() - from,
{
    if !done.contains(o[from]) {
        from
    } else {
        lemma_first_missing(o, done, from + 1)
    }
}

/// A valid order lists every node below `n`.
proof fn lemma_topo_contains_all(n: nat, deps: Seq<(usize, usize)>, o: Seq<usize>, d: usize)
    requires
        is_topo_order(n, deps, o),
        n <= usize::MAX + 1,
        (d as nat) < n,
    ensures
        o.contains(d),
{
    if !o.contains(d) {
        let o2 = o.push(d);
        assert(o2.no_duplicates()) by {
            assert forall|i: int, j: int|
                0 <= i < o2.len() && 0 <= j < o2.len() && i != j implies o2[i] != o2[j] by {
                if i < o.len() && j < o.len() {
                } else if i == o.len() {
                    assert(o2[j] == o[j]);
                } else {
                    assert(o2[i] == o[i]);
                }
            }
        }
        lemma_nodup_bounded(o2, n);
    }
}

/// `topological_sort(n, deps)`: an order of the nodes `0..n` in which each
/// edge `(dep, dependent)` has `dep` first, or `None` when an edge leaves
/// `0..n` or the edges form a cycle.
pub fn topological_sort(n: usize, deps: &[(usize, usize)]) -> (r: Option<Vec<usize>>)
    ensures
        match r {
            Some(o) => edges_in_range(n as nat, deps@) && is_topo_order(n as nat, deps@, o@),
            None => !edges_in_range(n as nat, deps@) || !has_topo_order(n as nat, deps@),
        },
{
    let ghost ds = deps@;
    let ghost empty: Seq<usize> = Seq::empty();
    let mut in_degree: Vec<usize> = Vec::new();
    let mut i: usize = 0;
    while i < n
        invariant
            i <= n,
            in_degree@.len() == i,
            forall|v: int| 0 <= v < i ==> in_degree@[v] == 0,
        decreases n - i,
    {
        in_degree.push(0);
        i = i + 1;
    }
    let mut k: usize = 0;
    while k < deps.len()
        invariant
            ds == deps@,
            empty == Seq::<usize>::empty(),
            k <= deps.len(),
            in_degree@.len() == n,
            edges_in_range(n as nat, ds.take(k as int)),
            forall|v: int| 0 <= v < n ==> in_degree@[v] == cnt_in(ds.take(k as int), v as usize, empty),
        decreases deps.len() - k,
    {
        let (dep, dependent) = deps[k];
        if dep >= n || dependent >= n {
            proof {
                assert(!edges_in_range(n as nat, ds)) by {
                    assert(ds[k as int] == (dep, dependent));
                }
            }
            return None;
        }
        proof {
            assert(ds.take(k + 1).drop_last() =~= ds.take(k as int));
            lemma_cnt_le_len(ds.take(k as int), dependent, empty);
        }
        let cur = in_degree[dependent];
        in_degree.set(dependent, cur + 1);
        k = k + 1;
        proof {
            assert(ds.take(k as int).last() == (dep, dependent));
            assert(!empty.contains(dep));
            assert forall|v: int| 0 <= v < n implies in_degree@[v] == cnt_in(
                ds.take(k as int),
                v as usize,
                empty,
            ) by {
                assert(cnt_in(ds.take(k as int), v as usize, empty) == cnt_in(
                    ds.take(k - 1),
                    v as usize,
                    empty,
                ) + if dependent == v as usize {
                    1nat
                } else {
                    0nat
                });
            }
            assert forall|j: int| 0 <= j < k implies (ds.take(k as int)[j].0 as nat) < n && (ds.take(
                k as int,
            )[j].1 as nat) < n by {
                if j < k - 1 {
                    assert(ds.take(k as int)[j] == ds.take(k - 1)[j]);
                }
            }
        }
    }
    assert(ds.take(deps.len() as int) =~= ds);
    let mut queue: Vec<usize> = Vec::new();
    let mut i: usize = 0;
    while i < n
        invariant
            i <= n,
            in_degree@.len() == n,
            queue@.no_duplicates(),
            forall|j: int| 0 <= j < queue@.len() ==> queue@[j] < i && in_degree@[queue@[j] as int] == 0,
            forall|v: int| 0 <= v < i && in_degree@[v] == 0 ==> queue@.contains(v as usize),
        decreases n - i,
    {
        let ghost q0 = queue@;
        if in_degree[i] == 0 {
            queue.push(i);
            proof {
                assert(queue@[queue@.len() - 1] == i);
                assert forall|v: int| 0 <= v < i && in_degree@[v] == 0 implies queue@.contains(
                    v as usize,
                ) by {
                    let j = choose|j: int| 0 <= j < q0.len() && q0[j] == v as usize;
                    assert(queue@[j] == v as usize);
                }
            }
        }
        i = i + 1;
    }
    let mut order: Vec<usize> = Vec::new();
    while queue.len() > 0
        invariant
            ds == deps@,
            edges_in_range(n as nat, ds),
            in_degree@.len() == n,
            forall|v: int| 0 <= v < n ==> in_degree@[v] == cnt_in(ds, v as usize, order@),
            order@.no_duplicates(),
            forall|j: int| 0 <= j < order@.len() ==> order@[j] < n,
            queue@.no_duplicates(),
            forall|j: int|
                0 <= j < queue@.len() ==> queue@[j] < n && !order@.contains(queue@[j])
                    && in_degree@[queue@[j] as int] == 0,
            forall|v: int|
                0 <= v < n && in_degree@[v] == 0 && !order@.contains(v as usize)
                    ==> queue@.contains(v as usize),
            forall|e: int|
                0 <= e < ds.len() && order@.contains(#[trigger] ds[e].1) ==> order@.contains(
                    ds[e].0,
                ),
            forall|e: int, a: int, b: int|
                #![trigger order@[a], order@[b], ds[e]]
                0 <= e < ds.len() && 0 <= a < order@.len() && 0 <= b < order@.len() && order@[a]
                    == ds[e].1 && order@[b] == ds[e].0 ==> b < a,
        decreases n - order@.len(),
    {
        let node = queue[0];
        let ghost old_order = order@;
        let ghost old_queue = queue@;
        queue.remove(0);
        proof {
            lemma_cnt_zero(ds, node, old_order);
            lemma_nodup_bounded(old_order.push(node), n as nat);
            assert forall|j: int| 0 <= j < queue@.len() implies queue@[j] != node by {
                assert(queue@[j] == old_queue[j + 1]);
            }
            assert forall|v: int|
                0 <= v < n && in_degree@[v] == 0 && !old_order.contains(v as usize) && v != node
                    implies queue@.contains(v as usize) by {
                let j = choose|j: int| 0 <= j < old_queue.len() && old_queue[j] == v as usize;
                assert(j != 0);
                assert(queue@[j - 1] == v as usize);
            }
        }
        order.push(node);
        proof {
            assert(order@ == old_order.push(node));
            assert forall|v: usize| #[trigger] order@.contains(v) <==> (old_order.contains(v) || v == node) by {
                if v == node {
                    assert(order@[old_order.len() as int] == node);
                }
                if old_order.contains(v) {
                    let j = choose|j: int| 0 <= j < old_order.len() && old_order[j] == v;
                    assert(order@[j] == v);
                }
                if order@.contains(v) {
                    let j = choose|j: int| 0 <= j < order@.len() && order@[j] == v;
                    if j < old_order.len() {
                        assert(old_order[j] == v);
                    }
                }
            }
        }
        let mut k: usize = 0;
        while k < deps.len()
            invariant
                ds == deps@,
                edges_in_range(n as nat, ds),
                k <= deps.len(),
                node < n,
                !old_order.contains(node),
                order@ == old_order.push(node),
                forall|v: usize| #[trigger] order@.contains(v) <==> (old_order.contains(v) || v == node),
                cnt_in(ds, node, old_order) == 0,
                forall|e: int|
                    0 <= e < ds.len() && #[trigger] ds[e].1 == node ==> old_order.contains(ds[e].0),
                forall|e: int|
                    0 <= e < ds.len() && old_order.contains(#[trigger] ds[e].1) ==> old_order.contains(
                        ds[e].0,
                    ),
                in_degree@.len() == n,
                forall|v: int|
                    0 <= v < n ==> in_degree@[v] + occ(ds.take(k as int), node, v as usize) == cnt_in(
                        ds,
                        v as usize,
                        old_order,
                    ),
                queue@.no_duplicates(),
                forall|j: int|
                    0 <= j < queue@.len() ==> queue@[j] < n && !order@.contains(queue@[j])
                        && in_degree@[queue@[j] as int] == 0,
                forall|v: int|
                    0 <= v < n && in_degree@[v] == 0 && !order@.contains(v as usize)
                        ==> queue@.contains(v as usize),
            decreases deps.len() - k,
        {
            let (src, nb) = deps[k];
            proof {
                assert(ds[k as int] == (src, nb));
                lemma_occ_prefix(ds, node, nb, k as int);
                lemma_cnt_split(ds, nb, old_order, node);
                assert forall|v: int| 0 <= v < n implies #[trigger] occ(ds.take(k + 1), node, v as usize) == occ(
                    ds.take(k as int),
                    node,
                    v as usize,
                ) + if ds[k as int] == (node, v as usize) {
                    1nat
                } else {
                    0nat
                } by {
                    lemma_occ_prefix(ds, node, v as usize, k as int);
                }
            }
            if src == node {
                proof {
                    assert(ds[k as int] == (node, nb));
                    assert(nb != node) by {
                        if nb == node {
                            assert(old_order.contains(ds[k as int].0));
                        }
                    }
                    assert(!old_order.contains(nb)) by {
                        if old_order.contains(nb) {
                            assert(old_order.contains(ds[k as int].0));
                        }
                    }
                }
                let cur = in_degree[nb];
                in_degree.set(nb, cur - 1);
                if cur - 1 == 0 {
                    let ghost q0 = queue@;
                    proof {
                        assert(!q0.contains(nb)) by {
                            if q0.contains(nb) {
                                let j = choose|j: int| 0 <= j < q0.len() && q0[j] == nb;
                                assert(in_degree@[nb as int] == 0);
                            }
                        }
                    }
                    queue.push(nb);
                    proof {
                        assert(queue@[queue@.len() - 1] == nb);
                        assert forall|v: int|
                            0 <= v < n && in_degree@[v] == 0 && !order@.contains(v as usize)
                                implies queue@.contains(v as usize) by {
                            if v != nb as int {
                                assert(q0.contains(v as usize));
                                let j = choose|j: int| 0 <= j < q0.len() && q0[j] == v as usize;
                                assert(queue@[j] == v as usize);
                            }
                        }
                    }
                }
            }
            k = k + 1;
        }
        proof {
            assert(ds.take(deps.len() as int) =~= ds);
            assert forall|v: int| 0 <= v < n implies in_degree@[v] == cnt_in(ds, v as usize, order@) by {
                lemma_cnt_split(ds, v as usize, old_order, node);
            }
            assert forall|e: int|
                0 <= e < ds.len() && order@.contains(#[trigger] ds[e].1) implies order@.contains(
                ds[e].0,
            ) by {
                if old_order.contains(ds[e].1) {
                } else {
                    assert(ds[e].1 == node);
                }
            }
            assert forall|e: int, a: int, b: int|
                #![trigger order@[a], order@[b], ds[e]]
                0 <= e < ds.len() && 0 <= a < order@.len() && 0 <= b < order@.len() && order@[a]
                    == ds[e].1 && order@[b] == ds[e].0 implies b < a by {
                let p = old_order.len() as int;
                if a < p && b < p {
                    assert(old_order[a] == ds[e].1 && old_order[b] == ds[e].0);
                } else if a == p {
                    assert(ds[e].1 == node);
                    assert(old_order.contains(ds[e].0));
                    let j = choose|j: int| 0 <= j < old_order.len() && old_order[j] == ds[e].0;
                    assert(order@[j] == ds[e].0);
                    if b != j {
                        assert(order@[b] == order@[j]);
                    }
                } else {
                    assert(b == p);
                    assert(old_order[a] == ds[e].1);
                    assert(old_order.contains(ds[e].1));
                    assert(old_order.contains(ds[e].0));
                    assert(ds[e].0 == node);
                }
            }
        }
    }
    if order.len() == n {
        Some(order)
    } else {
        proof {
            assert(!has_topo_order(n as nat, ds)) by {
                if has_topo_order(n as nat, ds) {
                    let o = choose|o: Seq<usize>| is_topo_order(n as nat, ds, o);
                    if forall|i: int| 0 <= i < o.len() ==> order@.contains(#[trigger] o[i]) {
                        lemma_nodup_subset_len(o, order@);
                        lemma_nodup_bounded(order@, n as nat);
                    } else {
                        let i0 = lemma_first_missing(o, order@, 0);
                        let v = o[i0];
                        assert forall|e: int|
                            0 <= e < ds.len() && #[trigger] ds[e].1 == v implies order@.contains(
                            ds[e].0,
                        ) by {
                            lemma_topo_contains_all(n as nat, ds, o, ds[e].0);
                            let j = choose|j: int| 0 <= j < o.len() && o[j] == ds[e].0;
                            assert(o[i0] == ds[e].1 && o[j] == ds[e].0);
                        }
                        lemma_cnt_zero(ds, v, order@);
                        assert(in_degree@[v as int] == 0);
                        assert(queue@.contains(v));
                    }
                }
            }
        }
        None
    }
}

} // verus!
