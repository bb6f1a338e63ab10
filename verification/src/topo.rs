//! Placement order of assembly instances.
//!
//! Instances are numbered `0..n` in ascending order of their ids; a mate is
//! an edge `(a, b)`: the reference instance `a` must be placed before the
//! constrained instance `b`. A reference outside `0..n` (an undefined
//! instance) never gets placed, so whatever it constrains never becomes ready.
//! The order is Kahn's algorithm that always takes the least ready instance,
//! so it does not depend on the order in which the mates are declared.
use vstd::prelude::*;

verus! {

broadcast use vstd::seq_lib::group_seq_properties;

/// `v` may be placed next: it is an instance, it is not placed yet, and every
/// mate that constrains it is anchored on an instance that is placed already.
pub open spec fn is_ready(n: nat, edges: Seq<(usize, usize)>, placed: Seq<usize>, v: usize) -> bool {
    &&& v < n
    &&& !placed.contains(v)
    &&& forall|i: int|
        0 <= i < edges.len() && (#[trigger] edges[i]).1 == v ==> placed.contains(edges[i].0)
}

/// Some instance may be placed next.
pub open spec fn any_ready(n: nat, edges: Seq<(usize, usize)>, placed: Seq<usize>) -> bool {
    exists|v: usize| is_ready(n, edges, placed, v)
}

/// `v` is the least instance that may be placed next.
pub open spec fn is_least_ready(
    n: nat,
    edges: Seq<(usize, usize)>,
    placed: Seq<usize>,
    v: usize,
) -> bool {
    &&& is_ready(n, edges, placed, v)
    &&& forall|w: usize| is_ready(n, edges, placed, w) ==> v <= w
}

pub open spec fn least_ready(n: nat, edges: Seq<(usize, usize)>, placed: Seq<usize>) -> usize {
    choose|v: usize| is_least_ready(n, edges, placed, v)
}

/// The first `k` placements, or `None` when the placement gets stuck before.
pub open spec fn greedy_prefix(n: nat, edges: Seq<(usize, usize)>, k: nat) -> Option<Seq<usize>>
    decreases k,
{
    if k == 0 {
        Some(Seq::empty())
    } else {
        match greedy_prefix(n, edges, (k - 1) as nat) {
            Some(p) => if any_ready(n, edges, p) {
                Some(p.push(least_ready(n, edges, p)))
            } else {
                None
            },
            None => None,
        }
    }
}

/// The placement order of all `n` instances, `None` when the mates form a
/// cycle (or depend on an undefined instance).
pub open spec fn spec_placement_order(n: nat, edges: Seq<(usize, usize)>) -> Option<Seq<usize>> {
    greedy_prefix(n, edges, n)
}

/// `o` places every instance exactly once, each after every instance that it
/// is mated to.
pub open spec fn is_topological(n: nat, edges: Seq<(usize, usize)>, o: Seq<usize>) -> bool {
    &&& o.len() == n
    &&& o.no_duplicates()
    &&& forall|k: int| 0 <= k < n ==> #[trigger] o[k] < n
    &&& forall|k: int, i: int|
        0 <= k < n && 0 <= i < edges.len() && (#[trigger] edges[i]).1 == #[trigger] o[k]
            ==> o.take(k).contains(edges[i].0)
}

// ---------------------------------------------------------------- counting

/// Number of mates into `v` whose reference instance is not placed.
spec fn pending(edges: Seq<(usize, usize)>, placed: Seq<usize>, v: usize) -> nat
    decreases edges.len(),
{
    if edges.len() == 0 {
        0
    } else {
        pending(edges.drop_last(), placed, v) + (if edges.last().1 == v && !placed.contains(
            edges.last().0,
        ) {
            1nat
        } else {
            0nat
        })
    }
}

/// Number of mates `(u, v)`.
spec fn count_pair(edges: Seq<(usize, usize)>, u: usize, v: usize) -> nat
    decreases edges.len(),
{
    if edges.len() == 0 {
        0
    } else {
        count_pair(edges.drop_last(), u, v) + (if edges.last().0 == u && edges.last().1 == v {
            1nat
        } else {
            0nat
        })
    }
}

proof fn lemma_pending_le_len(edges: Seq<(usize, usize)>, placed: Seq<usize>, v: usize)
    ensures
        pending(edges, placed, v) <= edges.len(),
    decreases edges.len(),
{
    if edges.len() > 0 {
        lemma_pending_le_len(edges.drop_last(), placed, v);
    }
}

proof fn lemma_pending_zero(edges: Seq<(usize, usize)>, placed: Seq<usize>, v: usize)
    ensures
        (pending(edges, placed, v) == 0) <==> (forall|i: int|
            0 <= i < edges.len() && (#[trigger] edges[i]).1 == v ==> placed.contains(edges[i].0)),
    decreases edges.len(),
{
    if edges.len() > 0 {
        let e = edges.drop_last();
        lemma_pending_zero(e, placed, v);
        assert forall|i: int| 0 <= i < e.len() implies e[i] == edges[i] by {}
        if pending(edges, placed, v) == 0 {
            assert forall|i: int|
                0 <= i < edges.len() && (#[trigger] edges[i]).1 == v implies placed.contains(
                edges[i].0,
            ) by {
                if i < e.len() {
                    assert(e[i] == edges[i]);
                }
            }
        } else {
            if pending(e, placed, v) == 0 {
                let i = edges.len() - 1;
                assert(edges[i] == edges.last());
            } else {
                let i = choose|i: int|
                    0 <= i < e.len() && (#[trigger] e[i]).1 == v && !placed.contains(e[i].0);
                assert(edges[i] == e[i]);
            }
        }
    }
}

proof fn lemma_pending_push(edges: Seq<(usize, usize)>, placed: Seq<usize>, u: usize, v: usize)
    requires
        !placed.contains(u),
    ensures
        pending(edges, placed.push(u), v) + count_pair(edges, u, v) == pending(edges, placed, v),
    decreases edges.len(),
{
    if edges.len() > 0 {
        lemma_pending_push(edges.drop_last(), placed, u, v);
        let x = edges.last().0;
        assert(placed.push(u).contains(x) <==> (placed.contains(x) || x == u));
    }
}

proof fn lemma_pending_take(edges: Seq<(usize, usize)>, placed: Seq<usize>, v: usize, j: int)
    requires
        0 <= j < edges.len(),
    ensures
        pending(edges.take(j + 1), placed, v) == pending(edges.take(j), placed, v) + (if edges[j].1
            == v && !placed.contains(edges[j].0) {
            1nat
        } else {
            0nat
        }),
{
    assert(edges.take(j + 1).drop_last() =~= edges.take(j));
    assert(edges.take(j + 1).last() == edges[j]);
}

proof fn lemma_count_take(edges: Seq<(usize, usize)>, u: usize, v: usize, j: int)
    requires
        0 <= j < edges.len(),
    ensures
        count_pair(edges.take(j + 1), u, v) == count_pair(edges.take(j), u, v) + (if edges[j].0
            == u && edges[j].1 == v {
            1nat
        } else {
            0nat
        }),
{
    assert(edges.take(j + 1).drop_last() =~= edges.take(j));
    assert(edges.take(j + 1).last() == edges[j]);
}

proof fn lemma_count_prefix(edges: Seq<(usize, usize)>, u: usize, v: usize, j: int)
    requires
        0 <= j <= edges.len(),
    ensures
        count_pair(edges.take(j), u, v) <= count_pair(edges, u, v),
    decreases edges.len() - j,
{
    if j == edges.len() {
        assert(edges.take(j) =~= edges);
    } else {
        lemma_count_take(edges, u, v, j);
        lemma_count_prefix(edges, u, v, j + 1);
    }
}

// ---------------------------------------------------------------- the greedy order

proof fn lemma_least_exists_below(
    n: nat,
    edges: Seq<(usize, usize)>,
    placed: Seq<usize>,
    v: usize,
)
    requires
        is_ready(n, edges, placed, v),
    ensures
        exists|m: usize| is_least_ready(n, edges, placed, m),
    decreases v,
{
    if exists|w: usize| w < v && is_ready(n, edges, placed, w) {
        let w = choose|w: usize| w < v && is_ready(n, edges, placed, w);
        lemma_least_exists_below(n, edges, placed, w);
    } else {
        assert(is_least_ready(n, edges, placed, v));
    }
}

/// When an instance may be placed, the least one exists and is unique.
proof fn lemma_least_ready(n: nat, edges: Seq<(usize, usize)>, placed: Seq<usize>)
    requires
        any_ready(n, edges, placed),
    ensures
        is_least_ready(n, edges, placed, least_ready(n, edges, placed)),
        forall|m: usize| #[trigger]
            is_least_ready(n, edges, placed, m) ==> m == least_ready(n, edges, placed),
{
    let v = choose|v: usize| is_ready(n, edges, placed, v);
    lemma_least_exists_below(n, edges, placed, v);
    let l = least_ready(n, edges, placed);
    assert forall|m: usize| #[trigger] is_least_ready(n, edges, placed, m) implies m == l by {
        assert(m <= l);
        assert(l <= m);
    }
}

proof fn lemma_none_persists(n: nat, edges: Seq<(usize, usize)>, k1: nat, k2: nat)
    requires
        k1 <= k2,
        greedy_prefix(n, edges, k1) is None,
    ensures
        greedy_prefix(n, edges, k2) is None,
    decreases k2,
{
    if k2 > k1 {
        lemma_none_persists(n, edges, k1, (k2 - 1) as nat);
    }
}

/// Every prefix of the greedy order places distinct instances, each after the
/// instances that it is mated to.
proof fn lemma_prefix_shape(n: nat, edges: Seq<(usize, usize)>, k: nat)
    requires
        greedy_prefix(n, edges, k) is Some,
    ensures
        ({
            let p = greedy_prefix(n, edges, k)->0;
            &&& p.len() == k
            &&& p.no_duplicates()
            &&& forall|j: int| 0 <= j < k ==> #[trigger] p[j] < n
            &&& forall|j: int| 0 <= j < k ==> is_least_ready(n, edges, p.take(j), #[trigger] p[j])
        }),
    decreases k,
{
    if k > 0 {
        let q = greedy_prefix(n, edges, (k - 1) as nat)->0;
        lemma_prefix_shape(n, edges, (k - 1) as nat);
        lemma_least_ready(n, edges, q);
        let u = least_ready(n, edges, q);
        let p = q.push(u);
        assert(p.take(k - 1) =~= q);
        assert forall|j: int| 0 <= j < k implies is_least_ready(n, edges, p.take(j), #[trigger] p[j]) by {
            if j < k - 1 {
                assert(p.take(j) =~= q.take(j));
                assert(p[j] == q[j]);
            }
        }
        assert forall|a: int, b: int| 0 <= a < b < p.len() implies p[a] != p[b] by {
            if b == k - 1 {
                assert(q.contains(p[a]));
            }
        }
    }
}

/// Law: a placement order that exists places every instance exactly once,
/// each after all instances that it is mated to, and at each step it takes the
/// least instance that may be placed.
pub proof fn law_order_is_topological(n: nat, edges: Seq<(usize, usize)>)
    ensures
        spec_placement_order(n, edges) matches Some(o) ==> {
            &&& is_topological(n, edges, o)
            &&& forall|k: int| 0 <= k < n ==> is_least_ready(n, edges, o.take(k), #[trigger] o[k])
        },
{
    if spec_placement_order(n, edges) is Some {
        let o = spec_placement_order(n, edges)->0;
        lemma_prefix_shape(n, edges, n);
        assert forall|k: int, i: int|
            0 <= k < n && 0 <= i < edges.len() && (#[trigger] edges[i]).1 == #[trigger] o[k]
            implies o.take(k).contains(edges[i].0) by {
            assert(is_least_ready(n, edges, o.take(k), o[k]));
        }
    }
}

/// Law: the placement fails only when no order exists at all that places
/// every instance after the instances that it is mated to.
pub proof fn law_failure_means_no_order(n: nat, edges: Seq<(usize, usize)>, o: Seq<usize>)
    ensures
        spec_placement_order(n, edges) is None ==> !is_topological(n, edges, o),
{
    if spec_placement_order(n, edges) is None && is_topological(n, edges, o) {
        // the last prefix that exists
        lemma_last_prefix(n, edges, n);
        let k = choose|k: nat|
            k < n && (#[trigger] greedy_prefix(n, edges, k)) is Some && greedy_prefix(n, edges, k + 1) is None;
        lemma_prefix_shape(n, edges, k);
        let p = greedy_prefix(n, edges, k)->0;
        assert(!any_ready(n, edges, p));
        // some instance of `o` is not in `p`
        o.unique_seq_to_set();
        p.lemma_cardinality_of_set();
        if forall|m: int| 0 <= m < n ==> p.contains(#[trigger] o[m]) {
            assert(o.to_set().subset_of(p.to_set())) by {
                assert forall|x: usize| o.to_set().contains(x) implies p.to_set().contains(x) by {
                    let m = choose|m: int| 0 <= m < o.len() && o[m] == x;
                    assert(p.contains(o[m]));
                }
            }
            vstd::set_lib::lemma_len_subset(o.to_set(), p.to_set());
            assert(false);
        }
        lemma_first_missing(n, p, o);
        let m = choose|m: int| 0 <= m < n && !p.contains(#[trigger] o[m]) && forall|l: int|
            0 <= l < m ==> p.contains(#[trigger] o[l]);
        let w = o[m];
        assert(!is_ready(n, edges, p, w));
        let i = choose|i: int|
            0 <= i < edges.len() && (#[trigger] edges[i]).1 == w && !p.contains(edges[i].0);
        assert(o.take(m).contains(edges[i].0));
        let l = choose|l: int| 0 <= l < m && o.take(m)[l] == edges[i].0;
        assert(p.contains(o[l]));
    }
}

proof fn lemma_last_prefix(n: nat, edges: Seq<(usize, usize)>, k: nat)
    requires
        greedy_prefix(n, edges, k) is None,
    ensures
        exists|j: nat|
            j < k && (#[trigger] greedy_prefix(n, edges, j)) is Some && greedy_prefix(n, edges, j + 1) is None,
    decreases k,
{
    let j = (k - 1) as nat;
    if greedy_prefix(n, edges, j) is None {
        lemma_last_prefix(n, edges, j);
    } else {
        assert(greedy_prefix(n, edges, j + 1) is None);
    }
}

proof fn lemma_first_missing(n: nat, p: Seq<usize>, o: Seq<usize>)
    requires
        o.len() == n,
        exists|m: int| 0 <= m < n && !p.contains(#[trigger] o[m]),
    ensures
        exists|m: int|
            0 <= m < n && !p.contains(#[trigger] o[m]) && forall|l: int|
                0 <= l < m ==> p.contains(#[trigger] o[l]),
    decreases n,
{
    let m0 = choose|m: int| 0 <= m < n && !p.contains(#[trigger] o[m]);
    if exists|l: int| 0 <= l < m0 && !p.contains(#[trigger] o[l]) {
        let l0 = choose|l: int| 0 <= l < m0 && !p.contains(#[trigger] o[l]);
        assert(o.take(m0)[l0] == o[l0]);
        lemma_first_missing(m0 as nat, p, o.take(m0));
        let m = choose|m: int|
            0 <= m < m0 && !p.contains(#[trigger] o.take(m0)[m]) && forall|l: int|
                0 <= l < m ==> p.contains(#[trigger] o.take(m0)[l]);
        assert forall|l: int| 0 <= l < m implies p.contains(#[trigger] o[l]) by {
            assert(o.take(m0)[l] == o[l]);
        }
        assert(o.take(m0)[m] == o[m]);
    } else {
    }
}

proof fn lemma_ready_same(
    n: nat,
    e1: Seq<(usize, usize)>,
    e2: Seq<(usize, usize)>,
    placed: Seq<usize>,
    v: usize,
)
    requires
        forall|x: (usize, usize)| e1.contains(x) <==> e2.contains(x),
    ensures
        is_ready(n, e1, placed, v) == is_ready(n, e2, placed, v),
{
    if is_ready(n, e1, placed, v) {
        assert forall|i: int| 0 <= i < e2.len() && (#[trigger] e2[i]).1 == v implies placed.contains(
            e2[i].0,
        ) by {
            assert(e2.contains(e2[i]));
            let j = choose|j: int| 0 <= j < e1.len() && e1[j] == e2[i];
            assert(e1[j].1 == v);
        }
    }
    if is_ready(n, e2, placed, v) {
        assert forall|i: int| 0 <= i < e1.len() && (#[trigger] e1[i]).1 == v implies placed.contains(
            e1[i].0,
        ) by {
            assert(e1.contains(e1[i]));
            let j = choose|j: int| 0 <= j < e2.len() && e2[j] == e1[i];
            assert(e2[j].1 == v);
        }
    }
}

proof fn lemma_prefix_same(n: nat, e1: Seq<(usize, usize)>, e2: Seq<(usize, usize)>, k: nat)
    requires
        forall|x: (usize, usize)| e1.contains(x) <==> e2.contains(x),
    ensures
        greedy_prefix(n, e1, k) == greedy_prefix(n, e2, k),
    decreases k,
{
    if k > 0 {
        lemma_prefix_same(n, e1, e2, (k - 1) as nat);
        if greedy_prefix(n, e1, (k - 1) as nat) is Some {
            let p = greedy_prefix(n, e1, (k - 1) as nat)->0;
            assert forall|v: usize| is_ready(n, e1, p, v) == is_ready(n, e2, p, v) by {
                lemma_ready_same(n, e1, e2, p, v);
            }
            if any_ready(n, e1, p) {
                let v = choose|v: usize| is_ready(n, e1, p, v);
                assert(is_ready(n, e2, p, v));
                lemma_least_ready(n, e1, p);
                lemma_least_ready(n, e2, p);
                let l1 = least_ready(n, e1, p);
                assert(is_least_ready(n, e2, p, l1));
            } else {
                assert(!any_ready(n, e2, p));
            }
        }
    }
}

/// Law: the placement order depends only on which mates there are, not on
/// the order in which they are declared.
pub proof fn law_declaration_order_independent(
    n: nat,
    e1: Seq<(usize, usize)>,
    e2: Seq<(usize, usize)>,
)
    requires
        forall|x: (usize, usize)| e1.contains(x) <==> e2.contains(x),
    ensures
        spec_placement_order(n, e1) == spec_placement_order(n, e2),
{
    lemma_prefix_same(n, e1, e2, n);
}

// ---------------------------------------------------------------- execution

/// The least `w < n` with `!placed[w]` and `indeg[w] == 0`.
fn first_ready(n: usize, placed: &Vec<bool>, indeg: &Vec<usize>) -> (r: Option<usize>)
    requires
        placed@.len() == n,
        indeg@.len() == n,
    ensures
        r matches Some(w) ==> w < n && !placed@[w as int] && indeg@[w as int] == 0 && forall|x: int|
            0 <= x < w ==> placed@[x] || indeg@[x] != 0,
        r is None ==> forall|x: int| 0 <= x < n ==> placed@[x] || indeg@[x] != 0,
{
    let mut w: usize = 0;
    while w < n
        invariant
            w <= n,
            placed@.len() == n,
            indeg@.len() == n,
            forall|x: int| 0 <= x < w ==> placed@[x] || indeg@[x] != 0,
        decreases n - w,
    {
        if !placed[w] && indeg[w] == 0 {
            return Some(w);
        }
        w = w + 1;
    }
    None
}

/// Deterministic placement order of `n` instances under the mates `edges`
/// (Kahn's algorithm, ties broken by the least instance). `None` when the
/// mate graph has a cycle or depends on an undefined instance.
pub fn placement_order(n: usize, edges: &Vec<(usize, usize)>) -> (r: Option<Vec<usize>>)
    ensures
        match r {
            Some(o) => spec_placement_order(n as nat, edges@) == Some(o@),
            None => spec_placement_order(n as nat, edges@) is None,
        },
{
    let ghost e = edges@;
    let mut indeg: Vec<usize> = Vec::new();
    let mut placed: Vec<bool> = Vec::new();
    let mut v: usize = 0;
    while v < n
        invariant
            v <= n,
            indeg@.len() == v,
            placed@.len() == v,
            forall|x: int| 0 <= x < v ==> indeg@[x] == 0 && !placed@[x],
        decreases n - v,
    {
        indeg.push(0);
        placed.push(false);
        v = v + 1;
    }
    let mut i: usize = 0;
    while i < edges.len()
        invariant
            e == edges@,
            i <= e.len(),
            indeg@.len() == n,
            placed@.len() == n,
            forall|x: int| 0 <= x < n ==> !placed@[x],
            forall|x: usize|
                x < n ==> indeg@[x as int] == #[trigger] pending(e.take(i as int), Seq::empty(), x),
        decreases e.len() - i,
    {
        let (_a, b) = edges[i];
        proof {
            assert forall|x: usize| x < n implies #[trigger] pending(
                e.take(i + 1),
                Seq::empty(),
                x,
            ) == pending(e.take(i as int), Seq::empty(), x) + (if b == x {
                1nat
            } else {
                0nat
            }) by {
                lemma_pending_take(e, Seq::empty(), x, i as int);
            }
        }
        if b < n {
            proof {
                lemma_pending_le_len(e.take(i as int), Seq::empty(), b);
            }
            let d = indeg[b] + 1;
            indeg.set(b, d);
        }
        i = i + 1;
    }
    assert(e.take(e.len() as int) =~= e);
    let mut order: Vec<usize> = Vec::new();
    while order.len() < n
        invariant
            e == edges@,
            indeg@.len() == n,
            placed@.len() == n,
            order@.len() <= n,
            greedy_prefix(n as nat, e, order@.len() as nat) == Some(order@),
            forall|x: int| 0 <= x < n ==> (placed@[x] <==> order@.contains(x as usize)),
            forall|x: usize| x < n ==> indeg@[x as int] == #[trigger] pending(e, order@, x),
        decreases n - order@.len(),
    {
        let ghost k = order@.len();
        let ghost p = order@;
        proof {
            assert forall|x: usize| #[trigger] is_ready(n as nat, e, p, x) <==> (x < n && !placed@[x as int] && indeg@[x as int] == 0) by {
                if x < n {
                    lemma_pending_zero(e, p, x);
                }
            }
        }
        match first_ready(n, &placed, &indeg) {
            None => {
                proof {
                    assert(!any_ready(n as nat, e, p));
                    assert(greedy_prefix(n as nat, e, (k + 1) as nat) is None);
                    lemma_none_persists(n as nat, e, (k + 1) as nat, n as nat);
                }
                return None;
            },
            Some(u) => {
                proof {
                    assert(is_ready(n as nat, e, p, u));
                    assert(is_least_ready(n as nat, e, p, u));
                    lemma_least_ready(n as nat, e, p);
                    assert(greedy_prefix(n as nat, e, (k + 1) as nat) == Some(p.push(u)));
                }
                order.push(u);
                placed.set(u, true);
                let mut j: usize = 0;
                while j < edges.len()
                    invariant
                        e == edges@,
                        j <= e.len(),
                        indeg@.len() == n,
                        u < n,
                        !p.contains(u),
                        forall|x: usize|
                            x < n ==> indeg@[x as int] + #[trigger] count_pair(e.take(j as int), u, x)
                                == pending(e, p, x),
                    decreases e.len() - j,
                {
                    let (a, b) = edges[j];
                    proof {
                        assert forall|x: usize| x < n implies #[trigger] count_pair(
                            e.take(j + 1),
                            u,
                            x,
                        ) == count_pair(e.take(j as int), u, x) + (if a == u && b == x {
                            1nat
                        } else {
                            0nat
                        }) by {
                            lemma_count_take(e, u, x, j as int);
                        }
                    }
                    if a == u && b < n {
                        proof {
                            lemma_count_prefix(e, u, b, j + 1);
                            lemma_pending_push(e, p, u, b);
                        }
                        let d = indeg[b] - 1;
                        indeg.set(b, d);
                    }
                    j = j + 1;
                }
                proof {
                    assert(e.take(e.len() as int) =~= e);
                    assert forall|x: usize| x < n implies indeg@[x as int] == #[trigger] pending(
                        e,
                        order@,
                        x,
                    ) by {
                        lemma_pending_push(e, p, u, x);
                    }
                    assert forall|x: int| 0 <= x < n implies (placed@[x] <==> order@.contains(
                        x as usize,
                    )) by {
                        assert(order@ == p.push(u));
                    }
                }
            },
        }
    }
    Some(order)
}


/// Law (least instance first): at every step the order places the least
/// instance that may be placed then, one not placed yet whose mates are all
/// anchored on instances placed before it.
pub proof fn law_least_ready_first(n: nat, edges: Seq<(usize, usize)>, k: int, w: usize)
    ensures
        spec_placement_order(n, edges) matches Some(o) ==> (0 <= k < n && w < n && !o.take(
            k,
        ).contains(w) && (forall|i: int|
            0 <= i < edges.len() && (#[trigger] edges[i]).1 == w ==> o.take(k).contains(edges[i].0))
            ==> o[k] <= w),
{
    if spec_placement_order(n, edges) is Some {
        lemma_prefix_shape(n, edges, n);
        let o = spec_placement_order(n, edges)->0;
        if 0 <= k < n && w < n && !o.take(k).contains(w) && (forall|i: int|
            0 <= i < edges.len() && (#[trigger] edges[i]).1 == w ==> o.take(k).contains(edges[i].0)) {
            assert(is_least_ready(n, edges, o.take(k), o[k]));
            assert(is_ready(n, edges, o.take(k), w));
        }
    }
}


/// Law (every instance once, after its references): a placement order holds
/// each instance `0..n` exactly once, and for every mate whose constrained
/// instance is placed at step `k` its reference instance is placed at an
/// earlier step.
pub proof fn law_order_respects_every_mate(n: nat, edges: Seq<(usize, usize)>)
    ensures
        spec_placement_order(n, edges) matches Some(o) ==> {
            &&& o.len() == n
            &&& forall|a: int, b: int| 0 <= a < b < o.len() ==> #[trigger] o[a] != #[trigger] o[b]
            &&& forall|v: usize| v < n ==> #[trigger] o.contains(v)
            &&& forall|k: int, i: int|
                0 <= k < o.len() && 0 <= i < edges.len() && (#[trigger] edges[i]).1 == #[trigger] o[k]
                    ==> exists|j: int| 0 <= j < k && o[j] == edges[i].0
        },
{
    law_order_is_topological(n, edges);
    if spec_placement_order(n, edges) is Some {
        let o = spec_placement_order(n, edges)->0;
        assert forall|v: usize| v < n implies #[trigger] o.contains(v) by {
            lemma_all_placed(o, n, v);
        }
        assert forall|k: int, i: int|
            0 <= k < o.len() && 0 <= i < edges.len() && (#[trigger] edges[i]).1 == #[trigger] o[k]
                implies exists|j: int| 0 <= j < k && o[j] == edges[i].0 by {
            assert(o.take(k).contains(edges[i].0));
            let j = choose|j: int| 0 <= j < o.take(k).len() && o.take(k)[j] == edges[i].0;
            assert(o[j] == edges[i].0);
        }
    }
}

/// A sequence of `n` distinct values below `n` holds every value below `n`.
proof fn lemma_all_placed(o: Seq<usize>, n: nat, v: usize)
    requires
        o.len() == n,
        o.no_duplicates(),
        forall|k: int| 0 <= k < n ==> #[trigger] o[k] < n,
        v < n,
    ensures
        o.contains(v),
{
    if !o.contains(v) {
        let s = o.to_set();
        o.unique_seq_to_set();
        let full = Set::new(|x: usize| x < n);
        assert(s.subset_of(full.remove(v))) by {
            assert forall|x: usize| s.contains(x) implies full.remove(v).contains(x) by {
                let k = choose|k: int| 0 <= k < o.len() && o[k] == x;
            }
        }
        lemma_below_set_len(n);
        assert(full.contains(v));
        assert(full.remove(v).len() == full.len() - 1);
        assert(full.remove(v).len() < n);
        vstd::set_lib::lemma_len_subset(s, full.remove(v));
    }
}

proof fn lemma_below_set_len(n: nat)
    ensures
        Set::new(|x: usize| x < n).finite(),
        Set::new(|x: usize| x < n).len() == (if n <= usize::MAX + 1 { n } else { (usize::MAX + 1) as nat }),
    decreases n,
{
    if n == 0 {
        assert(Set::new(|x: usize| x < n) =~= Set::<usize>::empty());
    } else {
        lemma_below_set_len((n - 1) as nat);
        let m = (n - 1) as nat;
        if m <= usize::MAX {
            assert(Set::new(|x: usize| x < n) =~= Set::new(|x: usize| x < m).insert(m as usize));
        } else {
            assert(Set::new(|x: usize| x < n) =~= Set::new(|x: usize| x < m));
        }
    }
}

} // verus!
