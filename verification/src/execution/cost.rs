//! How many experts a layer's rows reach.
use vstd::prelude::*;

verus! {

/// Experts of one layer.
pub const EXPERTS: usize = 384;

/// Rows that one expert group takes.
pub const GROUP_ROWS: usize = 16;

/// The routes of the rows, one row after the other.
pub open spec fn routes_of(rows: Seq<[u32; 6]>) -> Seq<u32> {
    Seq::new(rows.len() * 6, |k: int| rows[k / 6]@[k % 6])
}

/// How often `expert` occurs in the first `n` routes.
pub open spec fn uses(routes: Seq<u32>, expert: int, n: int) -> int
    decreases n,
{
    if n <= 0 {
        0
    } else {
        uses(routes, expert, n - 1) + if routes[n - 1] == expert {
            1int
        } else {
            0
        }
    }
}

/// How many of the first `n` experts are used at all.
pub open spec fn used_experts(routes: Seq<u32>, n: int) -> int
    decreases n,
{
    if n <= 0 {
        0
    } else {
        used_experts(routes, n - 1) + if uses(routes, n - 1, routes.len() as int) > 0 {
            1int
        } else {
            0
        }
    }
}

/// Groups of sixteen rows that the first `n` experts need.
pub open spec fn used_groups(routes: Seq<u32>, n: int) -> int
    decreases n,
{
    if n <= 0 {
        0
    } else {
        used_groups(routes, n - 1) + (uses(routes, n - 1, routes.len() as int) + 15) / 16
    }
}

proof fn lemma_uses_bound(routes: Seq<u32>, expert: int, n: int)
    requires
        0 <= n <= routes.len(),
    ensures
        0 <= uses(routes, expert, n) <= n,
    decreases n,
{
    if n > 0 {
        lemma_uses_bound(routes, expert, n - 1);
    }
}

/// Some route names no expert of the layer.
pub open spec fn stray_route(routes: Seq<u32>) -> bool {
    exists|k: int| 0 <= k < routes.len() && (#[trigger] routes[k]) >= EXPERTS
}

/// Distinct experts and expert groups of a layer's rows, or nothing where a route
/// names no expert.
pub fn route_cost(rows: &[[u32; 6]]) -> (r: Option<(usize, usize)>)
    requires
        rows@.len() <= 4096,
    ensures
        match r {
            Some((distinct, groups)) => {
                &&& !stray_route(routes_of(rows@))
                &&& distinct == used_experts(routes_of(rows@), 384)
                &&& groups == used_groups(routes_of(rows@), 384)
            },
            None => stray_route(routes_of(rows@)),
        },
{
    let ghost routes = routes_of(rows@);
    let mut counts: Vec<usize> = Vec::new();
    let mut e: usize = 0;
    while e < EXPERTS
        invariant
            e <= EXPERTS,
            counts@.len() == e,
            forall|i: int| 0 <= i < e ==> #[trigger] counts@[i] == 0,
        decreases EXPERTS - e,
    {
        counts.push(0);
        e = e + 1;
    }
    let count: usize = rows.len() * 6;
    let mut k: usize = 0;
    while k < count
        invariant
            k <= count == routes.len(),
            count == rows@.len() * 6,
            rows@.len() <= 4096,
            routes == routes_of(rows@),
            counts@.len() == EXPERTS,
            forall|i: int| 0 <= i < EXPERTS ==> #[trigger] counts@[i] == uses(routes, i, k as int),
            forall|i: int| 0 <= i < k ==> (#[trigger] routes[i]) < EXPERTS,
        decreases count - k,
    {
        let row: [u32; 6] = rows[k / 6];
        let route: u32 = row[k % 6];
        assert(route == routes[k as int]);
        if route >= EXPERTS as u32 {
            return None;
        }
        let expert: usize = route as usize;
        proof {
            lemma_uses_bound(routes, expert as int, k as int);
        }
        counts[expert] = counts[expert] + 1;
        k = k + 1;
    }
    let mut distinct: usize = 0;
    let mut groups: usize = 0;
    let mut i: usize = 0;
    while i < EXPERTS
        invariant
            i <= EXPERTS,
            routes.len() <= 24576,
            counts@.len() == EXPERTS,
            forall|j: int|
                0 <= j < EXPERTS ==> #[trigger] counts@[j] == uses(routes, j, routes.len() as int),
            distinct == used_experts(routes, i as int),
            groups == used_groups(routes, i as int),
            distinct <= i,
            groups <= i * 0x1001,
        decreases EXPERTS - i,
    {
        proof {
            lemma_uses_bound(routes, i as int, routes.len() as int);
        }
        if counts[i] != 0 {
            distinct = distinct + 1;
        }
        groups = groups + (counts[i] + 15) / GROUP_ROWS;
        i = i + 1;
    }
    Some((distinct, groups))
}

/// The cost of a completed layer, where its routes were captured: without capture
/// the buffers may hold the routes of an earlier pass.
pub fn layer_cost(capturing: bool, captured: &Vec<Vec<[u32; 6]>>, layer: usize, rows: usize) -> (r:
    Option<(usize, usize)>)
    requires
        rows <= 4096,
    ensures
        match r {
            Some((distinct, groups)) => {
                &&& capturing
                &&& layer < captured@.len()
                &&& captured@[layer as int]@.len() == rows
                &&& !stray_route(routes_of(captured@[layer as int]@))
                &&& distinct == used_experts(routes_of(captured@[layer as int]@), 384)
                &&& groups == used_groups(routes_of(captured@[layer as int]@), 384)
            },
            None => {
                ||| !capturing
                ||| layer >= captured@.len()
                ||| captured@[layer as int]@.len() != rows
                ||| stray_route(routes_of(captured@[layer as int]@))
            },
        },
{
    if !capturing || layer >= captured.len() {
        return None;
    }
    let routes = &captured[layer];
    if routes.len() != rows {
        return None;
    }
    route_cost(routes.as_slice())
}

proof fn lemma_used(routes: Seq<u32>, expert: int, n: int)
    requires
        0 <= n <= routes.len(),
    ensures
        uses(routes, expert, n) > 0 <==> exists|k: int| 0 <= k < n && (#[trigger] routes[k]) == expert,
    decreases n,
{
    lemma_uses_bound(routes, expert, n);
    if n > 0 {
        lemma_used(routes, expert, n - 1);
        lemma_uses_bound(routes, expert, n - 1);
        if routes[n - 1] == expert {
            assert(uses(routes, expert, n) > 0);
        }
    }
}

/// The experts below `n` that some route names.
pub open spec fn named(routes: Seq<u32>, n: int) -> Set<u32> {
    Set::new(|e: u32| e < n && routes.contains(e))
}

proof fn lemma_named(routes: Seq<u32>, n: int)
    requires
        0 <= n <= EXPERTS,
    ensures
        named(routes, n).finite(),
        named(routes, n).len() == used_experts(routes, n),
    decreases n,
{
    if n <= 0 {
        assert(named(routes, n) =~= Set::<u32>::empty());
    } else {
        let e = (n - 1) as u32;
        lemma_named(routes, n - 1);
        lemma_used(routes, n - 1, routes.len() as int);
        if uses(routes, n - 1, routes.len() as int) > 0 {
            let k = choose|k: int|
                0 <= k < routes.len() && (#[trigger] routes[k]) == n - 1;
            assert(routes[k] == e);
            assert(routes.contains(e));
            assert(named(routes, n) =~= named(routes, n - 1).insert(e));
        } else {
            if routes.contains(e) {
                let k = choose|k: int| 0 <= k < routes.len() && routes[k] == e;
                assert(routes[k] == n - 1);
            }
            assert(named(routes, n) =~= named(routes, n - 1));
        }
    }
}

/// The distinct experts of a layer are as many as the routes name.
pub proof fn law_distinct_experts_are_named(routes: Seq<u32>)
    requires
        !stray_route(routes),
    ensures
        used_experts(routes, 384) == routes.to_set().len(),
{
    lemma_named(routes, 384);
    assert forall|e: u32| named(routes, 384).contains(e) <==> routes.to_set().contains(e) by {
        if routes.contains(e) {
            let k = choose|k: int| 0 <= k < routes.len() && routes[k] == e;
            assert(routes[k] < EXPERTS);
        }
    }
    assert(named(routes, 384) =~= routes.to_set());
}

/// How often the first `n` experts occur in the first `m` routes.
spec fn all_uses(routes: Seq<u32>, m: int, n: int) -> int
    decreases n,
{
    if n <= 0 {
        0
    } else {
        all_uses(routes, m, n - 1) + uses(routes, n - 1, m)
    }
}

proof fn lemma_one_use(routes: Seq<u32>, m: int, n: int)
    requires
        0 < m <= routes.len(),
        0 <= n,
    ensures
        all_uses(routes, m, n) == all_uses(routes, m - 1, n) + if routes[m - 1] < n {
            1int
        } else {
            0
        },
    decreases n,
{
    if n > 0 {
        lemma_one_use(routes, m, n - 1);
    }
}

proof fn lemma_no_use(routes: Seq<u32>, n: int)
    ensures
        all_uses(routes, 0, n) == 0,
    decreases n,
{
    if n > 0 {
        lemma_no_use(routes, n - 1);
    }
}

proof fn lemma_all_uses(routes: Seq<u32>, m: int)
    requires
        !stray_route(routes),
        0 <= m <= routes.len(),
    ensures
        all_uses(routes, m, 384) == m,
    decreases m,
{
    if m > 0 {
        lemma_all_uses(routes, m - 1);
        lemma_one_use(routes, m, 384);
        assert(routes[m - 1] < EXPERTS);
    } else {
        lemma_no_use(routes, 384);
    }
}

proof fn lemma_groups(routes: Seq<u32>, n: int)
    ensures
        all_uses(routes, routes.len() as int, n) <= 16 * used_groups(routes, n),
        16 * used_groups(routes, n) <= all_uses(routes, routes.len() as int, n) + 15
            * used_experts(routes, n),
    decreases n,
{
    if n > 0 {
        lemma_groups(routes, n - 1);
        lemma_uses_bound(routes, n - 1, routes.len() as int);
    }
}

/// The groups hold every route, sixteen to a group, and each expert leaves at most one
/// of its groups partly empty.
pub proof fn law_groups_hold_every_route(routes: Seq<u32>)
    requires
        !stray_route(routes),
    ensures
        routes.len() <= 16 * used_groups(routes, 384),
        16 * used_groups(routes, 384) <= routes.len() + 15 * routes.to_set().len(),
{
    lemma_groups(routes, 384);
    lemma_all_uses(routes, routes.len() as int);
    law_distinct_experts_are_named(routes);
}

/// The routes of a layer are its rows' routes in their order, six of each row.
pub proof fn law_rows_keep_their_routes(rows: Seq<[u32; 6]>, row: int, route: int)
    requires
        0 <= row < rows.len(),
        0 <= route < 6,
    ensures
        routes_of(rows).len() == 6 * rows.len(),
        routes_of(rows)[6 * row + route] == rows[row]@[route],
{
    assert((6 * row + route) / 6 == row && (6 * row + route) % 6 == route);
}

} // verus!
