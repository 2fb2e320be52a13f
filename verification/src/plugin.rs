//! The plugin-reachability walk: marking every unit that is, directly or
//! transitively, an input to something requiring the host architecture. The
//! walk visits each (unit, flag) state at most once — a unit may legitimately
//! be visited both under a plain and under a plugin context — the marked set
//! only ever grows, and it is exactly the set of plugin-reachable units, so
//! membership never depends on visitation order.

use vstd::prelude::*;

use crate::graph::{
    graph_at, graph_closed, graph_contains_key, lemma_unit_code_injective, lemma_unit_code_range,
    unit_code, units_contain, UnitGraph,
};
use crate::model::{Arena, Unit};
use vstd::set_lib::{lemma_int_range, lemma_len_subset, set_int_range};

verus! {

/// The unit's own target requires the host architecture.
pub open spec fn seeded(arena: Arena, u: Unit) -> bool {
    arena.targets@[u.target as int].for_host
}

/// Executable twin of `seeded`.
fn seeded_exec(arena: &Arena, u: &Unit) -> (r: bool)
    requires
        arena.unit_wf(*u),
    ensures
        r == seeded(*arena, *u),
{
    arena.targets[u.target].for_host
}

/// The walk from the roots visits unit `w` with plugin flag `f` within `n`
/// steps: a root starts with its own host-requirement; each dependency edge
/// propagates the flag, newly set when the dependency itself requires the
/// host.
pub open spec fn state_reached(
    g: Seq<(Unit, Seq<Unit>)>,
    arena: Arena,
    roots: Seq<Unit>,
    w: Unit,
    f: bool,
    n: nat,
) -> bool
    decreases n,
{
    (exists|i: int| 0 <= i < roots.len() && roots[i] == w && f == seeded(arena, w)) || (n > 0
        && exists|w2: Unit|
        #[trigger] graph_at(g, w2).contains(w) && ((state_reached(
            g,
            arena,
            roots,
            w2,
            true,
            (n - 1) as nat,
        ) && f) || (state_reached(g, arena, roots, w2, false, (n - 1) as nat) && f == seeded(
            arena,
            w,
        ))))
}

/// The walk visits unit `w` with flag `f` after some number of steps.
pub open spec fn state_reachable(
    g: Seq<(Unit, Seq<Unit>)>,
    arena: Arena,
    roots: Seq<Unit>,
    w: Unit,
    f: bool,
) -> bool {
    exists|n: nat| state_reached(g, arena, roots, w, f, n)
}

/// The unit is an input, directly or transitively, to something requiring
/// the host architecture.
pub open spec fn plugin_marked(
    g: Seq<(Unit, Seq<Unit>)>,
    arena: Arena,
    roots: Seq<Unit>,
    u: Unit,
) -> bool {
    state_reachable(g, arena, roots, u, true)
}

proof fn lemma_state_root(g: Seq<(Unit, Seq<Unit>)>, arena: Arena, roots: Seq<Unit>, i: int)
    requires
        0 <= i < roots.len(),
    ensures
        state_reachable(g, arena, roots, roots[i], seeded(arena, roots[i])),
{
    assert(state_reached(g, arena, roots, roots[i], seeded(arena, roots[i]), 0));
}

proof fn lemma_state_step(
    g: Seq<(Unit, Seq<Unit>)>,
    arena: Arena,
    roots: Seq<Unit>,
    w2: Unit,
    f2: bool,
    w: Unit,
    f: bool,
)
    requires
        state_reachable(g, arena, roots, w2, f2),
        graph_at(g, w2).contains(w),
        f == (f2 || seeded(arena, w)),
    ensures
        state_reachable(g, arena, roots, w, f),
{
    let n = choose|n: nat| state_reached(g, arena, roots, w2, f2, n);
    let m: nat = n + 1;
    assert((m - 1) as nat == n);
    assert(state_reached(g, arena, roots, w2, f2, (m - 1) as nat));
    if f2 {
        assert(graph_at(g, w2).contains(w) && (state_reached(
            g,
            arena,
            roots,
            w2,
            true,
            (m - 1) as nat,
        ) && f));
    } else {
        assert(graph_at(g, w2).contains(w) && (state_reached(
            g,
            arena,
            roots,
            w2,
            false,
            (m - 1) as nat,
        ) && f == seeded(arena, w)));
    }
    assert(state_reached(g, arena, roots, w, f, m));
}

/// A list of pairwise distinct (unit, flag) states over well-formed units is
/// no longer than twice the number of well-formed units.
proof fn lemma_state_count(arena: Arena, v: Seq<(Unit, bool)>)
    requires
        forall|a: int, b: int| 0 <= a < b < v.len() ==> v[a] != v[b],
        forall|k: int| 0 <= k < v.len() ==> arena.unit_wf((#[trigger] v[k]).0),
    ensures
        v.len() <= arena.packages@.len() * arena.targets@.len() * arena.profiles@.len() * 2 * 2,
{
    let n = arena.packages@.len() as int;
    let t = arena.targets@.len() as int;
    let p = arena.profiles@.len() as int;
    let cs = Seq::new(
        v.len(),
        |i: int| unit_code(v[i].0, t, p) * 2 + (if v[i].1 {
            1int
        } else {
            0int
        }),
    );
    assert forall|i: int, j: int| 0 <= i < cs.len() && 0 <= j < cs.len() && i != j implies cs[i]
        != cs[j] by {
        if v[i].0 != v[j].0 {
            if i < j {
                lemma_unit_code_injective(v[i].0, v[j].0, t, p);
            } else {
                lemma_unit_code_injective(v[j].0, v[i].0, t, p);
            }
        } else {
            assert(v[i].1 != v[j].1) by {
                if i < j {
                    assert(v[i] != v[j]);
                } else {
                    assert(v[j] != v[i]);
                }
            }
        }
    }
    assert(cs.no_duplicates());
    cs.unique_seq_to_set();
    assert forall|c: int| cs.to_set().contains(c) implies set_int_range(
        0,
        n * t * p * 2 * 2,
    ).contains(c) by {
        let i = choose|i: int| 0 <= i < cs.len() && cs[i] == c;
        lemma_unit_code_range(v[i].0, n, t, p);
    }
    assert(cs.to_set().subset_of(set_int_range(0, n * t * p * 2 * 2)));
    lemma_int_range(0, n * t * p * 2 * 2);
    lemma_len_subset(cs.to_set(), set_int_range(0, n * t * p * 2 * 2));
}

/// The state stands in the visited list or on the work list.
spec fn in_vs(v: Seq<(Unit, bool)>, s: Seq<(Unit, bool)>, w: Unit, f: bool) -> bool {
    v.contains((w, f)) || s.contains((w, f))
}

/// A visited set that holds every root state and is closed under dependency
/// edges holds every reachable state.
proof fn lemma_walk_complete(
    g: Seq<(Unit, Seq<Unit>)>,
    arena: Arena,
    roots: Seq<Unit>,
    visited: Seq<(Unit, bool)>,
    w: Unit,
    f: bool,
    n: nat,
)
    requires
        forall|i: int|
            0 <= i < roots.len() ==> visited.contains(
                (#[trigger] roots[i], seeded(arena, roots[i])),
            ),
        forall|a: int, d: Unit|
            0 <= a < visited.len() && #[trigger] graph_at(g, visited[a].0).contains(d)
                ==> visited.contains((d, visited[a].1 || seeded(arena, d))),
        state_reached(g, arena, roots, w, f, n),
    ensures
        visited.contains((w, f)),
    decreases n,
{
    if exists|i: int| 0 <= i < roots.len() && roots[i] == w && f == seeded(arena, w) {
        let i = choose|i: int| 0 <= i < roots.len() && roots[i] == w && f == seeded(arena, w);
        assert(visited.contains((roots[i], seeded(arena, roots[i]))));
    } else {
        let w2 = choose|w2: Unit|
            #[trigger] graph_at(g, w2).contains(w) && ((state_reached(
                g,
                arena,
                roots,
                w2,
                true,
                (n - 1) as nat,
            ) && f) || (state_reached(g, arena, roots, w2, false, (n - 1) as nat) && f == seeded(
                arena,
                w,
            )));
        if state_reached(g, arena, roots, w2, true, (n - 1) as nat) && f {
            lemma_walk_complete(g, arena, roots, visited, w2, true, (n - 1) as nat);
            let a = choose|a: int| 0 <= a < visited.len() && visited[a] == (w2, true);
            assert(graph_at(g, visited[a].0).contains(w));
            assert(visited.contains((w, visited[a].1 || seeded(arena, w))));
            assert(f == (true || seeded(arena, w)));
        } else {
            lemma_walk_complete(g, arena, roots, visited, w2, false, (n - 1) as nat);
            let a = choose|a: int| 0 <= a < visited.len() && visited[a] == (w2, false);
            assert(graph_at(g, visited[a].0).contains(w));
            assert(visited.contains((w, visited[a].1 || seeded(arena, w))));
            assert(f == (false || seeded(arena, w)));
        }
    }
}

/// Membership of a state in the visited list.
fn visited_contains(v: &Vec<(Unit, bool)>, w: Unit, f: bool) -> (r: bool)
    ensures
        r == v@.contains((w, f)),
{
    let n = v.len();
    let mut i: usize = 0;
    while i < n
        invariant
            n == v@.len(),
            i <= n,
            forall|k: int| 0 <= k < i ==> v@[k] != (w, f),
        decreases n - i,
    {
        if v[i].0 == w && v[i].1 == f {
            proof {
                assert(v@[i as int] == (w, f));
            }
            return true;
        }
        i = i + 1;
    }
    false
}

/// Walk the finished graph from the roots, inserting into `used` every unit
/// reachable through a host-requiring edge. Membership only grows; every new
/// member is genuinely plugin-reachable from the given roots; and every
/// plugin-reachable unit ends up a member, so the marked set never depends
/// on visitation order.
pub fn walk_used_in_plugin(
    graph: &UnitGraph,
    arena: &Arena,
    roots: &Vec<Unit>,
    used: &mut Vec<Unit>,
)
    requires
        forall|i: int| 0 <= i < graph@.len() ==> arena.unit_wf((#[trigger] graph@[i]).0),
        graph_closed(graph@),
        forall|i: int| 0 <= i < roots@.len() ==> arena.unit_wf(#[trigger] roots@[i]),
        old(used)@.no_duplicates(),
    ensures
        final(used)@.no_duplicates(),
        forall|u: Unit| old(used)@.contains(u) ==> final(used)@.contains(u),
        forall|u: Unit|
            final(used)@.contains(u) ==> old(used)@.contains(u) || plugin_marked(
                graph@,
                *arena,
                roots@,
                u,
            ),
        forall|u: Unit|
            plugin_marked(graph@, *arena, roots@, u) ==> final(used)@.contains(u),
{
    let ghost total2: int = (arena.packages@.len() * arena.targets@.len()
        * arena.profiles@.len() * 2 * 2) as int;
    let mut visited: Vec<(Unit, bool)> = Vec::new();
    let mut stack: Vec<(Unit, bool)> = Vec::new();
    let nr = roots.len();
    let mut i: usize = 0;
    while i < nr
        invariant
            nr == roots@.len(),
            i <= nr,
            forall|k: int| 0 <= k < roots@.len() ==> arena.unit_wf(#[trigger] roots@[k]),
            forall|k: int|
                0 <= k < stack@.len() ==> arena.unit_wf((#[trigger] stack@[k]).0)
                    && state_reachable(graph@, *arena, roots@, stack@[k].0, stack@[k].1),
            forall|k: int|
                0 <= k < i ==> stack@.contains(
                    (#[trigger] roots@[k], seeded(*arena, roots@[k])),
                ),
        decreases nr - i,
    {
        let f = seeded_exec(arena, &roots[i]);
        let ghost pre = stack@;
        proof {
            lemma_state_root(graph@, *arena, roots@, i as int);
        }
        stack.push((roots[i], f));
        proof {
            assert forall|k: int| 0 <= k < i + 1 implies stack@.contains(
                (#[trigger] roots@[k], seeded(*arena, roots@[k])),
            ) by {
                if k < i {
                    let k2 = choose|k2: int|
                        0 <= k2 < pre.len() && pre[k2] == (roots@[k], seeded(
                            *arena,
                            roots@[k],
                        ));
                    assert(stack@[k2] == (roots@[k], seeded(*arena, roots@[k])));
                } else {
                    assert(stack@[stack@.len() - 1] == (roots@[k], seeded(*arena, roots@[k])));
                }
            }
        }
        i = i + 1;
    }
    while stack.len() > 0
        invariant
            forall|k: int| 0 <= k < graph@.len() ==> arena.unit_wf((#[trigger] graph@[k]).0),
            graph_closed(graph@),
            total2 == (arena.packages@.len() * arena.targets@.len() * arena.profiles@.len() * 2
                * 2) as int,
            forall|a: int, b: int| 0 <= a < b < visited@.len() ==> visited@[a] != visited@[b],
            forall|k: int| 0 <= k < visited@.len() ==> arena.unit_wf((#[trigger] visited@[k]).0),
            visited@.len() <= total2,
            forall|k: int|
                0 <= k < stack@.len() ==> arena.unit_wf((#[trigger] stack@[k]).0)
                    && state_reachable(graph@, *arena, roots@, stack@[k].0, stack@[k].1),
            used@.no_duplicates(),
            forall|u: Unit| old(used)@.contains(u) ==> used@.contains(u),
            forall|u: Unit|
                used@.contains(u) ==> old(used)@.contains(u) || plugin_marked(
                    graph@,
                    *arena,
                    roots@,
                    u,
                ),
            forall|k: int|
                0 <= k < roots@.len() ==> in_vs(
                    visited@,
                    stack@,
                    #[trigger] roots@[k],
                    seeded(*arena, roots@[k]),
                ),
            forall|a: int, d: Unit|
                0 <= a < visited@.len() && #[trigger] graph_at(
                    graph@,
                    visited@[a].0,
                ).contains(d) ==> in_vs(
                    visited@,
                    stack@,
                    d,
                    visited@[a].1 || seeded(*arena, d),
                ),
            forall|a: int|
                0 <= a < visited@.len() && (#[trigger] visited@[a]).1 ==> used@.contains(
                    visited@[a].0,
                ),
        decreases total2 - visited@.len(), stack@.len(),
    {
        let ghost old_stack = stack@;
        let ghost old_visited = visited@;
        let ghost iter_used = used@;
        let top = stack[stack.len() - 1];
        let w = top.0;
        let f = top.1;
        proof {
            assert(stack@[stack@.len() - 1] == top);
        }
        stack.pop();
        let ghost mid_stack = stack@;
        proof {
            assert forall|x: (Unit, bool)| old_stack.contains(x) implies x == (w, f)
                || mid_stack.contains(x) by {
                let k = choose|k: int| 0 <= k < old_stack.len() && old_stack[k] == x;
                if k < old_stack.len() - 1 {
                    assert(mid_stack[k] == x);
                }
            }
        }
        if visited_contains(&visited, w, f) {
            proof {
                assert forall|k: int| 0 <= k < roots@.len() implies in_vs(
                    visited@,
                    stack@,
                    #[trigger] roots@[k],
                    seeded(*arena, roots@[k]),
                ) by {
                    let st = (roots@[k], seeded(*arena, roots@[k]));
                    if old_stack.contains(st) {
                        if st == (w, f) {
                            assert(visited@.contains(st));
                        }
                    }
                }
                assert forall|a: int, d: Unit|
                    0 <= a < visited@.len() && #[trigger] graph_at(
                        graph@,
                        visited@[a].0,
                    ).contains(d) implies in_vs(
                    visited@,
                    stack@,
                    d,
                    visited@[a].1 || seeded(*arena, d),
                ) by {
                    let st = (d, visited@[a].1 || seeded(*arena, d));
                    if old_stack.contains(st) {
                        if st == (w, f) {
                            assert(visited@.contains(st));
                        }
                    }
                }
            }
            continue;
        }
        proof {
            let ghost pushed = visited@.push((w, f));
            assert forall|a: int, b: int| 0 <= a < b < pushed.len() implies pushed[a]
                != pushed[b] by {
                if b == pushed.len() - 1 {
                    assert(visited@.contains(visited@[a])) by {
                        assert(visited@[a] == visited@[a]);
                    }
                }
            }
            lemma_state_count(*arena, pushed);
        }
        visited.push((w, f));
        proof {
            assert(visited@ =~= old_visited.push((w, f)));
            assert forall|x: (Unit, bool)| old_visited.contains(x) implies visited@.contains(
                x,
            ) by {
                let k = choose|k: int| 0 <= k < old_visited.len() && old_visited[k] == x;
                assert(visited@[k] == x);
            }
            assert(visited@.contains((w, f))) by {
                assert(visited@[visited@.len() - 1] == (w, f));
            }
        }
        if f {
            if !units_contain(used, &w) {
                let ghost pre = used@;
                proof {
                    assert(state_reachable(graph@, *arena, roots@, w, true));
                    let ghost pushed = pre.push(w);
                    assert forall|a: int, b: int| 0 <= a < b < pushed.len() implies pushed[a]
                        != pushed[b] by {
                        if b == pushed.len() - 1 {
                            assert(pre.contains(pre[a])) by {
                                assert(pre[a] == pre[a]);
                            }
                        }
                    }
                }
                used.push(w);
                proof {
                    assert(used@ =~= pre.push(w));
                    assert forall|u: Unit| used@.contains(u) implies old(used)@.contains(u)
                        || plugin_marked(graph@, *arena, roots@, u) by {
                        let k = choose|k: int| 0 <= k < used@.len() && used@[k] == u;
                        if k < used@.len() - 1 {
                            assert(pre[k] == u);
                            assert(pre.contains(u));
                        } else {
                            assert(u == w);
                        }
                    }
                    assert forall|u: Unit| pre.contains(u) implies used@.contains(u) by {
                        let k = choose|k: int| 0 <= k < pre.len() && pre[k] == u;
                        assert(used@[k] == u);
                    }
                    assert(used@.contains(w)) by {
                        assert(used@[used@.len() - 1] == w);
                    }
                }
            }
            proof {
                assert(used@.contains(w));
            }
        }
        proof {
            assert forall|u: Unit| iter_used.contains(u) implies used@.contains(u) by {}
        }
        match graph.get(&w) {
            Some(ds) => {
                let nd = ds.len();
                let mut j: usize = 0;
                while j < nd
                    invariant
                        forall|k: int|
                            0 <= k < graph@.len() ==> arena.unit_wf((#[trigger] graph@[k]).0),
                        graph_closed(graph@),
                        nd == ds@.len(),
                        j <= nd,
                        ds@ == graph_at(graph@, w),
                        graph_contains_key(graph@, w),
                        state_reachable(graph@, *arena, roots@, w, f),
                        forall|k: int|
                            0 <= k < stack@.len() ==> arena.unit_wf((#[trigger] stack@[k]).0)
                                && state_reachable(
                                graph@,
                                *arena,
                                roots@,
                                stack@[k].0,
                                stack@[k].1,
                            ),
                        forall|x: (Unit, bool)| mid_stack.contains(x) ==> stack@.contains(x),
                        forall|k: int|
                            0 <= k < j ==> stack@.contains(
                                (#[trigger] ds@[k], f || seeded(*arena, ds@[k])),
                            ),
                    decreases nd - j,
                {
                    let d = ds[j];
                    proof {
                        assert(graph_at(graph@, w).contains(d)) by {
                            assert(ds@[j as int] == d);
                        }
                        crate::graph::lemma_graph_find_props(graph@, w, 0);
                        let oi = crate::graph::graph_find(graph@, w, 0);
                        assert(oi is Some);
                        let idx = oi.unwrap();
                        assert(graph@[idx].1 == ds@);
                        assert(graph@[idx].1[j as int] == d);
                        assert(graph_contains_key(graph@, d));
                        assert(arena.unit_wf(d)) by {
                            let k = choose|k: int| 0 <= k < graph@.len() && graph@[k].0 == d;
                            assert(arena.unit_wf(graph@[k].0));
                        }
                    }
                    let sd = seeded_exec(arena, &d);
                    let fd = f || sd;
                    let ghost pre_stack = stack@;
                    proof {
                        lemma_state_step(graph@, *arena, roots@, w, f, d, fd);
                    }
                    stack.push((d, fd));
                    proof {
                        assert forall|x: (Unit, bool)| pre_stack.contains(x)
                            implies stack@.contains(x) by {
                            let k = choose|k: int| 0 <= k < pre_stack.len() && pre_stack[k] == x;
                            assert(stack@[k] == x);
                        }
                        assert(stack@.contains((d, fd))) by {
                            assert(stack@[stack@.len() - 1] == (d, fd));
                        }
                    }
                    j = j + 1;
                }
                proof {
                    restore_closure(
                        graph@,
                        *arena,
                        roots@,
                        old_visited,
                        visited@,
                        old_stack,
                        mid_stack,
                        stack@,
                        used@,
                        w,
                        f,
                        graph_at(graph@, w),
                    );
                }
            },
            None => {
                proof {
                    assert(graph_at(graph@, w) =~= Seq::<Unit>::empty()) by {
                        crate::graph::lemma_graph_find_props(graph@, w, 0);
                        if crate::graph::graph_find(graph@, w, 0) is Some {
                            let idx = crate::graph::graph_find(graph@, w, 0).unwrap();
                            assert(graph@[idx].0 == w);
                            assert(graph_contains_key(graph@, w));
                        }
                    }
                    assert forall|x: (Unit, bool)| mid_stack.contains(x)
                        implies stack@.contains(x) by {
                    }
                    restore_closure(
                        graph@,
                        *arena,
                        roots@,
                        old_visited,
                        visited@,
                        old_stack,
                        mid_stack,
                        stack@,
                        used@,
                        w,
                        f,
                        graph_at(graph@, w),
                    );
                }
            },
        }
    }
    proof {
        assert forall|u: Unit| plugin_marked(graph@, *arena, roots@, u) implies used@.contains(
            u,
        ) by {
            assert(stack@.len() == 0);
            assert forall|k: int| 0 <= k < roots@.len() implies visited@.contains(
                (#[trigger] roots@[k], seeded(*arena, roots@[k])),
            ) by {
                assert(in_vs(visited@, stack@, roots@[k], seeded(*arena, roots@[k])));
                let st = (roots@[k], seeded(*arena, roots@[k]));
                if stack@.contains(st) {
                    let k2 = choose|k2: int| 0 <= k2 < stack@.len() && stack@[k2] == st;
                }
            }
            assert forall|a: int, d: Unit|
                0 <= a < visited@.len() && #[trigger] graph_at(
                    graph@,
                    visited@[a].0,
                ).contains(d) implies visited@.contains(
                (d, visited@[a].1 || seeded(*arena, d)),
            ) by {
                let st = (d, visited@[a].1 || seeded(*arena, d));
                assert(in_vs(visited@, stack@, d, visited@[a].1 || seeded(*arena, d)));
                if stack@.contains(st) {
                    let k2 = choose|k2: int| 0 <= k2 < stack@.len() && stack@[k2] == st;
                }
            }
            let n = choose|n: nat| state_reached(graph@, *arena, roots@, u, true, n);
            lemma_walk_complete(graph@, *arena, roots@, visited@, u, true, n);
            let a = choose|a: int| 0 <= a < visited@.len() && visited@[a] == (u, true);
            assert(used@.contains(visited@[a].0));
        }
    }
}

/// After one expansion step the root and successor closure over the visited
/// list and work list is restored: the freshly visited state's successors
/// were all pushed, and every other state that stood on the old work list
/// either still stands there or is the freshly visited state itself.
proof fn restore_closure(
    g: Seq<(Unit, Seq<Unit>)>,
    arena: Arena,
    roots: Seq<Unit>,
    old_visited: Seq<(Unit, bool)>,
    visited: Seq<(Unit, bool)>,
    old_stack: Seq<(Unit, bool)>,
    mid_stack: Seq<(Unit, bool)>,
    stack: Seq<(Unit, bool)>,
    used: Seq<Unit>,
    w: Unit,
    f: bool,
    ws: Seq<Unit>,
)
    requires
        visited =~= old_visited.push((w, f)),
        forall|x: (Unit, bool)| old_stack.contains(x) ==> x == (w, f) || mid_stack.contains(x),
        forall|x: (Unit, bool)| mid_stack.contains(x) ==> stack.contains(x),
        ws == graph_at(g, w),
        forall|k: int|
            0 <= k < ws.len() ==> stack.contains((#[trigger] ws[k], f || seeded(arena, ws[k]))),
        forall|k: int|
            0 <= k < roots.len() ==> in_vs(
                old_visited,
                old_stack,
                #[trigger] roots[k],
                seeded(arena, roots[k]),
            ),
        forall|a: int, d: Unit|
            0 <= a < old_visited.len() && #[trigger] graph_at(g, old_visited[a].0).contains(d)
                ==> in_vs(old_visited, old_stack, d, old_visited[a].1 || seeded(arena, d)),
        forall|a: int|
            0 <= a < old_visited.len() && (#[trigger] old_visited[a]).1 ==> used.contains(
                old_visited[a].0,
            ),
        f ==> used.contains(w),
    ensures
        forall|k: int|
            0 <= k < roots.len() ==> in_vs(
                visited,
                stack,
                #[trigger] roots[k],
                seeded(arena, roots[k]),
            ),
        forall|a: int, d: Unit|
            0 <= a < visited.len() && #[trigger] graph_at(g, visited[a].0).contains(d)
                ==> in_vs(visited, stack, d, visited[a].1 || seeded(arena, d)),
        forall|a: int|
            0 <= a < visited.len() && (#[trigger] visited[a]).1 ==> used.contains(visited[a].0),
{
    assert forall|x: (Unit, bool)| old_visited.contains(x) implies visited.contains(x) by {
        let k = choose|k: int| 0 <= k < old_visited.len() && old_visited[k] == x;
        assert(visited[k] == x);
    }
    assert(visited.contains((w, f))) by {
        assert(visited[visited.len() - 1] == (w, f));
    }
    assert forall|k: int| 0 <= k < roots.len() implies in_vs(
        visited,
        stack,
        #[trigger] roots[k],
        seeded(arena, roots[k]),
    ) by {
        let st = (roots[k], seeded(arena, roots[k]));
        if old_visited.contains(st) {
        } else {
            assert(old_stack.contains(st));
            if st == (w, f) {
            } else {
                assert(mid_stack.contains(st));
            }
        }
    }
    assert forall|a: int, d: Unit|
        0 <= a < visited.len() && #[trigger] graph_at(g, visited[a].0).contains(d) implies in_vs(
        visited,
        stack,
        d,
        visited[a].1 || seeded(arena, d),
    ) by {
        if a < visited.len() - 1 {
            assert(visited[a] == old_visited[a]);
            let st = (d, old_visited[a].1 || seeded(arena, d));
            assert(in_vs(old_visited, old_stack, d, old_visited[a].1 || seeded(arena, d)));
            if old_visited.contains(st) {
            } else {
                assert(old_stack.contains(st));
                if st == (w, f) {
                } else {
                    assert(mid_stack.contains(st));
                }
            }
        } else {
            assert(visited[a] == (w, f));
            assert(ws.contains(d));
            let k = choose|k: int| 0 <= k < ws.len() && ws[k] == d;
            assert(stack.contains((ws[k], f || seeded(arena, ws[k]))));
        }
    }
    assert forall|a: int| 0 <= a < visited.len() && (#[trigger] visited[a]).1 implies
        used.contains(visited[a].0) by {
        if a < visited.len() - 1 {
            assert(visited[a] == old_visited[a]);
        } else {
            assert(visited[a] == (w, f));
        }
    }
}

} // verus!
