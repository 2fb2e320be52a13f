//! The unit dependency graph: expansion of the requested root units into the
//! complete transitive graph, honoring platform-gated dependencies,
//! host-architecture forcing, build-script overrides and edge deduplication.
//! The graph is an association list from units to ordered dependency lists;
//! packages are topologically indexed, so every edge strictly decreases the
//! package index and the graph is acyclic by construction.

use vstd::prelude::*;

use crate::cfgs::{platform_matches, platform_matches_exec, Cfg};
use crate::model::{Arena, DepModel, Kind, Unit};
use vstd::set_lib::{lemma_len_subset, lemma_int_range, set_int_range};

verus! {

/// View of the association list: each unit with its dependency sequence.
pub open spec fn entry_views(s: Seq<(Unit, Vec<Unit>)>) -> Seq<(Unit, Seq<Unit>)> {
    s.map_values(|e: (Unit, Vec<Unit>)| (e.0, e.1@))
}

/// The unit is a key of the graph.
pub open spec fn graph_contains_key(g: Seq<(Unit, Seq<Unit>)>, u: Unit) -> bool {
    exists|i: int| 0 <= i < g.len() && g[i].0 == u
}

/// First entry for the unit at or after position `k`.
pub open spec fn graph_find(g: Seq<(Unit, Seq<Unit>)>, u: Unit, k: int) -> Option<int>
    decreases g.len() - k,
{
    if k < 0 || k >= g.len() {
        None
    } else if g[k].0 == u {
        Some(k)
    } else {
        graph_find(g, u, k + 1)
    }
}

/// The dependency list recorded for the unit; empty when it is no key.
pub open spec fn graph_at(g: Seq<(Unit, Seq<Unit>)>, u: Unit) -> Seq<Unit> {
    match graph_find(g, u, 0) {
        Some(i) => g[i].1,
        None => Seq::empty(),
    }
}

/// Keys are pairwise distinct.
pub open spec fn graph_keys_unique(g: Seq<(Unit, Seq<Unit>)>) -> bool {
    forall|i: int, j: int| 0 <= i < j < g.len() ==> (#[trigger] g[i]).0 != (#[trigger] g[j]).0
}

/// Every dependency of a key is itself a key.
pub open spec fn graph_closed(g: Seq<(Unit, Seq<Unit>)>) -> bool {
    forall|i: int, j: int|
        0 <= i < g.len() && 0 <= j < g[i].1.len() ==> graph_contains_key(
            g,
            #[trigger] g[i].1[j],
        )
}

/// Every edge strictly decreases the package index.
pub open spec fn graph_edges_decrease(g: Seq<(Unit, Seq<Unit>)>) -> bool {
    forall|i: int, j: int|
        0 <= i < g.len() && 0 <= j < g[i].1.len() ==> (#[trigger] g[i].1[j]).pkg < g[i].0.pkg
}

pub proof fn lemma_graph_find_props(g: Seq<(Unit, Seq<Unit>)>, u: Unit, k: int)
    requires
        0 <= k,
    ensures
        match graph_find(g, u, k) {
            Some(i) => k <= i < g.len() && g[i].0 == u,
            None => forall|i: int| k <= i < g.len() ==> (#[trigger] g[i]).0 != u,
        },
    decreases g.len() - k,
{
    if k >= g.len() {
    } else if g[k].0 == u {
    } else {
        lemma_graph_find_props(g, u, k + 1);
    }
}

/// The unit dependency graph, built once and queried read-only thereafter.
pub struct UnitGraph {
    pub entries: Vec<(Unit, Vec<Unit>)>,
}

impl View for UnitGraph {
    type V = Seq<(Unit, Seq<Unit>)>;

    open spec fn view(&self) -> Seq<(Unit, Seq<Unit>)> {
        entry_views(self.entries@)
    }
}

impl UnitGraph {
    /// Is the unit a key of the graph?
    pub fn contains_key(&self, u: &Unit) -> (r: bool)
        ensures
            r == graph_contains_key(self@, *u),
    {
        let n = self.entries.len();
        let mut i: usize = 0;
        while i < n
            invariant
                n == self.entries@.len(),
                i <= n,
                forall|k: int| 0 <= k < i ==> (#[trigger] self@[k]).0 != *u,
            decreases n - i,
        {
            if self.entries[i].0 == *u {
                proof {
                    assert(self@[i as int].0 == *u);
                }
                return true;
            }
            i = i + 1;
        }
        false
    }

    /// The dependency list recorded for the unit, if it is a key.
    pub fn get(&self, u: &Unit) -> (r: Option<&Vec<Unit>>)
        ensures
            match r {
                Some(d) => graph_contains_key(self@, *u) && d@ == graph_at(self@, *u),
                None => !graph_contains_key(self@, *u),
            },
    {
        let n = self.entries.len();
        let mut i: usize = 0;
        while i < n
            invariant
                n == self.entries@.len(),
                i <= n,
                graph_find(self@, *u, 0) == graph_find(self@, *u, i as int),
            decreases n - i,
        {
            if self.entries[i].0 == *u {
                proof {
                    assert(self@[i as int].0 == *u);
                    assert(graph_find(self@, *u, i as int) == Some(i as int));
                }
                return Some(&self.entries[i].1);
            }
            proof {
                assert(self@[i as int].0 != *u);
            }
            i = i + 1;
        }
        proof {
            lemma_graph_find_props(self@, *u, 0);
        }
        None
    }
}

/// The unit a dependency resolves to: the dependency package's library
/// target, built with the dependency profile, forced to the host kind when
/// that target itself must run on the build machine.
pub open spec fn dep_unit_of(arena: Arena, d: DepModel, consumer_kind: Kind, lib_profile: usize) -> Unit {
    let lt = arena.packages@[d.pkg as int].lib_target;
    Unit {
        pkg: d.pkg,
        target: lt,
        profile: lib_profile,
        kind: if arena.targets@[lt as int].for_host {
            Kind::Host
        } else {
            consumer_kind
        },
    }
}

/// A dependency is active for the consuming kind: an unconditional
/// dependency always is; a platform-gated one only when its predicate
/// matches the consuming kind's triple and active configuration.
pub open spec fn dep_active(
    d: DepModel,
    kind: Kind,
    host: Seq<char>,
    target: Seq<char>,
    hc: Option<Seq<Cfg>>,
    tc: Option<Seq<Cfg>>,
) -> bool {
    match d.platform {
        None => true,
        Some(p) => match kind {
            Kind::Host => platform_matches(p, host, hc),
            Kind::Target => platform_matches(p, target, tc),
        },
    }
}

/// One step of the dependency expansion for a unit: dependencies before `k`
/// already accumulated (deduplicated) in `acc`.
pub open spec fn deps_loop(
    arena: Arena,
    deps: Seq<DepModel>,
    k: int,
    kind: Kind,
    lib_profile: usize,
    host: Seq<char>,
    target: Seq<char>,
    hc: Option<Seq<Cfg>>,
    tc: Option<Seq<Cfg>>,
    acc: Seq<Unit>,
) -> Seq<Unit>
    decreases deps.len() - k,
{
    if k < 0 || k >= deps.len() {
        acc
    } else if dep_active(deps[k], kind, host, target, hc, tc) {
        let du = dep_unit_of(arena, deps[k], kind, lib_profile);
        if acc.contains(du) {
            deps_loop(arena, deps, k + 1, kind, lib_profile, host, target, hc, tc, acc)
        } else {
            deps_loop(arena, deps, k + 1, kind, lib_profile, host, target, hc, tc, acc.push(du))
        }
    } else {
        deps_loop(arena, deps, k + 1, kind, lib_profile, host, target, hc, tc, acc)
    }
}

/// The dependency list of one unit: empty when the unit is an overridden
/// custom-build run; otherwise its package's active dependencies, in
/// declaration order, deduplicated.
pub open spec fn unit_deps_spec(
    arena: Arena,
    u: Unit,
    lib_profile: usize,
    overrides: Seq<(usize, Kind)>,
    host: Seq<char>,
    target: Seq<char>,
    hc: Option<Seq<Cfg>>,
    tc: Option<Seq<Cfg>>,
) -> Seq<Unit> {
    if arena.profiles@[u.profile as int].run_custom_build && overrides.contains((u.pkg, u.kind)) {
        Seq::empty()
    } else {
        deps_loop(
            arena,
            arena.packages@[u.pkg as int].deps@,
            0,
            u.kind,
            lib_profile,
            host,
            target,
            hc,
            tc,
            Seq::empty(),
        )
    }
}

/// An overridden custom-build unit has no dependencies: the override
/// supersedes any further discovery.
pub proof fn lemma_override_no_deps(
    arena: Arena,
    u: Unit,
    lib_profile: usize,
    overrides: Seq<(usize, Kind)>,
    host: Seq<char>,
    target: Seq<char>,
    hc: Option<Seq<Cfg>>,
    tc: Option<Seq<Cfg>>,
)
    requires
        arena.profiles@[u.profile as int].run_custom_build,
        overrides.contains((u.pkg, u.kind)),
    ensures
        unit_deps_spec(arena, u, lib_profile, overrides, host, target, hc, tc)
            == Seq::<Unit>::empty(),
{
}

/// Membership of a (package, kind) pair in the override set.
pub fn override_contains(overrides: &Vec<(usize, Kind)>, pkg: usize, kind: Kind) -> (r: bool)
    ensures
        r == overrides@.contains((pkg, kind)),
{
    let n = overrides.len();
    let mut i: usize = 0;
    while i < n
        invariant
            n == overrides@.len(),
            i <= n,
            forall|k: int| 0 <= k < i ==> overrides@[k] != (pkg, kind),
        decreases n - i,
    {
        if overrides[i].0 == pkg && overrides[i].1 == kind {
            proof {
                assert(overrides@[i as int] == (pkg, kind));
            }
            return true;
        }
        i = i + 1;
    }
    false
}

/// Membership of a unit in a unit list.
pub fn units_contain(v: &Vec<Unit>, u: &Unit) -> (r: bool)
    ensures
        r == v@.contains(*u),
{
    let n = v.len();
    let mut i: usize = 0;
    while i < n
        invariant
            n == v@.len(),
            i <= n,
            forall|k: int| 0 <= k < i ==> v@[k] != *u,
        decreases n - i,
    {
        if v[i] == *u {
            proof {
                assert(v@[i as int] == *u);
            }
            return true;
        }
        i = i + 1;
    }
    false
}

/// Compute the dependency list of one unit.
pub fn compute_unit_deps(
    arena: &Arena,
    u: Unit,
    lib_profile: usize,
    overrides: &Vec<(usize, Kind)>,
    host_triple: &str,
    target_triple: &str,
    host_cfg: Option<&Vec<Cfg>>,
    target_cfg: Option<&Vec<Cfg>>,
) -> (r: Vec<Unit>)
    requires
        arena.wf(),
        arena.unit_wf(u),
        lib_profile < arena.profiles@.len(),
    ensures
        r@ == unit_deps_spec(
            *arena,
            u,
            lib_profile,
            overrides@,
            host_triple@,
            target_triple@,
            match host_cfg {
                Some(c) => Some(c@),
                None => None,
            },
            match target_cfg {
                Some(c) => Some(c@),
                None => None,
            },
        ),
        forall|j: int|
            0 <= j < r@.len() ==> arena.unit_wf(#[trigger] r@[j]) && r@[j].pkg < u.pkg
                && r@[j].profile == lib_profile,
        r@.no_duplicates(),
{
    let ghost hcv: Option<Seq<Cfg>> = match host_cfg {
        Some(c) => Some(c@),
        None => None,
    };
    let ghost tcv: Option<Seq<Cfg>> = match target_cfg {
        Some(c) => Some(c@),
        None => None,
    };
    let run_custom = arena.profiles[u.profile].run_custom_build;
    if run_custom && override_contains(overrides, u.pkg, u.kind) {
        let r: Vec<Unit> = Vec::new();
        return r;
    }
    proof {
        assert(arena.pkg_wf(u.pkg as int));
    }
    let deps = &arena.packages[u.pkg].deps;
    let n = deps.len();
    let mut acc: Vec<Unit> = Vec::new();
    let mut k: usize = 0;
    while k < n
        invariant
            arena.wf(),
            arena.unit_wf(u),
            arena.pkg_wf(u.pkg as int),
            lib_profile < arena.profiles@.len(),
            deps == &arena.packages@[u.pkg as int].deps,
            n == deps@.len(),
            k <= n,
            hcv == match host_cfg {
                Some(c) => Some(c@),
                None => None,
            },
            tcv == match target_cfg {
                Some(c) => Some(c@),
                None => None,
            },
            deps_loop(
                *arena,
                deps@,
                0,
                u.kind,
                lib_profile,
                host_triple@,
                target_triple@,
                hcv,
                tcv,
                Seq::empty(),
            ) == deps_loop(
                *arena,
                deps@,
                k as int,
                u.kind,
                lib_profile,
                host_triple@,
                target_triple@,
                hcv,
                tcv,
                acc@,
            ),
            forall|j: int|
                0 <= j < acc@.len() ==> arena.unit_wf(#[trigger] acc@[j]) && acc@[j].pkg < u.pkg
                    && acc@[j].profile == lib_profile,
            acc@.no_duplicates(),
        decreases n - k,
    {
        let d = &deps[k];
        let active = match &d.platform {
            None => true,
            Some(p) => match u.kind {
                Kind::Host => platform_matches_exec(p, host_triple, host_cfg),
                Kind::Target => platform_matches_exec(p, target_triple, target_cfg),
            },
        };
        proof {
            assert(active == dep_active(deps@[k as int], u.kind, host_triple@, target_triple@, hcv, tcv));
        }
        if active {
            proof {
                assert(deps@[k as int].pkg < u.pkg);
                assert(arena.pkg_wf(deps@[k as int].pkg as int));
            }
            let dpkg = d.pkg;
            let lt = arena.packages[dpkg].lib_target;
            let for_host = arena.targets[lt].for_host;
            let du = Unit {
                pkg: dpkg,
                target: lt,
                profile: lib_profile,
                kind: if for_host {
                    Kind::Host
                } else {
                    u.kind
                },
            };
            proof {
                assert(du == dep_unit_of(*arena, deps@[k as int], u.kind, lib_profile));
            }
            if !units_contain(&acc, &du) {
                acc.push(du);
            }
        }
        k = k + 1;
    }
    acc
}

/// Mixed-radix code of a unit: distinct well-formed units get distinct codes.
pub open spec fn unit_code(u: Unit, t: int, p: int) -> int {
    ((u.pkg * t + u.target) * p + u.profile) * 2 + (if u.kind is Host {
        0int
    } else {
        1int
    })
}

pub proof fn lemma_unit_code_range(u: Unit, n: int, t: int, p: int)
    requires
        0 <= u.pkg < n,
        0 <= u.target < t,
        0 <= u.profile < p,
    ensures
        0 <= unit_code(u, t, p) < n * t * p * 2,
{
    let pk = u.pkg as int;
    let tg = u.target as int;
    let pr = u.profile as int;
    let kd: int = if u.kind is Host {
        0
    } else {
        1
    };
    assert(0 <= ((pk * t + tg) * p + pr) * 2 + kd < n * t * p * 2) by (nonlinear_arith)
        requires
            0 <= pk < n,
            0 <= tg < t,
            0 <= pr < p,
            0 <= kd < 2,
    ;
}

pub proof fn lemma_unit_code_injective(a: Unit, b: Unit, t: int, p: int)
    requires
        a != b,
        a.target < t,
        a.profile < p,
        b.target < t,
        b.profile < p,
    ensures
        unit_code(a, t, p) != unit_code(b, t, p),
{
    let apk = a.pkg as int;
    let atg = a.target as int;
    let apr = a.profile as int;
    let akd: int = if a.kind is Host {
        0
    } else {
        1
    };
    let bpk = b.pkg as int;
    let btg = b.target as int;
    let bpr = b.profile as int;
    let bkd: int = if b.kind is Host {
        0
    } else {
        1
    };
    assert(((apk * t + atg) * p + apr) * 2 + akd != ((bpk * t + btg) * p + bpr) * 2 + bkd)
        by (nonlinear_arith)
        requires
            0 <= atg < t,
            0 <= apr < p,
            0 <= akd < 2,
            0 <= btg < t,
            0 <= bpr < p,
            0 <= bkd < 2,
            0 <= apk,
            0 <= bpk,
            !(apk == bpk && atg == btg && apr == bpr && akd == bkd),
    ;
    assert(apk == bpk && atg == btg && apr == bpr && akd == bkd ==> a == b) by {
        if apk == bpk && atg == btg && apr == bpr && akd == bkd {
            assert(a.kind == b.kind);
        }
    }
}

/// A graph with pairwise distinct, well-formed keys has at most as many
/// entries as there are well-formed units.
proof fn lemma_graph_len_bound(arena: Arena, g: Seq<(Unit, Seq<Unit>)>)
    requires
        graph_keys_unique(g),
        forall|i: int| 0 <= i < g.len() ==> arena.unit_wf((#[trigger] g[i]).0),
    ensures
        g.len() <= arena.packages@.len() * arena.targets@.len() * arena.profiles@.len() * 2,
{
    let n = arena.packages@.len() as int;
    let t = arena.targets@.len() as int;
    let p = arena.profiles@.len() as int;
    let cs = Seq::new(g.len(), |i: int| unit_code(g[i].0, t, p));
    assert forall|i: int, j: int| 0 <= i < cs.len() && 0 <= j < cs.len() && i != j implies cs[i]
        != cs[j] by {
        if i < j {
            lemma_unit_code_injective(g[i].0, g[j].0, t, p);
        } else {
            lemma_unit_code_injective(g[j].0, g[i].0, t, p);
        }
    }
    assert(cs.no_duplicates());
    cs.unique_seq_to_set();
    assert forall|c: int| cs.to_set().contains(c) implies set_int_range(0, n * t * p * 2).contains(
        c,
    ) by {
        let i = choose|i: int| 0 <= i < cs.len() && cs[i] == c;
        lemma_unit_code_range(g[i].0, n, t, p);
    }
    assert(cs.to_set().subset_of(set_int_range(0, n * t * p * 2)));
    lemma_int_range(0, n * t * p * 2);
    lemma_len_subset(cs.to_set(), set_int_range(0, n * t * p * 2));
}

/// Expand the root units into the complete transitive dependency graph.
///
/// The result maps every unit reachable from the roots to its dependency
/// list as `unit_deps_spec` gives it; keys are unique; every dependency of a
/// key is itself a key; and every edge strictly decreases the package index,
/// so the graph is acyclic.
pub fn build_unit_graph(
    arena: &Arena,
    roots: &Vec<Unit>,
    lib_profile: usize,
    overrides: &Vec<(usize, Kind)>,
    host_triple: &str,
    target_triple: &str,
    host_cfg: Option<&Vec<Cfg>>,
    target_cfg: Option<&Vec<Cfg>>,
) -> (g: UnitGraph)
    requires
        arena.wf(),
        forall|i: int| 0 <= i < roots@.len() ==> arena.unit_wf(#[trigger] roots@[i]),
        lib_profile < arena.profiles@.len(),
    ensures
        graph_keys_unique(g@),
        graph_closed(g@),
        graph_edges_decrease(g@),
        forall|i: int| 0 <= i < g@.len() ==> arena.unit_wf((#[trigger] g@[i]).0),
        forall|i: int|
            0 <= i < g@.len() ==> (#[trigger] g@[i]).1 == unit_deps_spec(
                *arena,
                g@[i].0,
                lib_profile,
                overrides@,
                host_triple@,
                target_triple@,
                match host_cfg {
                    Some(c) => Some(c@),
                    None => None,
                },
                match target_cfg {
                    Some(c) => Some(c@),
                    None => None,
                },
            ),
        forall|i: int| 0 <= i < roots@.len() ==> graph_contains_key(g@, #[trigger] roots@[i]),
{
    let ghost hcv: Option<Seq<Cfg>> = match host_cfg {
        Some(c) => Some(c@),
        None => None,
    };
    let ghost tcv: Option<Seq<Cfg>> = match target_cfg {
        Some(c) => Some(c@),
        None => None,
    };
    let ghost total: int = (arena.packages@.len() * arena.targets@.len()
        * arena.profiles@.len() * 2) as int;
    let mut gr = UnitGraph { entries: Vec::new() };
    let mut stack: Vec<Unit> = Vec::new();
    let nr = roots.len();
    let mut i: usize = 0;
    while i < nr
        invariant
            nr == roots@.len(),
            i <= nr,
            forall|k: int| 0 <= k < roots@.len() ==> arena.unit_wf(#[trigger] roots@[k]),
            stack@ =~= roots@.subrange(0, i as int),
        decreases nr - i,
    {
        stack.push(roots[i]);
        i = i + 1;
    }
    proof {
        assert(stack@ =~= roots@);
    }
    while stack.len() > 0
        invariant
            arena.wf(),
            lib_profile < arena.profiles@.len(),
            hcv == match host_cfg {
                Some(c) => Some(c@),
                None => None,
            },
            tcv == match target_cfg {
                Some(c) => Some(c@),
                None => None,
            },
            total == (arena.packages@.len() * arena.targets@.len() * arena.profiles@.len()
                * 2) as int,
            forall|k: int| 0 <= k < roots@.len() ==> arena.unit_wf(#[trigger] roots@[k]),
            forall|k: int| 0 <= k < stack@.len() ==> arena.unit_wf(#[trigger] stack@[k]),
            graph_keys_unique(gr@),
            forall|k: int| 0 <= k < gr@.len() ==> arena.unit_wf((#[trigger] gr@[k]).0),
            forall|k: int|
                0 <= k < gr@.len() ==> (#[trigger] gr@[k]).1 == unit_deps_spec(
                    *arena,
                    gr@[k].0,
                    lib_profile,
                    overrides@,
                    host_triple@,
                    target_triple@,
                    hcv,
                    tcv,
                ),
            forall|a: int, b: int|
                0 <= a < gr@.len() && 0 <= b < gr@[a].1.len() ==> (#[trigger] gr@[a].1[b]).pkg
                    < gr@[a].0.pkg,
            forall|a: int, b: int|
                0 <= a < gr@.len() && 0 <= b < gr@[a].1.len() ==> (graph_contains_key(
                    gr@,
                    #[trigger] gr@[a].1[b],
                ) || stack@.contains(gr@[a].1[b])),
            forall|k: int|
                0 <= k < roots@.len() ==> (graph_contains_key(gr@, #[trigger] roots@[k])
                    || stack@.contains(roots@[k])),
            gr@.len() <= total,
        decreases total - gr@.len(), stack@.len(),
    {
        let ghost old_gr = gr@;
        let ghost old_stack = stack@;
        let u = stack[stack.len() - 1];
        stack.pop();
        proof {
            assert(old_stack.contains(u)) by {
                assert(old_stack[old_stack.len() - 1] == u);
            }
            assert(arena.unit_wf(u));
            assert forall|y: Unit| stack@.contains(y) implies old_stack.contains(y) by {
                let k = choose|k: int| 0 <= k < stack@.len() && stack@[k] == y;
                assert(old_stack[k] == y);
            }
        }
        if gr.contains_key(&u) {
            proof {
                assert forall|a: int, b: int|
                    0 <= a < gr@.len() && 0 <= b < gr@[a].1.len() implies (graph_contains_key(
                    gr@,
                    #[trigger] gr@[a].1[b],
                ) || stack@.contains(gr@[a].1[b])) by {
                    if old_stack.contains(gr@[a].1[b]) {
                        let k = choose|k: int|
                            0 <= k < old_stack.len() && old_stack[k] == gr@[a].1[b];
                        if k < old_stack.len() - 1 {
                            assert(stack@[k] == gr@[a].1[b]);
                        } else {
                            assert(gr@[a].1[b] == u);
                        }
                    }
                }
                assert forall|k: int|
                    0 <= k < roots@.len() implies (graph_contains_key(gr@, #[trigger] roots@[k])
                    || stack@.contains(roots@[k])) by {
                    if old_stack.contains(roots@[k]) {
                        let k2 = choose|k2: int|
                            0 <= k2 < old_stack.len() && old_stack[k2] == roots@[k];
                        if k2 < old_stack.len() - 1 {
                            assert(stack@[k2] == roots@[k]);
                        } else {
                            assert(roots@[k] == u);
                        }
                    }
                }
            }
            continue;
        }
        let deps = compute_unit_deps(
            arena,
            u,
            lib_profile,
            overrides,
            host_triple,
            target_triple,
            host_cfg,
            target_cfg,
        );
        let nd = deps.len();
        let mut j: usize = 0;
        while j < nd
            invariant
                nd == deps@.len(),
                j <= nd,
                old_stack.len() >= 1,
                forall|k: int|
                    0 <= k < deps@.len() ==> arena.unit_wf(#[trigger] deps@[k]),
                forall|k: int| 0 <= k < stack@.len() ==> arena.unit_wf(#[trigger] stack@[k]),
                stack@.len() == old_stack.len() - 1 + j,
                forall|k: int| 0 <= k < old_stack.len() - 1 ==> stack@[k] == old_stack[k],
                forall|k: int| 0 <= k < j ==> stack@[old_stack.len() - 1 + k] == deps@[k],
            decreases nd - j,
        {
            let ghost pre = stack@;
            stack.push(deps[j]);
            proof {
                assert forall|k: int| 0 <= k < j + 1 implies stack@[old_stack.len() - 1 + k]
                    == deps@[k] by {
                    if k < j {
                        assert(stack@[old_stack.len() - 1 + k] == pre[old_stack.len() - 1 + k]);
                    } else {
                        assert(stack@[stack@.len() - 1] == deps@[j as int]);
                    }
                }
            }
            j = j + 1;
        }
        proof {
            // the new entry's unit is fresh, so key uniqueness is kept
            let new_entry = (u, deps);
            let ghost new_gr = old_gr.push((u, deps@));
            assert(entry_views(gr.entries@.push((u, deps))) =~= new_gr);
            assert(graph_keys_unique(new_gr)) by {
                assert forall|a: int, b: int|
                    0 <= a < b < new_gr.len() implies (#[trigger] new_gr[a]).0 != (
                #[trigger] new_gr[b]).0 by {
                    if b == new_gr.len() - 1 {
                        assert(!graph_contains_key(old_gr, u));
                        if new_gr[a].0 == u {
                            assert(graph_contains_key(old_gr, u));
                        }
                    }
                }
            }
            lemma_graph_len_bound(*arena, new_gr);
        }
        gr.entries.push((u, deps));
        proof {
            let new_gr = gr@;
            assert forall|a: int, b: int|
                0 <= a < new_gr.len() && 0 <= b < new_gr[a].1.len() implies (graph_contains_key(
                new_gr,
                #[trigger] new_gr[a].1[b],
            ) || stack@.contains(new_gr[a].1[b])) by {
                if a < new_gr.len() - 1 {
                    assert(new_gr[a] == old_gr[a]);
                    let d = new_gr[a].1[b];
                    if graph_contains_key(old_gr, d) {
                        let k = choose|k: int| 0 <= k < old_gr.len() && old_gr[k].0 == d;
                        assert(new_gr[k].0 == d);
                    } else {
                        assert(old_stack.contains(d));
                        let k = choose|k: int| 0 <= k < old_stack.len() && old_stack[k] == d;
                        if k < old_stack.len() - 1 {
                            assert(stack@[k] == d);
                        } else {
                            assert(d == u);
                            assert(new_gr[new_gr.len() - 1].0 == u);
                        }
                    }
                } else {
                    // the entry just added: its dependencies sit on the stack
                    assert(stack@[old_stack.len() - 1 + b] == new_gr[a].1[b]);
                }
            }
            assert forall|k: int|
                0 <= k < roots@.len() implies (graph_contains_key(gr@, #[trigger] roots@[k])
                || stack@.contains(roots@[k])) by {
                let r0 = roots@[k];
                if graph_contains_key(old_gr, r0) {
                    let k2 = choose|k2: int| 0 <= k2 < old_gr.len() && old_gr[k2].0 == r0;
                    assert(gr@[k2].0 == r0);
                } else {
                    assert(old_stack.contains(r0));
                    let k2 = choose|k2: int| 0 <= k2 < old_stack.len() && old_stack[k2] == r0;
                    if k2 < old_stack.len() - 1 {
                        assert(stack@[k2] == r0);
                    } else {
                        assert(r0 == u);
                        assert(gr@[gr@.len() - 1].0 == u);
                    }
                }
            }
            assert forall|a: int, b: int|
                0 <= a < gr@.len() && 0 <= b < gr@[a].1.len() implies (#[trigger] gr@[a].1[
            b]).pkg < gr@[a].0.pkg by {
                if a < gr@.len() - 1 {
                    assert(gr@[a] == old_gr[a]);
                }
            }
        }
    }
    proof {
        assert forall|i2: int| 0 <= i2 < roots@.len() implies graph_contains_key(
            gr@,
            #[trigger] roots@[i2],
        ) by {
            assert(stack@.len() == 0);
        }
    }
    gr
}

/// `v` is reachable from `u` by one or more dependency edges, along a path
/// of at most `n + 1` edges.
pub open spec fn reaches(g: Seq<(Unit, Seq<Unit>)>, u: Unit, v: Unit, n: nat) -> bool
    decreases n,
{
    graph_at(g, u).contains(v) || (n > 0 && exists|w: Unit|
        #[trigger] graph_at(g, u).contains(w) && reaches(g, w, v, (n - 1) as nat))
}

/// In a graph whose edges strictly decrease the package index, reachability
/// strictly decreases it too: no unit is reachable from itself, so the graph
/// has no cycle.
pub proof fn lemma_graph_acyclic(g: Seq<(Unit, Seq<Unit>)>, u: Unit, v: Unit, n: nat)
    requires
        graph_edges_decrease(g),
        reaches(g, u, v, n),
    ensures
        v.pkg < u.pkg,
        v != u,
    decreases n,
{
    lemma_graph_find_props(g, u, 0);
    if graph_at(g, u).contains(v) {
    } else {
        let w = choose|w: Unit| #[trigger] graph_at(g, u).contains(w) && reaches(g, w, v, (n - 1) as nat);
        lemma_graph_acyclic(g, w, v, (n - 1) as nat);
    }
}

/// In a closed graph, everything reachable from a key is itself a key.
pub proof fn lemma_reachable_is_key(g: Seq<(Unit, Seq<Unit>)>, u: Unit, v: Unit, n: nat)
    requires
        graph_closed(g),
        graph_contains_key(g, u),
        reaches(g, u, v, n),
    ensures
        graph_contains_key(g, v),
    decreases n,
{
    lemma_graph_find_props(g, u, 0);
    if graph_at(g, u).contains(v) {
    } else {
        let w = choose|w: Unit| #[trigger] graph_at(g, u).contains(w) && reaches(g, w, v, (n - 1) as nat);
        lemma_reachable_is_key(g, u, w, 0);
        lemma_reachable_is_key(g, w, v, (n - 1) as nat);
    }
}

} // verus!
