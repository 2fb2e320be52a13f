//! Resolution of the extra compiler flags for one unit from a layered
//! configuration: an environment override wins outright; otherwise the
//! section named after the requested triple and every matching
//! `cfg(...)`-shaped section (applied in lexicographically sorted name
//! order) are consulted; only if those produced nothing does the blanket
//! section apply. When a target was explicitly requested, host-side units
//! receive no flags from this source at all.

use vstd::prelude::*;

use crate::cfgs::{cfg_active, cfg_in_set, section_pred, section_pred_spec, Cfg};
use crate::model::Kind;
use crate::strings::{
    lex_le, split_whitespace, split_ws, str_eq, str_lex_le, views_of, lemma_lex_le_antisymmetric,
    lemma_lex_le_total, lemma_lex_le_transitive,
};

verus! {

/// One configuration section carrying extra compiler flags: named after a
/// target triple or shaped like `cfg(...)`.
pub struct FlagSection {
    pub name: String,
    pub flags: Vec<String>,
}

/// The flag-bearing part of the configuration snapshot for one flag key.
pub struct FlagConfig {
    /// The per-triple and per-predicate sections.
    pub target_sections: Vec<FlagSection>,
    /// The blanket flag list with no triple or predicate qualifier.
    pub build_flags: Option<Vec<String>>,
}

/// Section names are pairwise distinct, as keys of a configuration table are.
pub open spec fn names_unique(sections: Seq<FlagSection>) -> bool {
    forall|i: int, j: int|
        0 <= i < j < sections.len() ==> (#[trigger] sections[i].name@) != (
        #[trigger] sections[j].name@)
}

/// First section with the given name at or after `k`, if any.
pub open spec fn first_section(sections: Seq<FlagSection>, name: Seq<char>, k: int) -> Option<int>
    decreases sections.len() - k,
{
    if k < 0 || k >= sections.len() {
        None
    } else if sections[k].name@ == name {
        Some(k)
    } else {
        first_section(sections, name, k + 1)
    }
}

/// Find the first section with the given name.
pub fn find_section(sections: &Vec<FlagSection>, name: &str) -> (r: Option<usize>)
    ensures
        match r {
            Some(i) => first_section(sections@, name@, 0) == Some(i as int) && i
                < sections@.len(),
            None => first_section(sections@, name@, 0) is None,
        },
{
    let n = sections.len();
    let mut i: usize = 0;
    while i < n
        invariant
            n == sections@.len(),
            i <= n,
            first_section(sections@, name@, 0) == first_section(sections@, name@, i as int),
        decreases n - i,
    {
        if str_eq(sections[i].name.as_str(), name) {
            return Some(i);
        }
        i = i + 1;
    }
    None
}

/// Section `i` is a `cfg(...)`-shaped section whose predicate is active.
pub open spec fn sec_matches(sections: Seq<FlagSection>, active: Seq<Cfg>, i: usize) -> bool {
    i < sections.len() && match section_pred_spec(sections[i as int].name@) {
        Some(c) => cfg_active(active, c),
        None => false,
    }
}

/// `order` lists exactly the matching sections, in lexicographically sorted
/// name order, each once.
pub open spec fn is_sorted_matching(
    sections: Seq<FlagSection>,
    active: Seq<Cfg>,
    order: Seq<usize>,
) -> bool {
    &&& forall|a: int| 0 <= a < order.len() ==> (#[trigger] order[a]) < sections.len()
    &&& forall|a: int, b: int|
        0 <= a < b < order.len() ==> lex_le(
            sections[order[a] as int].name@,
            sections[order[b] as int].name@,
        )
    &&& order.no_duplicates()
    &&& forall|i: usize|
        i < sections.len() ==> (sec_matches(sections, active, i) <==> order.contains(i))
}

/// The flag lists of the sections in `order`, concatenated.
pub open spec fn concat_order(sections: Seq<FlagSection>, order: Seq<usize>) -> Seq<Seq<char>>
    decreases order.len(),
{
    if order.len() == 0 {
        Seq::empty()
    } else {
        views_of(sections[order[0] as int].flags@) + concat_order(sections, order.drop_first())
    }
}

/// Appending a section to the order appends its flags to the concatenation.
proof fn lemma_concat_order_snoc(sections: Seq<FlagSection>, order: Seq<usize>, x: usize)
    ensures
        concat_order(sections, order.push(x)) =~= concat_order(sections, order) + views_of(
            sections[x as int].flags@,
        ),
    decreases order.len(),
{
    if order.len() == 0 {
        assert(order.push(x).drop_first() =~= Seq::<usize>::empty());
        assert(concat_order(sections, Seq::<usize>::empty()) == Seq::<Seq<char>>::empty());
    } else {
        assert(order.push(x).drop_first() =~= order.drop_first().push(x));
        lemma_concat_order_snoc(sections, order.drop_first(), x);
    }
}

/// What follows once the triple and predicate sections produced `mid`: a
/// nonempty `mid` is the result; otherwise the blanket list, if any, is.
pub open spec fn post_base(config: FlagConfig, mid: Seq<Seq<char>>, r: Seq<Seq<char>>) -> bool {
    if mid.len() > 0 {
        r == mid
    } else {
        match config.build_flags {
            Some(b) => r == views_of(b@),
            None => r == Seq::<Seq<char>>::empty(),
        }
    }
}

/// The full flag-resolution relation. `req` is the explicitly requested
/// triple, `env` the captured environment override, `active` the probed
/// active configuration of the unit's kind (absent when unavailable).
/// The flags of the section named after the effective triple, if any: the
/// base that the matching `cfg(...)` sections extend.
pub open spec fn base_of(req: Option<Seq<char>>, host: Seq<char>, config: FlagConfig) -> Seq<
    Seq<char>,
> {
    let triple = if req is Some {
        req.unwrap()
    } else {
        host
    };
    match first_section(config.target_sections@, triple, 0) {
        Some(i) => views_of(config.target_sections@[i].flags@),
        None => Seq::<Seq<char>>::empty(),
    }
}

/// Resolution from the configuration source alone, with no environment
/// override in play: the triple section is the base; the sorted matching
/// `cfg(...)` sections follow; the blanket list is the fallback.
/// Some sorted matching order yields `r` from the base and the fallback.
pub open spec fn resolved_with_active(
    req: Option<Seq<char>>,
    host: Seq<char>,
    a: Seq<Cfg>,
    config: FlagConfig,
    r: Seq<Seq<char>>,
) -> bool {
    exists|order: Seq<usize>|
        #[trigger] is_sorted_matching(config.target_sections@, a, order) && post_base(
            config,
            base_of(req, host, config) + concat_order(config.target_sections@, order),
            r,
        )
}

pub open spec fn resolved_from_config(
    req: Option<Seq<char>>,
    host: Seq<char>,
    active: Option<Seq<Cfg>>,
    config: FlagConfig,
    r: Seq<Seq<char>>,
) -> bool {
    match active {
        None => post_base(config, base_of(req, host, config), r),
        Some(a) => resolved_with_active(req, host, a, config, r),
    }
}

/// Exhibiting one sorted matching order establishes the resolution relation.
proof fn lemma_intro_resolved(
    req: Option<Seq<char>>,
    host: Seq<char>,
    active: Seq<Cfg>,
    config: FlagConfig,
    order: Seq<usize>,
    r: Seq<Seq<char>>,
)
    requires
        is_sorted_matching(config.target_sections@, active, order),
        post_base(config, base_of(req, host, config) + concat_order(config.target_sections@, order), r),
    ensures
        resolved_with_active(req, host, active, config, r),
        resolved_from_config(req, host, Some(active), config, r),
{
}

pub open spec fn resolved_flags(
    req: Option<Seq<char>>,
    host: Seq<char>,
    kind: Kind,
    env: Option<Seq<char>>,
    active: Option<Seq<Cfg>>,
    config: FlagConfig,
    r: Seq<Seq<char>>,
) -> bool {
    if req is Some && kind != Kind::Target {
        r == Seq::<Seq<char>>::empty()
    } else if env is Some {
        r == split_ws(env.unwrap())
    } else {
        resolved_from_config(req, host, active, config, r)
    }
}

/// Push clones of all of `src` onto `dst`.
fn append_all(dst: &mut Vec<String>, src: &Vec<String>)
    ensures
        final(dst)@ =~= old(dst)@ + src@,
        views_of(final(dst)@) =~= views_of(old(dst)@) + views_of(src@),
{
    let n = src.len();
    let mut i: usize = 0;
    while i < n
        invariant
            n == src@.len(),
            i <= n,
            dst@ =~= old(dst)@ + src@.take(i as int),
        decreases n - i,
    {
        let s = src[i].clone();
        proof {
            assert(s@ == src@[i as int]@);
            assert((old(dst)@ + src@.take(i as int)).push(s) =~= old(dst)@ + src@.take(i + 1));
        }
        dst.push(s);
        i = i + 1;
    }
    proof {
        assert(src@.take(n as int) =~= src@);
    }
}

/// Insert the fresh section index `x` into the name-sorted list `out`.
fn insert_sorted(sections: &Vec<FlagSection>, out: &mut Vec<usize>, x: usize)
    requires
        x < sections@.len(),
        forall|a: int| 0 <= a < old(out)@.len() ==> (#[trigger] old(out)@[a]) < sections@.len(),
        forall|a: int, b: int|
            0 <= a < b < old(out)@.len() ==> lex_le(
                sections@[old(out)@[a] as int].name@,
                sections@[old(out)@[b] as int].name@,
            ),
        old(out)@.no_duplicates(),
        !old(out)@.contains(x),
    ensures
        forall|a: int| 0 <= a < final(out)@.len() ==> (#[trigger] final(out)@[a]) < sections@.len(),
        forall|a: int, b: int|
            0 <= a < b < final(out)@.len() ==> lex_le(
                sections@[final(out)@[a] as int].name@,
                sections@[final(out)@[b] as int].name@,
            ),
        final(out)@.no_duplicates(),
        forall|y: usize| final(out)@.contains(y) <==> (old(out)@.contains(y) || y == x),
        final(out)@.len() == old(out)@.len() + 1,
{
    let n = out.len();
    let mut p: usize = 0;
    while p < n && str_lex_le(sections[out[p]].name.as_str(), sections[x].name.as_str())
        invariant
            n == out@.len(),
            p <= n,
            x < sections@.len(),
            forall|a: int| 0 <= a < out@.len() ==> (#[trigger] out@[a]) < sections@.len(),
            forall|a: int|
                0 <= a < p ==> lex_le(
                    sections@[out@[a] as int].name@,
                    sections@[x as int].name@,
                ),
        decreases n - p,
    {
        p = p + 1;
    }
    proof {
        if p < n {
            lemma_lex_le_total(sections@[out@[p as int] as int].name@, sections@[x as int].name@, 0);
        }
    }
    let mut res: Vec<usize> = Vec::new();
    let mut i: usize = 0;
    while i < p
        invariant
            p <= n == out@.len(),
            i <= p,
            res@ =~= out@.subrange(0, i as int),
        decreases p - i,
    {
        res.push(out[i]);
        i = i + 1;
    }
    res.push(x);
    let mut j: usize = p;
    while j < n
        invariant
            p <= j <= n == out@.len(),
            res@ =~= out@.subrange(0, p as int) + seq![x] + out@.subrange(p as int, j as int),
        decreases n - j,
    {
        proof {
            assert((out@.subrange(0, p as int) + seq![x] + out@.subrange(p as int, j as int)).push(
                out@[j as int],
            ) =~= out@.subrange(0, p as int) + seq![x] + out@.subrange(p as int, j + 1));
        }
        res.push(out[j]);
        j = j + 1;
    }
    proof {
        let ov = out@;
        let nv = res@;
        assert(nv =~= ov.subrange(0, p as int) + seq![x] + ov.subrange(p as int, n as int));
        assert(forall|k: int| 0 <= k < p ==> nv[k] == ov[k]);
        assert(nv[p as int] == x);
        assert(forall|k: int| p < k < nv.len() ==> nv[k] == ov[k - 1]);
        // order: any two positions of the new list are in name order
        assert forall|a: int, b: int| 0 <= a < b < nv.len() implies lex_le(
            sections@[nv[a] as int].name@,
            sections@[nv[b] as int].name@,
        ) by {
            let xa = nv[a];
            let xb = nv[b];
            if a < p && b < p {
            } else if a < p && b == p {
            } else if a < p && b > p {
            } else if a == p && b > p {
                // x sorts before the element displaced to position b
                if b - 1 > p {
                    assert(lex_le(
                        sections@[ov[p as int] as int].name@,
                        sections@[ov[b - 1] as int].name@,
                    ));
                    lemma_lex_le_transitive(
                        sections@[x as int].name@,
                        sections@[ov[p as int] as int].name@,
                        sections@[ov[b - 1] as int].name@,
                        0,
                    );
                }
            } else {
            }
        }
        // freshness of x gives distinctness
        assert forall|a: int, b: int| 0 <= a < b < nv.len() implies nv[a] != nv[b] by {
            if a == p {
                assert(ov.contains(ov[b - 1]));
            } else if b == p {
                assert(ov.contains(ov[a]));
            }
        }
        assert(nv.no_duplicates());
        assert forall|y: usize| nv.contains(y) <==> (ov.contains(y) || y == x) by {
            if nv.contains(y) {
                let k = choose|k: int| 0 <= k < nv.len() && nv[k] == y;
                if k < p {
                    assert(ov[k] == y);
                } else if k == p {
                } else {
                    assert(ov[k - 1] == y);
                }
            }
            if ov.contains(y) {
                let k = choose|k: int| 0 <= k < ov.len() && ov[k] == y;
                if k < p {
                    assert(nv[k] == y);
                } else {
                    assert(nv[k + 1] == y);
                }
            }
            if y == x {
                assert(nv[p as int] == y);
            }
        }
    }
    *out = res;
}

/// Compute the sorted order of the matching `cfg(...)` sections.
fn matching_order(sections: &Vec<FlagSection>, active: &Vec<Cfg>) -> (r: Vec<usize>)
    ensures
        is_sorted_matching(sections@, active@, r@),
{
    let n = sections.len();
    let mut out: Vec<usize> = Vec::new();
    let mut i: usize = 0;
    while i < n
        invariant
            n == sections@.len(),
            i <= n,
            forall|a: int| 0 <= a < out@.len() ==> (#[trigger] out@[a]) < sections@.len(),
            forall|a: int, b: int|
                0 <= a < b < out@.len() ==> lex_le(
                    sections@[out@[a] as int].name@,
                    sections@[out@[b] as int].name@,
                ),
            out@.no_duplicates(),
            forall|y: usize|
                out@.contains(y) <==> (y < i && sec_matches(sections@, active@, y)),
        decreases n - i,
    {
        let matched = match section_pred(sections[i].name.as_str()) {
            Some(c) => cfg_in_set(active, &c),
            None => false,
        };
        if matched {
            insert_sorted(sections, &mut out, i);
        }
        i = i + 1;
    }
    out
}

/// Resolve the extra compiler flags for one unit.
///
/// `requested_target` and `host_triple` come from the build configuration,
/// `kind` is the unit's architecture kind, `env_value` is the captured value
/// of the flag environment variable, and `active` is the probed active
/// configuration set of the unit's kind, absent when unavailable.
pub fn resolve_flags(
    requested_target: &Option<String>,
    host_triple: &str,
    kind: Kind,
    env_value: &Option<String>,
    active: Option<&Vec<Cfg>>,
    config: &FlagConfig,
) -> (r: Vec<String>)
    ensures
        resolved_flags(
            match requested_target {
                Some(t) => Some(t@),
                None => None,
            },
            host_triple@,
            kind,
            match env_value {
                Some(e) => Some(e@),
                None => None,
            },
            match active {
                Some(a) => Some(a@),
                None => None,
            },
            *config,
            views_of(r@),
        ),
{
    let ghost reqv: Option<Seq<char>> = match requested_target {
        Some(t) => Some(t@),
        None => None,
    };
    let ghost envv: Option<Seq<char>> = match env_value {
        Some(e) => Some(e@),
        None => None,
    };
    let ghost activev: Option<Seq<Cfg>> = match active {
        Some(a) => Some(a@),
        None => None,
    };
    if requested_target.is_some() && kind != Kind::Target {
        let r: Vec<String> = Vec::new();
        proof {
            assert(views_of(r@) =~= Seq::<Seq<char>>::empty());
        }
        return r;
    }
    if let Some(ev) = env_value {
        let r = split_whitespace(ev.as_str());
        proof {
            assert(resolved_flags(reqv, host_triple@, kind, envv, activev, *config, views_of(r@)));
        }
        return r;
    }
    let triple: &str = match requested_target {
        Some(t) => t.as_str(),
        None => host_triple,
    };
    let ghost sections = config.target_sections@;
    let mut flags: Vec<String> = Vec::new();
    proof {
        assert(views_of(flags@) =~= Seq::<Seq<char>>::empty());
    }
    match find_section(&config.target_sections, triple) {
        Some(i) => {
            append_all(&mut flags, &config.target_sections[i].flags);
            proof {
                assert(Seq::<Seq<char>>::empty() + views_of(
                    config.target_sections@[i as int].flags@,
                ) =~= views_of(config.target_sections@[i as int].flags@));
            }
        },
        None => {},
    }
    let ghost base = views_of(flags@);
    proof {
        assert(triple@ == if reqv is Some {
            reqv.unwrap()
        } else {
            host_triple@
        });
        assert(base == match first_section(config.target_sections@, triple@, 0) {
            Some(ii) => views_of(config.target_sections@[ii].flags@),
            None => Seq::<Seq<char>>::empty(),
        });
        assert(base == base_of(reqv, host_triple@, *config));
    }
    match active {
        Some(a) => {
            let order = matching_order(&config.target_sections, a);
            let m = order.len();
            let mut t: usize = 0;
            proof {
                assert(order@.take(0) =~= Seq::<usize>::empty());
                assert(base + concat_order(config.target_sections@, order@.take(0)) =~= base);
            }
            while t < m
                invariant
                    m == order@.len(),
                    t <= m,
                    forall|a0: int|
                        0 <= a0 < order@.len() ==> (#[trigger] order@[a0])
                            < config.target_sections@.len(),
                    views_of(flags@) =~= base + concat_order(
                        config.target_sections@,
                        order@.take(t as int),
                    ),
                decreases m - t,
            {
                append_all(&mut flags, &config.target_sections[order[t]].flags);
                proof {
                    assert(order@.take(t + 1) =~= order@.take(t as int).push(order@[t as int]));
                    lemma_concat_order_snoc(
                        config.target_sections@,
                        order@.take(t as int),
                        order@[t as int],
                    );
                }
                t = t + 1;
            }
            proof {
                assert(order@.take(m as int) =~= order@);
            }
            if flags.len() > 0 {
                proof {
                    assert(views_of(flags@).len() > 0);
                    assert(post_base(
                        *config,
                        base + concat_order(config.target_sections@, order@),
                        views_of(flags@),
                    ));
                    lemma_intro_resolved(
                        reqv,
                        host_triple@,
                        a@,
                        *config,
                        order@,
                        views_of(flags@),
                    );
                    assert(resolved_from_config(reqv, host_triple@, activev, *config, views_of(flags@)));
                    assert(resolved_flags(
                        reqv,
                        host_triple@,
                        kind,
                        envv,
                        activev,
                        *config,
                        views_of(flags@),
                    ));
                }
                return flags;
            }
            proof {
                assert(views_of(flags@).len() == 0);
                assert((base + concat_order(config.target_sections@, order@)).len() == 0);
            }
            match &config.build_flags {
                Some(b) => {
                    let mut out: Vec<String> = Vec::new();
                    proof {
                        assert(views_of(out@) =~= Seq::<Seq<char>>::empty());
                    }
                    append_all(&mut out, b);
                    proof {
                        assert(Seq::<Seq<char>>::empty() + views_of(b@) =~= views_of(b@));
                        assert(views_of(out@) == views_of(b@));
                        assert(post_base(
                            *config,
                            base + concat_order(config.target_sections@, order@),
                            views_of(out@),
                        ));
                        lemma_intro_resolved(
                            reqv,
                            host_triple@,
                            a@,
                            *config,
                            order@,
                            views_of(out@),
                        );
                        assert(resolved_from_config(reqv, host_triple@, activev, *config, views_of(out@)));
                        assert(resolved_flags(
                            reqv,
                            host_triple@,
                            kind,
                            envv,
                            activev,
                            *config,
                            views_of(out@),
                        ));
                    }
                    out
                },
                None => {
                    let out: Vec<String> = Vec::new();
                    proof {
                        assert(views_of(out@) =~= Seq::<Seq<char>>::empty());
                        assert(post_base(
                            *config,
                            base + concat_order(config.target_sections@, order@),
                            views_of(out@),
                        ));
                        lemma_intro_resolved(
                            reqv,
                            host_triple@,
                            a@,
                            *config,
                            order@,
                            views_of(out@),
                        );
                        assert(resolved_from_config(reqv, host_triple@, activev, *config, views_of(out@)));
                        assert(resolved_flags(
                            reqv,
                            host_triple@,
                            kind,
                            envv,
                            activev,
                            *config,
                            views_of(out@),
                        ));
                    }
                    out
                },
            }
        },
        None => {
            if flags.len() > 0 {
                proof {
                    assert(views_of(flags@).len() > 0);
                }
                return flags;
            }
            proof {
                assert(views_of(flags@).len() == 0);
            }
            match &config.build_flags {
                Some(b) => {
                    let mut out: Vec<String> = Vec::new();
                    proof {
                        assert(views_of(out@) =~= Seq::<Seq<char>>::empty());
                    }
                    append_all(&mut out, b);
                    proof {
                        assert(views_of(out@) =~= views_of(b@));
                    }
                    out
                },
                None => {
                    let out: Vec<String> = Vec::new();
                    proof {
                        assert(views_of(out@) =~= Seq::<Seq<char>>::empty());
                    }
                    out
                },
            }
        },
    }
}

/// With an environment override set, the configuration source is never
/// consulted: the result is exactly the whitespace-split override, whatever
/// the configuration holds.
pub proof fn lemma_env_override_ignores_config(
    req: Option<Seq<char>>,
    host: Seq<char>,
    kind: Kind,
    env_val: Seq<char>,
    active: Option<Seq<Cfg>>,
    c1: FlagConfig,
    c2: FlagConfig,
    r: Seq<Seq<char>>,
)
    requires
        !(req is Some && kind != Kind::Target),
    ensures
        resolved_flags(req, host, kind, Some(env_val), active, c1, r) <==> r == split_ws(env_val),
        resolved_flags(req, host, kind, Some(env_val), active, c1, r) <==> resolved_flags(
            req,
            host,
            kind,
            Some(env_val),
            active,
            c2,
            r,
        ),
{
}

/// A sorted, duplicate-free listing of a set of section indices is unique:
/// two orders with the same members are the same sequence. Hence the order
/// in which matching `cfg(...)` sections are applied never depends on their
/// discovery order.
pub proof fn lemma_sorted_order_unique(
    sections: Seq<FlagSection>,
    o1: Seq<usize>,
    o2: Seq<usize>,
)
    requires
        names_unique(sections),
        forall|a: int| 0 <= a < o1.len() ==> (#[trigger] o1[a]) < sections.len(),
        forall|a: int| 0 <= a < o2.len() ==> (#[trigger] o2[a]) < sections.len(),
        forall|a: int, b: int|
            0 <= a < b < o1.len() ==> lex_le(
                sections[o1[a] as int].name@,
                sections[o1[b] as int].name@,
            ),
        forall|a: int, b: int|
            0 <= a < b < o2.len() ==> lex_le(
                sections[o2[a] as int].name@,
                sections[o2[b] as int].name@,
            ),
        o1.no_duplicates(),
        o2.no_duplicates(),
        forall|y: usize| o1.contains(y) <==> o2.contains(y),
    ensures
        o1 =~= o2,
    decreases o1.len(),
{
    if o1.len() == 0 {
        if o2.len() > 0 {
            assert(o2.contains(o2[0]));
            assert(o1.contains(o2[0]));
        }
    } else {
        assert(o1.contains(o1[0]));
        assert(o2.contains(o1[0]));
        let h1 = o1[0];
        let h2 = o2[0];
        assert(h1 == h2) by {
            let i = choose|i: int| 0 <= i < o2.len() && o2[i] == h1;
            if i == 0 {
                assert(o2[0] == h1);
            } else {
                // each head sorts no later than the other, so their names agree
                assert(lex_le(sections[h2 as int].name@, sections[h1 as int].name@));
                assert(o1.contains(h2));
                let j = choose|j: int| 0 <= j < o1.len() && o1[j] == h2;
                if j == 0 {
                    assert(o1[0] == h2);
                } else {
                    assert(lex_le(sections[h1 as int].name@, sections[h2 as int].name@));
                    if h1 != h2 {
                        lemma_lex_le_antisymmetric(
                            sections[h1 as int].name@,
                            sections[h2 as int].name@,
                            0,
                        );
                        assert(sections[h1 as int].name@ =~= sections[h2 as int].name@);
                        if h1 < h2 {
                            assert(sections[h1 as int].name@ != sections[h2 as int].name@);
                        } else {
                            assert(sections[h2 as int].name@ != sections[h1 as int].name@);
                        }
                    }
                }
            }
        }
        let t1 = o1.drop_first();
        let t2 = o2.drop_first();
        assert forall|y: usize| t1.contains(y) <==> t2.contains(y) by {
            if t1.contains(y) {
                let k = choose|k: int| 0 <= k < t1.len() && t1[k] == y;
                assert(o1[k + 1] == y);
                assert(o1.contains(y));
                assert(y != h1);
                assert(o2.contains(y));
                let k2 = choose|k2: int| 0 <= k2 < o2.len() && o2[k2] == y;
                assert(k2 != 0);
                assert(t2[k2 - 1] == y);
                assert(t2.contains(y));
            }
            if t2.contains(y) {
                let k = choose|k: int| 0 <= k < t2.len() && t2[k] == y;
                assert(o2[k + 1] == y);
                assert(o2.contains(y));
                assert(y != h2);
                assert(o1.contains(y));
                let k2 = choose|k2: int| 0 <= k2 < o1.len() && o1[k2] == y;
                assert(k2 != 0);
                assert(t1[k2 - 1] == y);
                assert(t1.contains(y));
            }
        }
        assert(t1.no_duplicates());
        assert(t2.no_duplicates());
        lemma_sorted_order_unique(sections, t1, t2);
        assert forall|k: int| 0 <= k < o1.len() implies o1[k] == o2[k] by {
            if k > 0 {
                assert(t1[k - 1] == t2[k - 1]);
            }
        }
    }
}

/// With distinct section names and no environment override, the resolution
/// relation pins the result down: two results for the same inputs are equal.
pub proof fn lemma_resolved_flags_deterministic(
    req: Option<Seq<char>>,
    host: Seq<char>,
    kind: Kind,
    env: Option<Seq<char>>,
    active: Option<Seq<Cfg>>,
    config: FlagConfig,
    r1: Seq<Seq<char>>,
    r2: Seq<Seq<char>>,
)
    requires
        names_unique(config.target_sections@),
        resolved_flags(req, host, kind, env, active, config, r1),
        resolved_flags(req, host, kind, env, active, config, r2),
    ensures
        r1 == r2,
{
    if req is Some && kind != Kind::Target {
    } else if env is Some {
    } else {
        match active {
            None => {},
            Some(a) => {
                let o1 = choose|order: Seq<usize>|
                    #[trigger] is_sorted_matching(config.target_sections@, a, order) && post_base(
                        config,
                        {
                            let triple = if req is Some {
                                req.unwrap()
                            } else {
                                host
                            };
                            match first_section(config.target_sections@, triple, 0) {
                                Some(i) => views_of(config.target_sections@[i].flags@),
                                None => Seq::<Seq<char>>::empty(),
                            }
                        } + concat_order(config.target_sections@, order),
                        r1,
                    );
                let o2 = choose|order: Seq<usize>|
                    #[trigger] is_sorted_matching(config.target_sections@, a, order) && post_base(
                        config,
                        {
                            let triple = if req is Some {
                                req.unwrap()
                            } else {
                                host
                            };
                            match first_section(config.target_sections@, triple, 0) {
                                Some(i) => views_of(config.target_sections@[i].flags@),
                                None => Seq::<Seq<char>>::empty(),
                            }
                        } + concat_order(config.target_sections@, order),
                        r2,
                    );
                lemma_sorted_order_unique(config.target_sections@, o1, o2);
                assert(o1 == o2);
            },
        }
    }
}

} // verus!
