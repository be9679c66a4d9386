//! The service graph and dependency resolution.
//!
//! Descriptors and manifest entries are unified into one graph keyed by
//! service name.  `resolve_dependencies` returns the dependency closure of a
//! service, dependencies before dependents; on a graph with a cycle it still
//! terminates and returns each reachable name exactly once.

use vstd::prelude::*;
use vstd::set_lib::lemma_len_subset;
use crate::descriptor::{ServiceConfig, texts_view};
use crate::manifest::ComposeService;

verus! {

broadcast use vstd::seq_lib::seq_to_set_is_finite, vstd::set::group_set_axioms;

/// The set of a sequence extended by one element.
proof fn lemma_to_set_push<A>(s: Seq<A>, x: A)
    ensures
        s.push(x).to_set() == s.to_set().insert(x),
{
    let s2 = s.push(x);
    assert forall|a: A| s2.to_set().contains(a) implies s.to_set().insert(x).contains(a) by {
        let j = choose|j: int| 0 <= j < s2.len() && s2[j] == a;
        if j < s.len() {
            assert(s[j] == a);
            assert(s.contains(a));
        } else {
            assert(a == x);
        }
    };
    assert forall|a: A| s.to_set().insert(x).contains(a) implies s2.to_set().contains(a) by {
        if a == x {
            assert(s2[s.len() as int] == x);
            assert(s2.contains(x));
        } else {
            let j = choose|j: int| 0 <= j < s.len() && s[j] == a;
            assert(s2[j] == a);
            assert(s2.contains(a));
        }
    };
    assert(s2.to_set() =~= s.to_set().insert(x));
}

/// One discovered service: its name and its descriptor.
pub struct ServiceEntry {
    pub name: String,
    pub config: ServiceConfig,
}

/// One dependency-index entry: a service with at least one declared
/// dependency.
pub struct DepEntry {
    pub name: String,
    pub deps: Vec<String>,
}

/// The aggregate of discovery and manifest reading, read-only once built.
pub struct ServiceGraph {
    pub services: Vec<ServiceEntry>,
    pub compose: Vec<ComposeService>,
    pub deps: Vec<DepEntry>,
}

pub open spec fn dep_view(e: DepEntry) -> (Seq<char>, Seq<Seq<char>>) {
    (e.name@, texts_view(e.deps@))
}

/// Dependency lookup: the index is written by later-entry-wins updates, so
/// the last entry under a name is the one that counts.
pub open spec fn dep_lookup(deps: Seq<DepEntry>, n: Seq<char>) -> Option<Seq<Seq<char>>>
    decreases deps.len(),
{
    if deps.len() == 0 {
        None
    } else if deps.last().name@ == n {
        Some(texts_view(deps.last().deps@))
    } else {
        dep_lookup(deps.drop_last(), n)
    }
}

/// The declared dependencies of a name; none when the name has no entry.
pub open spec fn deps_of(g: ServiceGraph, n: Seq<char>) -> Seq<Seq<char>> {
    match dep_lookup(g.deps@, n) {
        Some(d) => d,
        None => Seq::empty(),
    }
}

pub open spec fn dep_key_set(g: ServiceGraph) -> Set<Seq<char>> {
    g.deps@.map_values(|e: DepEntry| e.name@).to_set()
}

/// `dst` is reachable from `src` along at most `fuel` dependency edges.
pub open spec fn reaches_within(g: ServiceGraph, src: Seq<char>, dst: Seq<char>, fuel: nat) -> bool
    decreases fuel,
{
    src == dst || (fuel > 0 && exists|m: Seq<char>|
        #[trigger] deps_of(g, src).contains(m) && reaches_within(g, m, dst, (fuel - 1) as nat))
}

/// `dst` is `src` itself or a transitive dependency of it.
pub open spec fn reaches(g: ServiceGraph, src: Seq<char>, dst: Seq<char>) -> bool {
    exists|fuel: nat| reaches_within(g, src, dst, fuel)
}

/// No dependency edge closes a cycle.
pub open spec fn acyclic(g: ServiceGraph) -> bool {
    forall|a: Seq<char>, d: Seq<char>|
        #[trigger] deps_of(g, a).contains(d) ==> !reaches(g, d, a)
}

/// No dependency edge among the names reachable from `root` closes a cycle.
/// A graph that is acyclic as a whole is so from every root.
pub open spec fn acyclic_from(g: ServiceGraph, root: Seq<char>) -> bool {
    forall|a: Seq<char>, d: Seq<char>|
        reaches(g, root, a) && #[trigger] deps_of(g, a).contains(d) ==> !reaches(g, d, a)
}

pub proof fn lemma_reaches_refl(g: ServiceGraph, a: Seq<char>)
    ensures
        reaches(g, a, a),
{
    assert(reaches_within(g, a, a, 0));
}

pub proof fn lemma_reaches_within_mono(g: ServiceGraph, a: Seq<char>, b: Seq<char>, f1: nat, f2: nat)
    requires
        reaches_within(g, a, b, f1),
        f1 <= f2,
    ensures
        reaches_within(g, a, b, f2),
    decreases f1,
{
    if a != b {
        let m = choose|m: Seq<char>|
            #[trigger] deps_of(g, a).contains(m) && reaches_within(g, m, b, (f1 - 1) as nat);
        lemma_reaches_within_mono(g, m, b, (f1 - 1) as nat, (f2 - 1) as nat);
    }
}

pub proof fn lemma_reaches_step(g: ServiceGraph, a: Seq<char>, b: Seq<char>)
    requires
        deps_of(g, a).contains(b),
    ensures
        reaches(g, a, b),
{
    assert(reaches_within(g, b, b, 0));
    assert(reaches_within(g, a, b, 1));
}

pub proof fn lemma_reaches_within_trans(
    g: ServiceGraph,
    a: Seq<char>,
    b: Seq<char>,
    c: Seq<char>,
    f1: nat,
    f2: nat,
)
    requires
        reaches_within(g, a, b, f1),
        reaches_within(g, b, c, f2),
    ensures
        reaches_within(g, a, c, (f1 + f2) as nat),
    decreases f1,
{
    if a == b {
        lemma_reaches_within_mono(g, b, c, f2, (f1 + f2) as nat);
    } else {
        let m = choose|m: Seq<char>|
            #[trigger] deps_of(g, a).contains(m) && reaches_within(g, m, b, (f1 - 1) as nat);
        lemma_reaches_within_trans(g, m, b, c, (f1 - 1) as nat, f2);
        assert(reaches_within(g, a, c, (f1 + f2) as nat));
    }
}

pub proof fn lemma_reaches_trans(g: ServiceGraph, a: Seq<char>, b: Seq<char>, c: Seq<char>)
    requires
        reaches(g, a, b),
        reaches(g, b, c),
    ensures
        reaches(g, a, c),
{
    let f1 = choose|f: nat| reaches_within(g, a, b, f);
    let f2 = choose|f: nat| reaches_within(g, b, c, f);
    lemma_reaches_within_trans(g, a, b, c, f1, f2);
}

/// A set that contains every dependency of each of its members.
pub open spec fn closed_under_deps(g: ServiceGraph, s: Set<Seq<char>>) -> bool {
    forall|m: Seq<char>, d: Seq<char>|
        s.contains(m) && #[trigger] deps_of(g, m).contains(d) ==> s.contains(d)
}

pub proof fn lemma_closed_reach(
    g: ServiceGraph,
    s: Set<Seq<char>>,
    src: Seq<char>,
    dst: Seq<char>,
    fuel: nat,
)
    requires
        closed_under_deps(g, s),
        s.contains(src),
        reaches_within(g, src, dst, fuel),
    ensures
        s.contains(dst),
    decreases fuel,
{
    if src != dst {
        let m = choose|m: Seq<char>|
            #[trigger] deps_of(g, src).contains(m) && reaches_within(g, m, dst, (fuel - 1) as nat);
        lemma_closed_reach(g, s, m, dst, (fuel - 1) as nat);
    }
}

pub open spec fn str_set(v: Seq<String>) -> Set<Seq<char>> {
    texts_view(v).to_set()
}

/// The traversal invariant: visited names are exactly the finished (output)
/// names together with the active chain; every visited name is reachable
/// from the root; a finished name's dependencies are all visited; and each
/// finished name's dependencies either precede it in the output or reach
/// back to it (which witnesses a cycle).
pub open spec fn dfs_inv(
    g: ServiceGraph,
    visited: Seq<String>,
    out: Seq<String>,
    active: Set<Seq<char>>,
    root: Seq<char>,
) -> bool {
    &&& str_set(visited) == str_set(out).union(active)
    &&& texts_view(out).no_duplicates()
    &&& active.disjoint(str_set(out))
    &&& forall|v: Seq<char>| #[trigger] str_set(visited).contains(v) ==> reaches(g, root, v)
    &&& forall|o: Seq<char>, d: Seq<char>|
        str_set(out).contains(o) && #[trigger] deps_of(g, o).contains(d)
            ==> str_set(visited).contains(d)
    &&& forall|i: int, d: Seq<char>|
        0 <= i < out.len() && #[trigger] deps_of(g, texts_view(out)[i]).contains(d)
            ==> texts_view(out).take(i).contains(d) || reaches(g, d, texts_view(out)[i])
}

/// Whether a name occurs in a list of names.
pub fn vec_contains_name(v: &Vec<String>, x: &String) -> (r: bool)
    ensures
        r == texts_view(v@).contains(x@),
{
    let n = v.len();
    let mut i: usize = 0;
    while i < n
        invariant
            n == v@.len(),
            i <= n,
            forall|j: int| 0 <= j < i ==> texts_view(v@)[j] != x@,
        decreases n - i,
    {
        if crate::doc::str_eq(v[i].as_str(), x.as_str()) {
            assert(texts_view(v@)[i as int] == x@);
            return true;
        }
        i += 1;
    }
    assert(!texts_view(v@).contains(x@)) by {
        if texts_view(v@).contains(x@) {
            let j = choose|j: int| 0 <= j < texts_view(v@).len() && texts_view(v@)[j] == x@;
            assert(false);
        }
    }
    false
}

/// The dependency entry that counts for `name`: the last one, as an index
/// built by later-entry-wins updates reads.
pub fn find_dep_entry<'a>(g: &'a ServiceGraph, name: &String) -> (r: Option<&'a Vec<String>>)
    ensures
        match r {
            Some(d) => dep_lookup(g.deps@, name@) == Some(texts_view(d@)),
            None => dep_lookup(g.deps@, name@) is None,
        },
{
    let n = g.deps.len();
    let mut found: Option<usize> = None;
    let mut i: usize = 0;
    proof {
        assert(g.deps@.take(0) =~= Seq::<DepEntry>::empty());
    }
    while i < n
        invariant
            n == g.deps@.len(),
            i <= n,
            match found {
                Some(k) => k < i && dep_lookup(g.deps@.take(i as int), name@)
                    == Some(texts_view(g.deps@[k as int].deps@)),
                None => dep_lookup(g.deps@.take(i as int), name@) is None,
            },
        decreases n - i,
    {
        proof {
            assert(g.deps@.take(i + 1).drop_last() =~= g.deps@.take(i as int));
            assert(g.deps@.take(i + 1).last() == g.deps@[i as int]);
        }
        if crate::doc::str_eq(g.deps[i].name.as_str(), name.as_str()) {
            found = Some(i);
        }
        i += 1;
    }
    proof {
        assert(g.deps@.take(n as int) =~= g.deps@);
    }
    match found {
        Some(k) => Some(&g.deps[k].deps),
        None => None,
    }
}

proof fn lemma_dep_lookup_in_keys(deps: Seq<DepEntry>, n: Seq<char>)
    requires
        dep_lookup(deps, n) is Some,
    ensures
        deps.map_values(|e: DepEntry| e.name@).to_set().contains(n),
    decreases deps.len(),
{
    if deps.len() > 0 {
        let f = |e: DepEntry| e.name@;
        let s = deps.map_values(f);
        if deps.last().name@ == n {
            assert(s[deps.len() - 1] == n);
            assert(s.contains(n));
        } else {
            lemma_dep_lookup_in_keys(deps.drop_last(), n);
            let s2 = deps.drop_last().map_values(f);
            assert(s2.contains(n));
            let j = choose|j: int| 0 <= j < s2.len() && s2[j] == n;
            assert(s[j] == n);
            assert(s.contains(n));
        }
    }
}

proof fn lemma_unvisited_shrinks(
    keys: Set<Seq<char>>,
    vold: Set<Seq<char>>,
    vnew: Set<Seq<char>>,
    x: Seq<char>,
)
    requires
        keys.finite(),
        vold.subset_of(vnew),
        keys.contains(x),
        vnew.contains(x),
        !vold.contains(x),
    ensures
        keys.difference(vnew).len() < keys.difference(vold).len(),
{
    let a = keys.difference(vnew);
    let b = keys.difference(vold);
    lemma_len_subset(b, keys);
    assert(a.subset_of(b.remove(x)));
    assert(b.remove(x).subset_of(keys));
    lemma_len_subset(b.remove(x), keys);
    lemma_len_subset(a, b.remove(x));
    assert(b.contains(x));
    vstd::set::axiom_set_remove_len(b, x);
}

/// Post-order depth-first traversal of the dependency edges.
#[verifier::loop_isolation(false)]
fn visit(
    g: &ServiceGraph,
    name: &String,
    visited: Vec<String>,
    out: Vec<String>,
    active: Ghost<Set<Seq<char>>>,
    root: Ghost<Seq<char>>,
) -> (res: (Vec<String>, Vec<String>))
    requires
        dfs_inv(*g, visited@, out@, active@, root@),
        active@.finite(),
        reaches(*g, root@, name@),
        forall|a: Seq<char>| active@.contains(a) ==> reaches(*g, a, name@),
    ensures
        dfs_inv(*g, res.0@, res.1@, active@, root@),
        res.1@.len() >= out@.len() && res.1@.take(out@.len() as int) == out@,
        forall|v: Seq<char>| str_set(visited@).contains(v) ==> str_set(res.0@).contains(v),
        str_set(res.0@).contains(name@),
        forall|v: Seq<char>| str_set(res.0@).contains(v) && !str_set(visited@).contains(v)
            ==> reaches(*g, name@, v),
        !texts_view(visited@).contains(name@) ==> res.1@.len() > out@.len()
            && res.1@.last()@ == name@,
    decreases dep_key_set(*g).difference(str_set(visited@)).len(),
{
    if vec_contains_name(&visited, name) {
        return (visited, out);
    }
    let ghost visited0 = visited@;
    let ghost out0 = out@;
    let mut visited = visited;
    let mut out = out;
    visited.push(name.clone());
    proof {
        assert(texts_view(visited@) =~= texts_view(visited0).push(name@));
        lemma_to_set_push(texts_view(visited0), name@);
        assert(str_set(visited@) == str_set(visited0).insert(name@));
        lemma_reaches_refl(*g, name@);
        assert forall|v: Seq<char>| str_set(visited@).contains(v)
            && !str_set(visited0).contains(v) implies reaches(*g, name@, v) by {
            assert(v == name@);
        };
        assert forall|v: Seq<char>| #[trigger] str_set(visited@).contains(v)
            implies reaches(*g, root@, v) by {
            if v != name@ {
                assert(str_set(visited0).contains(v));
            }
        };
    }
    let ghost active2 = active@.insert(name@);
    proof {
        assert(!texts_view(visited0).contains(name@));
        assert(!str_set(visited0).contains(name@));
        assert(!str_set(out0).contains(name@));
        assert(str_set(visited@) =~= str_set(out@).union(active2));
        assert(active2.disjoint(str_set(out@)));
    }
    let deps = find_dep_entry(g, name);
    match deps {
        Some(dlist) => {
            proof {
                lemma_dep_lookup_in_keys(g.deps@, name@);
            }
            let n = dlist.len();
            let mut i: usize = 0;
            while i < n
                invariant
                    i <= n,
                    dfs_inv(*g, visited@, out@, active2, root@),
                    forall|v: Seq<char>| str_set(visited0).contains(v)
                        ==> str_set(visited@).contains(v),
                    str_set(visited@).contains(name@),
                    forall|v: Seq<char>| str_set(visited@).contains(v)
                        && !str_set(visited0).contains(v) ==> reaches(*g, name@, v),
                    forall|j: int| 0 <= j < i ==> str_set(visited@).contains(texts_view(dlist@)[j]),
                    out@.len() >= out0.len() && out@.take(out0.len() as int) == out0,
                decreases n - i,
            {
                let d = &dlist[i];
                proof {
                    assert(deps_of(*g, name@).contains(texts_view(dlist@)[i as int]));
                    lemma_reaches_step(*g, name@, d@);
                    lemma_reaches_trans(*g, root@, name@, d@);
                    assert forall|a: Seq<char>| active2.contains(a)
                        implies reaches(*g, a, d@) by {
                        if a == name@ {
                        } else {
                            lemma_reaches_trans(*g, a, name@, d@);
                        }
                    };
                    lemma_unvisited_shrinks(
                        dep_key_set(*g),
                        str_set(visited0),
                        str_set(visited@),
                        name@,
                    );
                }
                let ghost visited_before = visited@;
                let ghost out_before = out@;
                let (v2, o2) = visit(g, d, visited, out, Ghost(active2), root);
                visited = v2;
                out = o2;
                proof {
                    assert(out@.take(out0.len() as int)
                        == out@.take(out_before.len() as int).take(out0.len() as int));
                    assert forall|v: Seq<char>| str_set(visited@).contains(v)
                        && !str_set(visited0).contains(v) implies reaches(*g, name@, v) by {
                        if str_set(visited_before).contains(v) {
                        } else {
                            lemma_reaches_trans(*g, name@, d@, v);
                        }
                    };
                }
                i += 1;
            }
            proof {
                assert forall|d2: Seq<char>| #[trigger] deps_of(*g, name@).contains(d2)
                    implies str_set(visited@).contains(d2) by {
                    let j = choose|j: int| 0 <= j < texts_view(dlist@).len()
                        && texts_view(dlist@)[j] == d2;
                };
            }
        },
        None => {
            assert(deps_of(*g, name@) =~= Seq::<Seq<char>>::empty());
        },
    }
    // every dependency of `name` is now visited; emit `name`.
    let ghost out_pre = out@;
    out.push(name.clone());
    proof {
        assert(texts_view(out@) =~= texts_view(out_pre).push(name@));
        lemma_to_set_push(texts_view(out_pre), name@);
        assert(str_set(out@) == str_set(out_pre).insert(name@));
        assert(active2.contains(name@));
        assert(!str_set(out_pre).contains(name@));
        // no duplicates after the push
        assert forall|i: int, j: int| 0 <= i < j < texts_view(out@).len()
            implies texts_view(out@)[i] != texts_view(out@)[j] by {
            if j < texts_view(out_pre).len() {
            } else {
                assert(texts_view(out@)[j] == name@);
                assert(texts_view(out_pre).to_set().contains(texts_view(out_pre)[i])
                    == texts_view(out_pre).contains(texts_view(out_pre)[i]));
            }
        };
        // visited = out ∪ active once name moves from active to finished
        assert(str_set(visited@) =~= str_set(out@).union(active@));
        assert(active@.disjoint(str_set(out@)));
        // closure carries over to the new finished name
        assert forall|o: Seq<char>, d: Seq<char>| str_set(out@).contains(o)
            && #[trigger] deps_of(*g, o).contains(d)
            implies str_set(visited@).contains(d) by {};
        // ordering: dependencies of `name` are finished already or reach back
        let l = out_pre.len() as int;
        assert forall|i: int, d: Seq<char>| 0 <= i < out@.len()
            && #[trigger] deps_of(*g, texts_view(out@)[i]).contains(d)
            implies texts_view(out@).take(i).contains(d)
                || reaches(*g, d, texts_view(out@)[i]) by {
            if i < l {
                assert(texts_view(out@)[i] == texts_view(out_pre)[i]);
                assert(texts_view(out@).take(i) =~= texts_view(out_pre).take(i));
            } else {
                assert(texts_view(out@)[i] == name@);
                assert(str_set(visited@).contains(d));
                if str_set(out_pre).contains(d) {
                    assert(texts_view(out@).take(i) =~= texts_view(out_pre));
                    assert(texts_view(out_pre).to_set().contains(d)
                        == texts_view(out_pre).contains(d));
                } else {
                    assert(active2.contains(d));
                    if d == name@ {
                        lemma_reaches_refl(*g, name@);
                    }
                }
            }
        };
        assert(out@.take(out0.len() as int)
            == out@.take(out_pre.len() as int).take(out0.len() as int));
    }
    (visited, out)
}

impl ServiceGraph {
    /// The dependency closure of `service`, dependencies before dependents.
    ///
    /// The result lists exactly the names reachable from `service` along
    /// dependency edges, each once, and always ends with `service` itself.
    /// When the reachable part of the graph is acyclic, every listed name's
    /// dependencies precede it; on a graph with a cycle the call still
    /// terminates and the other claims still hold.
    pub fn resolve_dependencies(&self, service: &String) -> (r: Vec<String>)
        ensures
            texts_view(r@).no_duplicates(),
            forall|v: Seq<char>| #[trigger] texts_view(r@).contains(v)
                <==> reaches(*self, service@, v),
            r@.len() >= 1 && r@.last()@ == service@,
            acyclic_from(*self, service@) ==> forall|i: int, d: Seq<char>|
                0 <= i < r@.len() && #[trigger] deps_of(*self, texts_view(r@)[i]).contains(d)
                    ==> texts_view(r@).take(i).contains(d),
            acyclic(*self) ==> acyclic_from(*self, service@),
    {
        let visited: Vec<String> = Vec::new();
        let out: Vec<String> = Vec::new();
        proof {
            assert(texts_view(visited@) =~= Seq::<Seq<char>>::empty());
            assert(texts_view(out@) =~= Seq::<Seq<char>>::empty());
            assert(str_set(visited@) =~= str_set(out@).union(Set::<Seq<char>>::empty()));
            lemma_reaches_refl(*self, service@);
        }
        let (visited, out) = visit(
            self,
            service,
            visited,
            out,
            Ghost(Set::empty()),
            Ghost(service@),
        );
        proof {
            assert(str_set(visited@) =~= str_set(out@));
            // the finished set is closed, so it covers everything reachable
            assert forall|v: Seq<char>| reaches(*self, service@, v)
                implies texts_view(out@).contains(v) by {
                let f = choose|f: nat| reaches_within(*self, service@, v, f);
                assert(closed_under_deps(*self, str_set(out@)));
                lemma_closed_reach(*self, str_set(out@), service@, v, f);
            };
            assert forall|v: Seq<char>| texts_view(out@).contains(v)
                implies reaches(*self, service@, v) by {
                assert(str_set(visited@).contains(v));
            };
            if acyclic_from(*self, service@) {
                assert forall|i: int, d: Seq<char>| 0 <= i < out@.len()
                    && #[trigger] deps_of(*self, texts_view(out@)[i]).contains(d)
                    implies texts_view(out@).take(i).contains(d) by {
                    assert(texts_view(out@).contains(texts_view(out@)[i]));
                    assert(reaches(*self, service@, texts_view(out@)[i]));
                    assert(!reaches(*self, d, texts_view(out@)[i]));
                };
            }
        }
        out
    }
}

/// The dependency index that a list of manifest entries yields: one entry
/// per service with at least one dependency, in manifest order.
pub open spec fn deps_index_model(cs: Seq<crate::manifest::ComposeModel>)
    -> Seq<(Seq<char>, Seq<Seq<char>>)>
    decreases cs.len(),
{
    if cs.len() == 0 {
        Seq::empty()
    } else {
        let rest = deps_index_model(cs.drop_last());
        if cs.last().depends_on.len() > 0 {
            rest.push((cs.last().name, cs.last().depends_on))
        } else {
            rest
        }
    }
}

/// Unifies discovery output and manifest entries into the service graph,
/// deriving the dependency index from the manifest.
pub fn build_graph(services: Vec<ServiceEntry>, compose: Vec<ComposeService>) -> (g: ServiceGraph)
    ensures
        g.services == services,
        g.compose == compose,
        g.deps@.map_values(|e: DepEntry| dep_view(e))
            == deps_index_model(compose@.map_values(|c: ComposeService| c@)),
{
    let mut deps: Vec<DepEntry> = Vec::new();
    let n = compose.len();
    let mut i: usize = 0;
    proof {
        assert(compose@.take(0).map_values(|c: ComposeService| c@)
            =~= Seq::<crate::manifest::ComposeModel>::empty());
        assert(deps@.map_values(|e: DepEntry| dep_view(e)) =~= Seq::<(Seq<char>, Seq<Seq<char>>)>::empty());
    }
    while i < n
        invariant
            n == compose@.len(),
            i <= n,
            deps@.map_values(|e: DepEntry| dep_view(e))
                =~= deps_index_model(compose@.take(i as int).map_values(|c: ComposeService| c@)),
        decreases n - i,
    {
        proof {
            let m = |c: ComposeService| c@;
            assert(compose@.take(i + 1).map_values(m).drop_last()
                =~= compose@.take(i as int).map_values(m));
            assert(compose@.take(i + 1).map_values(m).last() == compose@[i as int]@);
        }
        if compose[i].depends_on.len() > 0 {
            let entry = DepEntry {
                name: compose[i].name.clone(),
                deps: compose[i].depends_on.clone(),
            };
            deps.push(entry);
            proof {
                let dv = |e: DepEntry| dep_view(e);
                assert(deps@.map_values(dv)
                    =~= deps@.drop_last().map_values(dv).push(dep_view(deps@.last())));
            }
        }
        i += 1;
    }
    proof {
        assert(compose@.take(n as int) =~= compose@);
    }
    ServiceGraph { services, compose, deps }
}

} // verus!
