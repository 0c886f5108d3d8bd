//! Which contracts create which: a contract may create another only where
//! that one does not, directly or through others, create it back.

use vstd::prelude::*;
use crate::ast::CallArgs;
use crate::diagnostics::{Diagnostic, DiagnosticView, Diagnostics, Loc, error_view};
use crate::expression::ExprContext;
use crate::function_call::functions_in_range;
use crate::namespace::{Contract, Function, Namespace, index_map_keys, keys_of};
use crate::pt::{Expression, Identifier, Visibility};
use crate::text::{push_str, string_from_chars};

verus! {

/// The creation graph: for each contract, the contracts it creates.
pub open spec fn creation_graph(contracts: Seq<Contract>) -> Seq<Seq<usize>> {
    Seq::new(contracts.len(), |i: int| contracts[i].creates@)
}

/// Every edge of the graph leads to a node of the graph.
pub open spec fn edges_in_range(g: Seq<Seq<usize>>) -> bool {
    forall|x: int, k: int| 0 <= x < g.len() && 0 <= k < g[x].len() ==> #[trigger] g[x][k] < g.len()
}

/// Every chain of edges from `x` is shorter than `d` steps.
pub open spec fn depth_below(g: Seq<Seq<usize>>, x: int, d: nat) -> bool
    decreases d,
{
    if d == 0 {
        false
    } else {
        forall|k: int| 0 <= k < g[x].len() ==> depth_below(g, #[trigger] g[x][k] as int, (d - 1) as nat)
    }
}

/// `from` leads to `to` in at most `d` steps.
pub open spec fn creates_within(g: Seq<Seq<usize>>, from: int, to: usize, d: nat) -> bool
    decreases d,
{
    if d == 0 {
        false
    } else {
        exists|k: int|
            0 <= k < g[from].len() && (#[trigger] g[from][k] == to || creates_within(g, g[from][k] as int, to, (d - 1) as nat))
    }
}

/// `from` leads to `to`: it creates it, or creates a contract that leads
/// to it.
pub open spec fn creates_transitively(g: Seq<Seq<usize>>, from: int, to: usize) -> bool {
    exists|d: nat| creates_within(g, from, to, d)
}

/// Every chain of edges of the graph is shorter than `d` steps.
pub open spec fn bounded_by(g: Seq<Seq<usize>>, d: nat) -> bool {
    forall|x: int| 0 <= x < g.len() ==> #[trigger] depth_below(g, x, d)
}

/// The graph has no cycle: one bound holds for the length of every chain
/// of edges, and every edge stays in the graph.
pub open spec fn well_founded(g: Seq<Seq<usize>>) -> bool {
    &&& edges_in_range(g)
    &&& exists|d: nat| #[trigger] bounded_by(g, d)
}

/// A bound on chains holds for any greater bound too.
proof fn lemma_depth_below_mono(g: Seq<Seq<usize>>, x: int, d: nat, e: nat)
    requires
        depth_below(g, x, d),
        d <= e,
    ensures
        depth_below(g, x, e),
    decreases d,
{
    assert forall|k: int| 0 <= k < g[x].len() implies depth_below(g, #[trigger] g[x][k] as int, (e - 1) as nat) by {
        lemma_depth_below_mono(g, g[x][k] as int, (d - 1) as nat, (e - 1) as nat);
    }
}

/// Leading somewhere in `d` steps, one leads there in more steps too.
proof fn lemma_within_mono(g: Seq<Seq<usize>>, from: int, to: usize, d: nat, e: nat)
    requires
        creates_within(g, from, to, d),
        d <= e,
    ensures
        creates_within(g, from, to, e),
    decreases d,
{
    let k = choose|k: int|
        0 <= k < g[from].len() && (#[trigger] g[from][k] == to || creates_within(g, g[from][k] as int, to, (d - 1) as nat));
    if g[from][k] != to {
        lemma_within_mono(g, g[from][k] as int, to, (d - 1) as nat, (e - 1) as nat);
    }
}

/// Under a bound on the chains from `from`, leading to `to` at all means
/// leading there within the bound.
proof fn lemma_within_bounded(g: Seq<Seq<usize>>, from: int, to: usize, d: nat, e: nat)
    requires
        depth_below(g, from, d),
        creates_within(g, from, to, e),
    ensures
        creates_within(g, from, to, d),
    decreases e,
{
    let k = choose|k: int|
        0 <= k < g[from].len() && (#[trigger] g[from][k] == to || creates_within(g, g[from][k] as int, to, (e - 1) as nat));
    if g[from][k] != to {
        let m = g[from][k] as int;
        assert(depth_below(g, m, (d - 1) as nat));
        lemma_within_bounded(g, m, to, (d - 1) as nat, (e - 1) as nat);
    }
}

/// Whether the contract `from` leads to `to`, searching at most `d` steps
/// deep.
fn creates_within_depth(from: usize, to: usize, ns: &Namespace, Ghost(d): Ghost<nat>) -> (res: bool)
    requires
        from < ns.contracts@.len(),
        edges_in_range(creation_graph(ns.contracts@)),
        depth_below(creation_graph(ns.contracts@), from as int, d),
    ensures
        res == creates_within(creation_graph(ns.contracts@), from as int, to, d),
    decreases d,
{
    let ghost g = creation_graph(ns.contracts@);
    let creates = &ns.contracts[from].creates;
    assert(g[from as int] == creates@);
    assert(d > 0);
    let mut i: usize = 0;
    while i < creates.len()
        invariant
            i <= creates@.len(),
            d > 0,
            from < ns.contracts@.len(),
            g == creation_graph(ns.contracts@),
            g[from as int] == creates@,
            forall|j: int| 0 <= j < i ==> creates@[j] != to,
        decreases creates@.len() - i,
    {
        if creates[i] == to {
            assert(g[from as int][i as int] == to);
            return true;
        }
        i = i + 1;
    }
    let mut i: usize = 0;
    while i < creates.len()
        invariant
            i <= creates@.len(),
            from < ns.contracts@.len(),
            g == creation_graph(ns.contracts@),
            edges_in_range(g),
            depth_below(g, from as int, d),
            g[from as int] == creates@,
            forall|j: int| 0 <= j < creates@.len() ==> creates@[j] != to,
            forall|j: int| 0 <= j < i ==> !creates_within(g, creates@[j] as int, to, (d - 1) as nat),
        decreases creates@.len() - i,
    {
        assert(depth_below(g, g[from as int][i as int] as int, (d - 1) as nat));
        assert(g[from as int][i as int] < g.len());
        if creates_within_depth(creates[i], to, ns, Ghost((d - 1) as nat)) {
            assert(g[from as int][i as int] == creates@[i as int]);
            return true;
        }
        i = i + 1;
    }
    proof {
        assert forall|k: int| 0 <= k < g[from as int].len() implies !(#[trigger] g[from as int][k] == to
            || creates_within(g, g[from as int][k] as int, to, (d - 1) as nat)) by {
            assert(g[from as int][k] == creates@[k]);
        }
    }
    false
}

/// Whether the contract `from` creates `to`, directly or through the
/// contracts it creates.
pub fn circular_reference(from: usize, to: usize, ns: &Namespace) -> (res: bool)
    requires
        from < ns.contracts@.len(),
        well_founded(creation_graph(ns.contracts@)),
    ensures
        res == creates_transitively(creation_graph(ns.contracts@), from as int, to),
{
    let ghost g = creation_graph(ns.contracts@);
    let ghost d = choose|d: nat| #[trigger] bounded_by(g, d);
    assert(depth_below(g, from as int, d));
    let res = creates_within_depth(from, to, ns, Ghost(d));
    proof {
        if creates_transitively(g, from as int, to) {
            let e = choose|e: nat| creates_within(g, from as int, to, e);
            lemma_within_bounded(g, from as int, to, d, e);
        }
    }
    res
}

/// The contracts that the functions `fnos` create, each with where it is
/// created, in order.
pub open spec fn created_by(functions: Seq<Function>, fnos: Seq<usize>) -> Seq<(Loc, usize)>
    decreases fnos.len(),
{
    if fnos.len() == 0 {
        Seq::empty()
    } else {
        created_by(functions, fnos.drop_last()) + functions[fnos.last() as int].creates@
    }
}

/// The contracts that `c0` creates once the creations `cands` are checked,
/// starting from `start`, in the graph `g0`: a creation is kept unless it
/// creates `c0` itself, leads back to `c0`, or is there already.
pub open spec fn checked_creates(g0: Seq<Seq<usize>>, c0: usize, cands: Seq<(Loc, usize)>, start: Seq<usize>) -> Seq<usize>
    decreases cands.len(),
{
    if cands.len() == 0 {
        start
    } else {
        let prev = checked_creates(g0, c0, cands.drop_last(), start);
        let no = cands.last().1;
        if no == c0 || creates_transitively(g0, no as int, c0) || prev.contains(no) {
            prev
        } else {
            prev.push(no)
        }
    }
}

/// The errors for the creations `cands` that create `c0` itself, or lead
/// back to it in the graph `g0`.
pub open spec fn creation_diagnostics(g0: Seq<Seq<usize>>, c0: usize, cands: Seq<(Loc, usize)>, contracts: Seq<Contract>) -> Seq<DiagnosticView>
    decreases cands.len(),
{
    if cands.len() == 0 {
        Seq::empty()
    } else {
        let prev = creation_diagnostics(g0, c0, cands.drop_last(), contracts);
        let (loc, no) = cands.last();
        if no == c0 {
            prev.push(error_view(loc, "cannot construct current contract '"@ + contracts[no as int].name@ + "'"@))
        } else if creates_transitively(g0, no as int, c0) {
            prev.push(error_view(loc, "circular reference creating contract '"@ + contracts[no as int].name@ + "'"@))
        } else {
            prev
        }
    }
}

/// Whether `x` is one of `v`.
fn contains_usize(v: &Vec<usize>, x: usize) -> (res: bool)
    ensures
        res == v@.contains(x),
{
    let mut i: usize = 0;
    while i < v.len()
        invariant
            i <= v@.len(),
            forall|j: int| 0 <= j < i ==> v@[j] != x,
        decreases v@.len() - i,
    {
        if v[i] == x {
            return true;
        }
        i = i + 1;
    }
    false
}

/// Taking away the edges of one node keeps every bound on chains.
proof fn lemma_depth_without(g: Seq<Seq<usize>>, c0: int, x: int, d: nat)
    requires
        edges_in_range(g),
        0 <= c0 < g.len(),
        0 <= x < g.len(),
        depth_below(g, x, d),
    ensures
        depth_below(g.update(c0, Seq::empty()), x, d),
    decreases d,
{
    let g0 = g.update(c0, Seq::empty());
    assert forall|k: int| 0 <= k < g0[x].len() implies depth_below(g0, #[trigger] g0[x][k] as int, (d - 1) as nat) by {
        if x != c0 {
            assert(g0[x] == g[x]);
            assert(g[x][k] < g.len());
            lemma_depth_without(g, c0, g[x][k] as int, (d - 1) as nat);
        }
    }
}

/// A way through the graph without the edges of `c0` is a way through the
/// whole graph.
proof fn lemma_within_without(g: Seq<Seq<usize>>, c0: int, a: int, b: usize, e: nat)
    requires
        edges_in_range(g),
        0 <= c0 < g.len(),
        0 <= a < g.len(),
        creates_within(g.update(c0, Seq::empty()), a, b, e),
    ensures
        creates_within(g, a, b, e),
    decreases e,
{
    let g0 = g.update(c0, Seq::empty());
    let k = choose|k: int|
        0 <= k < g0[a].len() && (#[trigger] g0[a][k] == b || creates_within(g0, g0[a][k] as int, b, (e - 1) as nat));
    if a == c0 {
        assert(g0[a].len() == 0);
    }
    assert(g0[a] == g[a]);
    assert(g[a][k] == g0[a][k]);
    assert(g[a][k] < g.len());
    if g0[a][k] != b {
        lemma_within_without(g, c0, g0[a][k] as int, b, (e - 1) as nat);
    }
}

/// Following a way from `a` to `b` lowers the bound on chains by a step.
proof fn lemma_within_lowers_depth(g: Seq<Seq<usize>>, a: int, b: usize, e: nat, d: nat)
    requires
        creates_within(g, a, b, e),
        depth_below(g, a, d),
    ensures
        d >= 2,
        depth_below(g, b as int, (d - 1) as nat),
    decreases e,
{
    let k = choose|k: int|
        0 <= k < g[a].len() && (#[trigger] g[a][k] == b || creates_within(g, g[a][k] as int, b, (e - 1) as nat));
    let m = g[a][k] as int;
    assert(depth_below(g, m, (d - 1) as nat));
    if g[a][k] != b {
        lemma_within_lowers_depth(g, m, b, (e - 1) as nat, (d - 1) as nat);
        lemma_depth_below_mono(g, b as int, (d - 2) as nat, (d - 1) as nat);
    }
}

/// Where `x` leads back to itself, no bound holds on the chains from it.
proof fn lemma_no_cycle(g: Seq<Seq<usize>>, x: usize, e: nat, d: nat)
    requires
        creates_within(g, x as int, x, e),
    ensures
        !depth_below(g, x as int, d),
    decreases d,
{
    if depth_below(g, x as int, d) {
        lemma_within_lowers_depth(g, x as int, x, e, d);
        lemma_no_cycle(g, x, e, (d - 1) as nat);
    }
}

/// What checking creations keeps: the starting ones, and new ones that are
/// in the graph, are not `c0`, and do not lead back to it.
proof fn lemma_checked_creates(g0: Seq<Seq<usize>>, c0: usize, cands: Seq<(Loc, usize)>, start: Seq<usize>, n: nat)
    requires
        forall|k: int| 0 <= k < cands.len() ==> #[trigger] cands[k].1 < n,
    ensures
        forall|i: int| 0 <= i < checked_creates(g0, c0, cands, start).len() ==> {
            let y = #[trigger] checked_creates(g0, c0, cands, start)[i];
            start.contains(y) || (y < n && y != c0 && !creates_transitively(g0, y as int, c0))
        },
    decreases cands.len(),
{
    if cands.len() > 0 {
        let prev = checked_creates(g0, c0, cands.drop_last(), start);
        assert forall|k: int| 0 <= k < cands.drop_last().len() implies #[trigger] cands.drop_last()[k].1 < n by {
            assert(cands.drop_last()[k] == cands[k]);
        }
        lemma_checked_creates(g0, c0, cands.drop_last(), start, n);
        let res = checked_creates(g0, c0, cands, start);
        assert forall|i: int| 0 <= i < res.len() implies {
            let y = #[trigger] res[i];
            start.contains(y) || (y < n && y != c0 && !creates_transitively(g0, y as int, c0))
        } by {
            if i < prev.len() {
                assert(res[i] == prev[i]);
            } else {
                assert(cands[cands.len() - 1].1 < n);
            }
        }
    }
}

/// A node that does not lead to `c0` keeps its bound when the edges of
/// `c0` change.
proof fn lemma_depth_avoiding(g0: Seq<Seq<usize>>, c0: usize, l: Seq<usize>, y: int, d: nat)
    requires
        edges_in_range(g0),
        c0 < g0.len(),
        0 <= y < g0.len(),
        y != c0,
        !creates_transitively(g0, y, c0),
        depth_below(g0, y, d),
    ensures
        depth_below(g0.update(c0 as int, l), y, d),
    decreases d,
{
    let g1 = g0.update(c0 as int, l);
    assert(g1[y] == g0[y]);
    assert forall|k: int| 0 <= k < g1[y].len() implies depth_below(g1, #[trigger] g1[y][k] as int, (d - 1) as nat) by {
        let z = g0[y][k];
        assert(g1[y][k] == z);
        assert(z < g0.len());
        if z == c0 {
            assert(creates_within(g0, y, c0, 1));
        }
        if creates_transitively(g0, z as int, c0) {
            let e = choose|e: nat| creates_within(g0, z as int, c0, e);
            assert(creates_within(g0, y, c0, e + 1));
        }
        lemma_depth_avoiding(g0, c0, l, z as int, (d - 1) as nat);
    }
}

/// Any bound on chains without the edges of `c0` grows by at most the
/// bound for `c0` once it has edges.
proof fn lemma_depth_through(g0: Seq<Seq<usize>>, c0: usize, l: Seq<usize>, x: int, d: nat, m: nat)
    requires
        edges_in_range(g0),
        0 <= c0 < g0.len(),
        0 <= x < g0.len(),
        g0[c0 as int].len() == 0,
        depth_below(g0, x, d),
        depth_below(g0.update(c0 as int, l), c0 as int, m),
    ensures
        depth_below(g0.update(c0 as int, l), x, d + m),
    decreases d,
{
    let g1 = g0.update(c0 as int, l);
    if x == c0 {
        lemma_depth_below_mono(g1, x, m, d + m);
    } else {
        assert(g1[x] == g0[x]);
        assert forall|k: int| 0 <= k < g1[x].len() implies depth_below(g1, #[trigger] g1[x][k] as int, (d + m - 1) as nat) by {
            assert(g1[x][k] == g0[x][k]);
            assert(g0[x][k] < g0.len());
            lemma_depth_through(g0, c0, l, g0[x][k] as int, (d - 1) as nat, m);
        }
    }
}

/// Checking the contracts that a contract creates keeps the creation graph
/// free of cycles: where no contract led back to itself before, none does
/// after the creations that passed the check are added.
pub proof fn law_check_keeps_creation_acyclic(g: Seq<Seq<usize>>, c0: usize, cands: Seq<(Loc, usize)>)
    requires
        well_founded(g),
        c0 < g.len(),
        forall|k: int| 0 <= k < cands.len() ==> #[trigger] cands[k].1 < g.len(),
    ensures
        well_founded(g.update(c0 as int, checked_creates(g.update(c0 as int, Seq::empty()), c0, cands, g[c0 as int]))),
{
    let g0 = g.update(c0 as int, Seq::empty());
    let l = checked_creates(g0, c0, cands, g[c0 as int]);
    let g1 = g0.update(c0 as int, l);
    assert(g.update(c0 as int, l) =~= g1);
    let d = choose|d: nat| #[trigger] bounded_by(g, d);
    assert forall|x: int| 0 <= x < g0.len() implies #[trigger] depth_below(g0, x, d) by {
        assert(depth_below(g, x, d));
        lemma_depth_without(g, c0 as int, x, d);
    }
    lemma_checked_creates(g0, c0, cands, g[c0 as int], g.len());
    // Each contract that `c0` creates afterwards keeps its bound.
    assert forall|k: int| 0 <= k < l.len() implies depth_below(g1, #[trigger] l[k] as int, d) by {
        let y = l[k];
        if g[c0 as int].contains(y) {
            let j = choose|j: int| 0 <= j < g[c0 as int].len() && g[c0 as int][j] == y;
            assert(g[c0 as int][j] < g.len());
            assert(depth_below(g, c0 as int, d));
            if y == c0 {
                assert(creates_within(g, c0 as int, c0, 1));
                lemma_no_cycle(g, c0, 1, d);
            }
            if creates_transitively(g0, y as int, c0) {
                let e = choose|e: nat| creates_within(g0, y as int, c0, e);
                lemma_within_without(g, c0 as int, y as int, c0, e);
                assert(creates_within(g, c0 as int, c0, e + 1));
                lemma_no_cycle(g, c0, e + 1, d);
            }
        }
        assert(y < g.len());
        lemma_depth_avoiding(g0, c0, l, y as int, d);
    }
    assert(g1[c0 as int] == l);
    assert(depth_below(g1, c0 as int, d + 1));
    assert forall|x: int| 0 <= x < g1.len() implies #[trigger] depth_below(g1, x, d + (d + 1)) by {
        lemma_depth_through(g0, c0, l, x, d, d + 1);
    }
    assert(bounded_by(g1, d + (d + 1)));
    assert forall|x: int, k: int| 0 <= x < g1.len() && 0 <= k < g1[x].len() implies #[trigger] g1[x][k] < g1.len() by {
        if x != c0 {
            assert(g1[x] == g[x]);
        }
    }
}

/// What checking creations keeps holds what it started from and every
/// creation that passes the check.
proof fn lemma_checked_keeps(g0: Seq<Seq<usize>>, c0: usize, cands: Seq<(Loc, usize)>, start: Seq<usize>)
    ensures
        forall|y: usize| start.contains(y) ==> #[trigger] checked_creates(g0, c0, cands, start).contains(y),
        forall|k: int| 0 <= k < cands.len() && cands[k].1 != c0 && !creates_transitively(g0, cands[k].1 as int, c0)
            ==> checked_creates(g0, c0, cands, start).contains(#[trigger] cands[k].1),
    decreases cands.len(),
{
    if cands.len() > 0 {
        let init = cands.drop_last();
        lemma_checked_keeps(g0, c0, init, start);
        let prev = checked_creates(g0, c0, init, start);
        let res = checked_creates(g0, c0, cands, start);
        assert forall|y: usize| prev.contains(y) implies res.contains(y) by {
            let j = choose|j: int| 0 <= j < prev.len() && prev[j] == y;
            if res != prev {
                assert(res[j] == y);
            }
        }
        assert forall|k: int| 0 <= k < cands.len() && cands[k].1 != c0 && !creates_transitively(g0, cands[k].1 as int, c0)
            implies res.contains(#[trigger] cands[k].1) by {
            if k < init.len() {
                assert(init[k] == cands[k]);
                assert(prev.contains(init[k].1));
            } else if !prev.contains(cands[k].1) {
                assert(res[prev.len() as int] == cands[k].1);
            }
        }
    }
}

/// Checking creations again from a list that holds every creation that
/// passes the check leaves the list as it is.
proof fn lemma_checked_again(g0: Seq<Seq<usize>>, c0: usize, cands: Seq<(Loc, usize)>, l: Seq<usize>)
    requires
        forall|k: int| 0 <= k < cands.len() && cands[k].1 != c0 && !creates_transitively(g0, cands[k].1 as int, c0)
            ==> l.contains(#[trigger] cands[k].1),
    ensures
        checked_creates(g0, c0, cands, l) == l,
    decreases cands.len(),
{
    if cands.len() > 0 {
        let init = cands.drop_last();
        assert forall|k: int| 0 <= k < init.len() && init[k].1 != c0 && !creates_transitively(g0, init[k].1 as int, c0)
            implies l.contains(#[trigger] init[k].1) by {
            assert(init[k] == cands[k]);
        }
        lemma_checked_again(g0, c0, init, l);
        let last = cands.len() - 1;
        assert(cands.last() == cands[last]);
    }
}

/// Checking the contracts that a contract creates a second time, with the
/// same creations, changes nothing: the contracts it creates stay as the
/// first check left them.
pub proof fn law_check_creations_idempotent(g: Seq<Seq<usize>>, c0: usize, cands: Seq<(Loc, usize)>)
    requires
        c0 < g.len(),
    ensures
        ({
            let g0 = g.update(c0 as int, Seq::empty());
            let l1 = checked_creates(g0, c0, cands, g[c0 as int]);
            let g1 = g.update(c0 as int, l1);
            checked_creates(g1.update(c0 as int, Seq::empty()), c0, cands, g1[c0 as int]) == l1
        }),
{
    let g0 = g.update(c0 as int, Seq::empty());
    let l1 = checked_creates(g0, c0, cands, g[c0 as int]);
    let g1 = g.update(c0 as int, l1);
    assert(g1.update(c0 as int, Seq::empty()) =~= g0);
    lemma_checked_keeps(g0, c0, cands, g[c0 as int]);
    lemma_checked_again(g0, c0, cands, l1);
}

/// The contracts that the functions of contract `contract_no` create are
/// in the namespace.
pub open spec fn creations_in_range(ns: &Namespace, contract_no: usize) -> bool {
    let fnos = index_map_keys(ns.contracts@[contract_no as int].all_functions);
    forall|m: int, k: int| 0 <= m < fnos.len() && 0 <= k < ns.functions@[fnos[m] as int].creates@.len()
        ==> #[trigger] ns.functions@[fnos[m] as int].creates@[k].1 < ns.contracts@.len()
}

/// The contracts that functions create are in range where each function
/// creates only contracts in range.
pub proof fn lemma_created_by_in_range(functions: Seq<Function>, fnos: Seq<usize>, n: nat)
    requires
        forall|m: int, k: int| 0 <= m < fnos.len() && 0 <= k < functions[fnos[m] as int].creates@.len()
            ==> #[trigger] functions[fnos[m] as int].creates@[k].1 < n,
    ensures
        forall|k: int| 0 <= k < created_by(functions, fnos).len() ==> #[trigger] created_by(functions, fnos)[k].1 < n,
    decreases fnos.len(),
{
    if fnos.len() > 0 {
        let init = fnos.drop_last();
        assert forall|m: int, k: int| 0 <= m < init.len() && 0 <= k < functions[init[m] as int].creates@.len()
            implies #[trigger] functions[init[m] as int].creates@[k].1 < n by {
            assert(init[m] == fnos[m]);
        }
        lemma_created_by_in_range(functions, init, n);
        let last = functions[fnos.last() as int].creates@;
        assert forall|k: int| 0 <= k < created_by(functions, fnos).len() implies #[trigger] created_by(functions, fnos)[k].1 < n by {
            let prev = created_by(functions, init);
            if k >= prev.len() {
                assert(created_by(functions, fnos)[k] == last[k - prev.len()]);
                assert(functions[fnos[fnos.len() - 1] as int].creates@[k - prev.len()].1 < n);
            } else {
                assert(created_by(functions, fnos)[k] == prev[k]);
            }
        }
    }
}

/// Check that contract `contract_no` does not create itself or a contract
/// that creates it, directly or indirectly: each creation in its functions
/// that does is an error, and each other one is added to the contracts it
/// creates.
pub fn check_circular_reference(contract_no: usize, ns: &mut Namespace)
    requires
        contract_no < old(ns).contracts@.len(),
        well_founded(creation_graph(old(ns).contracts@)),
        functions_in_range(old(ns).functions@, index_map_keys(old(ns).contracts@[contract_no as int].all_functions)),
        creations_in_range(old(ns), contract_no),
    ensures
        ({
            let g = creation_graph(old(ns).contracts@);
            let g0 = g.update(contract_no as int, Seq::empty());
            let cands = created_by(old(ns).functions@, index_map_keys(old(ns).contracts@[contract_no as int].all_functions));
            &&& creation_graph(final(ns).contracts@)
                == g.update(contract_no as int, checked_creates(g0, contract_no, cands, g[contract_no as int]))
            &&& final(ns).diagnostics@ == old(ns).diagnostics@ + creation_diagnostics(g0, contract_no, cands, old(ns).contracts@)
        }),
        well_founded(creation_graph(final(ns).contracts@)),
        final(ns).contracts@.len() == old(ns).contracts@.len(),
        forall|c: int| 0 <= c < old(ns).contracts@.len() && c != contract_no ==> final(ns).contracts@[c] == old(ns).contracts@[c],
        final(ns).contracts@[contract_no as int].name == old(ns).contracts@[contract_no as int].name,
        final(ns).contracts@[contract_no as int].ty == old(ns).contracts@[contract_no as int].ty,
        final(ns).contracts@[contract_no as int].instantiable == old(ns).contracts@[contract_no as int].instantiable,
        final(ns).contracts@[contract_no as int].all_functions == old(ns).contracts@[contract_no as int].all_functions,
        final(ns).contracts@[contract_no as int].bases == old(ns).contracts@[contract_no as int].bases,
        final(ns).files == old(ns).files,
        final(ns).target == old(ns).target,
        final(ns).address_length == old(ns).address_length,
        final(ns).value_length == old(ns).value_length,
        final(ns).enums == old(ns).enums,
        final(ns).structs == old(ns).structs,
        final(ns).user_types == old(ns).user_types,
        final(ns).functions == old(ns).functions,
        final(ns).function_symbols == old(ns).function_symbols,
{
    let ghost contracts0 = ns.contracts@;
    let ghost g = creation_graph(contracts0);
    let ghost g0 = g.update(contract_no as int, Seq::empty());
    let ghost fnos = index_map_keys(contracts0[contract_no as int].all_functions);
    let ghost cands = created_by(ns.functions@, fnos);
    let mut creates: Vec<usize> = Vec::new();
    let mut diagnostics = Diagnostics::new();
    std::mem::swap(&mut creates, &mut ns.contracts[contract_no].creates);
    assert(creation_graph(ns.contracts@) =~= g0);
    assert(creates@ == g[contract_no as int]);
    proof {
        let d = choose|d: nat| #[trigger] bounded_by(g, d);
        assert forall|x: int| 0 <= x < g0.len() implies #[trigger] depth_below(g0, x, d) by {
            assert(depth_below(g, x, d));
            lemma_depth_without(g, contract_no as int, x, d);
        }
        assert(bounded_by(g0, d));
    }
    let fns = keys_of(&ns.contracts[contract_no].all_functions);
    assert(fns@ == fnos);
    let mut i: usize = 0;
    while i < fns.len()
        invariant
            i <= fns@.len(),
            fns@ == fnos,
            contract_no < ns.contracts@.len(),
            ns.contracts@.len() == contracts0.len(),
            creation_graph(ns.contracts@) == g0,
            well_founded(g0),
            forall|c: int| 0 <= c < contracts0.len() ==> #[trigger] ns.contracts@[c].name == contracts0[c].name,
            functions_in_range(ns.functions@, fnos),
            cands == created_by(ns.functions@, fnos),
            forall|m: int, k: int| 0 <= m < fnos.len() && 0 <= k < ns.functions@[fnos[m] as int].creates@.len()
                ==> #[trigger] ns.functions@[fnos[m] as int].creates@[k].1 < contracts0.len(),
            creates@ == checked_creates(g0, contract_no, created_by(ns.functions@, fnos.take(i as int)), g[contract_no as int]),
            diagnostics@ == creation_diagnostics(g0, contract_no, created_by(ns.functions@, fnos.take(i as int)), contracts0),
        decreases fnos.len() - i,
    {
        let function_no = fns[i];
        let fc = &ns.functions[function_no].creates;
        let ghost before = created_by(ns.functions@, fnos.take(i as int));
        assert(fnos[i as int] == function_no);
        assert forall|k: int| 0 <= k < fc@.len() implies #[trigger] fc@[k].1 < contracts0.len() by {
            assert(ns.functions@[fnos[i as int] as int].creates@[k].1 < contracts0.len());
        }
        let mut j: usize = 0;
        while j < fc.len()
            invariant
                j <= fc@.len(),
                i < fnos.len(),
                function_no == fnos[i as int],
                function_no < ns.functions@.len(),
                fc@ == ns.functions@[function_no as int].creates@,
                contract_no < ns.contracts@.len(),
                ns.contracts@.len() == contracts0.len(),
                creation_graph(ns.contracts@) == g0,
                well_founded(g0),
                forall|c: int| 0 <= c < contracts0.len() ==> #[trigger] ns.contracts@[c].name == contracts0[c].name,
                forall|k: int| 0 <= k < fc@.len() ==> #[trigger] fc@[k].1 < contracts0.len(),
                creates@ == checked_creates(g0, contract_no, before + fc@.take(j as int), g[contract_no as int]),
                diagnostics@ == creation_diagnostics(g0, contract_no, before + fc@.take(j as int), contracts0),
            decreases fc@.len() - j,
        {
            let (loc, no) = fc[j];
            let ghost prefix = before + fc@.take(j as int);
            assert((before + fc@.take(j + 1)).drop_last() =~= prefix);
            assert((before + fc@.take(j + 1)).last() == fc@[j as int]);
            if no == contract_no {
                let mut out: Vec<char> = Vec::new();
                push_str(&mut out, "cannot construct current contract '");
                push_str(&mut out, ns.contracts[no].name.as_str());
                push_str(&mut out, "'");
                diagnostics.push(Diagnostic::error(loc, string_from_chars(&out)));
            } else if circular_reference(no, contract_no, ns) {
                let mut out: Vec<char> = Vec::new();
                push_str(&mut out, "circular reference creating contract '");
                push_str(&mut out, ns.contracts[no].name.as_str());
                push_str(&mut out, "'");
                diagnostics.push(Diagnostic::error(loc, string_from_chars(&out)));
            } else if !contains_usize(&creates, no) {
                creates.push(no);
            }
            j = j + 1;
        }
        assert(fc@.take(j as int) =~= fc@);
        assert(fnos.take(i + 1).drop_last() =~= fnos.take(i as int));
        i = i + 1;
    }
    assert(fnos.take(i as int) =~= fnos);
    let ghost result = creates@;
    std::mem::swap(&mut creates, &mut ns.contracts[contract_no].creates);
    ns.diagnostics.extend(diagnostics);
    assert(creation_graph(ns.contracts@) =~= g.update(contract_no as int, result));
    proof {
        lemma_created_by_in_range(old(ns).functions@, fnos, g.len());
        law_check_keeps_creation_acyclic(g, contract_no, cands);
    }
}

/// Whether the functions of contract `contract_no` are in the namespace
/// and create only contracts that are.
fn creations_checkable(contract_no: usize, ns: &Namespace) -> (res: bool)
    requires
        contract_no < ns.contracts@.len(),
    ensures
        res == (functions_in_range(ns.functions@, index_map_keys(ns.contracts@[contract_no as int].all_functions))
            && creations_in_range(ns, contract_no)),
{
    let fnos = keys_of(&ns.contracts[contract_no].all_functions);
    if !crate::function_call::all_below(&fnos, ns.functions.len()) {
        return false;
    }
    let mut m: usize = 0;
    while m < fnos.len()
        invariant
            m <= fnos@.len(),
            contract_no < ns.contracts@.len(),
            fnos@ == index_map_keys(ns.contracts@[contract_no as int].all_functions),
            functions_in_range(ns.functions@, fnos@),
            forall|m2: int, k: int| 0 <= m2 < m && 0 <= k < ns.functions@[fnos@[m2] as int].creates@.len()
                ==> #[trigger] ns.functions@[fnos@[m2] as int].creates@[k].1 < ns.contracts@.len(),
        decreases fnos@.len() - m,
    {
        let creates = &ns.functions[fnos[m]].creates;
        let mut k: usize = 0;
        while k < creates.len()
            invariant
                k <= creates@.len(),
                m < fnos@.len(),
                contract_no < ns.contracts@.len(),
                fnos@ == index_map_keys(ns.contracts@[contract_no as int].all_functions),
                functions_in_range(ns.functions@, fnos@),
                fnos@[m as int] < ns.functions@.len(),
                creates@ == ns.functions@[fnos@[m as int] as int].creates@,
                forall|m2: int, k2: int| 0 <= m2 < m && 0 <= k2 < ns.functions@[fnos@[m2] as int].creates@.len()
                    ==> #[trigger] ns.functions@[fnos@[m2] as int].creates@[k2].1 < ns.contracts@.len(),
                forall|k2: int| 0 <= k2 < k ==> #[trigger] creates@[k2].1 < ns.contracts@.len(),
            decreases creates@.len() - k,
        {
            if creates[k].1 >= ns.contracts.len() {
                assert(!creations_in_range(ns, contract_no)) by {
                    let fk = index_map_keys(ns.contracts@[contract_no as int].all_functions);
                    assert(fk[m as int] == fnos@[m as int]);
                    assert(!(ns.functions@[fk[m as int] as int].creates@[k as int].1 < ns.contracts@.len()));
                }
                return false;
            }
            k = k + 1;
        }
        assert forall|m2: int, k2: int| 0 <= m2 < m + 1 && 0 <= k2 < ns.functions@[fnos@[m2] as int].creates@.len()
            implies #[trigger] ns.functions@[fnos@[m2] as int].creates@[k2].1 < ns.contracts@.len() by {
            if m2 == m {
                assert(creates@[k2].1 < ns.contracts@.len());
            }
        }
        m = m + 1;
    }
    true
}

/// Check the creations of contract `contract_no`, as
/// `check_circular_reference` does, where its functions are in the
/// namespace and create only contracts that are; tell whether it did.
/// Otherwise the namespace is left as it is.
pub fn checked_circular_reference(contract_no: usize, ns: &mut Namespace) -> (ran: bool)
    requires
        contract_no < old(ns).contracts@.len(),
        well_founded(creation_graph(old(ns).contracts@)),
    ensures
        ran == (functions_in_range(old(ns).functions@, index_map_keys(old(ns).contracts@[contract_no as int].all_functions))
            && creations_in_range(old(ns), contract_no)),
        ran ==> ({
            let g = creation_graph(old(ns).contracts@);
            let g0 = g.update(contract_no as int, Seq::empty());
            let cands = created_by(old(ns).functions@, index_map_keys(old(ns).contracts@[contract_no as int].all_functions));
            &&& creation_graph(final(ns).contracts@)
                == g.update(contract_no as int, checked_creates(g0, contract_no, cands, g[contract_no as int]))
            &&& final(ns).diagnostics@ == old(ns).diagnostics@ + creation_diagnostics(g0, contract_no, cands, old(ns).contracts@)
            &&& well_founded(creation_graph(final(ns).contracts@))
        }),
        !ran ==> *final(ns) == *old(ns),
{
    if creations_checkable(contract_no, ns) {
        check_circular_reference(contract_no, ns);
        true
    } else {
        false
    }
}

/// The message for the old syntax of call arguments.
pub open spec fn deprecated_message(name: Seq<char>) -> Seq<char> {
    "deprecated call argument syntax '."@ + name + "(...)' is not supported, use '{"@ + name + ": ...}' instead"@
}

/// Where the old syntax of a call argument is reported: from the argument
/// name to the end of the call.
pub open spec fn deprecated_loc(call_arg: Identifier, func_loc: Loc) -> Loc {
    match call_arg.loc {
        Loc::File(file_no, start, _) => Loc::File(file_no, start, func_loc->File_2),
        other => other,
    }
}

/// Whether `expr` is, after a pair of parentheses, a `new` expression whose
/// call arguments are given in the old syntax `(new C).value(1)(...)`, and
/// the diagnostics for each such argument, from the innermost out. `None`
/// where a diagnostic would need the end of a location that is not in a
/// file.
pub open spec fn deprecated_arguments(expr: Expression) -> Option<(bool, Seq<DiagnosticView>)>
    decreases expr,
{
    match expr {
        Expression::Parenthesis(_, inner) => match *inner {
            Expression::FunctionCall(func_loc, ty, _) => deprecated_call(func_loc, *ty),
            Expression::New(..) => Some((false, Seq::empty())),
            _ => Some((true, Seq::empty())),
        },
        Expression::FunctionCall(func_loc, ty, _) => deprecated_call(func_loc, *ty),
        Expression::New(..) => Some((false, Seq::empty())),
        _ => Some((true, Seq::empty())),
    }
}

/// The outcome for a call at `func_loc` of the expression `ty`.
pub open spec fn deprecated_call(func_loc: Loc, ty: Expression) -> Option<(bool, Seq<DiagnosticView>)>
    decreases ty,
{
    match ty {
        Expression::MemberAccess(_, base, call_arg) => match deprecated_arguments(*base) {
            Some((true, d)) => Some((true, d)),
            Some((false, d)) => if call_arg.loc is File && !(func_loc is File) {
                None
            } else {
                Some((false, d.push(error_view(deprecated_loc(call_arg, func_loc), deprecated_message(call_arg.name@)))))
            },
            None => None,
        },
        _ => Some((true, Seq::empty())),
    }
}

/// Is it an `(new C).value(1).gas(2)(1, 2, 3)` style constructor (not
/// supported)? Each such call argument is reported.
pub fn deprecated_constructor_arguments(expr: &Expression, diagnostics: &mut Diagnostics) -> (res: Result<(), ()>)
    requires
        deprecated_arguments(*expr) is Some,
    ensures
        ({
            let (ok, d) = deprecated_arguments(*expr)->0;
            &&& res is Ok == ok
            &&& final(diagnostics)@ == old(diagnostics)@ + d
        }),
    decreases expr, 1int,
{
    match expr.remove_parenthesis() {
        Expression::FunctionCall(func_loc, ty, _) => {
            assert(deprecated_arguments(*expr) == deprecated_call(*func_loc, **ty));
            deprecated_call_arguments(func_loc, ty, diagnostics)
        },
        Expression::New(..) => {
            assert(old(diagnostics)@ + Seq::<DiagnosticView>::empty() =~= old(diagnostics)@);
            Err(())
        },
        _ => {
            assert(old(diagnostics)@ + Seq::<DiagnosticView>::empty() =~= old(diagnostics)@);
            Ok(())
        },
    }
}

fn deprecated_call_arguments(func_loc: &Loc, ty: &Expression, diagnostics: &mut Diagnostics) -> (res: Result<(), ()>)
    requires
        deprecated_call(*func_loc, *ty) is Some,
    ensures
        ({
            let (ok, d) = deprecated_call(*func_loc, *ty)->0;
            &&& res is Ok == ok
            &&& final(diagnostics)@ == old(diagnostics)@ + d
        }),
    decreases ty, 0int,
{
    if let Expression::MemberAccess(_, base, call_arg) = ty {
        if deprecated_constructor_arguments(base, diagnostics).is_err() {
            let loc = match call_arg.loc {
                Loc::File(file_no, start, _) => {
                    let end = match func_loc {
                        Loc::File(_, _, end) => *end,
                        _ => 0,
                    };
                    Loc::File(file_no, start, end)
                },
                other => other,
            };
            let mut out: Vec<char> = Vec::new();
            push_str(&mut out, "deprecated call argument syntax '.");
            push_str(&mut out, call_arg.name.as_str());
            push_str(&mut out, "(...)' is not supported, use '{");
            push_str(&mut out, call_arg.name.as_str());
            push_str(&mut out, ": ...}' instead");
            diagnostics.push(Diagnostic::error(loc, string_from_chars(&out)));
            let ghost outcome = deprecated_call(*func_loc, *ty)->0;
            assert(final(diagnostics)@ =~= old(diagnostics)@ + outcome.1);
            return Err(());
        }
        return Ok(());
    }
    assert(old(diagnostics)@ + Seq::<DiagnosticView>::empty() =~= old(diagnostics)@);
    Ok(())
}

/// Adding the creation of `y` to contract `c0` keeps the creation graph
/// free of cycles where `y` is not `c0` and does not lead back to it.
pub proof fn law_added_creation_keeps_acyclic(g: Seq<Seq<usize>>, c0: usize, y: usize)
    requires
        well_founded(g),
        c0 < g.len(),
        y < g.len(),
        y != c0,
        !creates_transitively(g, y as int, c0),
    ensures
        well_founded(g.update(c0 as int, g[c0 as int].push(y))),
{
    let g0 = g.update(c0 as int, Seq::empty());
    let l = g[c0 as int].push(y);
    let g1 = g0.update(c0 as int, l);
    assert(g.update(c0 as int, l) =~= g1);
    let d = choose|d: nat| #[trigger] bounded_by(g, d);
    assert forall|x: int| 0 <= x < g0.len() implies #[trigger] depth_below(g0, x, d) by {
        assert(depth_below(g, x, d));
        lemma_depth_without(g, c0 as int, x, d);
    }
    assert forall|x: int, k: int| 0 <= x < g0.len() && 0 <= k < g0[x].len() implies #[trigger] g0[x][k] < g0.len() by {
        assert(g0[x] == g[x]);
    }
    assert forall|k: int| 0 <= k < l.len() implies depth_below(g1, #[trigger] l[k] as int, d) by {
        let z = l[k];
        if k < g[c0 as int].len() {
            assert(z == g[c0 as int][k]);
            assert(z < g.len());
            assert(depth_below(g, c0 as int, d));
            if z == c0 {
                assert(creates_within(g, c0 as int, c0, 1));
                lemma_no_cycle(g, c0, 1, d);
            }
            if creates_transitively(g0, z as int, c0) {
                let e = choose|e: nat| creates_within(g0, z as int, c0, e);
                lemma_within_without(g, c0 as int, z as int, c0, e);
                assert(creates_within(g, c0 as int, c0, e + 1));
                lemma_no_cycle(g, c0, e + 1, d);
            }
        } else {
            assert(z == y);
            if creates_transitively(g0, z as int, c0) {
                let e = choose|e: nat| creates_within(g0, z as int, c0, e);
                lemma_within_without(g, c0 as int, z as int, c0, e);
            }
        }
        lemma_depth_avoiding(g0, c0, l, z as int, d);
    }
    assert(g1[c0 as int] == l);
    assert(depth_below(g1, c0 as int, d + 1));
    assert forall|x: int| 0 <= x < g1.len() implies #[trigger] depth_below(g1, x, d + (d + 1)) by {
        lemma_depth_through(g0, c0, l, x, d, d + 1);
    }
    assert(bounded_by(g1, d + (d + 1)));
    assert forall|x: int, k: int| 0 <= x < g1.len() && 0 <= k < g1[x].len() implies #[trigger] g1[x][k] < g1.len() by {
        if x != c0 {
            assert(g1[x] == g[x]);
        }
    }
}

/// The message for a contract that cannot be constructed.
pub open spec fn not_instantiable_message(c: Contract) -> Seq<char> {
    "cannot construct '"@ + c.name@ + "' of type '"@ + c.ty.spec_name() + "'"@
}

/// The message for a constructor call that needs its accounts argument.
pub open spec fn accounts_needed_message() -> Seq<char> {
    "the {accounts: ..} call argument is needed since the constructor may be called multiple times"@
}

/// The diagnostics of a constructor call of contract `ccn` on Solana at
/// `loc`: the contract must be instantiable; the call must stand in a
/// contract that it does not lead back to; and a call in a loop of an
/// external function must give its accounts.
pub open spec fn solana_constructor_diagnostics(
    loc: Loc,
    ccn: usize,
    context: ExprContext,
    call_args: CallArgs,
    contracts: Seq<Contract>,
    functions: Seq<Function>,
) -> Seq<DiagnosticView> {
    let c = contracts[ccn as int];
    let instantiable = if c.instantiable {
        Seq::empty()
    } else {
        seq![error_view(loc, not_instantiable_message(c))]
    };
    let placement = match context.contract_no {
        Some(cc) => if creates_transitively(creation_graph(contracts), ccn as int, cc) {
            seq![error_view(loc, "circular reference creating contract '"@ + c.name@ + "'"@)]
        } else {
            Seq::empty()
        },
        None => seq![error_view(loc, "constructors not allowed in free standing functions"@)],
    };
    let accounts = if context.loops.scopes@.len() > 0 && (call_args.accounts is AbsentArgument)
        && (context.function_no matches Some(f) && functions[f as int].visibility is External) {
        seq![error_view(loc, accounts_needed_message())]
    } else {
        Seq::empty()
    };
    instantiable + placement + accounts
}

/// The creation graph after a constructor call of contract `ccn`: the
/// contract the call stands in creates `ccn`, once.
pub open spec fn graph_after_construction(g: Seq<Seq<usize>>, ccn: usize, context_contract: Option<usize>) -> Seq<Seq<usize>> {
    match context_contract {
        Some(cc) => if g[cc as int].contains(ccn) {
            g
        } else {
            g.update(cc as int, g[cc as int].push(ccn))
        },
        None => g,
    }
}

/// A second constructor call of the same contract from the same contract
/// records no further creation.
pub proof fn law_construction_recorded_once(g: Seq<Seq<usize>>, ccn: usize, context_contract: Option<usize>)
    requires
        context_contract matches Some(cc) ==> cc < g.len(),
    ensures
        graph_after_construction(graph_after_construction(g, ccn, context_contract), ccn, context_contract)
            == graph_after_construction(g, ccn, context_contract),
{
    if let Some(cc) = context_contract {
        if !g[cc as int].contains(ccn) {
            let g1 = g.update(cc as int, g[cc as int].push(ccn));
            assert(g1[cc as int][g[cc as int].len() as int] == ccn);
            assert(g1[cc as int].contains(ccn));
        }
    }
}

/// Two contracts agree but for the contracts they create.
pub open spec fn same_but_creates(a: Contract, b: Contract) -> bool {
    &&& a.ty == b.ty
    &&& a.name == b.name
    &&& a.instantiable == b.instantiable
    &&& a.all_functions == b.all_functions
    &&& a.bases == b.bases
}

/// When calling a constructor on Solana, check that the contract being
/// instantiated can be, that the call stands in a contract that the new one
/// does not lead back to (which from now on creates it), and that a call
/// inside a loop gives the accounts argument where the function is
/// external.
pub fn solana_constructor_check(
    loc: &Loc,
    constructor_contract_no: usize,
    diagnostics: &mut Diagnostics,
    context: &mut ExprContext,
    call_args: &CallArgs,
    ns: &mut Namespace,
)
    requires
        constructor_contract_no < old(ns).contracts@.len(),
        well_founded(creation_graph(old(ns).contracts@)),
        old(context).contract_no matches Some(cc) ==> cc < old(ns).contracts@.len(),
        old(context).function_no matches Some(f) ==> f < old(ns).functions@.len(),
    ensures
        final(diagnostics)@ == old(diagnostics)@ + solana_constructor_diagnostics(
            *loc,
            constructor_contract_no,
            *old(context),
            *call_args,
            old(ns).contracts@,
            old(ns).functions@,
        ),
        creation_graph(final(ns).contracts@)
            == graph_after_construction(creation_graph(old(ns).contracts@), constructor_contract_no, old(context).contract_no),
        old(context).contract_no matches Some(cc) && cc != constructor_contract_no
            && !creates_transitively(creation_graph(old(ns).contracts@), constructor_contract_no as int, cc)
            ==> well_founded(creation_graph(final(ns).contracts@)),
        final(ns).contracts@.len() == old(ns).contracts@.len(),
        forall|c: int| 0 <= c < old(ns).contracts@.len()
            ==> same_but_creates(#[trigger] final(ns).contracts@[c], old(ns).contracts@[c]),
        *final(context) == *old(context),
        final(ns).files == old(ns).files,
        final(ns).target == old(ns).target,
        final(ns).address_length == old(ns).address_length,
        final(ns).value_length == old(ns).value_length,
        final(ns).enums == old(ns).enums,
        final(ns).structs == old(ns).structs,
        final(ns).user_types == old(ns).user_types,
        final(ns).functions == old(ns).functions,
        final(ns).function_symbols == old(ns).function_symbols,
        final(ns).diagnostics == old(ns).diagnostics,
{
    let ghost contracts0 = ns.contracts@;
    let ghost g = creation_graph(contracts0);
    let ghost d0 = diagnostics@;
    let ccn = constructor_contract_no;
    let ghost c = contracts0[ccn as int];
    if !ns.contracts[ccn].instantiable {
        let mut out: Vec<char> = Vec::new();
        push_str(&mut out, "cannot construct '");
        push_str(&mut out, ns.contracts[ccn].name.as_str());
        push_str(&mut out, "' of type '");
        push_str(&mut out, ns.contracts[ccn].ty.name());
        push_str(&mut out, "'");
        diagnostics.push(Diagnostic::error(*loc, string_from_chars(&out)));
    }
    let ghost d1 = diagnostics@;
    if let Some(context_contract) = context.contract_no {
        if circular_reference(ccn, context_contract, ns) {
            let mut out: Vec<char> = Vec::new();
            push_str(&mut out, "circular reference creating contract '");
            push_str(&mut out, ns.contracts[ccn].name.as_str());
            push_str(&mut out, "'");
            diagnostics.push(Diagnostic::error(*loc, string_from_chars(&out)));
        }
        if !contains_usize(&ns.contracts[context_contract].creates, ccn) {
            let mut creates: Vec<usize> = Vec::new();
            std::mem::swap(&mut creates, &mut ns.contracts[context_contract].creates);
            creates.push(ccn);
            std::mem::swap(&mut creates, &mut ns.contracts[context_contract].creates);
            assert(creation_graph(ns.contracts@) =~= g.update(context_contract as int, g[context_contract as int].push(ccn)));
            proof {
                if context_contract != ccn && !creates_transitively(g, ccn as int, context_contract) {
                    law_added_creation_keeps_acyclic(g, context_contract, ccn);
                }
            }
        } else {
            assert(creation_graph(ns.contracts@) =~= g);
        }
    } else {
        diagnostics.push(Diagnostic::error(*loc, String::from_str("constructors not allowed in free standing functions")));
    }
    let ghost d2 = diagnostics@;
    if !context.loops.in_a_loop() || !call_args.accounts.is_absent() {
        assert(diagnostics@ =~= d0 + solana_constructor_diagnostics(*loc, ccn, *context, *call_args, contracts0, ns.functions@));
        return;
    }
    if let Some(function_no) = context.function_no {
        let external = match ns.functions[function_no].visibility {
            Visibility::External(_) => true,
            _ => false,
        };
        if external {
            diagnostics.push(Diagnostic::error(
                *loc,
                String::from_str("the {accounts: ..} call argument is needed since the constructor may be called multiple times"),
            ));
        }
    }
    assert(diagnostics@ =~= d0 + solana_constructor_diagnostics(*loc, ccn, *context, *call_args, contracts0, ns.functions@));
}


/// A constructor call outside every loop, of a contract that can be
/// constructed, from a contract that it does not lead back to, reports
/// nothing, whatever the call arguments and the function it stands in.
pub proof fn law_constructor_outside_loops_reports_nothing(
    loc: Loc,
    ccn: usize,
    context: ExprContext,
    call_args: CallArgs,
    contracts: Seq<Contract>,
    functions: Seq<Function>,
)
    requires
        context.loops.scopes@.len() == 0,
        contracts[ccn as int].instantiable,
        context.contract_no matches Some(cc) && !creates_transitively(creation_graph(contracts), ccn as int, cc),
    ensures
        solana_constructor_diagnostics(loc, ccn, context, call_args, contracts, functions).len() == 0,
{
}

} // verus!
