//! The dependency graph builder: a deterministic topological order of the
//! workspace packages, such that every package comes after all workspace
//! packages it depends on; a dependency cycle is a fatal error.

use crate::error::Error;
use crate::pkg::MetaPkg;
use vstd::prelude::*;

verus! {

/// Package `a` depends on package `b`: some declared dependency name of `a`
/// equals `b`'s name. Dependencies on names outside the input set are not
/// edges.
pub open spec fn depends_on(a: MetaPkg, b: MetaPkg) -> bool {
    exists|d: int| 0 <= d < a.deps@.len() && (#[trigger] a.deps@[d]@) == b.name@
}

/// Every colour is unvisited (0), in progress (1) or finished (2).
pub open spec fn colors_wf(s: Seq<u8>) -> bool {
    forall|k: int| 0 <= k < s.len() ==> s[k] == 0 || s[k] == 1 || (#[trigger] s[k]) == 2
}

/// Number of unvisited nodes.
pub open spec fn count_white(s: Seq<u8>) -> nat
    decreases s.len(),
{
    if s.len() == 0 {
        0
    } else {
        count_white(s.drop_last()) + if s.last() == 0 {
            1nat
        } else {
            0nat
        }
    }
}

/// Number of finished nodes.
pub open spec fn count_black(s: Seq<u8>) -> nat
    decreases s.len(),
{
    if s.len() == 0 {
        0
    } else {
        count_black(s.drop_last()) + if s.last() == 2 {
            1nat
        } else {
            0nat
        }
    }
}

/// Pointwise larger colours leave no more unvisited nodes.
proof fn lemma_count_white_mono(a: Seq<u8>, b: Seq<u8>)
    requires
        a.len() == b.len(),
        forall|k: int| 0 <= k < a.len() ==> (#[trigger] b[k]) >= a[k],
    ensures
        count_white(b) <= count_white(a),
    decreases a.len(),
{
    if a.len() > 0 {
        lemma_count_white_mono(a.drop_last(), b.drop_last());
    }
}

/// Colouring an unvisited node strictly decreases the unvisited count.
proof fn lemma_count_white_update(s: Seq<u8>, i: int, v: u8)
    requires
        0 <= i < s.len(),
        s[i] == 0,
        v != 0,
    ensures
        count_white(s.update(i, v)) < count_white(s),
    decreases s.len(),
{
    if i == s.len() - 1 {
        assert(s.update(i, v).drop_last() =~= s.drop_last());
    } else {
        assert(s.update(i, v).drop_last() =~= s.drop_last().update(i, v));
        lemma_count_white_update(s.drop_last(), i, v);
    }
}

/// Finishing a node that was not finished raises the finished count by one;
/// any other recolouring of an unfinished node keeps it.
proof fn lemma_count_black_update(s: Seq<u8>, i: int, v: u8)
    requires
        0 <= i < s.len(),
        s[i] != 2,
    ensures
        v == 2 ==> count_black(s.update(i, v)) == count_black(s) + 1,
        v != 2 ==> count_black(s.update(i, v)) == count_black(s),
    decreases s.len(),
{
    if i == s.len() - 1 {
        assert(s.update(i, v).drop_last() =~= s.drop_last());
    } else {
        assert(s.update(i, v).drop_last() =~= s.drop_last().update(i, v));
        lemma_count_black_update(s.drop_last(), i, v);
    }
}

/// With every node finished the finished count is the length.
proof fn lemma_count_black_full(s: Seq<u8>)
    requires
        forall|k: int| 0 <= k < s.len() ==> (#[trigger] s[k]) == 2,
    ensures
        count_black(s) == s.len(),
    decreases s.len(),
{
    if s.len() > 0 {
        lemma_count_black_full(s.drop_last());
    }
}

/// With no node finished the finished count is zero.
proof fn lemma_count_black_none(s: Seq<u8>)
    requires
        forall|k: int| 0 <= k < s.len() ==> (#[trigger] s[k]) != 2,
    ensures
        count_black(s) == 0,
    decreases s.len(),
{
    if s.len() > 0 {
        lemma_count_black_none(s.drop_last());
    }
}

/// Colouring any node strictly reduces or keeps the number of unvisited
/// nodes.
proof fn lemma_count_white_update_le(s: Seq<u8>, i: int, v: u8)
    requires
        0 <= i < s.len(),
        v != 0,
    ensures
        count_white(s.update(i, v)) <= count_white(s),
    decreases s.len(),
{
    if i == s.len() - 1 {
        assert(s.update(i, v).drop_last() =~= s.drop_last());
    } else {
        assert(s.update(i, v).drop_last() =~= s.drop_last().update(i, v));
        lemma_count_white_update_le(s.drop_last(), i, v);
    }
}

/// Reading of a visit result that keeps the traversal's recursion
/// well-founded: the identity on every state the traversal actually reaches
/// (see `lemma_spec_visit_wf`).
pub open spec fn white_bound(c: Seq<u8>, bound: Seq<u8>) -> Seq<u8> {
    if c.len() == bound.len() && count_white(c) <= count_white(bound) {
        c
    } else {
        bound
    }
}

/// The traversal, as a mathematical function: visiting node `i` finishes its
/// unvisited dependencies in index order and then appends `i`; a node in
/// progress means a cycle (`None`).
pub open spec fn spec_visit(
    pkgs: Seq<(MetaPkg, String)>,
    i: int,
    color: Seq<u8>,
    out: Seq<usize>,
) -> Option<(Seq<u8>, Seq<usize>)>
    decreases count_white(color), 0int,
    via spec_visit_decreases
{
    if !(0 <= i < color.len()) {
        None
    } else if color[i] == 2 {
        Some((color, out))
    } else if color[i] == 1 {
        None
    } else if color[i] == 0 {
        match spec_visit_deps(pkgs, i, 0, color.update(i, 1), out) {
            None => None,
            Some((c, o)) => Some((c.update(i, 2), o.push(i as usize))),
        }
    } else {
        None
    }
}

/// The fold of `spec_visit` over the dependencies of `i`, from index `j` on.
pub open spec fn spec_visit_deps(
    pkgs: Seq<(MetaPkg, String)>,
    i: int,
    j: int,
    color: Seq<u8>,
    out: Seq<usize>,
) -> Option<(Seq<u8>, Seq<usize>)>
    decreases count_white(color), pkgs.len() - j + 1,
{
    if j < 0 || j >= pkgs.len() {
        Some((color, out))
    } else {
        match (if depends_on(pkgs[i].0, pkgs[j].0) {
            spec_visit(pkgs, j, color, out)
        } else {
            Some((color, out))
        }) {
            None => None,
            Some((c, o)) => spec_visit_deps(pkgs, i, j + 1, white_bound(c, color), o),
        }
    }
}

#[via_fn]
proof fn spec_visit_decreases(pkgs: Seq<(MetaPkg, String)>, i: int, color: Seq<u8>, out: Seq<usize>) {
    if 0 <= i < color.len() && color[i] == 0 {
        lemma_count_white_update(color, i, 1);
    }
}

/// A visit keeps the colour count and leaves no more unvisited nodes, so the
/// guarded recursion above follows the visit results exactly.
proof fn lemma_spec_visit_wf(pkgs: Seq<(MetaPkg, String)>, i: int, color: Seq<u8>, out: Seq<usize>)
    ensures
        match spec_visit(pkgs, i, color, out) {
            Some((c, o)) => c.len() == color.len() && count_white(c) <= count_white(color),
            None => true,
        },
    decreases count_white(color), 0int,
{
    if 0 <= i < color.len() && color[i] == 0 {
        let c1 = color.update(i, 1);
        lemma_count_white_update(color, i, 1);
        lemma_spec_visit_deps_wf(pkgs, i, 0, c1, out);
        match spec_visit_deps(pkgs, i, 0, c1, out) {
            None => (),
            Some((c, o)) => {
                lemma_count_white_update_le(c, i, 2);
            },
        }
    }
}

proof fn lemma_spec_visit_deps_wf(
    pkgs: Seq<(MetaPkg, String)>,
    i: int,
    j: int,
    color: Seq<u8>,
    out: Seq<usize>,
)
    ensures
        match spec_visit_deps(pkgs, i, j, color, out) {
            Some((c, o)) => c.len() == color.len() && count_white(c) <= count_white(color),
            None => true,
        },
    decreases count_white(color), pkgs.len() - j + 1,
{
    if 0 <= j < pkgs.len() {
        if depends_on(pkgs[i].0, pkgs[j].0) {
            lemma_spec_visit_wf(pkgs, j, color, out);
            match spec_visit(pkgs, j, color, out) {
                None => (),
                Some((c, o)) => {
                    assert(white_bound(c, color) == c);
                    lemma_spec_visit_deps_wf(pkgs, i, j + 1, c, o);
                },
            }
        } else {
            assert(white_bound(color, color) == color);
            lemma_spec_visit_deps_wf(pkgs, i, j + 1, color, out);
        }
    }
}

/// One unclamped step of the dependency fold: on every state the traversal
/// reaches, the guard in `spec_visit_deps` is the identity.
proof fn lemma_spec_visit_deps_step(
    pkgs: Seq<(MetaPkg, String)>,
    i: int,
    j: int,
    color: Seq<u8>,
    out: Seq<usize>,
)
    requires
        0 <= j < pkgs.len(),
    ensures
        spec_visit_deps(pkgs, i, j, color, out) == (match (if depends_on(
            pkgs[i].0,
            pkgs[j].0,
        ) {
            spec_visit(pkgs, j, color, out)
        } else {
            Some((color, out))
        }) {
            None => None::<(Seq<u8>, Seq<usize>)>,
            Some((c, o)) => spec_visit_deps(pkgs, i, j + 1, c, o),
        }),
{
    if depends_on(pkgs[i].0, pkgs[j].0) {
        lemma_spec_visit_wf(pkgs, j, color, out);
        match spec_visit(pkgs, j, color, out) {
            None => (),
            Some((c, o)) => {
                assert(white_bound(c, color) == c);
            },
        }
    } else {
        assert(white_bound(color, color) == color);
    }
}

/// The whole traversal: visit every node in index order, starting from an
/// all-unvisited colouring.
pub open spec fn spec_dag_from(
    pkgs: Seq<(MetaPkg, String)>,
    i: int,
    color: Seq<u8>,
    out: Seq<usize>,
) -> Option<Seq<usize>>
    decreases pkgs.len() - i,
{
    if i < 0 || i >= pkgs.len() {
        Some(out)
    } else {
        match spec_visit(pkgs, i, color, out) {
            None => None,
            Some((c, o)) => spec_dag_from(pkgs, i + 1, c, o),
        }
    }
}

/// The one order `dag` returns: a function of the input alone, so the order
/// is stable across runs on equal inputs.
pub open spec fn spec_dag(pkgs: Seq<(MetaPkg, String)>) -> Option<Seq<usize>> {
    spec_dag_from(pkgs, 0, Seq::new(pkgs.len(), |k: int| 0u8), Seq::empty())
}

/// The traversal invariant: the output holds exactly the finished nodes, each
/// once, and every workspace dependency of an output node stands earlier in
/// the output.
pub open spec fn dag_inv(pkgs: Seq<(MetaPkg, String)>, color: Seq<u8>, out: Seq<usize>) -> bool {
    &&& color.len() == pkgs.len()
    &&& forall|p: int|
        0 <= p < out.len() ==> ((#[trigger] out[p]) as int) < pkgs.len() && color[out[p] as int]
            == 2
    &&& forall|k: int|
        0 <= k < color.len() && (#[trigger] color[k]) == 2 ==> exists|p: int|
            0 <= p < out.len() && out[p] as int == k
    &&& forall|p: int, q: int| 0 <= p < q < out.len() ==> (#[trigger] out[p]) != (#[trigger] out[q])
    &&& out.len() == count_black(color)
    &&& forall|p: int, k: int|
        0 <= p < out.len() && 0 <= k < pkgs.len() && #[trigger] depends_on(
            pkgs[out[p] as int].0,
            pkgs[k].0,
        ) ==> color[k] == 2 && exists|q: int| 0 <= q < p && out[q] as int == k
}

/// Does `a` declare a dependency with this name?
fn has_dep(a: &MetaPkg, name: &String) -> (r: bool)
    ensures
        r == exists|d: int| 0 <= d < a.deps@.len() && (#[trigger] a.deps@[d]@) == name@,
{
    let mut d: usize = 0;
    while d < a.deps.len()
        invariant
            d <= a.deps@.len(),
            forall|t: int| 0 <= t < d ==> (#[trigger] a.deps@[t]@) != name@,
        decreases a.deps.len() - d,
    {
        if crate::text::str_eq(a.deps[d].as_str(), name.as_str()) {
            return true;
        }
        d = d + 1;
    }
    false
}

/// Depth-first visit of node `i`: finish every unvisited dependency first,
/// then append `i`; meeting a node already in progress is a cycle. The ghost
/// `stack` holds the nodes in progress, root first: it witnesses an actual
/// dependency cycle whenever one is reported.
fn visit(
    pkgs: &Vec<(MetaPkg, String)>,
    i: usize,
    color: &mut Vec<u8>,
    out: &mut Vec<usize>,
    stack: Ghost<Seq<int>>,
) -> (r: Result<(), Error>)
    requires
        i < pkgs@.len(),
        colors_wf(old(color)@),
        dag_inv(pkgs@, old(color)@, old(out)@),
        forall|t: int| 0 <= t < stack@.len() ==> 0 <= #[trigger] stack@[t] < pkgs@.len(),
        forall|k: int|
            0 <= k < old(color)@.len() ==> ((old(color)@[k] == 1) <==> stack@.contains(k)),
        forall|t: int|
            0 <= t < stack@.len() - 1 ==> depends_on(
                (#[trigger] pkgs@[stack@[t]]).0,
                pkgs@[stack@[t + 1]].0,
            ),
        stack@.len() > 0 ==> depends_on(pkgs@[stack@.last()].0, pkgs@[i as int].0),
    ensures
        r is Ok ==> {
            &&& colors_wf(final(color)@)
            &&& final(color)@.len() == old(color)@.len()
            &&& forall|k: int|
                0 <= k < old(color)@.len() ==> (#[trigger] final(color)@[k]) >= old(color)@[k]
            &&& forall|k: int|
                0 <= k < old(color)@.len() ==> ((old(color)@[k] == 1) <==> ((
                #[trigger] final(color)@[k]) == 1))
            &&& final(color)@[i as int] == 2
            &&& dag_inv(pkgs@, final(color)@, final(out)@)
            &&& final(out)@.len() >= old(out)@.len()
            &&& forall|p: int|
                0 <= p < old(out)@.len() ==> (#[trigger] final(out)@[p]) == old(out)@[p]
        },
        r matches Err(e) ==> e matches Error::DependencyCycle { name: _ },
        r is Err ==> exists|cyc: Seq<int>| dependency_cycle(pkgs@, cyc),
        r is Ok ==> spec_visit(pkgs@, i as int, old(color)@, old(out)@) == Some(
            (final(color)@, final(out)@),
        ),
        r is Err ==> spec_visit(pkgs@, i as int, old(color)@, old(out)@) is None,
    decreases count_white(old(color)@),
{
    let n = pkgs.len();
    if color[i] == 2 {
        return Ok(());
    }
    if color[i] == 1 {
        proof {
            assert(stack@.contains(i as int));
            let idx = choose|idx: int| 0 <= idx < stack@.len() && stack@[idx] == i as int;
            let cyc = stack@.subrange(idx, stack@.len() as int);
            assert forall|t: int| 0 <= t < cyc.len() implies 0 <= #[trigger] cyc[t]
                < pkgs@.len() by {
                assert(cyc[t] == stack@[idx + t]);
            }
            assert forall|t: int| 0 <= t < cyc.len() - 1 implies depends_on(
                (#[trigger] pkgs@[cyc[t]]).0,
                pkgs@[cyc[t + 1]].0,
            ) by {
                assert(cyc[t] == stack@[idx + t]);
                assert(cyc[t + 1] == stack@[idx + t + 1]);
            }
            assert(cyc.last() == stack@.last());
            assert(cyc[0] == i as int);
            assert(dependency_cycle(pkgs@, cyc));
        }
        return Err(Error::DependencyCycle { name: pkgs[i].0.name.clone() });
    }
    let ghost entry_color = color@;
    color.set(i, 1);
    proof {
        lemma_count_white_update(entry_color, i as int, 1);
        lemma_count_black_update(entry_color, i as int, 1);
    }
    let mut j: usize = 0;
    while j < n
        invariant
            i < pkgs@.len(),
            n == pkgs@.len(),
            colors_wf(color@),
            color@.len() == pkgs@.len(),
            old(color)@.len() == pkgs@.len(),
            color@[i as int] == 1,
            dag_inv(pkgs@, color@, out@),
            count_white(color@) < count_white(old(color)@),
            forall|k: int| 0 <= k < color@.len() ==> (#[trigger] color@[k]) >= old(color)@[k],
            forall|k: int|
                0 <= k < color@.len() && k != i ==> ((old(color)@[k] == 1) <==> ((
                #[trigger] color@[k]) == 1)),
            old(color)@[i as int] == 0,
            forall|t: int| 0 <= t < stack@.len() ==> 0 <= #[trigger] stack@[t] < pkgs@.len(),
            forall|k: int|
                0 <= k < old(color)@.len() ==> ((old(color)@[k] == 1) <==> stack@.contains(k)),
            forall|t: int|
                0 <= t < stack@.len() - 1 ==> depends_on(
                    (#[trigger] pkgs@[stack@[t]]).0,
                    pkgs@[stack@[t + 1]].0,
                ),
            !stack@.contains(i as int),
            stack@.len() > 0 ==> depends_on(pkgs@[stack@.last()].0, pkgs@[i as int].0),
            forall|k: int|
                0 <= k < j && depends_on(pkgs@[i as int].0, (#[trigger] pkgs@[k]).0) ==> color@[k]
                    == 2,
            out@.len() >= old(out)@.len(),
            forall|p: int| 0 <= p < old(out)@.len() ==> (#[trigger] out@[p]) == old(out)@[p],
            spec_visit_deps(pkgs@, i as int, 0, old(color)@.update(i as int, 1), old(out)@)
                == spec_visit_deps(pkgs@, i as int, j as int, color@, out@),
        decreases n - j,
    {
        if has_dep(&pkgs[i].0, &pkgs[j].0.name) {
            let ghost pre_color = color@;
            let ghost pre_out = out@;
            proof {
                let spk = stack@.push(i as int);
                assert forall|k: int| 0 <= k < color@.len() implies ((color@[k] == 1)
                    <==> spk.contains(k)) by {
                    if spk.contains(k) {
                        let t = choose|t: int| 0 <= t < spk.len() && spk[t] == k;
                        if t < stack@.len() {
                            assert(spk[t] == stack@[t]);
                            assert(stack@.contains(k));
                            assert(old(color)@[k] == 1);
                            assert(color@[k] == 1);
                        } else {
                            assert(spk[t] == i as int);
                            assert(color@[k] == 1);
                        }
                    }
                    if color@[k] == 1 {
                        if k != i {
                            assert(old(color)@[k] == 1);
                            assert(stack@.contains(k));
                            let t = choose|t: int| 0 <= t < stack@.len() && stack@[t] == k;
                            assert(spk[t] == k);
                            assert(spk.contains(k));
                        } else {
                            assert(spk[spk.len() - 1] == k);
                            assert(spk.contains(k));
                        }
                    }
                }
                assert forall|t: int| 0 <= t < spk.len() - 1 implies depends_on(
                    (#[trigger] pkgs@[spk[t]]).0,
                    pkgs@[spk[t + 1]].0,
                ) by {
                    if t < stack@.len() - 1 {
                        assert(spk[t] == stack@[t] && spk[t + 1] == stack@[t + 1]);
                    } else {
                        assert(spk[t] == stack@.last() && spk[t + 1] == i as int);
                    }
                }
                assert(spk.last() == i as int);
            }
            match visit(pkgs, j, color, out, Ghost(stack@.push(i as int))) {
                Err(e) => {
                    proof {
                        lemma_spec_visit_deps_step(pkgs@, i as int, j as int, pre_color, pre_out);
                    }
                    return Err(e);
                },
                Ok(()) => (),
            }
            proof {
                lemma_count_white_mono(pre_color, color@);
                lemma_spec_visit_deps_step(pkgs@, i as int, j as int, pre_color, pre_out);
            }
        } else {
            proof {
                lemma_spec_visit_deps_step(pkgs@, i as int, j as int, color@, out@);
            }
        }
        j = j + 1;
    }
    let ghost pre_color = color@;
    let ghost pre_out = out@;
    color.set(i, 2);
    proof {
        lemma_count_black_update(pre_color, i as int, 2);
    }
    out.push(i);
    proof {
        assert(spec_visit_deps(pkgs@, i as int, n as int, pre_color, pre_out) == Some(
            (pre_color, pre_out),
        ));
        assert(spec_visit(pkgs@, i as int, old(color)@, old(out)@) == Some((color@, out@)));
        assert forall|p: int, k: int|
            0 <= p < out@.len() && 0 <= k < pkgs@.len() && depends_on(
                pkgs@[out@[p] as int].0,
                pkgs@[k].0,
            ) implies color@[k] == 2 && exists|q: int| 0 <= q < p && out@[q] as int == k by {
            if p < pre_out.len() {
                assert(out@[p] == pre_out[p]);
                assert(depends_on(pkgs@[pre_out[p] as int].0, pkgs@[k].0));
                assert(pre_color[k] == 2 && exists|q: int| 0 <= q < p && pre_out[q] as int == k);
                let q = choose|q: int| 0 <= q < p && pre_out[q] as int == k;
                assert(out@[q] as int == k);
            } else {
                assert(out@[p] == i);
                assert(depends_on(pkgs@[i as int].0, pkgs@[k].0));
                assert(pre_color[k] == 2);
                assert(exists|q: int| 0 <= q < pre_out.len() && pre_out[q] as int == k);
                let q = choose|q: int| 0 <= q < pre_out.len() && pre_out[q] as int == k;
                assert(out@[q] as int == k);
            }
        }
        assert forall|k: int|
            0 <= k < color@.len() && (#[trigger] color@[k]) == 2 implies exists|p: int|
            0 <= p < out@.len() && out@[p] as int == k by {
            if k == i {
                assert(out@[out@.len() - 1] as int == k);
            } else {
                assert(pre_color[k] == 2);
                let p = choose|p: int| 0 <= p < pre_out.len() && pre_out[p] as int == k;
                assert(out@[p] as int == k);
            }
        }
        assert(dag_inv(pkgs@, color@, out@));
    }
    Ok(())
}

/// A deterministic topological order of the packages, as indices into the
/// input: every package stands after every package it depends on; a
/// dependency cycle is a fatal error, distinct from a missing package.
pub fn dag(pkgs: &Vec<(MetaPkg, String)>) -> (r: Result<Vec<usize>, Error>)
    ensures
        r matches Ok(ord) ==> {
            &&& ord@.len() == pkgs@.len()
            &&& forall|p: int| 0 <= p < ord@.len() ==> ((#[trigger] ord@[p]) as int) < pkgs@.len()
            &&& forall|p: int, q: int|
                0 <= p < q < ord@.len() ==> (#[trigger] ord@[p]) != (#[trigger] ord@[q])
            &&& forall|k: usize| k < pkgs@.len() ==> #[trigger] ord@.contains(k)
            &&& forall|p: int, q: int|
                0 <= p < ord@.len() && 0 <= q < ord@.len() && #[trigger] depends_on(
                    pkgs@[ord@[p] as int].0,
                    pkgs@[ord@[q] as int].0,
                ) ==> q < p
        },
        r matches Err(e) ==> e matches Error::DependencyCycle { name: _ },
        r is Err ==> exists|cyc: Seq<int>| dependency_cycle(pkgs@, cyc),
        r is Err ==> spec_dag(pkgs@) is None,
        r matches Ok(ord) ==> spec_dag(pkgs@) == Some(ord@),
        r matches Ok(ord) ==> forall|cyc: Seq<int>| !(#[trigger] dependency_cycle(pkgs@, cyc)),
{
    let n = pkgs.len();
    let mut color: Vec<u8> = Vec::new();
    while color.len() < n
        invariant
            color@.len() <= n,
            forall|k: int| 0 <= k < color@.len() ==> (#[trigger] color@[k]) == 0,
        decreases n - color.len(),
    {
        color.push(0);
    }
    let mut out: Vec<usize> = Vec::new();
    proof {
        lemma_count_black_none(color@);
        assert(dag_inv(pkgs@, color@, out@));
        assert(color@ =~= Seq::new(pkgs@.len(), |k: int| 0u8));
        assert(out@ =~= Seq::<usize>::empty());
    }
    let mut i: usize = 0;
    while i < n
        invariant
            n == pkgs@.len(),
            colors_wf(color@),
            color@.len() == n,
            dag_inv(pkgs@, color@, out@),
            forall|k: int| 0 <= k < i ==> (#[trigger] color@[k]) == 2,
            forall|k: int| 0 <= k < color@.len() ==> (#[trigger] color@[k]) != 1,
            spec_dag(pkgs@) == spec_dag_from(pkgs@, i as int, color@, out@),
        decreases n - i,
    {
        let ghost pre_color = color@;
        let ghost pre_out = out@;
        match visit(pkgs, i, &mut color, &mut out, Ghost(Seq::empty())) {
            Err(e) => {
                return Err(e);
            },
            Ok(()) => (),
        }
        proof {
            assert(spec_visit(pkgs@, i as int, pre_color, pre_out) == Some((color@, out@)));
        }
        i = i + 1;
    }
    proof {
        assert(spec_dag_from(pkgs@, n as int, color@, out@) == Some(out@));
        lemma_count_black_full(color@);
        assert(out@.len() == pkgs@.len());
        assert forall|k: usize| k < pkgs@.len() implies #[trigger] out@.contains(k) by {
            assert(color@[k as int] == 2);
            let p = choose|p: int| 0 <= p < out@.len() && out@[p] as int == k as int;
            assert(out@[p] == k);
        }
        assert forall|p: int, q: int|
            0 <= p < out@.len() && 0 <= q < out@.len() && depends_on(
                pkgs@[out@[p] as int].0,
                pkgs@[out@[q] as int].0,
            ) implies q < p by {
            let k = out@[q] as int;
            assert(exists|q2: int| 0 <= q2 < p && out@[q2] as int == k);
            let q2 = choose|q2: int| 0 <= q2 < p && out@[q2] as int == k;
            if q2 != q {
                assert(out@[q2] != out@[q]);
            }
        }
        assert(valid_topo_order(pkgs@, out@));
        assert forall|cyc: Seq<int>| !(#[trigger] dependency_cycle(pkgs@, cyc)) by {
            lemma_order_excludes_cycle(pkgs@, out@, cyc);
        }
    }
    Ok(out)
}


/// The position of package index `k` in an order.
pub open spec fn pos_of(ord: Seq<usize>, k: int) -> int {
    choose|p: int| 0 <= p < ord.len() && (#[trigger] ord[p]) as int == k
}

/// An order over all packages in which every dependency comes first.
pub open spec fn valid_topo_order(pkgs: Seq<(MetaPkg, String)>, ord: Seq<usize>) -> bool {
    &&& pkgs.len() <= usize::MAX
    &&& ord.len() == pkgs.len()
    &&& forall|p: int| 0 <= p < ord.len() ==> ((#[trigger] ord[p]) as int) < pkgs.len()
    &&& forall|p: int, q: int| 0 <= p < q < ord.len() ==> (#[trigger] ord[p]) != (#[trigger] ord[q])
    &&& forall|k: usize| k < pkgs.len() ==> #[trigger] ord.contains(k)
    &&& forall|p: int, q: int|
        0 <= p < ord.len() && 0 <= q < ord.len() && #[trigger] depends_on(
            pkgs[ord[p] as int].0,
            pkgs[ord[q] as int].0,
        ) ==> q < p
}

/// A dependency cycle among the packages: each one depends on the next, and
/// the last depends on the first.
pub open spec fn dependency_cycle(pkgs: Seq<(MetaPkg, String)>, cyc: Seq<int>) -> bool {
    &&& cyc.len() >= 1
    &&& forall|i: int| 0 <= i < cyc.len() ==> 0 <= #[trigger] cyc[i] < pkgs.len()
    &&& forall|i: int|
        0 <= i < cyc.len() - 1 ==> depends_on((#[trigger] pkgs[cyc[i]]).0, pkgs[cyc[i + 1]].0)
    &&& depends_on(pkgs[cyc.last()].0, pkgs[cyc[0]].0)
}

proof fn lemma_pos_of(pkgs: Seq<(MetaPkg, String)>, ord: Seq<usize>, k: int)
    requires
        valid_topo_order(pkgs, ord),
        0 <= k < pkgs.len(),
    ensures
        0 <= pos_of(ord, k) < ord.len(),
        ord[pos_of(ord, k)] as int == k,
{
    assert(k == (k as usize) as int);
    assert(ord.contains(k as usize));
    let p = choose|p: int| 0 <= p < ord.len() && ord[p] == k as usize;
    assert(ord[p] as int == k);
}

proof fn lemma_cycle_positions(pkgs: Seq<(MetaPkg, String)>, ord: Seq<usize>, cyc: Seq<int>, i: int)
    requires
        valid_topo_order(pkgs, ord),
        dependency_cycle(pkgs, cyc),
        1 <= i < cyc.len(),
    ensures
        pos_of(ord, cyc[i]) <= pos_of(ord, cyc[0]) - i,
    decreases i,
{
    lemma_pos_of(pkgs, ord, cyc[i]);
    lemma_pos_of(pkgs, ord, cyc[i - 1]);
    assert(depends_on(pkgs[cyc[i - 1]].0, pkgs[cyc[i]].0));
    assert(depends_on(
        pkgs[ord[pos_of(ord, cyc[i - 1])] as int].0,
        pkgs[ord[pos_of(ord, cyc[i])] as int].0,
    ));
    assert(pos_of(ord, cyc[i]) < pos_of(ord, cyc[i - 1]));
    if i > 1 {
        lemma_cycle_positions(pkgs, ord, cyc, i - 1);
    }
}

/// A dependency-respecting order of all packages rules out every dependency
/// cycle: together with `dag`'s contract this says a cycle always raises the
/// fatal error, never a truncated or reordered output.
pub proof fn lemma_order_excludes_cycle(pkgs: Seq<(MetaPkg, String)>, ord: Seq<usize>, cyc: Seq<int>)
    requires
        valid_topo_order(pkgs, ord),
    ensures
        !dependency_cycle(pkgs, cyc),
{
    if dependency_cycle(pkgs, cyc) {
        let last = cyc.len() - 1;
        lemma_pos_of(pkgs, ord, cyc[0]);
        lemma_pos_of(pkgs, ord, cyc[last]);
        assert(depends_on(pkgs[cyc[last]].0, pkgs[cyc[0]].0));
        assert(depends_on(
            pkgs[ord[pos_of(ord, cyc[last])] as int].0,
            pkgs[ord[pos_of(ord, cyc[0])] as int].0,
        ));
        assert(pos_of(ord, cyc[0]) < pos_of(ord, cyc[last]));
        if last >= 1 {
            lemma_cycle_positions(pkgs, ord, cyc, last);
        }
    }
}

} // verus!
