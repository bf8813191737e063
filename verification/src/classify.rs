//! The grouping classifier: partitions workspace members into the default
//! group, declared custom groups and the exclusion group, using path-glob
//! membership rules, detecting conflicts and unmatched patterns.

use crate::error::Error;
use crate::globs::{glob_match, glob_matches, glob_ok};
use crate::text::str_views;
use crate::pkg::{
    group_name_ok, GroupName, GroupSpec, MetaPkg, Pkg, WorkspaceConfig, WorkspaceGroups,
    WorkspaceMeta,
};
use vstd::prelude::*;

verus! {

/// Every declared member pattern, custom and excluded, compiles.
pub open spec fn all_patterns_ok(cfg: WorkspaceConfig) -> bool {
    &&& forall|g: int, p: int|
        0 <= g < cfg.groups@.len() && 0 <= p < cfg.groups@[g].members@.len() ==> #[trigger] glob_ok(
            cfg.groups@[g].members@[p]@,
        )
    &&& match cfg.exclude {
        Some(ex) => forall|p: int| 0 <= p < ex.members@.len() ==> #[trigger] glob_ok(ex.members@[p]@),
        None => true,
    }
}

/// The declaration of group `k` is acceptable: its name is not reserved and
/// has no invalid character, no earlier group has the same name, and it
/// declares at least one member pattern.
pub open spec fn decl_ok_at(groups: Seq<GroupSpec>, k: int) -> bool {
    &&& groups[k].name@ != "default"@
    &&& groups[k].name@ != "excluded"@
    &&& group_name_ok(groups[k].name@)
    &&& forall|j: int| 0 <= j < k ==> (#[trigger] groups[j].name@) != groups[k].name@
    &&& groups[k].members@.len() > 0
}

/// Every group declaration is acceptable.
pub open spec fn decls_ok(groups: Seq<GroupSpec>) -> bool {
    forall|k: int| 0 <= k < groups.len() ==> #[trigger] decl_ok_at(groups, k)
}

/// Some exclusion pattern matches the path.
pub open spec fn excluded_by(cfg: WorkspaceConfig, path: Seq<char>) -> bool {
    match cfg.exclude {
        Some(ex) => exists|p: int|
            0 <= p < ex.members@.len() && glob_match(#[trigger] ex.members@[p]@, path),
        None => false,
    }
}

/// Some member pattern of the group matches the path.
pub open spec fn group_matches(g: GroupSpec, path: Seq<char>) -> bool {
    exists|p: int| 0 <= p < g.members@.len() && glob_match(#[trigger] g.members@[p]@, path)
}

/// Indices of the groups whose patterns match the path, in declaration order.
pub open spec fn matched_idxs(groups: Seq<GroupSpec>, path: Seq<char>) -> Seq<int>
    decreases groups.len(),
{
    if groups.len() == 0 {
        Seq::empty()
    } else {
        let pre = matched_idxs(groups.drop_last(), path);
        if group_matches(groups.last(), path) {
            pre.push(groups.len() - 1)
        } else {
            pre
        }
    }
}

/// Each matched index is in range and matches; unmatched groups are absent;
/// the list is strictly increasing.
pub proof fn lemma_matched_idxs(groups: Seq<GroupSpec>, path: Seq<char>)
    ensures
        forall|t: int|
            0 <= t < matched_idxs(groups, path).len() ==> {
                let g = #[trigger] matched_idxs(groups, path)[t];
                &&& 0 <= g < groups.len()
                &&& group_matches(groups[g], path)
            },
        forall|g: int|
            0 <= g < groups.len() && group_matches(#[trigger] groups[g], path) ==> matched_idxs(
                groups,
                path,
            ).contains(g),
        forall|t1: int, t2: int|
            0 <= t1 < t2 < matched_idxs(groups, path).len() ==> #[trigger] matched_idxs(
                groups,
                path,
            )[t1] < #[trigger] matched_idxs(groups, path)[t2],
    decreases groups.len(),
{
    if groups.len() > 0 {
        let pre_groups = groups.drop_last();
        lemma_matched_idxs(pre_groups, path);
        assert forall|g: int|
            0 <= g < groups.len() && group_matches(#[trigger] groups[g], path) implies matched_idxs(
            groups,
            path,
        ).contains(g) by {
            if g < groups.len() - 1 {
                assert(pre_groups[g] == groups[g]);
                assert(matched_idxs(pre_groups, path).contains(g));
                let t = choose|t: int|
                    0 <= t < matched_idxs(pre_groups, path).len() && matched_idxs(pre_groups, path)[t]
                        == g;
                assert(matched_idxs(groups, path)[t] == g);
            } else {
                assert(groups.last() == groups[g]);
                let mi = matched_idxs(groups, path);
                assert(mi[mi.len() - 1] == g);
            }
        }
        assert forall|t: int|
            0 <= t < matched_idxs(groups, path).len() implies {
            let g = #[trigger] matched_idxs(groups, path)[t];
            &&& 0 <= g < groups.len()
            &&& group_matches(groups[g], path)
        } by {
            let mi = matched_idxs(groups, path);
            let pre = matched_idxs(pre_groups, path);
            if t < pre.len() {
                assert(mi[t] == pre[t]);
                assert(pre_groups[pre[t]] == groups[pre[t]]);
            }
        }
    }
}

/// Index of the first package whose id equals `id`, or `-1`.
pub open spec fn find_pkg(packages: Seq<MetaPkg>, id: Seq<char>) -> int
    decreases packages.len(),
{
    if packages.len() == 0 {
        -1
    } else if packages[0].id@ == id {
        0
    } else {
        let r = find_pkg(packages.subrange(1, packages.len() as int), id);
        if r < 0 {
            -1
        } else {
            r + 1
        }
    }
}

/// `find_pkg` names the least index whose package has the id, when one exists.
pub proof fn lemma_find_pkg(packages: Seq<MetaPkg>, id: Seq<char>)
    ensures
        find_pkg(packages, id) < 0 ==> forall|t: int|
            0 <= t < packages.len() ==> (#[trigger] packages[t].id@) != id,
        find_pkg(packages, id) >= 0 ==> {
            let j = find_pkg(packages, id);
            &&& 0 <= j < packages.len()
            &&& packages[j].id@ == id
            &&& forall|t: int| 0 <= t < j ==> (#[trigger] packages[t].id@) != id
        },
    decreases packages.len(),
{
    if packages.len() > 0 && packages[0].id@ != id {
        let sub = packages.subrange(1, packages.len() as int);
        lemma_find_pkg(sub, id);
        if find_pkg(packages, id) < 0 {
            assert forall|t: int| 0 <= t < packages.len() implies (#[trigger] packages[t].id@)
                != id by {
                if t >= 1 {
                    assert(packages[t] == sub[t - 1]);
                }
            }
        } else {
            let j = find_pkg(packages, id);
            assert(packages[j] == sub[j - 1]);
            assert forall|t: int| 0 <= t < j implies (#[trigger] packages[t].id@) != id by {
                if t >= 1 {
                    assert(packages[t] == sub[t - 1]);
                }
            }
        }
    }
}

/// Index of the first member pattern that matches the path, or `-1`.
pub open spec fn first_match(members: Seq<String>, path: Seq<char>) -> int
    decreases members.len(),
{
    if members.len() == 0 {
        -1
    } else if glob_match(members[0]@, path) {
        0
    } else {
        let r = first_match(members.subrange(1, members.len() as int), path);
        if r < 0 {
            -1
        } else {
            r + 1
        }
    }
}

/// `first_match` names the least matching pattern index, when one exists.
pub proof fn lemma_first_match(members: Seq<String>, path: Seq<char>)
    ensures
        first_match(members, path) < 0 ==> forall|t: int|
            0 <= t < members.len() ==> !glob_match(#[trigger] members[t]@, path),
        first_match(members, path) >= 0 ==> {
            let j = first_match(members, path);
            &&& 0 <= j < members.len()
            &&& glob_match(members[j]@, path)
            &&& forall|t: int| 0 <= t < j ==> !glob_match(#[trigger] members[t]@, path)
        },
    decreases members.len(),
{
    if members.len() > 0 && !glob_match(members[0]@, path) {
        let sub = members.subrange(1, members.len() as int);
        lemma_first_match(sub, path);
        if first_match(members, path) < 0 {
            assert forall|t: int| 0 <= t < members.len() implies !glob_match(
                #[trigger] members[t]@,
                path,
            ) by {
                if t >= 1 {
                    assert(members[t] == sub[t - 1]);
                }
            }
        } else {
            let j = first_match(members, path);
            assert(members[j] == sub[j - 1]);
            assert forall|t: int| 0 <= t < j implies !glob_match(#[trigger] members[t]@, path) by {
                if t >= 1 {
                    assert(members[t] == sub[t - 1]);
                }
            }
        }
    }
}

/// Member `j` can be located in the package metadata.
pub open spec fn member_found(meta: WorkspaceMeta, j: int) -> bool {
    find_pkg(meta.packages@, meta.members@[j]@) >= 0
}

/// The package of member `j` (the first one with the member's id).
pub open spec fn member_pkg(meta: WorkspaceMeta, j: int) -> MetaPkg {
    meta.packages@[find_pkg(meta.packages@, meta.members@[j]@)]
}

/// Where a found, conflict-free package lands: `0` is the default group,
/// `1 + k` the declared group `k`, and `groups.len() + 1` the exclusion
/// group.
pub open spec fn assignment(cfg: WorkspaceConfig, m: MetaPkg) -> int {
    if excluded_by(cfg, m.path@) {
        cfg.groups@.len() as int + 1
    } else if matched_idxs(cfg.groups@, m.path@).len() == 1 {
        matched_idxs(cfg.groups@, m.path@)[0] + 1
    } else {
        0
    }
}

/// A non-excluded package claimed by a custom group while inheriting the
/// workspace version, or claimed by several custom groups, is a conflict.
pub open spec fn conflicted(cfg: WorkspaceConfig, m: MetaPkg) -> bool {
    &&& !excluded_by(cfg, m.path@)
    &&& matched_idxs(cfg.groups@, m.path@).len() >= 1
    &&& (m.inherits_version || matched_idxs(cfg.groups@, m.path@).len() >= 2)
}

/// Some member's package is conflicted.
pub open spec fn any_conflict(meta: WorkspaceMeta, cfg: WorkspaceConfig) -> bool {
    exists|j: int|
        0 <= j < meta.members@.len() && member_found(meta, j) && conflicted(
            cfg,
            #[trigger] member_pkg(meta, j),
        )
}

/// Some member was found: it was classified into one of the groups (the
/// exclusion group included), so the workspace is not empty.
pub open spec fn workspace_nonempty(meta: WorkspaceMeta) -> bool {
    exists|j: int| 0 <= j < meta.members@.len() && #[trigger] member_found(meta, j)
}

/// Locate the first package with the given id.
fn find_pkg_exec(packages: &Vec<MetaPkg>, id: &String) -> (r: Option<usize>)
    ensures
        match r {
            Some(i) => i < packages@.len() && find_pkg(packages@, id@) == i as int,
            None => find_pkg(packages@, id@) < 0,
        },
{
    proof {
        lemma_find_pkg(packages@, id@);
    }
    let mut i: usize = 0;
    while i < packages.len()
        invariant
            i <= packages@.len(),
            forall|t: int| 0 <= t < i ==> (#[trigger] packages@[t].id@) != id@,
        decreases packages.len() - i,
    {
        if crate::text::str_eq(packages[i].id.as_str(), id.as_str()) {
            proof {
                lemma_find_pkg(packages@, id@);
                if find_pkg(packages@, id@) < 0 {
                    assert(packages@[i as int].id@ != id@);
                }
            }
            return Some(i);
        }
        i = i + 1;
    }
    proof {
        lemma_find_pkg(packages@, id@);
        if find_pkg(packages@, id@) >= 0 {
            let j = find_pkg(packages@, id@);
            assert(packages@[j].id@ != id@);
        }
    }
    None
}

/// Test the exclusion patterns against a path, first match deciding.
fn excluded_by_exec(cfg: &WorkspaceConfig, path: &String) -> (r: Result<bool, Error>)
    ensures
        all_patterns_ok(*cfg) ==> r is Ok,
        r matches Ok(b) ==> b == excluded_by(*cfg, path@),
        r matches Err(e) ==> e matches Error::Glob { msg: _ },
{
    match &cfg.exclude {
        None => Ok(false),
        Some(ex) => {
            let mut p: usize = 0;
            while p < ex.members.len()
                invariant
                    p <= ex.members@.len(),
                    cfg.exclude matches Some(e2) && e2 == ex,
                    forall|t: int| 0 <= t < p ==> !glob_match(#[trigger] ex.members@[t]@, path@),
                decreases ex.members.len() - p,
            {
                match glob_matches(ex.members[p].as_str(), path.as_str()) {
                    Err(e) => {
                        return Err(e);
                    },
                    Ok(true) => {
                        return Ok(true);
                    },
                    Ok(false) => (),
                }
                p = p + 1;
            }
            Ok(false)
        },
    }
}

/// Does any member pattern of the group match the path, testing in order?
fn group_matches_exec(g: &GroupSpec, path: &String) -> (r: Result<bool, Error>)
    ensures
        (forall|p: int| 0 <= p < g.members@.len() ==> glob_ok(#[trigger] g.members@[p]@)) ==> r
            is Ok,
        r matches Ok(b) ==> b == group_matches(*g, path@),
        r matches Err(e) ==> e matches Error::Glob { msg: _ },
{
    let mut p: usize = 0;
    while p < g.members.len()
        invariant
            p <= g.members@.len(),
            forall|t: int| 0 <= t < p ==> !glob_match(#[trigger] g.members@[t]@, path@),
        decreases g.members.len() - p,
    {
        match glob_matches(g.members[p].as_str(), path.as_str()) {
            Err(e) => {
                return Err(e);
            },
            Ok(true) => {
                return Ok(true);
            },
            Ok(false) => (),
        }
        p = p + 1;
    }
    Ok(false)
}

/// Indices of the custom groups that match the path.
fn matched_idxs_exec(cfg: &WorkspaceConfig, path: &String) -> (r: Result<Vec<usize>, Error>)
    ensures
        all_patterns_ok(*cfg) ==> r is Ok,
        r matches Ok(v) ==> {
            let mi = matched_idxs(cfg.groups@, path@);
            &&& v@.len() == mi.len()
            &&& forall|t: int| 0 <= t < mi.len() ==> v@[t] as int == #[trigger] mi[t]
        },
        r matches Err(e) ==> e matches Error::Glob { msg: _ },
{
    let mut out: Vec<usize> = Vec::new();
    let mut g: usize = 0;
    proof {
        assert(cfg.groups@.take(0) =~= Seq::<GroupSpec>::empty());
    }
    while g < cfg.groups.len()
        invariant
            g <= cfg.groups@.len(),
            out@.len() == matched_idxs(cfg.groups@.take(g as int), path@).len(),
            forall|t: int|
                0 <= t < out@.len() ==> out@[t] as int == #[trigger] matched_idxs(
                    cfg.groups@.take(g as int),
                    path@,
                )[t],
            all_patterns_ok(*cfg) ==> forall|p: int|
                0 <= p < cfg.groups@[g as int].members@.len() ==> glob_ok(
                    #[trigger] cfg.groups@[g as int].members@[p]@,
                ) || g as int >= cfg.groups@.len(),
        decreases cfg.groups.len() - g,
    {
        let ghost pre = cfg.groups@.take(g as int);
        let matched = match group_matches_exec(&cfg.groups[g], path) {
            Err(e) => {
                return Err(e);
            },
            Ok(b) => b,
        };
        proof {
            assert(cfg.groups@.take(g + 1).drop_last() =~= pre);
            assert(cfg.groups@.take(g + 1).last() == cfg.groups@[g as int]);
        }
        if matched {
            out.push(g);
        }
        g = g + 1;
    }
    proof {
        assert(cfg.groups@.take(cfg.groups@.len() as int) =~= cfg.groups@);
    }
    Ok(out)
}

/// The group a found, conflict-free package lands in, as an index into the
/// final group vector.
fn assignment_exec(cfg: &WorkspaceConfig, m: &MetaPkg) -> (r: Result<usize, Error>)
    requires
        cfg.groups@.len() < usize::MAX,
    ensures
        all_patterns_ok(*cfg) ==> r is Ok,
        r matches Ok(k) ==> k as int == assignment(*cfg, *m) && k <= cfg.groups@.len() + 1,
        r matches Err(e) ==> e matches Error::Glob { msg: _ },
{
    let excluded = match excluded_by_exec(cfg, &m.path) {
        Err(e) => {
            return Err(e);
        },
        Ok(b) => b,
    };
    if excluded {
        return Ok(cfg.groups.len() + 1);
    }
    let mi = match matched_idxs_exec(cfg, &m.path) {
        Err(e) => {
            return Err(e);
        },
        Ok(v) => v,
    };
    proof {
        lemma_matched_idxs(cfg.groups@, m.path@);
    }
    if mi.len() == 1 {
        proof {
            assert(mi@[0] as int == matched_idxs(cfg.groups@, m.path@)[0]);
        }
        Ok(mi[0] + 1)
    } else {
        Ok(0)
    }
}

/// Packages are in non-descending name order.
pub open spec fn pkgs_sorted_by_name(s: Seq<Pkg>) -> bool {
    forall|a: int, b: int|
        0 <= a < b < s.len() ==> crate::text::lex_le(
            (#[trigger] s[a]).name@,
            (#[trigger] s[b]).name@,
        )
}

/// Sort packages by name (selection sort).
pub fn sort_pkgs_by_name(v: Vec<Pkg>) -> (r: Vec<Pkg>)
    ensures
        pkgs_sorted_by_name(r@),
        r@.to_multiset() == v@.to_multiset(),
{
    broadcast use vstd::seq_lib::group_to_multiset_ensures;

    let mut rest = v;
    let ghost orig = rest@;
    let mut out: Vec<Pkg> = Vec::new();
    proof {
        assert(out@.to_multiset().add(rest@.to_multiset()) =~= orig.to_multiset());
    }
    while rest.len() > 0
        invariant
            pkgs_sorted_by_name(out@),
            forall|a: int, b: int|
                0 <= a < out@.len() && 0 <= b < rest@.len() ==> crate::text::lex_le(
                    (#[trigger] out@[a]).name@,
                    (#[trigger] rest@[b]).name@,
                ),
            out@.to_multiset().add(rest@.to_multiset()) == orig.to_multiset(),
        decreases rest.len(),
    {
        let mut mi: usize = 0;
        let mut t: usize = 1;
        proof {
            crate::text::lemma_lex_total(rest@[0].name@, rest@[0].name@);
        }
        while t < rest.len()
            invariant
                0 < rest@.len(),
                mi < rest@.len(),
                t <= rest@.len(),
                forall|u: int|
                    0 <= u < t ==> crate::text::lex_le(
                        rest@[mi as int].name@,
                        (#[trigger] rest@[u]).name@,
                    ),
            decreases rest.len() - t,
        {
            if crate::text::str_le(rest[t].name.as_str(), rest[mi].name.as_str()) {
                proof {
                    assert forall|u: int| 0 <= u < t + 1 implies crate::text::lex_le(
                        rest@[t as int].name@,
                        (#[trigger] rest@[u]).name@,
                    ) by {
                        if u < t {
                            crate::text::lemma_lex_trans(
                                rest@[t as int].name@,
                                rest@[mi as int].name@,
                                rest@[u].name@,
                            );
                        } else {
                            crate::text::lemma_lex_total(rest@[t as int].name@, rest@[u].name@);
                        }
                    }
                }
                mi = t;
            } else {
                proof {
                    crate::text::lemma_lex_total(rest@[t as int].name@, rest@[mi as int].name@);
                }
            }
            t = t + 1;
        }
        let ghost old_rest = rest@;
        let ghost old_out = out@;
        let p = rest.remove(mi);
        out.push(p);
        proof {
            old_rest.to_multiset_ensures();
            old_out.to_multiset_ensures();
            assert(p == old_rest[mi as int]);
            assert(old_rest.contains(p));
            assert(old_rest.to_multiset().count(p) > 0);
            assert(rest@ == old_rest.remove(mi as int));
            assert(old_rest.remove(mi as int).to_multiset() =~= old_rest.to_multiset().remove(p));
            assert(out@ == old_out.push(p));
            assert(old_out.push(p).to_multiset() =~= old_out.to_multiset().insert(p));
            assert(out@.to_multiset().add(rest@.to_multiset()) =~= orig.to_multiset());
            assert forall|a: int, b: int|
                0 <= a < out@.len() && 0 <= b < rest@.len() implies crate::text::lex_le(
                (#[trigger] out@[a]).name@,
                (#[trigger] rest@[b]).name@,
            ) by {
                let ob = if b < mi {
                    b
                } else {
                    b + 1
                };
                assert(rest@[b] == old_rest[ob]);
                if a < old_out.len() {
                    assert(out@[a] == old_out[a]);
                } else {
                    assert(out@[a] == p);
                }
            }
        }
    }
    proof {
        rest@.to_multiset_ensures();
        assert forall|x: Pkg| orig.to_multiset().count(x) == #[trigger] out@.to_multiset().count(
            x,
        ) by {
            if rest@.to_multiset().count(x) > 0 {
                assert(rest@.contains(x));
            }
            assert(orig.to_multiset().count(x) == out@.to_multiset().count(x)
                + rest@.to_multiset().count(x));
        }
        assert(out@.to_multiset() =~= orig.to_multiset());
    }
    out
}


/// The views of an unmatched-pattern report.
pub open spec fn report_views(v: Seq<(String, Vec<String>)>) -> Seq<(Seq<char>, Seq<Seq<char>>)> {
    Seq::new(v.len(), |i: int| (v[i].0@, str_views(v[i].1@)))
}

/// Pattern `p` of custom group `g` is satisfied: some member's package landed
/// in group `g` through a first-matching pattern with the same text.
pub open spec fn custom_pat_satisfied(
    meta: WorkspaceMeta,
    cfg: WorkspaceConfig,
    g: int,
    p: int,
) -> bool {
    exists|j: int|
        0 <= j < meta.members@.len() && member_found(meta, j) && {
            let m = #[trigger] member_pkg(meta, j);
            &&& assignment(cfg, m) == g + 1
            &&& cfg.groups@[g].members@[first_match(cfg.groups@[g].members@, m.path@)]@
                == cfg.groups@[g].members@[p]@
        }
}

/// Pattern `p` of the exclusion group is satisfied: some member's package was
/// excluded through a first-matching pattern with the same text.
pub open spec fn exclude_pat_satisfied(meta: WorkspaceMeta, cfg: WorkspaceConfig, p: int) -> bool {
    exists|j: int|
        0 <= j < meta.members@.len() && member_found(meta, j) && {
            let m = #[trigger] member_pkg(meta, j);
            &&& excluded_by(cfg, m.path@)
            &&& match cfg.exclude {
                Some(ex) => ex.members@[first_match(ex.members@, m.path@)]@ == ex.members@[p]@,
                None => false,
            }
        }
}

/// Texts of the unsatisfied patterns of custom group `g` among its first `p`
/// member patterns, in declaration order, without repetition.
pub open spec fn unmatched_texts_upto(
    meta: WorkspaceMeta,
    cfg: WorkspaceConfig,
    g: int,
    p: int,
) -> Seq<Seq<char>>
    decreases p,
{
    if p <= 0 {
        Seq::empty()
    } else {
        let pre = unmatched_texts_upto(meta, cfg, g, p - 1);
        let t = cfg.groups@[g].members@[p - 1]@;
        if !custom_pat_satisfied(meta, cfg, g, p - 1) && !pre.contains(t) {
            pre.push(t)
        } else {
            pre
        }
    }
}

/// Texts of all unsatisfied patterns of custom group `g`.
pub open spec fn unmatched_texts(meta: WorkspaceMeta, cfg: WorkspaceConfig, g: int) -> Seq<
    Seq<char>,
> {
    unmatched_texts_upto(meta, cfg, g, cfg.groups@[g].members@.len() as int)
}

/// The unmatched-pattern report over the first `k` custom groups: each group
/// with unsatisfied patterns, paired with their texts.
pub open spec fn unmatched_report_upto(meta: WorkspaceMeta, cfg: WorkspaceConfig, k: int) -> Seq<
    (Seq<char>, Seq<Seq<char>>),
>
    decreases k,
{
    if k <= 0 {
        Seq::empty()
    } else {
        let pre = unmatched_report_upto(meta, cfg, k - 1);
        if unmatched_texts(meta, cfg, k - 1).len() > 0 {
            pre.push((cfg.groups@[k - 1].name@, unmatched_texts(meta, cfg, k - 1)))
        } else {
            pre
        }
    }
}

/// The full unmatched-pattern report.
pub open spec fn unmatched_report(meta: WorkspaceMeta, cfg: WorkspaceConfig) -> Seq<
    (Seq<char>, Seq<Seq<char>>),
> {
    unmatched_report_upto(meta, cfg, cfg.groups@.len() as int)
}

/// Texts of the unsatisfied exclusion patterns among the first `p`.
pub open spec fn exclude_unmatched_upto(meta: WorkspaceMeta, cfg: WorkspaceConfig, p: int) -> Seq<
    Seq<char>,
>
    decreases p,
{
    match cfg.exclude {
        None => Seq::empty(),
        Some(ex) => {
            if p <= 0 {
                Seq::empty()
            } else {
                let pre = exclude_unmatched_upto(meta, cfg, p - 1);
                let t = ex.members@[p - 1]@;
                if !exclude_pat_satisfied(meta, cfg, p - 1) && !pre.contains(t) {
                    pre.push(t)
                } else {
                    pre
                }
            }
        },
    }
}

/// Texts of all unsatisfied exclusion patterns.
pub open spec fn exclude_unmatched(meta: WorkspaceMeta, cfg: WorkspaceConfig) -> Seq<Seq<char>> {
    match cfg.exclude {
        None => Seq::empty(),
        Some(ex) => exclude_unmatched_upto(meta, cfg, ex.members@.len() as int),
    }
}

/// The packages of group `k` (as an index into the final group vector) among
/// the first `j` members, in member order, private ones dropped unless `all`.
pub open spec fn group_members_upto(
    meta: WorkspaceMeta,
    cfg: WorkspaceConfig,
    k: int,
    all: bool,
    j: int,
) -> Seq<Pkg>
    decreases j,
{
    if j <= 0 {
        Seq::empty()
    } else {
        let pre = group_members_upto(meta, cfg, k, all, j - 1);
        if member_found(meta, j - 1) && assignment(cfg, member_pkg(meta, j - 1)) == k && (all
            || !member_pkg(meta, j - 1).spec_private()) {
            pre.push(member_pkg(meta, j - 1).spec_pkg())
        } else {
            pre
        }
    }
}

/// The packages of group `k`, before sorting.
pub open spec fn group_members_seq(
    meta: WorkspaceMeta,
    cfg: WorkspaceConfig,
    k: int,
    all: bool,
) -> Seq<Pkg> {
    group_members_upto(meta, cfg, k, all, meta.members@.len() as int)
}

/// The error reported for an unacceptable group declaration `k`, by priority:
/// reserved name, invalid name, duplicate name, empty member list.
pub open spec fn matches_decl_err(groups: Seq<GroupSpec>, k: int, e: Error) -> bool {
    if groups[k].name@ == "default"@ || groups[k].name@ == "excluded"@ {
        e matches Error::ReservedGroupName { name } && name@ == groups[k].name@
    } else if !group_name_ok(groups[k].name@) {
        e matches Error::InvalidGroupName { msg } && exists|j: int|
            0 <= j < groups[k].name@.len() && (#[trigger] groups[k].name@[j] == ':'
                || groups[k].name@[j] == ' ') && (forall|t: int|
                0 <= t < j ==> groups[k].name@[t] != ':' && groups[k].name@[t] != ' ') && msg@ == (
            if groups[k].name@[j] == ':' {
                crate::pkg::invalid_colon_msg(groups[k].name@)
            } else {
                crate::pkg::invalid_space_msg(groups[k].name@)
            })
    } else if exists|j: int| 0 <= j < k && (#[trigger] groups[j].name@) == groups[k].name@ {
        e matches Error::DuplicateGroupName { name } && name@ == groups[k].name@
    } else {
        e matches Error::EmptyGroup { name } && name@ == groups[k].name@
    }
}

/// The first unacceptable declaration decides the error.
pub open spec fn decl_error(groups: Seq<GroupSpec>, r: Result<WorkspaceGroups, Error>) -> bool {
    exists|k: int|
        0 <= k < groups.len() && !(#[trigger] decl_ok_at(groups, k)) && (forall|j: int|
            0 <= j < k ==> decl_ok_at(groups, j)) && (r matches Err(e) && matches_decl_err(
            groups,
            k,
            e,
        ))
}

/// The conflict error reports the first conflicted member: its name, its
/// workspace-relative path, whether it inherits the workspace version, and
/// the names of all custom groups that claimed it, in declaration order.
pub open spec fn matches_conflict_err(meta: WorkspaceMeta, cfg: WorkspaceConfig, e: Error) -> bool {
    exists|j: int|
        0 <= j < meta.members@.len() && member_found(meta, j) && conflicted(
            cfg,
            #[trigger] member_pkg(meta, j),
        ) && (forall|t: int|
            0 <= t < j && member_found(meta, t) ==> !conflicted(cfg, #[trigger] member_pkg(meta, t)))
            && {
            let m = member_pkg(meta, j);
            let mi = matched_idxs(cfg.groups@, m.path@);
            &&& e matches Error::PackageExistsInMultipleGroups {
                name,
                rel_path,
                inherits,
                groups,
            }
            &&& name@ == m.name@
            &&& rel_path@ == m.path@
            &&& inherits == m.inherits_version
            &&& groups@.len() == mi.len()
            &&& forall|t: int|
                0 <= t < mi.len() ==> ((#[trigger] groups@[t]) matches GroupName::Custom(nm)
                    && nm@ == cfg.groups@[mi[t]].name@)
        }
}

/// What classification returns once the declarations are acceptable, stated
/// in the order the stages run: the first conflicted member; an empty
/// workspace; unmatched custom patterns; unmatched exclusion patterns; and
/// otherwise the classified groups.
pub open spec fn classification_post(
    meta: WorkspaceMeta,
    cfg: WorkspaceConfig,
    all: bool,
    r: Result<WorkspaceGroups, Error>,
) -> bool {
    if any_conflict(meta, cfg) {
        r matches Err(e) && matches_conflict_err(meta, cfg, e)
    } else if !workspace_nonempty(meta) {
        r matches Err(e) && e is EmptyWorkspace
    } else if unmatched_report(meta, cfg).len() > 0 {
        r matches Err(e) && e matches Error::UnmatchedCustomGroupPattern(u) && report_views(u@)
            == unmatched_report(meta, cfg)
    } else if exclude_unmatched(meta, cfg).len() > 0 {
        r matches Err(e) && e matches Error::UnmatchedExcludeGroupPattern(u) && str_views(u@)
            == exclude_unmatched(meta, cfg)
    } else {
        r matches Ok(wg) && groups_post(meta, cfg, all, wg)
    }
}

/// The classified groups: default first with the workspace version override,
/// the custom groups in declaration order with their overrides, the exclusion
/// group last; each group's packages sorted by name, and equal as a multiset
/// to the members assigned to it (private ones dropped unless `all`).
pub open spec fn groups_post(
    meta: WorkspaceMeta,
    cfg: WorkspaceConfig,
    all: bool,
    wg: WorkspaceGroups,
) -> bool {
    let n = cfg.groups@.len() as int;
    &&& wg.named_groups@.len() == n + 2
    &&& wg.named_groups@[0].0 is Default
    &&& wg.named_groups@[0].1 == cfg.version
    &&& forall|k: int|
        0 <= k < n ==> (#[trigger] wg.named_groups@[k + 1]).0 == GroupName::Custom(
            cfg.groups@[k].name,
        ) && wg.named_groups@[k + 1].1 == cfg.groups@[k].version
    &&& wg.named_groups@[n + 1].0 is Excluded
    &&& wg.named_groups@[n + 1].1 is None
    &&& forall|k: int|
        0 <= k < n + 2 ==> pkgs_sorted_by_name((#[trigger] wg.named_groups@[k]).2@)
            && wg.named_groups@[k].2@.to_multiset() == group_members_seq(
            meta,
            cfg,
            k,
            all,
        ).to_multiset()
    &&& wg.wf()
}

/// Is the text of `t` among the texts of `v`?
fn contains_text(v: &Vec<String>, t: &String) -> (r: bool)
    ensures
        r == str_views(v@).contains(t@),
{
    let mut i: usize = 0;
    while i < v.len()
        invariant
            i <= v@.len(),
            forall|u: int| 0 <= u < i ==> (#[trigger] v@[u]@) != t@,
        decreases v.len() - i,
    {
        if crate::text::str_eq(v[i].as_str(), t.as_str()) {
            proof {
                assert(str_views(v@)[i as int] == t@);
            }
            return true;
        }
        i = i + 1;
    }
    proof {
        if str_views(v@).contains(t@) {
            let u = choose|u: int| 0 <= u < str_views(v@).len() && str_views(v@)[u] == t@;
            assert(v@[u]@ == t@);
        }
    }
    false
}

/// Index of the first member pattern matching the path, testing in order.
fn first_match_exec(members: &Vec<String>, path: &String) -> (r: Result<Option<usize>, Error>)
    ensures
        (forall|p: int| 0 <= p < members@.len() ==> glob_ok(#[trigger] members@[p]@)) ==> r is Ok,
        r matches Ok(o) ==> match o {
            Some(i) => i < members@.len() && first_match(members@, path@) == i as int,
            None => first_match(members@, path@) < 0,
        },
        r matches Err(e) ==> e matches Error::Glob { msg: _ },
{
    let mut p: usize = 0;
    while p < members.len()
        invariant
            p <= members@.len(),
            forall|t: int| 0 <= t < p ==> !glob_match(#[trigger] members@[t]@, path@),
        decreases members.len() - p,
    {
        match glob_matches(members[p].as_str(), path.as_str()) {
            Err(e) => {
                return Err(e);
            },
            Ok(true) => {
                proof {
                    lemma_first_match(members@, path@);
                }
                return Ok(Some(p));
            },
            Ok(false) => (),
        }
        p = p + 1;
    }
    proof {
        lemma_first_match(members@, path@);
        if first_match(members@, path@) >= 0 {
            let j = first_match(members@, path@);
            assert(!glob_match(members@[j]@, path@));
        }
    }
    Ok(None)
}

/// Is pattern `p` of custom group `g` satisfied by some member?
fn custom_pat_satisfied_exec(
    meta: &WorkspaceMeta,
    cfg: &WorkspaceConfig,
    g: usize,
    p: usize,
) -> (r: Result<bool, Error>)
    requires
        cfg.groups@.len() < usize::MAX,
        g < cfg.groups@.len(),
        p < cfg.groups@[g as int].members@.len(),
    ensures
        all_patterns_ok(*cfg) ==> r is Ok,
        r matches Ok(b) ==> b == custom_pat_satisfied(*meta, *cfg, g as int, p as int),
        r matches Err(e) ==> e matches Error::Glob { msg: _ },
{
    let mut j: usize = 0;
    while j < meta.members.len()
        invariant
            j <= meta.members@.len(),
            cfg.groups@.len() < usize::MAX,
            g < cfg.groups@.len(),
            p < cfg.groups@[g as int].members@.len(),
            forall|t: int|
                0 <= t < j ==> !(member_found(*meta, t) && {
                    let m = #[trigger] member_pkg(*meta, t);
                    &&& assignment(*cfg, m) == g + 1
                    &&& cfg.groups@[g as int].members@[first_match(
                        cfg.groups@[g as int].members@,
                        m.path@,
                    )]@ == cfg.groups@[g as int].members@[p as int]@
                }),
        decreases meta.members.len() - j,
    {
        match find_pkg_exec(&meta.packages, &meta.members[j]) {
            None => (),
            Some(pi) => {
                let m = &meta.packages[pi];
                proof {
                    assert(member_found(*meta, j as int));
                    assert(member_pkg(*meta, j as int) == meta.packages@[pi as int]);
                }
                let a = match assignment_exec(cfg, m) {
                    Err(e) => {
                        return Err(e);
                    },
                    Ok(a) => a,
                };
                if a == g + 1 {
                    proof {
                        lemma_matched_idxs(cfg.groups@, m.path@);
                        lemma_first_match(cfg.groups@[g as int].members@, m.path@);
                        assert(matched_idxs(cfg.groups@, m.path@).len() == 1);
                        assert(matched_idxs(cfg.groups@, m.path@)[0] == g as int);
                        assert(group_matches(cfg.groups@[g as int], m.path@));
                    }
                    let fm = match first_match_exec(&cfg.groups[g].members, &m.path) {
                        Err(e) => {
                            return Err(e);
                        },
                        Ok(None) => {
                            // cannot happen: a group assigned to this package
                            // has a first matching pattern
                            proof {
                                lemma_first_match(cfg.groups@[g as int].members@, m.path@);
                                let q = choose|q: int|
                                    0 <= q < cfg.groups@[g as int].members@.len() && glob_match(
                                        cfg.groups@[g as int].members@[q]@,
                                        m.path@,
                                    );
                                assert(!glob_match(cfg.groups@[g as int].members@[q]@, m.path@));
                            }
                            return Err(Error::Glob { msg: String::new() });
                        },
                        Ok(Some(i)) => i,
                    };
                    if crate::text::str_eq(
                        cfg.groups[g].members[fm].as_str(),
                        cfg.groups[g].members[p].as_str(),
                    ) {
                        proof {
                            assert(custom_pat_satisfied(*meta, *cfg, g as int, p as int)) by {
                                assert(member_found(*meta, j as int) && {
                                    let m2 = member_pkg(*meta, j as int);
                                    &&& assignment(*cfg, m2) == g + 1
                                    &&& cfg.groups@[g as int].members@[first_match(
                                        cfg.groups@[g as int].members@,
                                        m2.path@,
                                    )]@ == cfg.groups@[g as int].members@[p as int]@
                                });
                            }
                        }
                        return Ok(true);
                    }
                }
            },
        }
        j = j + 1;
    }
    proof {
        if custom_pat_satisfied(*meta, *cfg, g as int, p as int) {
            let t = choose|t: int|
                0 <= t < meta.members@.len() && member_found(*meta, t) && {
                    let m = member_pkg(*meta, t);
                    &&& assignment(*cfg, m) == g + 1
                    &&& cfg.groups@[g as int].members@[first_match(
                        cfg.groups@[g as int].members@,
                        m.path@,
                    )]@ == cfg.groups@[g as int].members@[p as int]@
                };
            assert(!member_found(*meta, t) || !(assignment(*cfg, member_pkg(*meta, t)) == g + 1
                && cfg.groups@[g as int].members@[first_match(
                cfg.groups@[g as int].members@,
                member_pkg(*meta, t).path@,
            )]@ == cfg.groups@[g as int].members@[p as int]@));
        }
    }
    Ok(false)
}

/// Is pattern `p` of the exclusion group satisfied by some member?
fn exclude_pat_satisfied_exec(meta: &WorkspaceMeta, cfg: &WorkspaceConfig, p: usize) -> (r: Result<
    bool,
    Error,
>)
    requires
        cfg.exclude matches Some(ex) && p < ex.members@.len(),
    ensures
        all_patterns_ok(*cfg) ==> r is Ok,
        r matches Ok(b) ==> b == exclude_pat_satisfied(*meta, *cfg, p as int),
        r matches Err(e) ==> e matches Error::Glob { msg: _ },
{
    let ex = match &cfg.exclude {
        Some(ex) => ex,
        None => {
            return Ok(false);
        },
    };
    let mut j: usize = 0;
    while j < meta.members.len()
        invariant
            j <= meta.members@.len(),
            cfg.exclude matches Some(e2) && e2 == ex,
            p < ex.members@.len(),
            forall|t: int|
                0 <= t < j ==> !(member_found(*meta, t) && {
                    let m = #[trigger] member_pkg(*meta, t);
                    &&& excluded_by(*cfg, m.path@)
                    &&& ex.members@[first_match(ex.members@, m.path@)]@ == ex.members@[p as int]@
                }),
        decreases meta.members.len() - j,
    {
        match find_pkg_exec(&meta.packages, &meta.members[j]) {
            None => (),
            Some(pi) => {
                let m = &meta.packages[pi];
                proof {
                    assert(member_found(*meta, j as int));
                    assert(member_pkg(*meta, j as int) == meta.packages@[pi as int]);
                }
                let excl = match excluded_by_exec(cfg, &m.path) {
                    Err(e) => {
                        return Err(e);
                    },
                    Ok(b) => b,
                };
                if excl {
                    let fm = match first_match_exec(&ex.members, &m.path) {
                        Err(e) => {
                            return Err(e);
                        },
                        Ok(None) => {
                            // cannot happen: an excluded package has a first
                            // matching exclusion pattern
                            proof {
                                lemma_first_match(ex.members@, m.path@);
                                let q = choose|q: int|
                                    0 <= q < ex.members@.len() && glob_match(
                                        ex.members@[q]@,
                                        m.path@,
                                    );
                                assert(!glob_match(ex.members@[q]@, m.path@));
                            }
                            return Err(Error::Glob { msg: String::new() });
                        },
                        Ok(Some(i)) => i,
                    };
                    if crate::text::str_eq(ex.members[fm].as_str(), ex.members[p].as_str()) {
                        proof {
                            assert(exclude_pat_satisfied(*meta, *cfg, p as int)) by {
                                assert(member_found(*meta, j as int) && {
                                    let m2 = member_pkg(*meta, j as int);
                                    &&& excluded_by(*cfg, m2.path@)
                                    &&& match cfg.exclude {
                                        Some(ex2) => ex2.members@[first_match(
                                            ex2.members@,
                                            m2.path@,
                                        )]@ == ex2.members@[p as int]@,
                                        None => false,
                                    }
                                });
                            }
                        }
                        return Ok(true);
                    }
                }
            },
        }
        j = j + 1;
    }
    proof {
        if exclude_pat_satisfied(*meta, *cfg, p as int) {
            let t = choose|t: int|
                0 <= t < meta.members@.len() && member_found(*meta, t) && {
                    let m = member_pkg(*meta, t);
                    &&& excluded_by(*cfg, m.path@)
                    &&& match cfg.exclude {
                        Some(ex2) => ex2.members@[first_match(ex2.members@, m.path@)]@
                            == ex2.members@[p as int]@,
                        None => false,
                    }
                };
            assert(!member_found(*meta, t) || !(excluded_by(*cfg, member_pkg(*meta, t).path@)
                && ex.members@[first_match(ex.members@, member_pkg(*meta, t).path@)]@
                == ex.members@[p as int]@));
        }
    }
    Ok(false)
}

/// Collect the packages of group `k`, private ones dropped unless `all`.
fn collect_group(meta: &WorkspaceMeta, cfg: &WorkspaceConfig, k: usize, all: bool) -> (r: Result<
    Vec<Pkg>,
    Error,
>)
    requires
        cfg.groups@.len() < usize::MAX,
    ensures
        all_patterns_ok(*cfg) ==> r is Ok,
        r matches Ok(v) ==> v@ == group_members_seq(*meta, *cfg, k as int, all),
        r matches Err(e) ==> e matches Error::Glob { msg: _ },
{
    let mut out: Vec<Pkg> = Vec::new();
    let mut j: usize = 0;
    while j < meta.members.len()
        invariant
            j <= meta.members@.len(),
            cfg.groups@.len() < usize::MAX,
            out@ == group_members_upto(*meta, *cfg, k as int, all, j as int),
        decreases meta.members.len() - j,
    {
        match find_pkg_exec(&meta.packages, &meta.members[j]) {
            None => (),
            Some(pi) => {
                let m = &meta.packages[pi];
                let a = match assignment_exec(cfg, m) {
                    Err(e) => {
                        return Err(e);
                    },
                    Ok(a) => a,
                };
                if a == k && (all || !m.private()) {
                    out.push(m.to_pkg());
                }
            },
        }
        j = j + 1;
    }
    Ok(out)
}

/// Validate the group declarations, in declaration order: a reserved or
/// invalid name, a duplicated name, or an empty member list is refused.
fn check_decls(config: &WorkspaceConfig) -> (r: Result<(), Error>)
    ensures
        r is Ok <==> decls_ok(config.groups@),
        r matches Err(e) ==> exists|k: int|
            0 <= k < config.groups@.len() && !(#[trigger] decl_ok_at(config.groups@, k)) && (
            forall|j: int| 0 <= j < k ==> decl_ok_at(config.groups@, j)) && matches_decl_err(
                config.groups@,
                k,
                e,
            ),
{
    let ngroups = config.groups.len();
    let mut k: usize = 0;
    while k < ngroups
        invariant
            k <= ngroups,
            ngroups == config.groups@.len(),
            forall|j: int| 0 <= j < k ==> decl_ok_at(config.groups@, j),
        decreases ngroups - k,
    {
        match crate::pkg::GroupName::new(config.groups[k].name.as_str()) {
            Err(e) => {
                proof {
                    assert(!decl_ok_at(config.groups@, k as int));
                    assert(matches_decl_err(config.groups@, k as int, e));
                }
                return Err(e);
            },
            Ok(_) => (),
        }
        let mut j: usize = 0;
        while j < k
            invariant
                j <= k < ngroups,
                ngroups == config.groups@.len(),
                config.groups@[k as int].name@ != "default"@,
                config.groups@[k as int].name@ != "excluded"@,
                group_name_ok(config.groups@[k as int].name@),
                forall|t: int| 0 <= t < k ==> decl_ok_at(config.groups@, t),
                forall|t: int|
                    0 <= t < j ==> (#[trigger] config.groups@[t].name@) != config.groups@[k
                        as int].name@,
            decreases k - j,
        {
            if crate::text::str_eq(
                config.groups[j].name.as_str(),
                config.groups[k].name.as_str(),
            ) {
                proof {
                    assert(config.groups@[j as int].name@ == config.groups@[k as int].name@);
                    assert(exists|t: int|
                        0 <= t < k && (#[trigger] config.groups@[t].name@) == config.groups@[k
                            as int].name@);
                    assert(!decl_ok_at(config.groups@, k as int));
                }
                return Err(Error::DuplicateGroupName { name: config.groups[k].name.clone() });
            }
            j = j + 1;
        }
        if config.groups[k].members.len() == 0 {
            proof {
                assert(!decl_ok_at(config.groups@, k as int));
            }
            return Err(Error::EmptyGroup { name: config.groups[k].name.clone() });
        }
        proof {
            assert(decl_ok_at(config.groups@, k as int));
        }
        k = k + 1;
    }
    Ok(())
}

/// Classify every workspace member into its group.
///
/// Declarations are validated first; each member is then tested against the
/// exclusion patterns, and otherwise against every custom group's patterns,
/// a group matching through its first matching pattern; a package inheriting
/// the workspace version that any custom group claims, or one claimed by
/// several custom groups, is a conflict; a workspace where no member can be
/// located in the metadata fails (an excluded member still counts as
/// classified); every declared pattern must have matched some member, all
/// misses reported together; finally private packages are dropped (unless
/// `all`) and each group is sorted by package name.
pub fn get_group_packages(meta: &WorkspaceMeta, config: &WorkspaceConfig, all: bool) -> (r: Result<
    WorkspaceGroups,
    Error,
>)
    requires
        config.groups@.len() < usize::MAX,
    ensures
        !decls_ok(config.groups@) ==> decl_error(config.groups@, r),
        decls_ok(config.groups@) ==> classification_post(*meta, *config, all, r) || (r matches Err(
            e,
        ) && e matches Error::Glob { msg: _ }),
        decls_ok(config.groups@) && all_patterns_ok(*config) ==> classification_post(
            *meta,
            *config,
            all,
            r,
        ),
{
    let ngroups = config.groups.len();
    match check_decls(config) {
        Err(e) => {
            return Err(e);
        },
        Ok(()) => (),
    }
    // Walk the members: detect conflicts, remember whether any classifiable
    // member exists.
    let mut non_empty = false;
    let mut j: usize = 0;
    while j < meta.members.len()
        invariant
            j <= meta.members@.len(),
            ngroups == config.groups@.len(),
            ngroups < usize::MAX,
            decls_ok(config.groups@),
            forall|t: int|
                0 <= t < j && member_found(*meta, t) ==> !conflicted(
                    *config,
                    #[trigger] member_pkg(*meta, t),
                ),
            non_empty == exists|t: int| 0 <= t < j && #[trigger] member_found(*meta, t),
        decreases meta.members.len() - j,
    {
        match find_pkg_exec(&meta.packages, &meta.members[j]) {
            None => (),
            Some(pi) => {
                let m = &meta.packages[pi];
                proof {
                    assert(member_found(*meta, j as int));
                    assert(member_pkg(*meta, j as int) == meta.packages@[pi as int]);
                }
                non_empty = true;
                let excl = match excluded_by_exec(config, &m.path) {
                    Err(e) => {
                        return Err(e);
                    },
                    Ok(b) => b,
                };
                if !excl {
                    let mi = match matched_idxs_exec(config, &m.path) {
                        Err(e) => {
                            return Err(e);
                        },
                        Ok(v) => v,
                    };
                    proof {
                        lemma_matched_idxs(config.groups@, m.path@);
                    }
                    if mi.len() > 0 && (m.inherits_version || mi.len() > 1) {
                        proof {
                            assert forall|u: int| 0 <= u < mi@.len() implies mi@[u] as int
                                == matched_idxs(config.groups@, m.path@)[u] && 0 <= mi@[u]
                                < ngroups by {
                                assert(mi@[u] as int == matched_idxs(config.groups@, m.path@)[u]);
                            }
                        }
                        let mut gs: Vec<GroupName> = Vec::new();
                        let mut t: usize = 0;
                        while t < mi.len()
                            invariant
                                t <= mi@.len(),
                                ngroups == config.groups@.len(),
                                mi@.len() == matched_idxs(config.groups@, m.path@).len(),
                                forall|u: int|
                                    0 <= u < mi@.len() ==> mi@[u] as int == #[trigger] matched_idxs(
                                        config.groups@,
                                        m.path@,
                                    )[u] && 0 <= mi@[u] < ngroups,
                                gs@.len() == t,
                                forall|u: int|
                                    0 <= u < t ==> ((#[trigger] gs@[u]) matches GroupName::Custom(
                                        nm,
                                    ) && nm@ == config.groups@[matched_idxs(
                                        config.groups@,
                                        m.path@,
                                    )[u]].name@),
                            decreases mi.len() - t,
                        {
                            proof {
                                assert(mi@[t as int] as int == matched_idxs(
                                    config.groups@,
                                    m.path@,
                                )[t as int]);
                            }
                            gs.push(GroupName::Custom(config.groups[mi[t]].name.clone()));
                            t = t + 1;
                        }
                        proof {
                            assert(conflicted(*config, member_pkg(*meta, j as int)));
                            assert(any_conflict(*meta, *config));
                        }
                        return Err(
                            Error::PackageExistsInMultipleGroups {
                                name: m.name.clone(),
                                rel_path: m.path.clone(),
                                inherits: m.inherits_version,
                                groups: gs,
                            },
                        );
                    }
                }
            },
        }
        j = j + 1;
    }
    proof {
        assert(!any_conflict(*meta, *config));
    }
    if !non_empty {
        return Err(Error::EmptyWorkspace);
    }
    // Cross-check every declared pattern against the assignments.
    let mut report: Vec<(String, Vec<String>)> = Vec::new();
    let mut g: usize = 0;
    while g < ngroups
        invariant
            g <= ngroups,
            ngroups == config.groups@.len(),
            ngroups < usize::MAX,
            decls_ok(config.groups@),
            report_views(report@) == unmatched_report_upto(*meta, *config, g as int),
        decreases ngroups - g,
    {
        let mut texts: Vec<String> = Vec::new();
        let mut p: usize = 0;
        let nmembers = config.groups[g].members.len();
        while p < nmembers
            invariant
                p <= nmembers,
                g < ngroups,
                ngroups == config.groups@.len(),
                ngroups < usize::MAX,
                nmembers == config.groups@[g as int].members@.len(),
                decls_ok(config.groups@),
                str_views(texts@) == unmatched_texts_upto(*meta, *config, g as int, p as int),
            decreases nmembers - p,
        {
            let sat = match custom_pat_satisfied_exec(meta, config, g, p) {
                Err(e) => {
                    return Err(e);
                },
                Ok(b) => b,
            };
            let ghost pre = str_views(texts@);
            if !sat && !contains_text(&texts, &config.groups[g].members[p]) {
                texts.push(config.groups[g].members[p].clone());
                proof {
                    assert(str_views(texts@) =~= pre.push(
                        config.groups@[g as int].members@[p as int]@,
                    ));
                }
            }
            p = p + 1;
        }
        let ghost pre_report = report_views(report@);
        if texts.len() > 0 {
            report.push((config.groups[g].name.clone(), texts));
            proof {
                assert(report_views(report@) =~= pre_report.push(
                    (config.groups@[g as int].name@, unmatched_texts(*meta, *config, g as int)),
                ));
            }
        }
        g = g + 1;
    }
    if report.len() > 0 {
        return Err(Error::UnmatchedCustomGroupPattern(report));
    }
    let mut extexts: Vec<String> = Vec::new();
    match &config.exclude {
        None => (),
        Some(ex) => {
            let mut p: usize = 0;
            while p < ex.members.len()
                invariant
                    p <= ex.members@.len(),
                    config.exclude matches Some(e2) && e2 == ex,
                    ngroups == config.groups@.len(),
                    ngroups < usize::MAX,
                    decls_ok(config.groups@),
                    str_views(extexts@) == exclude_unmatched_upto(*meta, *config, p as int),
                decreases ex.members.len() - p,
            {
                let sat = match exclude_pat_satisfied_exec(meta, config, p) {
                    Err(e) => {
                        return Err(e);
                    },
                    Ok(b) => b,
                };
                let ghost pre = str_views(extexts@);
                if !sat && !contains_text(&extexts, &ex.members[p]) {
                    extexts.push(ex.members[p].clone());
                    proof {
                        assert(str_views(extexts@) =~= pre.push(ex.members@[p as int]@));
                    }
                }
                p = p + 1;
            }
        },
    }
    if extexts.len() > 0 {
        return Err(Error::UnmatchedExcludeGroupPattern(extexts));
    }
    // Assemble the groups: default, customs in declaration order, excluded.
    let mut named: Vec<(GroupName, Option<String>, Vec<Pkg>)> = Vec::new();
    let default_pkgs = match collect_group(meta, config, 0, all) {
        Err(e) => {
            return Err(e);
        },
        Ok(v) => v,
    };
    named.push((GroupName::Default, crate::pkg::clone_opt_string(&config.version), sort_pkgs_by_name(default_pkgs)));
    let mut k: usize = 0;
    while k < ngroups
        invariant
            k <= ngroups,
            ngroups == config.groups@.len(),
            ngroups < usize::MAX,
            decls_ok(config.groups@),
            named@.len() == k + 1,
            named@[0].0 is Default,
            named@[0].1 == config.version,
            pkgs_sorted_by_name(named@[0].2@),
            named@[0].2@.to_multiset() == group_members_seq(*meta, *config, 0, all).to_multiset(),
            forall|t: int|
                0 <= t < k ==> (#[trigger] named@[t + 1]).0 == GroupName::Custom(
                    config.groups@[t].name,
                ) && named@[t + 1].1 == config.groups@[t].version && pkgs_sorted_by_name(
                    named@[t + 1].2@,
                ) && named@[t + 1].2@.to_multiset() == group_members_seq(
                    *meta,
                    *config,
                    t + 1,
                    all,
                ).to_multiset(),
        decreases ngroups - k,
    {
        let pkgs = match collect_group(meta, config, k + 1, all) {
            Err(e) => {
                return Err(e);
            },
            Ok(v) => v,
        };
        named.push(
            (
                GroupName::Custom(config.groups[k].name.clone()),
                crate::pkg::clone_opt_string(&config.groups[k].version),
                sort_pkgs_by_name(pkgs),
            ),
        );
        k = k + 1;
    }
    let excl_pkgs = match collect_group(meta, config, ngroups + 1, all) {
        Err(e) => {
            return Err(e);
        },
        Ok(v) => v,
    };
    named.push((GroupName::Excluded, None, sort_pkgs_by_name(excl_pkgs)));
    let wg = WorkspaceGroups { named_groups: named };
    proof {
        let n = ngroups as int;
        assert(wg.named_groups@.len() == n + 2);
        assert forall|t: int| 0 <= t < n implies (#[trigger] wg.named_groups@[t + 1]).0
            == GroupName::Custom(config.groups@[t].name) && wg.named_groups@[t + 1].1
            == config.groups@[t].version && pkgs_sorted_by_name(wg.named_groups@[t + 1].2@)
            && wg.named_groups@[t + 1].2@.to_multiset() == group_members_seq(
            *meta,
            *config,
            t + 1,
            all,
        ).to_multiset() by {}
        assert forall|t: int| 0 <= t < n + 2 implies pkgs_sorted_by_name(
            (#[trigger] wg.named_groups@[t]).2@,
        ) && wg.named_groups@[t].2@.to_multiset() == group_members_seq(
            *meta,
            *config,
            t,
            all,
        ).to_multiset() by {
            if 1 <= t < n + 1 {
                assert(wg.named_groups@[t] == wg.named_groups@[(t - 1) + 1]);
            }
        }
        assert forall|t: int| 0 < t < wg.named_groups@.len() - 1 implies (
        #[trigger] wg.named_groups@[t].0) is Custom by {
            assert(wg.named_groups@[(t - 1) + 1].0 == GroupName::Custom(
                config.groups@[t - 1].name,
            ));
        }
        assert(wg.wf());
        assert(groups_post(*meta, *config, all, wg));
    }
    Ok(wg)
}


/// Exclusion takes priority over all custom groups: a package matched by an
/// exclusion pattern is assigned to the exclusion group, never flagged as a
/// conflict, whatever custom groups also match it.
pub proof fn lemma_exclusion_priority(cfg: WorkspaceConfig, m: MetaPkg)
    requires
        excluded_by(cfg, m.path@),
    ensures
        assignment(cfg, m) == cfg.groups@.len() + 1,
        !conflicted(cfg, m),
{
}

/// A package whose version is inherited from the workspace and that any
/// custom group claims is a conflict, even when exactly one group matches.
pub proof fn lemma_inheritance_conflict(cfg: WorkspaceConfig, m: MetaPkg)
    requires
        m.inherits_version,
        !excluded_by(cfg, m.path@),
        matched_idxs(cfg.groups@, m.path@).len() >= 1,
    ensures
        conflicted(cfg, m),
{
}


/// Member ids that cannot be located in the package metadata, among the
/// first `j` members, in member order.
pub open spec fn spec_dangling(meta: WorkspaceMeta, j: int) -> Seq<Seq<char>>
    decreases j,
{
    if j <= 0 {
        Seq::empty()
    } else {
        let pre = spec_dangling(meta, j - 1);
        if !member_found(meta, j - 1) {
            pre.push(meta.members@[j - 1]@)
        } else {
            pre
        }
    }
}

/// The member ids that no package in the metadata carries: classification
/// skips them, and a caller reports them as non-fatal warnings.
pub fn dangling_members(meta: &WorkspaceMeta) -> (r: Vec<String>)
    ensures
        str_views(r@) == spec_dangling(*meta, meta.members@.len() as int),
{
    let mut r: Vec<String> = Vec::new();
    let mut j: usize = 0;
    proof {
        assert(str_views(r@) =~= spec_dangling(*meta, 0));
    }
    while j < meta.members.len()
        invariant
            j <= meta.members@.len(),
            str_views(r@) == spec_dangling(*meta, j as int),
        decreases meta.members.len() - j,
    {
        let ghost pre = str_views(r@);
        match find_pkg_exec(&meta.packages, &meta.members[j]) {
            Some(_) => (),
            None => {
                r.push(meta.members[j].clone());
                proof {
                    assert(str_views(r@) =~= pre.push(meta.members@[j as int]@));
                }
            },
        }
        j = j + 1;
    }
    r
}

/// No two packages share a name.
pub open spec fn pkg_names_distinct(s: Seq<Pkg>) -> bool {
    forall|i: int, j: int|
        0 <= i < j < s.len() ==> (#[trigger] s[i]).name@ != (#[trigger] s[j]).name@
}

/// Two name-sorted package lists holding the same packages, none of them
/// sharing a name, are the same list: with the classifier's contract this
/// makes the classification outcome for a fixed workspace, configuration and
/// privacy switch unique, as long as workspace names are unique.
pub proof fn lemma_sorted_group_unique(a: Seq<Pkg>, b: Seq<Pkg>)
    requires
        pkgs_sorted_by_name(a),
        pkgs_sorted_by_name(b),
        pkg_names_distinct(a),
        a.to_multiset() == b.to_multiset(),
    ensures
        a == b,
    decreases a.len(),
{
    a.to_multiset_ensures();
    b.to_multiset_ensures();
    assert(a.len() == a.to_multiset().len());
    assert(b.len() == b.to_multiset().len());
    if a.len() == 0 {
        assert(a =~= b);
    } else {
        assert(a.contains(a[0])) by {
            assert(a[0] == a[0]);
        }
        assert(b.to_multiset().count(a[0]) > 0);
        assert(b.contains(a[0]));
        let j = choose|j: int| 0 <= j < b.len() && b[j] == a[0];
        assert(b.contains(b[0])) by {
            assert(b[0] == b[0]);
        }
        assert(a.to_multiset().count(b[0]) > 0);
        assert(a.contains(b[0]));
        let i = choose|i: int| 0 <= i < a.len() && a[i] == b[0];
        if j > 0 {
            assert(crate::text::lex_le(b[0].name@, b[j].name@));
        } else {
            crate::text::lemma_lex_total(b[0].name@, b[0].name@);
        }
        if i > 0 {
            assert(crate::text::lex_le(a[0].name@, a[i].name@));
        } else {
            crate::text::lemma_lex_total(a[0].name@, a[0].name@);
        }
        crate::text::lemma_lex_antisym(a[0].name@, b[0].name@);
        assert(a[i].name@ == a[0].name@);
        assert(i == 0);
        assert(a[0] == b[0]);
        let a2 = a.subrange(1, a.len() as int);
        let b2 = b.subrange(1, b.len() as int);
        assert(a.remove(0) =~= a2);
        assert(b.remove(0) =~= b2);
        assert(a.remove(0).to_multiset() =~= a.to_multiset().remove(a[0]));
        assert(b.remove(0).to_multiset() =~= b.to_multiset().remove(b[0]));
        assert(a2.to_multiset() == b2.to_multiset());
        assert(pkgs_sorted_by_name(a2)) by {
            assert forall|x: int, y: int| 0 <= x < y < a2.len() implies crate::text::lex_le(
                (#[trigger] a2[x]).name@,
                (#[trigger] a2[y]).name@,
            ) by {
                assert(a2[x] == a[x + 1] && a2[y] == a[y + 1]);
            }
        }
        assert(pkgs_sorted_by_name(b2)) by {
            assert forall|x: int, y: int| 0 <= x < y < b2.len() implies crate::text::lex_le(
                (#[trigger] b2[x]).name@,
                (#[trigger] b2[y]).name@,
            ) by {
                assert(b2[x] == b[x + 1] && b2[y] == b[y + 1]);
            }
        }
        assert(pkg_names_distinct(a2)) by {
            assert forall|x: int, y: int| 0 <= x < y < a2.len() implies (#[trigger] a2[x]).name@
                != (#[trigger] a2[y]).name@ by {
                assert(a2[x] == a[x + 1] && a2[y] == a[y + 1]);
            }
        }
        lemma_sorted_group_unique(a2, b2);
        assert(a =~= seq![a[0]] + a2);
        assert(b =~= seq![b[0]] + b2);
    }
}


/// Names repeat nowhere in a list whose multiset is that of a list with
/// pairwise distinct names.
proof fn lemma_names_distinct_transfer(a: Seq<Pkg>, g: Seq<Pkg>)
    requires
        a.to_multiset() == g.to_multiset(),
        pkg_names_distinct(g),
    ensures
        pkg_names_distinct(a),
{
    a.to_multiset_ensures();
    g.to_multiset_ensures();
    assert forall|x: int, y: int| 0 <= x < y < a.len() implies (#[trigger] a[x]).name@ != (
    #[trigger] a[y]).name@ by {
        if a[x].name@ == a[y].name@ {
            if a[x] == a[y] {
                assert(a.remove(x).to_multiset() =~= a.to_multiset().remove(a[x]));
                assert(a.remove(x)[y - 1] == a[y]);
                assert(a.remove(x).contains(a[y]));
                a.remove(x).to_multiset_ensures();
                assert(a.remove(x).to_multiset().count(a[y]) > 0);
                assert(g.to_multiset().count(a[x]) >= 2);
                assert(g.contains(a[x]));
                let p = choose|p: int| 0 <= p < g.len() && g[p] == a[x];
                assert(g.remove(p).to_multiset() =~= g.to_multiset().remove(g[p]));
                g.remove(p).to_multiset_ensures();
                assert(g.remove(p).to_multiset().count(a[x]) > 0);
                assert(g.remove(p).contains(a[x]));
                let q = choose|q: int| 0 <= q < g.remove(p).len() && g.remove(p)[q] == a[x];
                let q2 = if q < p {
                    q
                } else {
                    q + 1
                };
                assert(g.remove(p)[q] == g[q2]);
                assert(g[q2].name@ == g[p].name@);
            } else {
                assert(a.contains(a[x]));
                assert(a.contains(a[y]));
                assert(g.to_multiset().count(a[x]) > 0);
                assert(g.to_multiset().count(a[y]) > 0);
                assert(g.contains(a[x]));
                assert(g.contains(a[y]));
                let p = choose|p: int| 0 <= p < g.len() && g[p] == a[x];
                let q = choose|q: int| 0 <= q < g.len() && g[q] == a[y];
                assert(p != q);
                assert(g[p].name@ == g[q].name@);
            }
        }
    }
}

/// With unique member ids and unique package names, a group's member list
/// holds no two packages with the same name, and every entry is some found
/// member's package.
proof fn lemma_group_members_distinct(
    meta: WorkspaceMeta,
    cfg: WorkspaceConfig,
    k: int,
    all: bool,
    j: int,
)
    requires
        forall|x: int, y: int|
            0 <= x < y < meta.packages@.len() ==> (#[trigger] meta.packages@[x]).name@ != (
            #[trigger] meta.packages@[y]).name@,
        forall|x: int, y: int|
            0 <= x < y < meta.members@.len() ==> (#[trigger] meta.members@[x])@ != (
            #[trigger] meta.members@[y])@,
        0 <= j <= meta.members@.len(),
    ensures
        pkg_names_distinct(group_members_upto(meta, cfg, k, all, j)),
        forall|x: int|
            0 <= x < group_members_upto(meta, cfg, k, all, j).len() ==> exists|jj: int|
                0 <= jj < j && member_found(meta, jj) && (#[trigger] group_members_upto(
                    meta,
                    cfg,
                    k,
                    all,
                    j,
                )[x]) == member_pkg(meta, jj).spec_pkg(),
    decreases j,
{
    if j > 0 {
        lemma_group_members_distinct(meta, cfg, k, all, j - 1);
        let pre = group_members_upto(meta, cfg, k, all, j - 1);
        let cur = group_members_upto(meta, cfg, k, all, j);
        if member_found(meta, j - 1) && assignment(cfg, member_pkg(meta, j - 1)) == k && (all
            || !member_pkg(meta, j - 1).spec_private()) {
            let newp = member_pkg(meta, j - 1).spec_pkg();
            assert forall|x: int| 0 <= x < cur.len() implies exists|jj: int|
                0 <= jj < j && member_found(meta, jj) && (#[trigger] cur[x]) == member_pkg(
                    meta,
                    jj,
                ).spec_pkg() by {
                if x < pre.len() {
                    assert(cur[x] == pre[x]);
                    let jj = choose|jj: int|
                        0 <= jj < j - 1 && member_found(meta, jj) && pre[x] == member_pkg(
                            meta,
                            jj,
                        ).spec_pkg();
                    assert(0 <= jj < j && member_found(meta, jj) && cur[x] == member_pkg(
                        meta,
                        jj,
                    ).spec_pkg());
                } else {
                    assert(cur[x] == newp);
                    assert(0 <= j - 1 < j && member_found(meta, j - 1) && cur[x] == member_pkg(
                        meta,
                        j - 1,
                    ).spec_pkg());
                }
            }
            assert forall|x: int, y: int| 0 <= x < y < cur.len() implies (#[trigger] cur[x]).name@
                != (#[trigger] cur[y]).name@ by {
                if y < pre.len() {
                    assert(cur[x] == pre[x] && cur[y] == pre[y]);
                } else {
                    assert(cur[y] == newp);
                    assert(cur[x] == pre[x]);
                    if cur[x].name@ == newp.name@ {
                        let jj = choose|jj: int|
                            0 <= jj < j - 1 && member_found(meta, jj) && pre[x] == member_pkg(
                                meta,
                                jj,
                            ).spec_pkg();
                        lemma_find_pkg(meta.packages@, meta.members@[jj]@);
                        lemma_find_pkg(meta.packages@, meta.members@[j - 1]@);
                        let i1 = find_pkg(meta.packages@, meta.members@[jj]@);
                        let i2 = find_pkg(meta.packages@, meta.members@[j - 1]@);
                        assert(meta.packages@[i1].name@ == meta.packages@[i2].name@);
                        if i1 != i2 {
                            assert(meta.packages@[i1].name@ != meta.packages@[i2].name@);
                        }
                        assert(meta.members@[jj]@ == meta.packages@[i1].id@);
                        assert(meta.members@[j - 1]@ == meta.packages@[i2].id@);
                        assert(meta.members@[jj]@ == meta.members@[j - 1]@);
                        assert(meta.members@[jj]@ != meta.members@[j - 1]@);
                    }
                }
            }
        } else {
            assert(cur == pre);
            assert forall|x: int| 0 <= x < cur.len() implies exists|jj: int|
                0 <= jj < j && member_found(meta, jj) && (#[trigger] cur[x]) == member_pkg(
                    meta,
                    jj,
                ).spec_pkg() by {
                let jj = choose|jj: int|
                    0 <= jj < j - 1 && member_found(meta, jj) && pre[x] == member_pkg(
                        meta,
                        jj,
                    ).spec_pkg();
                assert(0 <= jj < j && member_found(meta, jj) && cur[x] == member_pkg(
                    meta,
                    jj,
                ).spec_pkg());
            }
        }
    }
}

/// Classification determinism: for one workspace, configuration and privacy
/// switch, any two results the classifier's contract admits agree — the same
/// outcome, and on success the same packages in the same order in every
/// group. The metadata interface grants the two uniqueness hypotheses:
/// member ids and package names are unique within a workspace.
pub proof fn lemma_classification_deterministic(
    meta: WorkspaceMeta,
    cfg: WorkspaceConfig,
    all: bool,
    r1: Result<WorkspaceGroups, Error>,
    r2: Result<WorkspaceGroups, Error>,
)
    requires
        classification_post(meta, cfg, all, r1),
        classification_post(meta, cfg, all, r2),
        forall|x: int, y: int|
            0 <= x < y < meta.packages@.len() ==> (#[trigger] meta.packages@[x]).name@ != (
            #[trigger] meta.packages@[y]).name@,
        forall|x: int, y: int|
            0 <= x < y < meta.members@.len() ==> (#[trigger] meta.members@[x])@ != (
            #[trigger] meta.members@[y])@,
    ensures
        r1 is Ok <==> r2 is Ok,
        r1 matches Ok(w1) ==> (r2 matches Ok(w2) ==> ({
            &&& w1.named_groups@.len() == w2.named_groups@.len()
            &&& forall|k: int|
                0 <= k < w1.named_groups@.len() ==> (#[trigger] w1.named_groups@[k]).0
                    == w2.named_groups@[k].0 && w1.named_groups@[k].1 == w2.named_groups@[k].1
                    && w1.named_groups@[k].2@ == w2.named_groups@[k].2@
        })),
{
    match (r1, r2) {
        (Result::Ok(w1), Result::Ok(w2)) => {
            let n = cfg.groups@.len() as int;
            assert forall|k: int| 0 <= k < w1.named_groups@.len() implies (
            #[trigger] w1.named_groups@[k]).0 == w2.named_groups@[k].0 && w1.named_groups@[k].1
                == w2.named_groups@[k].1 && w1.named_groups@[k].2@ == w2.named_groups@[k].2@ by {
                if 0 < k < n + 1 {
                    assert(w1.named_groups@[(k - 1) + 1].0 == GroupName::Custom(
                        cfg.groups@[k - 1].name,
                    ));
                    assert(w2.named_groups@[(k - 1) + 1].0 == GroupName::Custom(
                        cfg.groups@[k - 1].name,
                    ));
                }
                lemma_group_members_distinct(meta, cfg, k, all, meta.members@.len() as int);
                lemma_names_distinct_transfer(
                    w1.named_groups@[k].2@,
                    group_members_seq(meta, cfg, k, all),
                );
                lemma_sorted_group_unique(w1.named_groups@[k].2@, w2.named_groups@[k].2@);
            }
        },
        _ => (),
    }
}

} // verus!
