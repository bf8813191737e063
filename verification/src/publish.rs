//! The registry publish pipeline, as a state machine.
//!
//! The plan is the dependency order of the publishable packages. For each
//! package in turn the pipeline asks its driver to query the registry index;
//! a version already present is skipped (safe re-runs), otherwise the publish
//! command runs and its output is parsed for the upload marker; then the
//! index is polled, a bounded number of times, until it reflects the version,
//! because later packages resolve this one from the registry.

use crate::dag::{dag, depends_on};
use crate::error::Error;
use crate::pkg::MetaPkg;
use crate::text::{seq_contains, str_views};
use vstd::prelude::*;

verus! {

/// Bound on the registry propagation poll for one package.
pub const MAX_INDEX_POLLS: u64 = 60;

/// Publish options, as the command line hands them over.
pub struct Publish {
    /// Publish from the current commit without versioning.
    pub from_git: bool,
    /// Skip already published crate versions.
    pub skip_published: bool,
    /// Skip crate verification.
    pub skip_verification: bool,
    /// Allow dirty working directories to be published.
    pub allow_dirty: bool,
    /// Token to use when publishing.
    pub token: Option<String>,
    /// Registry to publish to.
    pub registry: Option<String>,
}

/// Pipeline progress for the current package.
pub enum PublishPhase {
    /// Waiting for the index query: is the planned version already there?
    CheckIndex,
    /// Waiting for the publish command's output.
    AwaitPublish,
    /// Waiting for the index to reflect the just-published version.
    Poll,
}

/// The pipeline state: the plan, the dependency order over it (indices into
/// the plan), the current position, the phase, and the remaining polls.
pub struct PublishState {
    pub pkgs: Vec<(MetaPkg, String)>,
    pub order: Vec<usize>,
    pub idx: usize,
    pub phase: PublishPhase,
    pub polls_left: u64,
}

/// What the pipeline asks its driver to do next.
pub enum PublishAction {
    /// Every planned package is published.
    Done,
    /// Ask the registry whether the version is already published.
    QueryIndex { name: String, version: String, registry: Option<String> },
    /// Run the publish command with these arguments.
    RunPublish { args: Vec<String> },
    /// Ask the registry once more whether the version is visible yet, after
    /// a sleep or backoff.
    PollIndex { name: String, version: String, registry: Option<String> },
}

/// The named registry a package publishes to: the first entry of its publish
/// allow-list, or the default registry (`None`).
pub open spec fn spec_registry(m: MetaPkg) -> Option<String> {
    match m.publish {
        Some(l) => if l@.len() > 0 {
            Some(l@[0])
        } else {
            None
        },
        None => None,
    }
}

/// The plan's dependency order restricted to the publishable packages:
/// which packages publish, and in which order, is a function of the plan
/// alone, so re-runs walk the same sequence.
pub open spec fn publishable_order(pkgs: Seq<(MetaPkg, String)>, ord: Seq<usize>) -> Seq<usize>
    decreases ord.len(),
{
    if ord.len() == 0 {
        Seq::empty()
    } else {
        let pre = publishable_order(pkgs, ord.drop_last());
        if !pkgs[ord.last() as int].0.spec_private() {
            pre.push(ord.last())
        } else {
            pre
        }
    }
}

/// The action asking the registry about one package's planned version.
pub open spec fn matches_query(a: PublishAction, m: MetaPkg, ver: String) -> bool {
    a matches PublishAction::QueryIndex { name, version, registry } && name == m.name && version
        == ver && registry == spec_registry(m)
}

/// The action polling the registry for one package's planned version.
pub open spec fn matches_poll(a: PublishAction, m: MetaPkg, ver: String) -> bool {
    a matches PublishAction::PollIndex { name, version, registry } && name == m.name && version
        == ver && registry == spec_registry(m)
}

/// The publish command's output marks success: the upload marker is present
/// and no error marker is.
pub open spec fn spec_publish_ok(stderr: Seq<char>) -> bool {
    seq_contains(stderr, "Uploading"@) && !seq_contains(stderr, "error:"@)
}

/// Parse the publish command's output for the success and error markers.
pub fn publish_output_ok(stderr: &str) -> (r: bool)
    ensures
        r == spec_publish_ok(stderr@),
{
    crate::text::str_contains(stderr, "Uploading") && !crate::text::str_contains(stderr, "error:")
}

/// The publish command's arguments for the options and one manifest.
pub open spec fn spec_publish_args(opt: Publish, manifest_path: Seq<char>) -> Seq<Seq<char>> {
    seq!["publish"@] + (if opt.skip_verification {
        seq!["--no-verify"@]
    } else {
        Seq::empty()
    }) + (if opt.allow_dirty {
        seq!["--allow-dirty"@]
    } else {
        Seq::empty()
    }) + (match opt.registry {
        Some(r) => seq!["--registry"@, r@],
        None => Seq::empty(),
    }) + (match opt.token {
        Some(t) => seq!["--token"@, t@],
        None => Seq::empty(),
    }) + seq!["--manifest-path"@, manifest_path]
}

impl PublishState {
    /// The order indexes into the plan, and the position into the order.
    pub open spec fn wf(&self) -> bool {
        &&& self.idx <= self.order@.len()
        &&& forall|t: int|
            0 <= t < self.order@.len() ==> ((#[trigger] self.order@[t]) as int)
                < self.pkgs@.len()
    }

    /// The package at the current position.
    pub open spec fn cur(&self) -> (MetaPkg, String) {
        self.pkgs@[self.order@[self.idx as int] as int]
    }
}

/// The registry of one package.
fn registry_of(m: &MetaPkg) -> (r: Option<String>)
    ensures
        r == spec_registry(*m),
{
    match &m.publish {
        Some(l) => {
            if l.len() > 0 {
                Some(l[0].clone())
            } else {
                None
            }
        },
        None => None,
    }
}

/// The next-package action: query the registry, or finish.
fn query_action(st: &PublishState) -> (a: PublishAction)
    requires
        st.wf(),
    ensures
        st.idx < st.order@.len() ==> matches_query(a, st.cur().0, st.cur().1),
        st.idx >= st.order@.len() ==> a is Done,
{
    if st.idx >= st.order.len() {
        return PublishAction::Done;
    }
    let k = st.order[st.idx];
    let m = &st.pkgs[k].0;
    PublishAction::QueryIndex {
        name: m.name.clone(),
        version: st.pkgs[k].1.clone(),
        registry: registry_of(m),
    }
}

impl Publish {
    /// Start the pipeline: order the plan by dependency, drop the private
    /// packages, and ask about the first package. A dependency cycle is
    /// fatal.
    pub fn run(&self, pkgs: Vec<(MetaPkg, String)>) -> (r: Result<
        (PublishState, PublishAction),
        Error,
    >)
        ensures
            r matches Err(e) ==> e matches Error::DependencyCycle { name: _ },
            r is Err ==> exists|cyc: Seq<int>| crate::dag::dependency_cycle(pkgs@, cyc),
            (exists|cyc: Seq<int>| crate::dag::dependency_cycle(pkgs@, cyc)) ==> r is Err,
            r matches Ok((st, a)) ==> (crate::dag::spec_dag(pkgs@) matches Some(d) && st.order@
                == publishable_order(pkgs@, d)),
            r matches Ok((st, a)) ==> {
                &&& st.pkgs == pkgs
                &&& st.idx == 0
                &&& st.phase is CheckIndex
                &&& st.wf()
                &&& forall|t: int|
                    0 <= t < st.order@.len() ==> !pkgs@[(#[trigger] st.order@[t]) as int].0.spec_private()
                &&& forall|k: usize|
                    k < pkgs@.len() && !pkgs@[k as int].0.spec_private()
                        ==> #[trigger] st.order@.contains(k)
                &&& forall|p: int, q: int|
                    0 <= p < q < st.order@.len() ==> (#[trigger] st.order@[p]) != (
                    #[trigger] st.order@[q])
                &&& forall|p: int, q: int|
                    0 <= p < st.order@.len() && 0 <= q < st.order@.len() && #[trigger] depends_on(
                        pkgs@[st.order@[p] as int].0,
                        pkgs@[st.order@[q] as int].0,
                    ) ==> q < p
                &&& (st.order@.len() == 0 ==> a is Done)
                &&& (st.order@.len() > 0 ==> matches_query(
                    a,
                    pkgs@[st.order@[0] as int].0,
                    pkgs@[st.order@[0] as int].1,
                ))
            },
    {
        let ord = match dag(&pkgs) {
            Err(e) => {
                return Err(e);
            },
            Ok(o) => o,
        };
        let mut order: Vec<usize> = Vec::new();
        let ghost mut posmap: Seq<int> = Seq::empty();
        let mut t: usize = 0;
        proof {
            assert(publishable_order(pkgs@, ord@.take(0)) =~= Seq::<usize>::empty());
        }
        while t < ord.len()
            invariant
                t <= ord@.len(),
                ord@.len() == pkgs@.len(),
                order@ == publishable_order(pkgs@, ord@.take(t as int)),
                forall|p: int| 0 <= p < ord@.len() ==> ((#[trigger] ord@[p]) as int) < pkgs@.len(),
                order@.len() == posmap.len(),
                forall|u: int|
                    0 <= u < posmap.len() ==> 0 <= #[trigger] posmap[u] < t && ord@[posmap[u]]
                        == order@[u],
                forall|u1: int, u2: int| 0 <= u1 < u2 < posmap.len() ==> posmap[u1] < posmap[u2],
                forall|u: int|
                    0 <= u < order@.len() ==> ((#[trigger] order@[u]) as int) < pkgs@.len()
                        && !pkgs@[order@[u] as int].0.spec_private(),
                forall|p: int|
                    0 <= p < t && !pkgs@[(#[trigger] ord@[p]) as int].0.spec_private()
                        ==> order@.contains(ord@[p]),
            decreases ord.len() - t,
        {
            let k = ord[t];
            let ghost pre_order = order@;
            if !pkgs[k].0.private() {
                order.push(k);
                proof {
                    posmap = posmap.push(t as int);
                }
            }
            proof {
                assert(ord@.take(t + 1).drop_last() =~= ord@.take(t as int));
                assert(ord@.take(t + 1).last() == ord@[t as int]);
                assert forall|p: int|
                    0 <= p < t + 1 && !pkgs@[(#[trigger] ord@[p]) as int].0.spec_private() implies order@.contains(
                    ord@[p],
                ) by {
                    if p < t {
                        let u = choose|u: int| 0 <= u < pre_order.len() && pre_order[u] == ord@[p];
                        assert(order@[u] == ord@[p]);
                    } else {
                        assert(order@[order@.len() - 1] == ord@[t as int]);
                    }
                }
            }
            t = t + 1;
        }
        proof {
            assert forall|k: usize|
                k < pkgs@.len() && !pkgs@[k as int].0.spec_private() implies #[trigger] order@.contains(
                k,
            ) by {
                assert(ord@.contains(k));
                let p = choose|p: int| 0 <= p < ord@.len() && ord@[p] == k;
                assert(order@.contains(ord@[p]));
            }
            assert forall|p: int, q: int|
                0 <= p < q < order@.len() implies (#[trigger] order@[p]) != (
            #[trigger] order@[q]) by {
                assert(ord@[posmap[p]] == order@[p]);
                assert(ord@[posmap[q]] == order@[q]);
                assert(posmap[p] < posmap[q]);
            }
            assert forall|p: int, q: int|
                0 <= p < order@.len() && 0 <= q < order@.len() && #[trigger] depends_on(
                    pkgs@[order@[p] as int].0,
                    pkgs@[order@[q] as int].0,
                ) implies q < p by {
                assert(ord@[posmap[p]] == order@[p]);
                assert(ord@[posmap[q]] == order@[q]);
                assert(depends_on(
                    pkgs@[ord@[posmap[p]] as int].0,
                    pkgs@[ord@[posmap[q]] as int].0,
                ));
                assert(posmap[q] < posmap[p]);
                if p == q {
                    assert(posmap[p] == posmap[q]);
                }
                if p < q {
                    assert(posmap[p] < posmap[q]);
                }
            }
        }
        proof {
            assert(ord@.take(ord@.len() as int) =~= ord@);
        }
        let st = PublishState {
            pkgs,
            order,
            idx: 0,
            phase: PublishPhase::CheckIndex,
            polls_left: MAX_INDEX_POLLS,
        };
        let a = query_action(&st);
        Ok((st, a))
    }

    /// React to the index query: a version already published is skipped and
    /// the pipeline moves to the next package without publishing (safe
    /// re-runs); otherwise the publish command is issued for the current
    /// package.
    pub fn on_index(&self, st: &mut PublishState, published: bool) -> (a: PublishAction)
        requires
            old(st).wf(),
            old(st).phase is CheckIndex,
        ensures
            final(st).wf(),
            final(st).pkgs == old(st).pkgs,
            final(st).order == old(st).order,
            old(st).idx >= old(st).order@.len() ==> a is Done && final(st).idx == old(st).idx
                && final(st).phase is CheckIndex,
            old(st).idx < old(st).order@.len() && published ==> {
                &&& final(st).idx == old(st).idx + 1
                &&& final(st).phase is CheckIndex
                &&& (final(st).idx < final(st).order@.len() ==> matches_query(
                    a,
                    final(st).cur().0,
                    final(st).cur().1,
                ))
                &&& (final(st).idx >= final(st).order@.len() ==> a is Done)
            },
            old(st).idx < old(st).order@.len() && !published ==> {
                &&& final(st).idx == old(st).idx
                &&& final(st).phase is AwaitPublish
                &&& a matches PublishAction::RunPublish { args } && str_views(args@)
                    == spec_publish_args(*self, old(st).cur().0.manifest_path@)
            },
    {
        if st.idx >= st.order.len() {
            return PublishAction::Done;
        }
        if published {
            st.idx = st.idx + 1;
            return query_action(st);
        }
        st.phase = PublishPhase::AwaitPublish;
        let k = st.order[st.idx];
        let manifest = &st.pkgs[k].0.manifest_path;
        let mut args: Vec<String> = vec!["publish".to_owned()];
        if self.skip_verification {
            args.push("--no-verify".to_owned());
        }
        if self.allow_dirty {
            args.push("--allow-dirty".to_owned());
        }
        match &self.registry {
            Some(r) => {
                args.push("--registry".to_owned());
                args.push(r.clone());
            },
            None => (),
        }
        match &self.token {
            Some(tk) => {
                args.push("--token".to_owned());
                args.push(tk.clone());
            },
            None => (),
        }
        args.push("--manifest-path".to_owned());
        args.push(manifest.clone());
        proof {
            assert(str_views(args@) =~= spec_publish_args(*self, old(st).cur().0.manifest_path@));
        }
        PublishAction::RunPublish { args }
    }

    /// React to the publish command's output: without the upload marker, or
    /// with an error marker, the package failed to publish and the pipeline
    /// aborts; otherwise the propagation poll starts.
    pub fn on_publish_output(&self, st: &mut PublishState, stderr: &str) -> (r: Result<
        PublishAction,
        Error,
    >)
        requires
            old(st).wf(),
            old(st).phase is AwaitPublish,
            old(st).idx < old(st).order@.len(),
        ensures
            final(st).wf(),
            final(st).pkgs == old(st).pkgs,
            final(st).order == old(st).order,
            final(st).idx == old(st).idx,
            !spec_publish_ok(stderr@) ==> (r matches Err(e) && (e matches Error::Publish(n) && n
                == old(st).cur().0.name)),
            spec_publish_ok(stderr@) ==> {
                &&& final(st).phase is Poll
                &&& final(st).polls_left == MAX_INDEX_POLLS
                &&& r matches Ok(a) && matches_poll(a, old(st).cur().0, old(st).cur().1)
            },
    {
        if !publish_output_ok(stderr) {
            let k = st.order[st.idx];
            return Err(Error::Publish(st.pkgs[k].0.name.clone()));
        }
        st.phase = PublishPhase::Poll;
        st.polls_left = MAX_INDEX_POLLS;
        let k = st.order[st.idx];
        let m = &st.pkgs[k].0;
        Ok(
            PublishAction::PollIndex {
                name: m.name.clone(),
                version: st.pkgs[k].1.clone(),
                registry: registry_of(m),
            },
        )
    }

    /// React to one propagation poll: once the version is visible the
    /// pipeline moves on; until then it polls again, and an exhausted bound
    /// is a timeout, distinct from a publish failure.
    pub fn on_poll(&self, st: &mut PublishState, visible: bool) -> (r: Result<
        PublishAction,
        Error,
    >)
        requires
            old(st).wf(),
            old(st).phase is Poll,
            old(st).idx < old(st).order@.len(),
        ensures
            final(st).wf(),
            final(st).pkgs == old(st).pkgs,
            final(st).order == old(st).order,
            visible ==> {
                &&& final(st).idx == old(st).idx + 1
                &&& final(st).phase is CheckIndex
                &&& (final(st).idx < final(st).order@.len() ==> (r matches Ok(a) && matches_query(
                    a,
                    final(st).cur().0,
                    final(st).cur().1,
                )))
                &&& (final(st).idx >= final(st).order@.len() ==> (r matches Ok(a) && a is Done))
            },
            !visible && old(st).polls_left == 0 ==> (r matches Err(e) && e is PublishTimeout),
            !visible && old(st).polls_left > 0 ==> {
                &&& final(st).idx == old(st).idx
                &&& final(st).phase is Poll
                &&& final(st).polls_left == old(st).polls_left - 1
                &&& r matches Ok(a) && matches_poll(a, old(st).cur().0, old(st).cur().1)
            },
    {
        let n = st.order.len();
        if visible {
            st.idx = st.idx + 1;
            st.phase = PublishPhase::CheckIndex;
            return Ok(query_action(st));
        }
        if st.polls_left == 0 {
            return Err(Error::PublishTimeout);
        }
        st.polls_left = st.polls_left - 1;
        let k = st.order[st.idx];
        let m = &st.pkgs[k].0;
        Ok(
            PublishAction::PollIndex {
                name: m.name.clone(),
                version: st.pkgs[k].1.clone(),
                registry: registry_of(m),
            },
        )
    }
}

} // verus!
