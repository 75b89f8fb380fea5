//! The sync decision: what to do given the local, base and remote revisions.
use std::path::PathBuf;
use vstd::prelude::*;

use crate::revision::{same_optional_revision, Revision};
use vstd::std_specs::cmp::PartialEqSpecImpl;
use crate::text::owned;

verus! {

/// What a sync run observes: the revision of the local database, the revision this device last
/// agreed on with the remote (its base), and the revision of the remote canonical database.
#[derive(Debug, Clone)]
pub struct SyncInputs {
    pub local_revision: Revision,
    pub base_revision: Option<Revision>,
    pub remote_revision: Option<Revision>,
}

impl PartialEq for SyncInputs {
    fn eq(&self, other: &Self) -> (r: bool) {
        self.local_revision.same(&other.local_revision) && same_optional_revision(
            &self.base_revision,
            &other.base_revision,
        ) && same_optional_revision(&self.remote_revision, &other.remote_revision)
    }
}

impl Eq for SyncInputs {
}

impl PartialEqSpecImpl for SyncInputs {
    open spec fn obeys_eq_spec() -> bool {
        true
    }

    open spec fn eq_spec(&self, other: &Self) -> bool {
        self.local_revision@ == other.local_revision@ && self.base_revision.deep_view()
            == other.base_revision.deep_view() && self.remote_revision.deep_view()
            == other.remote_revision.deep_view()
    }
}

/// What a sync run does.
#[derive(Debug, Clone, Copy, PartialEq, Eq, Structural)]
pub enum SyncAction {
    InitializeRemote,
    AdoptRemote,
    Noop,
    PullRemote,
    PublishLocal,
    PreserveIncoming,
}

/// A state in which no sync can proceed.
#[derive(Debug, Clone, Copy, PartialEq, Eq, Structural)]
pub enum SyncProblem {
    RemoteMissingAfterInitialization,
}

/// The decision, over revision texts.
pub open spec fn decide_spec(
    local: Seq<char>,
    base: Option<Seq<char>>,
    remote: Option<Seq<char>>,
) -> Result<SyncAction, SyncProblem> {
    match (base, remote) {
        (None, None) => Ok(SyncAction::InitializeRemote),
        (None, Some(r)) => if r == local {
            Ok(SyncAction::AdoptRemote)
        } else {
            Ok(SyncAction::PreserveIncoming)
        },
        (Some(_), None) => Err(SyncProblem::RemoteMissingAfterInitialization),
        (Some(b), Some(r)) => {
            let local_changed = local != b;
            let remote_changed = r != b;
            if !local_changed && !remote_changed {
                Ok(SyncAction::Noop)
            } else if !local_changed && remote_changed {
                Ok(SyncAction::PullRemote)
            } else if local_changed && !remote_changed {
                Ok(SyncAction::PublishLocal)
            } else {
                Ok(SyncAction::PreserveIncoming)
            }
        },
    }
}

/// The decision for the given inputs.
pub open spec fn decide_inputs(inputs: SyncInputs) -> Result<SyncAction, SyncProblem> {
    decide_spec(
        inputs.local_revision@,
        inputs.base_revision.deep_view(),
        inputs.remote_revision.deep_view(),
    )
}

/// Decides what a sync run does.
pub fn decide_sync(inputs: &SyncInputs) -> (r: Result<SyncAction, SyncProblem>)
    ensures
        r == decide_inputs(*inputs),
{
    match (&inputs.base_revision, &inputs.remote_revision) {
        (None, None) => Ok(SyncAction::InitializeRemote),
        (None, Some(remote)) => {
            if remote.same(&inputs.local_revision) {
                Ok(SyncAction::AdoptRemote)
            } else {
                Ok(SyncAction::PreserveIncoming)
            }
        },
        (Some(_), None) => Err(SyncProblem::RemoteMissingAfterInitialization),
        (Some(base), Some(remote)) => {
            let local_changed = !inputs.local_revision.same(base);
            let remote_changed = !remote.same(base);
            if !local_changed && !remote_changed {
                Ok(SyncAction::Noop)
            } else if !local_changed && remote_changed {
                Ok(SyncAction::PullRemote)
            } else if local_changed && !remote_changed {
                Ok(SyncAction::PublishLocal)
            } else {
                Ok(SyncAction::PreserveIncoming)
            }
        },
    }
}


/// The work a sync run does on the remote and the local side, as the filesystem remote
/// carries it out: whether it holds the remote lock while it works, publishes the local
/// database as canonical, backs up the local database and replaces it with the canonical one,
/// keeps the local database as an incoming copy for a desktop merge, the base revision to
/// record in the local state after that work (`None`: the state is left as it is), and the
/// remote revision the decision saw, which a publish must still find under the lock.
#[derive(Debug, Clone)]
pub struct SyncPlan {
    pub action: SyncAction,
    pub locked: bool,
    pub publish_local: bool,
    pub pull_remote: bool,
    pub preserve_local: bool,
    pub new_base: Option<Revision>,
    pub expected_remote: Option<Revision>,
}

/// Whether a plan does the work that its action calls for, for the given inputs.
pub open spec fn plan_matches(plan: SyncPlan, inputs: SyncInputs) -> bool {
    let a = plan.action;
    &&& plan.locked == (plan.publish_local || plan.preserve_local)
    &&& plan.publish_local == (a == SyncAction::InitializeRemote || a == SyncAction::PublishLocal)
    &&& plan.pull_remote == (a == SyncAction::PullRemote)
    &&& plan.preserve_local == (a == SyncAction::PreserveIncoming)
    &&& plan.expected_remote.deep_view() == inputs.remote_revision.deep_view()
    &&& plan.new_base.deep_view() == match a {
        SyncAction::InitializeRemote | SyncAction::PublishLocal => Some(inputs.local_revision@),
        SyncAction::AdoptRemote | SyncAction::PullRemote => inputs.remote_revision.deep_view(),
        SyncAction::Noop | SyncAction::PreserveIncoming => None::<Seq<char>>,
    }
}

/// Plans a sync run: the decision and the work it calls for.
pub fn plan_sync(inputs: &SyncInputs) -> (r: Result<SyncPlan, SyncProblem>)
    ensures
        r is Ok <==> decide_inputs(*inputs) is Ok,
        r matches Ok(plan) ==> decide_inputs(*inputs) == Ok::<SyncAction, SyncProblem>(plan.action)
            && plan_matches(plan, *inputs),
        r matches Err(p) ==> decide_inputs(*inputs) == Err::<SyncAction, SyncProblem>(p),
{
    let action = match decide_sync(inputs) {
        Ok(a) => a,
        Err(p) => return Err(p),
    };
    let new_base = match action {
        SyncAction::InitializeRemote | SyncAction::PublishLocal => Some(inputs.local_revision.clone()),
        SyncAction::AdoptRemote | SyncAction::PullRemote => match &inputs.remote_revision {
            Some(remote) => Some(remote.clone()),
            None => None,
        },
        SyncAction::Noop | SyncAction::PreserveIncoming => None,
    };
    let publish_local = action == SyncAction::InitializeRemote || action == SyncAction::PublishLocal;
    let preserve_local = action == SyncAction::PreserveIncoming;
    Ok(SyncPlan {
        action,
        locked: publish_local || preserve_local,
        publish_local,
        pull_remote: action == SyncAction::PullRemote,
        preserve_local,
        new_base,
        expected_remote: match &inputs.remote_revision {
            Some(remote) => Some(remote.clone()),
            None => None,
        },
    })
}

/// A publish that finds under the lock the remote revision its decision saw publishes over
/// the device's base: the remote still holds the base (or, for a first publish, nothing).
pub proof fn law_locked_publish_is_over_base(
    plan: SyncPlan,
    inputs: SyncInputs,
    current: Option<Seq<char>>,
)
    requires
        decide_inputs(inputs) == Ok::<SyncAction, SyncProblem>(plan.action),
        plan_matches(plan, inputs),
        plan.publish_local,
        current == plan.expected_remote.deep_view(),
    ensures
        current == inputs.base_revision.deep_view(),
{
}

/// The revisions after a sync run that carried out the given action: local, base, remote.
pub open spec fn after_sync(
    local: Seq<char>,
    base: Option<Seq<char>>,
    remote: Option<Seq<char>>,
    a: SyncAction,
) -> (Seq<char>, Option<Seq<char>>, Option<Seq<char>>) {
    match a {
        SyncAction::InitializeRemote | SyncAction::PublishLocal => (local, Some(local), Some(local)),
        SyncAction::AdoptRemote => (local, remote, remote),
        SyncAction::PullRemote => (remote.unwrap(), remote, remote),
        SyncAction::Noop | SyncAction::PreserveIncoming => (local, base, remote),
    }
}

/// The work of a plan, applied to the revisions: the revisions after the run.
pub open spec fn apply_plan(
    plan: SyncPlan,
    local: Seq<char>,
    base: Option<Seq<char>>,
    remote: Option<Seq<char>>,
) -> (Seq<char>, Option<Seq<char>>, Option<Seq<char>>) {
    let new_remote = if plan.publish_local {
        Some(local)
    } else {
        remote
    };
    let new_local = if plan.pull_remote {
        remote.unwrap()
    } else {
        local
    };
    let new_base = if plan.new_base is Some {
        plan.new_base.deep_view()
    } else {
        base
    };
    (new_local, new_base, new_remote)
}

/// Carrying out a plan leaves the revisions as its action describes.
pub proof fn law_plan_carries_out_action(plan: SyncPlan, inputs: SyncInputs)
    requires
        decide_inputs(inputs) == Ok::<SyncAction, SyncProblem>(plan.action),
        plan_matches(plan, inputs),
    ensures
        apply_plan(
            plan,
            inputs.local_revision@,
            inputs.base_revision.deep_view(),
            inputs.remote_revision.deep_view(),
        ) == after_sync(
            inputs.local_revision@,
            inputs.base_revision.deep_view(),
            inputs.remote_revision.deep_view(),
            plan.action,
        ),
{
}

/// A device with no base and a remote with no canonical database: the remote is initialized.
/// A base without a remote canonical database is the only state in which no decision is made.
pub proof fn law_decision_fails_only_without_remote(
    local: Seq<char>,
    base: Option<Seq<char>>,
    remote: Option<Seq<char>>,
)
    ensures
        decide_spec(local, base, remote) is Err <==> (base is Some && remote is None),
        (base is None && remote is None) ==> decide_spec(local, base, remote)
            == Ok::<SyncAction, SyncProblem>(SyncAction::InitializeRemote),
{
}

/// The remote is pulled exactly when the local database is unchanged since the base and the
/// remote changed, so pulling loses no local change; a fresh device adopts the remote exactly
/// when it already holds the remote's revision. Both need a remote canonical revision.
pub proof fn law_pull_only_when_local_unchanged(
    local: Seq<char>,
    base: Option<Seq<char>>,
    remote: Option<Seq<char>>,
)
    ensures
        decide_spec(local, base, remote) == Ok::<SyncAction, SyncProblem>(SyncAction::PullRemote)
            <==> (remote is Some && base == Some(local) && remote != base),
        decide_spec(local, base, remote) == Ok::<SyncAction, SyncProblem>(SyncAction::AdoptRemote)
            <==> (remote == Some(local) && base is None),
{
}

/// The local database is published exactly when it changed and the remote did not change
/// since the base, so publishing overwrites no remote change; the remote is initialized
/// exactly when there is neither a base nor a remote canonical database.
pub proof fn law_publish_only_when_remote_unchanged(
    local: Seq<char>,
    base: Option<Seq<char>>,
    remote: Option<Seq<char>>,
)
    ensures
        decide_spec(local, base, remote) == Ok::<SyncAction, SyncProblem>(SyncAction::PublishLocal)
            <==> (remote is Some && remote == base && base != Some(local)),
        decide_spec(local, base, remote) == Ok::<SyncAction, SyncProblem>(
            SyncAction::InitializeRemote,
        ) <==> (remote is None && base is None),
{
}

/// When both sides changed (or a fresh device differs from the remote), the local database is
/// preserved as incoming and the canonical database is left alone.
pub proof fn law_divergence_is_preserved(
    local: Seq<char>,
    base: Option<Seq<char>>,
    remote: Option<Seq<char>>,
)
    ensures
        decide_spec(local, base, remote) == Ok::<SyncAction, SyncProblem>(
            SyncAction::PreserveIncoming,
        ) <==> (remote is Some && base != remote && base != Some(local) && (base is None ==> remote
            != Some(local))),
        decide_spec(local, base, remote) == Ok::<SyncAction, SyncProblem>(
            SyncAction::PreserveIncoming,
        ) ==> after_sync(local, base, remote, SyncAction::PreserveIncoming) == (local, base, remote),
{
}

/// Nothing is done exactly when local, base and remote all agree.
pub proof fn law_noop_iff_all_agree(local: Seq<char>, base: Option<Seq<char>>, remote: Option<Seq<char>>)
    ensures
        decide_spec(local, base, remote) == Ok::<SyncAction, SyncProblem>(SyncAction::Noop) <==> (
        base == Some(local) && remote == Some(local)),
{
}

/// Every run other than a preserve leaves local, base and remote at one revision, and a second
/// run right after it does nothing.
pub proof fn law_sync_converges(local: Seq<char>, base: Option<Seq<char>>, remote: Option<Seq<char>>)
    requires
        decide_spec(local, base, remote) is Ok,
        decide_spec(local, base, remote) != Ok::<SyncAction, SyncProblem>(
            SyncAction::PreserveIncoming,
        ),
    ensures
        ({
            let a = decide_spec(local, base, remote)->Ok_0;
            let (l2, b2, r2) = after_sync(local, base, remote, a);
            &&& b2 == Some(l2)
            &&& r2 == Some(l2)
            &&& decide_spec(l2, b2, r2) == Ok::<SyncAction, SyncProblem>(SyncAction::Noop)
        }),
{
}

/// The command-line name of an action.
pub open spec fn action_name(a: SyncAction) -> Seq<char> {
    match a {
        SyncAction::InitializeRemote => "initialize-remote"@,
        SyncAction::AdoptRemote => "adopt-remote"@,
        SyncAction::Noop => "noop"@,
        SyncAction::PullRemote => "pull-remote"@,
        SyncAction::PublishLocal => "publish-local"@,
        SyncAction::PreserveIncoming => "preserve-incoming"@,
    }
}

impl SyncAction {
    /// The command-line name of this action.
    pub fn as_str(&self) -> (r: &'static str)
        ensures
            r@ == action_name(*self),
    {
        match self {
            SyncAction::InitializeRemote => "initialize-remote",
            SyncAction::AdoptRemote => "adopt-remote",
            SyncAction::Noop => "noop",
            SyncAction::PullRemote => "pull-remote",
            SyncAction::PublishLocal => "publish-local",
            SyncAction::PreserveIncoming => "preserve-incoming",
        }
    }
}

/// The kind of outcome a sync run reports.
#[derive(Debug, Clone, Copy, PartialEq, Eq, Structural)]
pub enum SyncReportKind {
    Adopted,
    IncomingPreserved,
    Noop,
    Published,
    Pulled,
}

/// What a sync run reports.
#[derive(Debug, Clone, PartialEq, Eq)]
pub struct SyncExecutionReport {
    pub kind: SyncReportKind,
    pub action: SyncAction,
    pub message: String,
    pub path: Option<PathBuf>,
}

impl SyncExecutionReport {
    /// The report of a device that adopted the remote canonical revision.
    pub fn adopted() -> (r: Self)
        ensures
            r.kind == SyncReportKind::Adopted,
            r.action == SyncAction::AdoptRemote,
            r.message@ == "local state adopted existing remote canonical revision"@,
            r.path is None,
    {
        SyncExecutionReport {
            kind: SyncReportKind::Adopted,
            action: SyncAction::AdoptRemote,
            message: owned("local state adopted existing remote canonical revision"),
            path: None,
        }
    }

    /// The report of a run that found everything in sync.
    pub fn noop() -> (r: Self)
        ensures
            r.kind == SyncReportKind::Noop,
            r.action == SyncAction::Noop,
            r.message@ == "local and remote are already synced"@,
            r.path is None,
    {
        SyncExecutionReport {
            kind: SyncReportKind::Noop,
            action: SyncAction::Noop,
            message: owned("local and remote are already synced"),
            path: None,
        }
    }

    /// The report of a run that pulled the remote database.
    pub fn pulled() -> (r: Self)
        ensures
            r.kind == SyncReportKind::Pulled,
            r.action == SyncAction::PullRemote,
            r.message@ == "pulled remote canonical database into local file"@,
            r.path is None,
    {
        SyncExecutionReport {
            kind: SyncReportKind::Pulled,
            action: SyncAction::PullRemote,
            message: owned("pulled remote canonical database into local file"),
            path: None,
        }
    }

    /// The report of a run that published the local database with the given action.
    pub fn published(action: SyncAction) -> (r: Self)
        ensures
            r.kind == SyncReportKind::Published,
            r.action == action,
            r.message@ == "published local database as remote canonical"@,
            r.path is None,
    {
        SyncExecutionReport {
            kind: SyncReportKind::Published,
            action,
            message: owned("published local database as remote canonical"),
            path: None,
        }
    }

    /// The report of a run that kept the divergent local database at the given path.
    pub fn preserved_incoming(path: PathBuf) -> (r: Self)
        ensures
            r.kind == SyncReportKind::IncomingPreserved,
            r.action == SyncAction::PreserveIncoming,
            r.message@ == "preserved divergent local database for desktop merge"@,
            r.path == Some(path),
    {
        SyncExecutionReport {
            kind: SyncReportKind::IncomingPreserved,
            action: SyncAction::PreserveIncoming,
            message: owned("preserved divergent local database for desktop merge"),
            path: Some(path),
        }
    }
}

/// The human-readable description of a sync problem.
pub open spec fn sync_problem_text(p: SyncProblem) -> Seq<char> {
    match p {
        SyncProblem::RemoteMissingAfterInitialization =>
            "remote canonical database is missing after initialization"@,
    }
}

impl SyncProblem {
    /// The human-readable description of this problem.
    pub fn message(&self) -> (r: String)
        ensures
            r@ == sync_problem_text(*self),
    {
        match self {
            SyncProblem::RemoteMissingAfterInitialization => owned(
                "remote canonical database is missing after initialization",
            ),
        }
    }
}

} // verus!
