use keepass_sync::sync::SyncPlan;
use keepass_sync::{
    decide_sync, plan_sync, Revision, SyncAction, SyncExecutionReport, SyncInputs, SyncProblem,
    SyncReportKind,
};

fn rev(value: &[u8]) -> Revision {
    Revision::from_bytes(value)
}

#[test]
fn initializes_remote_when_no_base_or_remote_exists() {
    let inputs = SyncInputs {
        local_revision: rev(b"local"),
        base_revision: None,
        remote_revision: None,
    };

    assert_eq!(decide_sync(&inputs).unwrap(), SyncAction::InitializeRemote);
}

#[test]
fn adopts_remote_when_fresh_device_matches_canonical() {
    let revision = rev(b"same");
    let inputs = SyncInputs {
        local_revision: revision.clone(),
        base_revision: None,
        remote_revision: Some(revision),
    };

    assert_eq!(decide_sync(&inputs).unwrap(), SyncAction::AdoptRemote);
}

#[test]
fn preserves_incoming_when_fresh_device_differs_from_canonical() {
    let inputs = SyncInputs {
        local_revision: rev(b"local"),
        base_revision: None,
        remote_revision: Some(rev(b"remote")),
    };

    assert_eq!(decide_sync(&inputs).unwrap(), SyncAction::PreserveIncoming);
}

#[test]
fn does_nothing_when_local_and_remote_match_base() {
    let revision = rev(b"base");
    let inputs = SyncInputs {
        local_revision: revision.clone(),
        base_revision: Some(revision.clone()),
        remote_revision: Some(revision),
    };

    assert_eq!(decide_sync(&inputs).unwrap(), SyncAction::Noop);
}

#[test]
fn pulls_when_only_remote_changed() {
    let base = rev(b"base");
    let inputs = SyncInputs {
        local_revision: base.clone(),
        base_revision: Some(base),
        remote_revision: Some(rev(b"remote")),
    };

    assert_eq!(decide_sync(&inputs).unwrap(), SyncAction::PullRemote);
}

#[test]
fn publishes_when_only_local_changed() {
    let base = rev(b"base");
    let inputs = SyncInputs {
        local_revision: rev(b"local"),
        base_revision: Some(base.clone()),
        remote_revision: Some(base),
    };

    assert_eq!(decide_sync(&inputs).unwrap(), SyncAction::PublishLocal);
}

#[test]
fn preserves_incoming_when_both_changed() {
    let inputs = SyncInputs {
        local_revision: rev(b"local"),
        base_revision: Some(rev(b"base")),
        remote_revision: Some(rev(b"remote")),
    };

    assert_eq!(decide_sync(&inputs).unwrap(), SyncAction::PreserveIncoming);
}

#[test]
fn base_without_remote_is_a_problem() {
    let inputs = SyncInputs {
        local_revision: rev(b"local"),
        base_revision: Some(rev(b"base")),
        remote_revision: None,
    };

    assert_eq!(
        decide_sync(&inputs).unwrap_err(),
        SyncProblem::RemoteMissingAfterInitialization
    );
    assert!(plan_sync(&inputs).is_err());
    assert_eq!(
        SyncProblem::RemoteMissingAfterInitialization.message(),
        "remote canonical database is missing after initialization"
    );
}

#[test]
fn both_changed_to_the_same_contents_is_still_preserved() {
    let inputs = SyncInputs {
        local_revision: rev(b"same-change"),
        base_revision: Some(rev(b"base")),
        remote_revision: Some(rev(b"same-change")),
    };

    assert_eq!(decide_sync(&inputs).unwrap(), SyncAction::PreserveIncoming);
}

fn plan(local: &[u8], base: Option<&[u8]>, remote: Option<&[u8]>) -> SyncPlan {
    plan_sync(&SyncInputs {
        local_revision: rev(local),
        base_revision: base.map(rev),
        remote_revision: remote.map(rev),
    })
    .unwrap()
}

#[test]
fn plans_record_the_new_base() {
    let p = plan(b"local", None, None);
    assert_eq!(p.action, SyncAction::InitializeRemote);
    assert!(p.locked);
    assert!(p.publish_local && !p.pull_remote && !p.preserve_local);
    assert_eq!(p.new_base, Some(rev(b"local")));

    let p = plan(b"local", Some(b"base"), Some(b"base"));
    assert_eq!(p.action, SyncAction::PublishLocal);
    assert!(p.publish_local && !p.pull_remote && !p.preserve_local);
    assert_eq!(p.new_base, Some(rev(b"local")));

    let p = plan(b"base", Some(b"base"), Some(b"remote"));
    assert_eq!(p.action, SyncAction::PullRemote);
    assert!(!p.locked);
    assert!(!p.publish_local && p.pull_remote && !p.preserve_local);
    assert_eq!(p.new_base, Some(rev(b"remote")));

    let p = plan(b"same", None, Some(b"same"));
    assert_eq!(p.action, SyncAction::AdoptRemote);
    assert!(!p.publish_local && !p.pull_remote && !p.preserve_local);
    assert_eq!(p.new_base, Some(rev(b"same")));

    let p = plan(b"base", Some(b"base"), Some(b"base"));
    assert_eq!(p.action, SyncAction::Noop);
    assert!(!p.publish_local && !p.pull_remote && !p.preserve_local);
    assert_eq!(p.new_base, None);

    let p = plan(b"local", Some(b"base"), Some(b"remote"));
    assert_eq!(p.action, SyncAction::PreserveIncoming);
    assert!(p.locked);
    assert!(!p.publish_local && !p.pull_remote && p.preserve_local);
    assert_eq!(p.new_base, None);
}

#[test]
fn a_second_sync_after_publish_does_nothing() {
    // after publishing, local, base and remote are all the local revision
    let p = plan(b"local", Some(b"base"), Some(b"base"));
    let after = p.new_base.clone().unwrap();
    let again = decide_sync(&SyncInputs {
        local_revision: rev(b"local"),
        base_revision: Some(after.clone()),
        remote_revision: Some(after),
    })
    .unwrap();
    assert_eq!(again, SyncAction::Noop);
}

#[test]
fn action_names() {
    assert_eq!(SyncAction::InitializeRemote.as_str(), "initialize-remote");
    assert_eq!(SyncAction::AdoptRemote.as_str(), "adopt-remote");
    assert_eq!(SyncAction::Noop.as_str(), "noop");
    assert_eq!(SyncAction::PullRemote.as_str(), "pull-remote");
    assert_eq!(SyncAction::PublishLocal.as_str(), "publish-local");
    assert_eq!(SyncAction::PreserveIncoming.as_str(), "preserve-incoming");
}

#[test]
fn reports() {
    let r = SyncExecutionReport::adopted();
    assert_eq!(r.kind, SyncReportKind::Adopted);
    assert_eq!(r.action, SyncAction::AdoptRemote);
    assert_eq!(r.message, "local state adopted existing remote canonical revision");
    assert!(r.path.is_none());

    let r = SyncExecutionReport::noop();
    assert_eq!(r.kind, SyncReportKind::Noop);
    assert_eq!(r.message, "local and remote are already synced");

    let r = SyncExecutionReport::pulled();
    assert_eq!(r.kind, SyncReportKind::Pulled);
    assert_eq!(r.action, SyncAction::PullRemote);
    assert_eq!(r.message, "pulled remote canonical database into local file");

    let r = SyncExecutionReport::published(SyncAction::InitializeRemote);
    assert_eq!(r.kind, SyncReportKind::Published);
    assert_eq!(r.action, SyncAction::InitializeRemote);
    assert_eq!(r.message, "published local database as remote canonical");

    let r = SyncExecutionReport::preserved_incoming(std::path::PathBuf::from("incoming/mac/x.kdbx"));
    assert_eq!(r.kind, SyncReportKind::IncomingPreserved);
    assert_eq!(r.action, SyncAction::PreserveIncoming);
    assert_eq!(r.message, "preserved divergent local database for desktop merge");
    assert_eq!(r.path, Some(std::path::PathBuf::from("incoming/mac/x.kdbx")));
}
