use keepass_sync::remote::{
    archive_name, canonical_revision, check_base_revision, check_byte_publish, check_copied_revision,
    display_optional_revision, finish_locked, incoming_name, local_backup_name, merge_work_name,
    remote_backup_name, remote_presence, require_canonical, safe_revision,
    sanitize_path_component, upload_name, confirm_publish, select_incoming,
    select_incoming_order,
};
use keepass_sync::{
    FilesystemRemote, LocalState, LocalStateError, Manifest, ManifestError, RemoteError,
    Revision, SyncProblem, plan_sync, SyncInputs,
};
use std::path::PathBuf;

#[test]
fn unsupported_schema_fails_validation() {
    let manifest = Manifest {
        schema_version: 2,
        revision: Revision::from_bytes(b"db"),
        updated_at: "2026-05-31T12:00:00Z".to_string(),
        updated_by: "macbook-pro".to_string(),
    };

    assert!(manifest.validate().is_err());
}

#[test]
fn new_manifest_validates() {
    let manifest = Manifest::new(
        Revision::from_bytes(b"db"),
        "2026-05-31T12:00:00Z".to_string(),
        "macbook-pro".to_string(),
    );
    assert_eq!(manifest.schema_version, Manifest::CURRENT_SCHEMA_VERSION);
    assert!(manifest.validate().is_ok());
    assert_eq!(manifest.revision, Revision::from_bytes(b"db"));
    match (Manifest { schema_version: 7, ..manifest }).validate() {
        Err(ManifestError::UnsupportedSchema { schema_version }) => assert_eq!(schema_version, 7),
        other => panic!("unexpected {other:?}"),
    }
    assert_eq!(
        ManifestError::UnsupportedSchema { schema_version: 7 }.message(""),
        "unsupported manifest schema version: 7"
    );
}

#[test]
fn local_state() {
    let state = LocalState::new("mac");
    assert_eq!(state.device_id, "mac");
    assert_eq!(state.schema_version, LocalState::CURRENT_SCHEMA_VERSION);
    assert!(state.base_revision.is_none());
    assert!(state.validate().is_ok());
    let next = state.with_base_revision(Revision::from_bytes(b"x"));
    assert_eq!(next.device_id, "mac");
    assert_eq!(next.base_revision, Some(Revision::from_bytes(b"x")));
    let old = LocalState {
        schema_version: 3,
        ..next
    };
    assert!(matches!(
        old.validate(),
        Err(LocalStateError::UnsupportedSchema { schema_version: 3 })
    ));
    assert_eq!(
        LocalStateError::UnsupportedSchema { schema_version: 3 }.message(""),
        "unsupported local state schema version: 3"
    );
}

#[test]
fn device_ids_become_safe_path_components() {
    assert_eq!(sanitize_path_component("Pixel 8"), "Pixel-8");
    assert_eq!(sanitize_path_component("mac_book-1"), "mac_book-1");
    assert_eq!(sanitize_path_component("../../etc"), "etc");
    assert_eq!(sanitize_path_component("--a/b--"), "a-b");
    assert_eq!(sanitize_path_component(""), "unknown-device");
    assert_eq!(sanitize_path_component("///"), "unknown-device");
    assert_eq!(sanitize_path_component("é"), "unknown-device");
}

#[test]
fn file_names() {
    let revision = Revision::from_bytes(b"abc");
    let safe = "sha256-ba7816bf8f01cfea414140de5dae2223b00361a396177a9cb410ff61f20015ad";
    assert_eq!(safe_revision(&revision), safe);
    assert_eq!(incoming_name(&revision), format!("{safe}.kdbx"));
    assert_eq!(remote_backup_name("100", "mac"), "100-mac-remote.kdbx");
    assert_eq!(local_backup_name("100", "mac"), "100-mac-local.kdbx");
    assert_eq!(merge_work_name("android", "100"), ".merge-android-100.kdbx");
    assert_eq!(upload_name("Pixel 8", "100"), ".upload-Pixel-8-100.kdbx");
    assert_eq!(archive_name("100", "x.kdbx"), "100-x.kdbx");
}

#[test]
fn base_revision_must_match_for_byte_publish() {
    let first = Revision::from_bytes(b"db-a");
    let stale = Revision::from_bytes(b"stale");
    assert!(check_base_revision(None, None).is_ok());
    assert!(check_base_revision(Some(first.clone()), Some(&first)).is_ok());
    match check_base_revision(Some(first.clone()), Some(&stale)) {
        Err(RemoteError::BaseRevisionMismatch { expected, actual }) => {
            assert_eq!(expected, Some(stale.clone()));
            assert_eq!(actual, Some(first.clone()));
        }
        other => panic!("unexpected {other:?}"),
    }
    assert!(check_base_revision(None, Some(&first)).is_err());
    assert!(check_base_revision(Some(first.clone()), None).is_err());
    let message = RemoteError::BaseRevisionMismatch {
        expected: None,
        actual: Some(first.clone()),
    }
    .message("");
    assert_eq!(
        message,
        format!("remote base revision changed: expected none, got {}", first.as_str())
    );
}

#[test]
fn canonical_checks() {
    let a = Revision::from_bytes(b"a");
    let b = Revision::from_bytes(b"b");
    assert_eq!(canonical_revision(a.clone(), a.clone()).unwrap(), a);
    let error = canonical_revision(a.clone(), b.clone()).unwrap_err();
    assert_eq!(
        error.message(""),
        format!(
            "manifest revision {} does not match canonical database hash {}",
            a.as_str(),
            b.as_str()
        )
    );
    assert!(check_copied_revision(&a, a.clone()).is_ok());
    assert!(matches!(
        check_copied_revision(&a, b.clone()),
        Err(RemoteError::ManifestHashMismatch { .. })
    ));
    assert_eq!(remote_presence(false, false).unwrap(), false);
    assert_eq!(remote_presence(false, true).unwrap(), false);
    assert_eq!(remote_presence(true, true).unwrap(), true);
    assert!(matches!(
        remote_presence(true, false),
        Err(RemoteError::NoCanonicalDatabase)
    ));
    assert!(matches!(
        require_canonical(None),
        Err(RemoteError::NoCanonicalDatabase)
    ));
    assert_eq!(require_canonical(Some(a.clone())).unwrap(), a);
    assert_eq!(display_optional_revision(&None), "none");
    assert_eq!(display_optional_revision(&Some(a.clone())), a.as_str());
}

#[test]
fn lock_results() {
    assert_eq!(finish_locked(Ok(1), Ok(())).unwrap(), 1);
    assert!(matches!(
        finish_locked::<u8>(Err(RemoteError::NoCanonicalDatabase), Err(RemoteError::Sync(SyncProblem::RemoteMissingAfterInitialization))),
        Err(RemoteError::NoCanonicalDatabase)
    ));
    assert!(matches!(
        finish_locked(Ok(1), Err(RemoteError::NoCanonicalDatabase)),
        Err(RemoteError::NoCanonicalDatabase)
    ));
}

#[test]
fn remote_error_messages() {
    assert_eq!(
        RemoteError::NoCanonicalDatabase.message(""),
        "manifest exists but canonical database is missing"
    );
    assert_eq!(
        RemoteError::LockHeld(PathBuf::from("/r/.lock")).message("/r/.lock"),
        "remote lock is already held: /r/.lock"
    );
    assert_eq!(
        RemoteError::Sync(SyncProblem::RemoteMissingAfterInitialization).message(""),
        "remote canonical database is missing after initialization"
    );
    assert_eq!(
        RemoteError::Io(std::io::Error::new(std::io::ErrorKind::Other, "x")).message("boom"),
        "remote filesystem error: boom"
    );
}

#[test]
fn remote_root() {
    let remote = FilesystemRemote::new(PathBuf::from("/srv/keepass"));
    assert_eq!(remote.root(), &PathBuf::from("/srv/keepass"));
}

#[test]
fn incoming_selection() {
    let entries: Vec<(String, String)> = [
        ("pixel", "b.kdbx"),
        ("mac", "z.kdbx"),
        ("pixel", "a.kdbx"),
        ("pixel", "notes.txt"),
        ("mac", ".kdbx"),
        ("mac", "a.kdbx.tmp"),
        ("android", "x..kdbx"),
        ("mac", "KDBX.kdbx"),
    ]
    .iter()
    .map(|(d, f)| (d.to_string(), f.to_string()))
    .collect();
    let order = select_incoming_order(&entries);
    assert_eq!(order, vec![6, 7, 1, 2, 0]);
    let selected = select_incoming(entries);
    let expected: Vec<(String, String)> = [
        ("android", "x..kdbx"),
        ("mac", "KDBX.kdbx"),
        ("mac", "z.kdbx"),
        ("pixel", "a.kdbx"),
        ("pixel", "b.kdbx"),
    ]
    .iter()
    .map(|(d, f)| (d.to_string(), f.to_string()))
    .collect();
    assert_eq!(selected, expected);
    assert!(select_incoming(Vec::new()).is_empty());
}

#[test]
fn publish_is_confirmed_under_the_lock() {
    let base = Revision::from_bytes(b"base");
    let plan = plan_sync(&SyncInputs {
        local_revision: Revision::from_bytes(b"local"),
        base_revision: Some(base.clone()),
        remote_revision: Some(base.clone()),
    })
    .unwrap();
    assert!(plan.publish_local);
    assert!(confirm_publish(&plan, Some(base.clone())).is_ok());
    let moved = Revision::from_bytes(b"someone else");
    match confirm_publish(&plan, Some(moved.clone())) {
        Err(RemoteError::BaseRevisionMismatch { expected, actual }) => {
            assert_eq!(expected, Some(base.clone()));
            assert_eq!(actual, Some(moved));
        }
        other => panic!("unexpected {other:?}"),
    }
    assert!(confirm_publish(&plan, None).is_err());

    let first = plan_sync(&SyncInputs {
        local_revision: Revision::from_bytes(b"local"),
        base_revision: None,
        remote_revision: None,
    })
    .unwrap();
    assert!(confirm_publish(&first, None).is_ok());
    assert!(confirm_publish(&first, Some(base.clone())).is_err());

    let pull = plan_sync(&SyncInputs {
        local_revision: base.clone(),
        base_revision: Some(base.clone()),
        remote_revision: Some(Revision::from_bytes(b"remote")),
    })
    .unwrap();
    assert!(confirm_publish(&pull, None).is_ok());
}

#[test]
fn restored_equality() {
    let a = Manifest::new(Revision::from_bytes(b"x"), "t".to_string(), "d".to_string());
    assert_eq!(a.clone(), a);
    assert_ne!(
        a,
        Manifest::new(Revision::from_bytes(b"y"), "t".to_string(), "d".to_string())
    );
    let s = LocalState::new("mac");
    assert_eq!(s.clone(), s);
    assert_ne!(s.with_base_revision(Revision::from_bytes(b"x")), s);
    let i = keepass_sync::SyncInputs {
        local_revision: Revision::from_bytes(b"x"),
        base_revision: None,
        remote_revision: None,
    };
    assert_eq!(i.clone(), i);
    let mut set = std::collections::HashSet::new();
    set.insert(Revision::from_bytes(b"x"));
    assert!(set.contains(&Revision::parse(Revision::from_bytes(b"x").as_str()).unwrap()));
}

#[test]
fn byte_publish_needs_current_base_and_matching_hash() {
    let base = Revision::from_bytes(b"base");
    let other = Revision::from_bytes(b"other");
    let bytes: &[u8] = b"new database";
    let announced = Revision::from_bytes(bytes);

    assert!(check_byte_publish(Some(base.clone()), Some(&base), &announced, bytes).is_ok());
    assert!(check_byte_publish(None, None, &announced, bytes).is_ok());

    match check_byte_publish(Some(other.clone()), Some(&base), &announced, bytes) {
        Err(RemoteError::BaseRevisionMismatch { expected, actual }) => {
            assert_eq!(expected, Some(base.clone()));
            assert_eq!(actual, Some(other.clone()));
        }
        other => panic!("expected a base mismatch, got {other:?}"),
    }
    match check_byte_publish(None, Some(&base), &announced, bytes) {
        Err(RemoteError::BaseRevisionMismatch { expected, actual }) => {
            assert_eq!(expected, Some(base.clone()));
            assert_eq!(actual, None);
        }
        other => panic!("expected a base mismatch, got {other:?}"),
    }

    // A stale base is reported before a wrong hash.
    match check_byte_publish(Some(other.clone()), Some(&base), &other, bytes) {
        Err(RemoteError::BaseRevisionMismatch { .. }) => {}
        other => panic!("expected a base mismatch, got {other:?}"),
    }

    match check_byte_publish(Some(base.clone()), Some(&base), &other, bytes) {
        Err(RemoteError::ManifestHashMismatch { manifest, actual }) => {
            assert_eq!(manifest, other);
            assert_eq!(actual, announced);
        }
        other => panic!("expected a hash mismatch, got {other:?}"),
    }
}
