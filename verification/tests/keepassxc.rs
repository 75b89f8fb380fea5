use keepass_sync::keepassxc::{merge_command, merge_outcome};
use keepass_sync::{KeepassMerge, Keepassxc, KeepassxcError};
use std::path::PathBuf;

#[test]
fn sidecar_path_is_private_to_keepass_sync() {
    assert_eq!(
        PathBuf::from(Keepassxc::SIDECAR_RELATIVE_PATH),
        PathBuf::from("tools/keepassxc/bin/keepassxc-cli")
    );
}

#[test]
fn default_binary_always_resolves_to_a_command() {
    let overrides = [None, Some(String::new()), Some("/opt/kp/keepassxc-cli".to_string())];
    let exe_sidecars = [
        None,
        Some(String::new()),
        Some("/app/tools/keepassxc/bin/keepassxc-cli".to_string()),
    ];
    for env_override in &overrides {
        for cwd_sidecar_exists in [false, true] {
            for exe_sidecar in &exe_sidecars {
                let keepassxc = Keepassxc::default_binary(
                    env_override.clone(),
                    cwd_sidecar_exists,
                    exe_sidecar.clone(),
                );
                assert!(!keepassxc.binary().as_os_str().is_empty());
            }
        }
    }
}

#[test]
fn binary_resolution_order() {
    let env = "/opt/kp/keepassxc-cli".to_string();
    let exe = "/app/tools/keepassxc/bin/keepassxc-cli".to_string();
    let cwd = PathBuf::from(Keepassxc::SIDECAR_RELATIVE_PATH);
    assert_eq!(
        Keepassxc::default_binary(Some(env.clone()), true, Some(exe.clone())).binary(),
        &PathBuf::from(&env)
    );
    assert_eq!(
        Keepassxc::default_binary(Some(String::new()), true, Some(exe.clone())).binary(),
        &cwd
    );
    assert_eq!(
        Keepassxc::default_binary(None, true, Some(exe.clone())).binary(),
        &cwd
    );
    assert_eq!(
        Keepassxc::default_binary(None, false, Some(exe.clone())).binary(),
        &PathBuf::from(&exe)
    );
    assert_eq!(
        Keepassxc::default_binary(Some(String::new()), false, Some(String::new())).binary(),
        &PathBuf::from("keepassxc-cli")
    );
    assert_eq!(
        Keepassxc::default_binary(None, false, None).binary(),
        &PathBuf::from("keepassxc-cli")
    );
    assert_eq!(
        Keepassxc::resolve_binary(None, false, None),
        PathBuf::from("keepassxc-cli")
    );
    assert_eq!(Keepassxc::new(PathBuf::from(&exe)).binary(), &PathBuf::from(&exe));
    assert_eq!(Keepassxc::ENV_BINARY, "KEEPASS_SYNC_KEEPASSXC_CLI");
}

#[test]
fn merge_command_arguments() {
    let request = KeepassMerge {
        database: PathBuf::from("a.kdbx"),
        database_from: PathBuf::from("b.kdbx"),
        same_credentials: true,
        password: Some("pw".to_string()),
    };
    let command = merge_command(&request);
    assert_eq!(command.flags, vec!["merge", "-q", "--same-credentials"]);
    assert_eq!(command.database, PathBuf::from("a.kdbx"));
    assert_eq!(command.database_from, PathBuf::from("b.kdbx"));
    assert_eq!(command.stdin_line, Some("pw\n".to_string()));

    let request = KeepassMerge {
        same_credentials: false,
        password: None,
        ..request
    };
    let command = merge_command(&request);
    assert_eq!(command.flags, vec!["merge", "-q"]);
    assert_eq!(command.stdin_line, None);
}

#[test]
fn merge_outcomes() {
    assert!(merge_outcome(true, Some(0), "ignored").is_ok());
    match merge_outcome(false, Some(1), "  bad password \n") {
        Err(KeepassxcError::Failed { status, stderr }) => {
            assert_eq!(status, 1);
            assert_eq!(stderr, "bad password");
        }
        other => panic!("unexpected outcome {other:?}"),
    }
    match merge_outcome(false, None, "") {
        Err(KeepassxcError::Failed { status, stderr }) => {
            assert_eq!(status, -1);
            assert_eq!(stderr, "");
        }
        other => panic!("unexpected outcome {other:?}"),
    }
    assert_eq!(
        KeepassxcError::Failed {
            status: -1,
            stderr: "killed".to_string()
        }
        .message(""),
        "keepassxc-cli failed with status -1: killed"
    );
    assert_eq!(
        KeepassxcError::Failed {
            status: 2,
            stderr: "x".to_string()
        }
        .message(""),
        "keepassxc-cli failed with status 2: x"
    );
}
