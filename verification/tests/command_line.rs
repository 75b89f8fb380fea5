use keepass_sync::cli::{
    bind_address, check_download, curl_config_escape, decide_from_args, hash_path,
    manifest_read_path, normalize_endpoint, optional_value, parse_command, required_value,
    token_source, trim_line_end, unknown_command_message, url_encode, CliCommand, SyncOptions,
    TokenSource,
};
use keepass_sync::http::url_decode;
use keepass_sync::{Revision, SyncAction};

fn args(list: &[&str]) -> Vec<String> {
    list.iter().map(|s| s.to_string()).collect()
}

#[test]
fn flags() {
    let a = args(&["--local", "db.kdbx", "--device", "mac", "--state"]);
    assert_eq!(optional_value(&a, "--local"), Some("db.kdbx".to_string()));
    assert_eq!(optional_value(&a, "--device"), Some("mac".to_string()));
    assert_eq!(optional_value(&a, "--state"), None);
    assert_eq!(optional_value(&a, "--nope"), None);
    assert_eq!(
        required_value(&a, "--remote-root").unwrap_err(),
        "missing required flag: --remote-root"
    );
    assert_eq!(optional_value(&args(&["--x", "1", "--x", "2"]), "--x"), Some("1".to_string()));
}

#[test]
fn sync_options() {
    let a = args(&[
        "--local", "l", "--remote-root", "r", "--state", "s", "--device", "d",
    ]);
    let o = SyncOptions::from_args(&a).unwrap();
    assert_eq!(
        (o.local.as_str(), o.remote_root.as_str(), o.state.as_str(), o.device.as_str()),
        ("l", "r", "s", "d")
    );
    let a = args(&["--device", "d"]);
    assert_eq!(
        SyncOptions::from_args(&a).unwrap_err(),
        "missing required flag: --local"
    );
    let a = args(&["--local", "l", "--remote-root", "r", "--state", "s"]);
    assert_eq!(
        SyncOptions::from_args(&a).unwrap_err(),
        "missing required flag: --device"
    );
}

#[test]
fn commands() {
    assert_eq!(parse_command("hash"), CliCommand::Hash);
    assert_eq!(parse_command("decide"), CliCommand::Decide);
    assert_eq!(parse_command("sync"), CliCommand::Sync);
    assert_eq!(parse_command("watch"), CliCommand::Watch);
    assert_eq!(parse_command("serve"), CliCommand::Serve);
    assert_eq!(parse_command("pull-incoming"), CliCommand::PullIncoming);
    assert_eq!(parse_command("merge-incoming"), CliCommand::MergeIncoming);
    assert_eq!(parse_command("manifest"), CliCommand::Manifest);
    assert_eq!(parse_command("doctor"), CliCommand::Doctor);
    assert_eq!(parse_command("-h"), CliCommand::Help);
    assert_eq!(parse_command("--help"), CliCommand::Help);
    assert_eq!(parse_command("help"), CliCommand::Help);
    assert_eq!(parse_command("frobnicate"), CliCommand::Unknown);
    assert_eq!(unknown_command_message("frobnicate"), "unknown command: frobnicate");
    assert_eq!(bind_address(&args(&[])), "127.0.0.1:8787");
    assert_eq!(bind_address(&args(&["--bind", "0.0.0.0:1"])), "0.0.0.0:1");
    assert_eq!(hash_path(&args(&["a"])).unwrap(), "a");
    assert_eq!(
        hash_path(&args(&["a", "b"])).unwrap_err(),
        "usage: keepass-sync hash <path>"
    );
    assert_eq!(manifest_read_path(&args(&["read", "m"])).unwrap(), "m");
    assert_eq!(
        manifest_read_path(&args(&["write", "m"])).unwrap_err(),
        "unknown manifest command: write"
    );
    assert_eq!(
        manifest_read_path(&args(&["read"])).unwrap_err(),
        "usage: keepass-sync manifest read <path>"
    );
}

#[test]
fn decide_command_arguments() {
    let base = Revision::from_bytes(b"base");
    let local = Revision::from_bytes(b"local");
    let a = args(&[
        "--local",
        local.as_str(),
        "--base",
        base.as_str(),
        "--remote",
        base.as_str(),
    ]);
    assert_eq!(decide_from_args(&a).unwrap(), SyncAction::PublishLocal);
    let a = args(&["--local", local.as_str()]);
    assert_eq!(decide_from_args(&a).unwrap(), SyncAction::InitializeRemote);
    let a = args(&["--local", local.as_str(), "--base", base.as_str()]);
    assert_eq!(
        decide_from_args(&a).unwrap_err(),
        "remote canonical database is missing after initialization"
    );
    let a = args(&["--local", "x"]);
    assert_eq!(
        decide_from_args(&a).unwrap_err(),
        "invalid --local revision: revision must start with sha256:"
    );
    let a = args(&["--local", "x", "--base", "sha256:12"]);
    assert_eq!(
        decide_from_args(&a).unwrap_err(),
        "invalid --base revision: revision hex must be 64 characters, got 2"
    );
    assert_eq!(
        decide_from_args(&args(&[])).unwrap_err(),
        "missing required flag: --local"
    );
}

#[test]
fn url_encoding_round_trips() {
    assert_eq!(url_encode("Pixel 8"), "Pixel%208");
    assert_eq!(url_encode("sha256:ab"), "sha256%3Aab");
    assert_eq!(url_encode("a-b_c.d~e"), "a-b_c.d~e");
    assert_eq!(url_encode("é+"), "%C3%A9%2B");
    for text in ["Pixel 8", "é+&=?/%", "", "plain"] {
        assert_eq!(url_decode(&url_encode(text)), Some(text.to_string()));
    }
}

#[test]
fn curl_escaping() {
    assert_eq!(curl_config_escape("a\"b\\c"), "a\\\"b\\\\c");
    assert_eq!(curl_config_escape("plain"), "plain");
}

#[test]
fn line_ends() {
    assert_eq!(trim_line_end("token\r\n\n"), "token");
    assert_eq!(trim_line_end("tok\nen"), "tok\nen");
    assert_eq!(trim_line_end(" t "), " t ");
}

#[test]
fn endpoints() {
    assert_eq!(
        normalize_endpoint("  https://sync.example/// \n").unwrap(),
        "https://sync.example"
    );
    assert_eq!(normalize_endpoint("http://h").unwrap(), "http://h");
    assert_eq!(
        normalize_endpoint("ftp://h").unwrap_err(),
        "sync endpoint must start with http:// or https://"
    );
}

#[test]
fn downloads_are_checked() {
    let revision = Revision::from_bytes(b"data");
    assert!(check_download("mac", &revision, 4, b"data").is_ok());
    assert_eq!(
        check_download("mac", &revision, 5, b"data").unwrap_err(),
        format!(
            "downloaded incoming size mismatch for mac {}: expected 5, got 4",
            revision.as_str()
        )
    );
    let other = Revision::from_bytes(b"other");
    assert_eq!(
        check_download("mac", &revision, 5, b"other").unwrap_err(),
        format!(
            "downloaded incoming revision mismatch for mac: expected {}, got {}",
            revision.as_str(),
            other.as_str()
        )
    );
}

#[test]
fn curl_configuration() {
    assert_eq!(
        keepass_sync::cli::curl_config("http://h/x\"y", "t\\k"),
        "url = \"http://h/x\\\"y\"\nheader = \"Authorization: Bearer t\\\\k\"\nfail-with-body\nsilent\nshow-error\n"
    );
}

#[test]
fn token_sources() {
    match token_source(&args(&["--token-file", "f", "--token", "t"])) {
        TokenSource::Given(t) => assert_eq!(t, "t"),
        other => panic!("unexpected {other:?}"),
    }
    match token_source(&args(&["--token-file", "f"])) {
        TokenSource::File(f) => assert_eq!(f, "f"),
        other => panic!("unexpected {other:?}"),
    }
    assert!(matches!(token_source(&args(&[])), TokenSource::Environment));
}

#[test]
fn watch_intervals() {
    assert_eq!(keepass_sync::cli::watch_interval_seconds(None).unwrap(), 30);
    assert_eq!(keepass_sync::cli::watch_interval_seconds(Some("5")).unwrap(), 5);
    assert_eq!(keepass_sync::cli::watch_interval_seconds(Some("+7")).unwrap(), 7);
    assert_eq!(
        keepass_sync::cli::watch_interval_seconds(Some("")).unwrap_err(),
        "invalid --interval-seconds: cannot parse integer from empty string"
    );
    assert_eq!(
        keepass_sync::cli::watch_interval_seconds(Some("5s")).unwrap_err(),
        "invalid --interval-seconds: invalid digit found in string"
    );
    assert_eq!(
        keepass_sync::cli::watch_interval_seconds(Some("-1")).unwrap_err(),
        "invalid --interval-seconds: invalid digit found in string"
    );
    assert_eq!(
        keepass_sync::cli::watch_interval_seconds(Some("+")).unwrap_err(),
        "invalid --interval-seconds: invalid digit found in string"
    );
    assert_eq!(
        keepass_sync::cli::watch_interval_seconds(Some("18446744073709551616")).unwrap_err(),
        "invalid --interval-seconds: number too large to fit in target type"
    );
}

#[test]
fn integer_parsing_matches_std() {
    for text in [
        "0",
        "42",
        "+42",
        "007",
        "",
        "+",
        "-",
        "-0",
        " 1",
        "1 ",
        "18446744073709551615",
        "18446744073709551616",
        "99999999999999999999x",
        "x99999999999999999999",
        "١",
    ] {
        let ours = keepass_sync::cli::parse_u64(text);
        let std_result = text.parse::<u64>().map_err(|error| error.to_string());
        assert_eq!(ours, std_result, "text {text:?}");
    }
}

#[test]
fn watch_steps() {
    assert_eq!(keepass_sync::cli::watch_step(10, Some(11)), (11, true));
    assert_eq!(keepass_sync::cli::watch_step(10, Some(10)), (10, false));
    assert_eq!(keepass_sync::cli::watch_step(10, Some(9)), (10, false));
    assert_eq!(keepass_sync::cli::watch_step(10, None), (10, false));
}
