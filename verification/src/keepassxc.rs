//! Driving `keepassxc-cli`: which binary to run, how to call its merge, how to read its outcome.
use std::path::PathBuf;
use vstd::prelude::*;

use crate::text::{owned, push_str, signed_decimal, signed_decimal_string, trim_spec, trim_whitespace};

verus! {

/// The path that `PathBuf::from` makes of a text.
pub uninterp spec fn path_of(text: Seq<char>) -> PathBuf;

/// A path made of a text.
/// Trusted: `PathBuf::from(&str)`; claims only that the path is a function of the text.
#[verifier::external_body]
pub(crate) fn path_from(text: &str) -> (p: PathBuf)
    ensures
        p == path_of(text@),
{
    PathBuf::from(text)
}

/// The text of the binary to run, from what the environment offers: the value of `ENV_BINARY`
/// if it is set and not empty, else the bundled binary relative to the working directory if it
/// exists there, else the bundled binary next to the executable (`exe_sidecar`, given only where
/// that file exists) if its text is not empty, else `keepassxc-cli` from `PATH`.
pub open spec fn binary_text(
    env_override: Option<Seq<char>>,
    cwd_sidecar_exists: bool,
    exe_sidecar: Option<Seq<char>>,
) -> Seq<char> {
    if env_override is Some && env_override->Some_0.len() > 0 {
        env_override->Some_0
    } else if cwd_sidecar_exists {
        "tools/keepassxc/bin/keepassxc-cli"@
    } else if exe_sidecar is Some && exe_sidecar->Some_0.len() > 0 {
        exe_sidecar->Some_0
    } else {
        "keepassxc-cli"@
    }
}

/// The `keepassxc-cli` binary that does the semantic merge of KeePass databases.
#[derive(Debug, Clone)]
pub struct Keepassxc {
    binary: PathBuf,
}

/// A request to merge `database_from` into `database`.
#[derive(Debug, Clone, PartialEq, Eq)]
pub struct KeepassMerge {
    pub database: PathBuf,
    pub database_from: PathBuf,
    pub same_credentials: bool,
    pub password: Option<String>,
}

/// Why a merge did not happen.
#[derive(Debug)]
pub enum KeepassxcError {
    Spawn(std::io::Error),
    Stdin(std::io::Error),
    Failed { status: i32, stderr: String },
}

impl Keepassxc {
    /// The environment variable that names the binary to use.
    pub const ENV_BINARY: &'static str = "KEEPASS_SYNC_KEEPASSXC_CLI";

    /// Where a bundled binary sits, relative to the working directory or to the executable.
    pub const SIDECAR_RELATIVE_PATH: &'static str = "tools/keepassxc/bin/keepassxc-cli";

    /// The binary this value runs.
    pub closed spec fn binary_path(&self) -> PathBuf {
        self.binary
    }

    /// A `keepassxc-cli` at the given path.
    pub fn new(binary: PathBuf) -> (r: Self)
        ensures
            r.binary_path() == binary,
    {
        Keepassxc { binary }
    }

    /// The binary chosen from what the environment offers; see `binary_text`. It always names
    /// a command: the chosen text is never empty.
    pub fn default_binary(
        env_override: Option<String>,
        cwd_sidecar_exists: bool,
        exe_sidecar: Option<String>,
    ) -> (r: Self)
        ensures
            r.binary_path() == path_of(
                binary_text(env_override.deep_view(), cwd_sidecar_exists, exe_sidecar.deep_view()),
            ),
            binary_text(env_override.deep_view(), cwd_sidecar_exists, exe_sidecar.deep_view()).len()
                > 0,
    {
        Self::new(Self::resolve_binary(env_override, cwd_sidecar_exists, exe_sidecar))
    }

    /// The path chosen as in `default_binary`.
    pub fn resolve_binary(
        env_override: Option<String>,
        cwd_sidecar_exists: bool,
        exe_sidecar: Option<String>,
    ) -> (r: PathBuf)
        ensures
            r == path_of(
                binary_text(env_override.deep_view(), cwd_sidecar_exists, exe_sidecar.deep_view()),
            ),
            binary_text(env_override.deep_view(), cwd_sidecar_exists, exe_sidecar.deep_view()).len()
                > 0,
    {
        proof {
            reveal_strlit("tools/keepassxc/bin/keepassxc-cli");
            reveal_strlit("keepassxc-cli");
        }
        if let Some(t) = &env_override {
            if !t.as_str().is_empty() {
                return path_from(t.as_str());
            }
        }
        if cwd_sidecar_exists {
            return path_from(Self::SIDECAR_RELATIVE_PATH);
        }
        if let Some(e) = &exe_sidecar {
            if !e.as_str().is_empty() {
                return path_from(e.as_str());
            }
        }
        path_from("keepassxc-cli")
    }

    /// The binary this value runs.
    pub fn binary(&self) -> (r: &PathBuf)
        ensures
            *r == self.binary_path(),
    {
        &self.binary
    }
}

/// How to run one merge: the arguments before the two database paths, the two paths, and the
/// line to write to the standard input (the password), if any.
#[derive(Debug, Clone)]
pub struct MergeCommand {
    pub flags: Vec<String>,
    pub database: PathBuf,
    pub database_from: PathBuf,
    pub stdin_line: Option<String>,
}

/// The flags of a merge: `merge -q`, then `--same-credentials` when asked for.
pub open spec fn merge_flags(same_credentials: bool) -> Seq<Seq<char>> {
    if same_credentials {
        seq!["merge"@, "-q"@, "--same-credentials"@]
    } else {
        seq!["merge"@, "-q"@]
    }
}

/// The texts of a list of strings.
pub open spec fn strings_view(v: Seq<String>) -> Seq<Seq<char>> {
    Seq::new(v.len(), |i: int| v[i]@)
}

/// How to run the given merge.
pub fn merge_command(request: &KeepassMerge) -> (r: MergeCommand)
    ensures
        strings_view(r.flags@) == merge_flags(request.same_credentials),
        r.database == request.database,
        r.database_from == request.database_from,
        r.stdin_line is Some <==> request.password is Some,
        r.stdin_line matches Some(line) ==> line@ == request.password->Some_0@.push('\n'),
{
    let mut flags: Vec<String> = Vec::new();
    flags.push(owned("merge"));
    flags.push(owned("-q"));
    if request.same_credentials {
        flags.push(owned("--same-credentials"));
    }
    assert(strings_view(flags@) =~= merge_flags(request.same_credentials));
    let stdin_line = match &request.password {
        Some(password) => {
            let mut line = password.clone();
            push_str(&mut line, "\n");
            proof {
                reveal_strlit("\n");
            }
            assert(line@ =~= password@.push('\n'));
            Some(line)
        },
        None => None,
    };
    MergeCommand {
        flags,
        database: request.database.clone(),
        database_from: request.database_from.clone(),
        stdin_line,
    }
}

/// The outcome of a finished merge: success, or the exit status (`-1` when the process was
/// ended by a signal) and the standard error without surrounding white space.
pub fn merge_outcome(success: bool, code: Option<i32>, stderr: &str) -> (r: Result<(), KeepassxcError>)
    ensures
        r is Ok <==> success,
        r matches Err(e) ==> (e matches KeepassxcError::Failed { status, stderr: text } && status
            == match code {
            Some(c) => c,
            None => -1i32,
        } && text@ == trim_spec(stderr@)),
{
    if success {
        return Ok(());
    }
    let status = match code {
        Some(c) => c,
        None => -1,
    };
    Err(KeepassxcError::Failed { status, stderr: trim_whitespace(stderr) })
}

/// The description of a merge error, given the description of the I/O error it carries
/// (`detail`, unused for a failed merge).
pub open spec fn keepassxc_error_text(e: KeepassxcError, detail: Seq<char>) -> Seq<char> {
    match e {
        KeepassxcError::Spawn(_) => "failed to run keepassxc-cli: "@ + detail,
        KeepassxcError::Stdin(_) => "failed to send KeePass password: "@ + detail,
        KeepassxcError::Failed { status, stderr } => "keepassxc-cli failed with status "@
            + signed_decimal(status as int) + ": "@ + stderr@,
    }
}

impl KeepassxcError {
    /// The description of this error; `detail` is the description of the I/O error it carries.
    pub fn message(&self, detail: &str) -> (r: String)
        ensures
            r@ == keepassxc_error_text(*self, detail@),
    {
        match self {
            KeepassxcError::Spawn(_) => {
                let mut s = owned("failed to run keepassxc-cli: ");
                push_str(&mut s, detail);
                s
            },
            KeepassxcError::Stdin(_) => {
                let mut s = owned("failed to send KeePass password: ");
                push_str(&mut s, detail);
                s
            },
            KeepassxcError::Failed { status, stderr } => {
                let mut s = owned("keepassxc-cli failed with status ");
                let n = signed_decimal_string(*status);
                push_str(&mut s, n.as_str());
                push_str(&mut s, ": ");
                push_str(&mut s, stderr.as_str());
                s
            },
        }
    }
}

} // verus!
