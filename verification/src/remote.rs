//! The filesystem remote: its values, its errors, the names it gives files and the checks it
//! makes between filesystem steps.
use std::path::PathBuf;
use vstd::prelude::*;

use crate::keepassxc::{keepassxc_error_text, KeepassxcError};
use crate::local_state::{local_state_error_text, LocalStateError};
use crate::manifest::{manifest_error_text, ManifestError};
use crate::revision::{revision_of, Revision};
use crate::sync::{sync_problem_text, SyncExecutionReport, SyncPlan, SyncProblem};
use crate::http::pairs_view;
use crate::text::{chars_of, drop_leading, drop_trailing, owned, push_char, push_str};

verus! {

/// A sync remote laid out in a directory: `canonical/` holds the canonical database and its
/// manifest, `incoming/<device>/` the databases kept for a desktop merge, `backups/` the
/// backups, and `.lock` is the lock directory.
#[derive(Debug, Clone)]
pub struct FilesystemRemote {
    root: PathBuf,
}

impl FilesystemRemote {
    /// The directory of this remote.
    pub closed spec fn root_path(&self) -> PathBuf {
        self.root
    }

    /// A remote rooted at the given directory.
    pub fn new(root: PathBuf) -> (r: Self)
        ensures
            r.root_path() == root,
    {
        FilesystemRemote { root }
    }

    /// The directory of this remote.
    pub fn root(&self) -> (r: &PathBuf)
        ensures
            *r == self.root_path(),
    {
        &self.root
    }
}

/// A database kept under `incoming/` for a desktop merge.
#[derive(Debug, Clone, PartialEq, Eq)]
pub struct IncomingDatabase {
    pub device_id: String,
    pub path: PathBuf,
}

/// What a sync run did and the revisions it saw.
#[derive(Debug, Clone, PartialEq, Eq)]
pub struct SyncOutcome {
    pub report: SyncExecutionReport,
    pub local_revision: Revision,
    pub remote_revision: Option<Revision>,
}

/// Why a remote operation failed.
#[derive(Debug)]
pub enum RemoteError {
    Io(std::io::Error),
    Manifest(ManifestError),
    LocalState(LocalStateError),
    Sync(SyncProblem),
    Keepassxc(KeepassxcError),
    ManifestHashMismatch { manifest: Revision, actual: Revision },
    BaseRevisionMismatch { expected: Option<Revision>, actual: Option<Revision> },
    LockHeld(PathBuf),
    NoCanonicalDatabase,
}

/// A revision's text, or `none`.
pub open spec fn optional_revision_text(r: Option<Seq<char>>) -> Seq<char> {
    match r {
        Some(t) => t,
        None => "none"@,
    }
}

/// The text of an optional revision, `none` when there is none.
pub fn display_optional_revision(revision: &Option<Revision>) -> (r: String)
    ensures
        r@ == optional_revision_text(revision.deep_view()),
{
    match revision {
        Some(rev) => owned(rev.as_str()),
        None => owned("none"),
    }
}

/// The description of a remote error, given the description of the outside value it carries
/// (`detail`: the I/O, JSON or merge error's text, or the lock path as displayed).
pub open spec fn remote_error_text(e: RemoteError, detail: Seq<char>) -> Seq<char> {
    match e {
        RemoteError::Io(_) => "remote filesystem error: "@ + detail,
        RemoteError::Manifest(m) => manifest_error_text(m, detail),
        RemoteError::LocalState(s) => local_state_error_text(s, detail),
        RemoteError::Sync(p) => sync_problem_text(p),
        RemoteError::Keepassxc(k) => keepassxc_error_text(k, detail),
        RemoteError::ManifestHashMismatch { manifest, actual } => "manifest revision "@ + manifest@
            + " does not match canonical database hash "@ + actual@,
        RemoteError::BaseRevisionMismatch { expected, actual } =>
            "remote base revision changed: expected "@ + optional_revision_text(
                expected.deep_view(),
            ) + ", got "@ + optional_revision_text(actual.deep_view()),
        RemoteError::LockHeld(_) => "remote lock is already held: "@ + detail,
        RemoteError::NoCanonicalDatabase => "manifest exists but canonical database is missing"@,
    }
}

impl RemoteError {
    /// The description of this error; `detail` is the description of the outside value it
    /// carries: the I/O, JSON or merge error's text, or the lock path as displayed.
    pub fn message(&self, detail: &str) -> (r: String)
        ensures
            r@ == remote_error_text(*self, detail@),
    {
        match self {
            RemoteError::Io(_) => {
                let mut s = owned("remote filesystem error: ");
                push_str(&mut s, detail);
                s
            },
            RemoteError::Manifest(m) => m.message(detail),
            RemoteError::LocalState(l) => l.message(detail),
            RemoteError::Sync(p) => p.message(),
            RemoteError::Keepassxc(k) => k.message(detail),
            RemoteError::ManifestHashMismatch { manifest, actual } => {
                let mut s = owned("manifest revision ");
                push_str(&mut s, manifest.as_str());
                push_str(&mut s, " does not match canonical database hash ");
                push_str(&mut s, actual.as_str());
                s
            },
            RemoteError::BaseRevisionMismatch { expected, actual } => {
                let mut s = owned("remote base revision changed: expected ");
                let e = display_optional_revision(expected);
                push_str(&mut s, e.as_str());
                push_str(&mut s, ", got ");
                let a = display_optional_revision(actual);
                push_str(&mut s, a.as_str());
                s
            },
            RemoteError::LockHeld(_) => {
                let mut s = owned("remote lock is already held: ");
                push_str(&mut s, detail);
                s
            },
            RemoteError::NoCanonicalDatabase => owned(
                "manifest exists but canonical database is missing",
            ),
        }
    }
}

/// A revision text with `:` replaced by `-`, fit for a file name.
pub open spec fn safe_revision_spec(t: Seq<char>) -> Seq<char> {
    Seq::new(t.len(), |i: int| if t[i] == ':' { '-' } else { t[i] })
}

/// The revision text fit for a file name: `:` replaced by `-`.
pub fn safe_revision(revision: &Revision) -> (r: String)
    ensures
        r@ == safe_revision_spec(revision@),
{
    let cs = chars_of(revision.as_str());
    let mut out = String::new();
    let mut i: usize = 0;
    while i < cs.len()
        invariant
            0 <= i <= cs.len(),
            cs@ == revision@,
            out@ == safe_revision_spec(cs@.take(i as int)),
        decreases cs.len() - i,
    {
        let c = if cs[i] == ':' {
            '-'
        } else {
            cs[i]
        };
        push_char(&mut out, c);
        assert(safe_revision_spec(cs@.take(i + 1)) =~= safe_revision_spec(cs@.take(i as int)).push(c));
        i = i + 1;
    }
    assert(cs@.take(cs.len() as int) =~= cs@);
    out
}

/// ASCII letters and digits, `-` and `_`.
pub open spec fn is_safe_char(c: char) -> bool {
    ('a' <= c && c <= 'z') || ('A' <= c && c <= 'Z') || ('0' <= c && c <= '9') || c == '-' || c
        == '_'
}

/// Every character outside the safe set replaced by `-`.
pub open spec fn sanitize_chars(s: Seq<char>) -> Seq<char> {
    Seq::new(s.len(), |i: int| if is_safe_char(s[i]) { s[i] } else { '-' })
}

/// A device id fit to be one path component: unsafe characters become `-`, leading and
/// trailing `-` are dropped, and an empty result becomes `unknown-device`.
pub open spec fn sanitize_spec(s: Seq<char>) -> Seq<char> {
    let t = drop_trailing(
        drop_leading(sanitize_chars(s), |c: char| c == '-'),
        |c: char| c == '-',
    );
    if t.len() == 0 {
        "unknown-device"@
    } else {
        t
    }
}

proof fn lemma_drop_leading_dash(s: Seq<char>, i: int)
    requires
        0 <= i <= s.len(),
        forall|j: int| 0 <= j < i ==> #[trigger] s[j] == '-',
    ensures
        drop_leading(s, |c: char| c == '-') == drop_leading(s.skip(i), |c: char| c == '-'),
    decreases i,
{
    if i > 0 {
        assert(s.drop_first().skip(i - 1) =~= s.skip(i));
        assert forall|j: int| 0 <= j < i - 1 implies #[trigger] s.drop_first()[j] == '-' by {
            assert(s[j + 1] == '-');
        }
        lemma_drop_leading_dash(s.drop_first(), i - 1);
    } else {
        assert(s.skip(0) =~= s);
    }
}

proof fn lemma_drop_trailing_dash(s: Seq<char>, k: int)
    requires
        0 <= k <= s.len(),
        forall|j: int| k <= j < s.len() ==> #[trigger] s[j] == '-',
    ensures
        drop_trailing(s, |c: char| c == '-') == drop_trailing(s.take(k), |c: char| c == '-'),
    decreases s.len() - k,
{
    if k < s.len() {
        assert(s.drop_last().take(k) =~= s.take(k));
        assert forall|j: int| k <= j < s.drop_last().len() implies #[trigger] s.drop_last()[j]
            == '-' by {
            assert(s[j] == '-');
        }
        lemma_drop_trailing_dash(s.drop_last(), k);
    } else {
        assert(s.take(k) =~= s);
    }
}

/// Makes a device id fit to be one path component.
pub fn sanitize_path_component(value: &str) -> (r: String)
    ensures
        r@ == sanitize_spec(value@),
{
    let cs = chars_of(value);
    let mut mapped: Vec<char> = Vec::new();
    let mut i: usize = 0;
    while i < cs.len()
        invariant
            0 <= i <= cs.len(),
            cs@ == value@,
            mapped@ == sanitize_chars(cs@.take(i as int)),
        decreases cs.len() - i,
    {
        let c = cs[i];
        let safe = ('a' <= c && c <= 'z') || ('A' <= c && c <= 'Z') || ('0' <= c && c <= '9') || c
            == '-' || c == '_';
        let m = if safe {
            c
        } else {
            '-'
        };
        mapped.push(m);
        assert(sanitize_chars(cs@.take(i + 1)) =~= sanitize_chars(cs@.take(i as int)).push(m));
        i = i + 1;
    }
    assert(cs@.take(cs.len() as int) =~= cs@);
    let ghost all = mapped@;
    let mut a: usize = 0;
    while a < mapped.len() && mapped[a] == '-'
        invariant
            0 <= a <= mapped.len(),
            all == mapped@,
            forall|j: int| 0 <= j < a ==> #[trigger] all[j] == '-',
        decreases mapped.len() - a,
    {
        a = a + 1;
    }
    proof {
        lemma_drop_leading_dash(all, a as int);
        if a < mapped.len() {
            assert(all.skip(a as int)[0] == all[a as int]);
        }
    }
    let ghost front = all.skip(a as int);
    assert(drop_leading(all, |c: char| c == '-') == front);
    let mut b: usize = mapped.len();
    while b > a && mapped[b - 1] == '-'
        invariant
            a <= b <= mapped.len(),
            all == mapped@,
            front == all.skip(a as int),
            forall|j: int| b - a <= j < front.len() ==> #[trigger] front[j] == '-',
        decreases b,
    {
        assert(front[b - 1 - a] == all[b - 1]);
        b = b - 1;
    }
    proof {
        lemma_drop_trailing_dash(front, b - a);
        if b > a {
            assert(front.take(b - a).last() == all[b - 1]);
        }
    }
    assert(front.take(b - a) =~= all.subrange(a as int, b as int));
    if a == b {
        return owned("unknown-device");
    }
    let mut out = String::new();
    let mut k: usize = a;
    while k < b
        invariant
            a <= k <= b <= mapped.len(),
            all == mapped@,
            out@ == all.subrange(a as int, k as int),
        decreases b - k,
    {
        push_char(&mut out, mapped[k]);
        assert(all.subrange(a as int, k + 1) =~= all.subrange(a as int, k as int).push(all[k as int]));
        k = k + 1;
    }
    out
}

proof fn lemma_drop_leading_is_suffix(s: Seq<char>, p: spec_fn(char) -> bool)
    ensures
        exists|i: int| 0 <= i <= s.len() && drop_leading(s, p) == s.skip(i),
    decreases s.len(),
{
    if s.len() > 0 && p(s[0]) {
        lemma_drop_leading_is_suffix(s.drop_first(), p);
        let i = choose|i: int| 0 <= i <= s.drop_first().len() && drop_leading(s.drop_first(), p)
            == s.drop_first().skip(i);
        assert(s.drop_first().skip(i) =~= s.skip(i + 1));
    } else {
        assert(s.skip(0) =~= s);
    }
}

proof fn lemma_drop_trailing_is_prefix(s: Seq<char>, p: spec_fn(char) -> bool)
    ensures
        exists|k: int| 0 <= k <= s.len() && drop_trailing(s, p) == s.take(k),
    decreases s.len(),
{
    if s.len() > 0 && p(s.last()) {
        lemma_drop_trailing_is_prefix(s.drop_last(), p);
        let k = choose|k: int| 0 <= k <= s.drop_last().len() && drop_trailing(s.drop_last(), p)
            == s.drop_last().take(k);
        assert(s.drop_last().take(k) =~= s.take(k));
    } else {
        assert(s.take(s.len() as int) =~= s);
    }
}

/// A sanitized device id is one non-empty path component made of ASCII letters, digits, `-`
/// and `_` only: it cannot name a parent directory, hold a separator, or be empty.
pub proof fn law_sanitized_component_is_safe(s: Seq<char>)
    ensures
        sanitize_spec(s).len() > 0,
        forall|i: int| 0 <= i < sanitize_spec(s).len() ==> #[trigger] is_safe_char(
            sanitize_spec(s)[i],
        ),
{
    let m = sanitize_chars(s);
    let dash = |c: char| c == '-';
    lemma_drop_leading_is_suffix(m, dash);
    let i = choose|i: int| 0 <= i <= m.len() && drop_leading(m, dash) == m.skip(i);
    let front = m.skip(i);
    lemma_drop_trailing_is_prefix(front, dash);
    let k = choose|k: int| 0 <= k <= front.len() && drop_trailing(front, dash) == front.take(k);
    let t = front.take(k);
    if t.len() == 0 {
        reveal_strlit("unknown-device");
    } else {
        assert forall|j: int| 0 <= j < t.len() implies #[trigger] is_safe_char(t[j]) by {
            assert(t[j] == m[j + i]);
        }
    }
}

/// The revision that the remote holds, given its manifest's revision and the hash of the
/// canonical database: the manifest must describe the database.
pub fn canonical_revision(manifest_revision: Revision, actual: Revision) -> (r: Result<
    Revision,
    RemoteError,
>)
    ensures
        r is Ok <==> manifest_revision@ == actual@,
        r matches Ok(rev) ==> rev@ == manifest_revision@,
        r matches Err(e) ==> e matches RemoteError::ManifestHashMismatch { manifest, actual: a }
            && manifest@ == manifest_revision@ && a@ == actual@,
{
    if manifest_revision.same(&actual) {
        Ok(manifest_revision)
    } else {
        Err(RemoteError::ManifestHashMismatch { manifest: manifest_revision, actual })
    }
}

/// Whether a written copy holds the expected revision: a copy whose hash differs is refused.
pub fn check_copied_revision(expected: &Revision, copied: Revision) -> (r: Result<(), RemoteError>)
    ensures
        r is Ok <==> expected@ == copied@,
        r matches Err(e) ==> e matches RemoteError::ManifestHashMismatch { manifest, actual }
            && manifest@ == expected@ && actual@ == copied@,
{
    if copied.same(expected) {
        Ok(())
    } else {
        Err(RemoteError::ManifestHashMismatch { manifest: expected.clone(), actual: copied })
    }
}

/// The revision a remote is expected to hold, as an optional text.
pub open spec fn expected_revision(expected: Option<&Revision>) -> Option<Seq<char>> {
    match expected {
        Some(e) => Some(e@),
        None => None,
    }
}

/// Whether uploaded bytes may be published over a base: the remote's current revision must be
/// the base the uploader saw, and the bytes must hash to the revision they were announced as.
/// A stale base is refused first, as a base mismatch; bytes that hash to another revision are
/// refused as a hash mismatch.
pub fn check_byte_publish(
    current: Option<Revision>,
    base: Option<&Revision>,
    announced: &Revision,
    bytes: &[u8],
) -> (r: Result<(), RemoteError>)
    ensures
        r is Ok <==> current.deep_view() == expected_revision(base) && revision_of(bytes@)
            == announced@,
        current.deep_view() != expected_revision(base) ==> (r matches Err(e) && (e matches
            RemoteError::BaseRevisionMismatch { expected: ex, actual: ac } && ex.deep_view()
            == expected_revision(base) && ac.deep_view() == current.deep_view())),
        current.deep_view() == expected_revision(base) && revision_of(bytes@) != announced@ ==> (
        r matches Err(e) && (e matches RemoteError::ManifestHashMismatch { manifest, actual }
            && manifest@ == announced@ && actual@ == revision_of(bytes@))),
{
    match check_base_revision(current, base) {
        Ok(()) => {},
        Err(e) => {
            return Err(e);
        },
    }
    check_copied_revision(announced, Revision::from_bytes(bytes))
}

/// Whether a remote has a canonical database to look at, by what exists on disk: no manifest
/// means no canonical database yet (`Ok(false)`); a manifest without the database is an error;
/// both mean the revision is to be read and checked (`Ok(true)`).
pub fn remote_presence(manifest_exists: bool, canonical_exists: bool) -> (r: Result<bool, RemoteError>)
    ensures
        r matches Ok(present) ==> present == manifest_exists,
        r is Err <==> manifest_exists && !canonical_exists,
        r matches Err(e) ==> e is NoCanonicalDatabase,
{
    if !manifest_exists {
        return Ok(false);
    }
    if !canonical_exists {
        return Err(RemoteError::NoCanonicalDatabase);
    }
    Ok(true)
}

/// A byte upload is published only over the base it was made from: the remote's current
/// revision must be the one the uploader saw.
pub fn check_base_revision(actual: Option<Revision>, expected: Option<&Revision>) -> (r: Result<
    (),
    RemoteError,
>)
    ensures
        r is Ok <==> actual.deep_view() == match expected {
            Some(e) => Some(e@),
            None => None::<Seq<char>>,
        },
        r matches Err(e) ==> e matches RemoteError::BaseRevisionMismatch { expected: ex, actual: ac }
            && ex.deep_view() == match expected {
            Some(e) => Some(e@),
            None => None::<Seq<char>>,
        } && ac.deep_view() == actual.deep_view(),
{
    let same = match (&actual, expected) {
        (None, None) => true,
        (Some(a), Some(e)) => a.same(e),
        _ => false,
    };
    if same {
        Ok(())
    } else {
        let expected_owned = match expected {
            Some(e) => Some(e.clone()),
            None => None,
        };
        Err(RemoteError::BaseRevisionMismatch { expected: expected_owned, actual })
    }
}

/// The check a sync run makes under the remote lock before it publishes: the remote must
/// still hold the revision the decision saw, else the publish is refused as a base mismatch.
/// Plans that do not publish pass.
pub fn confirm_publish(plan: &SyncPlan, current: Option<Revision>) -> (r: Result<(), RemoteError>)
    ensures
        !plan.publish_local ==> r is Ok,
        plan.publish_local ==> (r is Ok <==> current.deep_view() == plan.expected_remote.deep_view()),
        plan.publish_local ==> (r matches Err(e) ==> e matches RemoteError::BaseRevisionMismatch {
            expected,
            actual,
        } && expected.deep_view() == plan.expected_remote.deep_view() && actual.deep_view()
            == current.deep_view()),
{
    if !plan.publish_local {
        return Ok(());
    }
    check_base_revision(current, plan.expected_remote.as_ref())
}

/// The canonical revision that must exist for the canonical bytes to be served.
pub fn require_canonical(current: Option<Revision>) -> (r: Result<Revision, RemoteError>)
    ensures
        r is Ok <==> current is Some,
        r matches Ok(rev) ==> Some(rev@) == current.deep_view(),
        r matches Err(e) ==> e is NoCanonicalDatabase,
{
    match current {
        Some(rev) => Ok(rev),
        None => Err(RemoteError::NoCanonicalDatabase),
    }
}

/// The result of work done under the remote lock, given the result of releasing the lock: the
/// work's error comes first, then the release's.
pub fn finish_locked<T>(work: Result<T, RemoteError>, unlock: Result<(), RemoteError>) -> (r: Result<
    T,
    RemoteError,
>)
    ensures
        work is Err ==> r == work,
        work is Ok && unlock is Ok ==> r == work,
        work is Ok ==> (unlock matches Err(e) ==> r == Err::<T, RemoteError>(e)),
{
    match (work, unlock) {
        (Ok(value), Ok(())) => Ok(value),
        (Err(error), _) => Err(error),
        (Ok(_), Err(error)) => Err(error),
    }
}

/// `<timestamp>-<device>-remote.kdbx`: the backup of the canonical database.
pub open spec fn remote_backup_name_spec(timestamp: Seq<char>, device_id: Seq<char>) -> Seq<char> {
    timestamp + "-"@ + device_id + "-remote.kdbx"@
}

/// `<timestamp>-<device>-local.kdbx`: the backup of a local database before a pull.
pub open spec fn local_backup_name_spec(timestamp: Seq<char>, device_id: Seq<char>) -> Seq<char> {
    timestamp + "-"@ + device_id + "-local.kdbx"@
}

/// `.merge-<device>-<timestamp>.kdbx`: the work copy of a merge.
pub open spec fn merge_work_name_spec(device_id: Seq<char>, timestamp: Seq<char>) -> Seq<char> {
    ".merge-"@ + device_id + "-"@ + timestamp + ".kdbx"@
}

/// `.upload-<sanitized device>-<timestamp>.kdbx`: the temporary file of a byte upload.
pub open spec fn upload_name_spec(device_id: Seq<char>, timestamp: Seq<char>) -> Seq<char> {
    ".upload-"@ + sanitize_spec(device_id) + "-"@ + timestamp + ".kdbx"@
}

/// `<revision with - for :>.kdbx`: an incoming database.
pub open spec fn incoming_name_spec(revision: Seq<char>) -> Seq<char> {
    safe_revision_spec(revision) + ".kdbx"@
}

/// `<timestamp>-<file name>`: an archived incoming database.
pub open spec fn archive_name_spec(timestamp: Seq<char>, file_name: Seq<char>) -> Seq<char> {
    timestamp + "-"@ + file_name
}

/// The name of the backup of the canonical database.
pub fn remote_backup_name(timestamp: &str, device_id: &str) -> (r: String)
    ensures
        r@ == remote_backup_name_spec(timestamp@, device_id@),
{
    let mut s = owned(timestamp);
    push_str(&mut s, "-");
    push_str(&mut s, device_id);
    push_str(&mut s, "-remote.kdbx");
    s
}

/// The name of the backup of a local database before a pull.
pub fn local_backup_name(timestamp: &str, device_id: &str) -> (r: String)
    ensures
        r@ == local_backup_name_spec(timestamp@, device_id@),
{
    let mut s = owned(timestamp);
    push_str(&mut s, "-");
    push_str(&mut s, device_id);
    push_str(&mut s, "-local.kdbx");
    s
}

/// The name of the work copy of a merge.
pub fn merge_work_name(device_id: &str, timestamp: &str) -> (r: String)
    ensures
        r@ == merge_work_name_spec(device_id@, timestamp@),
{
    let mut s = owned(".merge-");
    push_str(&mut s, device_id);
    push_str(&mut s, "-");
    push_str(&mut s, timestamp);
    push_str(&mut s, ".kdbx");
    s
}

/// The name of the temporary file of a byte upload.
pub fn upload_name(device_id: &str, timestamp: &str) -> (r: String)
    ensures
        r@ == upload_name_spec(device_id@, timestamp@),
{
    let mut s = owned(".upload-");
    let d = sanitize_path_component(device_id);
    push_str(&mut s, d.as_str());
    push_str(&mut s, "-");
    push_str(&mut s, timestamp);
    push_str(&mut s, ".kdbx");
    s
}

/// The name of an incoming database of the given revision.
pub fn incoming_name(revision: &Revision) -> (r: String)
    ensures
        r@ == incoming_name_spec(revision@),
{
    let mut s = safe_revision(revision);
    push_str(&mut s, ".kdbx");
    s
}

/// The name of an archived incoming database.
pub fn archive_name(timestamp: &str, file_name: &str) -> (r: String)
    ensures
        r@ == archive_name_spec(timestamp@, file_name@),
{
    let mut s = owned(timestamp);
    push_str(&mut s, "-");
    push_str(&mut s, file_name);
    s
}


/// Text order, character by character (for UTF-8 this is the byte order of the encodings):
/// `a` comes before `b`.
pub open spec fn text_lt(a: Seq<char>, b: Seq<char>) -> bool
    decreases a.len(),
{
    if a.len() == 0 {
        b.len() > 0
    } else if b.len() == 0 {
        false
    } else if a[0] != b[0] {
        (a[0] as u32) < (b[0] as u32)
    } else {
        text_lt(a.drop_first(), b.drop_first())
    }
}

proof fn lemma_text_lt_asym(a: Seq<char>, b: Seq<char>)
    ensures
        !(text_lt(a, b) && text_lt(b, a)),
    decreases a.len(),
{
    if a.len() > 0 && b.len() > 0 && a[0] == b[0] {
        lemma_text_lt_asym(a.drop_first(), b.drop_first());
    }
}

proof fn lemma_text_lt_total(a: Seq<char>, b: Seq<char>)
    ensures
        a == b || text_lt(a, b) || text_lt(b, a),
    decreases a.len(),
{
    if a.len() > 0 && b.len() > 0 && a[0] == b[0] {
        lemma_text_lt_total(a.drop_first(), b.drop_first());
        if a.drop_first() == b.drop_first() {
            assert(a =~= seq![a[0]] + a.drop_first());
            assert(b =~= seq![b[0]] + b.drop_first());
        }
    } else if a.len() == 0 && b.len() == 0 {
        assert(a =~= b);
    } else if a.len() > 0 && b.len() > 0 {
        vstd::utf8::char_u32_cast(a[0], a[0] as u32);
        vstd::utf8::char_u32_cast(b[0], b[0] as u32);
    }
}

proof fn lemma_text_lt_trans(a: Seq<char>, b: Seq<char>, c: Seq<char>)
    requires
        text_lt(a, b),
        text_lt(b, c),
    ensures
        text_lt(a, c),
    decreases a.len(),
{
    if a.len() > 0 && b.len() > 0 && c.len() > 0 && a[0] == b[0] && b[0] == c[0] {
        lemma_text_lt_trans(a.drop_first(), b.drop_first(), c.drop_first());
    }
}

/// Entry order: by device, then by file name.
pub open spec fn entry_lt(x: (Seq<char>, Seq<char>), y: (Seq<char>, Seq<char>)) -> bool {
    text_lt(x.0, y.0) || (x.0 == y.0 && text_lt(x.1, y.1))
}

proof fn lemma_entry_lt_facts(x: (Seq<char>, Seq<char>), y: (Seq<char>, Seq<char>))
    ensures
        !(entry_lt(x, y) && entry_lt(y, x)),
        x == y || entry_lt(x, y) || entry_lt(y, x),
{
    lemma_text_lt_asym(x.0, y.0);
    lemma_text_lt_asym(x.1, y.1);
    lemma_text_lt_total(x.0, y.0);
    lemma_text_lt_total(x.1, y.1);
}

proof fn lemma_entry_lt_trans(
    x: (Seq<char>, Seq<char>),
    y: (Seq<char>, Seq<char>),
    z: (Seq<char>, Seq<char>),
)
    requires
        entry_lt(x, y),
        entry_lt(y, z),
    ensures
        entry_lt(x, z),
{
    if text_lt(x.0, y.0) && text_lt(y.0, z.0) {
        lemma_text_lt_trans(x.0, y.0, z.0);
    } else if text_lt(x.1, y.1) && text_lt(y.1, z.1) && x.0 == y.0 && y.0 == z.0 {
        lemma_text_lt_trans(x.1, y.1, z.1);
    }
}

/// Whether a file name has the extension `kdbx`, as `Path::extension` reads it: the text
/// after the last `.`, where a `.` at the start of the name does not begin an extension.
pub open spec fn has_kdbx_extension(name: Seq<char>) -> bool {
    name.len() > 5 && name.skip(name.len() - 5) == seq!['.', 'k', 'd', 'b', 'x']
}

/// Incoming entries in the order of their paths: by device, then by file name, and between
/// equal entries by their position.
pub open spec fn index_lt(e: Seq<(Seq<char>, Seq<char>)>, i: int, j: int) -> bool {
    entry_lt(e[i], e[j]) || (e[i] == e[j] && i < j)
}

/// Whether `order` lists exactly the positions of the `.kdbx` entries, each once, in the
/// order of their paths.
pub open spec fn incoming_order_spec(e: Seq<(Seq<char>, Seq<char>)>, order: Seq<usize>) -> bool {
    &&& forall|k: int| 0 <= k < order.len() ==> #[trigger] order[k] < e.len() && has_kdbx_extension(
        e[order[k] as int].1,
    )
    &&& forall|i: int| 0 <= i < e.len() && has_kdbx_extension(e[i].1) ==> order.contains(i as usize)
    &&& forall|k: int, l: int|
        0 <= k < l < order.len() ==> index_lt(e, #[trigger] order[k] as int, #[trigger] order[l] as int)
}

/// Whether two texts are in text order.
pub fn text_less(a: &Vec<char>, b: &Vec<char>) -> (r: bool)
    ensures
        r == text_lt(a@, b@),
{
    let mut i: usize = 0;
    assert(a@.skip(0) =~= a@);
    assert(b@.skip(0) =~= b@);
    while i < a.len() && i < b.len() && a[i] == b[i]
        invariant
            0 <= i <= a.len(),
            i <= b.len(),
            text_lt(a@, b@) == text_lt(a@.skip(i as int), b@.skip(i as int)),
        decreases a.len() - i,
    {
        assert(a@.skip(i as int).drop_first() =~= a@.skip(i + 1));
        assert(b@.skip(i as int).drop_first() =~= b@.skip(i + 1));
        i = i + 1;
    }
    if i == a.len() {
        i < b.len()
    } else if i == b.len() {
        false
    } else {
        assert(a@.skip(i as int)[0] == a@[i as int]);
        assert(b@.skip(i as int)[0] == b@[i as int]);
        (a[i] as u32) < (b[i] as u32)
    }
}

/// Whether a file name has the extension `kdbx`.
pub fn is_kdbx_name(name: &Vec<char>) -> (r: bool)
    ensures
        r == has_kdbx_extension(name@),
{
    let n = name.len();
    if n <= 5 {
        return false;
    }
    let r = name[n - 5] == '.' && name[n - 4] == 'k' && name[n - 3] == 'd' && name[n - 2] == 'b'
        && name[n - 1] == 'x';
    proof {
        let t = name@.skip(n - 5);
        if r {
            assert(t =~= seq!['.', 'k', 'd', 'b', 'x']);
        } else if t == seq!['.', 'k', 'd', 'b', 'x'] {
            assert(t[0] == '.' && t[1] == 'k' && t[2] == 'd' && t[3] == 'b' && t[4] == 'x');
        }
    }
    r
}

/// The positions of the incoming entries (device, file name) that are KeePass databases, in the
/// order of their paths under `incoming/`.
pub fn select_incoming_order(entries: &Vec<(String, String)>) -> (r: Vec<usize>)
    ensures
        incoming_order_spec(pairs_view(entries@), r@),
{
    let ghost e = pairs_view(entries@);
    let mut keys: Vec<(Vec<char>, Vec<char>)> = Vec::new();
    let mut j: usize = 0;
    while j < entries.len()
        invariant
            0 <= j <= entries.len(),
            e == pairs_view(entries@),
            keys@.len() == j,
            forall|k: int| 0 <= k < j ==> (#[trigger] keys@[k]).0@ == e[k].0 && keys@[k].1@ == e[k].1,
        decreases entries.len() - j,
    {
        let d = chars_of(entries[j].0.as_str());
        let f = chars_of(entries[j].1.as_str());
        keys.push((d, f));
        j = j + 1;
    }
    let mut order: Vec<usize> = Vec::new();
    let mut i: usize = 0;
    while i < entries.len()
        invariant
            0 <= i <= entries.len(),
            e == pairs_view(entries@),
            e.len() == entries.len(),
            keys@.len() == entries.len(),
            forall|k: int| 0 <= k < e.len() ==> (#[trigger] keys@[k]).0@ == e[k].0 && keys@[k].1@ == e[k].1,
            forall|k: int| 0 <= k < order@.len() ==> #[trigger] order@[k] < i && has_kdbx_extension(
                e[order@[k] as int].1,
            ),
            forall|m: int| 0 <= m < i && has_kdbx_extension(e[m].1) ==> order@.contains(m as usize),
            forall|k: int, l: int|
                0 <= k < l < order@.len() ==> index_lt(e, #[trigger] order@[k] as int, #[trigger] order@[l] as int),
        decreases entries.len() - i,
    {
        if is_kdbx_name(&keys[i].1) {
            let mut p: usize = 0;
            while p < order.len() && !entry_less(&keys, i, order[p])
                invariant
                    0 <= p <= order@.len(),
                    i < keys@.len(),
                    forall|k: int| 0 <= k < order@.len() ==> #[trigger] order@[k] < i,
                    forall|k: int| 0 <= k < p ==> !entry_lt(e[i as int], e[#[trigger] order@[k] as int]),
                    forall|k: int| 0 <= k < e.len() ==> (#[trigger] keys@[k]).0@ == e[k].0 && keys@[k].1@ == e[k].1,
                    e.len() == keys@.len(),
                decreases order@.len() - p,
            {
                p = p + 1;
            }
            let ghost old_order = order@;
            proof {
                assert forall|k: int| p <= k < old_order.len() implies entry_lt(
                    e[i as int],
                    e[#[trigger] old_order[k] as int],
                ) by {
                    if k > p {
                        let x = e[old_order[p as int] as int];
                        let y = e[old_order[k] as int];
                        assert(index_lt(e, old_order[p as int] as int, old_order[k] as int));
                        if entry_lt(x, y) {
                            lemma_entry_lt_trans(e[i as int], x, y);
                        }
                    }
                }
                assert forall|k: int| 0 <= k < p implies index_lt(
                    e,
                    #[trigger] old_order[k] as int,
                    i as int,
                ) by {
                    lemma_entry_lt_facts(e[i as int], e[old_order[k] as int]);
                }
            }
            order.insert(p, i);
            proof {
                let n = order@;
                assert forall|k: int, l: int|
                    0 <= k < l < n.len() implies index_lt(e, #[trigger] n[k] as int, #[trigger] n[l] as int) by {
                    if k < p && l == p {
                        assert(n[k] == old_order[k]);
                    } else if k == p {
                        assert(n[l] == old_order[l - 1]);
                    } else if l < p {
                        assert(n[k] == old_order[k] && n[l] == old_order[l]);
                    } else if k < p {
                        assert(n[k] == old_order[k] && n[l] == old_order[l - 1]);
                    } else {
                        assert(n[k] == old_order[k - 1] && n[l] == old_order[l - 1]);
                    }
                }
                assert forall|m: int| 0 <= m < i + 1 && has_kdbx_extension(e[m].1) implies n.contains(
                    m as usize,
                ) by {
                    if m == i {
                        assert(n[p as int] == i);
                    } else {
                        let k = choose|k: int| 0 <= k < old_order.len() && old_order[k] == m as usize;
                        if k < p {
                            assert(n[k] == old_order[k]);
                        } else {
                            assert(n[k + 1] == old_order[k]);
                        }
                    }
                }
                assert forall|k: int| 0 <= k < n.len() implies #[trigger] n[k] < i + 1 && has_kdbx_extension(
                    e[n[k] as int].1,
                ) by {
                    if k < p {
                        assert(n[k] == old_order[k]);
                    } else if k > p {
                        assert(n[k] == old_order[k - 1]);
                    }
                }
            }
        } else {
            proof {
                assert forall|m: int| 0 <= m < i + 1 && has_kdbx_extension(e[m].1) implies order@.contains(
                    m as usize,
                ) by {
                    assert(m != i);
                }
            }
        }
        i = i + 1;
    }
    order
}

fn entry_less(keys: &Vec<(Vec<char>, Vec<char>)>, i: usize, j: usize) -> (r: bool)
    requires
        i < keys@.len(),
        j < keys@.len(),
    ensures
        r == entry_lt((keys@[i as int].0@, keys@[i as int].1@), (keys@[j as int].0@, keys@[j as int].1@)),
{
    let (di, fi) = &keys[i];
    let (dj, fj) = &keys[j];
    if text_less(di, dj) {
        return true;
    }
    if text_less(dj, di) {
        proof {
            lemma_text_lt_asym(di@, dj@);
        }
        return false;
    }
    proof {
        lemma_text_lt_total(di@, dj@);
    }
    text_less(fi, fj)
}

/// The incoming entries (device, file name) that are KeePass databases, in the order of their
/// paths under `incoming/`: by device, then by file name.
pub fn select_incoming(entries: Vec<(String, String)>) -> (r: Vec<(String, String)>)
    ensures
        exists|order: Seq<usize>|
            incoming_order_spec(pairs_view(entries@), order) && order.len() == r@.len() && forall|
                k: int,
            |
                0 <= k < order.len() ==> #[trigger] pairs_view(r@)[k] == pairs_view(entries@)[order[k] as int],
{
    let order = select_incoming_order(&entries);
    let mut out: Vec<(String, String)> = Vec::new();
    let mut k: usize = 0;
    while k < order.len()
        invariant
            0 <= k <= order.len(),
            out@.len() == k,
            incoming_order_spec(pairs_view(entries@), order@),
            forall|m: int| 0 <= m < k ==> #[trigger] pairs_view(out@)[m] == pairs_view(entries@)[order@[m] as int],
        decreases order.len() - k,
    {
        let idx = order[k];
        assert(idx < entries@.len());
        let (d, f) = &entries[idx];
        let ghost prev = out@;
        out.push((d.clone(), f.clone()));
        proof {
            assert(pairs_view(out@)[k as int] == pairs_view(entries@)[idx as int]);
            assert forall|m: int| 0 <= m < k + 1 implies #[trigger] pairs_view(out@)[m] == pairs_view(entries@)[order@[m] as int] by {
                if m < k {
                    assert(out@[m] == prev[m]);
                    assert(pairs_view(prev)[m] == pairs_view(entries@)[order@[m] as int]);
                }
            }
        }
        k = k + 1;
    }
    out
}

} // verus!
