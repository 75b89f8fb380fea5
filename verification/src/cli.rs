//! The command line: flags, commands, and the texts the client sends to a sync server.
use vstd::prelude::*;
use vstd::utf8::*;

use crate::http::{hex_val, percent_decode, url_decode_spec, same_text, has_prefix, starts_with};
use crate::revision::{parse_revision_spec, Revision, RevisionError, revision_error_text, revision_of};
use crate::sync::{decide_spec, decide_sync, sync_problem_text, SyncAction, SyncInputs, SyncProblem};
use crate::text::{
    chars_of, decimal, decimal_string, drop_trailing, owned, push_char, push_str, trim_spec,
    trim_whitespace,
};

verus! {

/// The value after the first occurrence of a flag, when something follows it.
pub open spec fn flag_value(args: Seq<Seq<char>>, flag: Seq<char>) -> Option<Seq<char>>
    decreases args.len(),
{
    if args.len() < 2 {
        None
    } else if args[0] == flag {
        Some(args[1])
    } else {
        flag_value(args.drop_first(), flag)
    }
}

/// The texts of a list of strings.
pub open spec fn args_view(args: Seq<String>) -> Seq<Seq<char>> {
    Seq::new(args.len(), |i: int| args[i]@)
}

/// The value given for a flag: the argument after the first occurrence of the flag.
pub fn optional_value(args: &Vec<String>, flag: &str) -> (r: Option<String>)
    ensures
        r is Some <==> flag_value(args_view(args@), flag@) is Some,
        r matches Some(v) ==> flag_value(args_view(args@), flag@) == Some(v@),
{
    let ghost all = args_view(args@);
    let mut i: usize = 0;
    assert(all.skip(0) =~= all);
    while args.len() >= 2 && i < args.len() - 1
        invariant
            0 <= i <= args.len(),
            all == args_view(args@),
            flag_value(all, flag@) == flag_value(all.skip(i as int), flag@),
        decreases args.len() - i,
    {
        assert(all.skip(i as int)[0] == all[i as int]);
        assert(all.skip(i as int)[1] == all[i + 1]);
        if same_text(args[i].as_str(), flag) {
            return Some(args[i + 1].clone());
        }
        assert(all.skip(i as int).drop_first() =~= all.skip(i + 1));
        i = i + 1;
    }
    None
}

/// The error for a missing flag.
pub open spec fn missing_flag_text(flag: Seq<char>) -> Seq<char> {
    "missing required flag: "@ + flag
}

/// The value given for a flag that must be there.
pub fn required_value(args: &Vec<String>, flag: &str) -> (r: Result<String, String>)
    ensures
        r is Ok <==> flag_value(args_view(args@), flag@) is Some,
        r matches Ok(v) ==> flag_value(args_view(args@), flag@) == Some(v@),
        r matches Err(m) ==> m@ == missing_flag_text(flag@),
{
    match optional_value(args, flag) {
        Some(v) => Ok(v),
        None => {
            let mut m = owned("missing required flag: ");
            push_str(&mut m, flag);
            Err(m)
        },
    }
}

/// The options of `sync` and `watch`.
#[derive(Debug, Clone)]
pub struct SyncOptions {
    pub local: String,
    pub remote_root: String,
    pub state: String,
    pub device: String,
}

impl SyncOptions {
    /// Reads `--local`, `--remote-root`, `--state` and `--device`, all required; the first one
    /// missing, in that order, is reported.
    pub fn from_args(args: &Vec<String>) -> (r: Result<Self, String>)
        ensures
            ({
                let a = args_view(args@);
                let l = flag_value(a, "--local"@);
                let rr = flag_value(a, "--remote-root"@);
                let st = flag_value(a, "--state"@);
                let d = flag_value(a, "--device"@);
                &&& r is Ok <==> (l is Some && rr is Some && st is Some && d is Some)
                &&& r matches Ok(o) ==> (Some(o.local@) == l && Some(o.remote_root@) == rr && Some(
                    o.state@,
                ) == st && Some(o.device@) == d)
                &&& r matches Err(m) ==> m@ == missing_flag_text(
                    if l is None {
                        "--local"@
                    } else if rr is None {
                        "--remote-root"@
                    } else if st is None {
                        "--state"@
                    } else {
                        "--device"@
                    },
                )
            }),
    {
        let local = required_value(args, "--local")?;
        let remote_root = required_value(args, "--remote-root")?;
        let state = required_value(args, "--state")?;
        let device = required_value(args, "--device")?;
        Ok(SyncOptions { local, remote_root, state, device })
    }
}

/// The commands of the command line.
#[derive(Debug, Clone, Copy, PartialEq, Eq, Structural)]
pub enum CliCommand {
    Hash,
    Decide,
    Sync,
    Watch,
    Serve,
    PullIncoming,
    MergeIncoming,
    Manifest,
    Doctor,
    Help,
    Unknown,
}

/// The command a first argument names.
pub open spec fn command_spec(name: Seq<char>) -> CliCommand {
    if name == "hash"@ {
        CliCommand::Hash
    } else if name == "decide"@ {
        CliCommand::Decide
    } else if name == "sync"@ {
        CliCommand::Sync
    } else if name == "watch"@ {
        CliCommand::Watch
    } else if name == "serve"@ {
        CliCommand::Serve
    } else if name == "pull-incoming"@ {
        CliCommand::PullIncoming
    } else if name == "merge-incoming"@ {
        CliCommand::MergeIncoming
    } else if name == "manifest"@ {
        CliCommand::Manifest
    } else if name == "doctor"@ {
        CliCommand::Doctor
    } else if name == "help"@ || name == "--help"@ || name == "-h"@ {
        CliCommand::Help
    } else {
        CliCommand::Unknown
    }
}

/// The command a first argument names.
pub fn parse_command(name: &str) -> (r: CliCommand)
    ensures
        r == command_spec(name@),
{
    if same_text(name, "hash") {
        CliCommand::Hash
    } else if same_text(name, "decide") {
        CliCommand::Decide
    } else if same_text(name, "sync") {
        CliCommand::Sync
    } else if same_text(name, "watch") {
        CliCommand::Watch
    } else if same_text(name, "serve") {
        CliCommand::Serve
    } else if same_text(name, "pull-incoming") {
        CliCommand::PullIncoming
    } else if same_text(name, "merge-incoming") {
        CliCommand::MergeIncoming
    } else if same_text(name, "manifest") {
        CliCommand::Manifest
    } else if same_text(name, "doctor") {
        CliCommand::Doctor
    } else if same_text(name, "help") || same_text(name, "--help") || same_text(name, "-h") {
        CliCommand::Help
    } else {
        CliCommand::Unknown
    }
}

/// The error for an unknown command.
pub fn unknown_command_message(name: &str) -> (r: String)
    ensures
        r@ == "unknown command: "@ + name@,
{
    let mut m = owned("unknown command: ");
    push_str(&mut m, name);
    m
}

/// Bytes that travel in a URL as they are: ASCII letters and digits, `-`, `_`, `.`, `~`.
pub open spec fn is_unreserved(b: u8) -> bool {
    (65 <= b && b <= 90) || (97 <= b && b <= 122) || (48 <= b && b <= 57) || b == 45 || b == 95
        || b == 46 || b == 126
}

/// The upper-case hex digit byte of a value below sixteen.
pub open spec fn upper_hex_byte(d: int) -> u8 {
    if d < 10 {
        (d + 48) as u8
    } else {
        (d + 55) as u8
    }
}

/// The encoding of one byte: itself when unreserved, else `%` and two upper-case hex digits.
pub open spec fn encode_byte(b: u8) -> Seq<u8> {
    if is_unreserved(b) {
        seq![b]
    } else {
        seq![37u8, upper_hex_byte((b / 16) as int), upper_hex_byte((b % 16) as int)]
    }
}

/// The percent-encoding of bytes, byte by byte.
pub open spec fn url_encode_bytes(b: Seq<u8>) -> Seq<u8>
    decreases b.len(),
{
    if b.len() == 0 {
        Seq::empty()
    } else {
        encode_byte(b[0]) + url_encode_bytes(b.drop_first())
    }
}

/// The characters of ASCII bytes.
pub open spec fn ascii_chars(b: Seq<u8>) -> Seq<char> {
    Seq::new(b.len(), |i: int| b[i] as char)
}

/// The percent-encoding of a text's UTF-8 bytes.
pub open spec fn url_encode_spec(v: Seq<char>) -> Seq<char> {
    ascii_chars(url_encode_bytes(encode_utf8(v)))
}

proof fn lemma_url_encode_append(a: Seq<u8>, b: Seq<u8>)
    ensures
        url_encode_bytes(a + b) == url_encode_bytes(a) + url_encode_bytes(b),
    decreases a.len(),
{
    if a.len() == 0 {
        assert(a + b =~= b);
        assert(url_encode_bytes(a) + url_encode_bytes(b) =~= url_encode_bytes(b));
    } else {
        lemma_url_encode_append(a.drop_first(), b);
        assert((a + b).drop_first() =~= a.drop_first() + b);
        assert(url_encode_bytes(a + b) =~= url_encode_bytes(a) + url_encode_bytes(b));
    }
}

proof fn lemma_url_encode_one(b: u8)
    ensures
        url_encode_bytes(seq![b]) == encode_byte(b),
{
    assert(seq![b].drop_first() =~= Seq::<u8>::empty());
    assert(url_encode_bytes(Seq::<u8>::empty()) == Seq::<u8>::empty());
    assert(encode_byte(b) + Seq::<u8>::empty() =~= encode_byte(b));
    assert(url_encode_bytes(seq![b]) == encode_byte(b) + url_encode_bytes(seq![b].drop_first()));
}

fn upper_hex_char(d: u8) -> (c: char)
    requires
        d < 16,
    ensures
        c == upper_hex_byte(d as int) as char,
{
    if d < 10 {
        ((d + 48u8) as u8) as char
    } else {
        ((d + 55u8) as u8) as char
    }
}

/// Percent-encodes a text for one URL component.
pub fn url_encode(value: &str) -> (r: String)
    ensures
        r@ == url_encode_spec(value@),
{
    let bytes = value.as_bytes();
    let ghost b = bytes@;
    let mut out = String::new();
    let mut i: usize = 0;
    while i < bytes.len()
        invariant
            0 <= i <= bytes.len(),
            b == bytes@,
            b == encode_utf8(value@),
            out@ == ascii_chars(url_encode_bytes(b.take(i as int))),
        decreases bytes.len() - i,
    {
        let byte = bytes[i];
        let ghost before = url_encode_bytes(b.take(i as int));
        proof {
            assert(b.take(i + 1) =~= b.take(i as int) + seq![byte]);
            lemma_url_encode_append(b.take(i as int), seq![byte]);
            lemma_url_encode_one(byte);
        }
        let unreserved = (65 <= byte && byte <= 90) || (97 <= byte && byte <= 122) || (48 <= byte
            && byte <= 57) || byte == 45 || byte == 95 || byte == 46 || byte == 126;
        if unreserved {
            push_char(&mut out, byte as char);
        } else {
            push_char(&mut out, '%');
            let hi = upper_hex_char(byte / 16);
            let lo = upper_hex_char(byte % 16);
            push_char(&mut out, hi);
            push_char(&mut out, lo);
        }
        assert(out@ =~= ascii_chars(before + encode_byte(byte)));
        i = i + 1;
    }
    assert(b.take(bytes.len() as int) =~= b);
    out
}

proof fn lemma_percent_decode_of_encoding(b: Seq<u8>)
    ensures
        percent_decode(url_encode_bytes(b)) == Some(b),
    decreases b.len(),
{
    if b.len() == 0 {
    } else {
        let e = url_encode_bytes(b);
        let rest = url_encode_bytes(b.drop_first());
        lemma_percent_decode_of_encoding(b.drop_first());
        let x = b[0];
        if is_unreserved(x) {
            assert(e.skip(1) =~= rest);
            assert(seq![x] + b.drop_first() =~= b);
        } else {
            let h = (x / 16) as int;
            let l = (x % 16) as int;
            assert(e.skip(3) =~= rest);
            assert(hex_val(upper_hex_byte(h)) == Some(h as u8));
            assert(hex_val(upper_hex_byte(l)) == Some(l as u8));
            assert((h * 16 + l) as u8 == x);
            assert(seq![x] + b.drop_first() =~= b);
        }
    }
}

proof fn lemma_url_encoding_is_ascii(b: Seq<u8>)
    ensures
        forall|i: int| 0 <= i < url_encode_bytes(b).len() ==> #[trigger] url_encode_bytes(b)[i] < 128,
    decreases b.len(),
{
    if b.len() > 0 {
        lemma_url_encoding_is_ascii(b.drop_first());
        let e = url_encode_bytes(b);
        let head = encode_byte(b[0]);
        assert forall|i: int| 0 <= i < e.len() implies #[trigger] e[i] < 128 by {
            if i < head.len() {
                assert(e[i] == head[i]);
            } else {
                assert(e[i] == url_encode_bytes(b.drop_first())[i - head.len()]);
            }
        }
    }
}

/// What the client encodes, the server decodes back: percent-decoding the percent-encoding of
/// any text gives that text.
pub proof fn law_url_decode_inverts_encode(v: Seq<char>)
    ensures
        url_decode_spec(url_encode_spec(v)) == Some(v),
{
    let bytes = encode_utf8(v);
    let e = url_encode_bytes(bytes);
    let cs = ascii_chars(e);
    lemma_url_encoding_is_ascii(bytes);
    assert(is_ascii_chars(cs)) by {
        assert forall|i: int| 0 <= i < cs.len() implies '\0' <= #[trigger] cs[i] <= '\u{7f}' by {
            assert(e[i] < 128);
        }
    }
    is_ascii_chars_encode_utf8(cs);
    assert(encode_utf8(cs) =~= e) by {
        assert forall|i: int| 0 <= i < e.len() implies encode_utf8(cs)[i] == e[i] by {
            assert(cs[i] as u8 == encode_utf8(cs)[i]);
            assert(e[i] < 128);
        }
    }
    lemma_percent_decode_of_encoding(bytes);
    encode_utf8_valid_utf8(v);
    encode_utf8_decode_utf8(v);
}

/// The characters that must be escaped in a curl configuration value: `\` and `"`, each
/// preceded by a backslash.
pub open spec fn curl_escape_spec(s: Seq<char>) -> Seq<char>
    decreases s.len(),
{
    if s.len() == 0 {
        Seq::empty()
    } else {
        let c = s.last();
        let tail = if c == '\\' || c == '"' {
            seq!['\\', c]
        } else {
            seq![c]
        };
        curl_escape_spec(s.drop_last()) + tail
    }
}

/// Escapes a value for a quoted curl configuration entry.
pub fn curl_config_escape(value: &str) -> (r: String)
    ensures
        r@ == curl_escape_spec(value@),
{
    let cs = chars_of(value);
    let mut out = String::new();
    let mut i: usize = 0;
    while i < cs.len()
        invariant
            0 <= i <= cs.len(),
            cs@ == value@,
            out@ == curl_escape_spec(cs@.take(i as int)),
        decreases cs.len() - i,
    {
        let c = cs[i];
        assert(cs@.take(i + 1).drop_last() =~= cs@.take(i as int));
        if c == '\\' || c == '"' {
            push_char(&mut out, '\\');
        }
        push_char(&mut out, c);
        assert(out@ =~= curl_escape_spec(cs@.take(i + 1)));
        i = i + 1;
    }
    assert(cs@.take(cs.len() as int) =~= cs@);
    out
}

/// A line without the carriage returns and line feeds at its end.
pub open spec fn trim_line_end_spec(s: Seq<char>) -> Seq<char> {
    drop_trailing(s, |c: char| c == '\r' || c == '\n')
}

/// Removes the carriage returns and line feeds at the end of a text (a token or password read
/// from a file or the environment).
pub fn trim_line_end(s: &str) -> (r: String)
    ensures
        r@ == trim_line_end_spec(s@),
{
    let cs = chars_of(s);
    let ghost p = |c: char| c == '\r' || c == '\n';
    let mut b: usize = cs.len();
    assert(cs@.take(cs.len() as int) =~= cs@);
    while b > 0 && (cs[b - 1] == '\r' || cs[b - 1] == '\n')
        invariant
            0 <= b <= cs.len(),
            cs@ == s@,
            p == (|c: char| c == '\r' || c == '\n'),
            drop_trailing(s@, p) == drop_trailing(cs@.take(b as int), p),
        decreases b,
    {
        assert(cs@.take(b as int).drop_last() =~= cs@.take(b - 1));
        b = b - 1;
    }
    let mut out = String::new();
    let mut k: usize = 0;
    while k < b
        invariant
            0 <= k <= b <= cs.len(),
            out@ == cs@.take(k as int),
        decreases b - k,
    {
        push_char(&mut out, cs[k]);
        assert(cs@.take(k + 1) =~= cs@.take(k as int).push(cs@[k as int]));
        k = k + 1;
    }
    proof {
        if b > 0 {
            assert(cs@.take(b as int).last() == cs@[b - 1]);
        }
    }
    out
}

/// A sync server endpoint as given: white space around it and `/` at its end dropped; it must
/// use `http://` or `https://`.
pub open spec fn endpoint_spec(e: Seq<char>) -> Option<Seq<char>> {
    let t = drop_trailing(trim_spec(e), |c: char| c == '/');
    if starts_with(t, "http://"@) || starts_with(t, "https://"@) {
        Some(t)
    } else {
        None
    }
}

/// Normalizes a sync server endpoint.
pub fn normalize_endpoint(endpoint: &str) -> (r: Result<String, String>)
    ensures
        r is Ok <==> endpoint_spec(endpoint@) is Some,
        r matches Ok(t) ==> endpoint_spec(endpoint@) == Some(t@),
        r matches Err(m) ==> m@ == "sync endpoint must start with http:// or https://"@,
{
    let trimmed = trim_whitespace(endpoint);
    let cs = chars_of(trimmed.as_str());
    let ghost p = |c: char| c == '/';
    let mut b: usize = cs.len();
    assert(cs@.take(cs.len() as int) =~= cs@);
    while b > 0 && cs[b - 1] == '/'
        invariant
            0 <= b <= cs.len(),
            cs@ == trimmed@,
            p == (|c: char| c == '/'),
            drop_trailing(trimmed@, p) == drop_trailing(cs@.take(b as int), p),
        decreases b,
    {
        assert(cs@.take(b as int).drop_last() =~= cs@.take(b - 1));
        b = b - 1;
    }
    let mut out = String::new();
    let mut k: usize = 0;
    while k < b
        invariant
            0 <= k <= b <= cs.len(),
            out@ == cs@.take(k as int),
        decreases b - k,
    {
        push_char(&mut out, cs[k]);
        assert(cs@.take(k + 1) =~= cs@.take(k as int).push(cs@[k as int]));
        k = k + 1;
    }
    proof {
        if b > 0 {
            assert(cs@.take(b as int).last() == cs@[b - 1]);
        }
    }
    if has_prefix(out.as_str(), "http://") || has_prefix(out.as_str(), "https://") {
        Ok(out)
    } else {
        Err(owned("sync endpoint must start with http:// or https://"))
    }
}

/// The error for a downloaded incoming database that does not match the server's listing,
/// looking at its revision first, then at its size; `None` when it matches.
pub open spec fn download_check_spec(
    device_id: Seq<char>,
    expected: Seq<char>,
    size: u64,
    bytes: Seq<u8>,
) -> Option<Seq<char>> {
    let actual = revision_of(bytes);
    if actual != expected {
        Some(
            "downloaded incoming revision mismatch for "@ + device_id + ": expected "@ + expected
                + ", got "@ + actual,
        )
    } else if bytes.len() != size {
        Some(
            "downloaded incoming size mismatch for "@ + device_id + " "@ + expected + ": expected "@
                + decimal(size as nat) + ", got "@ + decimal(bytes.len()),
        )
    } else {
        None
    }
}

/// Checks a downloaded incoming database against the server's listing.
pub fn check_download(device_id: &str, expected: &Revision, size: u64, bytes: &[u8]) -> (r: Result<
    (),
    String,
>)
    ensures
        r is Ok <==> download_check_spec(device_id@, expected@, size, bytes@) is None,
        r matches Err(m) ==> download_check_spec(device_id@, expected@, size, bytes@) == Some(m@),
{
    let actual = Revision::from_bytes(bytes);
    if !actual.same(expected) {
        let mut m = owned("downloaded incoming revision mismatch for ");
        push_str(&mut m, device_id);
        push_str(&mut m, ": expected ");
        push_str(&mut m, expected.as_str());
        push_str(&mut m, ", got ");
        push_str(&mut m, actual.as_str());
        return Err(m);
    }
    if bytes.len() as u64 != size {
        let mut m = owned("downloaded incoming size mismatch for ");
        push_str(&mut m, device_id);
        push_str(&mut m, " ");
        push_str(&mut m, expected.as_str());
        push_str(&mut m, ": expected ");
        let a = decimal_string(size);
        push_str(&mut m, a.as_str());
        push_str(&mut m, ", got ");
        let b = decimal_string(bytes.len() as u64);
        push_str(&mut m, b.as_str());
        return Err(m);
    }
    Ok(())
}


/// A revision given for a flag, parsed; a parse error is reported with the flag's name.
pub open spec fn flag_revision(
    a: Seq<Seq<char>>,
    flag: Seq<char>,
    label: Seq<char>,
) -> Result<Option<Seq<char>>, Seq<char>> {
    match flag_value(a, flag) {
        None => Ok(None),
        Some(t) => match parse_revision_spec(t) {
            Ok(rev) => Ok(Some(rev)),
            Err(e) => Err("invalid "@ + label + " revision: "@ + revision_error_text(e)),
        },
    }
}

/// What `decide` prints for its arguments, or the error it reports: `--local` is required,
/// `--base` and `--remote` are optional, and the revisions are parsed base, remote, local.
pub open spec fn decide_args_spec(a: Seq<Seq<char>>) -> Result<SyncAction, Seq<char>> {
    match flag_value(a, "--local"@) {
        None => Err(missing_flag_text("--local"@)),
        Some(local_text) => match flag_revision(a, "--base"@, "--base"@) {
            Err(m) => Err(m),
            Ok(base) => match flag_revision(a, "--remote"@, "--remote"@) {
                Err(m) => Err(m),
                Ok(remote) => match parse_revision_spec(local_text) {
                    Err(e) => Err("invalid --local revision: "@ + revision_error_text(e)),
                    Ok(local) => match decide_spec(local, base, remote) {
                        Ok(action) => Ok(action),
                        Err(p) => Err(sync_problem_text(p)),
                    },
                },
            },
        },
    }
}

fn parse_flag_revision(args: &Vec<String>, flag: &str) -> (r: Result<Option<Revision>, String>)
    ensures
        match flag_revision(args_view(args@), flag@, flag@) {
            Ok(v) => r matches Ok(x) && x.deep_view() == v,
            Err(m) => r matches Err(y) && y@ == m,
        },
{
    match optional_value(args, flag) {
        None => Ok(None),
        Some(text) => match Revision::parse(text.as_str()) {
            Ok(rev) => Ok(Some(rev)),
            Err(e) => {
                let mut m = owned("invalid ");
                push_str(&mut m, flag);
                push_str(&mut m, " revision: ");
                let d = e.message();
                push_str(&mut m, d.as_str());
                Err(m)
            },
        },
    }
}

/// Decides a sync from the command line's revisions, as `decide` does.
pub fn decide_from_args(args: &Vec<String>) -> (r: Result<SyncAction, String>)
    ensures
        match decide_args_spec(args_view(args@)) {
            Ok(a) => r == Ok::<SyncAction, String>(a),
            Err(m) => r matches Err(y) && y@ == m,
        },
{
    let local_text = required_value(args, "--local")?;
    let base = parse_flag_revision(args, "--base")?;
    let remote = parse_flag_revision(args, "--remote")?;
    let local = match Revision::parse(local_text.as_str()) {
        Ok(rev) => rev,
        Err(e) => {
            let mut m = owned("invalid --local revision: ");
            let d = e.message();
            push_str(&mut m, d.as_str());
            return Err(m);
        },
    };
    let inputs = SyncInputs { local_revision: local, base_revision: base, remote_revision: remote };
    match decide_sync(&inputs) {
        Ok(action) => Ok(action),
        Err(p) => Err(p.message()),
    }
}


/// The address `serve` listens on: `--bind`, or `127.0.0.1:8787`.
pub fn bind_address(args: &Vec<String>) -> (r: String)
    ensures
        r@ == match flag_value(args_view(args@), "--bind"@) {
            Some(b) => b,
            None => "127.0.0.1:8787"@,
        },
{
    match optional_value(args, "--bind") {
        Some(b) => b,
        None => owned("127.0.0.1:8787"),
    }
}

/// The path `hash` takes: its only argument.
pub fn hash_path(args: &Vec<String>) -> (r: Result<String, String>)
    ensures
        r is Ok <==> args@.len() == 1,
        r matches Ok(p) ==> p@ == args@[0]@,
        r matches Err(m) ==> m@ == "usage: keepass-sync hash <path>"@,
{
    if args.len() != 1 {
        return Err(owned("usage: keepass-sync hash <path>"));
    }
    Ok(args[0].clone())
}

/// The path `manifest read <path>` takes; any other shape or subcommand is an error.
pub fn manifest_read_path(args: &Vec<String>) -> (r: Result<String, String>)
    ensures
        r is Ok <==> args@.len() == 2 && args@[0]@ == "read"@,
        r matches Ok(p) ==> p@ == args@[1]@,
        r matches Err(m) ==> if args@.len() != 2 {
            m@ == "usage: keepass-sync manifest read <path>"@
        } else {
            m@ == "unknown manifest command: "@ + args@[0]@
        },
{
    if args.len() != 2 {
        return Err(owned("usage: keepass-sync manifest read <path>"));
    }
    if same_text(args[0].as_str(), "read") {
        Ok(args[1].clone())
    } else {
        let mut m = owned("unknown manifest command: ");
        push_str(&mut m, args[0].as_str());
        Err(m)
    }
}


/// The curl configuration of an authorized GET: the URL, the bearer token header, and the
/// options to fail on HTTP errors quietly while still showing them.
pub open spec fn curl_config_spec(url: Seq<char>, token: Seq<char>) -> Seq<char> {
    "url = \""@ + curl_escape_spec(url) + "\"\nheader = \"Authorization: Bearer "@
        + curl_escape_spec(token) + "\"\nfail-with-body\nsilent\nshow-error\n"@
}

/// The curl configuration of an authorized GET of `url`.
pub fn curl_config(url: &str, token: &str) -> (r: String)
    ensures
        r@ == curl_config_spec(url@, token@),
{
    let mut s = owned("url = \"");
    let u = curl_config_escape(url);
    push_str(&mut s, u.as_str());
    push_str(&mut s, "\"\nheader = \"Authorization: Bearer ");
    let t = curl_config_escape(token);
    push_str(&mut s, t.as_str());
    push_str(&mut s, "\"\nfail-with-body\nsilent\nshow-error\n");
    s
}


/// Where the sync token comes from: `--token`, else the file named by `--token-file`, else the
/// `KEEPASS_SYNC_TOKEN` environment variable.
#[derive(Debug, Clone)]
pub enum TokenSource {
    Given(String),
    File(String),
    Environment,
}

/// Where the sync token comes from, by the command line.
pub fn token_source(args: &Vec<String>) -> (r: TokenSource)
    ensures
        ({
            let a = args_view(args@);
            match (flag_value(a, "--token"@), flag_value(a, "--token-file"@)) {
                (Some(t), _) => r matches TokenSource::Given(g) && g@ == t,
                (None, Some(f)) => r matches TokenSource::File(p) && p@ == f,
                (None, None) => r is Environment,
            }
        }),
{
    if let Some(token) = optional_value(args, "--token") {
        return TokenSource::Given(token);
    }
    if let Some(path) = optional_value(args, "--token-file") {
        return TokenSource::File(path);
    }
    TokenSource::Environment
}


/// The description `u64::from_str` gives an empty text.
pub open spec fn empty_number_text() -> Seq<char> {
    "cannot parse integer from empty string"@
}

/// The description `u64::from_str` gives a text with a character that is not a digit.
pub open spec fn invalid_digit_text() -> Seq<char> {
    "invalid digit found in string"@
}

/// The description `u64::from_str` gives a number above `u64::MAX`.
pub open spec fn overflow_text() -> Seq<char> {
    "number too large to fit in target type"@
}

/// Reads decimal digits from the left onto `acc`: a character that is not `0-9` or a value
/// above `u64::MAX`, whichever comes first, is an error.
pub open spec fn digits_value(d: Seq<char>, acc: int) -> Result<u64, Seq<char>>
    decreases d.len(),
{
    if d.len() == 0 {
        Ok(acc as u64)
    } else if !('0' <= d[0] && d[0] <= '9') {
        Err(invalid_digit_text())
    } else if acc * 10 + (d[0] as int - 48) > u64::MAX {
        Err(overflow_text())
    } else {
        digits_value(d.drop_first(), acc * 10 + (d[0] as int - 48))
    }
}

/// What `u64::from_str` gives a text: an error for an empty text or a lone sign, an optional
/// leading `+`, then the digits read as by `digits_value`.
pub open spec fn parse_u64_spec(s: Seq<char>) -> Result<u64, Seq<char>> {
    if s.len() == 0 {
        Err(empty_number_text())
    } else if s.len() == 1 && (s[0] == '+' || s[0] == '-') {
        Err(invalid_digit_text())
    } else if s[0] == '+' {
        digits_value(s.drop_first(), 0)
    } else {
        digits_value(s, 0)
    }
}

/// Parses an unsigned decimal number as `u64::from_str` does, with its error description.
pub fn parse_u64(text: &str) -> (r: Result<u64, String>)
    ensures
        match parse_u64_spec(text@) {
            Ok(v) => r == Ok::<u64, String>(v),
            Err(m) => r matches Err(e) && e@ == m,
        },
{
    let cs = chars_of(text);
    if cs.len() == 0 {
        return Err(owned("cannot parse integer from empty string"));
    }
    if cs.len() == 1 && (cs[0] == '+' || cs[0] == '-') {
        return Err(owned("invalid digit found in string"));
    }
    let start: usize = if cs[0] == '+' {
        1
    } else {
        0
    };
    let ghost d = if cs@[0] == '+' {
        cs@.drop_first()
    } else {
        cs@
    };
    assert(d =~= cs@.skip(start as int));
    let mut acc: u64 = 0;
    let mut i: usize = start;
    while i < cs.len()
        invariant
            start <= i <= cs.len(),
            cs@ == text@,
            d == cs@.skip(start as int),
            parse_u64_spec(text@) == digits_value(cs@.skip(i as int), acc as int),
        decreases cs.len() - i,
    {
        let c = cs[i];
        let ghost rest = cs@.skip(i as int);
        assert(rest[0] == c);
        assert(rest.drop_first() =~= cs@.skip(i + 1));
        if !('0' <= c && c <= '9') {
            return Err(owned("invalid digit found in string"));
        }
        let digit: u64 = ((c as u32) - 48) as u64;
        let next = match acc.checked_mul(10) {
            Some(m) => m.checked_add(digit),
            None => None,
        };
        match next {
            Some(v) => {
                acc = v;
            },
            None => {
                return Err(owned("number too large to fit in target type"));
            },
        }
        i = i + 1;
    }
    assert(cs@.skip(cs.len() as int) =~= Seq::<char>::empty());
    Ok(acc)
}

/// The polling interval of `watch` in seconds: `--interval-seconds`, or 30.
pub open spec fn watch_interval_spec(value: Option<Seq<char>>) -> Result<u64, Seq<char>> {
    match value {
        None => Ok(30),
        Some(t) => match parse_u64_spec(t) {
            Ok(v) => Ok(v),
            Err(m) => Err("invalid --interval-seconds: "@ + m),
        },
    }
}

/// The polling interval of `watch` in seconds, from the value of `--interval-seconds`.
pub fn watch_interval_seconds(value: Option<&str>) -> (r: Result<u64, String>)
    ensures
        match watch_interval_spec(match value {
            Some(t) => Some(t@),
            None => None,
        }) {
            Ok(v) => r == Ok::<u64, String>(v),
            Err(m) => r matches Err(e) && e@ == m,
        },
{
    match value {
        None => Ok(30),
        Some(t) => match parse_u64(t) {
            Ok(v) => Ok(v),
            Err(m) => {
                let mut e = owned("invalid --interval-seconds: ");
                push_str(&mut e, m.as_str());
                Err(e)
            },
        },
    }
}

/// One poll of `watch`: given the modification time last synced at and the one observed now
/// (`None` when it could not be read), the time to remember and whether to sync now. A sync
/// runs exactly when the database was modified after the time last seen.
pub fn watch_step(last_seen: u128, observed: Option<u128>) -> (r: (u128, bool))
    ensures
        match observed {
            Some(m) => if m > last_seen {
                r == (m, true)
            } else {
                r == (last_seen, false)
            },
            None => r == (last_seen, false),
        },
{
    match observed {
        Some(m) => if m > last_seen {
            (m, true)
        } else {
            (last_seen, false)
        },
        None => (last_seen, false),
    }
}


/// When `--local`, `--base` and `--remote` all name revisions that parse, `decide` compares the
/// local and the remote revision with the one given for `--base`: unchanged on both sides is a
/// no-op, a change on the remote side alone is pulled, a change on the local side alone is
/// published, and changes on both sides are preserved as incoming.
pub proof fn law_decide_reads_base_and_remote(
    a: Seq<Seq<char>>,
    local_text: Seq<char>,
    base_text: Seq<char>,
    remote_text: Seq<char>,
    local: Seq<char>,
    base: Seq<char>,
    remote: Seq<char>,
)
    requires
        flag_value(a, "--local"@) == Some(local_text),
        flag_value(a, "--base"@) == Some(base_text),
        flag_value(a, "--remote"@) == Some(remote_text),
        parse_revision_spec(local_text) == Ok::<Seq<char>, RevisionError>(local),
        parse_revision_spec(base_text) == Ok::<Seq<char>, RevisionError>(base),
        parse_revision_spec(remote_text) == Ok::<Seq<char>, RevisionError>(remote),
    ensures
        local == base && remote == base ==> decide_args_spec(a) == Ok::<SyncAction, Seq<char>>(
            SyncAction::Noop,
        ),
        local == base && remote != base ==> decide_args_spec(a) == Ok::<SyncAction, Seq<char>>(
            SyncAction::PullRemote,
        ),
        local != base && remote == base ==> decide_args_spec(a) == Ok::<SyncAction, Seq<char>>(
            SyncAction::PublishLocal,
        ),
        local != base && remote != base ==> decide_args_spec(a) == Ok::<SyncAction, Seq<char>>(
            SyncAction::PreserveIncoming,
        ),
{
}

proof fn lemma_revision_is_no_flag(t: Seq<char>, r: Seq<char>)
    requires
        parse_revision_spec(t) == Ok::<Seq<char>, RevisionError>(r),
    ensures
        t.len() > 0 && t[0] == 's',
{
    assert(t.take(7)[0] == t[0]);
}

/// `decide --local <l> --base <b> --remote <r>`, with three revisions that parse: the revision
/// after `--base` is the base and the one after `--remote` is the remote, so a change on the
/// remote side alone is pulled and a change on the local side alone is published.
pub proof fn law_decide_command_line(
    local_text: Seq<char>,
    base_text: Seq<char>,
    remote_text: Seq<char>,
    local: Seq<char>,
    base: Seq<char>,
    remote: Seq<char>,
)
    requires
        parse_revision_spec(local_text) == Ok::<Seq<char>, RevisionError>(local),
        parse_revision_spec(base_text) == Ok::<Seq<char>, RevisionError>(base),
        parse_revision_spec(remote_text) == Ok::<Seq<char>, RevisionError>(remote),
    ensures
        ({
            let a = seq!["--local"@, local_text, "--base"@, base_text, "--remote"@, remote_text];
            &&& local == base && remote == base ==> decide_args_spec(a) == Ok::<
                SyncAction,
                Seq<char>,
            >(SyncAction::Noop)
            &&& local == base && remote != base ==> decide_args_spec(a) == Ok::<
                SyncAction,
                Seq<char>,
            >(SyncAction::PullRemote)
            &&& local != base && remote == base ==> decide_args_spec(a) == Ok::<
                SyncAction,
                Seq<char>,
            >(SyncAction::PublishLocal)
            &&& local != base && remote != base ==> decide_args_spec(a) == Ok::<
                SyncAction,
                Seq<char>,
            >(SyncAction::PreserveIncoming)
        }),
{
    reveal_strlit("--local");
    reveal_strlit("--base");
    reveal_strlit("--remote");
    lemma_revision_is_no_flag(local_text, local);
    lemma_revision_is_no_flag(base_text, base);
    lemma_revision_is_no_flag(remote_text, remote);
    let l = "--local"@;
    let b = "--base"@;
    let r = "--remote"@;
    assert(l != b && l != r && b != r) by {
        assert(l.len() != b.len() && l.len() != r.len() && b.len() != r.len());
    }
    assert(local_text != b && local_text != r && base_text != r) by {
        assert(b[0] == '-' && r[0] == '-');
    }
    let a = seq![l, local_text, b, base_text, r, remote_text];
    let a1 = a.drop_first();
    let a2 = a1.drop_first();
    let a3 = a2.drop_first();
    let a4 = a3.drop_first();
    assert(a1 =~= seq![local_text, b, base_text, r, remote_text]);
    assert(a2 =~= seq![b, base_text, r, remote_text]);
    assert(a3 =~= seq![base_text, r, remote_text]);
    assert(a4 =~= seq![r, remote_text]);
    assert(flag_value(a, l) == Some(local_text));
    assert(flag_value(a2, b) == Some(base_text));
    assert(flag_value(a1, b) == Some(base_text));
    assert(flag_value(a, b) == Some(base_text));
    assert(flag_value(a4, r) == Some(remote_text));
    assert(flag_value(a3, r) == Some(remote_text));
    assert(flag_value(a2, r) == Some(remote_text));
    assert(flag_value(a1, r) == Some(remote_text));
    assert(flag_value(a, r) == Some(remote_text));
    law_decide_reads_base_and_remote(a, local_text, base_text, remote_text, local, base, remote);
}

} // verus!
