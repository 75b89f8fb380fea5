//! Content revisions: `sha256:` followed by the lowercase hex SHA-256 digest of a database.
use sha2::{Digest, Sha256};
use vstd::prelude::*;
use vstd::utf8::*;

use crate::text::{
    ascii_lower, ascii_lowercase, ascii_lowercase_of, chars_of, decimal, decimal_string,
    lemma_encode_utf8_append, owned, push_char, push_str,
};

verus! {

/// The text every revision starts with.
pub open spec fn revision_prefix() -> Seq<char> {
    seq!['s', 'h', 'a', '2', '5', '6', ':']
}

/// `0-9`, `a-f` or `A-F`.
pub open spec fn is_hex_char(c: char) -> bool {
    ('0' <= c && c <= '9') || ('a' <= c && c <= 'f') || ('A' <= c && c <= 'F')
}

/// `0-9` or `a-f`.
pub open spec fn is_lower_hex_char(c: char) -> bool {
    ('0' <= c && c <= '9') || ('a' <= c && c <= 'f')
}

/// The text of a well-formed revision: the prefix and exactly 64 lowercase hex digits.
pub open spec fn is_canonical_revision(t: Seq<char>) -> bool {
    &&& t.len() == 71
    &&& t.take(7) == revision_prefix()
    &&& forall|i: int| 7 <= i < 71 ==> #[trigger] is_lower_hex_char(t[i])
}

/// What parsing a candidate revision text gives: the error, checked in this order, or the
/// lowercase text. The length is counted in UTF-8 bytes.
pub open spec fn parse_revision_spec(v: Seq<char>) -> Result<Seq<char>, RevisionError> {
    if !(v.len() >= 7 && v.take(7) == revision_prefix()) {
        Err(RevisionError::MissingPrefix)
    } else if encode_utf8(v.skip(7)).len() != 64 {
        Err(RevisionError::InvalidLength { actual: encode_utf8(v.skip(7)).len() as usize })
    } else if !(forall|i: int| 7 <= i < v.len() ==> #[trigger] is_hex_char(v[i])) {
        Err(RevisionError::InvalidHex)
    } else {
        Ok(ascii_lowercase(v))
    }
}

/// The lowercase hex digit for a value below sixteen.
pub open spec fn hex_digit(d: int) -> char {
    if d < 10 {
        ((d + 48) as u32) as char
    } else {
        ((d + 87) as u32) as char
    }
}

/// Lowercase hex notation of bytes, two digits per byte, high nibble first.
pub open spec fn hex_lower(bytes: Seq<u8>) -> Seq<char> {
    Seq::new(
        2 * bytes.len(),
        |i: int|
            if i % 2 == 0 {
                hex_digit((bytes[i / 2] / 16) as int)
            } else {
                hex_digit((bytes[i / 2] % 16) as int)
            },
    )
}

/// The SHA-256 digest of the given bytes.
pub uninterp spec fn sha256(data: Seq<u8>) -> Seq<u8>;

/// The revision of a database with the given contents.
pub open spec fn revision_of(data: Seq<u8>) -> Seq<char> {
    revision_prefix() + hex_lower(sha256(data))
}

/// Why a text is not a revision.
#[derive(Debug, Clone, PartialEq, Eq, Structural)]
pub enum RevisionError {
    MissingPrefix,
    InvalidLength { actual: usize },
    InvalidHex,
}

/// The human-readable description of a revision error.
pub open spec fn revision_error_text(e: RevisionError) -> Seq<char> {
    match e {
        RevisionError::MissingPrefix => "revision must start with sha256:"@,
        RevisionError::InvalidLength { actual } => "revision hex must be 64 characters, got "@
            + decimal(actual as nat),
        RevisionError::InvalidHex => "revision contains non-hex characters"@,
    }
}

impl RevisionError {
    /// The human-readable description of this error.
    pub fn message(&self) -> (r: String)
        ensures
            r@ == revision_error_text(*self),
    {
        match self {
            RevisionError::MissingPrefix => owned("revision must start with sha256:"),
            RevisionError::InvalidLength { actual } => {
                let mut s = owned("revision hex must be 64 characters, got ");
                let n = decimal_string(*actual as u64);
                push_str(&mut s, n.as_str());
                s
            },
            RevisionError::InvalidHex => owned("revision contains non-hex characters"),
        }
    }
}

/// A content revision of a database.
#[derive(Debug, Hash)]
pub struct Revision(String);

impl Clone for Revision {
    fn clone(&self) -> (r: Self)
        ensures
            r@ == self@,
    {
        proof {
            use_type_invariant(self);
        }
        Revision(self.0.clone())
    }
}

impl View for Revision {
    type V = Seq<char>;

    closed spec fn view(&self) -> Seq<char> {
        self.0@
    }
}

impl DeepView for Revision {
    type V = Seq<char>;

    open spec fn deep_view(&self) -> Seq<char> {
        self@
    }
}

impl Revision {
    #[verifier::type_invariant]
    closed spec fn well_formed(self) -> bool {
        is_canonical_revision(self.0@)
    }

    /// Parses a revision, accepting upper-case hex digits and storing them in lower case.
    pub fn parse(value: &str) -> (r: Result<Revision, RevisionError>)
        ensures
            r is Ok <==> parse_revision_spec(value@) is Ok,
            r matches Ok(rev) ==> parse_revision_spec(value@) == Ok::<Seq<char>, RevisionError>(rev@),
            r matches Err(e) ==> parse_revision_spec(value@) == Err::<Seq<char>, RevisionError>(e),
    {
        let cs = chars_of(value);
        let n = cs.len();
        if n < 7 || cs[0] != 's' || cs[1] != 'h' || cs[2] != 'a' || cs[3] != '2' || cs[4] != '5'
            || cs[5] != '6' || cs[6] != ':' {
            proof {
                if value@.len() >= 7 && value@.take(7) == revision_prefix() {
                    assert(value@.take(7)[0] == 's');
                    assert(value@.take(7)[1] == 'h');
                    assert(value@.take(7)[2] == 'a');
                    assert(value@.take(7)[3] == '2');
                    assert(value@.take(7)[4] == '5');
                    assert(value@.take(7)[5] == '6');
                    assert(value@.take(7)[6] == ':');
                }
            }
            return Err(RevisionError::MissingPrefix);
        }
        assert(value@.take(7) =~= revision_prefix());
        let total = value.as_bytes().len();
        proof {
            assert(value@ =~= value@.take(7) + value@.skip(7));
            lemma_encode_utf8_append(value@.take(7), value@.skip(7));
            lemma_prefix_is_ascii();
            is_ascii_chars_encode_utf8(revision_prefix());
            assert(total == encode_utf8(value@).len());
            assert(encode_utf8(value@) == encode_utf8(value@.take(7)) + encode_utf8(value@.skip(7)));
        }
        let hex_len = total - 7;
        if hex_len != 64 {
            return Err(RevisionError::InvalidLength { actual: hex_len });
        }
        let mut i: usize = 7;
        while i < n
            invariant
                7 <= i <= n,
                n == cs.len(),
                cs@ == value@,
                value@.len() >= 7,
                value@.take(7) == revision_prefix(),
                encode_utf8(value@.skip(7)).len() == 64,
                forall|j: int| 7 <= j < i ==> #[trigger] is_hex_char(cs@[j]),
            decreases n - i,
        {
            let c = cs[i];
            if !(('0' <= c && c <= '9') || ('a' <= c && c <= 'f') || ('A' <= c && c <= 'F')) {
                assert(!is_hex_char(value@[i as int]));
                return Err(RevisionError::InvalidHex);
            }
            i = i + 1;
        }
        let lowered = ascii_lowercase_of(&cs);
        proof {
            lemma_prefix_is_ascii();
            assert(is_ascii_chars(value@.skip(7))) by {
                assert forall|j: int| 0 <= j < value@.skip(7).len() implies '\0' <= #[trigger] value@.skip(7)[j] <= '\u{7f}' by {
                    assert(is_hex_char(cs@[j + 7]));
                }
            }
            is_ascii_chars_encode_utf8(value@.skip(7));
            assert forall|j: int| 7 <= j < 71 implies #[trigger] is_lower_hex_char(lowered@[j]) by {
                assert(is_hex_char(cs@[j]));
            }
            assert(lowered@.take(7) =~= revision_prefix());
        }
        Ok(Revision(lowered))
    }

    /// The revision of a database with the given contents.
    pub fn from_bytes(bytes: &[u8]) -> (r: Revision)
        ensures
            r@ == revision_of(bytes@),
            is_canonical_revision(r@),
    {
        let digest = sha256_digest(bytes);
        Self::from_digest(digest.as_slice()).unwrap()
    }

    /// The revision that names a SHA-256 digest: `sha256:` and the digest in lowercase hex;
    /// `None` unless the digest is 32 bytes long.
    pub fn from_digest(digest: &[u8]) -> (r: Option<Revision>)
        ensures
            r is Some <==> digest@.len() == 32,
            r matches Some(rev) ==> rev@ == revision_prefix() + hex_lower(digest@)
                && is_canonical_revision(rev@),
    {
        if digest.len() != 32 {
            return None;
        }
        let mut text = owned("sha256:");
        proof {
            reveal_strlit("sha256:");
        }
        assert(text@ =~= revision_prefix());
        let mut i: usize = 0;
        while i < digest.len()
            invariant
                0 <= i <= digest.len(),
                digest@.len() == 32,
                text@ == revision_prefix() + hex_lower(digest@.take(i as int)),
            decreases digest.len() - i,
        {
            let b = digest[i];
            let hi = hex_char_of(b / 16);
            let lo = hex_char_of(b % 16);
            push_char(&mut text, hi);
            push_char(&mut text, lo);
            assert(hex_lower(digest@.take(i + 1)) =~= hex_lower(digest@.take(i as int)).push(
                hi,
            ).push(lo));
            i = i + 1;
        }
        assert(digest@.take(32) =~= digest@);
        proof {
            lemma_hex_lower_is_lower_hex(digest@);
            assert(text@.take(7) =~= revision_prefix());
            assert forall|j: int| 7 <= j < 71 implies #[trigger] is_lower_hex_char(text@[j]) by {
                assert(text@[j] == hex_lower(digest@)[j - 7]);
            }
        }
        Some(Revision(text))
    }

    /// The revision text.
    pub fn as_str(&self) -> (r: &str)
        ensures
            r@ == self@,
            is_canonical_revision(self@),
    {
        proof {
            use_type_invariant(self);
        }
        self.0.as_str()
    }

    /// Whether two revisions name the same contents.
    pub fn same(&self, other: &Revision) -> (r: bool)
        ensures
            r == (self@ == other@),
    {
        self.0 == other.0
    }
}

/// Whether two optional revisions are both absent or name the same contents.
pub fn same_optional_revision(a: &Option<Revision>, b: &Option<Revision>) -> (r: bool)
    ensures
        r == (a.deep_view() == b.deep_view()),
{
    match (a, b) {
        (None, None) => true,
        (Some(x), Some(y)) => x.same(y),
        _ => false,
    }
}

impl PartialEq for Revision {
    fn eq(&self, other: &Self) -> (r: bool) {
        self.same(other)
    }
}

impl Eq for Revision {
}

impl vstd::std_specs::cmp::PartialEqSpecImpl for Revision {
    open spec fn obeys_eq_spec() -> bool {
        true
    }

    open spec fn eq_spec(&self, other: &Self) -> bool {
        self@ == other@
    }
}

/// The SHA-256 digest of the given bytes.
/// Trusted: `sha2::Sha256::digest`; claims that the 32-byte result is a function of the input alone.
#[verifier::external_body]
fn sha256_digest(data: &[u8]) -> (d: Vec<u8>)
    ensures
        d@ == sha256(data@),
        d@.len() == 32,
{
    Sha256::digest(data).to_vec()
}

fn hex_char_of(d: u8) -> (c: char)
    requires
        d < 16,
    ensures
        c == hex_digit(d as int),
{
    if d < 10 {
        ((d + 48u8) as u8) as char
    } else {
        ((d + 87u8) as u8) as char
    }
}

proof fn lemma_prefix_is_ascii()
    ensures
        is_ascii_chars(revision_prefix()),
{
}

proof fn lemma_hex_lower_is_lower_hex(bytes: Seq<u8>)
    ensures
        forall|j: int| 0 <= j < hex_lower(bytes).len() ==> #[trigger] is_lower_hex_char(hex_lower(bytes)[j]),
{
    assert forall|j: int| 0 <= j < hex_lower(bytes).len() implies #[trigger] is_lower_hex_char(hex_lower(bytes)[j]) by {
        let b = bytes[j / 2];
        assert(b / 16 < 16);
        assert(b % 16 < 16);
    }
}

/// A well-formed revision text parses back to itself: the text that `as_str` gives is accepted
/// by `parse` and yields the same revision.
pub proof fn law_revision_text_round_trips(t: Seq<char>)
    requires
        is_canonical_revision(t),
    ensures
        parse_revision_spec(t) == Ok::<Seq<char>, RevisionError>(t),
{
    assert(t.skip(7).len() == 64);
    assert(is_ascii_chars(t.skip(7))) by {
        assert forall|i: int| 0 <= i < t.skip(7).len() implies '\0' <= #[trigger] t.skip(7)[i] <= '\u{7f}' by {
            assert(is_lower_hex_char(t[i + 7]));
        }
    }
    is_ascii_chars_encode_utf8(t.skip(7));
    assert forall|i: int| 7 <= i < t.len() implies #[trigger] is_hex_char(t[i]) by {
        assert(is_lower_hex_char(t[i]));
    }
    assert forall|i: int| 0 <= i < t.len() implies ascii_lower(t[i]) == t[i] by {
        if i < 7 {
            assert(t.take(7)[i] == t[i]);
        } else {
            assert(is_lower_hex_char(t[i]));
        }
    }
    assert(ascii_lowercase(t) =~= t);
}

/// Parsing is idempotent: what `parse` accepts it stores as a well-formed revision, which
/// parses to itself again.
pub proof fn law_parse_is_idempotent(v: Seq<char>)
    requires
        parse_revision_spec(v) is Ok,
    ensures
        is_canonical_revision(parse_revision_spec(v)->Ok_0),
        parse_revision_spec(parse_revision_spec(v)->Ok_0) == parse_revision_spec(v),
{
    let t = ascii_lowercase(v);
    is_ascii_chars_encode_utf8(revision_prefix());
    assert(v =~= v.take(7) + v.skip(7));
    lemma_encode_utf8_append(v.take(7), v.skip(7));
    assert(is_ascii_chars(v.skip(7))) by {
        assert forall|i: int| 0 <= i < v.skip(7).len() implies '\0' <= #[trigger] v.skip(7)[i] <= '\u{7f}' by {
            assert(is_hex_char(v[i + 7]));
        }
    }
    is_ascii_chars_encode_utf8(v.skip(7));
    assert(v.len() == 71);
    assert(t.take(7) =~= revision_prefix()) by {
        assert forall|i: int| 0 <= i < 7 implies t.take(7)[i] == revision_prefix()[i] by {
            assert(v.take(7)[i] == v[i]);
        }
    }
    assert forall|i: int| 7 <= i < 71 implies #[trigger] is_lower_hex_char(t[i]) by {
        assert(is_hex_char(v[i]));
    }
    law_revision_text_round_trips(t);
}

} // verus!
