//! The manifest that names the remote canonical revision.
use vstd::prelude::*;

use crate::revision::Revision;
use vstd::std_specs::cmp::PartialEqSpecImpl;
use crate::text::{decimal, decimal_string, owned, push_str};

verus! {

/// The manifest of the remote canonical database: which revision it is, when and by whom it
/// was published.
#[derive(Debug, Clone)]
pub struct Manifest {
    pub schema_version: u32,
    pub revision: Revision,
    pub updated_at: String,
    pub updated_by: String,
}

impl PartialEq for Manifest {
    fn eq(&self, other: &Self) -> (r: bool) {
        self.schema_version == other.schema_version && self.revision.same(&other.revision)
            && self.updated_at == other.updated_at && self.updated_by == other.updated_by
    }
}

impl Eq for Manifest {
}

impl PartialEqSpecImpl for Manifest {
    open spec fn obeys_eq_spec() -> bool {
        true
    }

    open spec fn eq_spec(&self, other: &Self) -> bool {
        self.schema_version == other.schema_version && self.revision@ == other.revision@
            && self.updated_at@ == other.updated_at@ && self.updated_by@ == other.updated_by@
    }
}

/// Why a manifest could not be read, written or accepted.
#[derive(Debug)]
pub enum ManifestError {
    Io(std::io::Error),
    Json(serde_json::Error),
    UnsupportedSchema { schema_version: u32 },
}

/// Whether `validate` accepts a manifest: it is of the current schema.
pub open spec fn manifest_accepted(m: Manifest) -> bool {
    m.schema_version == Manifest::CURRENT_SCHEMA_VERSION
}

impl Manifest {
    /// The schema version this library reads and writes.
    pub const CURRENT_SCHEMA_VERSION: u32 = 1;

    /// A manifest of the current schema.
    pub fn new(revision: Revision, updated_at: String, updated_by: String) -> (r: Self)
        ensures
            r.schema_version == Manifest::CURRENT_SCHEMA_VERSION,
            manifest_accepted(r),
            r.revision@ == revision@,
            r.updated_at@ == updated_at@,
            r.updated_by@ == updated_by@,
    {
        Manifest { schema_version: Manifest::CURRENT_SCHEMA_VERSION, revision, updated_at, updated_by }
    }

    /// Accepts a manifest of the current schema only.
    pub fn validate(&self) -> (r: Result<(), ManifestError>)
        ensures
            r is Ok <==> manifest_accepted(*self),
            r matches Err(e) ==> e == (ManifestError::UnsupportedSchema {
                schema_version: self.schema_version,
            }),
    {
        if self.schema_version != Manifest::CURRENT_SCHEMA_VERSION {
            return Err(ManifestError::UnsupportedSchema { schema_version: self.schema_version });
        }
        Ok(())
    }
}

/// The description of a manifest error, given the description of the I/O or JSON error it
/// carries (`detail`, unused for an unsupported schema).
pub open spec fn manifest_error_text(e: ManifestError, detail: Seq<char>) -> Seq<char> {
    match e {
        ManifestError::Io(_) => "manifest IO error: "@ + detail,
        ManifestError::Json(_) => "manifest JSON error: "@ + detail,
        ManifestError::UnsupportedSchema { schema_version } => "unsupported manifest schema version: "@
            + decimal(schema_version as nat),
    }
}

impl ManifestError {
    /// The description of this error; `detail` is the description of the I/O or JSON error it
    /// carries.
    pub fn message(&self, detail: &str) -> (r: String)
        ensures
            r@ == manifest_error_text(*self, detail@),
    {
        match self {
            ManifestError::Io(_) => {
                let mut s = owned("manifest IO error: ");
                push_str(&mut s, detail);
                s
            },
            ManifestError::Json(_) => {
                let mut s = owned("manifest JSON error: ");
                push_str(&mut s, detail);
                s
            },
            ManifestError::UnsupportedSchema { schema_version } => {
                let mut s = owned("unsupported manifest schema version: ");
                let n = decimal_string(*schema_version as u64);
                push_str(&mut s, n.as_str());
                s
            },
        }
    }
}

} // verus!
