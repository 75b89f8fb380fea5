//! What a device remembers between sync runs.
use vstd::prelude::*;

use crate::revision::{same_optional_revision, Revision};
use vstd::std_specs::cmp::PartialEqSpecImpl;
use crate::text::{decimal, decimal_string, owned, push_str};

verus! {

/// The state a device keeps: its id and the revision it last agreed on with the remote.
#[derive(Debug, Clone)]
pub struct LocalState {
    pub schema_version: u32,
    pub device_id: String,
    pub base_revision: Option<Revision>,
}

impl PartialEq for LocalState {
    fn eq(&self, other: &Self) -> (r: bool) {
        self.schema_version == other.schema_version && self.device_id == other.device_id
            && same_optional_revision(&self.base_revision, &other.base_revision)
    }
}

impl Eq for LocalState {
}

impl PartialEqSpecImpl for LocalState {
    open spec fn obeys_eq_spec() -> bool {
        true
    }

    open spec fn eq_spec(&self, other: &Self) -> bool {
        self.schema_version == other.schema_version && self.device_id@ == other.device_id@
            && self.base_revision.deep_view() == other.base_revision.deep_view()
    }
}

/// Why a local state could not be read, written or accepted.
#[derive(Debug)]
pub enum LocalStateError {
    Io(std::io::Error),
    Json(serde_json::Error),
    UnsupportedSchema { schema_version: u32 },
}

/// Whether `validate` accepts a local state: it is of the current schema.
pub open spec fn local_state_accepted(s: LocalState) -> bool {
    s.schema_version == LocalState::CURRENT_SCHEMA_VERSION
}

impl LocalState {
    /// The schema version this library reads and writes.
    pub const CURRENT_SCHEMA_VERSION: u32 = 1;

    /// The state of a device that has not synced yet.
    pub fn new(device_id: &str) -> (r: Self)
        ensures
            r.schema_version == LocalState::CURRENT_SCHEMA_VERSION,
            local_state_accepted(r),
            r.device_id@ == device_id@,
            r.base_revision is None,
    {
        LocalState {
            schema_version: LocalState::CURRENT_SCHEMA_VERSION,
            device_id: owned(device_id),
            base_revision: None,
        }
    }

    /// The same state with a new base revision.
    pub fn with_base_revision(&self, base_revision: Revision) -> (r: Self)
        ensures
            r.schema_version == self.schema_version,
            local_state_accepted(r) == local_state_accepted(*self),
            r.device_id@ == self.device_id@,
            r.base_revision.deep_view() == Some(base_revision@),
    {
        LocalState {
            schema_version: self.schema_version,
            device_id: self.device_id.clone(),
            base_revision: Some(base_revision),
        }
    }

    /// Accepts a state of the current schema only.
    pub fn validate(&self) -> (r: Result<(), LocalStateError>)
        ensures
            r is Ok <==> local_state_accepted(*self),
            r matches Err(e) ==> e == (LocalStateError::UnsupportedSchema {
                schema_version: self.schema_version,
            }),
    {
        if self.schema_version != LocalState::CURRENT_SCHEMA_VERSION {
            return Err(LocalStateError::UnsupportedSchema { schema_version: self.schema_version });
        }
        Ok(())
    }
}

/// The description of a local state error, given the description of the I/O or JSON error it
/// carries (`detail`, unused for an unsupported schema).
pub open spec fn local_state_error_text(e: LocalStateError, detail: Seq<char>) -> Seq<char> {
    match e {
        LocalStateError::Io(_) => "local state IO error: "@ + detail,
        LocalStateError::Json(_) => "local state JSON error: "@ + detail,
        LocalStateError::UnsupportedSchema { schema_version } =>
            "unsupported local state schema version: "@ + decimal(schema_version as nat),
    }
}

impl LocalStateError {
    /// The description of this error; `detail` is the description of the I/O or JSON error it
    /// carries.
    pub fn message(&self, detail: &str) -> (r: String)
        ensures
            r@ == local_state_error_text(*self, detail@),
    {
        match self {
            LocalStateError::Io(_) => {
                let mut s = owned("local state IO error: ");
                push_str(&mut s, detail);
                s
            },
            LocalStateError::Json(_) => {
                let mut s = owned("local state JSON error: ");
                push_str(&mut s, detail);
                s
            },
            LocalStateError::UnsupportedSchema { schema_version } => {
                let mut s = owned("unsupported local state schema version: ");
                let n = decimal_string(*schema_version as u64);
                push_str(&mut s, n.as_str());
                s
            },
        }
    }
}

} // verus!
