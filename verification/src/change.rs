//! Requested changes to writable records, their previews and their results.

use crate::diagnostic::Diagnostic;
use crate::draft::render_draft;
use crate::record::{RecordDraft, Revision};
use vstd::prelude::*;

verus! {

/// A change to one record file.
#[derive(Debug, PartialEq, Eq)]
pub enum ChangeRequest {
    Create { path: String, draft: RecordDraft },
    Replace { path: String, draft: RecordDraft },
    Delete { path: String },
}

/// The path a change request targets.
pub open spec fn request_path(r: ChangeRequest) -> Seq<char> {
    match r {
        ChangeRequest::Create { path, .. } => path@,
        ChangeRequest::Replace { path, .. } => path@,
        ChangeRequest::Delete { path } => path@,
    }
}

impl ChangeRequest {
    /// The path this change targets.
    pub fn path(&self) -> (p: &str)
        ensures
            p@ == request_path(*self),
    {
        match self {
            ChangeRequest::Create { path, .. } => path.as_str(),
            ChangeRequest::Replace { path, .. } => path.as_str(),
            ChangeRequest::Delete { path } => path.as_str(),
        }
    }

    /// The bytes a create or replace would write (or why it cannot); none for a delete.
    pub fn rendered(&self) -> (r: Option<Result<Vec<u8>, Diagnostic>>)
        ensures
            match *self {
                ChangeRequest::Delete { .. } => r is None,
                ChangeRequest::Create { path, draft } | ChangeRequest::Replace { path, draft } => match r {
                    Some(x) => crate::draft::render_outcome(path@, draft@, x),
                    None => false,
                },
            },
    {
        match self {
            ChangeRequest::Create { path, draft } => Some(render_draft(path.as_str(), draft)),
            ChangeRequest::Replace { path, draft } => Some(render_draft(path.as_str(), draft)),
            ChangeRequest::Delete { .. } => None,
        }
    }
}

/// What a change would do, checked against the revisions it was previewed at.
#[derive(Debug, PartialEq, Eq)]
pub struct Preview {
    pub request: ChangeRequest,
    pub expected_target_revision: Option<Revision>,
    pub expected_store_revision: Revision,
    pub proposed_store_revision: Revision,
    pub diagnostics: Vec<Diagnostic>,
    pub diff: String,
}

/// What an applied change did.
#[derive(Debug, PartialEq, Eq)]
pub struct ApplyResult {
    pub path: String,
    pub resulting_target_revision: Option<Revision>,
    pub resulting_store_revision: Revision,
    pub diff: String,
}

} // verus!
