//! The outcome of reading a record: a value, or the diagnostic that refused it.

use crate::diagnostic::{Diagnostic, SCHEMA_VERSION};
use vstd::prelude::*;

verus! {

/// A value, or the code, message and field of the diagnostic that refuses it.
pub enum Verdict<T> {
    Accept(T),
    Refuse {
        code: Seq<char>,
        message: Seq<char>,
        field: Option<Seq<char>>,
        section: Option<Seq<char>>,
    },
}

/// A refusal without a field.
pub open spec fn refuse<T>(code: Seq<char>, message: Seq<char>) -> Verdict<T> {
    Verdict::Refuse { code, message, field: None, section: None }
}

/// A refusal that names a field.
pub open spec fn refuse_field<T>(code: Seq<char>, message: Seq<char>, field: Seq<char>) -> Verdict<T> {
    Verdict::Refuse { code, message, field: Some(field), section: None }
}

/// A refusal that names a section.
pub open spec fn refuse_section<T>(code: Seq<char>, message: Seq<char>, section: Seq<char>) -> Verdict<T> {
    Verdict::Refuse { code, message, field: None, section: Some(section) }
}

/// `d` is the diagnostic for `path` that a refusal describes.
pub open spec fn describes<T>(d: Diagnostic, path: Seq<char>, v: Verdict<T>) -> bool {
    match v {
        Verdict::Accept(_) => false,
        Verdict::Refuse { code, message, field, section } => {
            &&& d.schema_version == SCHEMA_VERSION
            &&& d.path@ == path
            &&& d.code@ == code
            &&& d.message@ == message
            &&& match field {
                None => d.field is None,
                Some(f) => d.field is Some && d.field->0@ == f,
            }
            &&& match section {
                None => d.section is None,
                Some(s) => d.section is Some && d.section->0@ == s,
            }
        },
    }
}

/// `ds` is exactly the one diagnostic that a refusal describes.
pub open spec fn refused_with<T>(ds: Seq<Diagnostic>, path: Seq<char>, v: Verdict<T>) -> bool {
    ds.len() == 1 && describes(ds[0], path, v)
}

} // verus!
