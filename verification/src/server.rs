//! The decisions of the loopback workbench server: which requests it answers, with
//! what, and which writes it allows.

use crate::rendering::ascii_lower;
use crate::store::StoreError;
use crate::text::{chars_of, push_str, split_seq, trim, trim_seq};
use crate::work_item::{decimal, decimal_string};
use vstd::prelude::*;

verus! {

/// The header that carries the write capability.
pub const CAPABILITY_HEADER: &'static str = "X-Casefile-Write-Capability";

/// An HTTP method, as far as routing tells methods apart.
#[derive(Clone, Copy, Debug, PartialEq, Eq, Structural)]
pub enum HttpMethod {
    Get,
    Post,
    Other,
}

/// A refused request: its status, message and, for stale revisions, a code.
#[derive(Debug, PartialEq, Eq)]
pub struct ApiError {
    pub status: u16,
    pub message: String,
    pub code: Option<&'static str>,
}

/// Two texts are equal ignoring ASCII case.
pub open spec fn same_ignoring_case(a: Seq<char>, b: Seq<char>) -> bool {
    a.len() == b.len() && forall|i: int| 0 <= i < a.len() ==> ascii_lower(#[trigger] a[i]) == ascii_lower(b[i])
}

/// `str::eq_ignore_ascii_case`.
pub fn eq_ignore_ascii_case(a: &str, b: &str) -> (r: bool)
    ensures
        r == same_ignoring_case(a@, b@),
{
    let x = chars_of(a);
    let y = chars_of(b);
    if x.len() != y.len() {
        return false;
    }
    let mut i: usize = 0;
    while i < x.len()
        invariant
            x@ == a@,
            y@ == b@,
            x@.len() == y@.len(),
            i <= x@.len(),
            forall|j: int| 0 <= j < i ==> ascii_lower(#[trigger] x@[j]) == ascii_lower(y@[j]),
        decreases x.len() - i,
    {
        let c = x[i];
        let d = y[i];
        let lc = if 'A' <= c && c <= 'Z' {
            ((c as u32) + 32) as u8 as char
        } else {
            c
        };
        let ld = if 'A' <= d && d <= 'Z' {
            ((d as u32) + 32) as u8 as char
        } else {
            d
        };
        assert(lc == ascii_lower(c)) by {
            if 'A' <= c && c <= 'Z' {
                assert(((c as u32) + 32) as u8 as char == ((c as u32) + 32) as char);
            }
        }
        assert(ld == ascii_lower(d)) by {
            if 'A' <= d && d <= 'Z' {
                assert(((d as u32) + 32) as u8 as char == ((d as u32) + 32) as char);
            }
        }
        if lc != ld {
            return false;
        }
        i = i + 1;
    }
    true
}

/// The loopback authorities a server on `port` answers to.
pub open spec fn authorities(port: u16) -> Seq<Seq<char>> {
    seq!["127.0.0.1:"@ + decimal(port as nat), "localhost:"@ + decimal(port as nat)]
}

/// Accepts a request only when its `Host` is the loopback authority the server is bound to.
pub fn validate_authority(host: Option<&str>, port: u16) -> (r: Result<(), ApiError>)
    ensures
        match host {
            None => r matches Err(e) && e.status == 400 && e.message@ == "Host is required"@ && e.code is None,
            Some(h) => if same_ignoring_case(authorities(port)[0], h@) || same_ignoring_case(authorities(port)[1], h@) {
                r is Ok
            } else {
                r matches Err(e) && e.status == 400 && e.message@ == "Host is not the bound loopback authority"@
                    && e.code is None
            },
        },
{
    proof {
        reveal_strlit("127.0.0.1:");
        reveal_strlit("localhost:");
    }
    let host = match host {
        Some(h) => h,
        None => return Err(ApiError { status: 400, message: "Host is required".to_owned(), code: None }),
    };
    let mut first = "127.0.0.1:".to_owned();
    push_str(&mut first, decimal_string(port as u64).as_str());
    let mut second = "localhost:".to_owned();
    push_str(&mut second, decimal_string(port as u64).as_str());
    if eq_ignore_ascii_case(first.as_str(), host) || eq_ignore_ascii_case(second.as_str(), host) {
        Ok(())
    } else {
        Err(ApiError { status: 400, message: "Host is not the bound loopback authority".to_owned(), code: None })
    }
}

/// The media type of a `Content-Type` value: the text before any `;`, trimmed.
pub open spec fn media_type(value: Seq<char>) -> Seq<char> {
    trim_seq(split_seq(value, ';')[0])
}

/// Whether a `Content-Type` value declares JSON.
pub fn is_json(content_type: Option<&str>) -> (r: bool)
    ensures
        r == match content_type {
            Some(v) => same_ignoring_case(media_type(v@), "application/json"@),
            None => false,
        },
{
    let v = match content_type {
        Some(v) => v,
        None => return false,
    };
    let cs = chars_of(v);
    let parts = crate::text::split_chars(cs.as_slice(), ';');
    proof {
        crate::text::lemma_split_nonempty(v@, ';');
    }
    let first = crate::text::string_of(parts[0].as_slice());
    let kind = trim(first.as_str());
    eq_ignore_ascii_case(kind.as_str(), "application/json")
}

/// One of the JSON endpoints.
#[derive(Clone, Copy, Debug, PartialEq, Eq, Structural)]
pub enum Endpoint {
    Query,
    Preview,
    Apply,
}

/// What the server does with a request.
#[derive(Debug, PartialEq, Eq)]
pub enum Route {
    /// Serves an embedded asset with its content type.
    Asset { path: &'static str, content_type: &'static str },
    /// Reads the JSON body and answers at an endpoint.
    Json(Endpoint),
    Refused(ApiError),
}

/// The route of a request by its method, path and content type: the page and its two
/// assets by GET, the three JSON endpoints by POST with a JSON body; another method on
/// a known path is not allowed, and other paths are not found.
pub open spec fn route_of(method: HttpMethod, path: Seq<char>, content_type: Option<Seq<char>>) -> Option<(int, Seq<char>)> {
    let known = path == "/"@ || path == "/assets/app.js"@ || path == "/assets/app.css"@ || path == "/api/query"@ || path
        == "/api/preview"@ || path == "/api/apply"@;
    let api = path == "/api/query"@ || path == "/api/preview"@ || path == "/api/apply"@;
    if method == HttpMethod::Get && !api && known {
        None
    } else if method == HttpMethod::Post && api {
        match content_type {
            Some(v) => if same_ignoring_case(media_type(v), "application/json"@) {
                None
            } else {
                Some((415, "Content-Type must be application/json"@))
            },
            None => Some((415, "Content-Type must be application/json"@)),
        }
    } else if known {
        Some((405, "method not allowed"@))
    } else {
        Some((404, "route not found"@))
    }
}

/// Routes a request.
pub fn route(method: HttpMethod, path: &str, content_type: Option<&str>) -> (r: Route)
    ensures
        match route_of(
            method,
            path@,
            match content_type {
                Some(v) => Some(v@),
                None => None,
            },
        ) {
            Some((status, message)) => r matches Route::Refused(e) && e.status == status && e.message@ == message && e.code is None,
            None => match r {
                Route::Asset { path: p, content_type: t } => method == HttpMethod::Get && p@ == path@ && t@ == (if path@
                    == "/"@ {
                    "text/html; charset=utf-8"@
                } else if path@ == "/assets/app.js"@ {
                    "text/javascript; charset=utf-8"@
                } else {
                    "text/css; charset=utf-8"@
                }),
                Route::Json(e) => method == HttpMethod::Post && e == (if path@ == "/api/query"@ {
                    Endpoint::Query
                } else if path@ == "/api/preview"@ {
                    Endpoint::Preview
                } else {
                    Endpoint::Apply
                }),
                Route::Refused(_) => false,
            },
        },
{
    let is_page = crate::text::str_eq(path, "/");
    let is_js = crate::text::str_eq(path, "/assets/app.js");
    let is_css = crate::text::str_eq(path, "/assets/app.css");
    let is_query = crate::text::str_eq(path, "/api/query");
    let is_preview = crate::text::str_eq(path, "/api/preview");
    let is_apply = crate::text::str_eq(path, "/api/apply");
    let api = is_query || is_preview || is_apply;
    let known = is_page || is_js || is_css || api;
    if method == HttpMethod::Get && !api && known {
        if is_page {
            return Route::Asset { path: "/", content_type: "text/html; charset=utf-8" };
        } else if is_js {
            return Route::Asset { path: "/assets/app.js", content_type: "text/javascript; charset=utf-8" };
        } else {
            return Route::Asset { path: "/assets/app.css", content_type: "text/css; charset=utf-8" };
        }
    }
    if method == HttpMethod::Post && api {
        if !is_json(content_type) {
            return Route::Refused(ApiError { status: 415, message: "Content-Type must be application/json".to_owned(), code: None });
        }
        if is_query {
            return Route::Json(Endpoint::Query);
        } else if is_preview {
            return Route::Json(Endpoint::Preview);
        } else {
            return Route::Json(Endpoint::Apply);
        }
    }
    if known {
        Route::Refused(ApiError { status: 405, message: "method not allowed".to_owned(), code: None })
    } else {
        Route::Refused(ApiError { status: 404, message: "route not found".to_owned(), code: None })
    }
}

/// Allows a write only when writes were granted at launch and the request presents the
/// launch capability.
pub fn check_write(write: bool, capability: &str, presented: Option<&str>) -> (r: Result<(), ApiError>)
    ensures
        if !write {
            r matches Err(e) && e.status == 403 && e.message@ == "writes were not granted at launch"@
        } else if presented.is_none() || presented.unwrap()@ != capability@ {
            r matches Err(e) && e.status == 403 && e.message@ == "write capability is missing or invalid"@
        } else {
            r is Ok
        },
{
    if !write {
        return Err(ApiError { status: 403, message: "writes were not granted at launch".to_owned(), code: None });
    }
    let ok = match presented {
        Some(p) => crate::text::str_eq(p, capability),
        None => false,
    };
    if !ok {
        return Err(ApiError { status: 403, message: "write capability is missing or invalid".to_owned(), code: None });
    }
    Ok(())
}

impl StoreError {
    /// The message of the failure.
    pub fn message(&self) -> (r: String)
        ensures
            match self {
                StoreError::Io(t) => r@ == "I/O error: "@ + t@,
                StoreError::Invalid(m) => r@ == "operation is invalid: "@ + m@,
                StoreError::StaleStoreRevision => r@ == "stale store revision"@,
                StoreError::StaleTargetRevision => r@ == "stale target revision"@,
            },
    {
        proof {
            reveal_strlit("operation is invalid: ");
            reveal_strlit("I/O error: ");
        }
        match self {
            StoreError::Io(t) => {
                let mut r = "I/O error: ".to_owned();
                push_str(&mut r, t.as_str());
                r
            },
            StoreError::Invalid(m) => {
                let mut r = "operation is invalid: ".to_owned();
                push_str(&mut r, m.as_str());
                r
            },
            StoreError::StaleStoreRevision => "stale store revision".to_owned(),
            StoreError::StaleTargetRevision => "stale target revision".to_owned(),
        }
    }
}

/// A refused write: stale revisions conflict (409, code `stale_revision`), other
/// failures are bad requests.
pub fn store_error(error: &StoreError) -> (r: ApiError)
    ensures
        match error {
            StoreError::StaleStoreRevision | StoreError::StaleTargetRevision => r.status == 409 && (r.code matches Some(c)
                && c@ == "stale_revision"@),
            _ => r.status == 400 && r.code is None,
        },
        match error {
            StoreError::Io(t) => r.message@ == "I/O error: "@ + t@,
            StoreError::Invalid(m) => r.message@ == "operation is invalid: "@ + m@,
            StoreError::StaleStoreRevision => r.message@ == "stale store revision"@,
            StoreError::StaleTargetRevision => r.message@ == "stale target revision"@,
        },
{
    let stale = match error {
        StoreError::StaleStoreRevision | StoreError::StaleTargetRevision => true,
        _ => false,
    };
    let message = error.message();
    if stale {
        ApiError { status: 409, message, code: Some("stale_revision") }
    } else {
        ApiError { status: 400, message, code: None }
    }
}

} // verus!
