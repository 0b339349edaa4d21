//! The decisions of the command line: what a check reports and how it exits, and the
//! paths that commands derive from an investigation.

use crate::activation::ActivationState;
use crate::diagnostic::{Diagnostic, diag_views};
use crate::progress_store::scoped;
use crate::store::{trim_end_slashes, trim_slashes};
use crate::text::{chars_of, push_str, split_seq, starts_with};
use vstd::prelude::*;

verus! {

/// Whether a root is valid: unknown when it is not activated, else whether it is
/// actively activated without diagnostics.
pub fn check_validity(activation: ActivationState, diagnostics_empty: bool) -> (r: Option<bool>)
    ensures
        r == match activation {
            ActivationState::Unactivated => None,
            ActivationState::Active => Some(diagnostics_empty),
            ActivationState::Invalid => Some(false),
        },
{
    match activation {
        ActivationState::Unactivated => None,
        ActivationState::Active => Some(diagnostics_empty),
        ActivationState::Invalid => Some(false),
    }
}

/// A check fails when the root is invalid, or when activation is required and the
/// root is not activated.
pub fn check_fails(valid: Option<bool>, require_activation: bool) -> (r: bool)
    ensures
        r == (valid == Some(false) || (require_activation && valid is None)),
{
    match valid {
        Some(false) => true,
        Some(true) => false,
        None => require_activation,
    }
}

/// The diagnostics a check reports: all of them, or those under an investigation.
pub fn check_diagnostics(diagnostics: &Vec<Diagnostic>, investigation: Option<&str>) -> (r: Vec<Diagnostic>)
    ensures
        match investigation {
            None => r@ == diagnostics@,
            Some(i) => diag_views(r@) == scoped(diag_views(diagnostics@), trim_slashes(i@) + "/"@),
        },
{
    proof {
        reveal_strlit("/");
    }
    let ghost dv = diag_views(diagnostics@);
    let prefix = match investigation {
        None => {
            let mut out: Vec<Diagnostic> = Vec::new();
            let mut i: usize = 0;
            while i < diagnostics.len()
                invariant
                    i <= diagnostics@.len(),
                    out@ == diagnostics@.take(i as int),
                decreases diagnostics.len() - i,
            {
                out.push(diagnostics[i].clone());
                i = i + 1;
                assert(out@ =~= diagnostics@.take(i as int));
            }
            assert(diagnostics@.take(i as int) =~= diagnostics@);
            return out;
        },
        Some(inv) => {
            let mut p = trim_end_slashes(inv);
            push_str(&mut p, "/");
            p
        },
    };
    let mut out: Vec<Diagnostic> = Vec::new();
    let mut i: usize = 0;
    assert(dv.take(0) =~= Seq::<crate::diagnostic::DiagView>::empty());
    assert(diag_views(out@) =~= Seq::<crate::diagnostic::DiagView>::empty());
    while i < diagnostics.len()
        invariant
            dv == diag_views(diagnostics@),
            i <= dv.len(),
            diag_views(out@) == scoped(dv.take(i as int), prefix@),
        decreases diagnostics.len() - i,
    {
        proof {
            assert(dv.take(i + 1).drop_last() =~= dv.take(i as int));
            assert(dv.take(i + 1).last() == diagnostics@[i as int]@);
        }
        if starts_with(diagnostics[i].path.as_str(), prefix.as_str()) {
            let ghost prior = diag_views(out@);
            out.push(diagnostics[i].clone());
            assert(diag_views(out@) =~= prior.push(diagnostics@[i as int]@));
        }
        i = i + 1;
    }
    assert(dv.take(i as int) =~= dv);
    out
}

/// An investigation path that stays inside the root: not empty, not absolute, no
/// backslash, and no empty, `.` or `..` component.
pub open spec fn contained_investigation(inv: Seq<char>) -> bool {
    &&& inv.len() > 0
    &&& inv[0] != '/'
    &&& !inv.contains('\\')
    &&& forall|i: int|
        0 <= i < split_seq(inv, '/').len() ==> {
            let c = #[trigger] split_seq(inv, '/')[i];
            c.len() > 0 && c != "."@ && c != ".."@
        }
}

/// The path of an investigation's implementation strategy, when the investigation path
/// is contained.
pub fn strategy_path(investigation: &str) -> (r: Result<String, &'static str>)
    ensures
        if contained_investigation(trim_slashes(investigation@)) {
            r matches Ok(p) && p@ == trim_slashes(investigation@) + "/strategy/implementation.toml"@
        } else {
            r matches Err(m) && m@ == "investigation path must be a contained relative path"@
        },
{
    proof {
        reveal_strlit(".");
        reveal_strlit("..");
        reveal_strlit("/strategy/implementation.toml");
    }
    let inv = trim_end_slashes(investigation);
    let cs = chars_of(inv.as_str());
    if cs.len() == 0 || cs[0] == '/' {
        return Err("investigation path must be a contained relative path");
    }
    let mut i: usize = 0;
    while i < cs.len()
        invariant
            cs@ == inv@,
            inv@ == trim_slashes(investigation@),
            i <= cs@.len(),
            forall|j: int| 0 <= j < i ==> cs@[j] != '\\',
        decreases cs.len() - i,
    {
        if cs[i] == '\\' {
            assert(inv@.contains('\\')) by {
                assert(inv@[i as int] == '\\');
            }
            return Err("investigation path must be a contained relative path");
        }
        i = i + 1;
    }
    assert(!inv@.contains('\\'));
    let parts = crate::text::split_chars(cs.as_slice(), '/');
    let ghost ps = split_seq(inv@, '/');
    let mut k: usize = 0;
    while k < parts.len()
        invariant
            cs@ == inv@,
            inv@ == trim_slashes(investigation@),
            ps == split_seq(inv@, '/'),
            parts@.len() == ps.len(),
            forall|a: int| 0 <= a < parts@.len() ==> #[trigger] parts@[a]@ == ps[a],
            k <= parts@.len(),
            forall|a: int| 0 <= a < k ==> { let c = #[trigger] ps[a]; c.len() > 0 && c != "."@ && c != ".."@ },
        decreases parts.len() - k,
    {
        let part = &parts[k];
        let bad = part.len() == 0 || (part.len() == 1 && part[0] == '.') || (part.len() == 2 && part[0] == '.' && part[1] == '.');
        proof {
            reveal_strlit(".");
            reveal_strlit("..");
            let c = ps[k as int];
            assert(part@ == c);
            if c == "."@ {
                assert(c.len() == 1 && c[0] == '.');
            }
            if c == ".."@ {
                assert(c.len() == 2 && c[0] == '.' && c[1] == '.');
            }
            if !bad {
                if part@.len() == 1 {
                    assert(c != "."@);
                }
                if part@.len() == 2 {
                    assert(c != ".."@);
                }
            }
        }
        if bad {
            proof {
                reveal_strlit(".");
                reveal_strlit("..");
                let c = split_seq(inv@, '/')[k as int];
                assert(part@ == c);
                if part@.len() == 1 {
                    assert(c =~= "."@);
                } else if part@.len() == 2 {
                    assert(c =~= ".."@);
                }
                assert(!(c.len() > 0 && c != "."@ && c != ".."@));
                assert(!contained_investigation(inv@));
            }
            return Err("investigation path must be a contained relative path");
        }
        k = k + 1;
    }
    let mut p = inv;
    push_str(&mut p, "/strategy/implementation.toml");
    Ok(p)
}

} // verus!
