//! Where records live: contained relative paths and the kind of record a path holds.

use crate::activation::{Activation, ActivationView, all_bases, bases_of, slug_list, slugs};
use crate::board::strs;
use crate::record::Kind;
use crate::text::{chars_of, contains, contains_seq, ends_with, is_prefix, is_suffix, push_str, split_chars, split_seq, starts_with, strip_prefix, strip_prefix_seq};
use vstd::prelude::*;

verus! {

/// A contained relative path, as `std::path::Path` reads it on Unix: not empty, not
/// absolute, not starting with `.`, and with no `..` component. Repeated separators
/// and inner `.` components are normalised away by `Path::components`.
pub open spec fn safe_relative_spec(p: Seq<char>) -> bool {
    let segs = split_seq(p, '/');
    &&& p.len() > 0
    &&& p[0] != '/'
    &&& segs[0] != "."@
    &&& forall|i: int| 0 <= i < segs.len() ==> #[trigger] segs[i] != ".."@
}

fn segment_is(seg: &Vec<char>, lit: &str) -> (r: bool)
    ensures
        r == (seg@ == lit@),
{
    let l = chars_of(lit);
    if seg.len() != l.len() {
        return false;
    }
    let r = crate::text::seq_starts_with(seg.as_slice(), l.as_slice());
    assert(seg@.subrange(0, l@.len() as int) =~= seg@);
    r
}

/// Whether a path is a contained relative path.
pub fn safe_relative(path: &str) -> (r: bool)
    ensures
        r == safe_relative_spec(path@),
{
    let cs = chars_of(path);
    if cs.len() == 0 || cs[0] == '/' {
        return false;
    }
    let segs = split_chars(cs.as_slice(), '/');
    proof {
        crate::text::lemma_split_nonempty(path@, '/');
    }
    if segment_is(&segs[0], ".") {
        return false;
    }
    let mut i: usize = 0;
    while i < segs.len()
        invariant
            cs@ == path@,
            segs@.len() == split_seq(path@, '/').len(),
            forall|k: int| 0 <= k < segs@.len() ==> #[trigger] segs@[k]@ == split_seq(path@, '/')[k],
            i <= segs@.len(),
            forall|k: int| 0 <= k < i ==> #[trigger] split_seq(path@, '/')[k] != ".."@,
        decreases segs.len() - i,
    {
        if segment_is(&segs[i], "..") {
            return false;
        }
        i = i + 1;
    }
    true
}

/// A decision file name: a `.md` name with a dash.
pub open spec fn is_decision_name(n: Seq<char>) -> bool {
    is_suffix(".md"@, n) && contains_seq(n, "-"@)
}

/// The path lies in some project's decision log with a decision file name.
pub open spec fn in_decision_log(path: Seq<char>, slugs: Seq<Seq<char>>) -> bool {
    exists|i: int|
        0 <= i < slugs.len() && (#[trigger] strip_prefix_seq(path, "projects/"@ + slugs[i] + "/decision-log/"@)
            matches Some(n) && is_decision_name(n))
}

/// Among the bases that hold `path` beneath them, the longest; the last of equals.
pub open spec fn best_base(path: Seq<char>, bases: Seq<Seq<char>>) -> Option<Seq<char>>
    decreases bases.len(),
{
    if bases.len() == 0 {
        None
    } else {
        let b = best_base(path, bases.drop_last());
        let last = bases.last();
        if is_prefix(last + "/"@, path) && (b is None || last.len() >= b->0.len()) {
            Some(last)
        } else {
            b
        }
    }
}

/// The statuses a work item directory may be named for.
pub open spec fn status_dir_name(s: Seq<char>) -> bool {
    s == "provisional"@ || s == "accepted"@ || s == "rejected"@
}

/// The kind a path below an investigation directory holds, by its segments.
pub open spec fn kind_of_segments(s: Seq<Seq<char>>) -> Option<Kind> {
    if s == seq!["request.md"@] {
        Some(Kind::Request)
    } else if s == seq!["final-disposition.md"@] {
        Some(Kind::Closeout)
    } else if s == seq!["implementation-plan"@, "PLAN.md"@] {
        Some(Kind::Plan)
    } else if s == seq!["strategy"@, "bindings.toml"@] {
        Some(Kind::StrategyBinding)
    } else if s.len() == 2 && s[0] == "strategy"@ && (s[1] == "investigation.toml"@ || s[1] == "review.toml"@
        || s[1] == "implementation.toml"@) {
        Some(Kind::Strategy)
    } else if s.len() == 2 && s[0] == "decision-log"@ && is_decision_name(s[1]) {
        Some(Kind::Decision)
    } else if s.len() == 2 && s[0] == "evidence"@ && is_suffix(".md"@, s[1]) {
        Some(Kind::Evidence)
    } else if s.len() >= 2 && s[0] == "review"@ && is_suffix(".md"@, s.last()) {
        Some(Kind::Review)
    } else if s.len() == 3 && (s[0] == "tickets"@ || s[0] == "epics"@) && status_dir_name(s[1]) && is_suffix(
        ".md"@,
        s[2],
    ) {
        Some(
            if s[0] == "tickets"@ {
                Kind::Ticket
            } else {
                Kind::Epic
            },
        )
    } else if s.len() == 2 && s[0] == "boards"@ && is_suffix(".toml"@, s[1]) {
        Some(Kind::Board)
    } else if s == seq!["progress"@, "log.toml"@] {
        Some(Kind::Progress)
    } else {
        None
    }
}

/// The record kind a path holds under an activation: a decision in a project's
/// decision log, or a record below the longest investigation directory holding it.
pub open spec fn kind_for(path: Seq<char>, a: ActivationView) -> Option<Kind> {
    if in_decision_log(path, slugs(a)) {
        Some(Kind::Decision)
    } else {
        match best_base(path, all_bases(a.projects)) {
            None => None,
            Some(b) => kind_of_segments(split_seq(path.skip(b.len() + 1int), '/')),
        }
    }
}

fn is_decision_file(name: &str) -> (r: bool)
    ensures
        r == is_decision_name(name@),
{
    ends_with(name, ".md") && contains(name, "-")
}

fn decision_log_dir(slug: &str) -> (r: String)
    ensures
        r@ == "projects/"@ + slug@ + "/decision-log/"@,
{
    let mut d = "projects/".to_owned();
    push_str(&mut d, slug);
    push_str(&mut d, "/decision-log/");
    d
}

fn seg(segs: &Vec<Vec<char>>, i: usize, lit: &str) -> (r: bool)
    requires
        i < segs@.len(),
    ensures
        r == (segs@[i as int]@ == lit@),
{
    segment_is(&segs[i], lit)
}

fn seg_ends(segs: &Vec<Vec<char>>, i: usize, suffix: &str) -> (r: bool)
    requires
        i < segs@.len(),
    ensures
        r == is_suffix(suffix@, segs@[i as int]@),
{
    let name = crate::text::string_of(segs[i].as_slice());
    ends_with(name.as_str(), suffix)
}

fn kind_of_segs(segs: &Vec<Vec<char>>, Ghost(rest): Ghost<Seq<char>>) -> (r: Option<Kind>)
    requires
        segs@.len() == split_seq(rest, '/').len(),
        forall|k: int| 0 <= k < segs@.len() ==> #[trigger] segs@[k]@ == split_seq(rest, '/')[k],
    ensures
        r == kind_of_segments(split_seq(rest, '/')),
{
    let ghost s = split_seq(rest, '/');
    let n = segs.len();
    proof {
        assert(segs@.map_values(|v: Vec<char>| v@) =~= s);
        if n == 1 {
            assert(s =~= seq![s[0]]);
        }
        if n == 2 {
            assert(s =~= seq![s[0], s[1]]);
        }
    }
    if n == 1 && seg(segs, 0, "request.md") {
        assert(s =~= seq!["request.md"@]);
        return Some(Kind::Request);
    }
    if n == 1 && seg(segs, 0, "final-disposition.md") {
        assert(s =~= seq!["final-disposition.md"@]);
        return Some(Kind::Closeout);
    }
    if n == 2 && seg(segs, 0, "implementation-plan") && seg(segs, 1, "PLAN.md") {
        assert(s =~= seq!["implementation-plan"@, "PLAN.md"@]);
        return Some(Kind::Plan);
    }
    if n == 2 && seg(segs, 0, "strategy") && seg(segs, 1, "bindings.toml") {
        assert(s =~= seq!["strategy"@, "bindings.toml"@]);
        return Some(Kind::StrategyBinding);
    }
    if n == 2 && seg(segs, 0, "strategy") && (seg(segs, 1, "investigation.toml") || seg(segs, 1, "review.toml")
        || seg(segs, 1, "implementation.toml")) {
        return Some(Kind::Strategy);
    }
    if n == 2 && seg(segs, 0, "decision-log") {
        let name = crate::text::string_of(segs[1].as_slice());
        if is_decision_file(name.as_str()) {
            return Some(Kind::Decision);
        }
    }
    if n == 2 && seg(segs, 0, "evidence") && seg_ends(segs, 1, ".md") {
        return Some(Kind::Evidence);
    }
    if n >= 2 && seg(segs, 0, "review") && seg_ends(segs, n - 1, ".md") {
        return Some(Kind::Review);
    }
    if n == 3 && (seg(segs, 0, "tickets") || seg(segs, 0, "epics")) && (seg(segs, 1, "provisional") || seg(
        segs,
        1,
        "accepted",
    ) || seg(segs, 1, "rejected")) && seg_ends(segs, 2, ".md") {
        if seg(segs, 0, "tickets") {
            return Some(Kind::Ticket);
        } else {
            return Some(Kind::Epic);
        }
    }
    if n == 2 && seg(segs, 0, "boards") && seg_ends(segs, 1, ".toml") {
        return Some(Kind::Board);
    }
    if n == 2 && seg(segs, 0, "progress") && seg(segs, 1, "log.toml") {
        assert(s =~= seq!["progress"@, "log.toml"@]);
        return Some(Kind::Progress);
    }
    proof {
        if s.len() == 1 {
            assert(s != seq!["request.md"@]) by {
                if s == seq!["request.md"@] {
                    assert(s[0] == "request.md"@);
                }
            }
            assert(s != seq!["final-disposition.md"@]) by {
                if s == seq!["final-disposition.md"@] {
                    assert(s[0] == "final-disposition.md"@);
                }
            }
        }
        if s.len() == 2 {
            assert(s != seq!["implementation-plan"@, "PLAN.md"@]) by {
                if s == seq!["implementation-plan"@, "PLAN.md"@] {
                    assert(s[0] == "implementation-plan"@ && s[1] == "PLAN.md"@);
                }
            }
            assert(s != seq!["strategy"@, "bindings.toml"@]) by {
                if s == seq!["strategy"@, "bindings.toml"@] {
                    assert(s[0] == "strategy"@ && s[1] == "bindings.toml"@);
                }
            }
            assert(s != seq!["progress"@, "log.toml"@]) by {
                if s == seq!["progress"@, "log.toml"@] {
                    assert(s[0] == "progress"@ && s[1] == "log.toml"@);
                }
            }
        }
    }
    None
}

/// The record kind a path holds under an activation, if any.
pub fn kind_for_path(path: &str, active: &Activation) -> (r: Option<Kind>)
    ensures
        r == kind_for(path@, active@),
{
    let names = slug_list(active);
    let mut i: usize = 0;
    while i < names.len()
        invariant
            strs(names@) == slugs(active@),
            i <= names@.len(),
            forall|j: int|
                0 <= j < i ==> !(#[trigger] strip_prefix_seq(path@, "projects/"@ + slugs(active@)[j] + "/decision-log/"@)
                    matches Some(n) && is_decision_name(n)),
        decreases names.len() - i,
    {
        assert(strs(names@)[i as int] == names@[i as int]@);
        let dir = decision_log_dir(names[i].as_str());
        match strip_prefix(path, dir.as_str()) {
            Some(name) => {
                if is_decision_file(name.as_str()) {
                    return Some(Kind::Decision);
                }
            }
            None => {}
        }
        i = i + 1;
    }
    let bases = bases_of(active);
    let ghost bs = strs(bases@);
    let mut best: Option<usize> = None;
    let mut k: usize = 0;
    assert(bs.take(0) =~= Seq::<Seq<char>>::empty());
    while k < bases.len()
        invariant
            bs == strs(bases@),
            bs == all_bases(active@.projects),
            k <= bs.len(),
            match best {
                None => best_base(path@, bs.take(k as int)) is None,
                Some(b) => b < k && best_base(path@, bs.take(k as int)) == Some(bs[b as int]),
            },
        decreases bases.len() - k,
    {
        proof {
            assert(bs.take(k + 1).drop_last() =~= bs.take(k as int));
            assert(bs.take(k + 1).last() == bases@[k as int]@);
        }
        let mut with = bases[k].clone();
        push_str(&mut with, "/");
        if starts_with(path, with.as_str()) {
            let replace = match best {
                None => true,
                Some(b) => chars_of(bases[k].as_str()).len() >= chars_of(bases[b].as_str()).len(),
            };
            if replace {
                best = Some(k);
            }
        }
        k = k + 1;
    }
    assert(bs.take(k as int) =~= bs);
    match best {
        None => None,
        Some(b) => {
            let base_len = chars_of(bases[b].as_str()).len();
            let pc = chars_of(path);
            assert(is_prefix(bs[b as int] + "/"@, path@)) by {
                lemma_best_holds(path@, bs);
            }
            assert(bs[b as int] == bases@[b as int]@);
            assert((bs[b as int] + "/"@).len() == bs[b as int].len() + 1) by {
                reveal_strlit("/");
            }
            let plen = pc.len();
            assert(base_len + 1 <= plen);
            let rest = crate::text::copy_range(pc.as_slice(), base_len + 1, plen);
            assert(rest@ =~= path@.skip(base_len + 1));
            let segs = split_chars(rest.as_slice(), '/');
            kind_of_segs(&segs, Ghost(rest@))
        }
    }
}

proof fn lemma_best_holds(path: Seq<char>, bases: Seq<Seq<char>>)
    ensures
        best_base(path, bases) matches Some(b) ==> is_prefix(b + "/"@, path),
    decreases bases.len(),
{
    if bases.len() > 0 {
        lemma_best_holds(path, bases.drop_last());
    }
}

} // verus!
