//! Ticket and epic records: YAML front matter and seven fixed sections.

use crate::board::{str_or_empty, strings_of, tree_strings, strs};
use crate::diagnostic::{Diagnostic, diag, field_diag, field_diagnostic_is};
use crate::frontmatter::{FrontMatter, FrontMatterView, first_at, front_matter, lemma_first_at, split_front_matter};
use crate::markdown::{headings_of, markdown_headings, views};
use crate::pattern::{id_syntax, pattern_matches};
use crate::record::{Kind, RecordDraft};
use crate::text::{chars_of, copy_range, is_blank, is_blank_str, last_segment, last_segment_seq, seq_find, split_chars, split_seq, string_of, strip_suffix, strip_suffix_seq, str_eq, trim_chars, trim_seq};
use crate::tree::{Tree, get, lookup, parse_yaml, yaml_document};
use crate::verdict::{Verdict, refuse, refuse_field, refused_with};
use vstd::prelude::*;

verus! {

/// A complete ticket or epic.
#[derive(Debug, PartialEq, Eq)]
pub struct WorkItemDraft {
    pub id: String,
    pub title: String,
    pub project: String,
    pub investigation: String,
    pub status: String,
    pub reported_by_role: String,
    pub reported_by_agent: String,
    pub source_commit: String,
    pub created_at: String,
    pub updated_at: String,
    pub confidence: String,
    pub decision_refs: Vec<String>,
    pub related_tickets: Vec<String>,
    pub supersedes: Vec<String>,
    pub superseded_by: Vec<String>,
    pub rank: Option<u64>,
    pub requirement_and_evidence: String,
    pub impact: String,
    pub resolution_boundary: String,
    pub acceptance_criteria: String,
    pub verification: String,
    pub relationships_and_duplicate_analysis: String,
    pub review_and_disposition_history: String,
}

/// The plain content of a work item.
pub struct WorkItemView {
    pub id: Seq<char>,
    pub title: Seq<char>,
    pub project: Seq<char>,
    pub investigation: Seq<char>,
    pub status: Seq<char>,
    pub reported_by_role: Seq<char>,
    pub reported_by_agent: Seq<char>,
    pub source_commit: Seq<char>,
    pub created_at: Seq<char>,
    pub updated_at: Seq<char>,
    pub confidence: Seq<char>,
    pub decision_refs: Seq<Seq<char>>,
    pub related_tickets: Seq<Seq<char>>,
    pub supersedes: Seq<Seq<char>>,
    pub superseded_by: Seq<Seq<char>>,
    pub rank: Option<u64>,
    pub sections: Seq<Seq<char>>,
}

/// The views of a list of strings.
pub open spec fn texts(v: Seq<String>) -> Seq<Seq<char>> {
    v.map_values(|s: String| s@)
}

impl View for WorkItemDraft {
    type V = WorkItemView;

    open spec fn view(&self) -> WorkItemView {
        WorkItemView {
            id: self.id@,
            title: self.title@,
            project: self.project@,
            investigation: self.investigation@,
            status: self.status@,
            reported_by_role: self.reported_by_role@,
            reported_by_agent: self.reported_by_agent@,
            source_commit: self.source_commit@,
            created_at: self.created_at@,
            updated_at: self.updated_at@,
            confidence: self.confidence@,
            decision_refs: texts(self.decision_refs@),
            related_tickets: texts(self.related_tickets@),
            supersedes: texts(self.supersedes@),
            superseded_by: texts(self.superseded_by@),
            rank: self.rank,
            sections: seq![
                self.requirement_and_evidence@,
                self.impact@,
                self.resolution_boundary@,
                self.acceptance_criteria@,
                self.verification@,
                self.relationships_and_duplicate_analysis@,
                self.review_and_disposition_history@,
            ],
        }
    }
}

/// The seven required level 2 headings, in order.
pub open spec fn sections() -> Seq<Seq<char>> {
    seq![
        "Requirement and evidence"@,
        "Impact"@,
        "Resolution boundary"@,
        "Acceptance criteria"@,
        "Verification"@,
        "Relationships and duplicate analysis"@,
        "Review and disposition history"@,
    ]
}

/// The heading of section `i`.
pub fn section_name(i: usize) -> (r: &'static str)
    requires
        i < 7,
    ensures
        r@ == sections()[i as int],
{
    match i {
        0 => "Requirement and evidence",
        1 => "Impact",
        2 => "Resolution boundary",
        3 => "Acceptance criteria",
        4 => "Verification",
        5 => "Relationships and duplicate analysis",
        _ => "Review and disposition history",
    }
}

/// The identity syntax of a kind: tickets `PREFIX-123`, every other kind `PREFIX-E-123`.
pub open spec fn kind_id_syntax(kind: Kind, id: Seq<char>) -> bool {
    if kind is Ticket {
        id_syntax(id, Seq::empty())
    } else {
        id_syntax(id, "E-"@)
    }
}

/// Whether `time` accepts a text as an RFC 3339 date-time.
pub uninterp spec fn rfc3339_valid(text: Seq<char>) -> bool;

/// Whether `time::OffsetDateTime::parse(text, &Rfc3339)` succeeds.
/// The contract names the answer; RFC 3339's grammar is not restated here.
#[verifier::external_body]
pub(crate) fn is_rfc3339(text: &str) -> (r: bool)
    ensures
        r == rfc3339_valid(text@),
{
    time::OffsetDateTime::parse(text, &time::format_description::well_known::Rfc3339).is_ok()
}

/// The directory that holds the file: the second last `/` segment, if any.
pub open spec fn status_dir(path: Seq<char>) -> Option<Seq<char>> {
    let parts = split_seq(path, '/');
    if parts.len() >= 2 {
        Some(parts[parts.len() - 2])
    } else {
        None
    }
}

/// A work item that passes its checks at `path` sits in the directory its status
/// names, under a file named by its identity: the path's last two `/` segments are
/// the status, exactly, and the identity followed by `.md`; its status and confidence
/// are among the allowed ones.
pub proof fn law_checked_work_item_sits_in_its_status_directory(path: Seq<char>, kind: Kind, w: WorkItemView)
    requires
        work_item_fault(path, kind, w) is None,
    ensures
        exists|a: Seq<char>|
            path == a + w.status + seq!['/'] + w.id + ".md"@ && (a.len() == 0 || a.last() == '/'),
        !w.status.contains('/'),
        !w.id.contains('/'),
        w.status == "provisional"@ || w.status == "accepted"@ || w.status == "rejected"@,
        w.confidence == "low"@ || w.confidence == "medium"@ || w.confidence == "high"@,
{
    crate::text::lemma_split_next_to_last_piece(path, '/');
    let (a, n) = choose|a: Seq<char>, n: Seq<char>|
        path == a + w.status + seq!['/'] + n && (a.len() == 0 || a.last() == '/') && !n.contains('/');
    assert(path =~= (a + w.status) + seq!['/'] + n);
    crate::text::lemma_last_segment_after(a + w.status, n, '/');
    let md = ".md"@;
    assert(crate::text::is_suffix(md, n));
    assert(w.id == n.take(n.len() - md.len()));
    assert(n =~= w.id + n.subrange(n.len() - md.len(), n.len() as int));
    assert(n =~= w.id + md);
    assert(path =~= a + w.status + seq!['/'] + w.id + md);
    assert forall|k: int| 0 <= k < w.id.len() implies w.id[k] != '/' by {
        assert(w.id[k] == n[k]);
    }
}

/// The statuses a work item may have.
pub open spec fn valid_status(s: Seq<char>) -> bool {
    s == "provisional"@ || s == "accepted"@ || s == "rejected"@
}

/// The confidences a work item may have.
pub open spec fn valid_confidence(s: Seq<char>) -> bool {
    s == "low"@ || s == "medium"@ || s == "high"@
}

/// The first fault of a work item at `path`, as code, message and field.
pub open spec fn work_item_fault(path: Seq<char>, kind: Kind, w: WorkItemView) -> Option<(Seq<char>, Seq<char>, Seq<char>)> {
    if !kind_id_syntax(kind, w.id) {
        Some(("invalid_identity"@, "ID does not have the required project-prefix syntax"@, "id"@))
    } else if strip_suffix_seq(last_segment_seq(path, '/'), ".md"@) != Some(w.id) {
        Some(("filename_identity"@, "filename stem must equal ID"@, "id"@))
    } else if status_dir(path) != Some(w.status) {
        Some(("status_placement"@, "status must match containing directory"@, "status"@))
    } else if is_blank(w.title) {
        Some(("empty_field"@, "required string must be non-empty"@, "title"@))
    } else if is_blank(w.project) {
        Some(("empty_field"@, "required string must be non-empty"@, "project"@))
    } else if is_blank(w.investigation) {
        Some(("empty_field"@, "required string must be non-empty"@, "investigation"@))
    } else if is_blank(w.reported_by_role) {
        Some(("empty_field"@, "required string must be non-empty"@, "reported_by_role"@))
    } else if is_blank(w.reported_by_agent) {
        Some(("empty_field"@, "required string must be non-empty"@, "reported_by_agent"@))
    } else if is_blank(w.source_commit) {
        Some(("empty_field"@, "required string must be non-empty"@, "source_commit"@))
    } else if !valid_status(w.status) {
        Some(("invalid_status"@, "status must be provisional, accepted, or rejected"@, "status"@))
    } else if !valid_confidence(w.confidence) {
        Some(("invalid_confidence"@, "confidence must be low, medium, or high"@, "confidence"@))
    } else if !rfc3339_valid(w.created_at) {
        Some(("invalid_timestamp"@, "timestamp must be RFC 3339"@, "created_at"@))
    } else if !rfc3339_valid(w.updated_at) {
        Some(("invalid_timestamp"@, "timestamp must be RFC 3339"@, "updated_at"@))
    } else {
        None
    }
}

fn dir_of(path: &str) -> (r: Option<Vec<char>>)
    ensures
        match r {
            Some(d) => status_dir(path@) == Some(d@),
            None => status_dir(path@) is None,
        },
{
    let cs = chars_of(path);
    let parts = split_chars(cs.as_slice(), '/');
    if parts.len() >= 2 {
        let d = &parts[parts.len() - 2];
        let mut out: Vec<char> = Vec::new();
        let mut i: usize = 0;
        while i < d.len()
            invariant
                i <= d@.len(),
                out@ == d@.take(i as int),
            decreases d.len() - i,
        {
            out.push(d[i]);
            i = i + 1;
            assert(out@ =~= d@.take(i as int));
        }
        assert(d@.take(i as int) =~= d@);
        Some(out)
    } else {
        None
    }
}

fn is_one_of3(s: &str, a: &str, b: &str, c: &str) -> (r: bool)
    ensures
        r == (s@ == a@ || s@ == b@ || s@ == c@),
{
    str_eq(s, a) || str_eq(s, b) || str_eq(s, c)
}

/// Checks a work item's identity syntax, file placement, required strings,
/// status, confidence and timestamps, in that order.
pub fn validate(path: &str, kind: Kind, item: &WorkItemDraft) -> (r: Result<(), Diagnostic>)
    ensures
        match r {
            Ok(()) => work_item_fault(path@, kind, item@) is None,
            Err(d) => work_item_fault(path@, kind, item@) is Some && ({
                let f = work_item_fault(path@, kind, item@)->0;
                field_diagnostic_is(d, path@, f.0, f.1, f.2)
            }),
        },
{
    let syntax_ok = if kind == Kind::Ticket {
        pattern_matches("^[A-Z][A-Z0-9_]*-[0-9]{3,}$", item.id.as_str())
    } else {
        pattern_matches("^[A-Z][A-Z0-9_]*-E-[0-9]{3,}$", item.id.as_str())
    };
    if !syntax_ok {
        return Err(field_diag(path, "invalid_identity", "ID does not have the required project-prefix syntax", "id"));
    }
    let name = last_segment(path, '/');
    let stem_ok = match strip_suffix(name.as_str(), ".md") {
        Some(stem) => stem == item.id,
        None => false,
    };
    if !stem_ok {
        return Err(field_diag(path, "filename_identity", "filename stem must equal ID", "id"));
    }
    let dir_ok = match dir_of(path) {
        Some(d) => {
            let sv = chars_of(item.status.as_str());
            let same = d.len() == sv.len() && crate::text::seq_starts_with(d.as_slice(), sv.as_slice());
            proof {
                if d@.len() == sv@.len() {
                    assert(d@.subrange(0, sv@.len() as int) =~= d@);
                }
            }
            same
        }
        None => false,
    };
    if !dir_ok {
        return Err(field_diag(path, "status_placement", "status must match containing directory", "status"));
    }
    if is_blank_str(item.title.as_str()) {
        return Err(field_diag(path, "empty_field", "required string must be non-empty", "title"));
    }
    if is_blank_str(item.project.as_str()) {
        return Err(field_diag(path, "empty_field", "required string must be non-empty", "project"));
    }
    if is_blank_str(item.investigation.as_str()) {
        return Err(field_diag(path, "empty_field", "required string must be non-empty", "investigation"));
    }
    if is_blank_str(item.reported_by_role.as_str()) {
        return Err(field_diag(path, "empty_field", "required string must be non-empty", "reported_by_role"));
    }
    if is_blank_str(item.reported_by_agent.as_str()) {
        return Err(field_diag(path, "empty_field", "required string must be non-empty", "reported_by_agent"));
    }
    if is_blank_str(item.source_commit.as_str()) {
        return Err(field_diag(path, "empty_field", "required string must be non-empty", "source_commit"));
    }
    if !is_one_of3(item.status.as_str(), "provisional", "accepted", "rejected") {
        return Err(field_diag(path, "invalid_status", "status must be provisional, accepted, or rejected", "status"));
    }
    if !is_one_of3(item.confidence.as_str(), "low", "medium", "high") {
        return Err(field_diag(path, "invalid_confidence", "confidence must be low, medium, or high", "confidence"));
    }
    if !is_rfc3339(item.created_at.as_str()) {
        return Err(field_diag(path, "invalid_timestamp", "timestamp must be RFC 3339", "created_at"));
    }
    if !is_rfc3339(item.updated_at.as_str()) {
        return Err(field_diag(path, "invalid_timestamp", "timestamp must be RFC 3339", "updated_at"));
    }
    Ok(())
}

/// The string-valued front matter fields, in order.
pub open spec fn string_fields() -> Seq<Seq<char>> {
    seq![
        "id"@,
        "title"@,
        "project"@,
        "investigation"@,
        "status"@,
        "reported_by_role"@,
        "reported_by_agent"@,
        "source_commit"@,
        "created_at"@,
        "updated_at"@,
        "confidence"@,
    ]
}

/// The list-valued front matter fields, in order.
pub open spec fn list_fields() -> Seq<Seq<char>> {
    seq!["decision_refs"@, "related_tickets"@, "supersedes"@, "superseded_by"@]
}

fn string_field(i: usize) -> (r: &'static str)
    requires
        i < 11,
    ensures
        r@ == string_fields()[i as int],
{
    match i {
        0 => "id",
        1 => "title",
        2 => "project",
        3 => "investigation",
        4 => "status",
        5 => "reported_by_role",
        6 => "reported_by_agent",
        7 => "source_commit",
        8 => "created_at",
        9 => "updated_at",
        _ => "confidence",
    }
}

fn list_field(i: usize) -> (r: &'static str)
    requires
        i < 4,
    ensures
        r@ == list_fields()[i as int],
{
    match i {
        0 => "decision_refs",
        1 => "related_tickets",
        2 => "supersedes",
        _ => "superseded_by",
    }
}

/// A key that work item front matter may hold.
pub open spec fn known_field(k: Seq<char>) -> bool {
    string_fields().contains(k) || list_fields().contains(k) || k == "rank"@
}

/// The first key of the entries that is not a work item field.
pub open spec fn first_unknown(entries: Seq<(String, Tree)>) -> Option<Seq<char>>
    decreases entries.len(),
{
    if entries.len() == 0 {
        None
    } else if !known_field(entries[0].0@) {
        Some(entries[0].0@)
    } else {
        first_unknown(entries.drop_first())
    }
}

/// The first of `names` whose value is not a string.
pub open spec fn first_bad_string(t: Tree, names: Seq<Seq<char>>) -> Option<Seq<char>>
    decreases names.len(),
{
    if names.len() == 0 {
        None
    } else if !(get(t, names[0]) matches Some(Tree::Str(_))) {
        Some(names[0])
    } else {
        first_bad_string(t, names.drop_first())
    }
}

/// The first of `names` whose value is not a list of strings.
pub open spec fn first_bad_list(t: Tree, names: Seq<Seq<char>>) -> Option<Seq<char>>
    decreases names.len(),
{
    if names.len() == 0 {
        None
    } else if strings_of(get(t, names[0])) is None {
        Some(names[0])
    } else {
        first_bad_list(t, names.drop_first())
    }
}

/// The rank a value gives: absent or null, or a non-negative integer that fits in 64 bits.
pub open spec fn rank_of(v: Option<Tree>) -> Option<Option<u64>> {
    match v {
        None => Some(None),
        Some(Tree::Null) => Some(None),
        Some(Tree::Int(n)) => if 0 <= n <= u64::MAX {
            Some(Some(n as u64))
        } else {
            None
        },
        _ => None,
    }
}

/// The work item fields a front matter value holds, with no sections yet, or why it does not.
pub open spec fn wire_of(t: Tree) -> Result<WorkItemView, Seq<char>> {
    match t {
        Tree::Table(entries) => if first_unknown(entries@) is Some {
            Err("unknown work item field: "@ + first_unknown(entries@)->0)
        } else if first_bad_string(t, string_fields()) is Some {
            Err("work item field must be a string: "@ + first_bad_string(t, string_fields())->0)
        } else if first_bad_list(t, list_fields()) is Some {
            Err("work item field must be a list of strings: "@ + first_bad_list(t, list_fields())->0)
        } else if rank_of(get(t, "rank"@)) is None {
            Err("rank must be a non-negative integer"@)
        } else {
            Ok(WorkItemView {
                id: str_or_empty(get(t, "id"@)),
                title: str_or_empty(get(t, "title"@)),
                project: str_or_empty(get(t, "project"@)),
                investigation: str_or_empty(get(t, "investigation"@)),
                status: str_or_empty(get(t, "status"@)),
                reported_by_role: str_or_empty(get(t, "reported_by_role"@)),
                reported_by_agent: str_or_empty(get(t, "reported_by_agent"@)),
                source_commit: str_or_empty(get(t, "source_commit"@)),
                created_at: str_or_empty(get(t, "created_at"@)),
                updated_at: str_or_empty(get(t, "updated_at"@)),
                confidence: str_or_empty(get(t, "confidence"@)),
                decision_refs: strings_of(get(t, "decision_refs"@))->0,
                related_tickets: strings_of(get(t, "related_tickets"@))->0,
                supersedes: strings_of(get(t, "supersedes"@))->0,
                superseded_by: strings_of(get(t, "superseded_by"@))->0,
                rank: rank_of(get(t, "rank"@))->0,
                sections: Seq::empty(),
            })
        },
        _ => Err("work item frontmatter must be a mapping"@),
    }
}

proof fn lemma_first_bad_list_none(t: Tree, names: Seq<Seq<char>>, i: int)
    requires
        first_bad_list(t, names) is None,
        0 <= i < names.len(),
    ensures
        strings_of(get(t, names[i])) is Some,
    decreases names.len(),
{
    if i > 0 {
        lemma_first_bad_list_none(t, names.drop_first(), i - 1);
    }
}

proof fn lemma_first_bad_string_prefix(t: Tree, names: Seq<Seq<char>>, i: int)
    requires
        0 <= i <= names.len(),
        forall|j: int| 0 <= j < i ==> (get(t, #[trigger] names[j]) matches Some(Tree::Str(_))),
    ensures
        first_bad_string(t, names) == first_bad_string(t, names.skip(i)),
    decreases i,
{
    if i > 0 {
        assert(names.drop_first().skip(i - 1) =~= names.skip(i));
        assert(get(t, names[0]) matches Some(Tree::Str(_)));
        assert forall|j: int| 0 <= j < i - 1 implies #[trigger] names.drop_first()[j] == names[j + 1] by {}
        lemma_first_bad_string_prefix(t, names.drop_first(), i - 1);
    } else {
        assert(names.skip(0) =~= names);
    }
}

proof fn lemma_first_bad_list_prefix(t: Tree, names: Seq<Seq<char>>, i: int)
    requires
        0 <= i <= names.len(),
        forall|j: int| 0 <= j < i ==> strings_of(get(t, #[trigger] names[j])) is Some,
    ensures
        first_bad_list(t, names) == first_bad_list(t, names.skip(i)),
    decreases i,
{
    if i > 0 {
        assert(names.drop_first().skip(i - 1) =~= names.skip(i));
        assert(strings_of(get(t, names[0])) is Some);
        assert forall|j: int| 0 <= j < i - 1 implies #[trigger] names.drop_first()[j] == names[j + 1] by {}
        lemma_first_bad_list_prefix(t, names.drop_first(), i - 1);
    } else {
        assert(names.skip(0) =~= names);
    }
}

fn is_known_field(k: &str) -> (r: bool)
    ensures
        r == known_field(k@),
{
    let mut i: usize = 0;
    while i < 11
        invariant
            i <= 11,
            forall|j: int| 0 <= j < i ==> string_fields()[j] != k@,
        decreases 11 - i,
    {
        if str_eq(string_field(i), k) {
            assert(string_fields()[i as int] == k@);
            return true;
        }
        i = i + 1;
    }
    let mut j: usize = 0;
    while j < 4
        invariant
            j <= 4,
            forall|m: int| 0 <= m < j ==> list_fields()[m] != k@,
        decreases 4 - j,
    {
        if str_eq(list_field(j), k) {
            assert(list_fields()[j as int] == k@);
            return true;
        }
        j = j + 1;
    }
    assert(!string_fields().contains(k@));
    assert(!list_fields().contains(k@));
    str_eq(k, "rank")
}

fn take_str(t: &Tree, key: &str) -> (r: String)
    requires
        get(*t, key@) matches Some(Tree::Str(_)),
    ensures
        r@ == str_or_empty(get(*t, key@)),
{
    match lookup(t, key) {
        Some(Tree::Str(s)) => s.clone(),
        _ => String::new(),
    }
}

fn take_list(t: &Tree, key: &str) -> (r: Vec<String>)
    requires
        strings_of(get(*t, key@)) is Some,
    ensures
        strs(r@) == strings_of(get(*t, key@))->0,
{
    match tree_strings(lookup(t, key)) {
        Some(v) => v,
        None => Vec::new(),
    }
}

/// The work item fields of a front matter value, with empty sections, or why it has none.
fn read_wire(t: &Tree) -> (r: Result<WorkItemDraft, String>)
    ensures
        match r {
            Ok(w) => wire_of(*t) == Ok::<WorkItemView, Seq<char>>(w@.sections_replaced(Seq::empty())),
            Err(m) => wire_of(*t) == Err::<WorkItemView, Seq<char>>(m@),
        },
{
    let entries = match t {
        Tree::Table(entries) => entries,
        _ => {
            return Err(String::from_str("work item frontmatter must be a mapping"));
        }
    };
    let mut i: usize = 0;
    assert(entries@.skip(0) =~= entries@);
    while i < entries.len()
        invariant
            *t == Tree::Table(*entries),
            i <= entries@.len(),
            first_unknown(entries@) == first_unknown(entries@.skip(i as int)),
        decreases entries.len() - i,
    {
        assert(entries@.skip(i as int).drop_first() =~= entries@.skip(i + 1));
        assert(entries@.skip(i as int)[0] == entries@[i as int]);
        if !is_known_field(entries[i].0.as_str()) {
            let mut m = String::from_str("unknown work item field: ");
            crate::text::push_str(&mut m, entries[i].0.as_str());
            return Err(m);
        }
        i = i + 1;
    }
    let mut k: usize = 0;
    while k < 11
        invariant
            *t == Tree::Table(*entries),
            first_unknown(entries@) is None,
            k <= 11,
            forall|j: int| 0 <= j < k ==> (get(*t, #[trigger] string_fields()[j]) matches Some(Tree::Str(_))),
        decreases 11 - k,
    {
        let name = string_field(k);
        let ok = match lookup(t, name) {
            Some(Tree::Str(_)) => true,
            _ => false,
        };
        if !ok {
            proof {
                lemma_first_bad_string_prefix(*t, string_fields(), k as int);
                assert(string_fields().skip(k as int)[0] == string_fields()[k as int]);
            }
            let mut m = String::from_str("work item field must be a string: ");
            crate::text::push_str(&mut m, name);
            return Err(m);
        }
        k = k + 1;
    }
    proof {
        lemma_first_bad_string_prefix(*t, string_fields(), 11);
    }
    let mut l: usize = 0;
    while l < 4
        invariant
            *t == Tree::Table(*entries),
            first_unknown(entries@) is None,
            first_bad_string(*t, string_fields()) is None,
            l <= 4,
            forall|j: int| 0 <= j < l ==> strings_of(get(*t, #[trigger] list_fields()[j])) is Some,
        decreases 4 - l,
    {
        let name = list_field(l);
        if tree_strings(lookup(t, name)).is_none() {
            proof {
                lemma_first_bad_list_prefix(*t, list_fields(), l as int);
                assert(list_fields().skip(l as int)[0] == list_fields()[l as int]);
            }
            let mut m = String::from_str("work item field must be a list of strings: ");
            crate::text::push_str(&mut m, name);
            return Err(m);
        }
        l = l + 1;
    }
    proof {
        lemma_first_bad_list_prefix(*t, list_fields(), 4);
    }
    let rank: Option<u64> = match lookup(t, "rank") {
        None => None,
        Some(Tree::Null) => None,
        Some(Tree::Int(n)) => {
            if 0 <= *n && *n <= 0xffff_ffff_ffff_ffff {
                Some(*n as u64)
            } else {
                return Err(String::from_str("rank must be a non-negative integer"));
            }
        }
        Some(_) => {
            return Err(String::from_str("rank must be a non-negative integer"));
        }
    };
    proof {
        assert forall|j: int| 0 <= j < 11 implies (get(*t, #[trigger] string_fields()[j]) matches Some(Tree::Str(_))) by {
            lemma_first_bad_string_none(*t, string_fields(), j);
        }
        assert forall|j: int| 0 <= j < 4 implies strings_of(get(*t, #[trigger] list_fields()[j])) is Some by {
            lemma_first_bad_list_none(*t, list_fields(), j);
        }
        assert(string_fields()[0] == "id"@);
        assert(string_fields()[1] == "title"@);
        assert(string_fields()[2] == "project"@);
        assert(string_fields()[3] == "investigation"@);
        assert(string_fields()[4] == "status"@);
        assert(string_fields()[5] == "reported_by_role"@);
        assert(string_fields()[6] == "reported_by_agent"@);
        assert(string_fields()[7] == "source_commit"@);
        assert(string_fields()[8] == "created_at"@);
        assert(string_fields()[9] == "updated_at"@);
        assert(string_fields()[10] == "confidence"@);
        assert(list_fields()[0] == "decision_refs"@);
        assert(list_fields()[1] == "related_tickets"@);
        assert(list_fields()[2] == "supersedes"@);
        assert(list_fields()[3] == "superseded_by"@);
    }
    let w = WorkItemDraft {
        id: take_str(t, "id"),
        title: take_str(t, "title"),
        project: take_str(t, "project"),
        investigation: take_str(t, "investigation"),
        status: take_str(t, "status"),
        reported_by_role: take_str(t, "reported_by_role"),
        reported_by_agent: take_str(t, "reported_by_agent"),
        source_commit: take_str(t, "source_commit"),
        created_at: take_str(t, "created_at"),
        updated_at: take_str(t, "updated_at"),
        confidence: take_str(t, "confidence"),
        decision_refs: take_list(t, "decision_refs"),
        related_tickets: take_list(t, "related_tickets"),
        supersedes: take_list(t, "supersedes"),
        superseded_by: take_list(t, "superseded_by"),
        rank,
        requirement_and_evidence: String::new(),
        impact: String::new(),
        resolution_boundary: String::new(),
        acceptance_criteria: String::new(),
        verification: String::new(),
        relationships_and_duplicate_analysis: String::new(),
        review_and_disposition_history: String::new(),
    };
    Ok(w)
}

proof fn lemma_first_bad_string_none(t: Tree, names: Seq<Seq<char>>, i: int)
    requires
        first_bad_string(t, names) is None,
        0 <= i < names.len(),
    ensures
        get(t, names[i]) matches Some(Tree::Str(_)),
    decreases names.len(),
{
    if i > 0 {
        lemma_first_bad_string_none(t, names.drop_first(), i - 1);
    }
}

impl WorkItemView {
    /// The same fields with other section texts.
    pub open spec fn sections_replaced(self, sections: Seq<Seq<char>>) -> WorkItemView {
        WorkItemView { sections, ..self }
    }
}

/// The marker of section `i`: `## ` and its heading.
pub open spec fn marker(i: int) -> Seq<char> {
    "## "@ + sections()[i]
}

/// The trimmed text of section `i`: from the end of its first marker to the first
/// marker of the next section (or the end of the body); `None` when the marker is
/// missing or the next one comes first.
pub open spec fn section_text(body: Seq<char>, i: int) -> Option<Seq<char>> {
    match first_at(body, marker(i)) {
        None => None,
        Some(s) => {
            let start = s + marker(i).len();
            let end = if i + 1 < 7 && first_at(body, marker(i + 1)) is Some {
                first_at(body, marker(i + 1))->0
            } else {
                body.len() as int
            };
            if start <= end {
                Some(trim_seq(body.subrange(start, end)))
            } else {
                None
            }
        },
    }
}

/// The texts of the first `n` sections, when each can be cut out.
pub open spec fn section_values(body: Seq<char>, n: int) -> Option<Seq<Seq<char>>>
    decreases n,
{
    if n <= 0 {
        Some(Seq::empty())
    } else {
        match (section_values(body, n - 1), section_text(body, n - 1)) {
            (Some(vs), Some(v)) => Some(vs.push(v)),
            _ => None,
        }
    }
}

/// The sections of a work item body, or the diagnostic that refuses them.
pub open spec fn sections_verdict(body: Seq<char>) -> Verdict<Seq<Seq<char>>> {
    let (h1, h2) = headings_of(body);
    if h1.len() != 1 {
        refuse("h1_count"@, "Markdown record must contain exactly one H1"@)
    } else if h2 != sections() || section_values(body, 7) is None {
        refuse("work_item_sections"@, "required H2 headings must occur exactly once and in order"@)
    } else {
        Verdict::Accept(section_values(body, 7)->0)
    }
}

fn marker_chars(i: usize) -> (r: Vec<char>)
    requires
        i < 7,
    ensures
        r@ == marker(i as int),
{
    let mut m = chars_of("## ");
    let name = chars_of(section_name(i));
    let mut k: usize = 0;
    let ghost start = m@;
    while k < name.len()
        invariant
            k <= name@.len(),
            m@ == start + name@.take(k as int),
        decreases name.len() - k,
    {
        m.push(name[k]);
        k = k + 1;
        assert(m@ =~= start + name@.take(k as int));
    }
    assert(name@.take(k as int) =~= name@);
    m
}

fn find_first(body: &[char], needle: &[char]) -> (r: Option<usize>)
    ensures
        match r {
            Some(k) => first_at(body@, needle@) == Some(k as int) && k + needle@.len() <= body@.len(),
            None => first_at(body@, needle@) is None,
        },
{
    match seq_find(body, needle) {
        Some(k) => {
            proof {
                lemma_first_at(body@, needle@, k as int);
            }
            Some(k)
        }
        None => {
            proof {
                crate::frontmatter::lemma_first_at_none(body@, needle@);
            }
            None
        }
    }
}

fn section_text_at(body: &[char], i: usize) -> (r: Option<String>)
    requires
        i < 7,
    ensures
        match r {
            Some(v) => section_text(body@, i as int) == Some(v@),
            None => section_text(body@, i as int) is None,
        },
{
    let m = marker_chars(i);
    let s = match find_first(body, m.as_slice()) {
        Some(s) => s,
        None => {
            return None;
        }
    };
    let blen = body.len();
    assert(s + m@.len() <= blen);
    let start = s + m.len();
    let end = if i + 1 < 7 {
        let next = marker_chars(i + 1);
        match find_first(body, next.as_slice()) {
            Some(e) => e,
            None => body.len(),
        }
    } else {
        body.len()
    };
    if start > end {
        return None;
    }
    let piece = copy_range(body, start, end);
    let t = trim_chars(piece.as_slice());
    Some(string_of(t.as_slice()))
}

fn section_texts(body: &str) -> (r: Option<Vec<String>>)
    ensures
        match r {
            Some(vs) => section_values(body@, 7) == Some(texts(vs@)),
            None => section_values(body@, 7) is None,
        },
{
    let bc = chars_of(body);
    let mut values: Vec<String> = Vec::new();
    let mut i: usize = 0;
    while i < 7
        invariant
            i <= 7,
            bc@ == body@,
            section_values(body@, i as int) == Some(texts(values@)),
        decreases 7 - i,
    {
        match section_text_at(bc.as_slice(), i) {
            Some(v) => {
                let ghost prior = texts(values@);
                values.push(v);
                assert(texts(values@) =~= prior.push(values@.last()@));
            }
            None => {
                proof {
                    lemma_section_values_none(body@, i as int + 1, 7);
                }
                return None;
            }
        }
        i = i + 1;
    }
    Some(values)
}

proof fn lemma_section_values_none(body: Seq<char>, n: int, m: int)
    requires
        0 < n <= m,
        section_values(body, n) is None,
    ensures
        section_values(body, m) is None,
    decreases m - n,
{
    if n < m {
        lemma_section_values_none(body, n + 1, m);
    }
}

/// The seven section texts of a work item body.
fn required_sections(path: &str, body: &str) -> (r: Result<Vec<String>, Vec<Diagnostic>>)
    ensures
        match r {
            Ok(vs) => sections_verdict(body@) == Verdict::Accept(texts(vs@)) && vs@.len() == 7,
            Err(ds) => refused_with(ds@, path@, sections_verdict(body@)),
        },
{
    let (h1, h2) = match markdown_headings(path, body) {
        Ok(pair) => pair,
        Err(d) => {
            return Err(vec![d]);
        }
    };
    let mut same = h2.len() == 7;
    let mut i: usize = 0;
    assert(views(h2@).len() == h2@.len());
    while same && i < 7
        invariant
            i <= 7,
            same ==> h2@.len() == 7 && forall|j: int| 0 <= j < i ==> h2@[j]@ == sections()[j],
            !same ==> views(h2@) != sections(),
        decreases 7 - i,
    {
        if !str_eq(h2[i].as_str(), section_name(i)) {
            assert(views(h2@)[i as int] != sections()[i as int]);
            same = false;
        }
        i = i + 1;
    }
    if same {
        assert(views(h2@) =~= sections());
    }
    if !same {
        return Err(vec![diag(path, "work_item_sections", "required H2 headings must occur exactly once and in order")]);
    }
    match section_texts(body) {
        None => Err(vec![diag(path, "work_item_sections", "required H2 headings must occur exactly once and in order")]),
        Some(vs) => {
            proof {
                lemma_section_values_len(body@, 7);
            }
            Ok(vs)
        }
    }
}

proof fn lemma_section_values_len(body: Seq<char>, n: int)
    requires
        n >= 0,
        section_values(body, n) is Some,
    ensures
        section_values(body, n)->0.len() == n,
    decreases n,
{
    if n > 0 {
        lemma_section_values_len(body, n - 1);
    }
}

/// What a ticket or epic text yields, or the diagnostic that refuses it: front
/// matter first, then its fields, its sections, its title, and the item's checks.
pub open spec fn work_item_verdict(path: Seq<char>, kind: Kind, text: Seq<char>) -> Verdict<WorkItemView> {
    match front_matter(text) {
        FrontMatterView::Absent => refuse("missing_frontmatter"@, "work item needs YAML frontmatter"@),
        FrontMatterView::Unclosed => refuse("invalid_frontmatter"@, "frontmatter closing delimiter is missing"@),
        FrontMatterView::Block(matter, body) => match yaml_document(matter) {
            Err(e) => refuse("invalid_frontmatter"@, e),
            Ok(t) => work_item_tree_verdict(path, kind, t, body),
        },
    }
}

/// What a ticket or epic yields from its parsed front matter and its Markdown body,
/// or the diagnostic that refuses it.
pub open spec fn work_item_tree_verdict(path: Seq<char>, kind: Kind, t: Tree, body: Seq<char>) -> Verdict<WorkItemView> {
    match wire_of(t) {
        Err(m) => refuse("invalid_frontmatter"@, m),
        Ok(w) => match sections_verdict(body) {
            Verdict::Refuse { code, message, field, section } => Verdict::Refuse {
                code,
                message,
                field,
                section,
            },
            Verdict::Accept(vs) => {
                let item = w.sections_replaced(vs);
                if headings_of(body).0[0] != item.id {
                    refuse("identity_heading"@, "H1 must equal the work-item ID"@)
                } else {
                    match work_item_fault(path, kind, item) {
                        Some(f) => refuse_field(f.0, f.1, f.2),
                        None => Verdict::Accept(item),
                    }
                }
            },
        },
    }
}

/// Reads a ticket (for `Kind::Ticket`) or an epic (for any other kind) from its text.
pub fn parse(path: &str, kind: Kind, text: &str) -> (r: Result<RecordDraft, Vec<Diagnostic>>)
    ensures
        match r {
            Ok(RecordDraft::Ticket(w)) => kind is Ticket && work_item_verdict(path@, kind, text@)
                == Verdict::Accept(w@),
            Ok(RecordDraft::Epic(w)) => !(kind is Ticket) && work_item_verdict(path@, kind, text@)
                == Verdict::Accept(w@),
            Ok(RecordDraft::Board(_)) => false,
            Err(ds) => refused_with(ds@, path@, work_item_verdict(path@, kind, text@)),
        },
{
    let (matter, body) = match split_front_matter(text) {
        FrontMatter::Absent => {
            return Err(vec![diag(path, "missing_frontmatter", "work item needs YAML frontmatter")]);
        }
        FrontMatter::Unclosed => {
            return Err(vec![diag(path, "invalid_frontmatter", "frontmatter closing delimiter is missing")]);
        }
        FrontMatter::Block { matter, body } => (matter, body),
    };
    match parse_yaml(matter.as_str()) {
        Ok(t) => work_item_from_tree(path, kind, &t, body.as_str()),
        Err(e) => Err(vec![diag(path, "invalid_frontmatter", e.as_str())]),
    }
}

/// Reads a ticket (for `Kind::Ticket`) or an epic (for any other kind) from its parsed
/// front matter and its Markdown body.
pub fn work_item_from_tree(path: &str, kind: Kind, t: &Tree, body: &str) -> (r: Result<RecordDraft, Vec<Diagnostic>>)
    ensures
        match r {
            Ok(RecordDraft::Ticket(w)) => kind is Ticket && work_item_tree_verdict(path@, kind, *t, body@)
                == Verdict::Accept(w@),
            Ok(RecordDraft::Epic(w)) => !(kind is Ticket) && work_item_tree_verdict(path@, kind, *t, body@)
                == Verdict::Accept(w@),
            Ok(RecordDraft::Board(_)) => false,
            Err(ds) => refused_with(ds@, path@, work_item_tree_verdict(path@, kind, *t, body@)),
        },
{
    let w = match read_wire(t) {
        Ok(w) => w,
        Err(m) => {
            return Err(vec![diag(path, "invalid_frontmatter", m.as_str())]);
        }
    };
    let values = match required_sections(path, body) {
        Ok(v) => v,
        Err(ds) => {
            return Err(ds);
        }
    };
    let (h1, h2) = match markdown_headings(path, body) {
        Ok(pair) => pair,
        Err(d) => {
            return Err(vec![d]);
        }
    };
    assert(views(h1@)[0] == h1@[0]@);
    if h1[0] != w.id {
        return Err(vec![diag(path, "identity_heading", "H1 must equal the work-item ID")]);
    }
    let item = WorkItemDraft {
        requirement_and_evidence: values[0].clone(),
        impact: values[1].clone(),
        resolution_boundary: values[2].clone(),
        acceptance_criteria: values[3].clone(),
        verification: values[4].clone(),
        relationships_and_duplicate_analysis: values[5].clone(),
        review_and_disposition_history: values[6].clone(),
        ..w
    };
    assert(item@.sections =~= texts(values@));
    assert(item@ == w@.sections_replaced(Seq::empty()).sections_replaced(texts(values@)));
    match validate(path, kind, &item) {
        Ok(()) => {}
        Err(d) => {
            return Err(vec![d]);
        }
    }
    if kind == Kind::Ticket {
        Ok(RecordDraft::Ticket(item))
    } else {
        Ok(RecordDraft::Epic(item))
    }
}

/// What `serde-saphyr` writes for a string value, or `None` when it reports an error.
pub uninterp spec fn yaml_scalar_text(value: Seq<char>) -> Option<Seq<char>>;

/// Writes a string as a YAML document with `serde_saphyr::to_string`.
/// The contract names the text; YAML's quoting rules are not restated here.
#[verifier::external_body]
fn yaml_scalar(value: &str) -> (r: Option<String>)
    ensures
        match r {
            Some(t) => yaml_scalar_text(value@) == Some(t@),
            None => yaml_scalar_text(value@) is None,
        },
{
    match serde_saphyr::to_string(&value) {
        Ok(text) => Some(text),
        Err(_) => None,
    }
}

/// A string as a trimmed YAML scalar.
pub open spec fn yaml_string(v: Seq<char>) -> Option<Seq<char>> {
    match yaml_scalar_text(v) {
        Some(t) => Some(trim_seq(t)),
        None => None,
    }
}

/// The YAML scalars of a list, joined by `, `.
pub open spec fn yaml_items(items: Seq<Seq<char>>) -> Option<Seq<char>>
    decreases items.len(),
{
    if items.len() == 0 {
        Some(Seq::empty())
    } else {
        match (yaml_items(items.drop_last()), yaml_string(items.last())) {
            (Some(b), Some(x)) => Some(
                if items.len() == 1 {
                    x
                } else {
                    b + ", "@ + x
                },
            ),
            _ => None,
        }
    }
}

/// A list as a YAML flow sequence.
pub open spec fn yaml_list(items: Seq<Seq<char>>) -> Option<Seq<char>> {
    match yaml_items(items) {
        Some(b) => Some("["@ + b + "]"@),
        None => None,
    }
}

/// The character of a decimal digit.
pub open spec fn digit_char(d: nat) -> char {
    if d == 0 {
        '0'
    } else if d == 1 {
        '1'
    } else if d == 2 {
        '2'
    } else if d == 3 {
        '3'
    } else if d == 4 {
        '4'
    } else if d == 5 {
        '5'
    } else if d == 6 {
        '6'
    } else if d == 7 {
        '7'
    } else if d == 8 {
        '8'
    } else {
        '9'
    }
}

/// The decimal numeral of a natural number.
pub open spec fn decimal(n: nat) -> Seq<char>
    decreases n,
{
    if n < 10 {
        seq![digit_char(n)]
    } else {
        decimal(n / 10).push(digit_char(n % 10))
    }
}

/// The optional rank line.
pub open spec fn rank_line(rank: Option<u64>) -> Seq<char> {
    match rank {
        Some(n) => "rank: "@ + decimal(n as nat) + "\n"@,
        None => Seq::empty(),
    }
}

/// The canonical text of a work item: YAML front matter, its identity as the title,
/// and the seven sections; `None` when a string cannot be written as YAML.
pub open spec fn work_item_text(w: WorkItemView) -> Option<Seq<char>> {
    let title = yaml_string(w.title);
    let project = yaml_string(w.project);
    let investigation = yaml_string(w.investigation);
    let role = yaml_string(w.reported_by_role);
    let agent = yaml_string(w.reported_by_agent);
    let commit = yaml_string(w.source_commit);
    let decision_refs = yaml_list(w.decision_refs);
    let related = yaml_list(w.related_tickets);
    let supersedes = yaml_list(w.supersedes);
    let superseded_by = yaml_list(w.superseded_by);
    if title is Some && project is Some && investigation is Some && role is Some && agent is Some
        && commit is Some && decision_refs is Some && related is Some && supersedes is Some
        && superseded_by is Some {
        Some(
            "---\nid: "@ + w.id + "\ntitle: "@ + title->0 + "\nproject: "@ + project->0
                + "\ninvestigation: "@ + investigation->0 + "\nstatus: "@ + w.status
                + "\nreported_by_role: "@ + role->0 + "\nreported_by_agent: "@ + agent->0
                + "\nsource_commit: "@ + commit->0 + "\ncreated_at: "@ + w.created_at
                + "\nupdated_at: "@ + w.updated_at + "\nconfidence: "@ + w.confidence
                + "\ndecision_refs: "@ + decision_refs->0 + "\nrelated_tickets: "@ + related->0
                + "\nsupersedes: "@ + supersedes->0 + "\nsuperseded_by: "@ + superseded_by->0
                + "\n"@ + rank_line(w.rank) + "---\n\n# "@ + w.id
                + "\n\n## Requirement and evidence\n\n"@ + w.sections[0] + "\n\n## Impact\n\n"@
                + w.sections[1] + "\n\n## Resolution boundary\n\n"@ + w.sections[2]
                + "\n\n## Acceptance criteria\n\n"@ + w.sections[3] + "\n\n## Verification\n\n"@
                + w.sections[4] + "\n\n## Relationships and duplicate analysis\n\n"@ + w.sections[5]
                + "\n\n## Review and disposition history\n\n"@ + w.sections[6] + "\n"@,
        )
    } else {
        None
    }
}

fn digit(d: u64) -> (c: char)
    requires
        d < 10,
    ensures
        c == digit_char(d as nat),
{
    match d {
        0 => '0',
        1 => '1',
        2 => '2',
        3 => '3',
        4 => '4',
        5 => '5',
        6 => '6',
        7 => '7',
        8 => '8',
        _ => '9',
    }
}

fn push_decimal(out: &mut Vec<char>, n: u64)
    ensures
        final(out)@ == old(out)@ + decimal(n as nat),
    decreases n,
{
    if n >= 10 {
        push_decimal(out, n / 10);
    }
    out.push(digit(n % 10));
    proof {
        if n >= 10 {
            assert(final(out)@ =~= old(out)@ + decimal(n as nat));
        } else {
            assert(final(out)@ =~= old(out)@ + decimal(n as nat));
        }
    }
}

/// The decimal numeral of a number.
pub fn decimal_string(n: u64) -> (r: String)
    ensures
        r@ == decimal(n as nat),
{
    let mut cs: Vec<char> = Vec::new();
    push_decimal(&mut cs, n);
    assert(cs@ =~= decimal(n as nat));
    string_of(cs.as_slice())
}

fn yaml_value(v: &str) -> (r: Option<String>)
    ensures
        match r {
            Some(t) => yaml_string(v@) == Some(t@),
            None => yaml_string(v@) is None,
        },
{
    match yaml_scalar(v) {
        Some(t) => Some(crate::text::trim(t.as_str())),
        None => None,
    }
}

fn yaml_list_of(items: &Vec<String>) -> (r: Option<String>)
    ensures
        match r {
            Some(t) => yaml_list(texts(items@)) == Some(t@),
            None => yaml_list(texts(items@)) is None,
        },
{
    let mut body = String::new();
    let mut i: usize = 0;
    assert(texts(items@).take(0) =~= Seq::<Seq<char>>::empty());
    while i < items.len()
        invariant
            i <= items@.len(),
            yaml_items(texts(items@).take(i as int)) == Some(body@),
        decreases items.len() - i,
    {
        let ghost part = texts(items@).take(i + 1);
        proof {
            assert(part.drop_last() =~= texts(items@).take(i as int));
            assert(part.last() == items@[i as int]@);
        }
        let x = match yaml_value(items[i].as_str()) {
            Some(x) => x,
            None => {
                proof {
                    lemma_yaml_items_none(texts(items@), i + 1);
                }
                return None;
            }
        };
        if i > 0 {
            crate::text::push_str(&mut body, ", ");
        }
        crate::text::push_str(&mut body, x.as_str());
        proof {
            if i == 0 {
                assert(body@ =~= x@);
            }
        }
        i = i + 1;
    }
    assert(texts(items@).take(i as int) =~= texts(items@));
    let mut out = String::from_str("[");
    crate::text::push_str(&mut out, body.as_str());
    crate::text::push_str(&mut out, "]");
    Some(out)
}

proof fn lemma_yaml_items_none(items: Seq<Seq<char>>, n: int)
    requires
        0 < n <= items.len(),
        yaml_items(items.take(n)) is None,
    ensures
        yaml_items(items) is None,
    decreases items.len() - n,
{
    if n == items.len() {
        assert(items.take(n) =~= items);
    } else {
        assert(items.drop_last().take(n) =~= items.take(n));
        lemma_yaml_items_none(items.drop_last(), n);
    }
}

/// The canonical text of a work item.
pub fn render(item: &WorkItemDraft) -> (r: Option<String>)
    ensures
        match r {
            Some(t) => work_item_text(item@) == Some(t@),
            None => work_item_text(item@) is None,
        },
{
    let title = yaml_value(item.title.as_str());
    let project = yaml_value(item.project.as_str());
    let investigation = yaml_value(item.investigation.as_str());
    let role = yaml_value(item.reported_by_role.as_str());
    let agent = yaml_value(item.reported_by_agent.as_str());
    let commit = yaml_value(item.source_commit.as_str());
    let decision_refs = yaml_list_of(&item.decision_refs);
    let related = yaml_list_of(&item.related_tickets);
    let supersedes = yaml_list_of(&item.supersedes);
    let superseded_by = yaml_list_of(&item.superseded_by);
    let (title, project, investigation, role, agent, commit, decision_refs, related, supersedes, superseded_by) =
        match (title, project, investigation, role, agent, commit, decision_refs, related, supersedes, superseded_by) {
        (Some(a), Some(b), Some(c), Some(d), Some(e), Some(f), Some(g), Some(h), Some(i), Some(j)) => (a, b, c, d, e, f, g, h, i, j),
        _ => {
            return None;
        }
    };
    let rank_text = match item.rank {
        Some(n) => {
            let mut line = String::from_str("rank: ");
            crate::text::push_str(&mut line, decimal_string(n).as_str());
            crate::text::push_str(&mut line, "\n");
            line
        }
        None => String::new(),
    };
    assert(rank_text@ =~= rank_line(item.rank));
    let mut out = String::from_str("---\nid: ");
    crate::text::push_str(&mut out, item.id.as_str());
    crate::text::push_str(&mut out, "\ntitle: ");
    crate::text::push_str(&mut out, title.as_str());
    crate::text::push_str(&mut out, "\nproject: ");
    crate::text::push_str(&mut out, project.as_str());
    crate::text::push_str(&mut out, "\ninvestigation: ");
    crate::text::push_str(&mut out, investigation.as_str());
    crate::text::push_str(&mut out, "\nstatus: ");
    crate::text::push_str(&mut out, item.status.as_str());
    crate::text::push_str(&mut out, "\nreported_by_role: ");
    crate::text::push_str(&mut out, role.as_str());
    crate::text::push_str(&mut out, "\nreported_by_agent: ");
    crate::text::push_str(&mut out, agent.as_str());
    crate::text::push_str(&mut out, "\nsource_commit: ");
    crate::text::push_str(&mut out, commit.as_str());
    crate::text::push_str(&mut out, "\ncreated_at: ");
    crate::text::push_str(&mut out, item.created_at.as_str());
    crate::text::push_str(&mut out, "\nupdated_at: ");
    crate::text::push_str(&mut out, item.updated_at.as_str());
    crate::text::push_str(&mut out, "\nconfidence: ");
    crate::text::push_str(&mut out, item.confidence.as_str());
    crate::text::push_str(&mut out, "\ndecision_refs: ");
    crate::text::push_str(&mut out, decision_refs.as_str());
    crate::text::push_str(&mut out, "\nrelated_tickets: ");
    crate::text::push_str(&mut out, related.as_str());
    crate::text::push_str(&mut out, "\nsupersedes: ");
    crate::text::push_str(&mut out, supersedes.as_str());
    crate::text::push_str(&mut out, "\nsuperseded_by: ");
    crate::text::push_str(&mut out, superseded_by.as_str());
    crate::text::push_str(&mut out, "\n");
    crate::text::push_str(&mut out, rank_text.as_str());
    crate::text::push_str(&mut out, "---\n\n# ");
    crate::text::push_str(&mut out, item.id.as_str());
    crate::text::push_str(&mut out, "\n\n## Requirement and evidence\n\n");
    crate::text::push_str(&mut out, item.requirement_and_evidence.as_str());
    crate::text::push_str(&mut out, "\n\n## Impact\n\n");
    crate::text::push_str(&mut out, item.impact.as_str());
    crate::text::push_str(&mut out, "\n\n## Resolution boundary\n\n");
    crate::text::push_str(&mut out, item.resolution_boundary.as_str());
    crate::text::push_str(&mut out, "\n\n## Acceptance criteria\n\n");
    crate::text::push_str(&mut out, item.acceptance_criteria.as_str());
    crate::text::push_str(&mut out, "\n\n## Verification\n\n");
    crate::text::push_str(&mut out, item.verification.as_str());
    crate::text::push_str(&mut out, "\n\n## Relationships and duplicate analysis\n\n");
    crate::text::push_str(&mut out, item.relationships_and_duplicate_analysis.as_str());
    crate::text::push_str(&mut out, "\n\n## Review and disposition history\n\n");
    crate::text::push_str(&mut out, item.review_and_disposition_history.as_str());
    crate::text::push_str(&mut out, "\n");
    Some(out)
}

} // verus!
