//! Scanning a Casefile root: the files it holds, how each classifies, the
//! diagnostics across them, and the revision of the whole.

use crate::activation::{
    Activation, ActivationState, ActivationView, Outcome, OutcomeView, activation, activation_entry,
    activation_entry_outcome, activation_outcome, in_active, in_active_spec, investigation_identity, outcome_view,
    slugs, slug_list,
};
use crate::board::strs;
use crate::diagnostic::{DiagView, Diagnostic, diag, diag_views, plain};
use crate::layout::{kind_for, kind_for_path};
use crate::order::{lex_lt, key_le, push_str_field, str_field, lemma_lex_le_antisymmetric, lemma_lex_le_total, lemma_lex_le_transitive};
use crate::record::{Classification, EntrySnapshot, Kind, RecordSummary, Revision};
use crate::text::{str_eq, push_str, is_prefix, strip_prefix_seq};
use crate::board::{BoardView, ColumnView};
use crate::decision::decision_verdict;
use crate::draft::{draft_verdict, parse_draft};
use crate::frontmatter::{arrays_verdict, arrays};
use crate::markdown::{markdown_verdict, validate_markdown};
use crate::progress::{parse_progress_log, progress_verdict};
use crate::project_map::{project_map_verdict, text_of, utf8_text};
use crate::record::{DraftView, RecordDraft, SummaryView};
use crate::request::request_verdict;
use crate::strategy::{Fault, binding_result, strategy_result};
use crate::verdict::{Verdict, refused_with};
use crate::activation::{ProjectView, investigations_dir};
use crate::diagnostic::{stable, stable_order_of};
use crate::record::{CasefileSnapshot, EntryView, entry_views};
use crate::validation::{binding_diagnostics, binding_problems, cross_problems, cross_validate};
use vstd::string::StrSliceExecFns;
use sha2::{Digest, Sha256};
use vstd::prelude::*;

verus! {

/// One file of a root as it was read: its relative path, its bytes, and whether it
/// is a symbolic link (whose bytes are then empty).
#[derive(Debug, PartialEq, Eq)]
pub struct ScannedFile {
    pub path: String,
    pub bytes: Vec<u8>,
    pub symlink: bool,
}

/// The plain content of a scanned file.
pub struct FileView {
    pub path: Seq<char>,
    pub bytes: Seq<u8>,
    pub symlink: bool,
}

impl View for ScannedFile {
    type V = FileView;

    open spec fn view(&self) -> FileView {
        FileView { path: self.path@, bytes: self.bytes@, symlink: self.symlink }
    }
}

/// The files of a root by path, in path order: each path once.
#[derive(Debug)]
pub struct FileSet {
    files: Vec<ScannedFile>,
}

/// Paths that strictly ascend.
pub open spec fn ascending(fs: Seq<FileView>) -> bool {
    forall|i: int, j: int| 0 <= i < j < fs.len() ==> lex_lt(str_field(#[trigger] fs[i].path), str_field(#[trigger] fs[j].path))
}

/// The file with this path, if the set has one.
pub open spec fn file_at(fs: Seq<FileView>, path: Seq<char>) -> Option<FileView> {
    if exists|i: int| 0 <= i < fs.len() && #[trigger] fs[i].path == path {
        Some(fs[choose|i: int| 0 <= i < fs.len() && #[trigger] fs[i].path == path])
    } else {
        None
    }
}

impl View for FileSet {
    type V = Seq<FileView>;

    closed spec fn view(&self) -> Seq<FileView> {
        self.files@.map_values(|f: ScannedFile| f@)
    }
}

proof fn lemma_str_field_injective(a: Seq<char>, b: Seq<char>)
    requires
        str_field(a) == str_field(b),
    ensures
        a == b,
{
    assert(str_field(a).len() == a.len() + 1);
    assert(str_field(b).len() == b.len() + 1);
    assert forall|i: int| 0 <= i < a.len() implies a[i] == b[i] by {
        assert(str_field(a)[i] == a.map_values(|c: char| crate::order::char_code(c))[i]);
        assert(str_field(b)[i] == b.map_values(|c: char| crate::order::char_code(c))[i]);
        assert(crate::order::char_code(a[i]) == crate::order::char_code(b[i]));
        assert(a[i] as u32 == b[i] as u32);
        vstd::utf8::char_u32_cast(a[i], a[i] as u32);
        vstd::utf8::char_u32_cast(b[i], b[i] as u32);
    }
    assert(a =~= b);
}

fn path_key(path: &str) -> (k: Vec<i64>)
    ensures
        k@ == str_field(path@),
{
    let mut k: Vec<i64> = Vec::new();
    push_str_field(&mut k, path);
    assert(k@ =~= str_field(path@));
    k
}

/// The view of optional bytes.
pub open spec fn opt_bytes(b: Option<Vec<u8>>) -> Option<Seq<u8>> {
    match b {
        Some(v) => Some(v@),
        None => None,
    }
}

/// Whether the file at `path` is a symbolic link.
pub open spec fn symlink_at(fs: Seq<FileView>, path: Seq<char>) -> bool {
    match file_at(fs, path) {
        Some(f) => f.symlink,
        None => false,
    }
}

/// `after` is `before` with the file at `path` holding `bytes`, or gone when there are none.
pub open spec fn overlaid(before: Seq<FileView>, after: Seq<FileView>, path: Seq<char>, bytes: Option<Seq<u8>>) -> bool {
    &&& ascending(after)
    &&& forall|p: Seq<char>|
        #[trigger] file_at(after, p) == if p == path {
            match bytes {
                Some(b) => Some(FileView { path, bytes: b, symlink: symlink_at(before, path) }),
                None => None,
            }
        } else {
            file_at(before, p)
        }
}

/// Adds a file to path-ordered files, replacing the file with the same path if there is one.
fn insert_ordered(files: &mut Vec<ScannedFile>, file: ScannedFile)
    requires
        ascending(views_of(old(files)@)),
    ensures
        ascending(views_of(final(files)@)),
        forall|p: Seq<char>| #[trigger] file_at(views_of(final(files)@), p) == if p == file.path@ {
            Some(file@)
        } else {
            file_at(views_of(old(files)@), p)
        },
{
    let ghost before = views_of(files@);
    let ghost fv = file@;
    let k = path_key(file.path.as_str());
    let n = files.len();
    let mut p: usize = 0;
    let mut stop = false;
    while !stop && p < n
        invariant
            before == views_of(files@),
            before == files@.map_values(|f: ScannedFile| f@),
            n == before.len(),
            ascending(before),
            k@ == str_field(file.path@),
            p <= n,
            forall|i: int| 0 <= i < p ==> lex_lt(str_field(#[trigger] before[i].path), str_field(file.path@)),
            stop ==> p < n && (before[p as int].path == file.path@ || lex_lt(
                str_field(file.path@),
                str_field(before[p as int].path),
            )),
        decreases (n - p) as int + (if stop { 0int } else { 1int }),
    {
        assert(files@[p as int]@ == before[p as int]);
        if files[p].path == file.path {
            stop = true;
        } else {
            let kp = path_key(files[p].path.as_str());
            if key_le(kp.as_slice(), k.as_slice()) {
                proof {
                    if str_field(before[p as int].path) == str_field(file.path@) {
                        lemma_str_field_injective(before[p as int].path, file.path@);
                    }
                }
                p = p + 1;
            } else {
                proof {
                    lemma_lex_le_total(kp@, k@);
                }
                stop = true;
            }
        }
    }
    let replace = stop && files[p].path == file.path;
    if replace {
        files.remove(p);
    }
    files.insert(p, file);
    proof {
        let after = views_of(files@);
        let expected = if replace { before.update(p as int, fv) } else { before.insert(p as int, fv) };
        assert(after =~= expected);
        assert(after.len() == if replace { before.len() as int } else { before.len() + 1int });
        assert(forall|k: int| 0 <= k < p ==> #[trigger] after[k] == before[k]);
        assert(after[p as int] == fv);
        assert(replace ==> forall|k: int| p < k < before.len() ==> #[trigger] after[k] == before[k]);
        assert(!replace ==> forall|k: int| p < k < before.len() + 1 ==> #[trigger] after[k] == before[k - 1]);
        assert forall|i: int, j: int| 0 <= i < j < after.len() implies lex_lt(
            str_field(#[trigger] after[i].path),
            str_field(#[trigger] after[j].path),
        ) by {
            lemma_insert_ascending(before, p as int, fv, replace, i, j);
        }
        assert forall|q: Seq<char>| #[trigger] file_at(after, q) == if q == fv.path {
            Some(fv)
        } else {
            file_at(before, q)
        } by {
            if q == fv.path {
                lemma_file_at_index(after, p as int);
            } else {
                if exists|i: int| 0 <= i < before.len() && #[trigger] before[i].path == q {
                    let i = choose|i: int| 0 <= i < before.len() && #[trigger] before[i].path == q;
                    lemma_file_at_index(before, i);
                    if replace && i == p {
                        assert(false);
                    }
                    if i < p {
                        assert(after[i] == before[i]);
                        lemma_file_at_index(after, i);
                    } else if replace {
                        assert(after[i] == before[i]);
                        lemma_file_at_index(after, i);
                    } else {
                        assert(after[i + 1] == before[i]);
                        lemma_file_at_index(after, i + 1);
                    }
                } else {
                    assert forall|i: int| 0 <= i < after.len() implies #[trigger] after[i].path != q by {
                        if i < p {
                            assert(after[i] == before[i]);
                        } else if i > p && replace {
                            assert(after[i] == before[i]);
                        } else if i > p {
                            assert(after[i] == before[i - 1]);
                        }
                    }
                }
            }
        }
    }
}

/// Removes the file with this path from path-ordered files, if there is one.
fn remove_ordered(files: &mut Vec<ScannedFile>, path: &str)
    requires
        ascending(views_of(old(files)@)),
    ensures
        ascending(views_of(final(files)@)),
        forall|p: Seq<char>| #[trigger] file_at(views_of(final(files)@), p) == if p == path@ {
            None
        } else {
            file_at(views_of(old(files)@), p)
        },
{
    let ghost before = views_of(files@);
    let n = files.len();
    let mut i: usize = 0;
    let mut found = false;
    while !found && i < n
        invariant
            before == views_of(files@),
            before == files@.map_values(|f: ScannedFile| f@),
            n == before.len(),
            ascending(before),
            i <= n,
            forall|j: int| 0 <= j < i ==> #[trigger] before[j].path != path@,
            found ==> i < n && before[i as int].path == path@,
        decreases (n - i) as int + (if found { 0int } else { 1int }),
    {
        assert(files@[i as int]@ == before[i as int]);
        if str_eq(files[i].path.as_str(), path) {
            found = true;
        } else {
            i = i + 1;
        }
    }
    if !found {
        proof {
            assert forall|q: Seq<char>| #[trigger] file_at(views_of(files@), q) == if q == path@ {
                None
            } else {
                file_at(before, q)
            } by {
                if q == path@ {
                    assert forall|m: int| 0 <= m < before.len() implies #[trigger] before[m].path != q by {}
                }
            }
        }
        return;
    }
    files.remove(i);
    proof {
        let after = views_of(files@);
        assert(after =~= before.remove(i as int));
        assert(forall|k: int| 0 <= k < i ==> #[trigger] after[k] == before[k]);
        assert(forall|k: int| i <= k < after.len() ==> #[trigger] after[k] == before[k + 1]);
        assert forall|a: int, b: int| 0 <= a < b < after.len() implies lex_lt(
            str_field(#[trigger] after[a].path),
            str_field(#[trigger] after[b].path),
        ) by {
            let ba = if a < i { a } else { a + 1 };
            let bb = if b < i { b } else { b + 1 };
            assert(after[a] == before[ba]);
            assert(after[b] == before[bb]);
        }
        assert forall|q: Seq<char>| #[trigger] file_at(after, q) == if q == path@ {
            None
        } else {
            file_at(before, q)
        } by {
            lemma_file_at_index(before, i as int);
            if exists|k: int| 0 <= k < before.len() && #[trigger] before[k].path == q {
                let k = choose|k: int| 0 <= k < before.len() && #[trigger] before[k].path == q;
                lemma_file_at_index(before, k);
                if q == path@ {
                    assert forall|m: int| 0 <= m < after.len() implies #[trigger] after[m].path != q by {
                        let bm = if m < i { m } else { m + 1 };
                        assert(after[m] == before[bm]);
                    }
                } else {
                    if k < i {
                        assert(after[k] == before[k]);
                        lemma_file_at_index(after, k);
                    } else {
                        assert(after[k - 1] == before[k]);
                        lemma_file_at_index(after, k - 1);
                    }
                }
            } else {
                assert forall|m: int| 0 <= m < after.len() implies #[trigger] after[m].path != q by {
                    let bm = if m < i { m } else { m + 1 };
                    assert(after[m] == before[bm]);
                }
            }
        }
    }
}

/// The views of files.
pub open spec fn views_of(fs: Seq<ScannedFile>) -> Seq<FileView> {
    fs.map_values(|f: ScannedFile| f@)
}

impl FileSet {
    /// The set's well-formedness: paths strictly ascend.
    #[verifier::type_invariant]
    pub closed spec fn wf(&self) -> bool {
        ascending(self@)
    }

    /// An empty set.
    pub fn new() -> (s: FileSet)
        ensures
            s@.len() == 0,
    {
        let s = FileSet { files: Vec::new() };
        assert(s@ =~= Seq::<FileView>::empty());
        s
    }

    /// The files, in path order.
    pub fn files(&self) -> (r: &Vec<ScannedFile>)
        ensures
            r@.map_values(|f: ScannedFile| f@) == self@,
    {
        &self.files
    }

    /// Adds a file, replacing the file with the same path if there is one.
    pub fn insert(&mut self, file: ScannedFile)
        ensures
            forall|p: Seq<char>| #[trigger] file_at(final(self)@, p) == if p == file.path@ {
                Some(file@)
            } else {
                file_at(old(self)@, p)
            },
    {
        proof {
            use_type_invariant(&*self);
        }
        let mut files: Vec<ScannedFile> = Vec::new();
        std::mem::swap(&mut files, &mut self.files);
        insert_ordered(&mut files, file);
        self.files = files;
    }

    /// The file with this path, if the set has one.
    pub fn get(&self, path: &str) -> (r: Option<&ScannedFile>)
        ensures
            match r {
                Some(f) => file_at(self@, path@) == Some(f@),
                None => file_at(self@, path@) is None,
            },
    {
        proof {
            use_type_invariant(self);
        }
        let ghost fs = self@;
        let mut i: usize = 0;
        while i < self.files.len()
            invariant
                fs == self@,
                fs == self.files@.map_values(|f: ScannedFile| f@),
                ascending(fs),
                i <= fs.len(),
                forall|j: int| 0 <= j < i ==> fs[j].path != path@,
            decreases self.files.len() - i,
        {
            if str_eq(self.files[i].path.as_str(), path) {
                proof {
                    assert(fs[i as int].path == path@);
                    let c = choose|c: int| 0 <= c < fs.len() && #[trigger] fs[c].path == path@;
                    if c != i {
                        if c < i {
                            assert(fs[c].path != path@);
                        } else {
                            assert(lex_lt(str_field(fs[i as int].path), str_field(fs[c].path)));
                        }
                    }
                }
                return Some(&self.files[i]);
            }
            i = i + 1;
        }
        None
    }

    /// A copy of the set.
    pub fn copy(&self) -> (r: FileSet)
        ensures
            r@ == self@,
    {
        proof {
            use_type_invariant(self);
        }
        let mut out: Vec<ScannedFile> = Vec::new();
        let mut i: usize = 0;
        while i < self.files.len()
            invariant
                i <= self.files@.len(),
                out@.map_values(|f: ScannedFile| f@) == self.files@.take(i as int).map_values(|f: ScannedFile| f@),
            decreases self.files.len() - i,
        {
            let f = &self.files[i];
            let ghost prior = out@.map_values(|f: ScannedFile| f@);
            out.push(ScannedFile { path: f.path.clone(), bytes: crate::draft::copy_bytes(&f.bytes), symlink: f.symlink });
            proof {
                assert(out@.map_values(|f: ScannedFile| f@) =~= prior.push(f@));
                assert(self.files@.take(i + 1).map_values(|f: ScannedFile| f@) =~= self.files@.take(i as int).map_values(
                    |f: ScannedFile| f@,
                ).push(f@));
            }
            i = i + 1;
        }
        assert(self.files@.take(i as int) =~= self.files@);
        FileSet { files: out }
    }

    /// The set with the file at `path` replaced by these bytes (keeping whether the
    /// path is a symbolic link), or removed when there are none.
    pub fn overlay(&self, path: &str, bytes: Option<Vec<u8>>) -> (r: FileSet)
        ensures
            overlaid(self@, r@, path@, opt_bytes(bytes)),
    {
        let mut r = self.copy();
        match bytes {
            Some(b) => {
                let symlink = match self.get(path) {
                    Some(f) => f.symlink,
                    None => false,
                };
                r.insert(ScannedFile { path: path.to_owned(), bytes: b, symlink });
            },
            None => {
                r.remove(path);
            },
        }
        proof {
            use_type_invariant(&r);
        }
        r
    }

    /// Removes the file with this path, if there is one.
    pub fn remove(&mut self, path: &str)
        ensures
            forall|p: Seq<char>| #[trigger] file_at(final(self)@, p) == if p == path@ {
                None
            } else {
                file_at(old(self)@, p)
            },
    {
        proof {
            use_type_invariant(&*self);
        }
        let mut files: Vec<ScannedFile> = Vec::new();
        std::mem::swap(&mut files, &mut self.files);
        remove_ordered(&mut files, path);
        self.files = files;
    }
}

proof fn lemma_lex_lt_transitive(a: Seq<i64>, b: Seq<i64>, c: Seq<i64>)
    requires
        lex_lt(a, b),
        lex_lt(b, c),
    ensures
        lex_lt(a, c),
{
    lemma_lex_le_transitive(a, b, c);
    if a == c {
        lemma_lex_le_antisymmetric(a, b);
    }
}

proof fn lemma_insert_ascending(before: Seq<FileView>, p: int, f: FileView, replace: bool, i: int, j: int)
    requires
        ascending(before),
        0 <= p <= before.len(),
        forall|k: int| 0 <= k < p ==> lex_lt(str_field(#[trigger] before[k].path), str_field(f.path)),
        replace ==> p < before.len() && before[p].path == f.path,
        !replace && p < before.len() ==> lex_lt(str_field(f.path), str_field(before[p].path)),
        0 <= i < j < (if replace { before.len() as int } else { before.len() + 1int }),
    ensures
        ({
            let after = if replace { before.update(p, f) } else { before.insert(p, f) };
            lex_lt(str_field(after[i].path), str_field(after[j].path))
        }),
{
    let after = if replace { before.update(p, f) } else { before.insert(p, f) };
    let kf = str_field(f.path);
    if replace {
        if i == p {
            assert(after[j] == before[j]);
            assert(lex_lt(str_field(before[p].path), str_field(before[j].path)));
        } else if j == p {
            assert(after[i] == before[i]);
        } else {
            assert(after[i] == before[i]);
            assert(after[j] == before[j]);
        }
    } else {
        if i < p && j == p {
            assert(after[i] == before[i]);
        } else if i < p && j > p {
            assert(after[i] == before[i]);
            assert(after[j] == before[j - 1]);
            if j - 1 > p {
                lemma_lex_lt_transitive(kf, str_field(before[p].path), str_field(before[j - 1].path));
            }
            lemma_lex_lt_transitive(str_field(before[i].path), kf, str_field(before[j - 1].path));
        } else if i == p {
            assert(after[j] == before[j - 1]);
            if j - 1 > p {
                lemma_lex_lt_transitive(kf, str_field(before[p].path), str_field(before[j - 1].path));
            }
        } else if j < p {
            assert(after[i] == before[i]);
            assert(after[j] == before[j]);
        } else {
            assert(after[i] == before[i - 1]);
            assert(after[j] == before[j - 1]);
        }
    }
}

/// In ascending files, the file at an index is the file for its path.
proof fn lemma_file_at_index(fs: Seq<FileView>, i: int)
    requires
        ascending(fs),
        0 <= i < fs.len(),
    ensures
        file_at(fs, fs[i].path) == Some(fs[i]),
        forall|j: int| 0 <= j < fs.len() && j != i ==> #[trigger] fs[j].path != fs[i].path,
{
    assert forall|j: int| 0 <= j < fs.len() && j != i implies #[trigger] fs[j].path != fs[i].path by {
        if j < i {
            assert(lex_lt(str_field(fs[j].path), str_field(fs[i].path)));
        } else {
            assert(lex_lt(str_field(fs[i].path), str_field(fs[j].path)));
        }
    }
    assert(fs[i].path == fs[i].path);
}

/// The diagnostic a refusal describes, at `path`.
pub open spec fn refusal_view<T>(path: Seq<char>, v: Verdict<T>) -> DiagView {
    match v {
        Verdict::Refuse { code, message, field, section } => DiagView {
            schema_version: crate::diagnostic::SCHEMA_VERSION,
            code,
            path,
            field,
            section,
            message,
        },
        Verdict::Accept(_) => plain(path, Seq::empty(), Seq::empty()),
    }
}

/// The diagnostic a strategy fault describes, at `path`.
pub open spec fn fault_view(path: Seq<char>, f: Fault) -> DiagView {
    DiagView {
        schema_version: crate::diagnostic::SCHEMA_VERSION,
        code: f.code,
        path,
        field: f.field,
        section: None,
        message: f.message,
    }
}

proof fn lemma_refused_views<T>(ds: Seq<Diagnostic>, path: Seq<char>, v: Verdict<T>)
    requires
        refused_with(ds, path, v),
    ensures
        diag_views(ds) == seq![refusal_view(path, v)],
{
    assert(diag_views(ds) =~= seq![refusal_view(path, v)]);
}

/// The names of a board's columns.
pub open spec fn column_names(b: BoardView) -> Seq<Seq<char>> {
    b.columns.map_values(|c: ColumnView| c.name)
}

/// What reading a governed record of `kind` yields: its identity and summary, or
/// its diagnostics.
pub open spec fn record_result(path: Seq<char>, kind: Kind, text: Seq<char>) -> Result<(Option<Seq<char>>, Option<SummaryView>), Seq<DiagView>> {
    match kind {
        Kind::Ticket | Kind::Epic | Kind::Board => match draft_verdict(path, kind, text) {
            Verdict::Accept(DraftView::Ticket(w)) => Ok((
                Some(w.id),
                Some(SummaryView::WorkItem { id: w.id, title: w.title, status: w.status, rank: w.rank }),
            )),
            Verdict::Accept(DraftView::Epic(w)) => Ok((
                Some(w.id),
                Some(SummaryView::WorkItem { id: w.id, title: w.title, status: w.status, rank: w.rank }),
            )),
            Verdict::Accept(DraftView::Board(b)) => Ok((
                Some(b.id),
                Some(SummaryView::Board { id: b.id, title: b.title, columns: column_names(b) }),
            )),
            v => Err(seq![refusal_view(path, v)]),
        },
        Kind::Request => match request_verdict(text) {
            Verdict::Accept(title) => Ok((None, Some(SummaryView::Markdown(title)))),
            v => Err(seq![refusal_view(path, v)]),
        },
        Kind::Decision => match decision_verdict(path, text) {
            Verdict::Accept((id, title)) => Ok((Some(id), Some(SummaryView::Markdown(title)))),
            v => Err(seq![refusal_view(path, v)]),
        },
        Kind::Evidence | Kind::Review => match markdown_verdict(text, Seq::empty(), None) {
            Verdict::Accept(title) => match arrays_verdict(text) {
                Verdict::Accept(_) => Ok((None, Some(SummaryView::Markdown(title)))),
                v => Err(seq![refusal_view(path, v)]),
            },
            v => Err(seq![refusal_view(path, v)]),
        },
        Kind::Plan => match markdown_verdict(text, seq!["Objective"@], None) {
            Verdict::Accept(title) => Ok((None, Some(SummaryView::Markdown(title)))),
            v => Err(seq![refusal_view(path, v)]),
        },
        Kind::Closeout => match markdown_verdict(text, seq!["Scope disposition"@], None) {
            Verdict::Accept(title) => Ok((None, Some(SummaryView::Markdown(title)))),
            v => Err(seq![refusal_view(path, v)]),
        },
        Kind::Strategy => match strategy_result(path, text) {
            Ok((strategy_id, phase, adapter)) => Ok((None, Some(SummaryView::Strategy { strategy_id, phase, adapter }))),
            Err(f) => Err(seq![fault_view(path, f)]),
        },
        Kind::StrategyBinding => match binding_result(text) {
            Ok(b) => Ok((None, Some(SummaryView::StrategyBinding(b)))),
            Err(f) => Err(seq![fault_view(path, f)]),
        },
        Kind::Progress => match progress_verdict(text) {
            Verdict::Accept(_) => Ok((None, None)),
            v => Err(seq![refusal_view(path, v)]),
        },
        Kind::Activation | Kind::ProjectMap => Ok((None, None)),
    }
}

fn column_name_list(b: &crate::board::BoardDraft) -> (r: Vec<String>)
    ensures
        strs(r@) == column_names(b@),
{
    let mut out: Vec<String> = Vec::new();
    let mut i: usize = 0;
    while i < b.columns.len()
        invariant
            i <= b.columns@.len(),
            strs(out@) == column_names(b@).take(i as int),
        decreases b.columns.len() - i,
    {
        let ghost prior = strs(out@);
        out.push(b.columns[i].name.clone());
        assert(strs(out@) =~= prior.push(b.columns@[i as int].name@));
        assert(column_names(b@).take(i + 1) =~= column_names(b@).take(i as int).push(b.columns@[i as int].name@));
        i = i + 1;
    }
    assert(column_names(b@).take(i as int) =~= column_names(b@));
    out
}

/// Reads a governed record of `kind` by the rules of its kind.
fn read_record(path: &str, kind: Kind, text: &str) -> (r: Result<(Option<String>, Option<RecordSummary>), Vec<Diagnostic>>)
    ensures
        match r {
            Ok((id, summary)) => record_result(path@, kind, text@) == Ok::<(Option<Seq<char>>, Option<SummaryView>), Seq<DiagView>>(
                (
                    match id {
                        Some(s) => Some(s@),
                        None => None,
                    },
                    crate::record::opt_summary(summary),
                ),
            ),
            Err(ds) => record_result(path@, kind, text@) == Err::<(Option<Seq<char>>, Option<SummaryView>), Seq<DiagView>>(
                diag_views(ds@),
            ),
        },
{
    match kind {
        Kind::Ticket | Kind::Epic | Kind::Board => match parse_draft(path, kind, text) {
            Ok(RecordDraft::Ticket(item)) => Ok((
                Some(item.id.clone()),
                Some(RecordSummary::WorkItem { id: item.id, title: item.title, status: item.status, rank: item.rank }),
            )),
            Ok(RecordDraft::Epic(item)) => Ok((
                Some(item.id.clone()),
                Some(RecordSummary::WorkItem { id: item.id, title: item.title, status: item.status, rank: item.rank }),
            )),
            Ok(RecordDraft::Board(b)) => {
                let columns = column_name_list(&b);
                Ok((Some(b.id.clone()), Some(RecordSummary::Board { id: b.id, title: b.title, columns })))
            }
            Err(ds) => {
                proof {
                    lemma_refused_views(ds@, path@, draft_verdict(path@, kind, text@));
                }
                Err(ds)
            }
        },
        Kind::Request => match crate::request::parse(path, text) {
            Ok(summary) => Ok((None, Some(summary))),
            Err(ds) => {
                proof {
                    lemma_refused_views(ds@, path@, request_verdict(text@));
                }
                Err(ds)
            }
        },
        Kind::Decision => match crate::decision::parse(path, text) {
            Ok(pair) => Ok(pair),
            Err(ds) => {
                proof {
                    lemma_refused_views(ds@, path@, decision_verdict(path@, text@));
                }
                Err(ds)
            }
        },
        Kind::Evidence | Kind::Review => {
            let none: Vec<&str> = Vec::new();
            assert(none@.map_values(|s: &str| s@) =~= Seq::<Seq<char>>::empty());
            match validate_markdown(path, text, none.as_slice(), None) {
                Ok(summary) => match arrays(path, text) {
                    Ok(_) => Ok((None, Some(summary))),
                    Err(ds) => {
                        proof {
                            lemma_refused_views(ds@, path@, arrays_verdict(text@));
                        }
                        Err(ds)
                    }
                },
                Err(ds) => {
                    proof {
                        lemma_refused_views(ds@, path@, markdown_verdict(text@, Seq::empty(), None));
                    }
                    Err(ds)
                }
            }
        },
        Kind::Plan => {
            let required: Vec<&str> = vec!["Objective"];
            assert(required@.map_values(|s: &str| s@) =~= seq!["Objective"@]);
            match validate_markdown(path, text, required.as_slice(), None) {
                Ok(summary) => Ok((None, Some(summary))),
                Err(ds) => {
                    proof {
                        lemma_refused_views(ds@, path@, markdown_verdict(text@, seq!["Objective"@], None));
                    }
                    Err(ds)
                }
            }
        },
        Kind::Closeout => {
            let required: Vec<&str> = vec!["Scope disposition"];
            assert(required@.map_values(|s: &str| s@) =~= seq!["Scope disposition"@]);
            match validate_markdown(path, text, required.as_slice(), None) {
                Ok(summary) => Ok((None, Some(summary))),
                Err(ds) => {
                    proof {
                        lemma_refused_views(ds@, path@, markdown_verdict(text@, seq!["Scope disposition"@], None));
                    }
                    Err(ds)
                }
            }
        },
        Kind::Strategy => match crate::strategy::parse(path, text) {
            Ok(summary) => Ok((None, Some(summary))),
            Err(ds) => {
                assert(diag_views(ds@) =~= seq![fault_view(path@, strategy_result(path@, text@)->Err_0)]);
                Err(ds)
            }
        },
        Kind::StrategyBinding => match crate::strategy::parse_binding(path, text) {
            Ok(summary) => Ok((None, Some(summary))),
            Err(ds) => {
                assert(diag_views(ds@) =~= seq![fault_view(path@, binding_result(text@)->Err_0)]);
                Err(ds)
            }
        },
        Kind::Progress => match parse_progress_log(path, text) {
            Ok(_) => Ok((None, None)),
            Err(ds) => {
                proof {
                    lemma_refused_views(ds@, path@, progress_verdict(text@));
                }
                Err(ds)
            }
        },
        Kind::Activation | Kind::ProjectMap => Ok((None, None)),
    }
}

/// The SHA-256 digest of some bytes.
pub uninterp spec fn sha256(bytes: Seq<u8>) -> Seq<u8>;

/// Hashes bytes with `sha2::Sha256`; the digest has 32 bytes.
/// The contract names the digest; SHA-256 itself is not restated here.
#[verifier::external_body]
fn sha256_digest(bytes: &[u8]) -> (r: Vec<u8>)
    ensures
        r@ == sha256(bytes@),
        r@.len() == 32,
{
    let mut hasher = Sha256::new();
    hasher.update(bytes);
    hasher.finalize().to_vec()
}

/// The lower-case hexadecimal digit of a value below 16.
pub open spec fn hex_char(d: u8) -> char {
    if d < 10 {
        ((48 + d) as u8) as char
    } else {
        ((87 + d) as u8) as char
    }
}

/// Bytes as lower-case hexadecimal, two digits each.
pub open spec fn hex(bytes: Seq<u8>) -> Seq<char>
    decreases bytes.len(),
{
    if bytes.len() == 0 {
        Seq::empty()
    } else {
        hex(bytes.drop_last()) + seq![hex_char(bytes.last() / 16), hex_char(bytes.last() % 16)]
    }
}

/// The content revision of some bytes: `sha256:` and the hexadecimal digest.
pub open spec fn revision_text(bytes: Seq<u8>) -> Seq<char> {
    "sha256:"@ + hex(sha256(bytes))
}

fn hex_digit(d: u8) -> (c: char)
    requires
        d < 16,
    ensures
        c == hex_char(d),
{
    if d < 10 {
        (48 + d) as char
    } else {
        (87 + d) as char
    }
}

/// Bytes as lower-case hexadecimal.
pub fn hex_string(bytes: &[u8]) -> (r: String)
    ensures
        r@ == hex(bytes@),
{
    let mut cs: Vec<char> = Vec::new();
    let mut i: usize = 0;
    while i < bytes.len()
        invariant
            i <= bytes@.len(),
            cs@ == hex(bytes@.take(i as int)),
        decreases bytes.len() - i,
    {
        let b = bytes[i];
        cs.push(hex_digit(b / 16));
        cs.push(hex_digit(b % 16));
        proof {
            assert(bytes@.take(i + 1).drop_last() =~= bytes@.take(i as int));
            assert(bytes@.take(i + 1).last() == b);
        }
        i = i + 1;
        assert(cs@ =~= hex(bytes@.take(i as int)));
    }
    assert(bytes@.take(i as int) =~= bytes@);
    crate::text::string_of(cs.as_slice())
}

/// The content revision of some bytes.
pub fn digest(bytes: &[u8]) -> (r: Revision)
    ensures
        r.0@ == revision_text(bytes@),
{
    let d = sha256_digest(bytes);
    let mut text = "sha256:".to_owned();
    push_str(&mut text, hex_string(d.as_slice()).as_str());
    Revision(text)
}

/// An invalid classification with one diagnostic.
pub open spec fn invalid_outcome(path: Seq<char>, kind: Option<Kind>, code: Seq<char>, message: Seq<char>) -> OutcomeView {
    OutcomeView {
        classification: Classification::Invalid,
        kind,
        identity: None,
        summary: None,
        diagnostics: seq![plain(path, code, message)],
    }
}

fn invalid(path: &str, kind: Option<Kind>, code: &str, message: &str) -> (r: Outcome)
    ensures
        outcome_view(r) == invalid_outcome(path@, kind, code@, message@),
{
    let ds = vec![diag(path, code, message)];
    assert(diag_views(ds@) =~= seq![plain(path@, code@, message@)]);
    (Classification::Invalid, kind, None, None, ds)
}

/// How the project map classifies as a record.
pub open spec fn project_map_outcome(path: Seq<char>, bytes: Seq<u8>, active: ActivationView) -> OutcomeView {
    match project_map_verdict(bytes, slugs(active)) {
        Verdict::Accept(projects) => OutcomeView {
            classification: Classification::Governed,
            kind: Some(Kind::ProjectMap),
            identity: None,
            summary: Some(SummaryView::ProjectMap(projects)),
            diagnostics: Seq::empty(),
        },
        v => OutcomeView {
            classification: Classification::Invalid,
            kind: Some(Kind::ProjectMap),
            identity: None,
            summary: None,
            diagnostics: seq![refusal_view(path, v)],
        },
    }
}

fn project_map_entry(path: &str, bytes: &[u8], active: &Activation) -> (r: Outcome)
    ensures
        outcome_view(r) == project_map_outcome(path@, bytes@, active@),
{
    let names = slug_list(active);
    let mut governed: Vec<&str> = Vec::new();
    let mut i: usize = 0;
    while i < names.len()
        invariant
            i <= names@.len(),
            governed@.map_values(|g: &str| g@) == strs(names@).take(i as int),
        decreases names.len() - i,
    {
        let ghost prior = governed@.map_values(|g: &str| g@);
        governed.push(names[i].as_str());
        assert(governed@.map_values(|g: &str| g@) =~= prior.push(names@[i as int]@));
        assert(strs(names@).take(i + 1) =~= strs(names@).take(i as int).push(names@[i as int]@));
        i = i + 1;
    }
    assert(strs(names@).take(i as int) =~= strs(names@));
    match crate::project_map::parse(path, bytes, governed.as_slice()) {
        Ok(summary) => {
            let empty: Vec<Diagnostic> = Vec::new();
            assert(diag_views(empty@) =~= Seq::<DiagView>::empty());
            (Classification::Governed, Some(Kind::ProjectMap), None, Some(summary), empty)
        }
        Err(ds) => {
            proof {
                lemma_refused_views(ds@, path@, project_map_verdict(bytes@, slugs(active@)));
            }
            (Classification::Invalid, Some(Kind::ProjectMap), None, None, ds)
        }
    }
}

/// How a file other than the symlinks classifies under an activation.
pub open spec fn classify_outcome(path: Seq<char>, bytes: Seq<u8>, active: ActivationView) -> OutcomeView {
    if path == "casefile.toml"@ {
        activation_entry_outcome(path, bytes, active)
    } else if path == "projects.toml"@ {
        project_map_outcome(path, bytes, active)
    } else {
        match kind_for(path, active) {
            None => OutcomeView {
                classification: if in_active_spec(path, active) {
                    Classification::Raw
                } else {
                    Classification::Ungoverned
                },
                kind: None,
                identity: None,
                summary: None,
                diagnostics: Seq::empty(),
            },
            Some(kind) => match text_of(bytes) {
                None => invalid_outcome(path, Some(kind), "invalid_utf8"@, "governed text must be UTF-8"@),
                Some(text) => match record_result(path, kind, text) {
                    Ok((identity, summary)) => OutcomeView {
                        classification: Classification::Governed,
                        kind: Some(kind),
                        identity,
                        summary,
                        diagnostics: Seq::empty(),
                    },
                    Err(ds) => OutcomeView {
                        classification: Classification::Invalid,
                        kind: Some(kind),
                        identity: None,
                        summary: None,
                        diagnostics: ds,
                    },
                },
            },
        }
    }
}

/// Classifies one file under an activation.
pub fn classify(path: &str, bytes: &[u8], active: &Activation) -> (r: Outcome)
    ensures
        outcome_view(r) == classify_outcome(path@, bytes@, active@),
{
    if str_eq(path, "casefile.toml") {
        return activation_entry(path, bytes, active);
    }
    if str_eq(path, "projects.toml") {
        return project_map_entry(path, bytes, active);
    }
    let kind = match kind_for_path(path, active) {
        Some(k) => k,
        None => {
            let empty: Vec<Diagnostic> = Vec::new();
            assert(diag_views(empty@) =~= Seq::<DiagView>::empty());
            let c = if in_active(path, active) {
                Classification::Raw
            } else {
                Classification::Ungoverned
            };
            return (c, None, None, None, empty);
        }
    };
    let text = match utf8_text(bytes) {
        Some(t) => t,
        None => {
            return invalid(path, Some(kind), "invalid_utf8", "governed text must be UTF-8");
        }
    };
    match read_record(path, kind, text.as_str()) {
        Ok((identity, summary)) => {
            let empty: Vec<Diagnostic> = Vec::new();
            assert(diag_views(empty@) =~= Seq::<DiagView>::empty());
            (Classification::Governed, Some(kind), identity, summary, empty)
        }
        Err(ds) => (Classification::Invalid, Some(kind), None, None, ds),
    }
}

/// How a scanned file classifies: everything is ungoverned without an activation,
/// symbolic links are unsafe, and every other file classifies by its path and bytes.
pub open spec fn file_outcome(f: FileView, state: ActivationState, active: ActivationView) -> OutcomeView {
    if state == ActivationState::Unactivated {
        OutcomeView {
            classification: Classification::Ungoverned,
            kind: None,
            identity: None,
            summary: None,
            diagnostics: Seq::empty(),
        }
    } else if f.symlink {
        invalid_outcome(f.path, kind_for(f.path, active), "unsafe_path"@, "governed paths cannot be symlinks"@)
    } else {
        classify_outcome(f.path, f.bytes, active)
    }
}

/// The entry of a scanned file.
pub open spec fn entry_of(f: FileView, state: ActivationState, active: ActivationView) -> crate::record::EntryView {
    let o = file_outcome(f, state, active);
    crate::record::EntryView {
        path: f.path,
        classification: o.classification,
        kind: o.kind,
        identity: o.identity,
        content_revision: revision_text(f.bytes),
        summary: o.summary,
        original_bytes: f.bytes,
    }
}

/// The diagnostics the files' classification produces, file by file.
pub open spec fn files_found(files: Seq<FileView>, state: ActivationState, active: ActivationView) -> Seq<DiagView>
    decreases files.len(),
{
    if files.len() == 0 {
        Seq::empty()
    } else {
        files_found(files.drop_last(), state, active) + file_outcome(files.last(), state, active).diagnostics
    }
}

/// The activation content an outcome stands for; the empty activation when it has none.
pub open spec fn active_view(o: Option<ActivationView>) -> ActivationView {
    match o {
        Some(a) => a,
        None => ActivationView { schema_version: None, projects: Seq::empty() },
    }
}

/// The bytes a root's revision hashes: each entry's path and content revision,
/// each followed by a zero byte.
pub open spec fn revision_input(es: Seq<EntryView>) -> Seq<u8>
    decreases es.len(),
{
    if es.len() == 0 {
        Seq::empty()
    } else {
        revision_input(es.drop_last()) + vstd::utf8::encode_utf8(es.last().path) + seq![0u8]
            + vstd::utf8::encode_utf8(es.last().content_revision) + seq![0u8]
    }
}

/// The identities of a project's investigations, skipping paths outside its investigations directory.
pub open spec fn investigation_ids(slug: Seq<char>, invs: Seq<Seq<char>>) -> Seq<Seq<char>>
    decreases invs.len(),
{
    if invs.len() == 0 {
        Seq::empty()
    } else {
        match crate::text::strip_prefix_seq(invs.last(), investigations_dir(slug)) {
            Some(id) => investigation_ids(slug, invs.drop_last()).push(id),
            None => investigation_ids(slug, invs.drop_last()),
        }
    }
}

/// Each project with the identities of its investigations.
pub open spec fn roots_of(a: ActivationView) -> Seq<(Seq<char>, Seq<Seq<char>>)> {
    a.projects.map_values(|p: (Seq<char>, ProjectView)| (p.0, investigation_ids(p.0, p.1.investigations)))
}

/// What scanning a root yields: its activation state, its projects' investigations,
/// every file as an entry with its revision, the revision of the whole, and every
/// diagnostic in stable order.
#[derive(Debug)]
pub struct ScanResult {
    pub activation: ActivationState,
    pub investigation_roots: Vec<(String, Vec<String>)>,
    pub snapshot: CasefileSnapshot,
    pub diagnostics: Vec<Diagnostic>,
}

/// The views of investigation roots.
pub open spec fn roots_view(r: Seq<(String, Vec<String>)>) -> Seq<(Seq<char>, Seq<Seq<char>>)> {
    r.map_values(|p: (String, Vec<String>)| (p.0@, strs(p.1@)))
}

fn file_entry(f: &ScannedFile, state: ActivationState, active: &Activation) -> (r: (EntrySnapshot, Vec<Diagnostic>))
    ensures
        r.0@ == entry_of(f@, state, active@),
        diag_views(r.1@) == file_outcome(f@, state, active@).diagnostics,
{
    let o: Outcome = if state == ActivationState::Unactivated {
        let empty: Vec<Diagnostic> = Vec::new();
        assert(diag_views(empty@) =~= Seq::<DiagView>::empty());
        (Classification::Ungoverned, None, None, None, empty)
    } else if f.symlink {
        invalid(f.path.as_str(), kind_for_path(f.path.as_str(), active), "unsafe_path", "governed paths cannot be symlinks")
    } else {
        classify(f.path.as_str(), f.bytes.as_slice(), active)
    };
    let (classification, kind, identity, summary, found) = o;
    let entry = EntrySnapshot {
        path: f.path.clone(),
        classification,
        kind,
        identity,
        content_revision: digest(f.bytes.as_slice()),
        summary,
        original_bytes: crate::draft::copy_bytes(&f.bytes),
    };
    (entry, found)
}

fn push_bytes(out: &mut Vec<u8>, more: &Vec<u8>)
    ensures
        final(out)@ == old(out)@ + more@,
{
    let ghost start = out@;
    let mut i: usize = 0;
    while i < more.len()
        invariant
            i <= more@.len(),
            out@ == start + more@.take(i as int),
        decreases more.len() - i,
    {
        out.push(more[i]);
        i = i + 1;
        assert(out@ =~= start + more@.take(i as int));
    }
    assert(more@.take(i as int) =~= more@);
}

fn revision_of(entries: &Vec<EntrySnapshot>) -> (r: Revision)
    ensures
        r.0@ == revision_text(revision_input(entry_views(entries@))),
{
    let ghost ev = entry_views(entries@);
    let mut input: Vec<u8> = Vec::new();
    let mut i: usize = 0;
    assert(ev.take(0) =~= Seq::<EntryView>::empty());
    while i < entries.len()
        invariant
            ev == entry_views(entries@),
            i <= ev.len(),
            input@ == revision_input(ev.take(i as int)),
        decreases entries.len() - i,
    {
        let e = &entries[i];
        push_bytes(&mut input, &e.path.as_str().as_bytes_vec());
        input.push(0);
        push_bytes(&mut input, &e.content_revision.0.as_str().as_bytes_vec());
        input.push(0);
        proof {
            assert(ev.take(i + 1).drop_last() =~= ev.take(i as int));
            assert(ev.take(i + 1).last() == e@);
        }
        i = i + 1;
        assert(input@ =~= revision_input(ev.take(i as int)));
    }
    assert(ev.take(i as int) =~= ev);
    digest(input.as_slice())
}

fn investigation_id_list(slug: &String, invs: &Vec<String>) -> (r: Vec<String>)
    ensures
        strs(r@) == investigation_ids(slug@, strs(invs@)),
{
    let mut out: Vec<String> = Vec::new();
    let mut i: usize = 0;
    assert(strs(invs@).take(0) =~= Seq::<Seq<char>>::empty());
    while i < invs.len()
        invariant
            i <= invs@.len(),
            strs(out@) == investigation_ids(slug@, strs(invs@).take(i as int)),
        decreases invs.len() - i,
    {
        proof {
            assert(strs(invs@).take(i + 1).drop_last() =~= strs(invs@).take(i as int));
            assert(strs(invs@).take(i + 1).last() == invs@[i as int]@);
        }
        match investigation_identity(slug.as_str(), invs[i].as_str()) {
            Some(id) => {
                let ghost prior = strs(out@);
                out.push(id);
                assert(strs(out@) =~= prior.push(out@.last()@));
            }
            None => {}
        }
        i = i + 1;
    }
    assert(strs(invs@).take(i as int) =~= strs(invs@));
    out
}

fn roots(active: &Activation) -> (r: Vec<(String, Vec<String>)>)
    ensures
        roots_view(r@) == roots_of(active@),
{
    let mut out: Vec<(String, Vec<String>)> = Vec::new();
    let mut i: usize = 0;
    while i < active.projects.len()
        invariant
            i <= active.projects@.len(),
            roots_view(out@) == roots_of(active@).take(i as int),
        decreases active.projects.len() - i,
    {
        let (slug, project) = (&active.projects[i].0, &active.projects[i].1);
        let ids = investigation_id_list(slug, &project.investigations);
        let ghost prior = roots_view(out@);
        out.push((slug.clone(), ids));
        assert(roots_view(out@) =~= prior.push((slug@, strs(ids@))));
        assert(roots_of(active@).take(i + 1) =~= roots_of(active@).take(i as int).push(roots_of(active@)[i as int]));
        i = i + 1;
    }
    assert(roots_of(active@).take(i as int) =~= roots_of(active@));
    out
}

fn classify_files(files: &FileSet, state: ActivationState, active: &Activation) -> (r: (Vec<EntrySnapshot>, Vec<Diagnostic>))
    ensures
        entry_views(r.0@) == files@.map_values(|f: FileView| entry_of(f, state, active@)),
        diag_views(r.1@) == files_found(files@, state, active@),
{
    let list = files.files();
    let ghost fs = files@;
    let ghost a = active@;
    let mut entries: Vec<EntrySnapshot> = Vec::new();
    let mut found: Vec<Diagnostic> = Vec::new();
    let mut i: usize = 0;
    assert(fs.take(0) =~= Seq::<FileView>::empty());
    assert(entry_views(entries@) =~= Seq::<EntryView>::empty());
    assert(diag_views(found@) =~= Seq::<DiagView>::empty());
    while i < list.len()
        invariant
            fs == list@.map_values(|f: ScannedFile| f@),
            active@ == a,
            i <= fs.len(),
            entry_views(entries@) == fs.take(i as int).map_values(|f: FileView| entry_of(f, state, a)),
            diag_views(found@) == files_found(fs.take(i as int), state, a),
        decreases list.len() - i,
    {
        let (entry, more) = file_entry(&list[i], state, active);
        assert(list@[i as int]@ == fs[i as int]);
        let ghost pe = entry_views(entries@);
        let ghost pf = diag_views(found@);
        entries.push(entry);
        let mut more = more;
        found.append(&mut more);
        proof {
            assert(fs.take(i + 1).drop_last() =~= fs.take(i as int));
            assert(fs.take(i + 1).last() == fs[i as int]);
            assert(entry_views(entries@) =~= pe.push(entries@.last()@));
            assert(fs.take(i + 1).map_values(|f: FileView| entry_of(f, state, a)) =~= fs.take(i as int).map_values(
                |f: FileView| entry_of(f, state, a),
            ).push(entry_of(fs[i as int], state, a)));
            assert(diag_views(found@) =~= pf + file_outcome(fs[i as int], state, a).diagnostics);
        }
        i = i + 1;
    }
    assert(fs.take(i as int) =~= fs);
    (entries, found)
}

/// The activation text as plain characters.
pub open spec fn text_view(t: Option<&str>) -> Option<Seq<char>> {
    match t {
        Some(v) => Some(v@),
        None => None,
    }
}

/// The activation state that a root's activation text gives.
pub open spec fn scan_state(text: Option<Seq<char>>) -> ActivationState {
    activation_outcome(text).0
}

/// The activation that a root's activation text gives (empty when it gives none).
pub open spec fn scan_active(text: Option<Seq<char>>) -> ActivationView {
    active_view(activation_outcome(text).1)
}

/// The entries of a root's files, in path order.
pub open spec fn scan_entries(text: Option<Seq<char>>, files: Seq<FileView>) -> Seq<EntryView> {
    files.map_values(|f: FileView| entry_of(f, scan_state(text), scan_active(text)))
}

/// The revision of a whole root.
pub open spec fn scan_revision(text: Option<Seq<char>>, files: Seq<FileView>) -> Seq<char> {
    revision_text(revision_input(scan_entries(text, files)))
}

/// Every diagnostic of a root, before ordering: the activation's, each file's, the
/// cross-record rules' and the binding rules'.
pub open spec fn scan_views(text: Option<Seq<char>>, files: Seq<FileView>) -> Seq<DiagView> {
    let es = scan_entries(text, files);
    activation_outcome(text).2 + files_found(files, scan_state(text), scan_active(text)) + cross_problems(
        es,
        scan_active(text),
    ) + binding_problems(es, es.len() as int)
}

/// Entries whose paths strictly ascend.
pub open spec fn entry_paths_ascend(es: Seq<crate::record::EntryView>) -> bool {
    forall|i: int, j: int| 0 <= i < j < es.len() ==> lex_lt(str_field(#[trigger] es[i].path), str_field(#[trigger] es[j].path))
}

/// The entries of files in path order are in path order.
pub proof fn lemma_scan_entries_ascend(text: Option<Seq<char>>, files: Seq<FileView>)
    requires
        ascending(files),
    ensures
        entry_paths_ascend(scan_entries(text, files)),
{
    let es = scan_entries(text, files);
    assert forall|i: int, j: int| 0 <= i < j < es.len() implies lex_lt(str_field(#[trigger] es[i].path), str_field(#[trigger] es[j].path)) by {
        assert(es[i].path == files[i].path);
        assert(es[j].path == files[j].path);
    }
}

/// `r` is the scan of a root with this activation text and these files.
pub open spec fn scanned(text: Option<Seq<char>>, files: Seq<FileView>, r: ScanResult) -> bool {
    &&& r.activation == scan_state(text)
    &&& roots_view(r.investigation_roots@) == roots_of(scan_active(text))
    &&& entry_views(r.snapshot.entries@) == scan_entries(text, files)
    &&& r.snapshot.revision.0@ == scan_revision(text, files)
    &&& stable_order_of(r.diagnostics@, scan_views(text, files))
}

/// What a scan of files in path order gives: entries whose paths strictly ascend,
/// each entry's content revision `sha256:` and the lower-case hex digest of its bytes,
/// a store revision that is the digest of each entry's path and content revision (each
/// followed by a zero byte), and diagnostics already in their stable order (so that
/// `stable` leaves them as they are).
pub proof fn law_scan_shape(text: Option<Seq<char>>, files: Seq<FileView>, r: ScanResult)
    requires
        scanned(text, files, r),
        ascending(files),
    ensures
        entry_paths_ascend(entry_views(r.snapshot.entries@)),
        forall|i: int|
            0 <= i < r.snapshot.entries@.len() ==> (#[trigger] r.snapshot.entries@[i]).content_revision.0@
                == revision_text(r.snapshot.entries@[i].original_bytes@),
        r.snapshot.revision.0@ == revision_text(revision_input(entry_views(r.snapshot.entries@))),
        crate::order::keys_sorted(r.diagnostics@),
{
    lemma_scan_entries_ascend(text, files);
    let es = scan_entries(text, files);
    assert forall|i: int| 0 <= i < r.snapshot.entries@.len() implies (#[trigger] r.snapshot.entries@[i]).content_revision.0@
        == revision_text(r.snapshot.entries@[i].original_bytes@) by {
        assert(entry_views(r.snapshot.entries@)[i] == r.snapshot.entries@[i]@);
        assert(es[i] == entry_of(files[i], scan_state(text), scan_active(text)));
    }
}

/// Scans a root's files under the activation text of its `casefile.toml` (`None`
/// when it has none): every file classified, the cross-record and binding rules
/// applied, and all diagnostics in stable order.
#[verifier::rlimit(60)]
pub fn scan(activation_text: Option<&str>, files: &FileSet) -> (r: ScanResult)
    ensures
        scanned(text_view(activation_text), files@, r),
        entry_paths_ascend(entry_views(r.snapshot.entries@)),
{
    let (state, active, act_diags) = activation(activation_text);
    let ghost o = activation_outcome(
        match activation_text {
            Some(t) => Some(t@),
            None => None,
        },
    );
    proof {
        if o.1 is None {
            assert(active@.projects =~= Seq::<(Seq<char>, ProjectView)>::empty());
        }
    }
    let ghost a = active_view(o.1);
    assert(active@ == a);
    let (entries, found) = classify_files(files, state, &active);
    let ghost fs = files@;
    let ghost es = entry_views(entries@);
    let cross = cross_validate(&entries, &active);
    let bindings = binding_diagnostics(&entries);
    let mut all = act_diags;
    let ghost sorted_act = all@;
    let mut found = found;
    let mut cross = cross;
    let mut bindings = bindings;
    all.append(&mut found);
    all.append(&mut cross);
    all.append(&mut bindings);
    let ghost unsorted = all@;
    let revision = revision_of(&entries);
    let investigation_roots = roots(&active);
    let diagnostics = stable(all);
    proof {
        let rest = unsorted.skip(sorted_act.len() as int);
        assert(unsorted =~= sorted_act + rest);
        crate::diagnostic::lemma_stable_append(sorted_act, o.2, rest, diagnostics@);
        assert(diag_views(rest) =~= files_found(fs, state, a) + cross_problems(es, a) + binding_problems(es, es.len() as int));
        assert(es =~= fs.map_values(|f: FileView| entry_of(f, o.0, a)));
        assert(entries@.len() == es.len());
        assert(o.2 + diag_views(rest) =~= o.2 + files_found(fs, o.0, a) + cross_problems(es, a) + binding_problems(es, es.len() as int));
    }
    assert(stable_order_of(diagnostics@, o.2 + files_found(fs, o.0, a) + cross_problems(es, a) + binding_problems(es, es.len() as int)));
    assert(roots_view(investigation_roots@) == roots_of(a));
    assert(revision.0@ == revision_text(revision_input(es)));
    proof {
        use_type_invariant(files);
        lemma_scan_entries_ascend(text_view(activation_text), files@);
    }
    ScanResult {
        activation: state,
        investigation_roots,
        snapshot: CasefileSnapshot { revision, entries },
        diagnostics,
    }
}


/// `k` is the position of the first `/` in `s`.
pub open spec fn first_slash_at(s: Seq<char>, k: int) -> bool {
    &&& 0 <= k < s.len()
    &&& s[k] == '/'
    &&& forall|j: int| 0 <= j < k ==> s[j] != '/'
}

/// The project segment of a path under `projects/`: the text up to the next `/`.
pub open spec fn path_project(path: Seq<char>) -> Option<Seq<char>> {
    match strip_prefix_seq(path, "projects/"@) {
        None => None,
        Some(rest) => head_segment(rest),
    }
}

/// The text before the first `/`, if there is one.
pub open spec fn head_segment(rest: Seq<char>) -> Option<Seq<char>> {
    if exists|k: int| first_slash_at(rest, k) {
        Some(rest.take(choose|k: int| first_slash_at(rest, k)))
    } else {
        None
    }
}

/// The investigations listed for a project, if the project is listed.
pub open spec fn roots_lookup(roots: Seq<(Seq<char>, Seq<Seq<char>>)>, project: Seq<char>) -> Option<Seq<Seq<char>>>
    decreases roots.len(),
{
    if roots.len() == 0 {
        None
    } else if roots[0].0 == project {
        Some(roots[0].1)
    } else {
        roots_lookup(roots.drop_first(), project)
    }
}

/// The directory of an investigation of a project, with its trailing `/`.
pub open spec fn investigation_prefix(project: Seq<char>, inv: Seq<char>) -> Seq<char> {
    "projects/"@ + project + "/investigations/"@ + inv + "/"@
}

/// The longest investigation whose directory holds the path; of equally long ones, the last.
pub open spec fn longest_match(path: Seq<char>, project: Seq<char>, invs: Seq<Seq<char>>) -> Option<Seq<char>>
    decreases invs.len(),
{
    if invs.len() == 0 {
        None
    } else {
        let rest = longest_match(path, project, invs.drop_last());
        let x = invs.last();
        if is_prefix(investigation_prefix(project, x), path) {
            match rest {
                None => Some(x),
                Some(y) => if x.len() >= y.len() {
                    Some(x)
                } else {
                    Some(y)
                },
            }
        } else {
            rest
        }
    }
}

/// Of the investigations `invs` of `project`, the one found is listed, its directory
/// holds the path, and no listed investigation whose directory holds the path is
/// longer; none is found only when no listed directory holds the path.
proof fn lemma_longest_match(path: Seq<char>, project: Seq<char>, invs: Seq<Seq<char>>)
    ensures
        match longest_match(path, project, invs) {
            Some(x) => {
                &&& invs.contains(x)
                &&& is_prefix(investigation_prefix(project, x), path)
                &&& forall|j: int|
                    0 <= j < invs.len() && is_prefix(investigation_prefix(project, #[trigger] invs[j]), path) ==> invs[j].len()
                        <= x.len()
            },
            None => forall|j: int| 0 <= j < invs.len() ==> !is_prefix(investigation_prefix(project, #[trigger] invs[j]), path),
        },
    decreases invs.len(),
{
    if invs.len() > 0 {
        let front = invs.drop_last();
        let x = invs.last();
        let last = invs.len() - 1;
        lemma_longest_match(path, project, front);
        assert(invs[last] == x);
        let holds = is_prefix(investigation_prefix(project, x), path);
        match longest_match(path, project, front) {
            Some(y) => {
                let k = choose|k: int| 0 <= k < front.len() && front[k] == y;
                assert(invs[k] == y);
                let best = if holds && x.len() >= y.len() { x } else { y };
                assert(longest_match(path, project, invs) == Some(best));
                assert forall|j: int|
                    0 <= j < invs.len() && is_prefix(investigation_prefix(project, #[trigger] invs[j]), path) implies invs[j].len()
                    <= best.len() by {
                    if j < last {
                        assert(front[j] == invs[j]);
                    }
                }
                if best == x {
                    assert(invs.contains(x));
                } else {
                    assert(invs.contains(y));
                }
            },
            None => {
                if holds {
                    assert(longest_match(path, project, invs) == Some(x));
                    assert forall|j: int|
                        0 <= j < invs.len() && is_prefix(investigation_prefix(project, #[trigger] invs[j]), path) implies invs[j].len()
                        <= x.len() by {
                        if j < last {
                            assert(front[j] == invs[j]);
                        }
                    }
                    assert(invs.contains(x));
                } else {
                    assert(longest_match(path, project, invs) is None);
                    assert forall|j: int| 0 <= j < invs.len() implies !is_prefix(investigation_prefix(project, #[trigger] invs[j]), path) by {
                        if j < last {
                            assert(front[j] == invs[j]);
                        }
                    }
                }
            },
        }
    }
}

/// A path's scope is the project named by its first segment under `projects/` (the path
/// starts `projects/<project>/`), when
/// the roots list that project; its investigation is a listed one whose directory
/// `projects/<project>/investigations/<investigation>/` holds the path and that no other
/// listed investigation holding the path outlasts; there is none only when no listed
/// investigation's directory holds the path.
pub proof fn law_scope_is_the_longest_holding_investigation(roots: Seq<(Seq<char>, Seq<Seq<char>>)>, path: Seq<char>)
    ensures
        match path_scope(roots, path) {
            None => path_project(path) is None || roots_lookup(roots, path_project(path)->0) is None,
            Some((p, found)) => {
                &&& path_project(path) == Some(p)
                &&& is_prefix("projects/"@ + p + seq!['/'], path)
                &&& !p.contains('/')
                &&& roots_lookup(roots, p) matches Some(invs) && match found {
                    Some(i) => {
                        &&& invs.contains(i)
                        &&& is_prefix(investigation_prefix(p, i), path)
                        &&& forall|j: int|
                            0 <= j < invs.len() && is_prefix(investigation_prefix(p, #[trigger] invs[j]), path) ==> invs[j].len()
                                <= i.len()
                    },
                    None => forall|j: int| 0 <= j < invs.len() ==> !is_prefix(investigation_prefix(p, #[trigger] invs[j]), path),
                }
            },
        },
{
    match path_project(path) {
        Some(p) => {
            let head = "projects/"@;
            let rest = path.skip(head.len() as int);
            let k = choose|k: int| first_slash_at(rest, k);
            assert(p == rest.take(k));
            assert(path.subrange(0, head.len() as int) == head);
            assert(path.subrange(0, head.len() + k + 1) =~= head + p + seq!['/']) by {
                assert forall|m: int| 0 <= m < head.len() + k + 1 implies path.subrange(0, head.len() + k + 1)[m] == (head + p
                    + seq!['/'])[m] by {
                    if m < head.len() {
                        assert(path[m] == path.subrange(0, head.len() as int)[m]);
                    } else if m < head.len() + k {
                        assert(rest[m - head.len()] == path[m]);
                    } else {
                        assert(rest[k] == path[m]);
                    }
                }
            }
            assert forall|m: int| 0 <= m < p.len() implies p[m] != '/' by {
                assert(p[m] == rest[m]);
            }
            match roots_lookup(roots, p) {
                Some(invs) => lemma_longest_match(path, p, invs),
                None => {},
            }
        },
        None => {},
    }
}

/// The project and investigation that a path belongs to among the roots of a scan.
pub open spec fn path_scope(roots: Seq<(Seq<char>, Seq<Seq<char>>)>, path: Seq<char>) -> Option<(Seq<char>, Option<Seq<char>>)> {
    match path_project(path) {
        None => None,
        Some(project) => match roots_lookup(roots, project) {
            None => None,
            Some(invs) => Some((project, longest_match(path, project, invs))),
        },
    }
}

fn project_segment(path: &str) -> (r: Option<String>)
    ensures
        match r {
            Some(p) => path_project(path@) == Some(p@),
            None => path_project(path@) is None,
        },
{
    proof {
        reveal_strlit("projects/");
    }
    let rest = match crate::text::strip_prefix(path, "projects/") {
        Some(r) => r,
        None => return None,
    };
    let cs = crate::text::chars_of(rest.as_str());
    let mut k: usize = 0;
    while k < cs.len()
        invariant
            cs@ == rest@,
            strip_prefix_seq(path@, "projects/"@) == Some(rest@),
            k <= cs@.len(),
            forall|j: int| 0 <= j < k ==> cs@[j] != '/',
        decreases cs.len() - k,
    {
        if cs[k] == '/' {
            proof {
                assert(first_slash_at(rest@, k as int));
                assert(exists|c: int| first_slash_at(rest@, c));
                let c = choose|c: int| first_slash_at(rest@, c);
                if c < k {
                    assert(cs@[c] != '/');
                }
                if c > k {
                    assert(rest@[k as int] != '/');
                }
                assert(c == k);
                assert(head_segment(rest@) == Some(rest@.take(c)));
                assert(strip_prefix_seq(path@, "projects/"@) == Some(rest@));
                assert(path_project(path@) == Some(rest@.take(c)));
            }
            let head = crate::text::copy_range(cs.as_slice(), 0, k);
            assert(head@ =~= rest@.take(k as int));
            return Some(crate::text::string_of(head.as_slice()));
        }
        k = k + 1;
    }
    proof {
        assert forall|c: int| !first_slash_at(rest@, c) by {
            if 0 <= c < rest@.len() {
                assert(cs@[c] != '/');
            }
        }
    }
    None
}

fn investigation_dir_text(project: &str, inv: &str) -> (r: String)
    ensures
        r@ == investigation_prefix(project@, inv@),
{
    proof {
        reveal_strlit("projects/");
        reveal_strlit("/investigations/");
        reveal_strlit("/");
    }
    let mut r = "projects/".to_owned();
    push_str(&mut r, project);
    push_str(&mut r, "/investigations/");
    push_str(&mut r, inv);
    push_str(&mut r, "/");
    r
}

impl ScanResult {
    /// The project, and the longest listed investigation of it, whose directories hold
    /// a path; `None` when the path is not under a listed project.
    pub fn scope_for_path(&self, path: &str) -> (r: Option<(String, Option<String>)>)
        ensures
            match r {
                Some((p, i)) => path_scope(roots_view(self.investigation_roots@), path@) == Some(
                    (
                        p@,
                        match i {
                            Some(v) => Some(v@),
                            None => None,
                        },
                    ),
                ),
                None => path_scope(roots_view(self.investigation_roots@), path@) is None,
            },
            r matches Some((p, Some(i))) ==> roots_lookup(roots_view(self.investigation_roots@), p@) matches Some(invs)
                && invs.contains(i@) && is_prefix(investigation_prefix(p@, i@), path@) && forall|j: int|
                0 <= j < invs.len() && is_prefix(investigation_prefix(p@, #[trigger] invs[j]), path@) ==> invs[j].len()
                    <= i@.len(),
            r matches Some((p, None)) ==> roots_lookup(roots_view(self.investigation_roots@), p@) matches Some(invs)
                && forall|j: int| 0 <= j < invs.len() ==> !is_prefix(investigation_prefix(p@, #[trigger] invs[j]), path@),
            r matches Some((p, _)) ==> is_prefix("projects/"@ + p@ + seq!['/'], path@) && !p@.contains('/'),
    {
        let project = match project_segment(path) {
            Some(p) => p,
            None => return None,
        };
        let ghost rv = roots_view(self.investigation_roots@);
        let mut i: usize = 0;
        assert(rv.skip(0) =~= rv);
        while i < self.investigation_roots.len()
            invariant
                rv == roots_view(self.investigation_roots@),
                path_project(path@) == Some(project@),
                i <= rv.len(),
                roots_lookup(rv, project@) == roots_lookup(rv.skip(i as int), project@),
            decreases self.investigation_roots.len() - i,
        {
            assert(rv.skip(i as int)[0] == rv[i as int]);
            if str_eq(self.investigation_roots[i].0.as_str(), project.as_str()) {
                let invs = &self.investigation_roots[i].1;
                let ghost iv = strs(invs@);
                assert(roots_lookup(rv, project@) == Some(iv));
                let mut best: Option<String> = None;
                let mut j: usize = 0;
                assert(iv.take(0) =~= Seq::<Seq<char>>::empty());
                while j < invs.len()
                    invariant
                        iv == strs(invs@),
                        j <= iv.len(),
                        match best {
                            Some(b) => longest_match(path@, project@, iv.take(j as int)) == Some(b@),
                            None => longest_match(path@, project@, iv.take(j as int)) is None,
                        },
                    decreases invs.len() - j,
                {
                    proof {
                        assert(iv.take(j + 1).drop_last() =~= iv.take(j as int));
                        assert(iv.take(j + 1).last() == invs@[j as int]@);
                    }
                    let dir = investigation_dir_text(project.as_str(), invs[j].as_str());
                    if crate::text::starts_with(path, dir.as_str()) {
                        let take = match &best {
                            None => true,
                            Some(b) => invs[j].as_str().unicode_len() >= b.as_str().unicode_len(),
                        };
                        if take {
                            best = Some(invs[j].clone());
                        }
                    }
                    j = j + 1;
                }
                assert(iv.take(j as int) =~= iv);
                assert(path_scope(rv, path@) == Some((project@, longest_match(path@, project@, iv))));
                proof {
                    lemma_longest_match(path@, project@, iv);
                    law_scope_is_the_longest_holding_investigation(rv, path@);
                }
                return Some((project, best));
            }
            assert(rv.skip(i as int).drop_first() =~= rv.skip(i + 1));
            i = i + 1;
        }
        None
    }
}

} // verus!
