//! Board records: named columns that group work items by status.

use crate::diagnostic::{Diagnostic, diag, diagnostic_is, field_diag};
use crate::record::RecordDraft;
use crate::text::{is_blank, is_blank_str, push_str};
use crate::verdict::{Verdict, refuse, refuse_field, refused_with};
use crate::tree::{Tree, TomlOut, TomlOutView, get, lookup, parse_toml, toml_document, toml_text, toml_value_text};
use vstd::prelude::*;

verus! {

/// A column and the statuses it holds.
#[derive(Debug, PartialEq, Eq)]
pub struct BoardColumn {
    pub name: String,
    pub statuses: Vec<String>,
}

/// A complete board record.
#[derive(Debug, PartialEq, Eq)]
pub struct BoardDraft {
    pub id: String,
    pub title: String,
    pub filter_statuses: Option<Vec<String>>,
    pub filter_kinds: Option<Vec<String>>,
    pub columns: Vec<BoardColumn>,
}

/// The views of a list of strings.
pub open spec fn strs(v: Seq<String>) -> Seq<Seq<char>> {
    v.map_values(|s: String| s@)
}

/// The view of an optional list of strings.
pub open spec fn opt_strs(v: Option<Vec<String>>) -> Option<Seq<Seq<char>>> {
    match v {
        Some(items) => Some(strs(items@)),
        None => None,
    }
}

/// The plain content of a column.
pub struct ColumnView {
    pub name: Seq<char>,
    pub statuses: Seq<Seq<char>>,
}

/// The plain content of a board.
pub struct BoardView {
    pub id: Seq<char>,
    pub title: Seq<char>,
    pub filter_statuses: Option<Seq<Seq<char>>>,
    pub filter_kinds: Option<Seq<Seq<char>>>,
    pub columns: Seq<ColumnView>,
}

impl View for BoardColumn {
    type V = ColumnView;

    open spec fn view(&self) -> ColumnView {
        ColumnView { name: self.name@, statuses: strs(self.statuses@) }
    }
}

impl View for BoardDraft {
    type V = BoardView;

    open spec fn view(&self) -> BoardView {
        BoardView {
            id: self.id@,
            title: self.title@,
            filter_statuses: opt_strs(self.filter_statuses),
            filter_kinds: opt_strs(self.filter_kinds),
            columns: self.columns@.map_values(|c: BoardColumn| c@),
        }
    }
}

/// Some element occurs twice.
pub open spec fn has_duplicate(s: Seq<Seq<char>>) -> bool {
    exists|i: int, j: int| 0 <= i < j < s.len() && s[i] == s[j]
}

/// All statuses of the columns, in order.
pub open spec fn all_statuses(columns: Seq<ColumnView>) -> Seq<Seq<char>>
    decreases columns.len(),
{
    if columns.len() == 0 {
        Seq::empty()
    } else {
        all_statuses(columns.drop_last()) + columns.last().statuses
    }
}

/// The last column is well named and unique among the columns before it.
pub open spec fn last_column_ok(columns: Seq<ColumnView>) -> bool {
    let last = columns.last();
    &&& !is_blank(last.name)
    &&& last.statuses.len() > 0
    &&& forall|i: int| 0 <= i < columns.len() - 1 ==> columns[i].name != last.name
}

/// What can be wrong with a board.
pub enum BoardFault {
    /// A blank identity or title, or no column.
    Board,
    /// A blank, empty or repeated column.
    Column,
    /// A status held by two positions.
    Overlap,
}

/// The diagnostic code of a board fault.
pub open spec fn board_fault_code(f: BoardFault) -> Seq<char> {
    match f {
        BoardFault::Board => "invalid_board"@,
        BoardFault::Column => "invalid_board_column"@,
        BoardFault::Overlap => "overlapping_board_status"@,
    }
}

/// The diagnostic message of a board fault.
pub open spec fn board_fault_message(f: BoardFault) -> Seq<char> {
    match f {
        BoardFault::Board => "board ID, title, and at least one column are required"@,
        BoardFault::Column => "columns need unique names and statuses"@,
        BoardFault::Overlap => "column statuses must not overlap"@,
    }
}

/// The first column fault, in column order: a bad or repeated name, or a status
/// that an earlier position already holds.
pub open spec fn columns_fault(columns: Seq<ColumnView>) -> Option<BoardFault>
    decreases columns.len(),
{
    if columns.len() == 0 {
        None
    } else if columns_fault(columns.drop_last()) is Some {
        columns_fault(columns.drop_last())
    } else if !last_column_ok(columns) {
        Some(BoardFault::Column)
    } else if has_duplicate(all_statuses(columns)) {
        Some(BoardFault::Overlap)
    } else {
        None
    }
}

/// The first fault of a board, as a diagnostic code.
pub open spec fn board_fault(b: BoardView) -> Option<BoardFault> {
    if is_blank(b.id) || is_blank(b.title) || b.columns.len() == 0 {
        Some(BoardFault::Board)
    } else {
        columns_fault(b.columns)
    }
}

/// Whether `value` is in `list`.
pub fn list_contains(list: &Vec<String>, value: &String) -> (b: bool)
    ensures
        b == strs(list@).contains(value@),
{
    let mut i: usize = 0;
    while i < list.len()
        invariant
            i <= list@.len(),
            forall|j: int| 0 <= j < i ==> list@[j]@ != value@,
        decreases list.len() - i,
    {
        if list[i] == *value {
            assert(strs(list@)[i as int] == value@);
            return true;
        }
        i = i + 1;
    }
    assert forall|j: int| 0 <= j < strs(list@).len() implies strs(list@)[j] != value@ by {
        assert(strs(list@)[j] == list@[j]@);
    }
    false
}

proof fn lemma_all_statuses_push(columns: Seq<ColumnView>, n: int)
    requires
        0 <= n < columns.len(),
    ensures
        all_statuses(columns.take(n + 1)) == all_statuses(columns.take(n)) + columns[n].statuses,
{
    assert(columns.take(n + 1).drop_last() =~= columns.take(n));
}

proof fn lemma_fault_prefix(cols: Seq<ColumnView>, n: int)
    requires
        0 <= n <= cols.len(),
        columns_fault(cols.take(n)) is Some,
    ensures
        columns_fault(cols) == columns_fault(cols.take(n)),
    decreases cols.len() - n,
{
    if n == cols.len() {
        assert(cols.take(n) =~= cols);
    } else {
        let shorter = cols.drop_last();
        assert(shorter.take(n) =~= cols.take(n));
        lemma_fault_prefix(shorter, n);
    }
}

/// Checks a board's identity, title and columns.
pub fn validate(path: &str, board: &BoardDraft) -> (r: Result<(), Diagnostic>)
    ensures
        match r {
            Ok(()) => board_fault(board@) is None,
            Err(d) => board_fault(board@) is Some && diagnostic_is(
                d,
                path@,
                board_fault_code(board_fault(board@)->0),
                board_fault_message(board_fault(board@)->0),
            ),
        },
{
    if is_blank_str(board.id.as_str()) || is_blank_str(board.title.as_str()) || board.columns.len() == 0 {
        return Err(diag(path, "invalid_board", "board ID, title, and at least one column are required"));
    }
    let ghost cols = board@.columns;
    let mut names: Vec<String> = Vec::new();
    let mut statuses: Vec<String> = Vec::new();
    let mut j: usize = 0;
    assert(cols.take(0) =~= Seq::<ColumnView>::empty());
    while j < board.columns.len()
        invariant
            cols == board@.columns,
            board.columns@.len() == cols.len(),
            board_fault(board@) == columns_fault(cols),
            j <= cols.len(),
            columns_fault(cols.take(j as int)) is None,
            strs(names@) == cols.take(j as int).map_values(|c: ColumnView| c.name),
            strs(statuses@) == all_statuses(cols.take(j as int)),
            !has_duplicate(strs(statuses@)),
        decreases cols.len() - j,
    {
        let column = &board.columns[j];
        let ghost prefix = cols.take(j + 1);
        proof {
            assert(prefix.drop_last() =~= cols.take(j as int));
            assert(prefix.last() == cols[j as int]);
            assert(cols[j as int] == board.columns@[j as int]@);
        }
        let repeated = list_contains(&names, &column.name);
        if is_blank_str(column.name.as_str()) || column.statuses.len() == 0 || repeated {
            proof {
                if repeated {
                    let i = choose|i: int| 0 <= i < strs(names@).len() && strs(names@)[i] == column.name@;
                    assert(cols.take(j as int).map_values(|c: ColumnView| c.name)[i] == prefix[i].name);
                }
                assert(!last_column_ok(prefix));
                lemma_fault_prefix(cols, j + 1);
            }
            return Err(diag(path, "invalid_board_column", "columns need unique names and statuses"));
        }
        proof {
            assert forall|i: int| 0 <= i < prefix.len() - 1 implies prefix[i].name != prefix.last().name by {
                assert(cols.take(j as int).map_values(|c: ColumnView| c.name)[i] == prefix[i].name);
            }
            assert(last_column_ok(prefix));
        }
        let ghost before = statuses@;
        let mut k: usize = 0;
        while k < column.statuses.len()
            invariant
                cols == board@.columns,
                board_fault(board@) == columns_fault(cols),
                j < cols.len(),
                column@ == cols[j as int],
                prefix == cols.take(j + 1),
                prefix.drop_last() == cols.take(j as int),
                prefix.last() == cols[j as int],
                strs(before) == all_statuses(cols.take(j as int)),
                columns_fault(cols.take(j as int)) is None,
                last_column_ok(prefix),
                k <= column.statuses@.len(),
                strs(statuses@) == strs(before) + strs(column.statuses@).take(k as int),
                !has_duplicate(strs(statuses@)),
            decreases column.statuses.len() - k,
        {
            let status = &column.statuses[k];
            if list_contains(&statuses, status) {
                proof {
                    let i = choose|i: int| 0 <= i < strs(statuses@).len() && strs(statuses@)[i] == status@;
                    let full = strs(before) + cols[j as int].statuses;
                    lemma_all_statuses_push(cols, j as int);
                    assert(all_statuses(prefix) == full);
                    assert(full[i] == strs(statuses@)[i]);
                    assert(full[strs(before).len() + k] == status@);
                    assert(has_duplicate(full));
                    assert(columns_fault(prefix) == Some(BoardFault::Overlap));
                    lemma_fault_prefix(cols, j + 1);
                }
                return Err(diag(path, "overlapping_board_status", "column statuses must not overlap"));
            }
            let ghost prior = strs(statuses@);
            statuses.push(status.clone());
            proof {
                assert(strs(statuses@) =~= prior.push(status@));
                assert(strs(column.statuses@).take(k + 1) =~= strs(column.statuses@).take(k as int).push(status@));
                assert forall|a: int, b: int| 0 <= a < b < strs(statuses@).len() implies strs(statuses@)[a] != strs(statuses@)[b] by {
                    if b == strs(statuses@).len() - 1 {
                        assert(prior[a] == strs(statuses@)[a]);
                    } else {
                        assert(prior[a] == strs(statuses@)[a]);
                        assert(prior[b] == strs(statuses@)[b]);
                    }
                }
            }
            k = k + 1;
        }
        proof {
            lemma_all_statuses_push(cols, j as int);
            assert(strs(column.statuses@).take(k as int) =~= strs(column.statuses@));
            assert(columns_fault(prefix) is None);
        }
        let ghost prior_names = strs(names@);
        names.push(column.name.clone());
        proof {
            assert(strs(names@) =~= prior_names.push(column.name@));
            assert(cols.take(j + 1).map_values(|c: ColumnView| c.name) =~= cols.take(j as int).map_values(|c: ColumnView| c.name).push(column.name@));
        }
        j = j + 1;
    }
    assert(cols.take(j as int) =~= cols);
    Ok(())
}

/// The strings of an array value, when every item is a string.
pub open spec fn strings_of(t: Option<Tree>) -> Option<Seq<Seq<char>>> {
    match t {
        Some(Tree::Array(items)) => if forall|i: int| 0 <= i < items@.len() ==> items@[i] is Str {
            Some(items@.map_values(|i: Tree| i->Str_0@))
        } else {
            None
        },
        _ => None,
    }
}

/// The string of a value, or the empty string.
pub open spec fn str_or_empty(t: Option<Tree>) -> Seq<char> {
    match t {
        Some(Tree::Str(s)) => s@,
        _ => Seq::empty(),
    }
}

/// The strings of an array value, when every item is a string.
pub fn tree_strings(t: Option<&Tree>) -> (r: Option<Vec<String>>)
    ensures
        opt_strs(r) == strings_of(match t { Some(v) => Some(*v), None => None }),
{
    match t {
        Some(Tree::Array(items)) => {
            let mut out: Vec<String> = Vec::new();
            let mut i: usize = 0;
            while i < items.len()
                invariant
                    match t {
                        Some(v) => *v == Tree::Array(*items),
                        None => false,
                    },
                    i <= items@.len(),
                    forall|j: int| 0 <= j < i ==> items@[j] is Str,
                    strs(out@) == items@.take(i as int).map_values(|x: Tree| x->Str_0@),
                decreases items.len() - i,
            {
                match &items[i] {
                    Tree::Str(v) => {
                        let ghost prior = strs(out@);
                        out.push(v.clone());
                        assert(strs(out@) =~= prior.push(v@));
                        assert(items@.take(i + 1).map_values(|x: Tree| x->Str_0@) =~= items@.take(i as int).map_values(|x: Tree| x->Str_0@).push(v@));
                    }
                    _ => {
                        assert(!(items@[i as int] is Str));
                        return None;
                    }
                }
                i = i + 1;
            }
            assert(items@.take(i as int) =~= items@);
            Some(out)
        }
        _ => None,
    }
}

/// The string of a value, or the empty string.
pub fn tree_str_or_empty(t: Option<&Tree>) -> (r: String)
    ensures
        r@ == str_or_empty(match t { Some(v) => Some(*v), None => None }),
{
    match t {
        Some(Tree::Str(v)) => v.clone(),
        _ => String::new(),
    }
}

/// The columns of a board's `columns` array, or the message of the first bad column.
pub open spec fn columns_of(items: Seq<Tree>) -> Result<Seq<ColumnView>, Seq<char>>
    decreases items.len(),
{
    if items.len() == 0 {
        Ok(Seq::empty())
    } else {
        match columns_of(items.drop_last()) {
            Err(m) => Err(m),
            Ok(cols) => {
                let item = items.last();
                if !(item is Table) {
                    Err("column must be a table"@)
                } else {
                    match strings_of(get(item, "statuses"@)) {
                        None => Err("column statuses must be strings"@),
                        Some(statuses) => Ok(
                            cols.push(ColumnView { name: str_or_empty(get(item, "name"@)), statuses }),
                        ),
                    }
                }
            },
        }
    }
}

/// What a board's text holds, or the diagnostic that refuses it.
pub open spec fn board_of_text(text: Seq<char>) -> Verdict<BoardView> {
    match toml_document(text) {
        Err(e) => refuse("invalid_toml"@, e),
        Ok(t) => board_of_tree(t),
    }
}

/// What a board's parsed TOML document holds, or the diagnostic that refuses it.
pub open spec fn board_of_tree(t: Tree) -> Verdict<BoardView> {
    if !(t is Table) {
        refuse("invalid_board"@, "board must be a TOML table"@)
    } else {
        match get(t, "columns"@) {
            Some(Tree::Array(items)) => match columns_of(items@) {
                Err(m) => refuse("invalid_board_column"@, m),
                Ok(columns) => if get(t, "schema_version"@) != Some(Tree::Int(1)) {
                    refuse_field("invalid_schema_version"@, "schema_version must be 1"@, "schema_version"@)
                } else if get(t, "filter_statuses"@) is Some && strings_of(get(t, "filter_statuses"@)) is None {
                    refuse_field("invalid_board_filter"@, "board filters must be string arrays"@, "filter_statuses"@)
                } else if get(t, "filter_kinds"@) is Some && strings_of(get(t, "filter_kinds"@)) is None {
                    refuse_field("invalid_board_filter"@, "board filters must be string arrays"@, "filter_kinds"@)
                } else {
                    let b = BoardView {
                        id: str_or_empty(get(t, "id"@)),
                        title: str_or_empty(get(t, "title"@)),
                        filter_statuses: strings_of(get(t, "filter_statuses"@)),
                        filter_kinds: strings_of(get(t, "filter_kinds"@)),
                        columns,
                    };
                    match board_fault(b) {
                        Some(f) => refuse(board_fault_code(f), board_fault_message(f)),
                        None => Verdict::Accept(b),
                    }
                },
            },
            _ => refuse("missing_columns"@, "board needs one or more columns"@),
        }
    }
}

/// Reads a board record from its TOML text.
pub fn parse(path: &str, text: &str) -> (r: Result<RecordDraft, Vec<Diagnostic>>)
    ensures
        match r {
            Ok(RecordDraft::Board(b)) => board_of_text(text@) == Verdict::Accept(b@),
            Ok(_) => false,
            Err(ds) => board_of_text(text@) is Refuse && refused_with(ds@, path@, board_of_text(text@)),
        },
{
    match parse_toml(text) {
        Ok(t) => board_from_tree(path, &t),
        Err(e) => Err(vec![diag(path, "invalid_toml", e.as_str())]),
    }
}

/// Reads a board record from its parsed TOML document.
pub fn board_from_tree(path: &str, t: &Tree) -> (r: Result<RecordDraft, Vec<Diagnostic>>)
    ensures
        match r {
            Ok(RecordDraft::Board(b)) => board_of_tree(*t) == Verdict::Accept(b@),
            Ok(_) => false,
            Err(ds) => board_of_tree(*t) is Refuse && refused_with(ds@, path@, board_of_tree(*t)),
        },
{
    if !matches!(t, Tree::Table(_)) {
        return Err(vec![diag(path, "invalid_board", "board must be a TOML table")]);
    }
    let items = match lookup(t, "columns") {
        Some(Tree::Array(items)) => items,
        _ => {
            return Err(vec![diag(path, "missing_columns", "board needs one or more columns")]);
        }
    };
    let mut columns: Vec<BoardColumn> = Vec::new();
    let mut i: usize = 0;
    assert(items@.take(0) =~= Seq::<Tree>::empty());
    assert(columns@.map_values(|c: BoardColumn| c@) =~= Seq::<ColumnView>::empty());
    while i < items.len()
        invariant
            t is Table,
            get(*t, "columns"@) == Some(Tree::Array(*items)),
            i <= items@.len(),
            columns_of(items@.take(i as int)) == Ok::<Seq<ColumnView>, Seq<char>>(columns@.map_values(|c: BoardColumn| c@)),
        decreases items.len() - i,
    {
        proof {
            assert(items@.take(i + 1).drop_last() =~= items@.take(i as int));
            assert(items@.take(i + 1).last() == items@[i as int]);
        }
        let item = &items[i];
        if !matches!(item, Tree::Table(_)) {
            proof {
                lemma_columns_prefix(items@, i + 1);
            }
            return Err(vec![diag(path, "invalid_board_column", "column must be a table")]);
        }
        let statuses = match tree_strings(lookup(item, "statuses")) {
            Some(v) => v,
            None => {
                proof {
                    lemma_columns_prefix(items@, i + 1);
                }
                return Err(vec![diag(path, "invalid_board_column", "column statuses must be strings")]);
            }
        };
        let name = tree_str_or_empty(lookup(item, "name"));
        let ghost prior = columns@.map_values(|c: BoardColumn| c@);
        columns.push(BoardColumn { name, statuses });
        assert(columns@.map_values(|c: BoardColumn| c@) =~= prior.push(columns@.last()@));
        i = i + 1;
    }
    assert(items@.take(i as int) =~= items@);
    let schema = lookup(t, "schema_version");
    let schema_ok = match schema {
        Some(Tree::Int(n)) => *n == 1,
        _ => false,
    };
    if !schema_ok {
        return Err(vec![field_diag(path, "invalid_schema_version", "schema_version must be 1", "schema_version")]);
    }
    let filter_statuses = tree_strings(lookup(t, "filter_statuses"));
    if lookup(t, "filter_statuses").is_some() && filter_statuses.is_none() {
        return Err(vec![field_diag(path, "invalid_board_filter", "board filters must be string arrays", "filter_statuses")]);
    }
    let filter_kinds = tree_strings(lookup(t, "filter_kinds"));
    if lookup(t, "filter_kinds").is_some() && filter_kinds.is_none() {
        return Err(vec![field_diag(path, "invalid_board_filter", "board filters must be string arrays", "filter_kinds")]);
    }
    let board = BoardDraft {
        id: tree_str_or_empty(lookup(t, "id")),
        title: tree_str_or_empty(lookup(t, "title")),
        filter_statuses,
        filter_kinds,
        columns,
    };
    assert(board@.columns =~= columns_of(items@)->Ok_0);
    match validate(path, &board) {
        Ok(()) => Ok(RecordDraft::Board(board)),
        Err(d) => Err(vec![d]),
    }
}

/// The TOML text of the columns, each as one `[[columns]]` table.
pub open spec fn columns_text(columns: Seq<ColumnView>) -> Seq<char>
    decreases columns.len(),
{
    if columns.len() == 0 {
        Seq::empty()
    } else {
        let c = columns.last();
        columns_text(columns.drop_last()) + "\n[[columns]]\nname = "@ + toml_value_text(TomlOutView::Str(c.name))
            + "\nstatuses = "@ + toml_value_text(TomlOutView::List(c.statuses)) + "\n"@
    }
}

/// The optional filter line of a board.
pub open spec fn filter_text(name: Seq<char>, values: Option<Seq<Seq<char>>>) -> Seq<char> {
    match values {
        None => Seq::empty(),
        Some(v) => name + " = "@ + toml_value_text(TomlOutView::List(v)) + "\n"@,
    }
}

/// The canonical TOML text of a board.
pub open spec fn board_text(b: BoardView) -> Seq<char> {
    "schema_version = 1\nid = "@ + toml_value_text(TomlOutView::Str(b.id)) + "\ntitle = "@
        + toml_value_text(TomlOutView::Str(b.title)) + "\n"@ + filter_text("filter_statuses"@, b.filter_statuses)
        + filter_text("filter_kinds"@, b.filter_kinds) + columns_text(b.columns)
}

pub(crate) fn copy_strings(v: &Vec<String>) -> (r: Vec<String>)
    ensures
        r@ == v@,
{
    let mut out: Vec<String> = Vec::new();
    let mut i: usize = 0;
    while i < v.len()
        invariant
            i <= v@.len(),
            out@ == v@.take(i as int),
        decreases v.len() - i,
    {
        out.push(v[i].clone());
        i = i + 1;
        assert(out@ =~= v@.take(i as int));
    }
    assert(v@.take(i as int) =~= v@);
    out
}

fn quoted(s: &String) -> (r: String)
    ensures
        r@ == toml_value_text(TomlOutView::Str(s@)),
{
    toml_text(&TomlOut::Str(s.clone()))
}

fn listed(v: &Vec<String>) -> (r: String)
    ensures
        r@ == toml_value_text(TomlOutView::List(strs(v@))),
{
    let out = TomlOut::List(copy_strings(v));
    assert(out@ == TomlOutView::List(strs(v@)));
    toml_text(&out)
}

fn push_filter(out: &mut String, name: &str, values: &Option<Vec<String>>)
    ensures
        final(out)@ == old(out)@ + filter_text(name@, opt_strs(*values)),
{
    match values {
        None => {
            assert(old(out)@ + filter_text(name@, opt_strs(*values)) =~= old(out)@);
        }
        Some(v) => {
            push_str(out, name);
            push_str(out, " = ");
            let l = listed(v);
            push_str(out, l.as_str());
            push_str(out, "\n");
            assert(final(out)@ =~= old(out)@ + filter_text(name@, opt_strs(*values)));
        }
    }
}

/// The canonical TOML text of a board.
pub fn render(board: &BoardDraft) -> (r: String)
    ensures
        r@ == board_text(board@),
{
    let mut out = String::new();
    push_str(&mut out, "schema_version = 1\nid = ");
    push_str(&mut out, quoted(&board.id).as_str());
    push_str(&mut out, "\ntitle = ");
    push_str(&mut out, quoted(&board.title).as_str());
    push_str(&mut out, "\n");
    push_filter(&mut out, "filter_statuses", &board.filter_statuses);
    push_filter(&mut out, "filter_kinds", &board.filter_kinds);
    let ghost head = out@;
    let mut i: usize = 0;
    let ghost cols = board@.columns;
    assert(cols.take(0) =~= Seq::<ColumnView>::empty());
    while i < board.columns.len()
        invariant
            cols == board@.columns,
            i <= cols.len(),
            out@ == head + columns_text(cols.take(i as int)),
        decreases cols.len() - i,
    {
        let column = &board.columns[i];
        push_str(&mut out, "\n[[columns]]\nname = ");
        push_str(&mut out, quoted(&column.name).as_str());
        push_str(&mut out, "\nstatuses = ");
        push_str(&mut out, listed(&column.statuses).as_str());
        push_str(&mut out, "\n");
        proof {
            assert(cols.take(i + 1).drop_last() =~= cols.take(i as int));
            assert(cols.take(i + 1).last() == column@);
        }
        i = i + 1;
        assert(out@ =~= head + columns_text(cols.take(i as int)));
    }
    assert(cols.take(i as int) =~= cols);
    assert(out@ =~= board_text(board@));
    out
}

proof fn lemma_columns_prefix(items: Seq<Tree>, n: int)
    requires
        0 <= n <= items.len(),
        columns_of(items.take(n)) is Err,
    ensures
        columns_of(items) == columns_of(items.take(n)),
    decreases items.len() - n,
{
    if n == items.len() {
        assert(items.take(n) =~= items);
    } else {
        assert(items.drop_last().take(n) =~= items.take(n));
        lemma_columns_prefix(items.drop_last(), n);
    }
}

} // verus!
