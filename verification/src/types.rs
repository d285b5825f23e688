//! What clients ask for and what they are answered.

use crate::order::Ordered;
use crate::text::{text_at_most, text_le, texts};
use vstd::prelude::*;

verus! {

#[derive(Debug)]
pub struct ListRequest {
    pub project_key: String,
    pub path: Option<String>,
}

#[derive(Debug)]
pub struct GlobRequest {
    pub project_key: String,
    pub pattern: String,
}

#[derive(Debug)]
pub struct ReadRequest {
    pub project_key: String,
    pub path: String,
    pub offset: Option<usize>,
    pub limit: Option<usize>,
}

#[derive(Debug)]
pub struct GrepRequest {
    pub project_key: String,
    pub pattern: String,
    pub path: Option<String>,
    pub case_sensitive: Option<bool>,
    pub max_results: Option<usize>,
}

#[derive(Debug)]
pub struct SearchTextRequest {
    pub project_key: String,
    pub query: String,
}

#[derive(Debug)]
pub struct ProjectListResponse {
    pub projects: Vec<String>,
}

#[derive(Debug, Clone, Copy, PartialEq, Eq, Structural)]
pub enum EntryKind {
    File,
    Dir,
}

#[derive(Debug)]
pub struct ListEntry {
    pub name: String,
    pub kind: EntryKind,
    pub size: Option<u64>,
}

pub struct ListEntryView {
    pub name: Seq<char>,
    pub kind: EntryKind,
    pub size: Option<u64>,
}

impl View for ListEntry {
    type V = ListEntryView;

    open spec fn view(&self) -> ListEntryView {
        ListEntryView { name: self.name@, kind: self.kind, size: self.size }
    }
}

/// Directories come before files; within each kind the names decide.
pub open spec fn entry_le(a: ListEntryView, b: ListEntryView) -> bool {
    match (a.kind, b.kind) {
        (EntryKind::Dir, EntryKind::File) => true,
        (EntryKind::File, EntryKind::Dir) => false,
        _ => text_le(a.name, b.name),
    }
}

impl Ordered for ListEntry {
    open spec fn not_after(a: ListEntryView, b: ListEntryView) -> bool {
        entry_le(a, b)
    }

    proof fn not_after_total(a: ListEntryView, b: ListEntryView) {
        <String as Ordered>::not_after_total(a.name, b.name);
    }

    proof fn not_after_transitive(a: ListEntryView, b: ListEntryView, c: ListEntryView) {
        if a.kind == b.kind && b.kind == c.kind {
            <String as Ordered>::not_after_transitive(a.name, b.name, c.name);
        }
    }

    fn at_most(&self, other: &Self) -> (r: bool) {
        match (self.kind, other.kind) {
            (EntryKind::Dir, EntryKind::File) => true,
            (EntryKind::File, EntryKind::Dir) => false,
            _ => text_at_most(self.name.as_str(), other.name.as_str()),
        }
    }
}

#[derive(Debug)]
pub struct ListResponse {
    pub entries: Vec<ListEntry>,
}

#[derive(Debug)]
pub struct GlobResponse {
    pub paths: Vec<String>,
    pub truncated: bool,
}

#[verifier::ext_equal]
pub struct GlobResponseView {
    pub paths: Seq<Seq<char>>,
    pub truncated: bool,
}

impl View for GlobResponse {
    type V = GlobResponseView;

    open spec fn view(&self) -> GlobResponseView {
        GlobResponseView { paths: texts(self.paths@), truncated: self.truncated }
    }
}

#[derive(Debug)]
pub struct ReadResponse {
    pub path: String,
    pub start_line: usize,
    pub end_line: usize,
    pub total_lines: usize,
    pub content: String,
    pub truncated: bool,
}

#[verifier::ext_equal]
pub struct ReadResponseView {
    pub path: Seq<char>,
    pub start_line: nat,
    pub end_line: nat,
    pub total_lines: nat,
    pub content: Seq<char>,
    pub truncated: bool,
}

impl View for ReadResponse {
    type V = ReadResponseView;

    open spec fn view(&self) -> ReadResponseView {
        ReadResponseView {
            path: self.path@,
            start_line: self.start_line as nat,
            end_line: self.end_line as nat,
            total_lines: self.total_lines as nat,
            content: self.content@,
            truncated: self.truncated,
        }
    }
}

#[derive(Debug)]
pub struct GrepMatch {
    pub path: String,
    pub line: usize,
    pub text: String,
}

#[verifier::ext_equal]
pub struct GrepMatchView {
    pub path: Seq<char>,
    pub line: usize,
    pub text: Seq<char>,
}

impl View for GrepMatch {
    type V = GrepMatchView;

    open spec fn view(&self) -> GrepMatchView {
        GrepMatchView { path: self.path@, line: self.line, text: self.text@ }
    }
}

#[derive(Debug)]
pub struct GrepResponse {
    pub matches: Vec<GrepMatch>,
    pub truncated: bool,
}

#[verifier::ext_equal]
pub struct GrepResponseView {
    pub matches: Seq<GrepMatchView>,
    pub truncated: bool,
}

impl View for GrepResponse {
    type V = GrepResponseView;

    open spec fn view(&self) -> GrepResponseView {
        GrepResponseView {
            matches: self.matches@.map_values(|m: GrepMatch| m@),
            truncated: self.truncated,
        }
    }
}

/// A directory comes before every file; two entries of one kind are ordered as their
/// names.
pub proof fn law_entry_order(a: ListEntryView, b: ListEntryView)
    ensures
        <ListEntry as Ordered>::not_after(a, b) <==> {
            ||| a.kind == EntryKind::Dir && b.kind == EntryKind::File
            ||| a.kind == b.kind && text_le(a.name, b.name)
        },
{
}

/// A page stands for just what it holds.
pub proof fn law_read_response_view(r: ReadResponse)
    ensures
        r@.path == r.path@,
        r@.start_line == r.start_line,
        r@.end_line == r.end_line,
        r@.total_lines == r.total_lines,
        r@.content == r.content@,
        r@.truncated == r.truncated,
{
}

/// The answer to a search for files stands for just what it holds.
pub proof fn law_glob_response_view(r: GlobResponse)
    ensures
        r@.truncated == r.truncated,
        r@.paths.len() == r.paths@.len(),
        forall|i: int| 0 <= i < r.paths@.len() ==> #[trigger] r@.paths[i] == r.paths@[i]@,
{
}

/// The answer to a search for text stands for just what it holds.
pub proof fn law_grep_response_view(r: GrepResponse)
    ensures
        r@.truncated == r.truncated,
        r@.matches.len() == r.matches@.len(),
        forall|i: int|
            0 <= i < r.matches@.len() ==> {
                let m = #[trigger] r@.matches[i];
                &&& m.path == r.matches@[i].path@
                &&& m.line == r.matches@[i].line
                &&& m.text == r.matches@[i].text@
            },
{
}

} // verus!
