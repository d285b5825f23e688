//! Why a request is refused or fails, and what its sender is told.

use vstd::prelude::*;

verus! {

#[derive(Debug)]
pub enum ToolError {
    /// No project has this key.
    UnknownProject(String),
    /// The root directory that the project names cannot be reached.
    RootUnavailable(String),
    AbsolutePath,
    PathTraversal,
    AccessDenied,
    /// The requested path cannot be reached.
    PathUnavailable(String),
    OutsideRoot,
    NotADirectory,
    /// The directory cannot be read, and what the system says of it.
    UnreadableDirectory(String),
    NotAFile,
    /// Nothing is known of the file, and what the system says of it.
    UnknownFile(String),
    FileTooLarge,
    /// The file cannot be read as text, and what the system says of it.
    UnreadableFile(String),
    /// The search program cannot be run, and what the system says of it.
    SearchUnavailable(String),
    /// The search program failed, and what it printed.
    SearchFailed(String),
}

pub enum ToolErrorView {
    UnknownProject(Seq<char>),
    RootUnavailable(Seq<char>),
    AbsolutePath,
    PathTraversal,
    AccessDenied,
    PathUnavailable(Seq<char>),
    OutsideRoot,
    NotADirectory,
    UnreadableDirectory(Seq<char>),
    NotAFile,
    UnknownFile(Seq<char>),
    FileTooLarge,
    UnreadableFile(Seq<char>),
    SearchUnavailable(Seq<char>),
    SearchFailed(Seq<char>),
}

impl View for ToolError {
    type V = ToolErrorView;

    open spec fn view(&self) -> ToolErrorView {
        match *self {
            ToolError::UnknownProject(s) => ToolErrorView::UnknownProject(s@),
            ToolError::RootUnavailable(s) => ToolErrorView::RootUnavailable(s@),
            ToolError::AbsolutePath => ToolErrorView::AbsolutePath,
            ToolError::PathTraversal => ToolErrorView::PathTraversal,
            ToolError::AccessDenied => ToolErrorView::AccessDenied,
            ToolError::PathUnavailable(s) => ToolErrorView::PathUnavailable(s@),
            ToolError::OutsideRoot => ToolErrorView::OutsideRoot,
            ToolError::NotADirectory => ToolErrorView::NotADirectory,
            ToolError::UnreadableDirectory(s) => ToolErrorView::UnreadableDirectory(s@),
            ToolError::NotAFile => ToolErrorView::NotAFile,
            ToolError::UnknownFile(s) => ToolErrorView::UnknownFile(s@),
            ToolError::FileTooLarge => ToolErrorView::FileTooLarge,
            ToolError::UnreadableFile(s) => ToolErrorView::UnreadableFile(s@),
            ToolError::SearchUnavailable(s) => ToolErrorView::SearchUnavailable(s@),
            ToolError::SearchFailed(s) => ToolErrorView::SearchFailed(s@),
        }
    }
}

/// What the sender of a request is told of an error.
pub open spec fn message_of(error: ToolErrorView) -> Seq<char> {
    match error {
        ToolErrorView::UnknownProject(key) => "unknown project: "@ + key,
        ToolErrorView::RootUnavailable(root) => "cannot access project root: "@ + root,
        ToolErrorView::AbsolutePath => "absolute paths are not allowed"@,
        ToolErrorView::PathTraversal => "path traversal is not allowed"@,
        ToolErrorView::AccessDenied => "access denied to requested path"@,
        ToolErrorView::PathUnavailable(rel) => "cannot access path: "@ + rel,
        ToolErrorView::OutsideRoot => "path escapes project root"@,
        ToolErrorView::NotADirectory => "requested path is not a directory"@,
        ToolErrorView::UnreadableDirectory(e) => "cannot read directory: "@ + e,
        ToolErrorView::NotAFile => "requested path is not a file"@,
        ToolErrorView::UnknownFile(e) => "cannot stat file: "@ + e,
        ToolErrorView::FileTooLarge => "file too large (max 1MB)"@,
        ToolErrorView::UnreadableFile(e) => "failed to read file: "@ + e,
        ToolErrorView::SearchUnavailable(e) => "failed to run ripgrep: "@ + e,
        ToolErrorView::SearchFailed(e) => "ripgrep failed: "@ + e,
    }
}

fn sentence(start: &str, end: &str) -> (r: String)
    ensures
        r@ == start@ + end@,
{
    let mut out = start.to_owned();
    out.append(end);
    out
}

impl ToolError {
    /// What the sender of the request is told.
    pub fn message(&self) -> (r: String)
        ensures
            r@ == message_of(self@),
    {
        match self {
            ToolError::UnknownProject(key) => sentence("unknown project: ", key.as_str()),
            ToolError::RootUnavailable(root) => sentence(
                "cannot access project root: ",
                root.as_str(),
            ),
            ToolError::AbsolutePath => "absolute paths are not allowed".to_owned(),
            ToolError::PathTraversal => "path traversal is not allowed".to_owned(),
            ToolError::AccessDenied => "access denied to requested path".to_owned(),
            ToolError::PathUnavailable(rel) => sentence("cannot access path: ", rel.as_str()),
            ToolError::OutsideRoot => "path escapes project root".to_owned(),
            ToolError::NotADirectory => "requested path is not a directory".to_owned(),
            ToolError::UnreadableDirectory(e) => sentence("cannot read directory: ", e.as_str()),
            ToolError::NotAFile => "requested path is not a file".to_owned(),
            ToolError::UnknownFile(e) => sentence("cannot stat file: ", e.as_str()),
            ToolError::FileTooLarge => "file too large (max 1MB)".to_owned(),
            ToolError::UnreadableFile(e) => sentence("failed to read file: ", e.as_str()),
            ToolError::SearchUnavailable(e) => sentence("failed to run ripgrep: ", e.as_str()),
            ToolError::SearchFailed(e) => sentence("ripgrep failed: ", e.as_str()),
        }
    }
}

/// What the sender of a request is told: what was refused or failed, in words, and behind
/// them, where there is one, the key, the path or what the system says of it, in full.
pub proof fn law_messages(s: Seq<char>)
    ensures
        message_of(ToolErrorView::UnknownProject(s)) == "unknown project: "@ + s,
        message_of(ToolErrorView::RootUnavailable(s)) == "cannot access project root: "@ + s,
        message_of(ToolErrorView::AbsolutePath) == "absolute paths are not allowed"@,
        message_of(ToolErrorView::PathTraversal) == "path traversal is not allowed"@,
        message_of(ToolErrorView::AccessDenied) == "access denied to requested path"@,
        message_of(ToolErrorView::PathUnavailable(s)) == "cannot access path: "@ + s,
        message_of(ToolErrorView::OutsideRoot) == "path escapes project root"@,
        message_of(ToolErrorView::NotADirectory) == "requested path is not a directory"@,
        message_of(ToolErrorView::UnreadableDirectory(s)) == "cannot read directory: "@ + s,
        message_of(ToolErrorView::NotAFile) == "requested path is not a file"@,
        message_of(ToolErrorView::UnknownFile(s)) == "cannot stat file: "@ + s,
        message_of(ToolErrorView::FileTooLarge) == "file too large (max 1MB)"@,
        message_of(ToolErrorView::UnreadableFile(s)) == "failed to read file: "@ + s,
        message_of(ToolErrorView::SearchUnavailable(s)) == "failed to run ripgrep: "@ + s,
        message_of(ToolErrorView::SearchFailed(s)) == "ripgrep failed: "@ + s,
{
}

/// An error stands for just what it holds.
pub proof fn law_error_view(s: String)
    ensures
        ToolError::UnknownProject(s)@ == ToolErrorView::UnknownProject(s@),
        ToolError::RootUnavailable(s)@ == ToolErrorView::RootUnavailable(s@),
        ToolError::AbsolutePath@ == ToolErrorView::AbsolutePath,
        ToolError::PathTraversal@ == ToolErrorView::PathTraversal,
        ToolError::AccessDenied@ == ToolErrorView::AccessDenied,
        ToolError::PathUnavailable(s)@ == ToolErrorView::PathUnavailable(s@),
        ToolError::OutsideRoot@ == ToolErrorView::OutsideRoot,
        ToolError::NotADirectory@ == ToolErrorView::NotADirectory,
        ToolError::UnreadableDirectory(s)@ == ToolErrorView::UnreadableDirectory(s@),
        ToolError::NotAFile@ == ToolErrorView::NotAFile,
        ToolError::UnknownFile(s)@ == ToolErrorView::UnknownFile(s@),
        ToolError::FileTooLarge@ == ToolErrorView::FileTooLarge,
        ToolError::UnreadableFile(s)@ == ToolErrorView::UnreadableFile(s@),
        ToolError::SearchUnavailable(s)@ == ToolErrorView::SearchUnavailable(s@),
        ToolError::SearchFailed(s)@ == ToolErrorView::SearchFailed(s@),
{
}

} // verus!
