//! A request under way: what it needs from the system next, and what it makes of the
//! reply.

use crate::access::{candidate, candidate_path, path_view, reached, reached_path};
use crate::encoding::lossy;
use crate::error::{ToolError, ToolErrorView};
use crate::listing::{list_response, listing, raw_views, RawEntry, RawEntryView};
use crate::order::views;
use crate::path::{below, bytes_of, denied_name, strip_prefix, within};
use crate::read::{page, read_page};
use crate::search::{
    glob_args, glob_arguments, glob_outcome, glob_result, grep_args, grep_arguments, grep_outcome,
    grep_result, result_limit, result_limit_of, run_view, undashed, without_dash, ProcessOutput,
    ProcessOutputView,
};
use crate::server::Pastaless;
use crate::text::{forward_slashes, texts};
use crate::types::{
    GlobResponse, GlobResponseView, GrepResponse, GrepResponseView, ListEntryView, ListResponse,
    ReadResponse, ReadResponseView,
};
use vstd::prelude::*;
use vstd::utf8::encode_utf8;

verus! {

/// The size in bytes above which a file is not read.
pub const MAX_FILE_BYTES: u64 = 1_048_576;

/// What a request needs from the system.
#[derive(Debug)]
pub enum Effect {
    /// The canonical, absolute form of a path.
    Canonicalize(Vec<u8>),
    /// Whether the path is a directory.
    CheckDirectory(Vec<u8>),
    /// The entries of a directory.
    ReadDirectory(Vec<u8>),
    /// Whether the path is a file.
    CheckFile(Vec<u8>),
    /// The size of a file.
    MeasureFile(Vec<u8>),
    /// The text of a file.
    ReadFile(Vec<u8>),
    /// A run of the search program in a directory.
    Search { args: Vec<String>, directory: Vec<u8> },
}

pub enum EffectView {
    Canonicalize(Seq<u8>),
    CheckDirectory(Seq<u8>),
    ReadDirectory(Seq<u8>),
    CheckFile(Seq<u8>),
    MeasureFile(Seq<u8>),
    ReadFile(Seq<u8>),
    Search { args: Seq<Seq<char>>, directory: Seq<u8> },
}

impl View for Effect {
    type V = EffectView;

    open spec fn view(&self) -> EffectView {
        match *self {
            Effect::Canonicalize(p) => EffectView::Canonicalize(p@),
            Effect::CheckDirectory(p) => EffectView::CheckDirectory(p@),
            Effect::ReadDirectory(p) => EffectView::ReadDirectory(p@),
            Effect::CheckFile(p) => EffectView::CheckFile(p@),
            Effect::MeasureFile(p) => EffectView::MeasureFile(p@),
            Effect::ReadFile(p) => EffectView::ReadFile(p@),
            Effect::Search { args, directory } => EffectView::Search {
                args: texts(args@),
                directory: directory@,
            },
        }
    }
}

/// What the system replies. An error is what the system says of it.
#[derive(Debug)]
pub enum Reply {
    /// To `Canonicalize`; missing where there is no such path.
    Canonical(Option<Vec<u8>>),
    /// To `CheckDirectory` and `CheckFile`.
    Check(bool),
    /// To `ReadDirectory`; an entry that could not be read is `None`.
    Entries(Result<Vec<Option<RawEntry>>, String>),
    /// To `MeasureFile`.
    Size(Result<u64, String>),
    /// To `ReadFile`.
    Text(Result<String, String>),
    /// To `Search`.
    Run(Result<ProcessOutput, String>),
}

pub enum ReplyView {
    Canonical(Option<Seq<u8>>),
    Check(bool),
    Entries(Result<Seq<Option<RawEntryView>>, Seq<char>>),
    Size(Result<u64, Seq<char>>),
    Text(Result<Seq<char>, Seq<char>>),
    Run(Result<ProcessOutputView, Seq<char>>),
}

impl View for Reply {
    type V = ReplyView;

    open spec fn view(&self) -> ReplyView {
        match *self {
            Reply::Canonical(p) => ReplyView::Canonical(path_view(p)),
            Reply::Check(b) => ReplyView::Check(b),
            Reply::Entries(Ok(entries)) => ReplyView::Entries(Ok(raw_views(entries@))),
            Reply::Entries(Err(e)) => ReplyView::Entries(Err(e@)),
            Reply::Size(Ok(n)) => ReplyView::Size(Ok(n)),
            Reply::Size(Err(e)) => ReplyView::Size(Err(e@)),
            Reply::Text(Ok(text)) => ReplyView::Text(Ok(text@)),
            Reply::Text(Err(e)) => ReplyView::Text(Err(e@)),
            Reply::Run(run) => ReplyView::Run(run_view(run)),
        }
    }
}

/// What a request is answered with.
#[derive(Debug)]
pub enum Response {
    List(ListResponse),
    Glob(GlobResponse),
    Read(ReadResponse),
    Grep(GrepResponse),
}

pub enum ResponseView {
    List(Seq<ListEntryView>),
    Glob(GlobResponseView),
    Read(ReadResponseView),
    Grep(GrepResponseView),
}

impl View for Response {
    type V = ResponseView;

    open spec fn view(&self) -> ResponseView {
        match *self {
            Response::List(r) => ResponseView::List(views(r.entries@)),
            Response::Glob(r) => ResponseView::Glob(r@),
            Response::Read(r) => ResponseView::Read(r@),
            Response::Grep(r) => ResponseView::Grep(r@),
        }
    }
}

/// What is done with the path that a request reaches.
#[derive(Debug)]
pub enum Goal {
    List,
    Read { offset: Option<usize>, limit: Option<usize> },
    /// A search below the path, run in the directory `directory`.
    Grep {
        directory: Vec<u8>,
        pattern: String,
        case_sensitive: Option<bool>,
        max_results: Option<usize>,
    },
}

pub enum GoalView {
    List,
    Read { offset: Option<usize>, limit: Option<usize> },
    Grep {
        directory: Seq<u8>,
        pattern: Seq<char>,
        case_sensitive: Option<bool>,
        max_results: Option<usize>,
    },
}

impl View for Goal {
    type V = GoalView;

    open spec fn view(&self) -> GoalView {
        match *self {
            Goal::List => GoalView::List,
            Goal::Read { offset, limit } => GoalView::Read { offset, limit },
            Goal::Grep { directory, pattern, case_sensitive, max_results } => GoalView::Grep {
                directory: directory@,
                pattern: pattern@,
                case_sensitive,
                max_results,
            },
        }
    }
}

/// What a request waits for. `root` is the root directory that the project
/// names, `rel` the path that was asked for.
#[derive(Debug)]
enum Stage {
    /// For the canonical root directory, before a search for text.
    GrepRoot {
        root: String,
        rel: String,
        pattern: String,
        case_sensitive: Option<bool>,
        max_results: Option<usize>,
    },
    /// For the canonical root directory, before a search for files.
    GlobRoot { root: String, pattern: String },
    /// For the canonical root directory, before the path is looked at.
    Root { root: String, rel: String, goal: Goal },
    /// For the canonical form of the path, below the canonical root directory.
    Target { directory: Vec<u8>, rel: String, goal: Goal },
    ListCheck { path: Vec<u8> },
    ListEntries { path: Vec<u8> },
    ReadCheck { path: Vec<u8>, rel: String, offset: Option<usize>, limit: Option<usize> },
    ReadSize { path: Vec<u8>, rel: String, offset: Option<usize>, limit: Option<usize> },
    ReadText { rel: String, offset: Option<usize>, limit: Option<usize> },
    GrepRun { max_results: Option<usize> },
    GlobRun,
}

pub enum SessionView {
    GrepRoot {
        root: Seq<char>,
        rel: Seq<char>,
        pattern: Seq<char>,
        case_sensitive: Option<bool>,
        max_results: Option<usize>,
    },
    GlobRoot { root: Seq<char>, pattern: Seq<char> },
    Root { root: Seq<char>, rel: Seq<char>, goal: GoalView },
    Target { directory: Seq<u8>, rel: Seq<char>, goal: GoalView },
    ListCheck { path: Seq<u8> },
    ListEntries { path: Seq<u8> },
    ReadCheck { path: Seq<u8>, rel: Seq<char>, offset: Option<usize>, limit: Option<usize> },
    ReadSize { path: Seq<u8>, rel: Seq<char>, offset: Option<usize>, limit: Option<usize> },
    ReadText { rel: Seq<char>, offset: Option<usize>, limit: Option<usize> },
    GrepRun { max_results: Option<usize> },
    GlobRun,
}

impl View for Stage {
    type V = SessionView;

    closed spec fn view(&self) -> SessionView {
        match *self {
            Stage::GrepRoot { root, rel, pattern, case_sensitive, max_results } => {
                SessionView::GrepRoot {
                    root: root@,
                    rel: rel@,
                    pattern: pattern@,
                    case_sensitive,
                    max_results,
                }
            },
            Stage::GlobRoot { root, pattern } => SessionView::GlobRoot {
                root: root@,
                pattern: pattern@,
            },
            Stage::Root { root, rel, goal } => SessionView::Root {
                root: root@,
                rel: rel@,
                goal: goal@,
            },
            Stage::Target { directory, rel, goal } => SessionView::Target {
                directory: directory@,
                rel: rel@,
                goal: goal@,
            },
            Stage::ListCheck { path } => SessionView::ListCheck { path: path@ },
            Stage::ListEntries { path } => SessionView::ListEntries { path: path@ },
            Stage::ReadCheck { path, rel, offset, limit } => SessionView::ReadCheck {
                path: path@,
                rel: rel@,
                offset,
                limit,
            },
            Stage::ReadSize { path, rel, offset, limit } => SessionView::ReadSize {
                path: path@,
                rel: rel@,
                offset,
                limit,
            },
            Stage::ReadText { rel, offset, limit } => SessionView::ReadText {
                rel: rel@,
                offset,
                limit,
            },
            Stage::GrepRun { max_results } => SessionView::GrepRun { max_results },
            Stage::GlobRun => SessionView::GlobRun,
        }
    }
}

/// A request that waits for a reply. Only the tools of the server begin one, so whatever
/// it asks for comes from a tool call and the replies since.
#[derive(Debug)]
pub struct Session {
    stage: Stage,
}

impl View for Session {
    type V = SessionView;

    closed spec fn view(&self) -> SessionView {
        self.stage@
    }
}

/// Where a request stands: it waits for the system, or it is done.
#[derive(Debug)]
pub enum Step {
    Perform(Session, Effect),
    Finish(Result<Response, ToolError>),
}

pub enum StepView {
    Perform(SessionView, EffectView),
    Finish(Result<ResponseView, ToolErrorView>),
}

impl View for Step {
    type V = StepView;

    open spec fn view(&self) -> StepView {
        match *self {
            Step::Perform(session, effect) => StepView::Perform(session@, effect@),
            Step::Finish(Ok(response)) => StepView::Finish(Ok(response@)),
            Step::Finish(Err(e)) => StepView::Finish(Err(e@)),
        }
    }
}

/// The reply is of the kind that the session waits for.
pub open spec fn accepts(session: SessionView, reply: ReplyView) -> bool {
    match session {
        SessionView::GrepRoot { .. } => reply is Canonical,
        SessionView::GlobRoot { .. } => reply is Canonical,
        SessionView::Root { .. } => reply is Canonical,
        SessionView::Target { .. } => reply is Canonical,
        SessionView::ListCheck { .. } => reply is Check,
        SessionView::ListEntries { .. } => reply is Entries,
        SessionView::ReadCheck { .. } => reply is Check,
        SessionView::ReadSize { .. } => reply is Size,
        SessionView::ReadText { .. } => reply is Text,
        SessionView::GrepRun { .. } => reply is Run,
        SessionView::GlobRun => reply is Run,
    }
}

/// The first step towards `goal`, in the project with this root directory.
pub open spec fn approach(root: Seq<char>, rel: Seq<char>, goal: GoalView) -> StepView {
    StepView::Perform(
        SessionView::Root { root, rel, goal },
        EffectView::Canonicalize(encode_utf8(root)),
    )
}

/// How a search names the directory or file that it looks in, seen from the root
/// directory: with slashes in place of backslashes, and never with a dash in front.
pub open spec fn search_scope(path: Seq<u8>, directory: Seq<u8>) -> Seq<char> {
    if below(path, directory).len() == 0 {
        "."@
    } else {
        undashed(forward_slashes(lossy(below(path, directory))))
    }
}

/// The step that follows when the path that was asked for has been reached.
pub open spec fn pursue(goal: GoalView, rel: Seq<char>, path: Seq<u8>) -> StepView {
    match goal {
        GoalView::List => StepView::Perform(
            SessionView::ListCheck { path },
            EffectView::CheckDirectory(path),
        ),
        GoalView::Read { offset, limit } => StepView::Perform(
            SessionView::ReadCheck { path, rel, offset, limit },
            EffectView::CheckFile(path),
        ),
        GoalView::Grep { directory, pattern, case_sensitive, max_results } => {
            if within(path, directory) {
                StepView::Perform(
                    SessionView::GrepRun { max_results },
                    EffectView::Search {
                        args: grep_arguments(
                            pattern,
                            search_scope(path, directory),
                            case_sensitive,
                        ),
                        directory,
                    },
                )
            } else {
                StepView::Finish(Err(ToolErrorView::OutsideRoot))
            }
        },
    }
}

/// The step that follows the reply to a session which accepts it.
pub open spec fn next(session: SessionView, reply: ReplyView) -> StepView {
    match session {
        SessionView::GrepRoot { root, rel, pattern, case_sensitive, max_results } => {
            match reply->Canonical_0 {
                Some(directory) => approach(
                    root,
                    rel,
                    GoalView::Grep { directory, pattern, case_sensitive, max_results },
                ),
                None => StepView::Finish(Err(ToolErrorView::RootUnavailable(root))),
            }
        },
        SessionView::GlobRoot { root, pattern } => match reply->Canonical_0 {
            Some(directory) => StepView::Perform(
                SessionView::GlobRun,
                EffectView::Search { args: glob_arguments(pattern), directory },
            ),
            None => StepView::Finish(Err(ToolErrorView::RootUnavailable(root))),
        },
        SessionView::Root { root, rel, goal } => match reply->Canonical_0 {
            Some(directory) => match candidate(directory, rel) {
                Ok(path) => StepView::Perform(
                    SessionView::Target { directory, rel, goal },
                    EffectView::Canonicalize(path),
                ),
                Err(e) => StepView::Finish(Err(e)),
            },
            None => StepView::Finish(Err(ToolErrorView::RootUnavailable(root))),
        },
        SessionView::Target { directory, rel, goal } => match reached(
            directory,
            rel,
            reply->Canonical_0,
        ) {
            Ok(path) => pursue(goal, rel, path),
            Err(e) => StepView::Finish(Err(e)),
        },
        SessionView::ListCheck { path } => if reply->Check_0 {
            StepView::Perform(
                SessionView::ListEntries { path },
                EffectView::ReadDirectory(path),
            )
        } else {
            StepView::Finish(Err(ToolErrorView::NotADirectory))
        },
        SessionView::ListEntries { path } => match reply->Entries_0 {
            Ok(entries) => StepView::Finish(Ok(ResponseView::List(listing(path, entries)))),
            Err(e) => StepView::Finish(Err(ToolErrorView::UnreadableDirectory(e))),
        },
        SessionView::ReadCheck { path, rel, offset, limit } => if reply->Check_0 {
            StepView::Perform(
                SessionView::ReadSize { path, rel, offset, limit },
                EffectView::MeasureFile(path),
            )
        } else {
            StepView::Finish(Err(ToolErrorView::NotAFile))
        },
        SessionView::ReadSize { path, rel, offset, limit } => match reply->Size_0 {
            Ok(size) => if size > MAX_FILE_BYTES {
                StepView::Finish(Err(ToolErrorView::FileTooLarge))
            } else {
                StepView::Perform(
                    SessionView::ReadText { rel, offset, limit },
                    EffectView::ReadFile(path),
                )
            },
            Err(e) => StepView::Finish(Err(ToolErrorView::UnknownFile(e))),
        },
        SessionView::ReadText { rel, offset, limit } => match reply->Text_0 {
            Ok(text) => StepView::Finish(Ok(ResponseView::Read(page(rel, text, offset, limit)))),
            Err(e) => StepView::Finish(Err(ToolErrorView::UnreadableFile(e))),
        },
        SessionView::GrepRun { max_results } => match grep_outcome(
            reply->Run_0,
            result_limit(max_results),
        ) {
            Ok(response) => StepView::Finish(Ok(ResponseView::Grep(response))),
            Err(e) => StepView::Finish(Err(e)),
        },
        SessionView::GlobRun => match glob_outcome(reply->Run_0) {
            Ok(response) => StepView::Finish(Ok(ResponseView::Glob(response))),
            Err(e) => StepView::Finish(Err(e)),
        },
    }
}

fn copy_bytes(bytes: &[u8]) -> (r: Vec<u8>)
    ensures
        r@ == bytes@,
{
    let r = bytes_of(bytes, 0, bytes.len());
    assert(r@ =~= bytes@);
    r
}

fn canonical_in(reply: Reply) -> (r: Option<Vec<u8>>)
    requires
        reply is Canonical,
    ensures
        reply@ == ReplyView::Canonical(path_view(r)),
{
    match reply {
        Reply::Canonical(path) => path,
        _ => None,
    }
}

fn check_in(reply: Reply) -> (r: bool)
    requires
        reply is Check,
    ensures
        reply@ == ReplyView::Check(r),
{
    match reply {
        Reply::Check(b) => b,
        _ => false,
    }
}

fn entries_in(reply: Reply) -> (r: Result<Vec<Option<RawEntry>>, String>)
    requires
        reply is Entries,
    ensures
        reply == Reply::Entries(r),
{
    match reply {
        Reply::Entries(entries) => entries,
        _ => Err(String::new()),
    }
}

fn size_in(reply: Reply) -> (r: Result<u64, String>)
    requires
        reply is Size,
    ensures
        reply == Reply::Size(r),
{
    match reply {
        Reply::Size(size) => size,
        _ => Err(String::new()),
    }
}

fn text_in(reply: Reply) -> (r: Result<String, String>)
    requires
        reply is Text,
    ensures
        reply == Reply::Text(r),
{
    match reply {
        Reply::Text(text) => text,
        _ => Err(String::new()),
    }
}

fn run_in(reply: Reply) -> (r: Result<ProcessOutput, String>)
    requires
        reply is Run,
    ensures
        reply == Reply::Run(r),
{
    match reply {
        Reply::Run(run) => run,
        _ => Err(String::new()),
    }
}

fn perform(stage: Stage, effect: Effect) -> (r: Step)
    ensures
        r@ == StepView::Perform(stage@, effect@),
{
    Step::Perform(Session { stage }, effect)
}

/// The first step of a search for text, in the project with this root directory.
pub(crate) fn start_grep(
    root: String,
    rel: String,
    pattern: String,
    case_sensitive: Option<bool>,
    max_results: Option<usize>,
) -> (r: Step)
    ensures
        r@ == StepView::Perform(
            SessionView::GrepRoot {
                root: root@,
                rel: rel@,
                pattern: pattern@,
                case_sensitive,
                max_results,
            },
            EffectView::Canonicalize(encode_utf8(root@)),
        ),
{
    let path = copy_bytes(root.as_str().as_bytes());
    perform(
        Stage::GrepRoot { root, rel, pattern, case_sensitive, max_results },
        Effect::Canonicalize(path),
    )
}

/// The first step of a search for files, in the project with this root directory.
pub(crate) fn start_glob(root: String, pattern: String) -> (r: Step)
    ensures
        r@ == StepView::Perform(
            SessionView::GlobRoot { root: root@, pattern: pattern@ },
            EffectView::Canonicalize(encode_utf8(root@)),
        ),
{
    let path = copy_bytes(root.as_str().as_bytes());
    perform(Stage::GlobRoot { root, pattern }, Effect::Canonicalize(path))
}

/// The first step towards `goal`, in the project with this root directory.
pub(crate) fn start(root: String, rel: String, goal: Goal) -> (r: Step)
    ensures
        r@ == approach(root@, rel@, goal@),
{
    let path = copy_bytes(root.as_str().as_bytes());
    perform(Stage::Root { root, rel, goal }, Effect::Canonicalize(path))
}

fn scope_of(path: &[u8], directory: &[u8]) -> (r: Option<String>)
    ensures
        r is Some <==> within(path@, directory@),
        r matches Some(scope) ==> scope@ == search_scope(path@, directory@),
{
    match strip_prefix(path, directory) {
        Some(rest) => if rest.len() == 0 {
            Some(".".to_owned())
        } else {
            Some(without_dash(Pastaless::normalize_relative(rest.as_slice())))
        },
        None => None,
    }
}

fn follow(goal: Goal, rel: String, path: Vec<u8>) -> (r: Step)
    ensures
        r@ == pursue(goal@, rel@, path@),
{
    match goal {
        Goal::List => {
            let again = copy_bytes(path.as_slice());
            perform(Stage::ListCheck { path }, Effect::CheckDirectory(again))
        },
        Goal::Read { offset, limit } => {
            let again = copy_bytes(path.as_slice());
            perform(
                Stage::ReadCheck { path, rel, offset, limit },
                Effect::CheckFile(again),
            )
        },
        Goal::Grep { directory, pattern, case_sensitive, max_results } => {
            match scope_of(path.as_slice(), directory.as_slice()) {
                Some(scope) => {
                    let args = grep_args(pattern, scope, case_sensitive);
                    perform(
                        Stage::GrepRun { max_results },
                        Effect::Search { args, directory },
                    )
                },
                None => Step::Finish(Err(ToolError::OutsideRoot)),
            }
        },
    }
}

impl Session {
    /// Whether the session waits for a reply like this one.
    pub fn is_accepting(&self, reply: &Reply) -> (r: bool)
        ensures
            r == accepts(self@, reply@),
    {
        match &self.stage {
            Stage::GrepRoot { .. } => matches!(reply, Reply::Canonical(_)),
            Stage::GlobRoot { .. } => matches!(reply, Reply::Canonical(_)),
            Stage::Root { .. } => matches!(reply, Reply::Canonical(_)),
            Stage::Target { .. } => matches!(reply, Reply::Canonical(_)),
            Stage::ListCheck { .. } => matches!(reply, Reply::Check(_)),
            Stage::ListEntries { .. } => matches!(reply, Reply::Entries(_)),
            Stage::ReadCheck { .. } => matches!(reply, Reply::Check(_)),
            Stage::ReadSize { .. } => matches!(reply, Reply::Size(_)),
            Stage::ReadText { .. } => matches!(reply, Reply::Text(_)),
            Stage::GrepRun { .. } => matches!(reply, Reply::Run(_)),
            Stage::GlobRun => matches!(reply, Reply::Run(_)),
        }
    }

    /// The step that follows the reply. No entry of a listing has a denied name.
    pub fn advance(self, reply: Reply) -> (r: Step)
        requires
            accepts(self@, reply@),
        ensures
            r@ == next(self@, reply@),
            r matches Step::Finish(Ok(Response::List(list))) ==> forall|i: int|
                0 <= i < list.entries@.len() ==> !denied_name(
                    encode_utf8(#[trigger] list.entries@[i].name@),
                ),
    {
        match self.stage {
            Stage::GrepRoot { root, rel, pattern, case_sensitive, max_results } => {
                match canonical_in(reply) {
                    Some(directory) => start(
                        root,
                        rel,
                        Goal::Grep { directory, pattern, case_sensitive, max_results },
                    ),
                    None => Step::Finish(Err(ToolError::RootUnavailable(root))),
                }
            },
            Stage::GlobRoot { root, pattern } => match canonical_in(reply) {
                Some(directory) => {
                    let args = glob_args(pattern);
                    perform(Stage::GlobRun, Effect::Search { args, directory })
                },
                None => Step::Finish(Err(ToolError::RootUnavailable(root))),
            },
            Stage::Root { root, rel, goal } => match canonical_in(reply) {
                Some(directory) => match candidate_path(directory.as_slice(), rel.as_str()) {
                    Ok(path) => perform(
                        Stage::Target { directory, rel, goal },
                        Effect::Canonicalize(path),
                    ),
                    Err(e) => Step::Finish(Err(e)),
                },
                None => Step::Finish(Err(ToolError::RootUnavailable(root))),
            },
            Stage::Target { directory, rel, goal } => {
                let canonical = canonical_in(reply);
                match reached_path(directory.as_slice(), rel.as_str(), canonical) {
                    Ok(path) => follow(goal, rel, path),
                    Err(e) => Step::Finish(Err(e)),
                }
            },
            Stage::ListCheck { path } => if check_in(reply) {
                let again = copy_bytes(path.as_slice());
                perform(Stage::ListEntries { path }, Effect::ReadDirectory(again))
            } else {
                Step::Finish(Err(ToolError::NotADirectory))
            },
            Stage::ListEntries { path } => match entries_in(reply) {
                Ok(entries) => Step::Finish(
                    Ok(Response::List(list_response(path.as_slice(), entries))),
                ),
                Err(e) => Step::Finish(Err(ToolError::UnreadableDirectory(e))),
            },
            Stage::ReadCheck { path, rel, offset, limit } => if check_in(reply) {
                let again = copy_bytes(path.as_slice());
                perform(
                    Stage::ReadSize { path, rel, offset, limit },
                    Effect::MeasureFile(again),
                )
            } else {
                Step::Finish(Err(ToolError::NotAFile))
            },
            Stage::ReadSize { path, rel, offset, limit } => match size_in(reply) {
                Ok(size) => if size > MAX_FILE_BYTES {
                    Step::Finish(Err(ToolError::FileTooLarge))
                } else {
                    perform(
                        Stage::ReadText { rel, offset, limit },
                        Effect::ReadFile(path),
                    )
                },
                Err(e) => Step::Finish(Err(ToolError::UnknownFile(e))),
            },
            Stage::ReadText { rel, offset, limit } => match text_in(reply) {
                Ok(text) => Step::Finish(
                    Ok(Response::Read(read_page(rel, text.as_str(), offset, limit))),
                ),
                Err(e) => Step::Finish(Err(ToolError::UnreadableFile(e))),
            },
            Stage::GrepRun { max_results } => match grep_result(
                run_in(reply),
                result_limit_of(max_results),
            ) {
                Ok(response) => Step::Finish(Ok(Response::Grep(response))),
                Err(e) => Step::Finish(Err(e)),
            },
            Stage::GlobRun => match glob_result(run_in(reply)) {
                Ok(response) => Step::Finish(Ok(Response::Glob(response))),
                Err(e) => Step::Finish(Err(e)),
            },
        }
    }
}

/// What a request needs stands for just what it holds.
pub proof fn law_effect_views(path: Vec<u8>, args: Vec<String>)
    ensures
        Effect::Canonicalize(path)@ == EffectView::Canonicalize(path@),
        Effect::CheckDirectory(path)@ == EffectView::CheckDirectory(path@),
        Effect::ReadDirectory(path)@ == EffectView::ReadDirectory(path@),
        Effect::CheckFile(path)@ == EffectView::CheckFile(path@),
        Effect::MeasureFile(path)@ == EffectView::MeasureFile(path@),
        Effect::ReadFile(path)@ == EffectView::ReadFile(path@),
        (Effect::Search { args, directory: path })@ == (EffectView::Search {
            args: texts(args@),
            directory: path@,
        }),
{
}

/// What the system replies stands for just what it holds.
pub proof fn law_reply_views(
    path: Vec<u8>,
    check: bool,
    entries: Vec<Option<RawEntry>>,
    size: u64,
    text: String,
    run: ProcessOutput,
)
    ensures
        Reply::Canonical(Some(path))@ == ReplyView::Canonical(Some(path@)),
        Reply::Canonical(None)@ == ReplyView::Canonical(None),
        Reply::Check(check)@ == ReplyView::Check(check),
        Reply::Entries(Ok(entries))@ == ReplyView::Entries(Ok(raw_views(entries@))),
        Reply::Entries(Err(text))@ == ReplyView::Entries(Err(text@)),
        Reply::Size(Ok(size))@ == ReplyView::Size(Ok(size)),
        Reply::Size(Err(text))@ == ReplyView::Size(Err(text@)),
        Reply::Text(Ok(text))@ == ReplyView::Text(Ok(text@)),
        Reply::Text(Err(text))@ == ReplyView::Text(Err(text@)),
        Reply::Run(Ok(run))@ == ReplyView::Run(
            Ok(
                ProcessOutputView {
                    success: run.success,
                    code: run.code,
                    stdout: run.stdout@,
                    stderr: run.stderr@,
                },
            ),
        ),
        Reply::Run(Err(text))@ == ReplyView::Run(Err(text@)),
{
}

/// Where a request stands, and what it is answered with, stands for just what it holds.
pub proof fn law_step_views(
    session: Session,
    effect: Effect,
    error: ToolError,
    list: ListResponse,
    glob: GlobResponse,
    read: ReadResponse,
    grep: GrepResponse,
)
    ensures
        Step::Perform(session, effect)@ == StepView::Perform(session@, effect@),
        Step::Finish(Err(error))@ == StepView::Finish(Err(error@)),
        Step::Finish(Ok(Response::List(list)))@ == StepView::Finish(
            Ok(ResponseView::List(views(list.entries@))),
        ),
        Step::Finish(Ok(Response::Glob(glob)))@ == StepView::Finish(Ok(ResponseView::Glob(glob@))),
        Step::Finish(Ok(Response::Read(read)))@ == StepView::Finish(Ok(ResponseView::Read(read@))),
        Step::Finish(Ok(Response::Grep(grep)))@ == StepView::Finish(Ok(ResponseView::Grep(grep@))),
{
}

} // verus!
