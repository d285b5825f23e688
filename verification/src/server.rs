//! The tools that clients call.

use crate::error::{ToolError, ToolErrorView};
use crate::order::in_order;
use crate::projects::Projects;
use crate::session::{
    approach, start, start_glob, start_grep, EffectView, Goal, GoalView, SessionView, Step,
    StepView,
};
use crate::text::texts;
use crate::types::{
    GlobRequest, GrepRequest, ListRequest, ProjectListResponse, ReadRequest, SearchTextRequest,
};
use vstd::prelude::*;
use vstd::utf8::encode_utf8;

verus! {

/// The server's state: the projects it gives access to.
pub struct Pastaless {
    projects: Projects,
}

impl View for Pastaless {
    type V = Map<Seq<char>, Seq<char>>;

    /// The root directory of the project with each key.
    closed spec fn view(&self) -> Map<Seq<char>, Seq<char>> {
        self.projects@
    }
}

/// The text of a field of a request, or a default where it is missing.
pub open spec fn text_or(field: Option<String>, default: Seq<char>) -> Seq<char> {
    match field {
        Some(s) => s@,
        None => default,
    }
}

/// The root directory that the project with this key names.
pub open spec fn named_root(projects: Map<Seq<char>, Seq<char>>, key: Seq<char>) -> Result<
    Seq<char>,
    ToolErrorView,
> {
    if projects.dom().contains(key) {
        Ok(projects[key])
    } else {
        Err(ToolErrorView::UnknownProject(key))
    }
}

/// The first step towards `goal`, at the path `rel` of the project with this key.
pub open spec fn first_step(
    projects: Map<Seq<char>, Seq<char>>,
    key: Seq<char>,
    rel: Seq<char>,
    goal: GoalView,
) -> StepView {
    match named_root(projects, key) {
        Ok(root) => approach(root, rel, goal),
        Err(e) => StepView::Finish(Err(e)),
    }
}

/// The first step of a search for text.
pub open spec fn grep_step(
    projects: Map<Seq<char>, Seq<char>>,
    key: Seq<char>,
    rel: Seq<char>,
    pattern: Seq<char>,
    case_sensitive: Option<bool>,
    max_results: Option<usize>,
) -> StepView {
    match named_root(projects, key) {
        Ok(root) => StepView::Perform(
            SessionView::GrepRoot { root, rel, pattern, case_sensitive, max_results },
            EffectView::Canonicalize(encode_utf8(root)),
        ),
        Err(e) => StepView::Finish(Err(e)),
    }
}

/// The first step of a search for files.
pub open spec fn glob_step(
    projects: Map<Seq<char>, Seq<char>>,
    key: Seq<char>,
    pattern: Seq<char>,
) -> StepView {
    match named_root(projects, key) {
        Ok(root) => StepView::Perform(
            SessionView::GlobRoot { root, pattern },
            EffectView::Canonicalize(encode_utf8(root)),
        ),
        Err(e) => StepView::Finish(Err(e)),
    }
}

/// The first step of a request for a page of a file.
pub open spec fn read_request_step(
    projects: Map<Seq<char>, Seq<char>>,
    req: ReadRequest,
) -> StepView {
    first_step(
        projects,
        req.project_key@,
        req.path@,
        GoalView::Read { offset: req.offset, limit: req.limit },
    )
}

/// The first step of a request for text: below the root directory where it names no
/// path.
pub open spec fn grep_request_step(
    projects: Map<Seq<char>, Seq<char>>,
    req: GrepRequest,
) -> StepView {
    grep_step(
        projects,
        req.project_key@,
        text_or(req.path, "."@),
        req.pattern@,
        req.case_sensitive,
        req.max_results,
    )
}

impl Pastaless {
    pub fn new(projects: Projects) -> (r: Self)
        ensures
            r@ == projects@,
    {
        Pastaless { projects }
    }

    /// The root directory that the project with this key names.
    pub fn project_root(&self, project_key: &str) -> (r: Result<String, ToolError>)
        ensures
            match r {
                Ok(root) => named_root(self@, project_key@) == Ok::<_, ToolErrorView>(root@),
                Err(e) => named_root(self@, project_key@) == Err::<Seq<char>, _>(e@),
            },
    {
        match self.projects.get(project_key) {
            Some(config) => Ok(config.root.clone()),
            None => Err(ToolError::UnknownProject(project_key.to_owned())),
        }
    }

    /// The first step towards `goal`, at the path `rel` of the project with this key.
    pub(crate) fn resolve_path(&self, project_key: &str, rel: String, goal: Goal) -> (r: Step)
        ensures
            r@ == first_step(self@, project_key@, rel@, goal@),
    {
        match self.project_root(project_key) {
            Ok(root) => start(root, rel, goal),
            Err(e) => Step::Finish(Err(e)),
        }
    }

    /// The keys of all projects, in their order.
    pub fn list_projects(&self) -> (r: ProjectListResponse)
        ensures
            in_order::<String>(texts(r.projects@)),
            texts(r.projects@).no_duplicates(),
            forall|k: Seq<char>| texts(r.projects@).contains(k) <==> self@.dom().contains(k),
    {
        ProjectListResponse { projects: self.projects.sorted_keys() }
    }

    /// Lists a directory of a project: the root directory where no path is given.
    pub fn list(&self, req: ListRequest) -> (r: Step)
        ensures
            r@ == first_step(
                self@,
                req.project_key@,
                text_or(req.path, Seq::empty()),
                GoalView::List,
            ),
    {
        let rel = match req.path {
            Some(path) => path,
            None => String::new(),
        };
        self.resolve_path(req.project_key.as_str(), rel, Goal::List)
    }

    /// Finds files of a project by a glob pattern.
    pub fn glob(&self, req: GlobRequest) -> (r: Step)
        ensures
            r@ == glob_step(self@, req.project_key@, req.pattern@),
    {
        match self.project_root(req.project_key.as_str()) {
            Ok(root) => start_glob(root, req.pattern),
            Err(e) => Step::Finish(Err(e)),
        }
    }

    /// Reads a page of a file of a project.
    pub fn read(&self, req: ReadRequest) -> (r: Step)
        ensures
            r@ == read_request_step(self@, req),
    {
        self.resolve_path(
            req.project_key.as_str(),
            req.path,
            Goal::Read { offset: req.offset, limit: req.limit },
        )
    }

    /// Another name for `read`.
    pub fn read_file(&self, req: ReadRequest) -> (r: Step)
        ensures
            r@ == read_request_step(self@, req),
    {
        self.read(req)
    }

    fn grep_impl(&self, req: GrepRequest) -> (r: Step)
        ensures
            r@ == grep_request_step(self@, req),
    {
        match self.project_root(req.project_key.as_str()) {
            Ok(root) => {
                let rel = match req.path {
                    Some(path) => path,
                    None => ".".to_owned(),
                };
                start_grep(root, rel, req.pattern, req.case_sensitive, req.max_results)
            },
            Err(e) => Step::Finish(Err(e)),
        }
    }

    /// Searches a project for text, below a path where one is given.
    pub fn grep(&self, req: GrepRequest) -> (r: Step)
        ensures
            r@ == grep_request_step(self@, req),
    {
        self.grep_impl(req)
    }

    /// Searches a whole project for text, whatever the case of its letters: `grep`
    /// without any of what it may be told.
    pub fn search_text(&self, req: SearchTextRequest) -> (r: Step)
        ensures
            r@ == grep_request_step(
                self@,
                (GrepRequest {
                    project_key: req.project_key,
                    pattern: req.query,
                    path: None,
                    case_sensitive: None,
                    max_results: None,
                }),
            ),
    {
        self.grep_impl(
            GrepRequest {
                project_key: req.project_key,
                pattern: req.query,
                path: None,
                case_sensitive: None,
                max_results: None,
            },
        )
    }
}

/// Each project is known by its key, whatever the key is, and any other key is an error
/// that names it.
pub proof fn law_named_root(projects: Map<Seq<char>, Seq<char>>, key: Seq<char>, root: Seq<char>)
    ensures
        named_root(projects.insert(key, root), key) == Ok::<Seq<char>, ToolErrorView>(root),
        named_root(projects.remove(key), key) == Err::<Seq<char>, ToolErrorView>(
            ToolErrorView::UnknownProject(key),
        ),
        forall|other: Seq<char>|
            other != key ==> #[trigger] named_root(projects.insert(key, root), other) == named_root(
                projects,
                other,
            ),
{
}

/// A request for a page is for the file, the first line and the number of lines that it
/// names.
pub proof fn law_read_request(projects: Map<Seq<char>, Seq<char>>, req: ReadRequest)
    ensures
        read_request_step(projects, req) == first_step(
            projects,
            req.project_key@,
            req.path@,
            GoalView::Read { offset: req.offset, limit: req.limit },
        ),
{
}

/// A request for text is for the pattern that it names, below the path that it names, and
/// below the root directory where it names none.
pub proof fn law_grep_request(projects: Map<Seq<char>, Seq<char>>, req: GrepRequest)
    ensures
        grep_request_step(projects, req) == grep_step(
            projects,
            req.project_key@,
            match req.path {
                Some(path) => path@,
                None => "."@,
            },
            req.pattern@,
            req.case_sensitive,
            req.max_results,
        ),
{
}

/// A field that a request has counts as it is, and the default only where it has none.
pub proof fn law_text_or(field: String, default: Seq<char>)
    ensures
        text_or(Some(field), default) == field@,
        text_or(None, default) == default,
{
}

} // verus!
