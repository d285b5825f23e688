//! What holds of whole requests.

use crate::access::{candidate, reached};
use crate::encoding::lossy;
use crate::error::ToolErrorView;
use crate::listing::{listing, RawEntryView};
use crate::path::{joined, within, SLASH};
use crate::path_laws::{all_named, law_join_then_below};
use crate::read::page;
use crate::search::{
    dashed, glob_arguments, glob_outcome, grep_arguments, grep_outcome, is_operand, is_option,
    is_value_of, law_grep_arguments_are_no_options, law_undashed, result_limit, ProcessOutputView,
};
use crate::server::{first_step, glob_step, grep_step, named_root};
use crate::session::{
    accepts, next, search_scope, EffectView, GoalView, ReplyView, ResponseView, SessionView,
    StepView,
};
use crate::text::{forward_slashes, lemma_split_pieces, split};
use vstd::prelude::*;
use vstd::utf8::encode_utf8;

verus! {

/// A system whose replies do not change while a request is under way.
pub struct World {
    pub canonical: spec_fn(Seq<u8>) -> Option<Seq<u8>>,
    pub is_directory: spec_fn(Seq<u8>) -> bool,
    pub entries: spec_fn(Seq<u8>) -> Result<Seq<Option<RawEntryView>>, Seq<char>>,
    pub is_file: spec_fn(Seq<u8>) -> bool,
    pub size: spec_fn(Seq<u8>) -> Result<u64, Seq<char>>,
    pub text: spec_fn(Seq<u8>) -> Result<Seq<char>, Seq<char>>,
    pub search: spec_fn(Seq<Seq<char>>, Seq<u8>) -> Result<ProcessOutputView, Seq<char>>,
}

/// What the system replies.
pub open spec fn reply_of(world: World, effect: EffectView) -> ReplyView {
    match effect {
        EffectView::Canonicalize(p) => ReplyView::Canonical((world.canonical)(p)),
        EffectView::CheckDirectory(p) => ReplyView::Check((world.is_directory)(p)),
        EffectView::ReadDirectory(p) => ReplyView::Entries((world.entries)(p)),
        EffectView::CheckFile(p) => ReplyView::Check((world.is_file)(p)),
        EffectView::MeasureFile(p) => ReplyView::Size((world.size)(p)),
        EffectView::ReadFile(p) => ReplyView::Text((world.text)(p)),
        EffectView::Search { args, directory } => ReplyView::Run((world.search)(args, directory)),
    }
}

/// What a request comes to after `replies` replies at most, if it is done then.
pub open spec fn outcome(world: World, step: StepView, replies: nat) -> Option<
    Result<ResponseView, ToolErrorView>,
>
    decreases replies,
{
    match step {
        StepView::Finish(r) => Some(r),
        StepView::Perform(session, effect) => if replies == 0 {
            None
        } else {
            outcome(world, next(session, reply_of(world, effect)), (replies - 1) as nat)
        },
    }
}

/// The canonical root directory of a project.
pub open spec fn root_directory(
    world: World,
    projects: Map<Seq<char>, Seq<char>>,
    key: Seq<char>,
) -> Result<Seq<u8>, ToolErrorView> {
    match named_root(projects, key) {
        Ok(root) => match (world.canonical)(encode_utf8(root)) {
            Some(directory) => Ok(directory),
            None => Err(ToolErrorView::RootUnavailable(root)),
        },
        Err(e) => Err(e),
    }
}

/// The path that a request for `rel` in a project reaches.
pub open spec fn resolved(
    world: World,
    projects: Map<Seq<char>, Seq<char>>,
    key: Seq<char>,
    rel: Seq<char>,
) -> Result<Seq<u8>, ToolErrorView> {
    match root_directory(world, projects, key) {
        Ok(directory) => match candidate(directory, rel) {
            Ok(path) => reached(directory, rel, (world.canonical)(path)),
            Err(e) => Err(e),
        },
        Err(e) => Err(e),
    }
}

/// What a request for a listing is answered.
pub open spec fn list_outcome(
    world: World,
    projects: Map<Seq<char>, Seq<char>>,
    key: Seq<char>,
    rel: Seq<char>,
) -> Result<ResponseView, ToolErrorView> {
    match resolved(world, projects, key, rel) {
        Ok(path) => if !(world.is_directory)(path) {
            Err(ToolErrorView::NotADirectory)
        } else {
            match (world.entries)(path) {
                Ok(entries) => Ok(ResponseView::List(listing(path, entries))),
                Err(e) => Err(ToolErrorView::UnreadableDirectory(e)),
            }
        },
        Err(e) => Err(e),
    }
}

/// What a request for a page of a file is answered.
pub open spec fn read_outcome(
    world: World,
    projects: Map<Seq<char>, Seq<char>>,
    key: Seq<char>,
    rel: Seq<char>,
    offset: Option<usize>,
    limit: Option<usize>,
) -> Result<ResponseView, ToolErrorView> {
    match resolved(world, projects, key, rel) {
        Ok(path) => if !(world.is_file)(path) {
            Err(ToolErrorView::NotAFile)
        } else {
            match (world.size)(path) {
                Ok(size) => if size > 1_048_576 {
                    Err(ToolErrorView::FileTooLarge)
                } else {
                    match (world.text)(path) {
                        Ok(text) => Ok(ResponseView::Read(page(rel, text, offset, limit))),
                        Err(e) => Err(ToolErrorView::UnreadableFile(e)),
                    }
                },
                Err(e) => Err(ToolErrorView::UnknownFile(e)),
            }
        },
        Err(e) => Err(e),
    }
}

/// What a request for text is answered.
pub open spec fn search_outcome(
    world: World,
    projects: Map<Seq<char>, Seq<char>>,
    key: Seq<char>,
    rel: Seq<char>,
    pattern: Seq<char>,
    case_sensitive: Option<bool>,
    max_results: Option<usize>,
) -> Result<ResponseView, ToolErrorView> {
    match resolved(world, projects, key, rel) {
        Ok(path) => {
            let directory = root_directory(world, projects, key)->Ok_0;
            let args = grep_arguments(pattern, search_scope(path, directory), case_sensitive);
            match grep_outcome((world.search)(args, directory), result_limit(max_results)) {
                Ok(response) => Ok(ResponseView::Grep(response)),
                Err(e) => Err(e),
            }
        },
        Err(e) => Err(e),
    }
}

/// What a request for files is answered.
pub open spec fn find_outcome(
    world: World,
    projects: Map<Seq<char>, Seq<char>>,
    key: Seq<char>,
    pattern: Seq<char>,
) -> Result<ResponseView, ToolErrorView> {
    match root_directory(world, projects, key) {
        Ok(directory) => match glob_outcome((world.search)(glob_arguments(pattern), directory)) {
            Ok(response) => Ok(ResponseView::Glob(response)),
            Err(e) => Err(e),
        },
        Err(e) => Err(e),
    }
}

/// A request for a listing is done after four replies, and its answer is the listing
/// of the directory that it reaches, or the first reason against it.
pub proof fn law_list(
    world: World,
    projects: Map<Seq<char>, Seq<char>>,
    key: Seq<char>,
    rel: Seq<char>,
)
    ensures
        outcome(world, first_step(projects, key, rel, GoalView::List), 4) == Some(
            list_outcome(world, projects, key, rel),
        ),
{
    reveal_with_fuel(outcome, 5);
}

/// A request for a page of a file is done after five replies, and its answer is the
/// page, or the first reason against it.
pub proof fn law_read(
    world: World,
    projects: Map<Seq<char>, Seq<char>>,
    key: Seq<char>,
    rel: Seq<char>,
    offset: Option<usize>,
    limit: Option<usize>,
)
    ensures
        outcome(world, first_step(projects, key, rel, GoalView::Read { offset, limit }), 5) == Some(
            read_outcome(world, projects, key, rel, offset, limit),
        ),
{
    reveal_with_fuel(outcome, 6);
}

/// A request for text is done after four replies, and its answer is what the search
/// program finds below the path that the request reaches, or the first reason against
/// it.
pub proof fn law_grep(
    world: World,
    projects: Map<Seq<char>, Seq<char>>,
    key: Seq<char>,
    rel: Seq<char>,
    pattern: Seq<char>,
    case_sensitive: Option<bool>,
    max_results: Option<usize>,
)
    ensures
        outcome(
            world,
            grep_step(projects, key, rel, pattern, case_sensitive, max_results),
            4,
        ) == Some(
            search_outcome(world, projects, key, rel, pattern, case_sensitive, max_results),
        ),
{
    reveal_with_fuel(outcome, 5);
}

/// A request for files is done after two replies, and its answer is what the search
/// program finds below the root directory, or the first reason against it.
pub proof fn law_glob(
    world: World,
    projects: Map<Seq<char>, Seq<char>>,
    key: Seq<char>,
    pattern: Seq<char>,
)
    ensures
        outcome(world, glob_step(projects, key, pattern), 2) == Some(
            find_outcome(world, projects, key, pattern),
        ),
{
    reveal_with_fuel(outcome, 3);
}

/// What a request for a listing is answered: the listing of the directory that the path
/// asked for stands for, or why there is none. An unknown key counts first, then the
/// root directory, the path, where it leads, and what is there.
pub proof fn law_what_list_answers(
    world: World,
    projects: Map<Seq<char>, Seq<char>>,
    key: Seq<char>,
    rel: Seq<char>,
)
    ensures
        ({
            let answer = outcome(world, first_step(projects, key, rel, GoalView::List), 4);
            &&& !projects.dom().contains(key) ==> answer == Some(
                Err::<ResponseView, ToolErrorView>(ToolErrorView::UnknownProject(key)),
            )
            &&& projects.dom().contains(key) ==> match (world.canonical)(
                encode_utf8(projects[key]),
            ) {
                None => answer == Some(
                    Err::<ResponseView, ToolErrorView>(
                        ToolErrorView::RootUnavailable(projects[key]),
                    ),
                ),
                Some(directory) => match candidate(directory, rel) {
                    Err(e) => answer == Some(Err::<ResponseView, ToolErrorView>(e)),
                    Ok(path) => match (world.canonical)(path) {
                        None => answer == Some(
                            Err::<ResponseView, ToolErrorView>(ToolErrorView::PathUnavailable(rel)),
                        ),
                        Some(target) => {
                            &&& !within(target, directory) ==> answer == Some(
                                Err::<ResponseView, ToolErrorView>(ToolErrorView::OutsideRoot),
                            )
                            &&& within(target, directory) ==> if !(world.is_directory)(target) {
                                answer == Some(Err::<ResponseView, ToolErrorView>(ToolErrorView::NotADirectory))
                            } else {
                                match (world.entries)(target) {
                                    Ok(entries) => answer == Some(
                                        Ok::<ResponseView, ToolErrorView>(
                                            ResponseView::List(listing(target, entries)),
                                        ),
                                    ),
                                    Err(e) => answer == Some(
                                        Err::<ResponseView, ToolErrorView>(
                                            ToolErrorView::UnreadableDirectory(e),
                                        ),
                                    ),
                                }
                            }
                        },
                    },
                },
            }
        }),
{
    law_list(world, projects, key, rel);
}

/// What a request for a page is answered: the page of the file that the path asked for
/// stands for, or why there is none. A file of more than 1048576 bytes is not read.
pub proof fn law_what_read_answers(
    world: World,
    projects: Map<Seq<char>, Seq<char>>,
    key: Seq<char>,
    rel: Seq<char>,
    offset: Option<usize>,
    limit: Option<usize>,
)
    ensures
        ({
            let answer = outcome(
                world,
                first_step(projects, key, rel, GoalView::Read { offset, limit }),
                5,
            );
            &&& !projects.dom().contains(key) ==> answer == Some(
                Err::<ResponseView, ToolErrorView>(ToolErrorView::UnknownProject(key)),
            )
            &&& projects.dom().contains(key) ==> match (world.canonical)(
                encode_utf8(projects[key]),
            ) {
                None => answer == Some(
                    Err::<ResponseView, ToolErrorView>(
                        ToolErrorView::RootUnavailable(projects[key]),
                    ),
                ),
                Some(directory) => match candidate(directory, rel) {
                    Err(e) => answer == Some(Err::<ResponseView, ToolErrorView>(e)),
                    Ok(path) => match (world.canonical)(path) {
                        None => answer == Some(
                            Err::<ResponseView, ToolErrorView>(ToolErrorView::PathUnavailable(rel)),
                        ),
                        Some(target) => {
                            &&& !within(target, directory) ==> answer == Some(
                                Err::<ResponseView, ToolErrorView>(ToolErrorView::OutsideRoot),
                            )
                            &&& within(target, directory) ==> if !(world.is_file)(target) {
                                answer == Some(Err::<ResponseView, ToolErrorView>(ToolErrorView::NotAFile))
                            } else {
                                match (world.size)(target) {
                                    Err(e) => answer == Some(
                                        Err::<ResponseView, ToolErrorView>(
                                            ToolErrorView::UnknownFile(e),
                                        ),
                                    ),
                                    Ok(size) => if size > 1_048_576 {
                                        answer == Some(Err::<ResponseView, ToolErrorView>(ToolErrorView::FileTooLarge))
                                    } else {
                                        match (world.text)(target) {
                                            Err(e) => answer == Some(
                                                Err::<ResponseView, ToolErrorView>(
                                                    ToolErrorView::UnreadableFile(e),
                                                ),
                                            ),
                                            Ok(text) => answer == Some(
                                                Ok::<ResponseView, ToolErrorView>(
                                                    ResponseView::Read(
                                                        page(rel, text, offset, limit),
                                                    ),
                                                ),
                                            ),
                                        }
                                    },
                                }
                            }
                        },
                    },
                },
            }
        }),
{
    law_read(world, projects, key, rel, offset, limit);
}

/// What a request for text is answered: what the search program, run in the root
/// directory on the path asked for, comes to; or why it is not run.
pub proof fn law_what_grep_answers(
    world: World,
    projects: Map<Seq<char>, Seq<char>>,
    key: Seq<char>,
    rel: Seq<char>,
    pattern: Seq<char>,
    case_sensitive: Option<bool>,
    max_results: Option<usize>,
)
    ensures
        ({
            let answer = outcome(
                world,
                grep_step(projects, key, rel, pattern, case_sensitive, max_results),
                4,
            );
            &&& !projects.dom().contains(key) ==> answer == Some(
                Err::<ResponseView, ToolErrorView>(ToolErrorView::UnknownProject(key)),
            )
            &&& projects.dom().contains(key) ==> match (world.canonical)(
                encode_utf8(projects[key]),
            ) {
                None => answer == Some(
                    Err::<ResponseView, ToolErrorView>(
                        ToolErrorView::RootUnavailable(projects[key]),
                    ),
                ),
                Some(directory) => match candidate(directory, rel) {
                    Err(e) => answer == Some(Err::<ResponseView, ToolErrorView>(e)),
                    Ok(path) => match (world.canonical)(path) {
                        None => answer == Some(
                            Err::<ResponseView, ToolErrorView>(ToolErrorView::PathUnavailable(rel)),
                        ),
                        Some(target) => {
                            &&& !within(target, directory) ==> answer == Some(
                                Err::<ResponseView, ToolErrorView>(ToolErrorView::OutsideRoot),
                            )
                            &&& within(target, directory) ==> {
                                let args = grep_arguments(
                                    pattern,
                                    search_scope(target, directory),
                                    case_sensitive,
                                );
                                match grep_outcome(
                                    (world.search)(args, directory),
                                    result_limit(max_results),
                                ) {
                                    Ok(response) => answer == Some(
                                        Ok::<ResponseView, ToolErrorView>(
                                            ResponseView::Grep(response),
                                        ),
                                    ),
                                    Err(e) => answer == Some(
                                        Err::<ResponseView, ToolErrorView>(e),
                                    ),
                                }
                            }
                        },
                    },
                },
            }
        }),
{
    law_grep(world, projects, key, rel, pattern, case_sensitive, max_results);
}

/// What a request for files is answered: what the search program, run in the root
/// directory, comes to; or why it is not run.
pub proof fn law_what_glob_answers(
    world: World,
    projects: Map<Seq<char>, Seq<char>>,
    key: Seq<char>,
    pattern: Seq<char>,
)
    ensures
        ({
            let answer = outcome(world, glob_step(projects, key, pattern), 2);
            &&& !projects.dom().contains(key) ==> answer == Some(
                Err::<ResponseView, ToolErrorView>(ToolErrorView::UnknownProject(key)),
            )
            &&& projects.dom().contains(key) ==> match (world.canonical)(
                encode_utf8(projects[key]),
            ) {
                None => answer == Some(
                    Err::<ResponseView, ToolErrorView>(
                        ToolErrorView::RootUnavailable(projects[key]),
                    ),
                ),
                Some(directory) => match glob_outcome(
                    (world.search)(glob_arguments(pattern), directory),
                ) {
                    Ok(response) => answer == Some(
                        Ok::<ResponseView, ToolErrorView>(ResponseView::Glob(response)),
                    ),
                    Err(e) => answer == Some(Err::<ResponseView, ToolErrorView>(e)),
                },
            }
        }),
{
    law_glob(world, projects, key, pattern);
}

/// Where a request stands after replies that may be any: those that it does not accept
/// leave it where it is.
pub open spec fn after(step: StepView, replies: Seq<ReplyView>) -> StepView
    decreases replies.len(),
{
    match step {
        StepView::Finish(_) => step,
        StepView::Perform(session, _) => if replies.len() == 0 || !accepts(session, replies[0]) {
            step
        } else {
            after(next(session, replies[0]), replies.skip(1))
        },
    }
}

/// The path of the file or directory that is looked at.
pub open spec fn looked_at(effect: EffectView) -> Option<Seq<u8>> {
    match effect {
        EffectView::CheckDirectory(p) => Some(p),
        EffectView::ReadDirectory(p) => Some(p),
        EffectView::CheckFile(p) => Some(p),
        EffectView::MeasureFile(p) => Some(p),
        EffectView::ReadFile(p) => Some(p),
        _ => None,
    }
}

/// The request may look at `path`: it is what the system gave as the canonical form of
/// a path that the request may mean, and lies within what the system gave as the
/// canonical root directory.
pub open spec fn may_look_at(path: Seq<u8>, rel: Seq<char>, replies: Seq<ReplyView>) -> bool {
    &&& replies.len() >= 2
    &&& replies[0] matches ReplyView::Canonical(Some(directory))
    &&& replies[1] == ReplyView::Canonical(Some(path))
    &&& within(path, directory)
    &&& candidate(directory, rel) is Ok
}

/// Every step that is still to do looks at `path`.
spec fn keeps_to(step: StepView, path: Seq<u8>) -> bool {
    step matches StepView::Perform(_, effect) ==> looked_at(effect) == Some(path)
}

/// A request that has reached `path` looks at nothing else.
proof fn lemma_keeps_to(session: SessionView, effect: EffectView, path: Seq<u8>, replies: Seq<ReplyView>)
    requires
        looked_at(effect) == Some(path),
        match session {
            SessionView::ListCheck { path: p } => p == path,
            SessionView::ListEntries { path: p } => p == path,
            SessionView::ReadCheck { path: p, .. } => p == path,
            SessionView::ReadSize { path: p, .. } => p == path,
            SessionView::ReadText { .. } => true,
            _ => false,
        },
    ensures
        keeps_to(after(StepView::Perform(session, effect), replies), path),
    decreases replies.len(),
{
    if replies.len() > 0 && accepts(session, replies[0]) {
        let step = next(session, replies[0]);
        let rest = replies.skip(1);
        assert(after(StepView::Perform(session, effect), replies) == after(step, rest));
        match step {
            StepView::Perform(s, e) => {
                lemma_keeps_to(s, e, path, rest);
            },
            StepView::Finish(_) => {
                assert(after(step, rest) == step);
            },
        }
    }
}

/// Whatever the system replies, a request that a tool begins for a listing or for a page
/// of a file looks at no file or directory but one that it may look at.
pub proof fn law_requests_stay_in_the_project(
    projects: Map<Seq<char>, Seq<char>>,
    key: Seq<char>,
    rel: Seq<char>,
    goal: GoalView,
    replies: Seq<ReplyView>,
)
    requires
        goal is List || goal is Read,
    ensures
        after(first_step(projects, key, rel, goal), replies) matches StepView::Perform(_, effect)
            ==> match looked_at(effect) {
            Some(path) => may_look_at(path, rel, replies),
            None => effect is Canonicalize,
        },
{
    let step0 = first_step(projects, key, rel, goal);
    if step0 is Perform && replies.len() > 0 && accepts(step0->Perform_0, replies[0]) {
        let step1 = next(step0->Perform_0, replies[0]);
        let rest1 = replies.skip(1);
        assert(after(step0, replies) == after(step1, rest1));
        if step1 is Perform && rest1.len() > 0 && accepts(step1->Perform_0, rest1[0]) {
            let step2 = next(step1->Perform_0, rest1[0]);
            let rest2 = rest1.skip(1);
            assert(after(step1, rest1) == after(step2, rest2));
            assert(rest1[0] == replies[1]);
            if step2 is Perform {
                let path = looked_at(step2->Perform_1)->Some_0;
                lemma_keeps_to(step2->Perform_0, step2->Perform_1, path, rest2);
                assert(may_look_at(path, rel, replies));
            }
        }
    }
}

/// A search is run in what the system gave as the canonical root directory.
pub open spec fn may_search(directory: Seq<u8>, replies: Seq<ReplyView>) -> bool {
    replies.len() >= 1 && replies[0] == ReplyView::Canonical(Some(directory))
}

/// Whatever the system replies, a request for text that a tool begins runs the search
/// program once at most: in the canonical root directory, with the name below it of a
/// path that lies within it.
pub proof fn law_grep_stays_in_the_project(
    projects: Map<Seq<char>, Seq<char>>,
    key: Seq<char>,
    rel: Seq<char>,
    pattern: Seq<char>,
    case_sensitive: Option<bool>,
    max_results: Option<usize>,
    replies: Seq<ReplyView>,
)
    ensures
        after(
            grep_step(projects, key, rel, pattern, case_sensitive, max_results),
            replies,
        ) matches StepView::Perform(_, effect) ==> match effect {
            EffectView::Canonicalize(_) => true,
            EffectView::Search { args, directory } => {
                &&& may_search(directory, replies)
                &&& replies.len() >= 3
                &&& replies[2] matches ReplyView::Canonical(Some(path))
                &&& may_look_at(path, rel, replies.skip(1))
                &&& within(path, directory)
                &&& args == grep_arguments(pattern, search_scope(path, directory), case_sensitive)
            },
            _ => false,
        },
{
    let step0 = grep_step(projects, key, rel, pattern, case_sensitive, max_results);
    if step0 is Perform && replies.len() > 0 && accepts(step0->Perform_0, replies[0]) {
        let step1 = next(step0->Perform_0, replies[0]);
        let rest1 = replies.skip(1);
        assert(after(step0, replies) == after(step1, rest1));
        if step1 is Perform && rest1.len() > 0 && accepts(step1->Perform_0, rest1[0]) {
            let step2 = next(step1->Perform_0, rest1[0]);
            let rest2 = rest1.skip(1);
            assert(after(step1, rest1) == after(step2, rest2));
            if step2 is Perform && rest2.len() > 0 && accepts(step2->Perform_0, rest2[0]) {
                let step3 = next(step2->Perform_0, rest2[0]);
                let rest3 = rest2.skip(1);
                assert(after(step2, rest2) == after(step3, rest3));
                assert(rest2[0] == replies[2]);
                assert(rest2[0] == rest1[1]);
                if step3 is Perform && rest3.len() > 0 && accepts(step3->Perform_0, rest3[0]) {
                    assert(after(step3, rest3) == after(
                        next(step3->Perform_0, rest3[0]),
                        rest3.skip(1),
                    ));
                }
            }
        }
    }
}

/// Whatever the system replies, a request for files that a tool begins runs the search
/// program once at most, in the canonical root directory.
pub proof fn law_glob_stays_in_the_project(
    projects: Map<Seq<char>, Seq<char>>,
    key: Seq<char>,
    pattern: Seq<char>,
    replies: Seq<ReplyView>,
)
    ensures
        after(glob_step(projects, key, pattern), replies) matches StepView::Perform(_, effect)
            ==> match effect {
            EffectView::Canonicalize(_) => true,
            EffectView::Search { args, directory } => may_search(directory, replies) && args
                == glob_arguments(pattern),
            _ => false,
        },
{
    let step0 = glob_step(projects, key, pattern);
    if step0 is Perform && replies.len() > 0 && accepts(step0->Perform_0, replies[0]) {
        let step1 = next(step0->Perform_0, replies[0]);
        let rest1 = replies.skip(1);
        assert(after(step0, replies) == after(step1, rest1));
        if step1 is Perform && rest1.len() > 0 && accepts(step1->Perform_0, rest1[0]) {
            assert(after(step1, rest1) == after(next(step1->Perform_0, rest1[0]), rest1.skip(1)));
        }
    }
}

/// Whatever pattern and path a client chooses, a search for text takes neither for an
/// option: the path that is searched is an operand, and the pattern is one too, or the
/// value of the option for patterns.
pub proof fn law_clients_choose_no_options(
    pattern: Seq<char>,
    path: Seq<u8>,
    directory: Seq<u8>,
    case_sensitive: Option<bool>,
)
    ensures
        ({
            let scope = search_scope(path, directory);
            let args = grep_arguments(pattern, scope, case_sensitive);
            let at = args.len() - 3;
            &&& args[at] == pattern
            &&& args[at + 1] == scope
            &&& !is_option(args, at)
            &&& !is_option(args, at + 1)
            &&& is_operand(args, at + 1)
            &&& if dashed(pattern) {
                is_value_of(args, at, "-e"@)
            } else {
                is_operand(args, at)
            }
        }),
{
    let scope = search_scope(path, directory);
    reveal_strlit(".");
    reveal_strlit("./");
    law_grep_arguments_are_no_options(pattern, scope, case_sensitive);
}

/// The reply is of the kind that answers the effect.
pub open spec fn answers(effect: EffectView, reply: ReplyView) -> bool {
    match effect {
        EffectView::Canonicalize(_) => reply is Canonical,
        EffectView::CheckDirectory(_) => reply is Check,
        EffectView::ReadDirectory(_) => reply is Entries,
        EffectView::CheckFile(_) => reply is Check,
        EffectView::MeasureFile(_) => reply is Size,
        EffectView::ReadFile(_) => reply is Text,
        EffectView::Search { .. } => reply is Run,
    }
}

/// The session waits for a reply that answers the effect, and for no other.
pub open spec fn agree(session: SessionView, effect: EffectView) -> bool {
    forall|reply: ReplyView|
        #[trigger] answers(effect, reply) <==> accepts(session, reply)
}

pub open spec fn agreeing(step: StepView) -> bool {
    step matches StepView::Perform(session, effect) ==> agree(session, effect)
}

/// A request accepts the answers to what it asks for and nothing else, from its first
/// step on.
pub proof fn law_answers_are_accepted(
    projects: Map<Seq<char>, Seq<char>>,
    key: Seq<char>,
    rel: Seq<char>,
    goal: GoalView,
    pattern: Seq<char>,
    case_sensitive: Option<bool>,
    max_results: Option<usize>,
    session: SessionView,
    reply: ReplyView,
)
    ensures
        agreeing(first_step(projects, key, rel, goal)),
        agreeing(grep_step(projects, key, rel, pattern, case_sensitive, max_results)),
        agreeing(glob_step(projects, key, pattern)),
        accepts(session, reply) ==> agreeing(next(session, reply)),
{
}

/// A search for text below a relative path, seen from the root directory, names that
/// path as it is: as text, with slashes for backslashes, and with `./` in front where it
/// would start with a dash. The root directory is named by a dot.
pub proof fn law_search_scope(directory: Seq<u8>, rel: Seq<u8>)
    requires
        directory.len() > 0,
        all_named(split(rel, 47)),
    ensures
        ({
            let name = forward_slashes(lossy(rel));
            &&& search_scope(joined(directory, rel), directory) == if name.len() > 0 && name[0]
                == '-' {
                seq!['.', '/'] + name
            } else {
                name
            }
            &&& search_scope(directory, directory) == seq!['.']
        }),
{
    law_join_then_below(directory, rel);
    law_undashed(forward_slashes(lossy(rel)));
    reveal_strlit(".");
    assert("."@ =~= seq!['.']);
    assert(rel.len() > 0) by {
        lemma_split_pieces(rel, SLASH);
        assert(split(rel, 47)[0].len() > 0);
        if rel.len() == 0 {
            assert(split(rel, 47)[0] == rel);
        }
    }
}

} // verus!
