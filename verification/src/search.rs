//! Searches: what the search program is asked, and what is made of its output.

use crate::encoding::{decode_lossy, lossy};
use crate::error::{ToolError, ToolErrorView};
use crate::order::{in_order, law_sorted, sort, sorted, views, Ordered};
use crate::path::denied;
use crate::read::{shortened, too_long};
use crate::server::Pastaless;
use crate::text::{
    chars_of, find, find_from, forward_slashes, lemma_find, lines, number, parse_number, string_of,
    text_le, text_lines, texts,
};
use crate::types::{
    GlobResponse, GlobResponseView, GrepMatch, GrepMatchView, GrepResponse, GrepResponseView,
};
use vstd::prelude::*;
use vstd::utf8::{encode_utf8, encode_utf8_decode_utf8, encode_utf8_valid_utf8};

verus! {

pub const DEFAULT_GREP_RESULTS: usize = 100;

pub const MAX_GREP_RESULTS: usize = 300;

pub const MAX_GLOB_RESULTS: usize = 1000;

/// How a run of the search program ended.
#[derive(Debug)]
pub struct ProcessOutput {
    pub success: bool,
    /// The exit code, unless a signal ended the run.
    pub code: Option<i32>,
    pub stdout: Vec<u8>,
    pub stderr: Vec<u8>,
}

pub struct ProcessOutputView {
    pub success: bool,
    pub code: Option<i32>,
    pub stdout: Seq<u8>,
    pub stderr: Seq<u8>,
}

impl View for ProcessOutput {
    type V = ProcessOutputView;

    open spec fn view(&self) -> ProcessOutputView {
        ProcessOutputView {
            success: self.success,
            code: self.code,
            stdout: self.stdout@,
            stderr: self.stderr@,
        }
    }
}

/// What a run of the search program, or the failure to run it, stands for.
pub open spec fn run_view(run: Result<ProcessOutput, String>) -> Result<
    ProcessOutputView,
    Seq<char>,
> {
    match run {
        Ok(out) => Ok(out@),
        Err(e) => Err(e@),
    }
}

pub open spec fn grep_result_view(r: Result<GrepResponse, ToolError>) -> Result<
    GrepResponseView,
    ToolErrorView,
> {
    match r {
        Ok(response) => Ok(response@),
        Err(e) => Err(e@),
    }
}

pub open spec fn glob_result_view(r: Result<GlobResponse, ToolError>) -> Result<
    GlobResponseView,
    ToolErrorView,
> {
    match r {
        Ok(response) => Ok(response@),
        Err(e) => Err(e@),
    }
}

/// How many matches a request is answered with at most.
pub open spec fn result_limit(max_results: Option<usize>) -> nat {
    match max_results {
        Some(n) => if n < 1 {
            1
        } else if n > MAX_GREP_RESULTS {
            MAX_GREP_RESULTS as nat
        } else {
            n as nat
        },
        None => DEFAULT_GREP_RESULTS as nat,
    }
}

/// The three fields of a line of output: what stands before the first colon, between
/// it and the second, and after the second.
pub open spec fn fields(line: Seq<char>) -> Option<(Seq<char>, Seq<char>, Seq<char>)> {
    let i = find(line, ':');
    let rest = line.skip(i + 1);
    let j = find(rest, ':');
    if i < line.len() && j < rest.len() {
        Some((line.take(i), rest.take(j), rest.skip(j + 1)))
    } else {
        None
    }
}

/// The match that a line of output reports, and whether its text is too long to be
/// shown in full. A line without the three fields reports none, nor does one without
/// a line number or with a denied path.
pub open spec fn reported_match(line: Seq<char>) -> Option<(GrepMatchView, bool)> {
    match fields(line) {
        Some((path, line_number, text)) => match number(line_number) {
            Some(n) => if denied(encode_utf8(path)) {
                None
            } else {
                Some(
                    (
                        GrepMatchView {
                            path: forward_slashes(path),
                            line: n,
                            text: shortened(text),
                        },
                        too_long(text),
                    ),
                )
            },
            None => None,
        },
        None => None,
    }
}

/// The matches that lines of output report, in their order.
pub open spec fn reported_matches(output: Seq<Seq<char>>) -> Seq<(GrepMatchView, bool)>
    decreases output.len(),
{
    if output.len() == 0 {
        seq![]
    } else {
        match reported_match(output.last()) {
            Some(m) => reported_matches(output.drop_last()).push(m),
            None => reported_matches(output.drop_last()),
        }
    }
}

/// The first `n` values, or all where there are fewer.
pub open spec fn at_most<T>(s: Seq<T>, n: nat) -> Seq<T> {
    if s.len() > n {
        s.take(n as int)
    } else {
        s
    }
}

/// The answer to a search for text, from what the search program printed. It is marked
/// as truncated where it holds as many matches as it may, or a text that is too long.
pub open spec fn grep_answer(output: Seq<char>, limit: nat) -> GrepResponseView {
    let reported = reported_matches(lines(output));
    let kept = at_most(reported, limit);
    GrepResponseView {
        matches: kept.map_values(|m: (GrepMatchView, bool)| m.0),
        truncated: reported.len() >= limit || exists|i: int|
            0 <= i < kept.len() && (#[trigger] kept[i]).1,
    }
}

/// The paths that lines of output name, in their order, without the denied ones.
pub open spec fn reported_paths(output: Seq<Seq<char>>) -> Seq<Seq<char>>
    decreases output.len(),
{
    if output.len() == 0 {
        seq![]
    } else if denied(encode_utf8(output.last())) {
        reported_paths(output.drop_last())
    } else {
        reported_paths(output.drop_last()).push(forward_slashes(output.last()))
    }
}

/// The answer to a search for files, from what the search program printed. It is
/// marked as truncated where it holds as many paths as it may.
pub open spec fn glob_answer(output: Seq<char>) -> GlobResponseView {
    let reported = reported_paths(lines(output));
    GlobResponseView {
        paths: sorted::<String>(at_most(reported, MAX_GLOB_RESULTS as nat)),
        truncated: reported.len() >= MAX_GLOB_RESULTS,
    }
}

/// The answer to a search for text, from how the run of the search program ended. The
/// exit code 1 says that nothing matches.
pub open spec fn grep_outcome(
    run: Result<ProcessOutputView, Seq<char>>,
    limit: nat,
) -> Result<GrepResponseView, ToolErrorView> {
    match run {
        Ok(out) => if out.success {
            Ok(grep_answer(lossy(out.stdout), limit))
        } else if out.code == Some(1i32) {
            Ok(GrepResponseView { matches: seq![], truncated: false })
        } else {
            Err(ToolErrorView::SearchFailed(lossy(out.stderr)))
        },
        Err(e) => Err(ToolErrorView::SearchUnavailable(e)),
    }
}

/// The answer to a search for files, from how the run of the search program ended.
pub open spec fn glob_outcome(run: Result<ProcessOutputView, Seq<char>>) -> Result<
    GlobResponseView,
    ToolErrorView,
> {
    match run {
        Ok(out) => if out.success {
            Ok(glob_answer(lossy(out.stdout)))
        } else {
            Err(ToolErrorView::SearchFailed(lossy(out.stderr)))
        },
        Err(e) => Err(ToolErrorView::SearchUnavailable(e)),
    }
}

/// An argument that the search program takes for an option, unless it is the value of
/// the option before it.
pub open spec fn dashed(arg: Seq<char>) -> bool {
    arg.len() > 0 && arg[0] == '-'
}

/// A relative path as an argument: with `./` in front where it starts with a dash.
pub open spec fn undashed(path: Seq<char>) -> Seq<char> {
    if dashed(path) {
        "./"@ + path
    } else {
        path
    }
}

/// The arguments that give the search program its pattern. One that starts with a dash
/// is the value of an option, so that it is no option itself.
pub open spec fn pattern_arguments(pattern: Seq<char>) -> Seq<Seq<char>> {
    if dashed(pattern) {
        seq!["-e"@, pattern]
    } else {
        seq![pattern]
    }
}

/// The arguments of the search program for a search for text.
pub open spec fn grep_arguments(
    pattern: Seq<char>,
    scope: Seq<char>,
    case_sensitive: Option<bool>,
) -> Seq<Seq<char>> {
    seq!["-n"@, "--color"@, "never"@, "--with-filename"@] + pattern_arguments(pattern) + seq![
        scope,
        if case_sensitive == Some(true) {
            "--case-sensitive"@
        } else {
            "--ignore-case"@
        },
    ]
}

/// The arguments of the search program for a search for files.
pub open spec fn glob_arguments(pattern: Seq<char>) -> Seq<Seq<char>> {
    seq!["--files"@, "."@, "-g"@, pattern]
}

/// How many matches a request is answered with at most.
pub fn result_limit_of(max_results: Option<usize>) -> (r: usize)
    ensures
        r == result_limit(max_results),
        1 <= r <= MAX_GREP_RESULTS,
{
    match max_results {
        Some(n) => if n < 1 {
            1
        } else if n > MAX_GREP_RESULTS {
            MAX_GREP_RESULTS
        } else {
            n
        },
        None => DEFAULT_GREP_RESULTS,
    }
}

/// Whether the text starts with a dash.
pub fn is_dashed(arg: &str) -> (r: bool)
    ensures
        r == dashed(arg@),
{
    let chars = chars_of(arg);
    chars.len() > 0 && chars[0] == '-'
}

/// The relative path as an argument.
pub fn without_dash(path: String) -> (r: String)
    ensures
        r@ == undashed(path@),
{
    if is_dashed(path.as_str()) {
        let mut out = "./".to_owned();
        out.append(path.as_str());
        out
    } else {
        path
    }
}

/// The arguments of the search program for a search for text.
pub fn grep_args(pattern: String, scope: String, case_sensitive: Option<bool>) -> (r: Vec<String>)
    ensures
        texts(r@) == grep_arguments(pattern@, scope@, case_sensitive),
{
    let mut args: Vec<String> = Vec::new();
    args.push("-n".to_owned());
    args.push("--color".to_owned());
    args.push("never".to_owned());
    args.push("--with-filename".to_owned());
    let ghost p = pattern@;
    let ghost s = scope@;
    if is_dashed(pattern.as_str()) {
        args.push("-e".to_owned());
    }
    args.push(pattern);
    args.push(scope);
    let sensitive = match case_sensitive {
        Some(b) => b,
        None => false,
    };
    if sensitive {
        args.push("--case-sensitive".to_owned());
    } else {
        args.push("--ignore-case".to_owned());
    }
    assert(texts(args@) =~= grep_arguments(p, s, case_sensitive));
    args
}

/// The arguments of the search program for a search for files.
pub fn glob_args(pattern: String) -> (r: Vec<String>)
    ensures
        texts(r@) == glob_arguments(pattern@),
{
    let mut args: Vec<String> = Vec::new();
    args.push("--files".to_owned());
    args.push(".".to_owned());
    args.push("-g".to_owned());
    let ghost p = pattern@;
    args.push(pattern);
    assert(texts(args@) =~= glob_arguments(p));
    args
}

fn parse_match(line: &str) -> (r: Option<(GrepMatch, bool)>)
    ensures
        match r {
            Some(m) => reported_match(line@) == Some((m.0@, m.1)),
            None => reported_match(line@) is None,
        },
{
    let chars = chars_of(line);
    let i: usize = find_from(&chars, 0, ':');
    assert(chars@.skip(0) =~= chars@);
    if i == chars.len() {
        return None;
    }
    let j: usize = find_from(&chars, i + 1, ':');
    let ghost rest = chars@.skip(i + 1);
    if j == chars.len() {
        return None;
    }
    let path = string_of(&chars, 0, i);
    let text = string_of(&chars, j + 1, chars.len());
    proof {
        assert(path@ =~= line@.take(i as int));
        assert(text@ =~= rest.skip(j - (i + 1) + 1));
        assert(chars@.subrange(i + 1, j as int) =~= rest.take(j - (i + 1)));
    }
    if Pastaless::is_denied_path(path.as_str().as_bytes()) {
        return None;
    }
    match parse_number(&chars, i + 1, j) {
        Some(number) => {
            let (shown, long) = Pastaless::truncate_line(text.as_str());
            let relative = Pastaless::normalize_relative(path.as_str().as_bytes());
            proof {
                encode_utf8_valid_utf8(path@);
                encode_utf8_decode_utf8(path@);
            }
            Some((GrepMatch { path: relative, line: number, text: shown }, long))
        },
        None => None,
    }
}

/// What the first lines report comes first.
proof fn lemma_matches_of_prefix(output: Seq<Seq<char>>, k: int)
    requires
        0 <= k <= output.len(),
    ensures
        reported_matches(output.take(k)).len() <= reported_matches(output).len(),
        reported_matches(output).take(reported_matches(output.take(k)).len() as int)
            == reported_matches(output.take(k)),
    decreases output.len(),
{
    if k == output.len() {
        assert(output.take(k) =~= output);
        assert(reported_matches(output).take(reported_matches(output).len() as int)
            =~= reported_matches(output));
    } else {
        let front = output.drop_last();
        lemma_matches_of_prefix(front, k);
        assert(front.take(k) =~= output.take(k));
        let n = reported_matches(output.take(k)).len() as int;
        assert(reported_matches(output).take(n) =~= reported_matches(front).take(n));
    }
}

proof fn lemma_paths_of_prefix(output: Seq<Seq<char>>, k: int)
    requires
        0 <= k <= output.len(),
    ensures
        reported_paths(output.take(k)).len() <= reported_paths(output).len(),
        reported_paths(output).take(reported_paths(output.take(k)).len() as int) == reported_paths(
            output.take(k),
        ),
    decreases output.len(),
{
    if k == output.len() {
        assert(output.take(k) =~= output);
        assert(reported_paths(output).take(reported_paths(output).len() as int) =~= reported_paths(
            output,
        ));
    } else {
        let front = output.drop_last();
        lemma_paths_of_prefix(front, k);
        assert(front.take(k) =~= output.take(k));
        let n = reported_paths(output.take(k)).len() as int;
        assert(reported_paths(output).take(n) =~= reported_paths(front).take(n));
    }
}

spec fn some_long(s: Seq<(GrepMatchView, bool)>) -> bool {
    exists|i: int| 0 <= i < s.len() && (#[trigger] s[i]).1
}

spec fn matches_of(s: Seq<(GrepMatchView, bool)>) -> Seq<GrepMatchView> {
    s.map_values(|m: (GrepMatchView, bool)| m.0)
}

spec fn match_views(s: Seq<GrepMatch>) -> Seq<GrepMatchView> {
    s.map_values(|m: GrepMatch| m@)
}

/// The answer to a search for text, from what the search program printed.
pub fn grep_response(output: &str, limit: usize) -> (r: GrepResponse)
    requires
        limit >= 1,
    ensures
        r@ == grep_answer(output@, limit as nat),
{
    let all_lines = text_lines(output);
    let ghost all = lines(output@);
    let mut matches: Vec<GrepMatch> = Vec::new();
    let mut truncated = false;
    let mut k: usize = 0;
    proof {
        assert(texts(all_lines@).len() == all_lines@.len());
        assert(all.take(0) =~= seq![]);
        assert(reported_matches(all.take(0)) =~= seq![]);
        assert(match_views(matches@) =~= matches_of(reported_matches(all.take(0))));
    }
    while k < all_lines.len()
        invariant
            k <= all_lines@.len() == all.len(),
            texts(all_lines@) == all,
            all == lines(output@),
            limit >= 1,
            match_views(matches@) == matches_of(reported_matches(all.take(k as int))),
            matches@.len() < limit,
            truncated == some_long(reported_matches(all.take(k as int))),
        decreases all_lines@.len() - k,
    {
        let ghost before = matches@;
        let ghost so_far = reported_matches(all.take(k as int));
        let ghost next = reported_matches(all.take(k + 1));
        proof {
            assert(all[k as int] == all_lines@[k as int]@);
            assert(all.take(k + 1).drop_last() =~= all.take(k as int));
            assert(match_views(before).len() == before.len());
            assert(matches_of(so_far).len() == so_far.len());
        }
        match parse_match(all_lines[k].as_str()) {
            Some((found, long)) => {
                let ghost m = (found@, long);
                matches.push(found);
                proof {
                    assert(next == so_far.push(m));
                    assert(match_views(matches@) =~= match_views(before).push(m.0));
                    assert(matches_of(next) =~= matches_of(so_far).push(m.0));
                }
                if matches.len() >= limit {
                    let r = GrepResponse { matches, truncated: true };
                    proof {
                        lemma_matches_of_prefix(all, k + 1);
                        let reported = reported_matches(all);
                        assert(next.len() == limit);
                        assert(at_most(reported, limit as nat) =~= next);
                        assert(r@.matches =~= grep_answer(output@, limit as nat).matches);
                    }
                    return r;
                }
                proof {
                    if some_long(next) && !long {
                        let i = choose|i: int| 0 <= i < next.len() && (#[trigger] next[i]).1;
                        assert(so_far[i] == next[i]);
                    }
                    if some_long(so_far) {
                        let i = choose|i: int| 0 <= i < so_far.len() && (#[trigger] so_far[i]).1;
                        assert(next[i] == so_far[i]);
                    }
                    if long {
                        assert(next[next.len() - 1].1);
                    }
                }
                truncated = truncated || long;
            },
            None => {},
        }
        k += 1;
    }
    let r = GrepResponse { matches, truncated };
    proof {
        assert(all.take(k as int) =~= all);
        assert(match_views(matches@).len() == matches@.len());
        assert(matches_of(reported_matches(all)).len() == reported_matches(all).len());
        assert(r@.matches =~= grep_answer(output@, limit as nat).matches);
    }
    r
}

/// The answer to a search for files, from what the search program printed.
pub fn glob_response(output: &str) -> (r: GlobResponse)
    ensures
        r@ == glob_answer(output@),
{
    let all_lines = text_lines(output);
    let ghost all = lines(output@);
    let mut paths: Vec<String> = Vec::new();
    let mut truncated = false;
    let mut k: usize = 0;
    proof {
        assert(texts(all_lines@).len() == all_lines@.len());
        assert(all.take(0) =~= seq![]);
        assert(texts(paths@) =~= reported_paths(all.take(0)));
        assert(all.take(all.len() as int) =~= all);
    }
    while k < all_lines.len()
        invariant_except_break
            !truncated,
            texts(paths@) == reported_paths(all.take(k as int)),
            reported_paths(all.take(k as int)).len() == paths@.len() < MAX_GLOB_RESULTS,
        invariant
            all.take(all.len() as int) == all,
            k <= all_lines@.len() == all.len(),
            texts(all_lines@) == all,
            all == lines(output@),
        ensures
            texts(paths@) == at_most(reported_paths(all), MAX_GLOB_RESULTS as nat),
            truncated == (reported_paths(all).len() >= MAX_GLOB_RESULTS),
        decreases all_lines@.len() - k,
    {
        let ghost before = paths@;
        let ghost so_far = reported_paths(all.take(k as int));
        let ghost next = reported_paths(all.take(k + 1));
        proof {
            assert(all[k as int] == all_lines@[k as int]@);
            assert(all.take(k + 1).drop_last() =~= all.take(k as int));
            assert(texts(before).len() == before.len());
        }
        let relative = all_lines[k].as_str().as_bytes();
        if !Pastaless::is_denied_path(relative) {
            let path = Pastaless::normalize_relative(relative);
            proof {
                encode_utf8_valid_utf8(all[k as int]);
                encode_utf8_decode_utf8(all[k as int]);
            }
            paths.push(path);
            assert(texts(paths@) =~= texts(before).push(path@));
            if paths.len() >= MAX_GLOB_RESULTS {
                truncated = true;
                proof {
                    lemma_paths_of_prefix(all, k + 1);
                    assert(at_most(reported_paths(all), MAX_GLOB_RESULTS as nat) =~= next);
                }
                break;
            }
        }
        k += 1;
    }
    assert(texts(paths@) =~= views(paths@));
    let shown = sort(paths);
    assert(texts(shown@) =~= views(shown@));
    GlobResponse { paths: shown, truncated }
}

/// The answer to a search for text, from how the run of the search program ended.
pub fn grep_result(run: Result<ProcessOutput, String>, limit: usize) -> (r: Result<
    GrepResponse,
    ToolError,
>)
    requires
        limit >= 1,
    ensures
        grep_result_view(r) == grep_outcome(run_view(run), limit as nat),
{
    match run {
        Ok(out) => {
            if out.success {
                let text = decode_lossy(out.stdout.as_slice());
                Ok(grep_response(text.as_str(), limit))
            } else {
                let nothing_found = match out.code {
                    Some(code) => code == 1,
                    None => false,
                };
                if nothing_found {
                    let r = GrepResponse { matches: Vec::new(), truncated: false };
                    assert(r@.matches =~= seq![]);
                    Ok(r)
                } else {
                    Err(ToolError::SearchFailed(decode_lossy(out.stderr.as_slice())))
                }
            }
        },
        Err(e) => Err(ToolError::SearchUnavailable(e)),
    }
}

/// The answer to a search for files, from how the run of the search program ended.
pub fn glob_result(run: Result<ProcessOutput, String>) -> (r: Result<GlobResponse, ToolError>)
    ensures
        glob_result_view(r) == glob_outcome(run_view(run)),
{
    match run {
        Ok(out) => if out.success {
            let text = decode_lossy(out.stdout.as_slice());
            Ok(glob_response(text.as_str()))
        } else {
            Err(ToolError::SearchFailed(decode_lossy(out.stderr.as_slice())))
        },
        Err(e) => Err(ToolError::SearchUnavailable(e)),
    }
}

/// What is among the reported matches: what each line reports, and nothing else.
proof fn lemma_reported_matches(output: Seq<Seq<char>>)
    ensures
        forall|i: int|
            0 <= i < reported_matches(output).len() ==> exists|k: int|
                0 <= k < output.len() && reported_match(#[trigger] output[k]) == Some(
                    #[trigger] reported_matches(output)[i],
                ),
        forall|k: int|
            0 <= k < output.len() && reported_match(#[trigger] output[k]) is Some
                ==> reported_matches(output).contains(reported_match(output[k])->Some_0),
    decreases output.len(),
{
    if output.len() > 0 {
        let front = output.drop_last();
        lemma_reported_matches(front);
        let all = reported_matches(output);
        let before = reported_matches(front);
        assert forall|i: int| 0 <= i < all.len() implies exists|k: int|
            0 <= k < output.len() && reported_match(#[trigger] output[k]) == Some(
                #[trigger] all[i],
            ) by {
            if i < before.len() {
                assert(all[i] == before[i]);
                let k = choose|k: int|
                    0 <= k < front.len() && reported_match(#[trigger] front[k]) == Some(before[i]);
                assert(output[k] == front[k]);
            } else {
                assert(reported_match(output[output.len() - 1]) == Some(all[i]));
            }
        }
        assert forall|k: int|
            0 <= k < output.len() && reported_match(#[trigger] output[k]) is Some implies all.contains(
            reported_match(output[k])->Some_0,
        ) by {
            if k < front.len() {
                assert(front[k] == output[k]);
                let m = reported_match(front[k])->Some_0;
                let i = choose|i: int| 0 <= i < before.len() && before[i] == m;
                assert(all[i] == m);
            } else {
                assert(all[all.len() - 1] == reported_match(output[k])->Some_0);
            }
        }
    }
}

/// The match is what a line of output says, and its path is not denied.
pub open spec fn match_in(line: Seq<char>, m: GrepMatchView) -> bool {
    &&& fields(line) matches Some((path, line_number, text))
    &&& !denied(encode_utf8(path))
    &&& m.path == forward_slashes(path)
    &&& number(line_number) == Some(m.line)
    &&& m.text == shortened(text)
}

/// An answer to a search for text holds as many matches as it may at most, each from a
/// line of output and with a path that is not denied.
pub proof fn law_grep_answer(output: Seq<char>, limit: nat)
    ensures
        grep_answer(output, limit).matches.len() <= limit,
        forall|i: int|
            0 <= i < grep_answer(output, limit).matches.len() ==> exists|k: int|
                0 <= k < lines(output).len() && match_in(
                    #[trigger] lines(output)[k],
                    #[trigger] grep_answer(output, limit).matches[i],
                ),
{
    let all = lines(output);
    let reported = reported_matches(all);
    let kept = at_most(reported, limit);
    let answer = grep_answer(output, limit);
    lemma_reported_matches(all);
    assert forall|i: int| 0 <= i < answer.matches.len() implies exists|k: int|
        0 <= k < all.len() && match_in(#[trigger] all[k], #[trigger] answer.matches[i]) by {
        assert(kept[i] == reported[i]);
        assert(answer.matches[i] == reported[i].0);
        let k = choose|k: int|
            0 <= k < all.len() && reported_match(#[trigger] all[k]) == Some(reported[i]);
        assert(match_in(all[k], answer.matches[i]));
    }
}

/// An answer to a search for text that is not marked as truncated holds every match
/// that the output reports, each with its text in full.
pub proof fn law_untruncated_grep_is_complete(output: Seq<char>, limit: nat)
    requires
        !grep_answer(output, limit).truncated,
    ensures
        forall|k: int|
            0 <= k < lines(output).len() ==> match reported_match(#[trigger] lines(output)[k]) {
                Some((m, long)) => grep_answer(output, limit).matches.contains(m) && !long,
                None => true,
            },
{
    let all = lines(output);
    let reported = reported_matches(all);
    let answer = grep_answer(output, limit);
    lemma_reported_matches(all);
    assert forall|k: int| 0 <= k < all.len() implies match reported_match(#[trigger] all[k]) {
        Some((m, long)) => answer.matches.contains(m) && !long,
        None => true,
    } by {
        if let Some((m, long)) = reported_match(all[k]) {
            let i = choose|i: int| 0 <= i < reported.len() && reported[i] == (m, long);
            assert(answer.matches[i] == m);
            assert(at_most(reported, limit)[i].1 == long);
        }
    }
}

proof fn lemma_reported_paths(output: Seq<Seq<char>>)
    ensures
        forall|i: int|
            0 <= i < reported_paths(output).len() ==> exists|k: int|
                0 <= k < output.len() && path_in(
                    #[trigger] output[k],
                    #[trigger] reported_paths(output)[i],
                ),
    decreases output.len(),
{
    if output.len() > 0 {
        let front = output.drop_last();
        lemma_reported_paths(front);
        let all = reported_paths(output);
        let before = reported_paths(front);
        assert forall|i: int| 0 <= i < all.len() implies exists|k: int|
            0 <= k < output.len() && path_in(#[trigger] output[k], #[trigger] all[i]) by {
            if i < before.len() {
                assert(all[i] == before[i]);
                let k = choose|k: int|
                    0 <= k < front.len() && path_in(#[trigger] front[k], before[i]);
                assert(output[k] == front[k]);
            } else {
                assert(path_in(output[output.len() - 1], all[i]));
            }
        }
    }
}

/// The path is what a line of output says, and is not denied.
pub open spec fn path_in(line: Seq<char>, path: Seq<char>) -> bool {
    !denied(encode_utf8(line)) && path == forward_slashes(line)
}

/// An answer to a search for files is in order and holds as many paths as it may at
/// most, each from a line of output that is not denied.
pub proof fn law_glob_answer(output: Seq<char>)
    ensures
        glob_answer(output).paths.len() <= MAX_GLOB_RESULTS,
        in_order::<String>(glob_answer(output).paths),
        forall|i: int|
            0 <= i < glob_answer(output).paths.len() ==> exists|k: int|
                0 <= k < lines(output).len() && path_in(
                    #[trigger] lines(output)[k],
                    #[trigger] glob_answer(output).paths[i],
                ),
{
    broadcast use vstd::seq_lib::group_to_multiset_ensures;

    let all = lines(output);
    let reported = reported_paths(all);
    let kept = at_most(reported, MAX_GLOB_RESULTS as nat);
    let shown = glob_answer(output).paths;
    lemma_reported_paths(all);
    law_sorted::<String>(kept);
    assert forall|i: int| 0 <= i < shown.len() implies exists|k: int|
        0 <= k < all.len() && path_in(#[trigger] all[k], #[trigger] shown[i]) by {
        assert(shown.contains(shown[i]));
        assert(shown.to_multiset().count(shown[i]) > 0);
        assert(kept.contains(shown[i]));
        let j = choose|j: int| 0 <= j < kept.len() && kept[j] == shown[i];
        assert(kept[j] == reported[j]);
    }
}

/// An answer to a search for files that is not marked as truncated holds every path
/// that the output names and that is not denied, as often as it is named.
pub proof fn law_untruncated_glob_is_complete(output: Seq<char>)
    requires
        !glob_answer(output).truncated,
    ensures
        glob_answer(output).paths.to_multiset() == reported_paths(lines(output)).to_multiset(),
{
    law_sorted::<String>(reported_paths(lines(output)));
}

/// The search program takes the argument behind this option as its value.
pub open spec fn takes_value(option: Seq<char>) -> bool {
    option == "--color"@ || option == "-e"@ || option == "-g"@
}

/// The search program takes argument `i` for an option: it starts with a dash and is
/// not the value of the option before it.
pub open spec fn is_option(args: Seq<Seq<char>>, i: int) -> bool
    decreases i,
{
    &&& 0 <= i < args.len()
    &&& dashed(args[i])
    &&& !(0 < i && is_option(args, i - 1) && takes_value(args[i - 1]))
}

/// Argument `i` is the value of the option `option`.
pub open spec fn is_value_of(args: Seq<Seq<char>>, i: int, option: Seq<char>) -> bool {
    0 < i < args.len() && is_option(args, i - 1) && args[i - 1] == option && takes_value(option)
}

/// Argument `i` is neither an option nor the value of one.
pub open spec fn is_operand(args: Seq<Seq<char>>, i: int) -> bool {
    &&& 0 <= i < args.len()
    &&& !is_option(args, i)
    &&& !(0 < i && is_option(args, i - 1) && takes_value(args[i - 1]))
}

/// In a search for text, no pattern and no scope without a leading dash is ever taken
/// for an option. The pattern is the value of the option for patterns, and the scope the
/// only operand; or the pattern is the first operand and the scope the second.
pub proof fn law_grep_arguments_are_no_options(
    pattern: Seq<char>,
    scope: Seq<char>,
    case_sensitive: Option<bool>,
)
    requires
        !dashed(scope),
    ensures
        ({
            let args = grep_arguments(pattern, scope, case_sensitive);
            let at: int = if dashed(pattern) {
                5
            } else {
                4
            };
            &&& args.len() == at + 3
            &&& args[at] == pattern
            &&& args[at + 1] == scope
            &&& !is_option(args, at)
            &&& !is_option(args, at + 1)
            &&& is_operand(args, at + 1)
            &&& if dashed(pattern) {
                is_value_of(args, at, "-e"@)
            } else {
                is_operand(args, at)
            }
            &&& forall|i: int| is_operand(args, i) ==> i == at || i == at + 1
        }),
{
    let args = grep_arguments(pattern, scope, case_sensitive);
    reveal_strlit("-n");
    reveal_strlit("--color");
    reveal_strlit("never");
    reveal_strlit("--with-filename");
    reveal_strlit("--case-sensitive");
    reveal_strlit("--ignore-case");
    reveal_strlit("-e");
    reveal_strlit("-g");
    assert("-n"@[1] != "-e"@[1] && "-n"@[1] != "-g"@[1]);
    assert(is_option(args, 0) && !takes_value(args[0]));
    assert(is_option(args, 1) && takes_value(args[1]));
    assert(!is_option(args, 2));
    assert(is_option(args, 3) && !takes_value(args[3]));
    if dashed(pattern) {
        assert(args[4] == "-e"@);
        assert(is_option(args, 4) && takes_value(args[4]));
        assert(!is_option(args, 5));
        assert(!is_option(args, 6));
        assert(is_option(args, 7));
    } else {
        assert(!is_option(args, 4));
        assert(!is_option(args, 5));
        assert(is_option(args, 6));
    }
}

/// In a search for files, the pattern is the value of the option for globs, and never an
/// option itself.
pub proof fn law_glob_pattern_is_no_option(pattern: Seq<char>)
    ensures
        glob_arguments(pattern)[3] == pattern,
        is_value_of(glob_arguments(pattern), 3, "-g"@),
        !is_option(glob_arguments(pattern), 3),
{
    let args = glob_arguments(pattern);
    reveal_strlit("--files");
    reveal_strlit(".");
    reveal_strlit("-g");
    assert(!is_option(args, 1));
    assert(is_option(args, 2) && takes_value(args[2]));
}

/// The line reports a match: a path, a number and a text, with a colon behind the path
/// and one behind the number. Neither path nor number holds a colon, and the path is not
/// denied.
pub open spec fn reports(line: Seq<char>, path: Seq<char>, n: usize, text: Seq<char>) -> bool {
    exists|digits: Seq<char>|
        {
            &&& line == path + seq![':'] + #[trigger] digits.push(':') + text
            &&& !path.contains(':')
            &&& !digits.contains(':')
            &&& number(digits) == Some(n)
            &&& !denied(encode_utf8(path))
        }
}

/// The match has this path with slashes, this number and this text, in full up to 2000
/// characters.
pub open spec fn is_match(m: GrepMatchView, path: Seq<char>, n: usize, text: Seq<char>) -> bool {
    &&& m.path == forward_slashes(path)
    &&& m.line == n
    &&& m.text == if text.len() <= 2000 {
        text
    } else {
        text.take(2000) + seq!['.', '.', '.']
    }
}

/// The line reports the match.
pub open spec fn reports_match(line: Seq<char>, m: GrepMatchView) -> bool {
    exists|path: Seq<char>, n: usize, text: Seq<char>| #[trigger]
        reports(line, path, n, text) && is_match(m, path, n, text)
}

proof fn lemma_reports(line: Seq<char>, path: Seq<char>, n: usize, text: Seq<char>)
    requires
        reports(line, path, n, text),
    ensures
        reported_match(line) is Some,
        reported_match(line)->Some_0.1 == too_long(text),
        is_match(reported_match(line)->Some_0.0, path, n, text),
{
    let digits = choose|digits: Seq<char>|
        {
            &&& line == path + seq![':'] + #[trigger] digits.push(':') + text
            &&& !path.contains(':')
            &&& !digits.contains(':')
            &&& number(digits) == Some(n)
            &&& !denied(encode_utf8(path))
        };
    let i = find(line, ':');
    lemma_find(line, ':');
    assert(line[path.len() as int] == ':');
    assert(i == path.len()) by {
        if i < path.len() {
            assert(path[i] == line[i]);
        }
    }
    let rest = line.skip(i + 1);
    let j = find(rest, ':');
    lemma_find(rest, ':');
    assert(rest =~= digits.push(':') + text);
    assert(rest[digits.len() as int] == ':');
    assert(j == digits.len()) by {
        if j < digits.len() {
            assert(digits[j] == rest[j]);
        }
    }
    assert(line.take(i) =~= path);
    assert(rest.take(j) =~= digits);
    assert(rest.skip(j + 1) =~= text);
}

proof fn lemma_reported(line: Seq<char>)
    requires
        reported_match(line) is Some,
    ensures
        reports_match(line, reported_match(line)->Some_0.0),
        reported_match(line)->Some_0.1 <==> reported_match(line)->Some_0.0.text.len() > 2000,
{
    let (path, digits, text) = fields(line)->Some_0;
    let n = number(digits)->Some_0;
    let i = find(line, ':');
    let rest = line.skip(i + 1);
    lemma_find(line, ':');
    lemma_find(rest, ':');
    assert(line =~= path + seq![':'] + digits.push(':') + text);
    assert(!path.contains(':'));
    assert(!digits.contains(':'));
    assert(reports(line, path, n, text));
    assert(is_match(reported_match(line)->Some_0.0, path, n, text));
}

/// The lines that report something, by their positions.
proof fn lemma_reporting_lines(output: Seq<Seq<char>>) -> (at: Seq<int>)
    ensures
        at.len() == reported_matches(output).len(),
        forall|i: int| 0 <= i < at.len() ==> 0 <= #[trigger] at[i] < output.len(),
        forall|i: int, j: int| 0 <= i < j < at.len() ==> #[trigger] at[i] < #[trigger] at[j],
        forall|i: int|
            0 <= i < at.len() ==> reported_match(output[#[trigger] at[i]]) == Some(
                reported_matches(output)[i],
            ),
        forall|k: int|
            0 <= k < output.len() && reported_match(#[trigger] output[k]) is Some ==> at.contains(k),
    decreases output.len(),
{
    if output.len() == 0 {
        seq![]
    } else {
        let front = output.drop_last();
        let last = output.len() - 1;
        let before = lemma_reporting_lines(front);
        assert forall|i: int| 0 <= i < before.len() implies output[#[trigger] before[i]]
            == front[before[i]] by {}
        if reported_match(output.last()) is Some {
            let at = before.push(last);
            assert forall|i: int| 0 <= i < at.len() implies reported_match(
                output[#[trigger] at[i]],
            ) == Some(reported_matches(output)[i]) by {
                if i < before.len() {
                    assert(at[i] == before[i]);
                }
            }
            assert forall|k: int|
                0 <= k < output.len() && reported_match(
                    #[trigger] output[k],
                ) is Some implies at.contains(k) by {
                if k < last {
                    assert(front[k] == output[k]);
                    let i = choose|i: int| 0 <= i < before.len() && before[i] == k;
                    assert(at[i] == k);
                } else {
                    assert(at[before.len() as int] == k);
                }
            }
            at
        } else {
            assert forall|k: int|
                0 <= k < output.len() && reported_match(
                    #[trigger] output[k],
                ) is Some implies before.contains(k) by {
                assert(front[k] == output[k]);
            }
            before
        }
    }
}

/// The positions are those of the lines that the matches come from: in the order of the
/// lines, and with no line left out that reports something, up to the last of them or,
/// where there is room for more matches, up to the end.
pub open spec fn come_from(
    matches: Seq<GrepMatchView>,
    all: Seq<Seq<char>>,
    at: Seq<int>,
    limit: nat,
) -> bool {
    &&& at.len() == matches.len()
    &&& forall|i: int| 0 <= i < at.len() ==> 0 <= #[trigger] at[i] < all.len()
    &&& forall|i: int, j: int| 0 <= i < j < at.len() ==> #[trigger] at[i] < #[trigger] at[j]
    &&& forall|i: int| 0 <= i < at.len() ==> reports_match(all[#[trigger] at[i]], matches[i])
    &&& forall|k: int, path: Seq<char>, n: usize, text: Seq<char>|
        0 <= k < all.len() && #[trigger] reports(all[k], path, n, text) && (matches.len()
            < limit || k <= at.last()) ==> at.contains(k)
}

/// An answer to a search for text holds what the lines of the output report, in their
/// order and with no such line left out, until it has as many matches as it may. It is
/// marked as truncated where it has as many, or where it cuts a text.
pub proof fn law_grep_matches(output: Seq<char>, limit: nat)
    requires
        limit >= 1,
    ensures
        ({
            let answer = grep_answer(output, limit);
            &&& answer.matches.len() <= limit
            &&& exists|at: Seq<int>| #[trigger]
                come_from(answer.matches, lines(output), at, limit)
            &&& answer.truncated <==> answer.matches.len() == limit || exists|i: int|
                0 <= i < answer.matches.len() && (#[trigger] answer.matches[i]).text.len() > 2000
        }),
{
    let all = lines(output);
    let reported = reported_matches(all);
    let kept = at_most(reported, limit);
    let answer = grep_answer(output, limit);
    let whole = lemma_reporting_lines(all);
    let at = at_most(whole, limit);
    assert(forall|i: int| 0 <= i < kept.len() ==> kept[i] == reported[i]);
    assert(forall|i: int| 0 <= i < kept.len() ==> #[trigger] answer.matches[i] == reported[i].0);
    assert(forall|i: int| 0 <= i < at.len() ==> #[trigger] at[i] == whole[i]);
    assert forall|i: int| 0 <= i < at.len() implies reports_match(
        all[#[trigger] at[i]],
        answer.matches[i],
    ) by {
        assert(at[i] == whole[i]);
        lemma_reported(all[whole[i]]);
    }
    assert forall|k: int, path: Seq<char>, n: usize, text: Seq<char>|
        0 <= k < all.len() && #[trigger] reports(all[k], path, n, text) && (answer.matches.len()
            < limit || k <= at.last()) implies at.contains(k) by {
        lemma_reports(all[k], path, n, text);
        assert(whole.contains(k));
        let i = choose|i: int| 0 <= i < whole.len() && whole[i] == k;
        if i >= at.len() {
            assert(at.last() == whole[at.len() - 1]);
            assert(whole[at.len() - 1] < whole[i]);
        } else {
            assert(at[i] == k);
        }
    }
    assert(come_from(answer.matches, all, at, limit));
    assert forall|i: int| 0 <= i < kept.len() implies (#[trigger] kept[i]).1
        == (answer.matches[i].text.len() > 2000) by {
        assert(reported_match(all[whole[i]]) == Some(reported[i]));
        lemma_reported(all[whole[i]]);
    }
    if exists|i: int| 0 <= i < kept.len() && (#[trigger] kept[i]).1 {
        let i = choose|i: int| 0 <= i < kept.len() && (#[trigger] kept[i]).1;
        assert(answer.matches[i].text.len() > 2000);
    }
    if exists|i: int|
        0 <= i < answer.matches.len() && (#[trigger] answer.matches[i]).text.len() > 2000 {
        let i = choose|i: int|
            0 <= i < answer.matches.len() && (#[trigger] answer.matches[i]).text.len() > 2000;
        assert(kept[i].1);
    }
}

/// An answer to a search for text that is not marked as truncated holds, for every line
/// of the output with a path that is not denied, a number and a text, a match with this
/// path, this number and this text as it is.
pub proof fn law_untruncated_grep_holds_every_match(output: Seq<char>, limit: nat)
    requires
        limit >= 1,
        !grep_answer(output, limit).truncated,
    ensures
        forall|k: int, path: Seq<char>, n: usize, text: Seq<char>|
            0 <= k < lines(output).len() && #[trigger] reports(lines(output)[k], path, n, text)
                ==> grep_answer(output, limit).matches.contains(
                (GrepMatchView { path: forward_slashes(path), line: n, text }),
            ),
{
    let all = lines(output);
    let reported = reported_matches(all);
    let answer = grep_answer(output, limit);
    lemma_reported_matches(all);
    assert forall|k: int, path: Seq<char>, n: usize, text: Seq<char>|
        0 <= k < all.len() && #[trigger] reports(all[k], path, n, text) implies answer.matches.contains(
        (GrepMatchView { path: forward_slashes(path), line: n, text }),
    ) by {
        lemma_reports(all[k], path, n, text);
        let m = reported_match(all[k])->Some_0;
        let i = choose|i: int| 0 <= i < reported.len() && reported[i] == m;
        assert(answer.matches[i] == m.0);
        assert(at_most(reported, limit)[i].1 == m.1);
    }
}

proof fn lemma_reported_paths_filter(
    output: Seq<Seq<char>>,
    kept: spec_fn(Seq<char>) -> bool,
    shown: spec_fn(Seq<char>) -> Seq<char>,
)
    requires
        forall|line: Seq<char>| #[trigger] kept(line) <==> !denied(encode_utf8(line)),
        forall|line: Seq<char>| #[trigger] shown(line) == forward_slashes(line),
    ensures
        reported_paths(output) == output.filter(kept).map_values(shown),
    decreases output.len(),
{
    reveal(Seq::filter);
    if output.len() > 0 {
        lemma_reported_paths_filter(output.drop_last(), kept, shown);
    }
    assert(reported_paths(output) =~= output.filter(kept).map_values(shown));
}

/// An answer to a search for files holds every line of the output that is not denied,
/// with slashes, as often as it occurs; where there are more than 1000 such lines, the
/// first 1000. It is marked as truncated where there are 1000 or more. The paths stand
/// in their order.
pub proof fn law_glob_paths(output: Seq<char>)
    ensures
        ({
            let named = lines(output).filter(
                |line: Seq<char>| !denied(encode_utf8(line)),
            ).map_values(|line: Seq<char>| forward_slashes(line));
            let answer = glob_answer(output);
            &&& answer.truncated <==> named.len() >= 1000
            &&& named.len() <= 1000 ==> answer.paths.to_multiset() == named.to_multiset()
            &&& named.len() > 1000 ==> answer.paths.to_multiset() == named.take(
                1000,
            ).to_multiset()
            &&& forall|i: int, j: int|
                0 <= i <= j < answer.paths.len() ==> text_le(
                    #[trigger] answer.paths[i],
                    #[trigger] answer.paths[j],
                )
        }),
{
    let kept = |line: Seq<char>| !denied(encode_utf8(line));
    let shown = |line: Seq<char>| forward_slashes(line);
    let named = lines(output).filter(kept).map_values(shown);
    let answer = glob_answer(output);
    lemma_reported_paths_filter(lines(output), kept, shown);
    law_sorted::<String>(at_most(named, 1000));
    assert forall|i: int, j: int| 0 <= i <= j < answer.paths.len() implies text_le(
        #[trigger] answer.paths[i],
        #[trigger] answer.paths[j],
    ) by {
        assert(<String as Ordered>::not_after(answer.paths[i], answer.paths[j]));
    }
}

/// An answer to a search for files that is not marked as truncated holds every line of
/// the output that is not denied, with slashes.
pub proof fn law_untruncated_glob_holds_every_path(output: Seq<char>)
    requires
        !glob_answer(output).truncated,
    ensures
        forall|k: int|
            0 <= k < lines(output).len() && !denied(encode_utf8(#[trigger] lines(output)[k]))
                ==> glob_answer(output).paths.contains(forward_slashes(lines(output)[k])),
{
    broadcast use vstd::seq_lib::group_to_multiset_ensures;

    let all = lines(output);
    let kept = |line: Seq<char>| !denied(encode_utf8(line));
    let shown = |line: Seq<char>| forward_slashes(line);
    let named = all.filter(kept).map_values(shown);
    let paths = glob_answer(output).paths;
    law_glob_paths(output);
    assert forall|k: int|
        0 <= k < all.len() && !denied(encode_utf8(#[trigger] all[k])) implies paths.contains(
        forward_slashes(all[k]),
    ) by {
        all.lemma_filter_contains(kept, k);
        let i = choose|i: int| 0 <= i < all.filter(kept).len() && all.filter(kept)[i] == all[k];
        assert(named[i] == forward_slashes(all[k]));
        assert(named.contains(forward_slashes(all[k])));
        assert(named.to_multiset().count(forward_slashes(all[k])) > 0);
        assert(paths.to_multiset().count(forward_slashes(all[k])) > 0);
    }
}

/// A run of the search program for text is answered with what its output reports where
/// it succeeded, with nothing where it ended with the exit code 1, and else with an
/// error that holds what it printed.
pub proof fn law_grep_outcome(run: ProcessOutputView, error: Seq<char>, limit: nat)
    ensures
        run.success ==> grep_outcome(Ok(run), limit) == Ok::<GrepResponseView, ToolErrorView>(
            grep_answer(lossy(run.stdout), limit),
        ),
        !run.success && run.code == Some(1i32) ==> {
            &&& grep_outcome(Ok(run), limit) is Ok
            &&& grep_outcome(Ok(run), limit)->Ok_0.matches.len() == 0
            &&& !grep_outcome(Ok(run), limit)->Ok_0.truncated
        },
        !run.success && run.code != Some(1i32) ==> grep_outcome(Ok(run), limit) == Err::<
            GrepResponseView,
            ToolErrorView,
        >(ToolErrorView::SearchFailed(lossy(run.stderr))),
        grep_outcome(Err(error), limit) == Err::<GrepResponseView, ToolErrorView>(
            ToolErrorView::SearchUnavailable(error),
        ),
{
}

/// A run of the search program for files is answered with what its output names where it
/// succeeded, and else with an error that holds what it printed.
pub proof fn law_glob_outcome(run: ProcessOutputView, error: Seq<char>)
    ensures
        run.success ==> glob_outcome(Ok(run)) == Ok::<GlobResponseView, ToolErrorView>(
            glob_answer(lossy(run.stdout)),
        ),
        !run.success ==> glob_outcome(Ok(run)) == Err::<GlobResponseView, ToolErrorView>(
            ToolErrorView::SearchFailed(lossy(run.stderr)),
        ),
        glob_outcome(Err(error)) == Err::<GlobResponseView, ToolErrorView>(
            ToolErrorView::SearchUnavailable(error),
        ),
{
}

/// As many matches as asked for are allowed, from 1 to 300, and 100 where nothing is
/// asked for.
pub proof fn law_result_limit(n: usize)
    ensures
        1 <= result_limit(Some(n)) <= 300,
        1 <= n <= 300 ==> result_limit(Some(n)) == n,
        n > 300 ==> result_limit(Some(n)) == 300,
        result_limit(None) == 100,
{
}

/// A search for text asks for line numbers, file names and no colours; it minds the case
/// of letters just where that is asked for.
pub proof fn law_grep_arguments(pattern: Seq<char>, scope: Seq<char>, case_sensitive: Option<bool>)
    ensures
        ({
            let args = grep_arguments(pattern, scope, case_sensitive);
            let dash = pattern.len() > 0 && pattern[0] == '-';
            &&& args.take(4) == seq!["-n"@, "--color"@, "never"@, "--with-filename"@]
            &&& args.skip(4) == (if dash {
                seq!["-e"@, pattern]
            } else {
                seq![pattern]
            }) + seq![
                scope,
                match case_sensitive {
                    Some(true) => "--case-sensitive"@,
                    _ => "--ignore-case"@,
                },
            ]
        }),
{
    let args = grep_arguments(pattern, scope, case_sensitive);
    assert(args.take(4) =~= seq!["-n"@, "--color"@, "never"@, "--with-filename"@]);
    assert(args.skip(4) =~= pattern_arguments(pattern) + seq![
        scope,
        match case_sensitive {
            Some(true) => "--case-sensitive"@,
            _ => "--ignore-case"@,
        },
    ]);
}

/// A search for files lists those below the directory it is run in that match the
/// pattern.
pub proof fn law_glob_arguments(pattern: Seq<char>)
    ensures
        glob_arguments(pattern) == seq!["--files"@, "."@, "-g"@, pattern],
{
}

/// A relative path that starts with a dash gets `./` in front, and any other stays.
pub proof fn law_undashed(path: Seq<char>)
    ensures
        dashed(path) <==> path.len() > 0 && path[0] == '-',
        undashed(path) == if path.len() > 0 && path[0] == '-' {
            seq!['.', '/'] + path
        } else {
            path
        },
{
    reveal_strlit("./");
    assert("./"@ =~= seq!['.', '/']);
}

/// A run of the search program and the answer to a search stand for just what they hold.
pub proof fn law_search_views(
    run: ProcessOutput,
    text: String,
    grep: GrepResponse,
    glob: GlobResponse,
    error: ToolError,
)
    ensures
        run_view(Ok(run)) == Ok::<ProcessOutputView, Seq<char>>(
            ProcessOutputView {
                success: run.success,
                code: run.code,
                stdout: run.stdout@,
                stderr: run.stderr@,
            },
        ),
        run_view(Err(text)) == Err::<ProcessOutputView, Seq<char>>(text@),
        grep_result_view(Ok(grep)) == Ok::<GrepResponseView, ToolErrorView>(grep@),
        grep_result_view(Err(error)) == Err::<GrepResponseView, ToolErrorView>(error@),
        glob_result_view(Ok(glob)) == Ok::<GlobResponseView, ToolErrorView>(glob@),
        glob_result_view(Err(error)) == Err::<GlobResponseView, ToolErrorView>(error@),
{
}

} // verus!
