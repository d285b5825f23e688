//! Which paths of a project a request reaches.

use crate::error::{ToolError, ToolErrorView};
use crate::path::{
    absolute, components, denied, denied_name, is_absolute, is_within, join, joined, within, SLASH,
};
use crate::path_laws::{
    denied_text, law_absolute_as_text, law_denied_as_text, law_denied_by_pieces, law_denied_join,
    law_join_components, law_join_within, law_joined, law_names,
};
use crate::server::Pastaless;
use crate::text::{contains_dot_dot, has_dot_dot, law_has_dot_dot, split};
use vstd::prelude::*;
use vstd::utf8::encode_utf8;

verus! {

/// The path that a request for `rel` means, in the project with this root directory:
/// `rel` has to be relative and without two dots in a row, and nothing in the path may
/// have a denied name.
pub open spec fn candidate(root: Seq<u8>, rel: Seq<char>) -> Result<Seq<u8>, ToolErrorView> {
    let path = joined(root, encode_utf8(rel));
    if absolute(encode_utf8(rel)) {
        Err(ToolErrorView::AbsolutePath)
    } else if has_dot_dot(rel) {
        Err(ToolErrorView::PathTraversal)
    } else if denied(path) {
        Err(ToolErrorView::AccessDenied)
    } else {
        Ok(path)
    }
}

/// The path that a request reaches, from the canonical form of the path that it means,
/// if there is one: it has to lie within the root directory.
pub open spec fn reached(root: Seq<u8>, rel: Seq<char>, canonical: Option<Seq<u8>>) -> Result<
    Seq<u8>,
    ToolErrorView,
> {
    match canonical {
        Some(path) => if within(path, root) {
            Ok(path)
        } else {
            Err(ToolErrorView::OutsideRoot)
        },
        None => Err(ToolErrorView::PathUnavailable(rel)),
    }
}

pub open spec fn path_result_view(r: Result<Vec<u8>, ToolError>) -> Result<
    Seq<u8>,
    ToolErrorView,
> {
    match r {
        Ok(path) => Ok(path@),
        Err(e) => Err(e@),
    }
}

/// A path, if there is one.
pub open spec fn path_view(path: Option<Vec<u8>>) -> Option<Seq<u8>> {
    match path {
        Some(p) => Some(p@),
        None => None,
    }
}

/// The path that a request for `rel` means.
pub fn candidate_path(root: &[u8], rel: &str) -> (r: Result<Vec<u8>, ToolError>)
    ensures
        path_result_view(r) == candidate(root@, rel@),
{
    if is_absolute(rel.as_bytes()) {
        return Err(ToolError::AbsolutePath);
    }
    if contains_dot_dot(rel) {
        return Err(ToolError::PathTraversal);
    }
    let path = join(root, rel.as_bytes());
    if Pastaless::is_denied_path(path.as_slice()) {
        return Err(ToolError::AccessDenied);
    }
    Ok(path)
}

/// The path that a request for `rel` reaches.
pub fn reached_path(root: &[u8], rel: &str, canonical: Option<Vec<u8>>) -> (r: Result<
    Vec<u8>,
    ToolError,
>)
    ensures
        path_result_view(r) == reached(root@, rel@, path_view(canonical)),
{
    match canonical {
        Some(path) => if is_within(path.as_slice(), root) {
            Ok(path)
        } else {
            Err(ToolError::OutsideRoot)
        },
        None => Err(ToolError::PathUnavailable(rel.to_owned())),
    }
}

/// A request is refused before the system is asked for its path just where the path
/// starts with a slash, holds two dots in a row or a denied name, or where the root
/// directory lies below a denied name.
pub proof fn law_candidate(root: Seq<u8>, rel: Seq<char>)
    ensures
        candidate(root, rel) is Err <==> {
            ||| rel.len() > 0 && rel[0] == '/'
            ||| has_dot_dot(rel)
            ||| denied(root)
            ||| exists|i: int|
                0 <= i < split(rel, '/').len() && denied_text(#[trigger] split(rel, '/')[i])
        },
{
    law_absolute_as_text(rel);
    law_denied_as_text(rel);
    if !absolute(encode_utf8(rel)) {
        law_denied_join(root, encode_utf8(rel));
    }
}

/// The path that a request means lies within the root directory.
pub proof fn law_candidate_within(root: Seq<u8>, rel: Seq<char>)
    requires
        root.len() > 0,
    ensures
        candidate(root, rel) matches Ok(path) ==> within(path, root),
{
    if !absolute(encode_utf8(rel)) {
        law_join_within(root, encode_utf8(rel));
    }
}

/// The path that a request reaches lies within the root directory.
pub proof fn law_reached_within(root: Seq<u8>, rel: Seq<char>, canonical: Option<Seq<u8>>)
    ensures
        reached(root, rel, canonical) matches Ok(path) ==> within(path, root) && canonical == Some(
            path,
        ),
{
}

/// The path that a request means is the root directory and the path asked for, with one
/// slash between them: its components are those of the root directory, then the names in
/// the path asked for.
pub proof fn law_candidate_is_the_path_asked_for(root: Seq<u8>, rel: Seq<char>)
    requires
        root.len() > 0,
    ensures
        candidate(root, rel) matches Ok(path) ==> {
            &&& path == root + (if root.last() == 47 {
                seq![]
            } else {
                seq![47u8]
            }) + encode_utf8(rel)
            &&& components(path) == components(root) + split(encode_utf8(rel), 47).filter(
                |piece: Seq<u8>| piece.len() > 0 && piece != seq![46u8],
            )
        },
{
    let bytes = encode_utf8(rel);
    if candidate(root, rel) is Ok {
        law_joined(root, bytes);
        law_join_components(root, bytes);
        law_names(split(bytes, SLASH));
    }
}

/// Why a request is refused before the system is asked for its path: a slash at the
/// start of the path counts first, then two dots in a row, then a denied name in the path
/// or in that of the root directory. Any other request is not refused.
pub proof fn law_candidate_refusals(root: Seq<u8>, rel: Seq<char>)
    ensures
        ({
            let rooted = rel.len() > 0 && rel[0] == '/';
            let upward = exists|i: int|
                0 <= i <= rel.len() - 2 && #[trigger] rel.subrange(i, i + 2) == seq!['.', '.'];
            let closed = {
                ||| exists|i: int|
                    0 <= i < split(root, 47).len() && denied_name(#[trigger] split(root, 47)[i])
                ||| exists|i: int|
                    0 <= i < split(rel, '/').len() && denied_text(#[trigger] split(rel, '/')[i])
            };
            match candidate(root, rel) {
                Ok(_) => !rooted && !upward && !closed,
                Err(ToolErrorView::AbsolutePath) => rooted,
                Err(ToolErrorView::PathTraversal) => !rooted && upward,
                Err(ToolErrorView::AccessDenied) => !rooted && !upward && closed,
                Err(_) => false,
            }
        }),
{
    law_absolute_as_text(rel);
    law_has_dot_dot(rel);
    law_denied_as_text(rel);
    law_denied_by_pieces(root);
    if !absolute(encode_utf8(rel)) {
        law_denied_join(root, encode_utf8(rel));
    }
}

/// A request reaches the canonical form of the path that it means, whatever that is, as
/// long as it lies within the root directory.
pub proof fn law_reached(root: Seq<u8>, rel: Seq<char>, path: Seq<u8>)
    ensures
        reached(root, rel, Some(path)) == if within(path, root) {
            Ok::<Seq<u8>, ToolErrorView>(path)
        } else {
            Err(ToolErrorView::OutsideRoot)
        },
        reached(root, rel, None) == Err::<Seq<u8>, ToolErrorView>(
            ToolErrorView::PathUnavailable(rel),
        ),
{
}

/// A path, an error, and the lack of a path stand for just what they are.
pub proof fn law_path_views(path: Vec<u8>, error: ToolError)
    ensures
        path_view(Some(path)) == Some(path@),
        path_view(None) is None,
        path_result_view(Ok(path)) == Ok::<Seq<u8>, ToolErrorView>(path@),
        path_result_view(Err(error)) == Err::<Seq<u8>, ToolErrorView>(error@),
{
}

} // verus!
