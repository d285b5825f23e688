//! Paths: sequences of bytes, cut into components by slashes, as on Unix.

use crate::encoding::{decode_lossy, lossy};
use crate::server::Pastaless;
use crate::text::{find, forward_slashes, lemma_find, split, with_forward_slashes};
use vstd::prelude::*;
use vstd::utf8::{decode_utf8, encode_utf8, valid_utf8};

verus! {

pub const SLASH: u8 = 47;

pub const DOT: u8 = 46;

/// A path that starts at the root of the file system.
pub open spec fn absolute(p: Seq<u8>) -> bool {
    p.len() > 0 && p[0] == SLASH
}

/// A piece between slashes that names something: neither empty nor a single dot.
pub open spec fn names_something(piece: Seq<u8>) -> bool {
    piece.len() > 0 && piece != seq![DOT]
}

/// The pieces that name something, in their order.
pub open spec fn names(pieces: Seq<Seq<u8>>) -> Seq<Seq<u8>>
    decreases pieces.len(),
{
    if pieces.len() == 0 {
        seq![]
    } else if names_something(pieces.last()) {
        names(pieces.drop_last()).push(pieces.last())
    } else {
        names(pieces.drop_last())
    }
}

/// What a path starts with: the root of an absolute path, or a leading dot.
pub open spec fn start(p: Seq<u8>) -> Seq<Seq<u8>> {
    if absolute(p) {
        seq![seq![SLASH]]
    } else if split(p, SLASH)[0] == seq![DOT] {
        seq![seq![DOT]]
    } else {
        seq![]
    }
}

/// The components of a path. Repeated and trailing slashes do not count, nor does a
/// dot that is not at the start.
pub open spec fn components(p: Seq<u8>) -> Seq<Seq<u8>> {
    start(p) + names(split(p, SLASH))
}

/// The contents of a list of byte strings.
pub open spec fn contents(v: Seq<Vec<u8>>) -> Seq<Seq<u8>> {
    v.map_values(|b: Vec<u8>| b@)
}

/// The names that no component of a requested path may have.
pub open spec fn denied_name(name: Seq<u8>) -> bool {
    ||| name == encode_utf8(".env"@)
    ||| name == encode_utf8(".git"@)
    ||| name == encode_utf8("node_modules"@)
    ||| name == encode_utf8("target"@)
    ||| name == encode_utf8("dist"@)
    ||| name == encode_utf8("build"@)
    ||| name == encode_utf8(".import"@)
    ||| name == encode_utf8(".godot"@)
}

/// A path with a denied name among its components.
pub open spec fn denied(p: Seq<u8>) -> bool {
    exists|i: int| 0 <= i < components(p).len() && denied_name(#[trigger] components(p)[i])
}

/// `p` lies at or below `base`: the components of `base` are the first of `p`.
pub open spec fn within(p: Seq<u8>, base: Seq<u8>) -> bool {
    components(base).is_prefix_of(components(p))
}

/// `rel` seen from `base`.
pub open spec fn joined(base: Seq<u8>, rel: Seq<u8>) -> Seq<u8> {
    if absolute(rel) {
        rel
    } else if base.len() > 0 && base.last() != SLASH {
        base.push(SLASH) + rel
    } else {
        base + rel
    }
}

/// Names with a slash between each two of them.
pub open spec fn slashed(names: Seq<Seq<u8>>) -> Seq<u8>
    decreases names.len(),
{
    if names.len() == 0 {
        seq![]
    } else if names.len() == 1 {
        names[0]
    } else {
        slashed(names.drop_last()).push(SLASH) + names.last()
    }
}

/// The path that the components write.
pub open spec fn path_of(c: Seq<Seq<u8>>) -> Seq<u8> {
    if c.len() > 0 && c[0] == seq![SLASH] {
        seq![SLASH] + slashed(c.skip(1))
    } else {
        slashed(c)
    }
}

/// What is left of `p`, which lies within `base`, below `base`.
pub open spec fn below(p: Seq<u8>, base: Seq<u8>) -> Seq<u8> {
    path_of(components(p).skip(components(base).len() as int))
}

/// Whether two byte strings are the same.
pub fn bytes_equal(a: &[u8], b: &[u8]) -> (r: bool)
    ensures
        r == (a@ == b@),
{
    if a.len() != b.len() {
        return false;
    }
    let mut k: usize = 0;
    while k < a.len()
        invariant
            k <= a@.len() == b@.len(),
            forall|i: int| 0 <= i < k ==> a@[i] == b@[i],
        decreases a@.len() - k,
    {
        if a[k] != b[k] {
            return false;
        }
        k += 1;
    }
    assert(a@ =~= b@);
    true
}

/// A copy of the bytes from `i` up to `j`.
pub fn bytes_of(p: &[u8], i: usize, j: usize) -> (r: Vec<u8>)
    requires
        i <= j <= p@.len(),
    ensures
        r@ == p@.subrange(i as int, j as int),
{
    let mut out: Vec<u8> = Vec::new();
    let mut k: usize = i;
    while k < j
        invariant
            i <= k <= j <= p@.len(),
            out@ == p@.subrange(i as int, k as int),
        decreases j - k,
    {
        out.push(p[k]);
        k += 1;
        assert(p@.subrange(i as int, k as int) =~= p@.subrange(i as int, k - 1).push(p@[k - 1]));
    }
    out
}

fn find_slash(p: &[u8], from: usize) -> (r: usize)
    requires
        from <= p@.len(),
    ensures
        from <= r <= p@.len(),
        r == from + find(p@.skip(from as int), SLASH),
{
    let mut k: usize = from;
    while k < p.len() && p[k] != SLASH
        invariant
            from <= k <= p@.len(),
            from + find(p@.skip(from as int), SLASH) == k + find(p@.skip(k as int), SLASH),
        decreases p@.len() - k,
    {
        assert(p@.skip(k as int).skip(1) =~= p@.skip(k + 1));
        k += 1;
    }
    k
}

/// Whether the path starts at the root of the file system.
pub fn is_absolute(p: &[u8]) -> (r: bool)
    ensures
        r == absolute(p@),
{
    p.len() > 0 && p[0] == SLASH
}

/// The components of a path.
pub fn path_components(p: &[u8]) -> (r: Vec<Vec<u8>>)
    ensures
        contents(r@) == components(p@),
{
    let mut out: Vec<Vec<u8>> = Vec::new();
    let first: usize = find_slash(p, 0);
    proof {
        assert(p@.skip(0) =~= p@);
        lemma_find(p@, SLASH);
        assert(split(p@, SLASH)[0] =~= p@.take(first as int));
    }
    if is_absolute(p) {
        let mut root: Vec<u8> = Vec::new();
        root.push(SLASH);
        out.push(root);
        assert(root@ =~= seq![SLASH]);
        assert(contents(out@) =~= start(p@));
    } else if first == 1 && p[0] == DOT {
        let mut dot: Vec<u8> = Vec::new();
        dot.push(DOT);
        out.push(dot);
        assert(dot@ =~= seq![DOT]);
        assert(p@.take(first as int) =~= seq![DOT]);
        assert(contents(out@) =~= start(p@));
    } else {
        assert(p@.take(first as int) != seq![DOT]) by {
            if p@.take(first as int) == seq![DOT] {
                assert(p@.take(first as int).len() == 1);
                assert(p@.take(first as int)[0] == DOT);
            }
        }
        assert(contents(out@) =~= start(p@));
    }
    let mut pos: usize = 0;
    let ghost mut done: Seq<Seq<u8>> = seq![];
    assert(names(done) =~= seq![]);
    assert(contents(out@) =~= start(p@) + names(done));
    assert(done + split(p@.skip(0), SLASH) =~= split(p@, SLASH));
    loop
        invariant_except_break
            pos <= p@.len(),
            split(p@, SLASH) == done + split(p@.skip(pos as int), SLASH),
        invariant
            contents(out@) == start(p@) + names(done),
        ensures
            split(p@, SLASH) == done,
        decreases p@.len() - pos,
    {
        let end: usize = find_slash(p, pos);
        let ghost rest = p@.skip(pos as int);
        let ghost piece = p@.subrange(pos as int, end as int);
        let ghost before = out@;
        proof {
            lemma_find(rest, SLASH);
            assert(rest.take(end - pos) =~= piece);
            assert(done.push(piece).drop_last() =~= done);
        }
        if end > pos && !(end == pos + 1 && p[pos] == DOT) {
            assert(names_something(piece)) by {
                if piece == seq![DOT] {
                    assert(piece.len() == 1 && piece[0] == DOT);
                }
            }
            let name = bytes_of(p, pos, end);
            out.push(name);
            assert(contents(out@) =~= contents(before).push(piece));
            assert(start(p@) + names(done).push(piece) =~= (start(p@) + names(done)).push(piece));
        } else {
            assert(!names_something(piece)) by {
                if end > pos {
                    assert(piece =~= seq![DOT]);
                }
            }
        }
        if end < p.len() {
            assert(rest.skip(end - pos + 1) =~= p@.skip(end + 1));
            assert(done + (seq![piece] + split(p@.skip(end + 1), SLASH)) =~= done.push(piece)
                + split(p@.skip(end + 1), SLASH));
            proof {
                done = done.push(piece);
            }
            pos = end + 1;
        } else {
            assert(rest =~= piece);
            assert(done + seq![piece] =~= done.push(piece));
            proof {
                done = done.push(piece);
            }
            break;
        }
    }
    out
}

fn is_denied_name(name: &[u8]) -> (r: bool)
    ensures
        r == denied_name(name@),
{
    bytes_equal(name, ".env".as_bytes()) || bytes_equal(name, ".git".as_bytes()) || bytes_equal(
        name,
        "node_modules".as_bytes(),
    ) || bytes_equal(name, "target".as_bytes()) || bytes_equal(name, "dist".as_bytes())
        || bytes_equal(name, "build".as_bytes()) || bytes_equal(name, ".import".as_bytes())
        || bytes_equal(name, ".godot".as_bytes())
}

impl Pastaless {
    /// Whether a denied name is among the components of the path.
    pub fn is_denied_path(path: &[u8]) -> (r: bool)
        ensures
            r == denied(path@),
    {
        let parts = path_components(path);
        let mut k: usize = 0;
        while k < parts.len()
            invariant
                k <= parts@.len(),
                contents(parts@) == components(path@),
                forall|i: int| 0 <= i < k ==> !denied_name(#[trigger] components(path@)[i]),
            decreases parts@.len() - k,
        {
            assert(contents(parts@)[k as int] == parts@[k as int]@);
            if is_denied_name(parts[k].as_slice()) {
                return true;
            }
            k += 1;
        }
        assert(contents(parts@).len() == parts@.len());
        false
    }

    /// The path as text, with slashes in place of backslashes.
    pub fn normalize_relative(path: &[u8]) -> (r: String)
        ensures
            r@ == forward_slashes(lossy(path@)),
            valid_utf8(path@) ==> r@ == forward_slashes(decode_utf8(path@)),
    {
        let text = decode_lossy(path);
        with_forward_slashes(text.as_str())
    }
}

/// Whether the components of `base` are the first of `p`.
pub fn is_within(p: &[u8], base: &[u8]) -> (r: bool)
    ensures
        r == within(p@, base@),
{
    let a = path_components(p);
    let b = path_components(base);
    proof {
        assert(contents(a@).len() == a@.len());
        assert(contents(b@).len() == b@.len());
    }
    if b.len() > a.len() {
        return false;
    }
    let mut k: usize = 0;
    while k < b.len()
        invariant
            k <= b@.len() <= a@.len(),
            contents(a@) == components(p@),
            contents(b@) == components(base@),
            forall|i: int| 0 <= i < k ==> components(p@)[i] == components(base@)[i],
        decreases b@.len() - k,
    {
        assert(contents(a@)[k as int] == a@[k as int]@);
        assert(contents(b@)[k as int] == b@[k as int]@);
        if !bytes_equal(a[k].as_slice(), b[k].as_slice()) {
            return false;
        }
        k += 1;
    }
    assert(components(p@).subrange(0, components(base@).len() as int) =~= components(base@));
    true
}

/// The path `rel` seen from `base`.
pub fn join(base: &[u8], rel: &[u8]) -> (r: Vec<u8>)
    ensures
        r@ == joined(base@, rel@),
{
    let mut out: Vec<u8> = Vec::new();
    if !is_absolute(rel) {
        out = bytes_of(base, 0, base.len());
        assert(out@ =~= base@);
        if out.len() > 0 && out[out.len() - 1] != SLASH {
            out.push(SLASH);
        }
    }
    append_bytes(&mut out, rel);
    assert(out@ =~= joined(base@, rel@));
    out
}

fn append_bytes(out: &mut Vec<u8>, more: &[u8])
    ensures
        final(out)@ == old(out)@ + more@,
{
    let ghost before = out@;
    let mut k: usize = 0;
    assert(before + more@.take(0) =~= before);
    while k < more.len()
        invariant
            k <= more@.len(),
            out@ == before + more@.take(k as int),
        decreases more@.len() - k,
    {
        out.push(more[k]);
        k += 1;
        assert(before + more@.take(k as int) =~= (before + more@.take(k - 1)).push(more@[k - 1]));
    }
    assert(more@.take(k as int) =~= more@);
}

/// The path that the components from position `from` on write.
fn write_path(parts: &Vec<Vec<u8>>, from: usize) -> (r: Vec<u8>)
    requires
        from <= parts@.len(),
    ensures
        r@ == path_of(contents(parts@).skip(from as int)),
{
    let ghost c = contents(parts@);
    let ghost tail = c.skip(from as int);
    let mut out: Vec<u8> = Vec::new();
    let mut first: usize = from;
    if from < parts.len() {
        assert(tail[0] == parts@[from as int]@);
        if parts[from].len() == 1 && parts[from][0] == SLASH {
            assert(tail[0] =~= seq![SLASH]);
            out.push(SLASH);
            first = from + 1;
            assert(tail.skip(1) =~= c.skip(first as int));
        } else {
            assert(tail[0] != seq![SLASH]) by {
                if tail[0] == seq![SLASH] {
                    assert(tail[0].len() == 1 && tail[0][0] == SLASH);
                }
            }
        }
    }
    let ghost before = out@;
    assert(path_of(tail) =~= before + slashed(c.skip(first as int)));
    let mut k: usize = first;
    assert(c.subrange(first as int, first as int) =~= seq![]);
    assert(before + slashed(seq![]) =~= before);
    while k < parts.len()
        invariant
            first <= k <= parts@.len(),
            c == contents(parts@),
            out@ == before + slashed(c.subrange(first as int, k as int)),
        decreases parts@.len() - k,
    {
        let ghost so_far = c.subrange(first as int, k as int);
        let ghost next = c.subrange(first as int, k + 1);
        assert(next.drop_last() =~= so_far);
        assert(next.last() == parts@[k as int]@);
        if k > first {
            out.push(SLASH);
        } else {
            assert(so_far =~= seq![]);
            assert(next =~= seq![parts@[k as int]@]);
        }
        append_bytes(&mut out, parts[k].as_slice());
        assert(out@ =~= before + slashed(next));
        k += 1;
    }
    assert(c.subrange(first as int, k as int) =~= c.skip(first as int));
    out
}

/// What is left of `p` below `base`, where `p` lies within `base`.
pub fn strip_prefix(p: &[u8], base: &[u8]) -> (r: Option<Vec<u8>>)
    ensures
        r is Some <==> within(p@, base@),
        r matches Some(rest) ==> rest@ == below(p@, base@),
{
    if !is_within(p, base) {
        return None;
    }
    let a = path_components(p);
    let b = path_components(base);
    proof {
        assert(contents(a@).len() == a@.len());
        assert(contents(b@).len() == b@.len());
    }
    Some(write_path(&a, b.len()))
}

} // verus!
