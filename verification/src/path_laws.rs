//! What holds of paths.

use crate::encoding::lemma_encode_concat;
use crate::path::{
    absolute, below, components, contents, denied, denied_name, joined, names, names_something,
    path_of, slashed, start, within, DOT, SLASH,
};
use crate::text::{find, lemma_find, lemma_split_concat, lemma_split_pieces, split};
use vstd::prelude::*;
use vstd::utf8::{
    encode_scalar, encode_utf8, encode_utf8_decode_utf8, is_ascii_chars_encode_utf8,
};

verus! {

proof fn lemma_names_concat(a: Seq<Seq<u8>>, b: Seq<Seq<u8>>)
    ensures
        names(a + b) == names(a) + names(b),
    decreases b.len(),
{
    if b.len() == 0 {
        assert(a + b =~= a);
        assert(names(a) + names(b) =~= names(a));
    } else {
        lemma_names_concat(a, b.drop_last());
        assert((a + b).drop_last() =~= a + b.drop_last());
        assert((a + b).last() == b.last());
        if names_something(b.last()) {
            assert((names(a) + names(b.drop_last())).push(b.last()) =~= names(a) + names(
                b.drop_last(),
            ).push(b.last()));
        }
    }
}

/// What is among the names: each piece that names something, and nothing else.
proof fn lemma_names(pieces: Seq<Seq<u8>>)
    ensures
        forall|i: int|
            0 <= i < names(pieces).len() ==> pieces.contains(#[trigger] names(pieces)[i])
                && names_something(names(pieces)[i]),
        forall|i: int|
            0 <= i < pieces.len() && names_something(#[trigger] pieces[i]) ==> names(
                pieces,
            ).contains(pieces[i]),
    decreases pieces.len(),
{
    if pieces.len() > 0 {
        let front = pieces.drop_last();
        lemma_names(front);
        assert forall|i: int| 0 <= i < names(pieces).len() implies pieces.contains(
            #[trigger] names(pieces)[i],
        ) && names_something(names(pieces)[i]) by {
            if i < names(front).len() {
                assert(names(pieces)[i] == names(front)[i]);
                let k = choose|k: int| 0 <= k < front.len() && front[k] == names(front)[i];
                assert(pieces[k] == names(front)[i]);
            } else {
                assert(pieces[pieces.len() - 1] == names(pieces)[i]);
            }
        }
        assert forall|i: int|
            0 <= i < pieces.len() && names_something(#[trigger] pieces[i]) implies names(
            pieces,
        ).contains(pieces[i]) by {
            if i < front.len() {
                assert(front[i] == pieces[i]);
                let k = choose|k: int|
                    0 <= k < names(front).len() && names(front)[k] == front[i];
                assert(names(pieces)[k] == pieces[i]);
            } else {
                assert(names(pieces)[names(pieces).len() - 1] == pieces[i]);
            }
        }
    }
}

/// The components of a relative path seen from `base` are those of `base`, then the
/// names in the relative path.
pub proof fn law_join_components(base: Seq<u8>, rel: Seq<u8>)
    requires
        base.len() > 0,
        !absolute(rel),
    ensures
        components(joined(base, rel)) == components(base) + names(split(rel, SLASH)),
{
    let whole = joined(base, rel);
    lemma_split_pieces(base, SLASH);
    if base.last() != SLASH {
        lemma_split_concat(base, rel, SLASH);
        assert(split(whole, SLASH) == split(base, SLASH) + split(rel, SLASH));
    } else {
        let front = base.drop_last();
        assert(base =~= front.push(SLASH) + seq![]);
        assert(whole =~= front.push(SLASH) + rel);
        lemma_split_concat(front, seq![], SLASH);
        lemma_split_concat(front, rel, SLASH);
        lemma_split_pieces(front, SLASH);
        let nothing: Seq<u8> = seq![];
        lemma_find(nothing, SLASH);
        assert(split(nothing, SLASH) =~= seq![nothing]);
        lemma_names_concat(split(front, SLASH), seq![nothing]);
        assert(names(seq![nothing]) =~= seq![]) by {
            reveal_with_fuel(names, 2);
        }
        assert(names(split(base, SLASH)) =~= names(split(front, SLASH)));
        lemma_names_concat(split(front, SLASH), split(rel, SLASH));
        assert(split(whole, SLASH)[0] == split(base, SLASH)[0]);
    }
    lemma_names_concat(split(base, SLASH), split(rel, SLASH));
    assert(whole[0] == base[0]);
    assert(start(whole) == start(base));
    assert(components(whole) =~= components(base) + names(split(rel, SLASH)));
}

/// Each denied name is longer than one byte, and holds no slash.
proof fn lemma_denied_names()
    ensures
        forall|n: Seq<u8>| #[trigger] denied_name(n) ==> n.len() > 1 && !n.contains(SLASH),
{
    reveal_strlit(".env");
    reveal_strlit(".git");
    reveal_strlit("node_modules");
    reveal_strlit("target");
    reveal_strlit("dist");
    reveal_strlit("build");
    reveal_strlit(".import");
    reveal_strlit(".godot");
    is_ascii_chars_encode_utf8(".env"@);
    is_ascii_chars_encode_utf8(".git"@);
    is_ascii_chars_encode_utf8("node_modules"@);
    is_ascii_chars_encode_utf8("target"@);
    is_ascii_chars_encode_utf8("dist"@);
    is_ascii_chars_encode_utf8("build"@);
    is_ascii_chars_encode_utf8(".import"@);
    is_ascii_chars_encode_utf8(".godot"@);
}

/// A path has a denied name among its components just where one of the pieces between
/// its slashes is a denied name.
pub proof fn law_denied_by_pieces(p: Seq<u8>)
    ensures
        denied(p) <==> exists|i: int|
            0 <= i < split(p, SLASH).len() && denied_name(#[trigger] split(p, SLASH)[i]),
{
    let pieces = split(p, SLASH);
    let c = components(p);
    lemma_names(pieces);
    lemma_denied_names();
    if denied(p) {
        let i = choose|i: int| 0 <= i < c.len() && denied_name(#[trigger] c[i]);
        if i < start(p).len() {
            assert(c[i] == start(p)[i]);
            assert(c[i] == seq![SLASH] || c[i] == seq![DOT]);
            assert(c[i].len() == 1);
        } else {
            assert(c[i] == names(pieces)[i - start(p).len()]);
            assert(pieces.contains(c[i]));
            let k = choose|k: int| 0 <= k < pieces.len() && pieces[k] == c[i];
            assert(denied_name(pieces[k]));
        }
    }
    if exists|i: int| 0 <= i < pieces.len() && denied_name(#[trigger] pieces[i]) {
        let i = choose|i: int| 0 <= i < pieces.len() && denied_name(#[trigger] pieces[i]);
        assert(names_something(pieces[i])) by {
            assert(pieces[i].len() > 1);
            assert(seq![DOT].len() == 1);
        }
        let k = choose|k: int| 0 <= k < names(pieces).len() && names(pieces)[k] == pieces[i];
        assert(c[start(p).len() + k] == pieces[i]);
    }
}

/// A relative path seen from `base` is denied where `base` is, or where the relative
/// path itself is.
pub proof fn law_denied_join(base: Seq<u8>, rel: Seq<u8>)
    requires
        !absolute(rel),
    ensures
        denied(joined(base, rel)) <==> denied(base) || denied(rel),
{
    law_denied_by_pieces(joined(base, rel));
    law_denied_by_pieces(base);
    law_denied_by_pieces(rel);
    lemma_denied_names();
    let whole = split(joined(base, rel), SLASH);
    let b = split(base, SLASH);
    let r = split(rel, SLASH);
    if base.len() == 0 {
        assert(joined(base, rel) =~= rel);
        assert(b =~= seq![base]);
        assert(!denied(base));
    } else if base.last() != SLASH {
        lemma_split_concat(base, rel, SLASH);
        lemma_some_denied_concat(b, r);
    } else {
        let front = base.drop_last();
        let f = split(front, SLASH);
        assert(base =~= front.push(SLASH) + seq![]);
        assert(joined(base, rel) =~= front.push(SLASH) + rel);
        lemma_split_concat(front, seq![], SLASH);
        lemma_split_concat(front, rel, SLASH);
        let nothing: Seq<u8> = seq![];
        assert(split(nothing, SLASH) =~= seq![nothing]);
        lemma_some_denied_concat(f, r);
        lemma_some_denied_concat(f, seq![nothing]);
    }
}

spec fn some_denied(pieces: Seq<Seq<u8>>) -> bool {
    exists|i: int| 0 <= i < pieces.len() && denied_name(#[trigger] pieces[i])
}

proof fn lemma_some_denied_concat(a: Seq<Seq<u8>>, b: Seq<Seq<u8>>)
    ensures
        some_denied(a + b) <==> some_denied(a) || some_denied(b),
{
    if some_denied(a + b) {
        let i = choose|i: int| 0 <= i < (a + b).len() && denied_name(#[trigger] (a + b)[i]);
        if i < a.len() {
            assert(denied_name(a[i]));
        } else {
            assert(denied_name(b[i - a.len()]));
        }
    }
    if some_denied(a) {
        let i = choose|i: int| 0 <= i < a.len() && denied_name(#[trigger] a[i]);
        assert(denied_name((a + b)[i]));
    }
    if some_denied(b) {
        let i = choose|i: int| 0 <= i < b.len() && denied_name(#[trigger] b[i]);
        assert(denied_name((a + b)[a.len() + i]));
    }
}

/// A relative path seen from `base` lies within `base`.
pub proof fn law_join_within(base: Seq<u8>, rel: Seq<u8>)
    requires
        base.len() > 0,
        !absolute(rel),
    ensures
        within(joined(base, rel), base),
{
    law_join_components(base, rel);
    assert((components(base) + names(split(rel, SLASH))).subrange(
        0,
        components(base).len() as int,
    ) =~= components(base));
}

/// An absolute path as its components write it: no repeated or trailing slash and no
/// dot.
pub open spec fn canonical(p: Seq<u8>) -> bool {
    absolute(p) && path_of(components(p)) == p
}

proof fn lemma_slashed_concat(a: Seq<Seq<u8>>, b: Seq<Seq<u8>>)
    requires
        a.len() > 0,
        b.len() > 0,
    ensures
        slashed(a + b) == slashed(a).push(SLASH) + slashed(b),
    decreases b.len(),
{
    let whole = a + b;
    assert(whole.last() == b.last());
    assert(whole.drop_last() =~= a + b.drop_last());
    if b.len() == 1 {
        assert(a + b.drop_last() =~= a);
    } else {
        lemma_slashed_concat(a, b.drop_last());
        assert(slashed(whole) =~= slashed(a).push(SLASH) + slashed(b));
    }
}

/// The first and the last byte of names with slashes between them are no slashes.
proof fn lemma_slashed_ends(n: Seq<Seq<u8>>)
    requires
        n.len() > 0,
        proper(n),
    ensures
        slashed(n).len() > 0,
        slashed(n)[0] != SLASH,
        slashed(n).last() != SLASH,
    decreases n.len(),
{
    assert(names_something(n.last()) && !n.last().contains(SLASH));
    assert(n.last()[0] != SLASH);
    assert(n.last().last() != SLASH);
    if n.len() > 1 {
        assert forall|i: int| 0 <= i < n.drop_last().len() implies names_something(
            #[trigger] n.drop_last()[i],
        ) && !n.drop_last()[i].contains(SLASH) by {
            assert(n.drop_last()[i] == n[i]);
        }
        lemma_slashed_ends(n.drop_last());
        let s = slashed(n.drop_last()).push(SLASH) + n.last();
        assert(s[0] == slashed(n.drop_last())[0]);
        assert(s.last() == n.last().last());
    }
}

/// Names that can stand between slashes.
spec fn proper(n: Seq<Seq<u8>>) -> bool {
    forall|i: int| 0 <= i < n.len() ==> names_something(#[trigger] n[i]) && !n[i].contains(SLASH)
}

proof fn lemma_names_are_proper(p: Seq<u8>)
    ensures
        proper(names(split(p, SLASH))),
{
    let n = names(split(p, SLASH));
    lemma_names(split(p, SLASH));
    lemma_split_pieces(p, SLASH);
    assert forall|i: int| 0 <= i < n.len() implies names_something(#[trigger] n[i])
        && !n[i].contains(SLASH) by {
        assert(split(p, SLASH).contains(n[i]));
    }
}

proof fn lemma_join_slashed(above: Seq<Seq<u8>>, rest: Seq<Seq<u8>>)
    requires
        proper(above),
        proper(rest),
        rest.len() > 0,
    ensures
        joined(seq![SLASH] + slashed(above), slashed(rest)) == seq![SLASH] + slashed(above + rest),
{
    let base = seq![SLASH] + slashed(above);
    lemma_slashed_ends(rest);
    if above.len() == 0 {
        assert(above + rest =~= rest);
        assert(base =~= seq![SLASH]);
    } else {
        lemma_slashed_ends(above);
        lemma_slashed_concat(above, rest);
        assert(base.last() == slashed(above).last());
    }
    assert(joined(base, slashed(rest)) =~= seq![SLASH] + slashed(above + rest));
}

/// What is left of a canonical path below a canonical directory, seen from that
/// directory, is the path again.
pub proof fn law_below_then_join(p: Seq<u8>, base: Seq<u8>)
    requires
        canonical(p),
        canonical(base),
        within(p, base),
        p != base,
    ensures
        joined(base, below(p, base)) == p,
{
    let np = names(split(p, SLASH));
    let nb = names(split(base, SLASH));
    let rest = components(p).skip(components(base).len() as int);
    lemma_names_are_proper(p);
    lemma_names_are_proper(base);
    assert(components(p).skip(1) =~= np);
    assert(components(base).skip(1) =~= nb);
    assert(components(p) =~= components(base) + rest);
    assert(np =~= nb + rest);
    assert(proper(rest)) by {
        assert forall|i: int| 0 <= i < rest.len() implies names_something(#[trigger] rest[i])
            && !rest[i].contains(SLASH) by {
            assert(rest[i] == np[nb.len() + i]);
        }
    }
    if rest.len() == 0 {
        assert(np =~= nb);
    } else {
        assert(rest[0] != seq![SLASH]) by {
            assert(names_something(rest[0]) && !rest[0].contains(SLASH));
            assert(rest[0][0] != SLASH);
        }
        lemma_join_slashed(nb, rest);
    }
}

/// A denied name, taken as a path, is denied, from wherever it is seen.
pub proof fn law_denied_name_is_denied(base: Seq<u8>, name: Seq<u8>)
    requires
        denied_name(name),
    ensures
        denied(joined(base, name)),
{
    lemma_denied_names();
    assert(!absolute(name));
    lemma_find(name, SLASH);
    assert(split(name, SLASH)[0] == name);
    law_denied_by_pieces(name);
    law_denied_join(base, name);
}

/// A text whose bytes are a denied name is plain: it holds no replacement character.
pub proof fn lemma_denied_text_is_plain(name: Seq<char>)
    requires
        denied_name(encode_utf8(name)),
    ensures
        !name.contains('\u{fffd}'),
{
    reveal_strlit(".env");
    reveal_strlit(".git");
    reveal_strlit("node_modules");
    reveal_strlit("target");
    reveal_strlit("dist");
    reveal_strlit("build");
    reveal_strlit(".import");
    reveal_strlit(".godot");
    encode_utf8_decode_utf8(name);
    encode_utf8_decode_utf8(".env"@);
    encode_utf8_decode_utf8(".git"@);
    encode_utf8_decode_utf8("node_modules"@);
    encode_utf8_decode_utf8("target"@);
    encode_utf8_decode_utf8("dist"@);
    encode_utf8_decode_utf8("build"@);
    encode_utf8_decode_utf8(".import"@);
    encode_utf8_decode_utf8(".godot"@);
}

/// In UTF-8 the byte of a slash stands for a slash, and for nothing else.
proof fn lemma_slash_in_utf8(c: char)
    ensures
        c == '/' ==> encode_scalar(c as u32) == seq![SLASH],
        c != '/' ==> !encode_scalar(c as u32).contains(SLASH),
        encode_scalar(c as u32).len() > 0,
{
    let v = c as u32;
    assert(forall|x: u8| #[trigger] (0x80u8 | x) >= 0x80u8) by (bit_vector);
    assert(forall|x: u8| #[trigger] (0xC0u8 | x) >= 0xC0u8) by (bit_vector);
    assert(forall|x: u8| #[trigger] (0xE0u8 | x) >= 0xE0u8) by (bit_vector);
    assert(forall|x: u8| #[trigger] (0xF0u8 | x) >= 0xF0u8) by (bit_vector);
    assert(v <= 0x7F ==> (v & 0x7F) as u8 == v) by (bit_vector);
    if c == '/' {
        assert(encode_scalar(v) =~= seq![SLASH]);
    }
}

proof fn lemma_find_in_utf8(s: Seq<char>)
    ensures
        find(encode_utf8(s), SLASH) == encode_utf8(s.take(find(s, '/'))).len(),
        find(encode_utf8(s), SLASH) < encode_utf8(s).len() <==> find(s, '/') < s.len(),
    decreases s.len(),
{
    lemma_find(s, '/');
    if s.len() == 0 {
        assert(s.take(0) =~= s);
    } else {
        let first = encode_scalar(s[0] as u32);
        let rest = s.drop_first();
        let bytes = encode_utf8(s);
        lemma_slash_in_utf8(s[0]);
        assert(bytes == first + encode_utf8(rest));
        assert(s.skip(1) =~= rest);
        if s[0] == '/' {
            assert(bytes[0] == SLASH);
            assert(s.take(0) =~= seq![]);
        } else {
            lemma_find_in_utf8(rest);
            lemma_find(rest, '/');
            lemma_find(bytes, SLASH);
            lemma_find(encode_utf8(rest), SLASH);
            let n = find(rest, '/');
            assert(find(s, '/') == 1 + n);
            assert(s.take(1 + n).drop_first() =~= rest.take(n));
            let m = find(bytes, SLASH);
            let k = find(encode_utf8(rest), SLASH);
            assert(m == first.len() + k) by {
                if m < first.len() {
                    assert(first[m] == bytes[m]);
                } else if m < first.len() + k {
                    assert(encode_utf8(rest)[m - first.len()] == bytes[m]);
                } else if m > first.len() + k {
                    assert(bytes[first.len() + k] == encode_utf8(rest)[k]);
                }
            }
        }
    }
}

/// Each piece of a text, in UTF-8.
pub open spec fn encoded(pieces: Seq<Seq<char>>) -> Seq<Seq<u8>> {
    pieces.map_values(|p: Seq<char>| encode_utf8(p))
}

proof fn lemma_split_utf8(s: Seq<char>)
    ensures
        split(encode_utf8(s), SLASH) == encoded(split(s, '/')),
    decreases s.len(),
{
    let bytes = encode_utf8(s);
    let n = find(s, '/');
    lemma_find(s, '/');
    lemma_find_in_utf8(s);
    if n < s.len() {
        let rest = s.skip(n + 1);
        lemma_split_utf8(rest);
        assert(s =~= s.take(n) + (seq!['/'] + rest));
        lemma_encode_concat(s.take(n), seq!['/'] + rest);
        lemma_slash_in_utf8('/');
        assert((seq!['/'] + rest).drop_first() =~= rest);
        assert(encode_utf8(seq!['/'] + rest) == seq![SLASH] + encode_utf8(rest));
        let m = find(bytes, SLASH);
        assert(bytes.take(m) =~= encode_utf8(s.take(n)));
        assert(bytes.skip(m + 1) =~= encode_utf8(rest));
        assert(encoded(split(s, '/')) =~= seq![encode_utf8(s.take(n))] + encoded(split(rest, '/')));
    } else {
        assert(s.take(n) =~= s);
        assert(encoded(split(s, '/')) =~= seq![bytes]);
    }
}

/// The denied names as text.
pub open spec fn denied_text(name: Seq<char>) -> bool {
    ||| name == ".env"@
    ||| name == ".git"@
    ||| name == "node_modules"@
    ||| name == "target"@
    ||| name == "dist"@
    ||| name == "build"@
    ||| name == ".import"@
    ||| name == ".godot"@
}

/// A path that is text is denied just where one of the pieces between its slashes is a
/// denied name.
pub proof fn law_denied_as_text(s: Seq<char>)
    ensures
        denied(encode_utf8(s)) <==> exists|i: int|
            0 <= i < split(s, '/').len() && denied_text(#[trigger] split(s, '/')[i]),
{
    let pieces = split(s, '/');
    let bytes = split(encode_utf8(s), SLASH);
    lemma_split_utf8(s);
    law_denied_by_pieces(encode_utf8(s));
    assert forall|i: int| 0 <= i < pieces.len() implies denied_name(#[trigger] bytes[i])
        == denied_text(pieces[i]) by {
        assert(bytes[i] == encode_utf8(pieces[i]));
        encode_utf8_decode_utf8(pieces[i]);
        encode_utf8_decode_utf8(".env"@);
        encode_utf8_decode_utf8(".git"@);
        encode_utf8_decode_utf8("node_modules"@);
        encode_utf8_decode_utf8("target"@);
        encode_utf8_decode_utf8("dist"@);
        encode_utf8_decode_utf8("build"@);
        encode_utf8_decode_utf8(".import"@);
        encode_utf8_decode_utf8(".godot"@);
    }
    if denied(encode_utf8(s)) {
        let i = choose|i: int| 0 <= i < bytes.len() && denied_name(#[trigger] bytes[i]);
        assert(denied_text(pieces[i]));
    }
    if exists|i: int| 0 <= i < pieces.len() && denied_text(#[trigger] pieces[i]) {
        let i = choose|i: int| 0 <= i < pieces.len() && denied_text(#[trigger] pieces[i]);
        assert(denied_name(bytes[i]));
    }
}

/// A text is an absolute path just where it starts with a slash.
pub proof fn law_absolute_as_text(s: Seq<char>)
    ensures
        absolute(encode_utf8(s)) <==> s.len() > 0 && s[0] == '/',
{
    if s.len() > 0 {
        lemma_slash_in_utf8(s[0]);
        let first = encode_scalar(s[0] as u32);
        assert(encode_utf8(s)[0] == first[0]);
        assert(first.contains(first[0]));
    }
}

/// The denied names are eight texts, as text and in UTF-8.
pub proof fn law_denied_name(name: Seq<u8>, text: Seq<char>)
    ensures
        denied_name(name) <==> {
            ||| name == encode_utf8(".env"@)
            ||| name == encode_utf8(".git"@)
            ||| name == encode_utf8("node_modules"@)
            ||| name == encode_utf8("target"@)
            ||| name == encode_utf8("dist"@)
            ||| name == encode_utf8("build"@)
            ||| name == encode_utf8(".import"@)
            ||| name == encode_utf8(".godot"@)
        },
        denied_text(text) <==> {
            ||| text == ".env"@
            ||| text == ".git"@
            ||| text == "node_modules"@
            ||| text == "target"@
            ||| text == "dist"@
            ||| text == "build"@
            ||| text == ".import"@
            ||| text == ".godot"@
        },
{
}

proof fn lemma_names_filter(pieces: Seq<Seq<u8>>, kept: spec_fn(Seq<u8>) -> bool)
    requires
        forall|piece: Seq<u8>| #[trigger]
            kept(piece) <==> piece.len() > 0 && piece != seq![46u8],
    ensures
        names(pieces) == pieces.filter(kept),
    decreases pieces.len(),
{
    reveal(Seq::filter);
    if pieces.len() > 0 {
        lemma_names_filter(pieces.drop_last(), kept);
    }
}

/// The names in a path are the pieces between its slashes but the empty ones and the
/// single dots, in their order.
pub proof fn law_names(pieces: Seq<Seq<u8>>)
    ensures
        names(pieces) == pieces.filter(
            |piece: Seq<u8>| piece.len() > 0 && piece != seq![46u8],
        ),
{
    lemma_names_filter(pieces, |piece: Seq<u8>| piece.len() > 0 && piece != seq![46u8]);
}

/// The components of a path are the names in it; before them stands a slash where the
/// path starts with one, and a dot where it is a dot or starts with a dot and a slash.
pub proof fn law_components(p: Seq<u8>)
    ensures
        ({
            let rooted = p.len() > 0 && p[0] == 47;
            let here = p == seq![46u8] || (p.len() > 1 && p[0] == 46 && p[1] == 47);
            let first: Seq<Seq<u8>> = if rooted {
                seq![seq![47u8]]
            } else if here {
                seq![seq![46u8]]
            } else {
                seq![]
            };
            components(p) == first + split(p, 47).filter(
                |piece: Seq<u8>| piece.len() > 0 && piece != seq![46u8],
            )
        }),
{
    let piece = split(p, SLASH)[0];
    let n = find(p, SLASH);
    lemma_find(p, SLASH);
    law_names(split(p, SLASH));
    assert(p.take(p.len() as int) =~= p);
    assert(piece == p.take(n));
    if !absolute(p) {
        if p == seq![46u8] {
            assert(p.len() == 1 && p[0] == 46);
            assert(n == 1);
        } else if p.len() > 1 && p[0] == 46 && p[1] == 47 {
            assert(n == 1);
            assert(piece =~= seq![DOT]);
        } else if piece == seq![DOT] {
            assert(piece.len() == 1 && piece[0] == DOT);
            assert(n == 1);
            if p.len() == 1 {
                assert(p =~= seq![46u8]);
            }
        }
    }
}

/// A path lies within another just where its components are those of the other, and
/// whatever follows.
pub proof fn law_within(p: Seq<u8>, base: Seq<u8>)
    ensures
        within(p, base) <==> exists|rest: Seq<Seq<u8>>|
            components(p) == #[trigger] (components(base) + rest),
{
    let c = components(p);
    let b = components(base);
    if within(p, base) {
        assert(c =~= b + c.skip(b.len() as int));
    }
    assert forall|rest: Seq<Seq<u8>>| c == #[trigger] (b + rest) implies within(p, base) by {
        assert(c.subrange(0, b.len() as int) =~= b);
    }
}

/// A path that starts with a slash stays as it is, seen from wherever; any other stands
/// behind the path that it is seen from, with one slash between them.
pub proof fn law_joined(base: Seq<u8>, rel: Seq<u8>)
    ensures
        rel.len() > 0 && rel[0] == 47 ==> joined(base, rel) == rel,
        !(rel.len() > 0 && rel[0] == 47) ==> joined(base, rel) == base + (if base.len() > 0
            && base.last() != 47 {
            seq![47u8]
        } else {
            seq![]
        }) + rel,
{
    if !absolute(rel) {
        assert(joined(base, rel) =~= base + (if base.len() > 0 && base.last() != 47 {
            seq![47u8]
        } else {
            seq![]
        }) + rel);
    }
}

/// Each piece names something.
pub open spec fn all_named(pieces: Seq<Seq<u8>>) -> bool {
    forall|i: int|
        0 <= i < pieces.len() ==> (#[trigger] pieces[i]).len() > 0 && pieces[i] != seq![46u8]
}

proof fn lemma_all_named(pieces: Seq<Seq<u8>>)
    requires
        all_named(pieces),
    ensures
        names(pieces) == pieces,
    decreases pieces.len(),
{
    if pieces.len() > 0 {
        let front = pieces.drop_last();
        assert forall|i: int| 0 <= i < front.len() implies (#[trigger] front[i]).len() > 0
            && front[i] != seq![46u8] by {
            assert(front[i] == pieces[i]);
        }
        lemma_all_named(front);
        assert(pieces[pieces.len() - 1].len() > 0);
        assert(front.push(pieces.last()) =~= pieces);
    } else {
        assert(names(pieces) =~= pieces);
    }
}

proof fn lemma_slashed_split(p: Seq<u8>)
    ensures
        slashed(split(p, SLASH)) == p,
    decreases p.len(),
{
    let n = find(p, SLASH);
    lemma_find(p, SLASH);
    if n < p.len() {
        let rest = p.skip(n + 1);
        lemma_slashed_split(rest);
        lemma_split_pieces(rest, SLASH);
        lemma_slashed_concat(seq![p.take(n)], split(rest, SLASH));
        assert(slashed(seq![p.take(n)]) == p.take(n));
        assert(p =~= p.take(n).push(SLASH) + rest);
    }
}

/// A relative path without empty pieces and single dots is what is left, below a
/// directory, of that path seen from the directory. Of the directory itself nothing is
/// left.
pub proof fn law_join_then_below(base: Seq<u8>, rel: Seq<u8>)
    requires
        base.len() > 0,
        all_named(split(rel, SLASH)),
    ensures
        within(joined(base, rel), base),
        below(joined(base, rel), base) == rel,
        within(base, base),
        below(base, base) == Seq::<u8>::empty(),
{
    let pieces = split(rel, SLASH);
    let c = components(base);
    lemma_split_pieces(rel, SLASH);
    lemma_find(rel, SLASH);
    assert(pieces[0].len() > 0);
    assert(!absolute(rel)) by {
        if absolute(rel) {
            assert(find(rel, SLASH) == 0);
            assert(pieces[0] == rel.take(0));
        }
    }
    lemma_all_named(pieces);
    law_join_components(base, rel);
    law_join_within(base, rel);
    assert(components(joined(base, rel)).skip(c.len() as int) =~= pieces);
    assert(pieces[0] != seq![SLASH]) by {
        if pieces[0] == seq![SLASH] {
            assert(pieces[0][0] == SLASH);
            assert(pieces[0].contains(SLASH));
        }
    }
    lemma_slashed_split(rel);
    assert(c.subrange(0, c.len() as int) =~= c);
    assert(c.skip(c.len() as int) =~= seq![]);
}

/// A path from the root of the file system, without repeated and trailing slashes and
/// without single dots.
pub open spec fn plain(p: Seq<u8>) -> bool {
    ||| p == seq![47u8]
    ||| p.len() > 0 && p[0] == 47 && all_named(split(p.skip(1), 47))
}

proof fn lemma_plain(p: Seq<u8>)
    requires
        plain(p),
    ensures
        canonical(p),
        components(p) == seq![seq![SLASH]] + names(split(p, SLASH)),
        p == seq![SLASH] + slashed(names(split(p, SLASH))),
{
    let rest = p.skip(1);
    let nothing: Seq<u8> = seq![];
    assert(p[0] == SLASH);
    assert(find(p, SLASH) == 0);
    assert(p.take(0) =~= nothing);
    assert(split(p, SLASH) =~= seq![nothing] + split(rest, SLASH));
    lemma_names_concat(seq![nothing], split(rest, SLASH));
    assert(names(seq![nothing]) =~= seq![]) by {
        reveal_with_fuel(names, 2);
    }
    assert(names(split(p, SLASH)) =~= names(split(rest, SLASH)));
    assert(p =~= seq![SLASH] + rest);
    if p == seq![47u8] {
        assert(rest =~= nothing);
        lemma_find(rest, SLASH);
        assert(split(rest, SLASH) =~= seq![nothing]);
        assert(slashed(names(split(rest, SLASH))) =~= nothing);
    } else {
        lemma_all_named(split(rest, SLASH));
        lemma_slashed_split(rest);
    }
    assert(components(p).skip(1) =~= names(split(p, SLASH)));
}

/// Of two plain paths, one lies within the other just where it is the other, or where
/// it starts with the other and a slash; every one lies within the root of the file
/// system.
pub proof fn law_plain_within(p: Seq<u8>, base: Seq<u8>)
    requires
        plain(p),
        plain(base),
    ensures
        within(p, base) <==> {
            ||| p == base
            ||| base == seq![47u8]
            ||| base.push(47).is_prefix_of(p)
        },
{
    let np = names(split(p, SLASH));
    let nb = names(split(base, SLASH));
    let c = components(p);
    let b = components(base);
    lemma_plain(p);
    lemma_plain(base);
    if within(p, base) {
        let rest = c.skip(b.len() as int);
        assert(c =~= b + rest);
        assert(np =~= c.skip(1));
        assert(nb =~= b.skip(1));
        assert(np =~= nb + rest);
        if rest.len() == 0 {
            assert(np =~= nb);
        } else if nb.len() == 0 {
            assert(base =~= seq![47u8]);
        } else {
            lemma_slashed_concat(nb, rest);
            assert(p =~= base.push(47) + slashed(rest));
            assert(p.subrange(0, base.len() as int + 1) =~= base.push(47));
        }
    }
    if p == base {
        assert(b.subrange(0, b.len() as int) =~= b);
    } else if base == seq![47u8] {
        let nothing: Seq<u8> = seq![];
        assert(base =~= nothing.push(SLASH) + nothing);
        assert(nb =~= seq![]) by {
            if nb.len() > 0 {
                lemma_names_are_proper(base);
                lemma_slashed_ends(nb);
                assert(base.len() == 1 + slashed(nb).len());
            }
        }
        assert(c.subrange(0, 1) =~= b);
    } else if base.push(47).is_prefix_of(p) {
        let x = p.skip(base.len() as int + 1);
        assert(p =~= base.push(SLASH) + x) by {
            assert(p.subrange(0, base.len() as int + 1) =~= base.push(47));
        }
        lemma_split_concat(base, x, SLASH);
        lemma_names_concat(split(base, SLASH), split(x, SLASH));
        assert(np == nb + names(split(x, SLASH)));
        assert(c.subrange(0, b.len() as int) =~= b);
    }
}

/// What is left of a plain path below a plain directory, seen from that directory, is
/// the path again.
pub proof fn law_plain_below_then_join(p: Seq<u8>, base: Seq<u8>)
    requires
        plain(p),
        plain(base),
        within(p, base),
        p != base,
    ensures
        joined(base, below(p, base)) == p,
{
    lemma_plain(p);
    lemma_plain(base);
    law_below_then_join(p, base);
}

/// A path starts at the root of the file system just where its first byte is a slash, and
/// the contents of a list of byte strings stand in the places of the byte strings.
pub proof fn law_bytes(p: Seq<u8>, v: Seq<Vec<u8>>)
    ensures
        absolute(p) <==> p.len() > 0 && p[0] == 47,
        contents(v).len() == v.len(),
        forall|i: int| 0 <= i < v.len() ==> #[trigger] contents(v)[i] == v[i]@,
{
}

/// Repeated and trailing slashes and single dots do not change what is left of a path
/// below a directory.
pub proof fn law_below_by_components(p: Seq<u8>, q: Seq<u8>, base: Seq<u8>, other: Seq<u8>)
    requires
        components(p) == components(q),
        components(base) == components(other),
    ensures
        within(p, base) == within(q, other),
        below(p, base) == below(q, other),
{
}

} // verus!
