//! The hosts that the server may be addressed by.

use crate::text::{
    chars_of, find, find_from, lemma_find, lemma_split_pieces, split, texts, trimmed,
    trimmed_string, white_space,
};
use vstd::prelude::*;

verus! {

/// The pieces between commas, without the white space around them and without those
/// that are empty then.
pub open spec fn named_hosts(pieces: Seq<Seq<char>>) -> Seq<Seq<char>>
    decreases pieces.len(),
{
    if pieces.len() == 0 {
        seq![]
    } else if trimmed(pieces.last()).len() > 0 {
        named_hosts(pieces.drop_last()).push(trimmed(pieces.last()))
    } else {
        named_hosts(pieces.drop_last())
    }
}

/// The hosts of this machine.
pub open spec fn local_hosts() -> Seq<Seq<char>> {
    seq!["localhost"@, "127.0.0.1"@, "::1"@]
}

/// The hosts that a setting allows: those it names, or those of this machine where it
/// is missing or names none.
pub open spec fn allowed_hosts(setting: Option<Seq<char>>) -> Seq<Seq<char>> {
    match setting {
        Some(s) => if named_hosts(split(s, ',')).len() > 0 {
            named_hosts(split(s, ','))
        } else {
            local_hosts()
        },
        None => local_hosts(),
    }
}

fn hosts_in(setting: &str) -> (r: Vec<String>)
    ensures
        texts(r@) == named_hosts(split(setting@, ',')),
{
    let chars = chars_of(setting);
    let mut out: Vec<String> = Vec::new();
    let mut pos: usize = 0;
    let ghost mut done: Seq<Seq<char>> = seq![];
    proof {
        assert(chars@.skip(0) =~= chars@);
        assert(done + split(chars@, ',') =~= split(chars@, ','));
        assert(texts(out@) =~= named_hosts(done));
    }
    loop
        invariant_except_break
            pos <= chars@.len(),
            split(chars@, ',') == done + split(chars@.skip(pos as int), ','),
        invariant
            texts(out@) == named_hosts(done),
        ensures
            split(chars@, ',') == done,
        decreases chars@.len() - pos,
    {
        let end: usize = find_from(&chars, pos, ',');
        let ghost rest = chars@.skip(pos as int);
        let ghost piece = chars@.subrange(pos as int, end as int);
        let ghost before = out@;
        proof {
            lemma_find(rest, ',');
            assert(rest.take(end - pos) =~= piece);
            assert(done.push(piece).drop_last() =~= done);
        }
        let host = trimmed_string(&chars, pos, end);
        if !host.as_str().is_empty() {
            out.push(host);
            assert(texts(out@) =~= texts(before).push(host@));
        }
        if end < chars.len() {
            assert(rest.skip(end - pos + 1) =~= chars@.skip(end + 1));
            assert(done + (seq![piece] + split(chars@.skip(end + 1), ',')) =~= done.push(piece)
                + split(chars@.skip(end + 1), ','));
            proof {
                done = done.push(piece);
            }
            pos = end + 1;
        } else {
            assert(rest =~= piece);
            assert(done + seq![piece] =~= done.push(piece));
            proof {
                done = done.push(piece);
            }
            break;
        }
    }
    out
}

/// The hosts that the value of the setting allows, if it has a value.
pub fn load_allowed_hosts(setting: Option<&str>) -> (r: Vec<String>)
    ensures
        texts(r@) == allowed_hosts(
            match setting {
                Some(s) => Some(s@),
                None => None,
            },
        ),
{
    match setting {
        Some(s) => {
            let named = hosts_in(s);
            assert(texts(named@).len() == named@.len());
            if named.len() > 0 {
                return named;
            }
        },
        None => {},
    }
    let mut local: Vec<String> = Vec::new();
    local.push("localhost".to_owned());
    local.push("127.0.0.1".to_owned());
    local.push("::1".to_owned());
    assert(texts(local@) =~= local_hosts());
    local
}

proof fn lemma_trimmed(s: Seq<char>)
    ensures
        trimmed(s).len() > 0 ==> !white_space(trimmed(s)[0]) && !white_space(trimmed(s).last()),
        forall|c: char| trimmed(s).contains(c) ==> s.contains(c),
    decreases s.len(),
{
    if s.len() > 0 && white_space(s[0]) {
        lemma_trimmed(s.drop_first());
        assert forall|c: char| s.drop_first().contains(c) implies s.contains(c) by {
            let i = choose|i: int| 0 <= i < s.drop_first().len() && s.drop_first()[i] == c;
            assert(s[i + 1] == c);
        }
    } else if s.len() > 0 && white_space(s.last()) {
        lemma_trimmed(s.drop_last());
        assert forall|c: char| s.drop_last().contains(c) implies s.contains(c) by {
            let i = choose|i: int| 0 <= i < s.drop_last().len() && s.drop_last()[i] == c;
            assert(s[i] == c);
        }
    }
}

/// A host that can stand in a list of hosts.
pub open spec fn plain_host(h: Seq<char>) -> bool {
    &&& h.len() > 0
    &&& !white_space(h[0])
    &&& !white_space(h.last())
    &&& !h.contains(',')
}

proof fn lemma_named_hosts(pieces: Seq<Seq<char>>)
    requires
        forall|i: int| 0 <= i < pieces.len() ==> !(#[trigger] pieces[i]).contains(','),
    ensures
        forall|i: int|
            0 <= i < named_hosts(pieces).len() ==> plain_host(#[trigger] named_hosts(pieces)[i]),
    decreases pieces.len(),
{
    if pieces.len() > 0 {
        let front = pieces.drop_last();
        assert forall|i: int| 0 <= i < front.len() implies !(#[trigger] front[i]).contains(',') by {
            assert(front[i] == pieces[i]);
        }
        lemma_named_hosts(front);
        lemma_trimmed(pieces.last());
        assert(!pieces[pieces.len() - 1].contains(','));
        assert(!trimmed(pieces.last()).contains(','));
        assert forall|i: int| 0 <= i < named_hosts(pieces).len() implies plain_host(
            #[trigger] named_hosts(pieces)[i],
        ) by {
            if i < named_hosts(front).len() {
                assert(named_hosts(pieces)[i] == named_hosts(front)[i]);
            }
        }
    }
}

/// Some host is always allowed, and no allowed host is empty, holds a comma or has
/// white space around it.
pub proof fn law_allowed_hosts(setting: Option<Seq<char>>)
    ensures
        allowed_hosts(setting).len() > 0,
        forall|i: int|
            0 <= i < allowed_hosts(setting).len() ==> plain_host(
                #[trigger] allowed_hosts(setting)[i],
            ),
{
    reveal_strlit("localhost");
    reveal_strlit("127.0.0.1");
    reveal_strlit("::1");
    match setting {
        Some(s) => {
            lemma_split_pieces(s, ',');
            lemma_named_hosts(split(s, ','));
        },
        None => {},
    }
}

proof fn lemma_named_hosts_filter(
    pieces: Seq<Seq<char>>,
    host: spec_fn(Seq<char>) -> Seq<char>,
    kept: spec_fn(Seq<char>) -> bool,
)
    requires
        forall|piece: Seq<char>| #[trigger] host(piece) == trimmed(piece),
        forall|h: Seq<char>| #[trigger] kept(h) <==> h.len() > 0,
    ensures
        named_hosts(pieces) == pieces.map_values(host).filter(kept),
    decreases pieces.len(),
{
    reveal(Seq::filter);
    if pieces.len() > 0 {
        lemma_named_hosts_filter(pieces.drop_last(), host, kept);
        assert(pieces.map_values(host).drop_last() =~= pieces.drop_last().map_values(host));
    }
}

/// The allowed hosts are what stands between the commas of the setting, without white
/// space around it and without what is empty then, in the order of the setting. Where
/// nothing is left, and where there is no setting, they are those of this machine.
pub proof fn law_allowed_hosts_are_those_named(setting: Seq<char>)
    ensures
        ({
            let named = split(setting, ',').map_values(|piece: Seq<char>| trimmed(piece)).filter(
                |h: Seq<char>| h.len() > 0,
            );
            allowed_hosts(Some(setting)) == if named.len() > 0 {
                named
            } else {
                seq!["localhost"@, "127.0.0.1"@, "::1"@]
            }
        }),
        allowed_hosts(None) == seq!["localhost"@, "127.0.0.1"@, "::1"@],
{
    lemma_named_hosts_filter(
        split(setting, ','),
        |piece: Seq<char>| trimmed(piece),
        |h: Seq<char>| h.len() > 0,
    );
}

} // verus!
