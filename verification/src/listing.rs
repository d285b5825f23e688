//! Directory listings.

use crate::encoding::{decode_lossy, lossy};
use crate::order::{in_order, law_sorted, sort, sorted, views, Ordered};
use crate::path::{denied, denied_name, join, joined};
use crate::path_laws::{law_denied_name_is_denied, lemma_denied_text_is_plain};
use crate::server::Pastaless;
use crate::text::text_le;
use crate::types::{EntryKind, ListEntry, ListEntryView, ListResponse};
use vstd::prelude::*;
use vstd::utf8::{decode_utf8_encode_utf8, encode_utf8};

verus! {

/// What the system says of a directory entry.
#[derive(Debug, Clone, Copy)]
pub struct Metadata {
    pub is_dir: bool,
    pub is_file: bool,
    pub len: u64,
}

/// A directory entry as the system gives it.
#[derive(Debug)]
pub struct RawEntry {
    pub name: Vec<u8>,
    /// Missing where the system says nothing of the entry.
    pub metadata: Option<Metadata>,
}

pub struct RawEntryView {
    pub name: Seq<u8>,
    pub metadata: Option<Metadata>,
}

impl View for RawEntry {
    type V = RawEntryView;

    open spec fn view(&self) -> RawEntryView {
        RawEntryView { name: self.name@, metadata: self.metadata }
    }
}

/// The entries of a directory; one that could not be read is `None`.
pub open spec fn raw_views(entries: Seq<Option<RawEntry>>) -> Seq<Option<RawEntryView>> {
    entries.map_values(
        |e: Option<RawEntry>|
            match e {
                Some(raw) => Some(raw@),
                None => None,
            },
    )
}

/// What a listing of the directory `dir` shows of an entry. It does not show an entry
/// that could not be read, that is denied or that the system says nothing of.
pub open spec fn listed_entry(dir: Seq<u8>, entry: Option<RawEntryView>) -> Option<ListEntryView> {
    match entry {
        Some(raw) => match raw.metadata {
            Some(metadata) => if denied(joined(dir, raw.name)) {
                None
            } else {
                Some(
                    ListEntryView {
                        name: lossy(raw.name),
                        kind: if metadata.is_dir {
                            EntryKind::Dir
                        } else {
                            EntryKind::File
                        },
                        size: if metadata.is_file {
                            Some(metadata.len)
                        } else {
                            None
                        },
                    },
                )
            },
            None => None,
        },
        None => None,
    }
}

/// What a listing of the directory shows of the entries, in the order of the entries.
pub open spec fn listed_entries(dir: Seq<u8>, entries: Seq<Option<RawEntryView>>) -> Seq<
    ListEntryView,
>
    decreases entries.len(),
{
    if entries.len() == 0 {
        seq![]
    } else {
        match listed_entry(dir, entries.last()) {
            Some(e) => listed_entries(dir, entries.drop_last()).push(e),
            None => listed_entries(dir, entries.drop_last()),
        }
    }
}

/// The listing of a directory.
pub open spec fn listing(dir: Seq<u8>, entries: Seq<Option<RawEntryView>>) -> Seq<ListEntryView> {
    sorted::<ListEntry>(listed_entries(dir, entries))
}

fn list_entry(dir: &[u8], entry: &Option<RawEntry>) -> (r: Option<ListEntry>)
    ensures
        match r {
            Some(e) => listed_entry(dir@, raw_views(seq![*entry])[0]) == Some(e@) && !denied_name(
                encode_utf8(e.name@),
            ),
            None => listed_entry(dir@, raw_views(seq![*entry])[0]) is None,
        },
{
    match entry {
        Some(raw) => {
            let path = join(dir, raw.name.as_slice());
            if Pastaless::is_denied_path(path.as_slice()) {
                return None;
            }
            match raw.metadata {
                Some(metadata) => {
                    let name = decode_lossy(raw.name.as_slice());
                    proof {
                        if denied_name(encode_utf8(name@)) {
                            lemma_denied_text_is_plain(name@);
                            decode_utf8_encode_utf8(raw.name@);
                            law_denied_name_is_denied(dir@, raw.name@);
                        }
                    }
                    let kind = if metadata.is_dir {
                        EntryKind::Dir
                    } else {
                        EntryKind::File
                    };
                    let size: Option<u64> = if metadata.is_file {
                        Some(metadata.len)
                    } else {
                        None
                    };
                    Some(ListEntry { name, kind, size })
                },
                None => None,
            }
        },
        None => None,
    }
}

/// The listing of the directory. No entry in it has a denied name.
pub fn list_response(dir: &[u8], entries: Vec<Option<RawEntry>>) -> (r: ListResponse)
    ensures
        views(r.entries@) == listing(dir@, raw_views(entries@)),
        forall|i: int|
            0 <= i < r.entries@.len() ==> !denied_name(encode_utf8(#[trigger] r.entries@[i].name@)),
{
    let ghost raw = raw_views(entries@);
    let mut shown: Vec<ListEntry> = Vec::new();
    let mut k: usize = 0;
    assert(raw.take(0) =~= seq![]);
    assert(views(shown@) =~= listed_entries(dir@, raw.take(0)));
    while k < entries.len()
        invariant
            k <= entries@.len(),
            raw == raw_views(entries@),
            views(shown@) == listed_entries(dir@, raw.take(k as int)),
            forall|i: int|
                0 <= i < shown@.len() ==> !denied_name(encode_utf8(#[trigger] shown@[i].name@)),
        decreases entries@.len() - k,
    {
        let ghost before = shown@;
        proof {
            assert(raw.take(k + 1).drop_last() =~= raw.take(k as int));
            assert(raw[k as int] == raw_views(seq![entries@[k as int]])[0]);
        }
        match list_entry(dir, &entries[k]) {
            Some(e) => {
                shown.push(e);
                assert(views(shown@) =~= views(before).push(e@));
            },
            None => {},
        }
        k += 1;
    }
    assert(raw.take(k as int) =~= raw);
    let ghost unsorted = shown@;
    let sorted_entries = sort(shown);
    proof {
        broadcast use vstd::seq_lib::group_to_multiset_ensures;

        let s = views(sorted_entries@);
        law_sorted::<ListEntry>(views(unsorted));
        assert forall|i: int| 0 <= i < sorted_entries@.len() implies !denied_name(
            encode_utf8(#[trigger] sorted_entries@[i].name@),
        ) by {
            assert(s[i] == sorted_entries@[i]@);
            assert(s.contains(s[i]));
            assert(s.to_multiset().count(s[i]) > 0);
            assert(views(unsorted).contains(s[i]));
            let j = choose|j: int| 0 <= j < views(unsorted).len() && views(unsorted)[j] == s[i];
            assert(views(unsorted)[j] == unsorted[j]@);
        }
    }
    ListResponse { entries: sorted_entries }
}

proof fn lemma_listed_entries(dir: Seq<u8>, entries: Seq<Option<RawEntryView>>)
    ensures
        forall|i: int|
            0 <= i < listed_entries(dir, entries).len() ==> exists|k: int|
                0 <= k < entries.len() && listed_entry(dir, #[trigger] entries[k]) == Some(
                    #[trigger] listed_entries(dir, entries)[i],
                ),
        forall|k: int|
            0 <= k < entries.len() && listed_entry(dir, #[trigger] entries[k]) is Some
                ==> listed_entries(dir, entries).contains(listed_entry(dir, entries[k])->Some_0),
    decreases entries.len(),
{
    if entries.len() > 0 {
        let front = entries.drop_last();
        lemma_listed_entries(dir, front);
        let all = listed_entries(dir, entries);
        let before = listed_entries(dir, front);
        assert forall|i: int| 0 <= i < all.len() implies exists|k: int|
            0 <= k < entries.len() && listed_entry(dir, #[trigger] entries[k]) == Some(
                #[trigger] all[i],
            ) by {
            if i < before.len() {
                assert(all[i] == before[i]);
                let k = choose|k: int|
                    0 <= k < front.len() && listed_entry(dir, #[trigger] front[k]) == Some(
                        before[i],
                    );
                assert(entries[k] == front[k]);
            } else {
                assert(listed_entry(dir, entries[entries.len() - 1]) == Some(all[i]));
            }
        }
        assert forall|k: int|
            0 <= k < entries.len() && listed_entry(
                dir,
                #[trigger] entries[k],
            ) is Some implies all.contains(listed_entry(dir, entries[k])->Some_0) by {
            if k < front.len() {
                assert(front[k] == entries[k]);
                let e = listed_entry(dir, front[k])->Some_0;
                let i = choose|i: int| 0 <= i < before.len() && before[i] == e;
                assert(all[i] == e);
            } else {
                assert(all[all.len() - 1] == listed_entry(dir, entries[k])->Some_0);
            }
        }
    }
}

/// A listing shows each entry that it may show and no other. Directories come before
/// files, and within each kind the names are in their order.
pub proof fn law_listing(dir: Seq<u8>, entries: Seq<Option<RawEntryView>>)
    ensures
        in_order::<ListEntry>(listing(dir, entries)),
        forall|e: ListEntryView|
            listing(dir, entries).contains(e) <==> exists|k: int|
                0 <= k < entries.len() && listed_entry(dir, #[trigger] entries[k]) == Some(e),
{
    broadcast use vstd::seq_lib::group_to_multiset_ensures;

    let all = listed_entries(dir, entries);
    let shown = listing(dir, entries);
    lemma_listed_entries(dir, entries);
    law_sorted::<ListEntry>(all);
    assert forall|e: ListEntryView| shown.contains(e) <==> exists|k: int|
        0 <= k < entries.len() && listed_entry(dir, #[trigger] entries[k]) == Some(e) by {
        assert(shown.contains(e) <==> shown.to_multiset().count(e) > 0);
        assert(all.contains(e) <==> all.to_multiset().count(e) > 0);
        if all.contains(e) {
            let i = choose|i: int| 0 <= i < all.len() && all[i] == e;
            assert(listed_entries(dir, entries)[i] == e);
        }
    }
}

proof fn lemma_listed_filter(
    dir: Seq<u8>,
    entries: Seq<Option<RawEntryView>>,
    kept: spec_fn(Option<RawEntryView>) -> bool,
    shown: spec_fn(Option<RawEntryView>) -> ListEntryView,
)
    requires
        forall|e: Option<RawEntryView>| #[trigger]
            kept(e) <==> e is Some && e->Some_0.metadata is Some && !denied(
                joined(dir, e->Some_0.name),
            ),
        forall|e: Option<RawEntryView>| #[trigger]
            shown(e) == (ListEntryView {
                name: lossy(e->Some_0.name),
                kind: if e->Some_0.metadata->Some_0.is_dir {
                    EntryKind::Dir
                } else {
                    EntryKind::File
                },
                size: if e->Some_0.metadata->Some_0.is_file {
                    Some(e->Some_0.metadata->Some_0.len)
                } else {
                    None
                },
            }),
    ensures
        listed_entries(dir, entries) == entries.filter(kept).map_values(shown),
    decreases entries.len(),
{
    reveal(Seq::filter);
    if entries.len() > 0 {
        lemma_listed_filter(dir, entries.drop_last(), kept, shown);
    }
    assert(listed_entries(dir, entries) =~= entries.filter(kept).map_values(shown));
}

/// A listing holds every entry that was read, that the system says something of and
/// whose path is not denied, as often as there is one, and nothing else. Each stands
/// there with its name; as a directory just where the system says that it is one, and
/// with its size just where the system says that it is a file.
pub proof fn law_listing_is_complete(dir: Seq<u8>, entries: Seq<Option<RawEntryView>>)
    ensures
        listing(dir, entries).to_multiset() == entries.filter(
            |e: Option<RawEntryView>|
                e is Some && e->Some_0.metadata is Some && !denied(joined(dir, e->Some_0.name)),
        ).map_values(
            |e: Option<RawEntryView>|
                ListEntryView {
                    name: lossy(e->Some_0.name),
                    kind: if e->Some_0.metadata->Some_0.is_dir {
                        EntryKind::Dir
                    } else {
                        EntryKind::File
                    },
                    size: if e->Some_0.metadata->Some_0.is_file {
                        Some(e->Some_0.metadata->Some_0.len)
                    } else {
                        None
                    },
                },
        ).to_multiset(),
{
    let kept = |e: Option<RawEntryView>|
        e is Some && e->Some_0.metadata is Some && !denied(joined(dir, e->Some_0.name));
    let shown = |e: Option<RawEntryView>|
        ListEntryView {
            name: lossy(e->Some_0.name),
            kind: if e->Some_0.metadata->Some_0.is_dir {
                EntryKind::Dir
            } else {
                EntryKind::File
            },
            size: if e->Some_0.metadata->Some_0.is_file {
                Some(e->Some_0.metadata->Some_0.len)
            } else {
                None
            },
        };
    lemma_listed_filter(dir, entries, kept, shown);
    law_sorted::<ListEntry>(listed_entries(dir, entries));
}

/// For every entry that was read, with metadata, whose path is not denied, a listing has
/// an entry with that name and with the kind and the size that the metadata gives; and
/// each entry of a listing is there for such an entry.
pub proof fn law_listing_by_entry(dir: Seq<u8>, entries: Seq<Option<RawEntryView>>)
    ensures
        forall|k: int, name: Seq<u8>, metadata: Metadata|
            0 <= k < entries.len() && #[trigger] entries[k] == Some(
                #[trigger] raw_entry(name, metadata),
            ) && !denied(joined(dir, name)) ==> exists|i: int|
                0 <= i < listing(dir, entries).len() && shows(
                    #[trigger] listing(dir, entries)[i],
                    name,
                    metadata,
                ),
        forall|i: int|
            0 <= i < listing(dir, entries).len() ==> shown_for_some(
                dir,
                entries,
                #[trigger] listing(dir, entries)[i],
            ),
{
    let shown = listing(dir, entries);
    law_listing(dir, entries);
    assert forall|k: int, name: Seq<u8>, metadata: Metadata|
        0 <= k < entries.len() && #[trigger] entries[k] == Some(
            #[trigger] raw_entry(name, metadata),
        ) && !denied(joined(dir, name)) implies exists|i: int|
        0 <= i < shown.len() && shows(#[trigger] shown[i], name, metadata) by {
        let e = listed_entry(dir, entries[k])->Some_0;
        assert(listed_entry(dir, entries[k]) == Some(e));
        assert(shown.contains(e));
        let i = choose|i: int| 0 <= i < shown.len() && shown[i] == e;
        assert(shows(shown[i], name, metadata));
    }
    assert forall|i: int| 0 <= i < shown.len() implies shown_for_some(
        dir,
        entries,
        #[trigger] shown[i],
    ) by {
        assert(shown.contains(shown[i]));
        let k = choose|k: int|
            0 <= k < entries.len() && listed_entry(dir, #[trigger] entries[k]) == Some(shown[i]);
        let name = entries[k]->Some_0.name;
        let metadata = entries[k]->Some_0.metadata->Some_0;
        assert(entries[k] == Some(raw_entry(name, metadata)));
        assert(shows(shown[i], name, metadata));
    }
}

/// Among the entries there is one that was read, with metadata and with a path that is
/// not denied, that the entry of a listing shows.
pub open spec fn shown_for_some(
    dir: Seq<u8>,
    entries: Seq<Option<RawEntryView>>,
    e: ListEntryView,
) -> bool {
    exists|k: int, name: Seq<u8>, metadata: Metadata|
        {
            &&& 0 <= k < entries.len()
            &&& #[trigger] entries[k] == Some(#[trigger] raw_entry(name, metadata))
            &&& !denied(joined(dir, name))
            &&& shows(e, name, metadata)
        }
}

/// An entry that was read and that the system says something of.
pub open spec fn raw_entry(name: Seq<u8>, metadata: Metadata) -> RawEntryView {
    RawEntryView { name, metadata: Some(metadata) }
}

/// The entry of a listing has this name, is a directory just where the metadata says so,
/// and has the size just where the metadata says that it is a file.
pub open spec fn shows(e: ListEntryView, name: Seq<u8>, metadata: Metadata) -> bool {
    &&& e.name == lossy(name)
    &&& e.kind == EntryKind::Dir <==> metadata.is_dir
    &&& e.size == if metadata.is_file {
        Some(metadata.len)
    } else {
        None
    }
}

/// In a listing no file stands before a directory, and of two entries of one kind the
/// one that stands first does not have the later name.
pub proof fn law_listing_order(dir: Seq<u8>, entries: Seq<Option<RawEntryView>>)
    ensures
        forall|i: int, j: int|
            #![trigger listing(dir, entries)[i], listing(dir, entries)[j]]
            0 <= i < j < listing(dir, entries).len() ==> {
                let a = listing(dir, entries)[i];
                let b = listing(dir, entries)[j];
                &&& !(a.kind == EntryKind::File && b.kind == EntryKind::Dir)
                &&& a.kind == b.kind ==> text_le(a.name, b.name)
            },
{
    law_listing(dir, entries);
    let shown = listing(dir, entries);
    assert forall|i: int, j: int|
        #![trigger shown[i], shown[j]]
        0 <= i < j < shown.len() implies {
        let a = shown[i];
        let b = shown[j];
        &&& !(a.kind == EntryKind::File && b.kind == EntryKind::Dir)
        &&& a.kind == b.kind ==> text_le(a.name, b.name)
    } by {
        assert(<ListEntry as Ordered>::not_after(shown[i], shown[j]));
    }
}

/// The entries that the system gives, what is said of them, and the entries of an answer
/// stand for what they hold.
pub proof fn law_entry_views(raw: Seq<Option<RawEntry>>, shown: Seq<ListEntry>)
    ensures
        raw_views(raw).len() == raw.len(),
        forall|i: int|
            0 <= i < raw.len() ==> match (raw[i], #[trigger] raw_views(raw)[i]) {
                (Some(r), Some(v)) => v.name == r.name@ && v.metadata == r.metadata,
                (None, None) => true,
                _ => false,
            },
        views(shown).len() == shown.len(),
        forall|i: int|
            0 <= i < shown.len() ==> {
                let v = #[trigger] views(shown)[i];
                v.name == shown[i].name@ && v.kind == shown[i].kind && v.size == shown[i].size
            },
{
}

} // verus!
