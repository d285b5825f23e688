use pastaless::listing::{list_response, Metadata, RawEntry};
use pastaless::types::EntryKind;

fn file(name: &[u8], len: u64) -> Option<RawEntry> {
    Some(RawEntry {
        name: name.to_vec(),
        metadata: Some(Metadata {
            is_dir: false,
            is_file: true,
            len,
        }),
    })
}

fn dir(name: &[u8]) -> Option<RawEntry> {
    Some(RawEntry {
        name: name.to_vec(),
        metadata: Some(Metadata {
            is_dir: true,
            is_file: false,
            len: 4096,
        }),
    })
}

#[test]
fn directories_come_first_then_names_decide() {
    let r = list_response(
        b"/w/game",
        vec![file(b"b.rs", 3), dir(b"src"), file(b"a.rs", 1), dir(b"assets")],
    );
    let shown: Vec<(&str, EntryKind, Option<u64>)> = r
        .entries
        .iter()
        .map(|e| (e.name.as_str(), e.kind, e.size))
        .collect();
    assert_eq!(
        shown,
        vec![
            ("assets", EntryKind::Dir, None),
            ("src", EntryKind::Dir, None),
            ("a.rs", EntryKind::File, Some(1)),
            ("b.rs", EntryKind::File, Some(3)),
        ]
    );
}

#[test]
fn denied_and_unreadable_entries_are_left_out() {
    let r = list_response(
        b"/w/game",
        vec![
            dir(b".git"),
            file(b".env", 9),
            None,
            Some(RawEntry {
                name: b"ghost".to_vec(),
                metadata: None,
            }),
            file(b".environment", 2),
        ],
    );
    assert_eq!(r.entries.len(), 1);
    assert_eq!(r.entries[0].name, ".environment");
}

#[test]
fn nothing_is_shown_below_a_denied_directory() {
    let r = list_response(b"/w/build/game", vec![file(b"a", 1), dir(b"b")]);
    assert!(r.entries.is_empty());
}

#[test]
fn what_is_neither_file_nor_directory_has_no_size() {
    let r = list_response(
        b"/w",
        vec![Some(RawEntry {
            name: b"link".to_vec(),
            metadata: Some(Metadata {
                is_dir: false,
                is_file: false,
                len: 11,
            }),
        })],
    );
    assert_eq!(r.entries[0].kind, EntryKind::File);
    assert_eq!(r.entries[0].size, None);
}

#[test]
fn names_that_look_alike_stay_in_order() {
    let r = list_response(b"/w", vec![file(b"a\xff", 1), file(b"a\xfe", 2), file(b"a\xfd", 3)]);
    let sizes: Vec<Option<u64>> = r.entries.iter().map(|e| e.size).collect();
    assert_eq!(sizes, vec![Some(1), Some(2), Some(3)]);
    assert_eq!(r.entries[0].name, "a\u{fffd}");
}
