use pastaless::path::{
    bytes_equal, is_absolute, is_within, join, path_components, strip_prefix,
};
use pastaless::server::Pastaless;
use std::path::{Component, Path};

const SAMPLES: [&str; 26] = [
    "", ".", "..", "/", "//", "/.", "./", "a", "a/", "/a", "a/b", "a//b", "a/./b", "a/../b",
    "./a/b", "././a", "/a/b/c", "/a/b/c/", "/a/b/.", "/a/bc", ".env", "src/.env", "/w/.git/config",
    "./target/debug", "a/.b/..c", "d\u{e9}j\u{e0}/vu",
];

fn std_components(p: &str) -> Vec<Vec<u8>> {
    Path::new(p)
        .components()
        .map(|c| match c {
            Component::RootDir => b"/".to_vec(),
            Component::CurDir => b".".to_vec(),
            Component::ParentDir => b"..".to_vec(),
            Component::Normal(s) => s.to_str().unwrap().as_bytes().to_vec(),
            Component::Prefix(_) => unreachable!(),
        })
        .collect()
}

#[test]
fn components_are_those_of_the_standard_library() {
    for p in SAMPLES {
        assert_eq!(path_components(p.as_bytes()), std_components(p), "{p}");
    }
}

#[test]
fn absolute_paths_are_those_of_the_standard_library() {
    for p in SAMPLES {
        assert_eq!(is_absolute(p.as_bytes()), Path::new(p).is_absolute(), "{p}");
    }
}

#[test]
fn joined_paths_are_those_of_the_standard_library() {
    for base in SAMPLES {
        for rel in SAMPLES {
            let joined = Path::new(base).join(rel);
            assert_eq!(
                join(base.as_bytes(), rel.as_bytes()),
                joined.to_str().unwrap().as_bytes(),
                "{base} {rel}"
            );
        }
    }
}

#[test]
fn containment_is_that_of_the_standard_library() {
    for p in SAMPLES {
        for base in SAMPLES {
            assert_eq!(
                is_within(p.as_bytes(), base.as_bytes()),
                Path::new(p).starts_with(base),
                "{p} {base}"
            );
        }
    }
}

#[test]
fn stripped_paths_are_those_of_the_standard_library() {
    for p in SAMPLES {
        for base in SAMPLES {
            let ours = strip_prefix(p.as_bytes(), base.as_bytes());
            let theirs = Path::new(p).strip_prefix(base).ok();
            assert_eq!(ours.is_some(), theirs.is_some(), "{p} {base}");
            if let (Some(ours), Some(theirs)) = (ours, theirs) {
                let ours = String::from_utf8(ours).unwrap();
                assert_eq!(Path::new(&ours), theirs, "{p} {base}");
            }
        }
    }
}

#[test]
fn canonical_paths_are_stripped_to_the_byte() {
    assert_eq!(strip_prefix(b"/w/a/src/x.rs", b"/w/a"), Some(b"src/x.rs".to_vec()));
    assert_eq!(strip_prefix(b"/w/a", b"/w/a"), Some(Vec::new()));
    assert_eq!(strip_prefix(b"/etc", b"/"), Some(b"etc".to_vec()));
    assert_eq!(strip_prefix(b"/w/ab", b"/w/a"), None);
}

#[test]
fn stripping_then_joining_gives_the_path_again() {
    for (p, base) in [("/w/a/src/x.rs", "/w/a"), ("/etc/hosts", "/"), ("/w/a/b", "/w")] {
        let rest = strip_prefix(p.as_bytes(), base.as_bytes()).unwrap();
        assert_eq!(join(base.as_bytes(), &rest), p.as_bytes());
    }
}

#[test]
fn a_whole_component_has_to_match() {
    assert!(is_within(b"/w/game/src", b"/w/game"));
    assert!(is_within(b"/w/game", b"/w/game"));
    assert!(!is_within(b"/w/gamer", b"/w/game"));
}

#[test]
fn every_denied_name_is_denied() {
    for name in [
        ".env",
        ".git",
        "node_modules",
        "target",
        "dist",
        "build",
        ".import",
        ".godot",
    ] {
        assert!(Pastaless::is_denied_path(name.as_bytes()));
        assert!(Pastaless::is_denied_path(format!("/w/{name}").as_bytes()));
        assert!(Pastaless::is_denied_path(format!("./{name}/x.rs").as_bytes()));
        assert!(!Pastaless::is_denied_path(format!("/w/{name}x").as_bytes()));
        assert!(!Pastaless::is_denied_path(format!("/w/x{name}").as_bytes()));
    }
}

#[test]
fn denied_components() {
    assert!(Pastaless::is_denied_path(b"/work/.git/config"));
    assert!(!Pastaless::is_denied_path(b"/work/.gitignore"));
    assert!(!Pastaless::is_denied_path(b""));
    assert!(!Pastaless::is_denied_path(b"/"));
    assert!(!Pastaless::is_denied_path(b"src\\.env"));
    assert!(!Pastaless::is_denied_path(b".ENV"));
}

#[test]
fn a_denied_root_denies_what_lies_below() {
    assert!(Pastaless::is_denied_path(&join(b"/srv/build/game", b"src/main.rs")));
}

#[test]
fn relative_paths_are_shown_with_slashes() {
    assert_eq!(Pastaless::normalize_relative(b"src\\a\\b.rs"), "src/a/b.rs");
    assert_eq!(Pastaless::normalize_relative(b"src/a.rs"), "src/a.rs");
    assert_eq!(
        Pastaless::normalize_relative("d\u{e9}j\u{e0}".as_bytes()),
        "d\u{e9}j\u{e0}"
    );
}

#[test]
fn bytes_that_are_no_text_are_replaced() {
    assert_eq!(Pastaless::normalize_relative(b"a\xffb"), "a\u{fffd}b");
    assert_eq!(Pastaless::normalize_relative(b"\xe2\x82\\x"), "\u{fffd}/x");
}

#[test]
fn equal_bytes() {
    assert!(bytes_equal(b"abc", b"abc"));
    assert!(!bytes_equal(b"abc", b"abd"));
    assert!(!bytes_equal(b"abc", b"ab"));
}
