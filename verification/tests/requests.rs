use pastaless::access::{candidate_path, reached_path};
use pastaless::listing::{Metadata, RawEntry};
use pastaless::projects::{ProjectConfig, Projects};
use pastaless::search::ProcessOutput;
use pastaless::server::Pastaless;
use pastaless::session::{Effect, Reply, Response, Step};
use pastaless::types::{
    GlobRequest, GrepRequest, ListRequest, ReadRequest, SearchTextRequest,
};

/// A system with three directories, a link that leads out of the project, and a search
/// program that prints what it was asked.
struct System {
    log: Vec<String>,
    size: u64,
    exit: i32,
}

fn text(bytes: &[u8]) -> String {
    String::from_utf8_lossy(bytes).into_owned()
}

impl System {
    fn new() -> Self {
        System {
            log: Vec::new(),
            size: 20,
            exit: 0,
        }
    }

    fn reply(&mut self, effect: Effect) -> Reply {
        match effect {
            Effect::Canonicalize(p) => {
                let p = text(&p);
                self.log.push(format!("canonicalize {p}"));
                let known = match p.trim_end_matches("/.").trim_end_matches('/') {
                    "/link/game" | "/w/game" => Some("/w/game"),
                    "/w/game/src" => Some("/w/game/src"),
                    "/w/game/-x" => Some("/w/game/-x"),
                    "/w/game/src/main.rs" => Some("/w/game/src/main.rs"),
                    "/w/game/out" => Some("/etc"),
                    "/w/game/side" => Some("/w/gamer"),
                    _ => None,
                };
                Reply::Canonical(known.map(|s| s.as_bytes().to_vec()))
            }
            Effect::CheckDirectory(p) => {
                self.log.push(format!("check directory {}", text(&p)));
                Reply::Check(!text(&p).ends_with(".rs"))
            }
            Effect::ReadDirectory(p) => {
                self.log.push(format!("read directory {}", text(&p)));
                if text(&p) == "/w/game/src" {
                    return Reply::Entries(Err("denied".to_string()));
                }
                let entry = |name: &str, is_dir: bool| {
                    Some(RawEntry {
                        name: name.as_bytes().to_vec(),
                        metadata: Some(Metadata {
                            is_dir,
                            is_file: !is_dir,
                            len: 5,
                        }),
                    })
                };
                Reply::Entries(Ok(vec![
                    entry("README.md", false),
                    entry("src", true),
                    entry("target", true),
                ]))
            }
            Effect::CheckFile(p) => {
                self.log.push(format!("check file {}", text(&p)));
                Reply::Check(text(&p).ends_with(".rs"))
            }
            Effect::MeasureFile(p) => {
                self.log.push(format!("measure {}", text(&p)));
                if self.size == u64::MAX {
                    Reply::Size(Err("gone".to_string()))
                } else {
                    Reply::Size(Ok(self.size))
                }
            }
            Effect::ReadFile(p) => {
                self.log.push(format!("read {}", text(&p)));
                if self.exit != 0 {
                    Reply::Text(Err("not text".to_string()))
                } else {
                    Reply::Text(Ok("fn main() {\n}\n".to_string()))
                }
            }
            Effect::Search { args, directory } => {
                self.log
                    .push(format!("search {} in {}", args.join(" "), text(&directory)));
                Reply::Run(Ok(ProcessOutput {
                    success: self.exit == 0,
                    code: Some(self.exit),
                    stdout: b"./src/main.rs:1:fn main() {\n".to_vec(),
                    stderr: b"broken".to_vec(),
                }))
            }
        }
    }

    fn run(&mut self, first: Step) -> Result<Response, String> {
        let mut step = first;
        loop {
            match step {
                Step::Finish(r) => return r.map_err(|e| e.message()),
                Step::Perform(session, effect) => {
                    let reply = self.reply(effect);
                    assert!(session.is_accepting(&reply));
                    step = session.advance(reply);
                }
            }
        }
    }
}

fn server() -> Pastaless {
    let mut all = Projects::new();
    for (key, root) in [("game", "/link/game"), ("lost", "/nowhere")] {
        all.insert(
            key.to_string(),
            ProjectConfig {
                root: root.to_string(),
            },
        );
    }
    Pastaless::new(all)
}

fn list(path: Option<&str>) -> ListRequest {
    ListRequest {
        project_key: "game".to_string(),
        path: path.map(str::to_string),
    }
}

fn read(path: &str) -> ReadRequest {
    ReadRequest {
        project_key: "game".to_string(),
        path: path.to_string(),
        offset: None,
        limit: None,
    }
}

fn grep(path: Option<&str>) -> GrepRequest {
    GrepRequest {
        project_key: "game".to_string(),
        pattern: "main".to_string(),
        path: path.map(str::to_string),
        case_sensitive: Some(true),
        max_results: Some(5),
    }
}

fn refused(path: &str) -> String {
    System::new().run(server().read(read(path))).unwrap_err()
}

#[test]
fn listing_the_root_directory() {
    let mut system = System::new();
    let Response::List(r) = system.run(server().list(list(None))).unwrap() else {
        panic!("no listing");
    };
    let names: Vec<&str> = r.entries.iter().map(|e| e.name.as_str()).collect();
    assert_eq!(names, vec!["src", "README.md"]);
    assert_eq!(
        system.log,
        vec![
            "canonicalize /link/game",
            "canonicalize /w/game/",
            "check directory /w/game",
            "read directory /w/game",
        ]
    );
}

#[test]
fn listing_what_is_no_directory() {
    assert_eq!(
        System::new()
            .run(server().list(list(Some("src/main.rs"))))
            .unwrap_err(),
        "requested path is not a directory"
    );
}

#[test]
fn listing_an_unreadable_directory() {
    assert_eq!(
        System::new().run(server().list(list(Some("src")))).unwrap_err(),
        "cannot read directory: denied"
    );
}

#[test]
fn reading_a_file() {
    for alias in [false, true] {
        let mut system = System::new();
        let first = if alias {
            server().read_file(read("src/main.rs"))
        } else {
            server().read(read("src/main.rs"))
        };
        let Response::Read(r) = system.run(first).unwrap() else {
            panic!("no page");
        };
        assert_eq!(r.path, "src/main.rs");
        assert_eq!(r.content, "1: fn main() {\n2: }\n");
        assert!(!r.truncated);
        assert_eq!(
            system.log[2..],
            [
                "check file /w/game/src/main.rs",
                "measure /w/game/src/main.rs",
                "read /w/game/src/main.rs",
            ]
        );
    }
}

#[test]
fn reading_what_is_no_file() {
    assert_eq!(refused("src"), "requested path is not a file");
}

#[test]
fn reading_a_large_file() {
    let mut system = System::new();
    system.size = 1_048_576;
    assert!(system.run(server().read(read("src/main.rs"))).is_ok());
    system.size = 1_048_577;
    assert_eq!(
        system.run(server().read(read("src/main.rs"))).unwrap_err(),
        "file too large (max 1MB)"
    );
}

#[test]
fn reading_a_file_that_goes_away() {
    let mut system = System::new();
    system.size = u64::MAX;
    assert_eq!(
        system.run(server().read(read("src/main.rs"))).unwrap_err(),
        "cannot stat file: gone"
    );
}

#[test]
fn reading_a_file_that_is_no_text() {
    let mut system = System::new();
    system.exit = 2;
    assert_eq!(
        system.run(server().read(read("src/main.rs"))).unwrap_err(),
        "failed to read file: not text"
    );
}

#[test]
fn refused_paths() {
    assert_eq!(refused("/etc/passwd"), "absolute paths are not allowed");
    assert_eq!(refused("/../x"), "absolute paths are not allowed");
    assert_eq!(refused("../x"), "path traversal is not allowed");
    assert_eq!(refused("a..b"), "path traversal is not allowed");
    assert_eq!(refused("../.env"), "path traversal is not allowed");
    assert_eq!(refused(".env"), "access denied to requested path");
    assert_eq!(refused("./src/.git/config"), "access denied to requested path");
    assert_eq!(refused("src/nothing.rs"), "cannot access path: src/nothing.rs");
    assert_eq!(refused("out"), "path escapes project root");
    assert_eq!(refused("side"), "path escapes project root");
}

#[test]
fn refused_paths_are_not_looked_at() {
    for path in ["/etc/passwd", "../x", ".env"] {
        let mut system = System::new();
        assert!(system.run(server().read(read(path))).is_err());
        assert_eq!(system.log, vec!["canonicalize /link/game"]);
    }
    let mut system = System::new();
    assert!(system.run(server().read(read("out"))).is_err());
    assert_eq!(
        system.log,
        vec!["canonicalize /link/game", "canonicalize /w/game/out"]
    );
}

#[test]
fn unknown_projects_and_roots() {
    let mut request = read("x");
    request.project_key = "nope".to_string();
    let mut system = System::new();
    assert_eq!(
        system.run(server().read(request)).unwrap_err(),
        "unknown project: nope"
    );
    assert!(system.log.is_empty());
    let mut request = read("/x");
    request.project_key = "lost".to_string();
    assert_eq!(
        system.run(server().read(request)).unwrap_err(),
        "cannot access project root: /nowhere"
    );
    let request = GlobRequest {
        project_key: "lost".to_string(),
        pattern: "*".to_string(),
    };
    assert_eq!(
        system.run(server().glob(request)).unwrap_err(),
        "cannot access project root: /nowhere"
    );
    let mut request = grep(None);
    request.project_key = "lost".to_string();
    assert_eq!(
        system.run(server().grep(request)).unwrap_err(),
        "cannot access project root: /nowhere"
    );
}

#[test]
fn searching_for_text() {
    let mut system = System::new();
    let Response::Grep(r) = system.run(server().grep(grep(Some("src")))).unwrap() else {
        panic!("no matches");
    };
    assert_eq!(r.matches.len(), 1);
    assert_eq!(r.matches[0].path, "./src/main.rs");
    assert_eq!(
        system.log,
        vec![
            "canonicalize /link/game",
            "canonicalize /link/game",
            "canonicalize /w/game/src",
            "search -n --color never --with-filename main src --case-sensitive in /w/game",
        ]
    );
}

#[test]
fn searching_a_whole_project_for_text() {
    let mut system = System::new();
    let request = SearchTextRequest {
        project_key: "game".to_string(),
        query: "main".to_string(),
    };
    assert!(system.run(server().search_text(request)).is_ok());
    assert_eq!(
        system.log[2..],
        [
            "canonicalize /w/game/.",
            "search -n --color never --with-filename main . --ignore-case in /w/game",
        ]
    );
}

#[test]
fn searching_for_a_pattern_that_starts_with_a_dash() {
    let mut system = System::new();
    let mut request = grep(Some("src"));
    request.pattern = "-foo".to_string();
    assert!(system.run(server().grep(request)).is_ok());
    assert_eq!(
        system.log[3],
        "search -n --color never --with-filename -e -foo src --case-sensitive in /w/game"
    );
    let mut system = System::new();
    let request = SearchTextRequest {
        project_key: "game".to_string(),
        query: "--files".to_string(),
    };
    assert!(system.run(server().search_text(request)).is_ok());
    assert_eq!(
        system.log[3],
        "search -n --color never --with-filename -e --files . --ignore-case in /w/game"
    );
}

#[test]
fn searching_below_a_directory_that_starts_with_a_dash() {
    let mut system = System::new();
    assert!(system.run(server().grep(grep(Some("-x")))).is_ok());
    assert_eq!(
        system.log[3],
        "search -n --color never --with-filename main ./-x --case-sensitive in /w/game"
    );
}

#[test]
fn searching_where_no_request_may_look() {
    let mut system = System::new();
    assert_eq!(
        system.run(server().grep(grep(Some("target")))).unwrap_err(),
        "access denied to requested path"
    );
    assert_eq!(system.log.len(), 2);
}

#[test]
fn searches_that_fail() {
    let mut system = System::new();
    system.exit = 1;
    let Response::Grep(r) = system.run(server().grep(grep(None))).unwrap() else {
        panic!("no matches");
    };
    assert!(r.matches.is_empty());
    system.exit = 2;
    assert_eq!(
        system.run(server().grep(grep(None))).unwrap_err(),
        "ripgrep failed: broken"
    );
}

#[test]
fn searching_for_files() {
    let mut system = System::new();
    let request = GlobRequest {
        project_key: "game".to_string(),
        pattern: "**/*.rs".to_string(),
    };
    let Response::Glob(r) = system.run(server().glob(request)).unwrap() else {
        panic!("no paths");
    };
    assert_eq!(r.paths.len(), 1);
    assert_eq!(
        system.log,
        vec!["canonicalize /link/game", "search --files . -g **/*.rs in /w/game"]
    );
}

#[test]
fn a_root_that_moves_between_two_looks() {
    let Step::Perform(session, _) = server().grep(grep(None)) else {
        panic!("done");
    };
    let canonical = |p: &str| Reply::Canonical(Some(p.as_bytes().to_vec()));
    let Step::Perform(session, _) = session.advance(canonical("/w/old")) else {
        panic!("done");
    };
    let Step::Perform(session, _) = session.advance(canonical("/w/new")) else {
        panic!("done");
    };
    let Step::Finish(Err(e)) = session.advance(canonical("/w/new")) else {
        panic!("not done");
    };
    assert_eq!(e.message(), "path escapes project root");
}

#[test]
fn a_session_accepts_the_reply_that_it_waits_for() {
    let Step::Perform(session, _) = server().list(list(None)) else {
        panic!("done");
    };
    assert!(session.is_accepting(&Reply::Canonical(None)));
    assert!(!session.is_accepting(&Reply::Check(true)));
    assert!(!session.is_accepting(&Reply::Size(Ok(1))));
}

#[test]
fn reading_far_behind_the_end() {
    let mut request = read("src/main.rs");
    request.offset = Some(usize::MAX);
    let Response::Read(r) = System::new().run(server().read(request)).unwrap() else {
        panic!("no page");
    };
    assert_eq!(r.path, "src/main.rs");
    assert_eq!((r.start_line, r.end_line), (usize::MAX, usize::MAX - 1));
    assert_eq!(r.total_lines, 2);
    assert_eq!(r.content, "");
    assert!(!r.truncated);
}

#[test]
fn paths_that_requests_mean_and_reach() {
    assert_eq!(candidate_path(b"/w/game", "src").unwrap(), b"/w/game/src");
    assert_eq!(candidate_path(b"/w/game", "").unwrap(), b"/w/game/");
    assert!(candidate_path(b"/w/build", "src").is_err());
    assert_eq!(
        reached_path(b"/w/game", "src", Some(b"/w/game/src".to_vec())).unwrap(),
        b"/w/game/src"
    );
    assert!(reached_path(b"/w/game", "src", Some(b"/w".to_vec())).is_err());
    assert!(reached_path(b"/w/game", "src", None).is_err());
}
