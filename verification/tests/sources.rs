use morris::discovery::{
    collect_rs_files, filter_source_files, is_rust_name, is_rust_path, list_source_files, refuse,
    Entry, Request, Resolved,
};
use morris::paths::{join_parts, remove_repeats, sort_paths, PathPart, SourcePath};
use morris::sources::{show_sources, SourceFile};
use std::path::{Component, Path, PathBuf};

fn path(text: &str) -> SourcePath {
    let parts = Path::new(text)
        .components()
        .map(|c| match c {
            Component::RootDir => PathPart::Root,
            Component::CurDir => PathPart::Current,
            Component::ParentDir => PathPart::Parent,
            other => PathPart::Named(other.as_os_str().as_encoded_bytes().to_vec()),
        })
        .collect();
    SourcePath { parts }
}

fn file(name: &str) -> Entry {
    Entry::File(name.as_bytes().to_vec())
}

fn directory(name: &str, entries: Vec<Entry>) -> Entry {
    Entry::Directory(name.as_bytes().to_vec(), entries)
}

fn shown(files: &[SourcePath]) -> Vec<String> {
    files.iter().map(|f| f.display()).collect()
}

#[test]
fn test_list_source_files() {
    let src = vec![file("lib.rs"), file("main.rs"), file("readme.txt")];

    let files = shown(&list_source_files(&path("/tmp/morris_test_list"), Some(&src)));
    assert!(files.iter().any(|f| f.ends_with("lib.rs")));
    assert!(files.iter().any(|f| f.ends_with("main.rs")));
    assert!(!files.iter().any(|f| f.ends_with("readme.txt")));
    assert_eq!(
        files,
        [
            "/tmp/morris_test_list/src/lib.rs",
            "/tmp/morris_test_list/src/main.rs"
        ]
    );
}

#[test]
fn test_list_source_files_no_src() {
    assert!(list_source_files(&path("/tmp/morris_test_nosrc"), None).is_empty());
}

#[test]
fn test_list_source_files_sorted() {
    let src = vec![file("zebra.rs"), file("alpha.rs")];

    let files = list_source_files(&path("/tmp/morris_test_sorted"), Some(&src));
    assert!(files.windows(2).all(|w| !w[1].comes_before(&w[0])));
    assert_eq!(
        shown(&files),
        [
            "/tmp/morris_test_sorted/src/alpha.rs",
            "/tmp/morris_test_sorted/src/zebra.rs"
        ]
    );
}

#[test]
fn directories_are_searched_to_the_bottom() {
    let src = vec![
        file("a.rs"),
        directory("a", vec![file("x.rs"), directory("b", vec![file("y.rs")])]),
        directory("empty", vec![]),
        directory("dir.rs", vec![file("notes.md")]),
    ];
    let files = list_source_files(&path("/p"), Some(&src));
    assert_eq!(
        shown(&files),
        ["/p/src/a/b/y.rs", "/p/src/a/x.rs", "/p/src/a.rs"]
    );
}

#[test]
fn no_file_is_listed_twice() {
    let src = vec![
        directory("a", vec![file("b.rs"), file("c.rs")]),
        file("b.rs"),
        directory("c", vec![file("b.rs")]),
    ];
    assert_eq!(
        shown(&list_source_files(&path("p"), Some(&src))),
        ["p/src/a/b.rs", "p/src/a/c.rs", "p/src/b.rs", "p/src/c/b.rs"]
    );
}

#[test]
fn files_are_collected_behind_those_there_are() {
    let mut out = vec![path("/first.rs")];
    collect_rs_files(&path("/d"), &vec![file("b.rs"), file("a.rs")], &mut out);
    assert_eq!(shown(&out), ["/first.rs", "/d/b.rs", "/d/a.rs"]);
}

#[test]
fn extension_is_that_of_std() {
    for name in [
        "a.rs", ".rs", "rs", "a.rs.txt", "a.", "..rs", "a..rs", "", "x.RS", ".a.rs", "ars", "a.r",
    ] {
        let std_says = Path::new(name).extension().and_then(|s| s.to_str()) == Some("rs");
        assert_eq!(is_rust_name(name.as_bytes()), std_says, "{name}");
        if !name.is_empty() {
            assert_eq!(is_rust_path(&path(name)), std_says, "{name}");
        }
    }
    assert!(!is_rust_path(&path("/")));
    assert!(!is_rust_path(&path("")));
    assert!(is_rust_name(b"\xff.rs"));
}

#[test]
fn order_is_that_of_std() {
    let texts = [
        "/", "/a", "/a.rs", "/a/b.rs", "/a/b", "/a-b", "a", ".", "..", "../a", "", "b", "/aa", "/B",
    ];
    for a in texts {
        for b in texts {
            let (x, y) = (PathBuf::from(a), PathBuf::from(b));
            assert_eq!(path(a).comes_before(&path(b)), x < y, "{a} {b}");
            assert_eq!(path(a).is_same(&path(b)), x == y, "{a} {b}");
        }
    }
    let mut sorted: Vec<PathBuf> = texts.iter().map(PathBuf::from).collect();
    sorted.sort();
    let ours = sort_paths(texts.iter().map(|t| path(t)).collect());
    let expected: Vec<String> = sorted.iter().map(|p| p.display().to_string()).collect();
    assert_eq!(shown(&ours), expected);
}

#[test]
fn repeats_are_removed() {
    let paths = vec![path("/a"), path("/a"), path("/b"), path("/a")];
    assert_eq!(shown(&remove_repeats(paths)), ["/a", "/b", "/a"]);
}

#[test]
fn relative_paths_are_those_of_std() {
    for (p, base) in [
        ("/a/b/c.rs", "/a/b"),
        ("/a/b/c.rs", "/a/bc"),
        ("/a/b", "/a/b"),
        ("/a", "/a/b"),
        ("/a/b", "/"),
    ] {
        let std_says = Path::new(p).strip_prefix(base).unwrap_or(Path::new(p));
        assert_eq!(
            path(p).relative_to(&path(base)).display(),
            std_says.display().to_string()
        );
    }
    assert_eq!(path("/a").copied(), path("/a"));
    assert_eq!(path("/").child(b"x").display(), "/x");
    assert_eq!(path("x").child(b"\xff").display(), "x/\u{fffd}");
}

#[test]
fn requested_files_are_listed_once_and_in_order() {
    let requests = [
        Request {
            given: b"src".to_vec(),
            resolved: Resolved::Directory(
                path("/p/src"),
                vec![file("z.rs"), file("a.rs"), file("n.txt")],
            ),
        },
        Request {
            given: b"./src/a.rs".to_vec(),
            resolved: Resolved::File(path("/p/src/a.rs")),
        },
    ];
    assert_eq!(
        shown(&filter_source_files(&requests).unwrap()),
        ["/p/src/a.rs", "/p/src/z.rs"]
    );
    assert!(filter_source_files(&[]).unwrap().is_empty());
}

#[test]
fn first_unusable_path_is_refused() {
    let good = || Request {
        given: b"a.rs".to_vec(),
        resolved: Resolved::File(path("/p/a.rs")),
    };
    let missing = || Request {
        given: b"gone.rs".to_vec(),
        resolved: Resolved::Nowhere("No such file or directory (os error 2)".to_string()),
    };
    let other = || Request {
        given: b"no\xfftes.txt".to_vec(),
        resolved: Resolved::File(path("/p/notes.txt")),
    };
    assert_eq!(
        filter_source_files(&[good(), missing(), other()]).unwrap_err(),
        "gone.rs: No such file or directory (os error 2)"
    );
    assert_eq!(
        filter_source_files(&[good(), other(), missing()]).unwrap_err(),
        "no\u{fffd}tes.txt: not a .rs file or directory"
    );
}

#[test]
fn refusals_name_the_path_as_shown() {
    let nowhere = Resolved::Nowhere("gone".to_string());
    assert_eq!(refuse("x", &nowhere), Some("x: gone".to_string()));
    assert_eq!(
        refuse("y", &Resolved::File(path("/y.txt"))),
        Some("y: not a .rs file or directory".to_string())
    );
    assert_eq!(refuse("z", &Resolved::File(path("/z.rs"))), None);
    assert_eq!(refuse("d", &Resolved::Directory(path("/d"), vec![])), None);
}

#[test]
fn components_are_joined_with_slashes() {
    let texts = ["/", "a", "b"].map(String::from);
    assert_eq!(join_parts(&texts, true), "/a/b");
    assert_eq!(join_parts(&texts[1..], false), "a/b");
    assert_eq!(join_parts(&texts[..1], true), "/");
    assert_eq!(join_parts(&[], false), "");
    for text in ["/", "/a", "a/b", "../x", ".", "", "/a/../b"] {
        assert_eq!(path(text).display(), Path::new(text).display().to_string());
    }
}

#[test]
fn test_read_all_sources_line_numbers() {
    let base = path("/tmp/morris_test_lnums");
    let mut found = list_source_files(&base, Some(&vec![file("lib.rs")]));
    let sources = [SourceFile {
        path: found.remove(0),
        contents: "line_one\nline_two\nline_three\n".to_string(),
    }];
    let contents = show_sources(&base, &sources);

    assert!(
        contents.contains("   1| line_one"),
        "first line must be 1-based"
    );
    assert!(contents.contains("   2| line_two"), "second line must be 2");
    assert!(
        contents.contains("   3| line_three"),
        "third line must be 3"
    );
    assert!(
        !contents.contains("   0| "),
        "must not contain 0-based numbers"
    );
    assert_eq!(
        contents,
        "=== src/lib.rs ===\n   1| line_one\n   2| line_two\n   3| line_three\n\n"
    );
}

#[test]
fn several_files_are_shown_one_after_the_other() {
    let sources = [
        SourceFile {
            path: path("/p/a.rs"),
            contents: String::new(),
        },
        SourceFile {
            path: path("/q/b.rs"),
            contents: "x\r\n\n".repeat(5_000),
        },
    ];
    let contents = show_sources(&path("/p"), &sources);
    assert!(contents.starts_with("=== a.rs ===\n\n=== /q/b.rs ===\n   1| x\n   2| \n"));
    assert!(contents.ends_with("9999| x\n10000| \n\n"));
}
