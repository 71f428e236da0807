//! Operations on paths, held against those of the standard library.

use std::path::Path;
use tonic::path::{file_name, is_absolute, is_same_path, join, parent, strip_prefix};

const SAMPLES: [&str; 26] = [
    "",
    "/",
    "//",
    ".",
    "./",
    "..",
    "/.",
    "/..",
    "a",
    "a/",
    "./a",
    "a/.",
    "a/..",
    "/a",
    "/a/",
    "/a//b",
    "/a/b",
    "/a/./b/",
    "/a/../b",
    "a/b/c",
    "/src/myrepo.git",
    "/src/myrepo.git/main",
    ".git",
    "./.git",
    "/a/b/c/..",
    "/ä→/b",
];

fn shown(p: Option<&Path>) -> Option<&str> {
    p.map(|p| p.to_str().unwrap())
}

#[test]
fn parts_of_a_path() {
    for s in SAMPLES {
        let p = Path::new(s);
        assert_eq!(is_absolute(s), p.is_absolute(), "{s}");
        assert_eq!(parent(s).as_deref(), shown(p.parent()), "{s}");
        assert_eq!(file_name(s).as_deref(), p.file_name().map(|n| n.to_str().unwrap()), "{s}");
    }
}

#[test]
fn pairs_of_paths() {
    for a in SAMPLES {
        for b in SAMPLES {
            let (p, q) = (Path::new(a), Path::new(b));
            assert_eq!(join(a, b), p.join(q).to_str().unwrap(), "{a} {b}");
            assert_eq!(is_same_path(a, b), p == q, "{a} {b}");
            assert_eq!(strip_prefix(a, b).as_deref(), shown(p.strip_prefix(q).ok()), "{a} {b}");
        }
    }
}
