//! Paths and URIs, held against `std::path`.
use std::path::Path;

use gitlab_mr_lsp::paths::{
    file_of_uri, is_same_path, join_path, path_under, uri_in, uri_of_file, uri_to_repo_path,
};

const PATHS: [&str; 27] = [
    "",
    "/",
    "//",
    "/.",
    "/./",
    "/a",
    "/a/",
    "/a/b",
    "/a//b/",
    "/a/./b",
    "/a/b/.",
    "/a/b/./",
    "/a/..",
    "/a/../b",
    "/ab",
    "/a/bc/d.rs",
    "/a/b/c/d.rs",
    "a",
    "a/b",
    "a/b/c",
    "./a",
    "./a/b",
    ".",
    "./",
    "..",
    "../a",
    ".git/config",
];

fn std_strip(path: &str, root: &str) -> Option<String> {
    Path::new(path).strip_prefix(root).ok().map(|p| p.to_string_lossy().into_owned())
}

#[test]
fn stripping_a_root_is_what_paths_do() {
    for path in PATHS {
        for root in PATHS {
            assert_eq!(
                path_under(path, root),
                std_strip(path, root),
                "{:?} under {:?}",
                path,
                root
            );
        }
    }
}

#[test]
fn paths_are_compared_by_components() {
    for a in PATHS {
        for b in PATHS {
            assert_eq!(
                is_same_path(a, b),
                Path::new(a) == Path::new(b),
                "{:?} {:?}",
                a,
                b
            );
        }
    }
}

#[test]
fn joining_is_what_paths_do() {
    for root in ["", "/", "/repo", "/repo/", "rel"] {
        for part in ["src/main.rs", "/abs", "", "x", "./y"] {
            assert_eq!(
                join_path(root, part),
                Path::new(root).join(part).to_string_lossy(),
                "{:?} {:?}",
                root,
                part
            );
        }
    }
}

#[test]
fn a_joined_file_is_found_again() {
    for root in ["/", "/repo", "/repo/", "/a/./b//c"] {
        let path = join_path(root, "src/lib.rs");
        assert_eq!(path_under(&path, root).as_deref(), Some("src/lib.rs"));
    }
}

#[test]
fn files_have_uris() {
    assert_eq!(uri_of_file("/repo/src/main.rs").as_deref(), Some("file:///repo/src/main.rs"));
    assert_eq!(uri_of_file("/with space/ü#").as_deref(), Some("file:///with%20space/%C3%BC%23"));
    assert_eq!(uri_of_file("src/main.rs"), None);
    assert_eq!(uri_of_file(""), None);
}

#[test]
fn uris_have_files() {
    assert_eq!(file_of_uri("file:///repo/src/main.rs").as_deref(), Some("/repo/src/main.rs"));
    assert_eq!(file_of_uri("file:///with%20space/%C3%BC").as_deref(), Some("/with space/ü"));
    assert_eq!(file_of_uri("file://elsewhere/x"), None);
    assert_eq!(file_of_uri("mailto:someone"), None);
    assert_eq!(file_of_uri("no scheme"), None);
    assert_eq!(file_of_uri("file:///a/%C3%28").as_deref(), Some("/a/\u{fffd}("));
}

#[test]
fn a_drive_alone_and_a_host_alone() {
    assert_eq!(file_of_uri("file:///C:").as_deref(), Some("/C:/"));
    assert_eq!(file_of_uri("file:///c%3a").as_deref(), Some("/c:/"));
    assert_eq!(file_of_uri("file://localhost/C:").as_deref(), Some("/C:/"));
    assert_eq!(file_of_uri("file:///C:/x").as_deref(), Some("/C:/x"));
    assert_eq!(file_of_uri("file:///CC:").as_deref(), Some("/CC:/"));
    assert_eq!(file_of_uri("file://host/"), None);
    assert_eq!(file_of_uri("file://host"), None);
    assert_eq!(file_of_uri("file://host/%5Cshare"), None);
    assert_eq!(file_of_uri("file://host/share/x"), None);
    assert_eq!(file_of_uri("file:///").as_deref(), Some("/"));
}

#[test]
fn a_uri_leads_to_the_file_in_the_repository() {
    assert_eq!(uri_to_repo_path("file:///repo/src/a.rs", "/repo").as_deref(), Some("src/a.rs"));
    assert_eq!(uri_to_repo_path("file:///repo2/src/a.rs", "/repo"), None);
    assert_eq!(uri_to_repo_path("file:///repo/a.rs", "").as_deref(), Some("/repo/a.rs"));
    assert_eq!(uri_to_repo_path("untitled", "/repo"), None);
}

#[test]
fn the_uri_of_a_repository_file_leads_back_to_it() {
    for file in ["src/lib.rs", "with space/ü.rs", "100%/#1?.md", "a:b/c|d", "back\\slash", "日本/{x}"] {
        for root in ["/home/me/repo", "/home/me/repo/", "/home/a b"] {
            let uri = uri_in(root, file).unwrap();
            assert_eq!(uri_to_repo_path(&uri, root).as_deref(), Some(file), "{}", uri);
        }
    }
    assert_eq!(uri_in("/r", "a b.rs").as_deref(), Some("file:///r/a%20b.rs"));
    assert_eq!(uri_in("", "a.rs"), None);
}

#[test]
fn plain_names_need_no_escape() {
    let path = "/r/.github/a~b@c,(1)[2]!$&;=+_-x.rs";
    let uri = format!("file://{}", path);
    assert_eq!(uri_of_file(path), Some(uri.clone()));
    assert_eq!(file_of_uri(&uri).as_deref(), Some(path));
}
