//! The order of the walked files, checked against `std::path::Path`.

use margay::walker::{compare_paths, components_of, sort_paths};
use std::cmp::Ordering;
use std::path::PathBuf;

const PATHS: &[&str] = &[
    "./b", "./a/c", "./a", "/x", "../y", "./A", ".", "./", "a//b", "a/./b", "a/b/", "/", "",
    "./.env", "./a.b", "./a-b", "./a/b/../c", "..", "./..", "a", "/a", ".hidden", "./x/.", "b/a",
    "./deploy.sh", "./README.md", "./lib.rs", "./sub/dir/file.txt", "./sub/dir", "./sub",
];

#[test]
fn components_of_paths() {
    assert_eq!(
        components_of(b"./a//b/./.."),
        vec![(2, vec![]), (4, b"a".to_vec()), (4, b"b".to_vec()), (3, vec![])]
    );
    assert_eq!(components_of(b"/"), vec![(1, vec![])]);
    assert_eq!(components_of(b"/./x/"), vec![(1, vec![]), (4, b"x".to_vec())]);
    assert!(components_of(b"").is_empty());
}

#[test]
fn comparison_agrees_with_std() {
    for a in PATHS {
        for b in PATHS {
            let want = match PathBuf::from(a).cmp(&PathBuf::from(b)) {
                Ordering::Less => -1,
                Ordering::Equal => 0,
                Ordering::Greater => 1,
            };
            assert_eq!(compare_paths(a.as_bytes(), b.as_bytes()), want, "{a} vs {b}");
        }
    }
}

#[test]
fn sort_agrees_with_std() {
    let mut want: Vec<PathBuf> = PATHS.iter().map(PathBuf::from).collect();
    want.sort();
    let got = sort_paths(PATHS.iter().map(|p| p.as_bytes().to_vec()).collect());
    let got: Vec<PathBuf> = got.iter().map(|b| PathBuf::from(String::from_utf8(b.clone()).unwrap())).collect();
    assert_eq!(got, want);
    assert!(sort_paths(Vec::new()).is_empty());
}

#[test]
fn same_paths_keep_their_order() {
    let input: Vec<Vec<u8>> = ["b", "a/", "./c", "a", "a//", "c"].iter().map(|p| p.as_bytes().to_vec()).collect();
    let got = sort_paths(input);
    let want: Vec<Vec<u8>> = ["./c", "a/", "a", "a//", "b", "c"].iter().map(|p| p.as_bytes().to_vec()).collect();
    assert_eq!(got, want);
}
