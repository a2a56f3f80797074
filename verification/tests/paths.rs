use std::path::{Component, Path};
use transfer_plan::order::paths_in_order;
use transfer_plan::path::FilePath;
use transfer_plan::pathset::{distinct_paths, PathSet};

const SAMPLES: [&str; 40] = [
    "", "/", "//", "///", ".", "./", "..", "../", "a", "a/", "a//", "a/.", "a/./", "a/..", "./a",
    "././a", "/a", "//a", "/a/", "/a/b", "/a//b", "/a/./b", "/a/b/", "/a/b/.", "/a/b/..", "a/b",
    "a/b/c", "/.", "/./", "/..", "/../a", "./.", ".//.", ".a", "a.b/c.d", "/a/bc", "/ab", "é/è",
    "/media/usb", "/media/usb/x",
];

fn path(text: &str) -> FilePath {
    FilePath::from_text(text)
}

fn text(p: &FilePath) -> String {
    String::from_utf8(p.as_bytes().clone()).unwrap()
}

fn names(p: &Path) -> Vec<String> {
    p.components()
        .map(|c| match c {
            Component::RootDir => "/".to_string(),
            other => other.as_os_str().to_str().unwrap().to_string(),
        })
        .collect()
}

#[test]
fn components_are_those_of_the_standard_library() {
    for s in SAMPLES {
        let found: Vec<String> = path(s)
            .components()
            .into_iter()
            .map(|c| String::from_utf8(c).unwrap())
            .collect();
        assert_eq!(found, names(Path::new(s)), "{:?}", s);
        assert_eq!(path(s).component_count(), Path::new(s).components().count());
        assert_eq!(path(s).is_absolute(), Path::new(s).is_absolute());
    }
}

#[test]
fn parents_are_those_of_the_standard_library() {
    for s in SAMPLES {
        let found = path(s).parent().map(|p| text(&p));
        let expected = Path::new(s).parent().map(|p| p.to_str().unwrap().to_string());
        assert_eq!(found, expected, "{:?}", s);
    }
}

#[test]
fn file_names_are_those_of_the_standard_library() {
    for s in SAMPLES {
        let found = path(s).file_name().map(|n| String::from_utf8(n).unwrap());
        let expected = Path::new(s).file_name().map(|n| n.to_str().unwrap().to_string());
        assert_eq!(found, expected, "{:?}", s);
    }
}

#[test]
fn pairs_behave_as_in_the_standard_library() {
    for a in SAMPLES {
        for b in SAMPLES {
            let (x, y) = (path(a), path(b));
            let (p, q) = (Path::new(a), Path::new(b));
            assert_eq!(text(&x.join(&y)), p.join(q).to_str().unwrap(), "{:?} {:?}", a, b);
            assert_eq!(x.starts_with(&y), p.starts_with(q), "{:?} {:?}", a, b);
            assert_eq!(x.same_as(&y), p == q, "{:?} {:?}", a, b);
            assert_eq!(paths_in_order(&x, &y), p <= q, "{:?} {:?}", a, b);
            let found = x.strip_prefix(&y).map(|r| text(&r));
            let expected = p.strip_prefix(q).ok().map(|r| r.to_str().unwrap().to_string());
            assert_eq!(found, expected, "{:?} {:?}", a, b);
        }
    }
}

#[test]
fn sets_hold_a_path_once() {
    let mut set = PathSet::new();
    assert!(set.insert(path("/a/b")));
    assert!(!set.insert(path("/a//b/")));
    assert!(set.insert(path("/a")));
    assert_eq!(set.len(), 2);
    assert!(set.contains(&path("/a/./b")));
    assert!(!set.contains(&path("/b")));
    let all: Vec<String> = set.to_vec().iter().map(text).collect();
    assert_eq!(all, vec!["/a/b", "/a"]);
    set.clear();
    assert_eq!(set.len(), 0);
}

#[test]
fn the_first_of_equal_paths_stays() {
    let list = vec![path("/m/1"), path("/m/2"), path("/m/1/"), path("/m//2"), path("/m/3")];
    let kept: Vec<String> = distinct_paths(&list).iter().map(text).collect();
    assert_eq!(kept, vec!["/m/1", "/m/2", "/m/3"]);
}
