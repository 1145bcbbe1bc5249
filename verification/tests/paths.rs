use kitsune2_transport_dtn::path::{join, normalize};
use std::path::Path;

const PATHS: [&str; 22] = [
    "", "/", "//", ".", "./", "./.", "..", "a", "a/", "a/b", "a//b/", "a/./b", "./a", "././a", "/a",
    "//a", "/./a", "/.", "a/..", "a/.b", "a/b/.", ".a",
];

#[test]
fn normal_paths_are_written_out() {
    let cases = [
        ("", ""),
        ("/", "/"),
        ("//", "/"),
        (".", "."),
        ("./", "."),
        ("././a", "./a"),
        ("/./a//b/", "/a/b"),
        ("a/./b/.", "a/b"),
        ("a/../b", "a/../b"),
    ];
    for (path, normal) in cases {
        assert_eq!(normalize(path.as_bytes()), normal.as_bytes(), "{path:?}");
    }
}

#[test]
fn normal_paths_stay_as_they_are() {
    for path in PATHS {
        let normal = normalize(path.as_bytes());
        assert_eq!(normalize(&normal), normal, "{path:?}");
    }
}

#[test]
fn paths_are_the_same_where_std_says_so() {
    for a in PATHS {
        for b in PATHS {
            assert_eq!(
                normalize(a.as_bytes()) == normalize(b.as_bytes()),
                Path::new(a) == Path::new(b),
                "{a:?} {b:?}"
            );
        }
    }
}

#[test]
fn paths_are_joined_as_std_joins_them() {
    for a in PATHS {
        for b in PATHS {
            let path = Path::new(a).join(b);
            assert_eq!(
                join(a.as_bytes(), b.as_bytes()),
                path.to_str().expect("text").as_bytes(),
                "{a:?} {b:?}"
            );
        }
    }
}

#[test]
fn a_joined_name_is_one_component_more() {
    for base in PATHS {
        let path = join(base.as_bytes(), b"name");
        let path = String::from_utf8(path).expect("text");
        assert_eq!(
            Path::new(&path).components().count(),
            Path::new(base).components().count() + 1,
            "{base:?}"
        );
    }
}
