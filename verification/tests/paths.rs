use std::path::Path;

use http_file_server::paths::{extension, join, starts_with};

const PATHS: [&str; 22] = [
    "", "/", "//", ".", "..", "a", "a/", "/a", "/a/", "/a/b", "//a//b//", "/a/./b", "./a", "a/.",
    "/a/../b", "/a.b", "/a.b/c", ".a", "a.", "a..b", "/x.tar.gz", "...",
];

#[test]
fn joining_agrees_with_std() {
    for base in PATHS {
        for path in PATHS {
            let joined = Path::new(base).join(path);
            assert_eq!(join(base.as_bytes(), path.as_bytes()), joined.to_str().unwrap().as_bytes());
        }
    }
}

#[test]
fn prefixes_agree_with_std() {
    for path in PATHS {
        for base in PATHS {
            assert_eq!(
                starts_with(path.as_bytes(), base.as_bytes()),
                Path::new(path).starts_with(base),
                "{path:?} {base:?}"
            );
        }
    }
}

#[test]
fn extensions_agree_with_std() {
    for path in PATHS {
        assert_eq!(
            extension(path.as_bytes()),
            Path::new(path).extension().map(|ext| ext.to_str().unwrap().as_bytes()),
            "{path:?}"
        );
    }
}

#[test]
fn only_whole_components_match() {
    assert!(starts_with(b"/srv/www/a", b"/srv/www"));
    assert!(starts_with(b"/srv/www", b"/srv/www/"));
    assert!(!starts_with(b"/srv/www2", b"/srv/www"));
    assert!(!starts_with(b"/srv", b"/srv/www"));
}

#[test]
fn what_is_joined_lies_below() {
    for base in ["/", "/srv", "/srv/", "rel"] {
        for path in ["", "a", "a/b", "./a"] {
            let joined = join(base.as_bytes(), path.as_bytes());
            assert!(starts_with(&joined, base.as_bytes()));
        }
    }
}

#[test]
fn extension_follows_the_last_dot() {
    assert_eq!(extension(b"/x/a.tar.gz"), Some(&b"gz"[..]));
    assert_eq!(extension(b"/x/.hidden"), None);
    assert_eq!(extension(b"/x/a."), Some(&b""[..]));
    assert_eq!(extension(b"/x.y/a"), None);
    assert_eq!(extension(b"/x/a.\xff"), Some(&b"\xff"[..]));
}
