use dir_cache::error::ErrorKind;
use dir_cache::path_util::{is_safe_key, join_path, path_components, relativize, safe_join};

fn joined(parts: &[&str]) -> Vec<u8> {
    let mut path: Vec<u8> = Vec::new();
    for part in parts {
        path = join_path(&path, part.as_bytes());
    }
    path
}

#[test]
fn relativize_happy() {
    let base = joined(&["a", "b", "c"]);
    let ext = join_path(&base, b"d");
    let relative = relativize(&base, &ext).unwrap();
    assert_eq!(b"d".to_vec(), relative);
    let longer_ext = joined(&["a", "b", "c", "e", "f", "g"]);
    let relative = relativize(&base, &longer_ext).unwrap();
    assert_eq!(joined(&["e", "f", "g"]), relative);
}

#[test]
fn relativize_sad() {
    let base = joined(&["a", "b", "c"]);
    let ext_too_short = joined(&["a", "b"]);
    // Ext shorter than base not allowed
    assert!(relativize(&base, &ext_too_short).is_err());
    // Identical not allowed
    assert!(relativize(&base, &base).is_err());
    let ext_different = joined(&["a", "c", "c"]);
    // Ext not an extension of base
    assert!(relativize(&base, &ext_different).is_err());
}

#[test]
fn safe_join_happy() {
    let base = b"base";
    safe_join(base, b"some_other_path").unwrap();
    safe_join(base, b"some/other/path").unwrap();
    safe_join(base, b"some\\other\\path").unwrap();
}

#[test]
fn safe_join_sad() {
    let base = b"/tmp/fuzz-run-166924lGJEQ/";
    assert!(safe_join(base, b"/root").is_err());
    assert!(safe_join(base, b".").is_err());
    assert!(safe_join(base, b"..").is_err());
    assert!(safe_join(base, b"hello/../../../etc/shadow").is_err());
    assert!(safe_join(base, b"fuzz-run-389boHa9s/s/./\"").is_err());
    assert!(safe_join(base, b"dir-cache-manifest.txt/.").is_err());
    assert!(safe_join(base, b"nullterm\0").is_err());
}

#[test]
fn safe_join_gives_the_joined_path() {
    assert_eq!(b"base/some/other/path".to_vec(), safe_join(b"base", b"some/other/path").unwrap());
    assert_eq!(b"base/key".to_vec(), safe_join(b"base/", b"key").unwrap());
    assert_eq!(b"key".to_vec(), safe_join(b"", b"key").unwrap());
    assert_eq!(b"/key".to_vec(), safe_join(b"/", b"key").unwrap());
}

#[test]
fn safe_join_refuses_with_dangerous_key() {
    for key in [
        &b""[..],
        b"/",
        b"a/",
        b"/a",
        b"a//b",
        b"./a",
        b"a/./b",
        b"a/..",
        b"a\0b",
    ] {
        let err = safe_join(b"base", key).unwrap_err();
        assert_eq!(ErrorKind::DangerousKey, err.kind());
    }
}

#[test]
fn relativize_passes_over_empty_pieces_and_dots() {
    assert_eq!(b"d".to_vec(), relativize(b"a//b/", b"a/b/./d").unwrap());
    assert_eq!(b"d/e".to_vec(), relativize(b"/", b"/d/e").unwrap());
    assert_eq!(b"d".to_vec(), relativize(b"", b"d").unwrap());
    assert_eq!(b"..".to_vec(), relativize(b"a", b"a/..").unwrap());
    let err = relativize(b"a/b", b"a/c/d").unwrap_err();
    assert_eq!(ErrorKind::PathRelativize, err.kind());
}

#[test]
fn key_is_found_again_from_the_path_of_its_directory() {
    for base in [
        &b""[..],
        b"/",
        b"root",
        b"root/",
        b"/tmp/cache root",
        b"./here",
        b"a/../b",
        b"a//b/",
        b".",
    ] {
        for key in [
            &b"k"[..],
            b"dummykey",
            b"k/sub",
            b"some/other/path",
            b"some\\other\\path",
            b"...",
            b".hidden/..twice",
        ] {
            let dir = safe_join(base, key).unwrap();
            assert_eq!(key.to_vec(), relativize(base, &dir).unwrap());
        }
    }
}

#[test]
fn safe_key_is_told_without_joining() {
    assert!(is_safe_key(b"k/sub"));
    assert!(is_safe_key(b".k"));
    assert!(is_safe_key(b"k."));
    assert!(is_safe_key(b". "));
    assert!(is_safe_key(b"\\"));
    assert!(!is_safe_key(b""));
    assert!(!is_safe_key(b"k/sub/"));
    assert!(!is_safe_key(b"../k"));
    assert!(!is_safe_key(b"k\0/sub"));
    assert_eq!(
        vec![b"/".to_vec(), b"a".to_vec(), b"..".to_vec(), b"b".to_vec()],
        path_components(b"//a/./../b/")
    );
    assert_eq!(
        vec![b".".to_vec(), b"a".to_vec()],
        path_components(b"./a/.")
    );
    assert_eq!(Vec::<Vec<u8>>::new(), path_components(b""));
}
