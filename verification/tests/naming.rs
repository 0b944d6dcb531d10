use cstr_core::CStr;
use namei::path::{FileName, Path, DIRSIZ};

fn path_of(bytes: &[u8]) -> Path {
    Path::from_bytes(bytes).expect("path bytes hold a NUL")
}

fn components(bytes: &[u8]) -> Vec<Vec<u8>> {
    let mut out: Vec<Vec<u8>> = Vec::new();
    let mut cur = path_of(bytes);
    while let Some((rest, name)) = cur.skipelem() {
        out.push(name.as_bytes().to_vec());
        cur = rest;
    }
    out
}

#[test]
fn filename_rejects_nul() {
    assert!(FileName::from_bytes(b"a\0b").is_none());
    assert!(FileName::from_bytes(b"\0").is_none());
    assert!(FileName::from_bytes(b"plain").is_some());
    assert!(FileName::from_bytes(b"").is_some());
}

#[test]
fn filename_truncates_long_names() {
    let n = FileName::from_bytes(b"abcdefghijklmnop").unwrap();
    assert_eq!(n.as_bytes().len(), DIRSIZ);
    assert_eq!(n.as_bytes(), b"abcdefghijklmn");
    let exact = FileName::from_bytes(b"abcdefghijklmn").unwrap();
    assert_eq!(exact.as_bytes(), b"abcdefghijklmn");
}

#[test]
fn path_rejects_nul() {
    assert!(Path::from_bytes(b"a/\0b").is_none());
    assert!(Path::from_bytes(b"a/b").is_some());
}

#[test]
fn walker_splits_components_in_order() {
    assert_eq!(components(b"a/bb/c"), vec![b"a".to_vec(), b"bb".to_vec(), b"c".to_vec()]);
}

#[test]
fn walker_skips_redundant_separators() {
    assert_eq!(components(b"///a//bb"), vec![b"a".to_vec(), b"bb".to_vec()]);
}

#[test]
fn walker_single_component() {
    assert_eq!(components(b"a"), vec![b"a".to_vec()]);
}

#[test]
fn walker_empty_and_all_separators() {
    assert!(components(b"").is_empty());
    assert!(components(b"////").is_empty());
}

#[test]
fn walker_first_step_remainders() {
    let (rest, name) = path_of(b"a/bb/c").skipelem().unwrap();
    assert_eq!(rest.as_bytes(), b"bb/c");
    assert_eq!(name.as_bytes(), b"a");
    let (rest, name) = path_of(b"///a//bb").skipelem().unwrap();
    assert_eq!(rest.as_bytes(), b"bb");
    assert_eq!(name.as_bytes(), b"a");
    let (rest, name) = path_of(b"a").skipelem().unwrap();
    assert_eq!(rest.as_bytes(), b"");
    assert_eq!(name.as_bytes(), b"a");
}

#[test]
fn walker_truncates_long_component() {
    let (_, name) = path_of(b"abcdefghijklmnop/x").skipelem().unwrap();
    assert_eq!(name.as_bytes(), b"abcdefghijklmn");
}

#[test]
fn is_absolute_looks_at_first_byte() {
    assert!(path_of(b"/a").is_absolute());
    assert!(!path_of(b"a/b").is_absolute());
    assert!(!path_of(b"").is_absolute());
}

#[test]
fn path_from_cstr_drops_only_the_terminator() {
    let c = CStr::from_bytes_with_nul(b"a/b\0").unwrap();
    let p = Path::new(c);
    assert_eq!(p.as_bytes(), b"a/b");
    assert_eq!(components(b"a/b"), vec![b"a".to_vec(), b"b".to_vec()]);
    let empty = CStr::from_bytes_with_nul(b"\0").unwrap();
    assert_eq!(Path::new(empty).as_bytes(), b"");
}
