use scaffold::model::PathError;
use scaffold::path::{
    format_path_namespace, get_real_path, path_escapes, remove_dir_prefix, valid_directory_path,
};

#[test]
fn format_path_namespace_replaces_backslashes() {
    let out = format_path_namespace(b"a\\b\\c.txt".to_vec());
    assert_eq!(out, b"a/b/c.txt".to_vec());
}

#[test]
fn format_path_namespace_keeps_forward_slashes() {
    let out = format_path_namespace(b"a/b/c.txt".to_vec());
    assert_eq!(out, b"a/b/c.txt".to_vec());
}

#[test]
fn valid_directory_path_accepts_plain_path() {
    assert!(valid_directory_path("my/project").is_ok());
}

#[test]
fn valid_directory_path_rejects_backslash() {
    assert_eq!(valid_directory_path("my\\project").unwrap_err(), PathError::InvalidDirectory);
}

#[test]
fn remove_dir_prefix_strips_directory_and_separator() {
    let out = remove_dir_prefix(b"dir/sub/file.txt".to_vec(), &b"dir".to_vec()).unwrap();
    assert_eq!(out, b"sub/file.txt".to_vec());
}

#[test]
fn remove_dir_prefix_rejects_other_directory() {
    let r = remove_dir_prefix(b"other/file.txt".to_vec(), &b"dir".to_vec());
    assert_eq!(r.unwrap_err(), PathError::MissingPrefix);
}

#[test]
fn remove_dir_prefix_of_exact_directory_is_empty() {
    let out = remove_dir_prefix(b"dir".to_vec(), &b"dir".to_vec()).unwrap();
    assert_eq!(out, Vec::<u8>::new());
}

#[test]
fn remove_dir_prefix_of_trailing_separator_is_empty() {
    let out = remove_dir_prefix(b"dir/".to_vec(), &b"dir".to_vec()).unwrap();
    assert_eq!(out, Vec::<u8>::new());
}

#[test]
fn remove_dir_prefix_collapses_doubled_separator() {
    let out = remove_dir_prefix(b"dir//sub".to_vec(), &b"dir".to_vec()).unwrap();
    assert_eq!(out, b"sub".to_vec());
}

#[test]
fn remove_dir_prefix_matches_components_across_separator_runs() {
    let out = remove_dir_prefix(b"a//b/c".to_vec(), &b"a/b".to_vec()).unwrap();
    assert_eq!(out, b"c".to_vec());
}

#[test]
fn remove_dir_prefix_rejects_empty_directory_and_path() {
    let r = remove_dir_prefix(Vec::new(), &Vec::new());
    assert_eq!(r.unwrap_err(), PathError::MissingPrefix);
}

#[test]
fn get_real_path_joins_with_separator() {
    let out = get_real_path(&b"root".to_vec(), &b"src/main.txt".to_vec());
    assert_eq!(out, b"root/src/main.txt".to_vec());
}

#[test]
fn get_real_path_keeps_trailing_separator() {
    let out = get_real_path(&b"root/".to_vec(), &b"src".to_vec());
    assert_eq!(out, b"root/src".to_vec());
}

#[test]
fn get_real_path_with_empty_root_is_relative() {
    let out = get_real_path(&Vec::new(), &b"src".to_vec());
    assert_eq!(out, b"src".to_vec());
}

#[test]
fn path_escapes_flags_parent_traversal() {
    assert!(path_escapes(&b"../secret".to_vec()));
    assert!(path_escapes(&b"a/../b".to_vec()));
    assert!(path_escapes(&b"a/..".to_vec()));
}

#[test]
fn path_escapes_flags_absolute_path() {
    assert!(path_escapes(&b"/etc/passwd".to_vec()));
}

#[test]
fn path_escapes_flags_backslash_traversal() {
    assert!(path_escapes(&b"..\\x".to_vec()));
    assert!(path_escapes(&b"a\\..\\b".to_vec()));
    assert!(path_escapes(&b"\\x".to_vec()));
}

#[test]
fn path_escapes_accepts_plain_backslash_segments() {
    assert!(!path_escapes(&b"a\\b".to_vec()));
}

#[test]
fn path_escapes_accepts_ordinary_relative_paths() {
    assert!(!path_escapes(&b"a/b/c".to_vec()));
    assert!(!path_escapes(&b"a..b/c".to_vec()));
    assert!(!path_escapes(&b"..a/b".to_vec()));
}
