use cairo_project_setup::file_set::{str_lt, FileSet};
use cairo_project_setup::path::{split_virtual_path, PathError};
use cairo_project_setup::project::{is_blank_str, is_whitespace};

#[test]
fn well_formed_paths_split_and_join_back() {
    for path in ["a", "a/b/c.src", "lib.cairo", "x/.hidden/y", "a/b..c/d", "é/ü"] {
        let segments = split_virtual_path(path).unwrap();
        assert_eq!(segments.join("/"), path);
    }
    assert_eq!(split_virtual_path("a/b/c.src").unwrap(), vec!["a", "b", "c.src"]);
}

#[test]
fn malformed_paths_are_rejected_by_rule() {
    assert_eq!(split_virtual_path(""), Err(PathError::Empty));
    assert_eq!(split_virtual_path("/a"), Err(PathError::AbsoluteOrTrailingSlash));
    assert_eq!(split_virtual_path("a/"), Err(PathError::AbsoluteOrTrailingSlash));
    assert_eq!(split_virtual_path("/"), Err(PathError::AbsoluteOrTrailingSlash));
    assert_eq!(split_virtual_path("a//b"), Err(PathError::IllegalSegment));
    assert_eq!(split_virtual_path("../bad"), Err(PathError::IllegalSegment));
    assert_eq!(split_virtual_path("a/../b"), Err(PathError::IllegalSegment));
    assert_eq!(split_virtual_path("./a"), Err(PathError::IllegalSegment));
    assert_eq!(split_virtual_path(".."), Err(PathError::IllegalSegment));
    assert_eq!(split_virtual_path("."), Err(PathError::IllegalSegment));
}

#[test]
fn file_set_keeps_lexicographic_order_and_unique_paths() {
    let mut files = FileSet::new();
    files.insert("lib.cairo", "1");
    files.insert("../bad", "2");
    files.insert("b", "3");
    files.insert("lib.cairo", "4");
    assert_eq!(files.len(), 3);
    assert_eq!(files.entry(0), ("../bad", "2"));
    assert_eq!(files.entry(1), ("b", "3"));
    assert_eq!(files.entry(2), ("lib.cairo", "4"));
    assert!(files.contains_key("b"));
    assert!(!files.contains_key("c"));
}

#[test]
fn string_order_is_by_code_point() {
    assert!(str_lt("a", "b"));
    assert!(str_lt("", "a"));
    assert!(str_lt("ab", "abc"));
    assert!(!str_lt("abc", "ab"));
    assert!(!str_lt("a", "a"));
    assert!(str_lt("Z", "a"));
    assert!(str_lt("z", "é"));
}

#[test]
fn white_space_follows_the_unicode_property() {
    for c in [' ', '\t', '\n', '\r', '\u{0b}', '\u{0c}', '\u{85}', '\u{a0}', '\u{2003}', '\u{3000}'] {
        assert!(is_whitespace(c));
        assert_eq!(is_whitespace(c), c.is_whitespace());
    }
    for c in ['a', '_', '0', '\u{200b}'] {
        assert!(!is_whitespace(c));
        assert_eq!(is_whitespace(c), c.is_whitespace());
    }
    assert!(is_blank_str(""));
    assert!(is_blank_str(" \t "));
    assert!(!is_blank_str(" x "));
}
