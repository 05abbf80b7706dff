//! The low-level scanning helpers of the preprocessor, and diagnostic
//! collections.

use posixutils_make::parser::preprocessor::{
    get_file_path, get_ident, skip_blank, suitable_ident, take_till_eol, PreprocError,
};

fn chars(s: &str) -> Vec<char> {
    s.chars().collect()
}

#[test]
fn skip_blank_advances_over_whitespace() {
    let v = chars("  \t x");
    assert_eq!(skip_blank(&v, 0), 4);
    assert_eq!(skip_blank(&v, 4), 4);
    assert_eq!(skip_blank(&v, 5), 5);
}

#[test]
fn suitable_ident_characters() {
    assert!(suitable_ident(&'a'));
    assert!(suitable_ident(&'Z'));
    assert!(suitable_ident(&'0'));
    assert!(suitable_ident(&'_'));
    assert!(suitable_ident(&'.'));
    assert!(!suitable_ident(&' '));
    assert!(!suitable_ident(&'$'));
    assert!(!suitable_ident(&'/'));
}

#[test]
fn get_ident_reads_a_name_or_reports() {
    let v = chars("NAME = value");
    let (name, end) = get_ident(&v, 0).unwrap();
    assert_eq!(name, "NAME");
    assert_eq!(end, 4);

    let err = get_ident(&v, 4).unwrap_err();
    assert_eq!(err.0, vec!["Empty ident".to_string()]);
}

#[test]
fn get_file_path_accepts_slashes() {
    let v = chars("dir/sub/file.mk rest");
    let (path, end) = get_file_path(&v, 0).unwrap();
    assert_eq!(path, "dir/sub/file.mk");
    assert_eq!(end, 15);

    let err = get_file_path(&v, 15).unwrap_err();
    assert_eq!(err.0, vec!["Empty ident".to_string()]);
}

#[test]
fn take_till_eol_stops_at_newline_or_comment() {
    let v = chars("value # comment\nnext");
    let (text, end) = take_till_eol(&v, 0);
    assert_eq!(text, "value ");
    assert_eq!(end, 6);

    let v = chars("all the rest");
    let (text, end) = take_till_eol(&v, 4);
    assert_eq!(text, "the rest");
    assert_eq!(end, 12);
}

#[test]
fn join_concatenates_diagnostics_in_order() {
    let a = PreprocError(vec!["first".to_string()]);
    let b = PreprocError(vec!["second".to_string(), "third".to_string()]);
    let joined = a.join(b);
    assert_eq!(
        joined.0,
        vec!["first".to_string(), "second".to_string(), "third".to_string()]
    );
}
