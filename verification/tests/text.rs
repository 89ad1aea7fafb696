//! Operations on text.

use pkgr::text::{
    append_decimal, count_lines, ends_with, join, lists, pad_to, same_text, to_folded, up_to,
};

fn strings(list: &[&str]) -> Vec<String> {
    list.iter().map(|s| s.to_string()).collect()
}

#[test]
fn texts_compare_letter_by_letter() {
    assert!(same_text("", ""));
    assert!(same_text("é😀", "é😀"));
    assert!(!same_text("a", "b"));
    assert!(!same_text("a", "ab"));
}

#[test]
fn texts_are_joined_and_listed() {
    assert_eq!(join(&strings(&[]), ", "), "");
    assert_eq!(join(&strings(&["a"]), ", "), "a");
    assert_eq!(join(&strings(&["a", "", "b"]), ", "), "a, , b");
    assert!(lists(&strings(&["x", "y"]), "y"));
    assert!(!lists(&strings(&["x", "y"]), "z"));
}

#[test]
fn numbers_are_written_in_decimal() {
    for n in [0usize, 7, 10, 99, 100, 65536, usize::MAX] {
        let mut out = "n=".to_string();
        append_decimal(&mut out, n);
        assert_eq!(out, format!("n={n}"));
    }
}

#[test]
fn texts_are_cut_folded_and_padded() {
    assert_eq!(up_to("pnpm@9@1", '@'), "pnpm");
    assert_eq!(up_to("pnpm", '@'), "pnpm");
    assert_eq!(up_to("@", '@'), "");
    assert_eq!(to_folded("AZaz[@É"), "azaz[@É");
    assert!(ends_with("abc", "bc"));
    assert!(ends_with("abc", ""));
    assert!(!ends_with("bc", "abc"));
    assert!(!ends_with("abé", "é "));
    let mut out = "ab".to_string();
    pad_to(&mut out, 2, 5);
    assert_eq!(out, "ab   ");
    pad_to(&mut out, 5, 2);
    assert_eq!(out, "ab   ");
}

#[test]
fn lines_are_counted_by_their_ends() {
    assert_eq!(count_lines(""), 0);
    assert_eq!(count_lines("a"), 0);
    assert_eq!(count_lines("a\né\r\n\n"), 3);
}
