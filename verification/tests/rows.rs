//! Rows of the list, and which of them are shown.

use pkgr::json::Task;
use pkgr::ui::{label, matching};

fn task(name: &str, command: &str) -> Task {
    Task {
        name: name.into(),
        command: command.into(),
        description: String::new(),
    }
}

#[test]
fn label_pads_name_and_appends_command() {
    // "dev" padded to 5, then the two separating spaces.
    assert_eq!(label(&task("dev", "vite"), 5, 200), "dev    vite");
}

#[test]
fn label_includes_description_when_present() {
    let t = Task {
        name: "build".into(),
        command: "tsc".into(),
        description: "Compile".into(),
    };
    assert_eq!(label(&t, 5, 200), "build  tsc  (Compile)");
}

#[test]
fn label_falls_back_to_description() {
    let t = Task {
        name: "all".into(),
        command: String::new(),
        description: "Everything".into(),
    };
    assert_eq!(label(&t, 3, 200), "all  Everything");
}

#[test]
fn label_is_bare_name_when_nothing_else() {
    assert_eq!(label(&task("solo", ""), 4, 200), "solo");
}

#[test]
fn label_truncates_to_width() {
    let t = task("dev", &"x".repeat(200));
    let got = label(&t, 3, 40);
    assert_eq!(got.chars().count(), 36); // width - 4
    assert!(got.ends_with('…'));
}

#[test]
fn label_truncates_on_character_boundaries() {
    let t = task("i18n", &"é".repeat(100));
    let got = label(&t, 4, 30);
    assert!(got.is_char_boundary(got.len()));
    assert!(got.chars().all(|c| c != '\u{FFFD}'));
}

#[test]
fn filter_matches_name_and_command() {
    let tasks = vec![
        task("dev", "vite"),
        task("build", "tsc"),
        task("test", "vitest"),
    ];

    assert_eq!(matching(&tasks, ""), vec![0, 1, 2]);
    assert_eq!(matching(&tasks, "dev"), vec![0]);
    // "vit" appears in the command of both dev and test.
    assert_eq!(matching(&tasks, "vit"), vec![0, 2]);
    assert_eq!(matching(&tasks, "BUILD"), vec![1]); // case-insensitive
    assert!(matching(&tasks, "nope").is_empty());
}
