//! The picker, driven by a console written outside the library.

use std::collections::VecDeque;
use std::io;

use pkgr::json::Task;
use pkgr::ui::{
    contains_ignore_ascii_case, label, matching, run_picker, Console, Error, Key, MAX_ROWS,
};

fn task(name: &str, command: &str) -> Task {
    Task {
        name: name.into(),
        command: command.into(),
        description: String::new(),
    }
}

fn tasks(names: &[&str]) -> Vec<Task> {
    names.iter().map(|n| task(n, "cmd")).collect()
}

/// Names rendered in a frame, in the order they appear, with the selected one
/// prefixed by ">".
fn rows(frame: &str) -> Vec<String> {
    frame
        .lines()
        .filter(|l| l.contains("cmd"))
        .map(|l| {
            let selected = l.contains("\x1b[7m");
            let name = l
                .replace("\x1b[7m", "")
                .replace("\x1b[0m", "")
                .trim_start_matches(['>', ' '])
                .split_whitespace()
                .next()
                .unwrap_or("")
                .to_string();
            if selected {
                format!(">{name}")
            } else {
                name
            }
        })
        .collect()
}

/// Types each character as a filter keystroke.
fn typed(s: &str) -> Vec<Key> {
    s.chars().map(Key::Char).collect()
}

/// A console driven by a fixed list of keypresses, capturing what the picker
/// draws.
struct Recorder {
    keys: VecDeque<Key>,
    frames: Vec<String>,
    cleared: Vec<usize>,
    width: usize,
}

impl Recorder {
    fn new(keys: &[Key]) -> Self {
        Recorder {
            keys: keys.iter().copied().collect(),
            frames: Vec::new(),
            cleared: Vec::new(),
            width: 200,
        }
    }

    /// The frame drawn just before the last key was consumed.
    fn last_frame(&self) -> &str {
        self.frames.last().map(String::as_str).unwrap_or("")
    }
}

impl Console for Recorder {
    fn width(&self) -> usize {
        self.width
    }
    fn write(&mut self, s: &str) -> io::Result<()> {
        self.frames.push(s.to_string());
        Ok(())
    }
    fn clear(&mut self, lines: usize) -> io::Result<()> {
        self.cleared.push(lines);
        Ok(())
    }
    fn read_key(&mut self) -> Result<Key, Error> {
        // Running dry means the test forgot to commit or cancel; ending the
        // loop is better than hanging.
        self.keys.pop_front().ok_or(Error::Cancelled)
    }
}

fn press(keys: &[Key], names: &[&str]) -> (Result<usize, Error>, Recorder) {
    let list = tasks(names);
    let mut term = Recorder::new(keys);
    let result = run_picker(&mut term, "Select a task", &list);
    (result, term)
}

// -- navigation ---------------------------------------------------------

#[test]
fn mod_enter_selects_the_first_task() {
    let (result, _) = press(&[Key::Enter], &["dev", "build", "test"]);
    assert_eq!(result.unwrap(), 0);
}

#[test]
fn mod_down_moves_the_cursor() {
    let (result, _) = press(
        &[Key::Down, Key::Down, Key::Enter],
        &["dev", "build", "test"],
    );
    assert_eq!(result.unwrap(), 2);
}

#[test]
fn mod_up_moves_back() {
    let (result, _) = press(
        &[Key::Down, Key::Down, Key::Up, Key::Enter],
        &["a", "b", "c"],
    );
    assert_eq!(result.unwrap(), 1);
}

#[test]
fn mod_up_at_the_top_stays_put() {
    let (result, _) = press(&[Key::Up, Key::Up, Key::Up, Key::Enter], &["a", "b", "c"]);
    assert_eq!(result.unwrap(), 0);
}

#[test]
fn mod_down_at_the_bottom_stays_put() {
    let keys = [Key::Down, Key::Down, Key::Down, Key::Down, Key::Enter];
    let (result, _) = press(&keys, &["a", "b", "c"]);
    assert_eq!(result.unwrap(), 2);
}

#[test]
fn mod_home_and_end_jump_to_the_ends() {
    let (result, _) = press(&[Key::End, Key::Enter], &["a", "b", "c"]);
    assert_eq!(result.unwrap(), 2);

    let (result, _) = press(&[Key::End, Key::Home, Key::Enter], &["a", "b", "c"]);
    assert_eq!(result.unwrap(), 0);
}

#[test]
fn mod_a_single_task_cannot_be_moved_off() {
    let keys = [Key::Down, Key::Up, Key::End, Key::Home, Key::Enter];
    let (result, _) = press(&keys, &["only"]);
    assert_eq!(result.unwrap(), 0);
}

#[test]
fn mod_ignored_keys_change_nothing() {
    let keys = [Key::Down, Key::Ignored, Key::Ignored, Key::Enter];
    let (result, _) = press(&keys, &["a", "b", "c"]);
    assert_eq!(result.unwrap(), 1);
}

// -- cancelling ---------------------------------------------------------

#[test]
fn mod_cancel_returns_cancelled_and_clears_the_frame() {
    let (result, term) = press(&[Key::Cancel], &["a", "b"]);
    assert!(matches!(result, Err(Error::Cancelled)));
    assert_eq!(term.cleared.len(), 1, "the drawn frame must be erased");
}

#[test]
fn mod_committing_clears_the_frame_too() {
    let (result, term) = press(&[Key::Down, Key::Enter], &["a", "b"]);
    assert!(result.is_ok());
    // Cleared by exactly the number of lines last drawn, or the erase
    // would eat unrelated scrollback.
    assert_eq!(
        term.cleared,
        vec![term.frames.last().unwrap().lines().count()]
    );
}

// -- filtering ----------------------------------------------------------

/// The cursor indexes the filtered view, so committing has to map back to
/// the original position. Getting this wrong runs the wrong script.
#[test]
fn mod_filtering_returns_the_original_index() {
    let names = ["dev", "build", "test", "lint"];

    let mut keys = typed("bui");
    keys.push(Key::Enter);
    let (result, _) = press(&keys, &names);
    assert_eq!(result.unwrap(), 1, "should select build");

    let mut keys = typed("lin");
    keys.push(Key::Enter);
    let (result, _) = press(&keys, &names);
    assert_eq!(result.unwrap(), 3, "should select lint");
}

#[test]
fn mod_filtering_then_navigating_maps_back_correctly() {
    // "t" matches test and lint; Down picks the second of those.
    let mut keys = typed("t");
    keys.extend([Key::Down, Key::Enter]);
    let (result, _) = press(&keys, &["dev", "build", "test", "lint"]);
    assert_eq!(result.unwrap(), 3);
}

#[test]
fn mod_filtering_is_case_insensitive() {
    let mut keys = typed("BUILD");
    keys.push(Key::Enter);
    let (result, _) = press(&keys, &["dev", "build"]);
    assert_eq!(result.unwrap(), 1);
}

#[test]
fn mod_backspace_widens_the_filter_again() {
    let mut keys = typed("build");
    keys.extend([Key::Backspace; 5]);
    keys.extend([Key::Down, Key::Enter]);
    let (result, term) = press(&keys, &["dev", "build", "test"]);

    assert_eq!(
        result.unwrap(),
        1,
        "full list restored, so Down lands on build"
    );
    assert_eq!(rows(term.last_frame()).len(), 3);
}

#[test]
fn mod_backspace_on_an_empty_filter_is_harmless() {
    let keys = [Key::Backspace, Key::Backspace, Key::Enter];
    let (result, _) = press(&keys, &["a", "b"]);
    assert_eq!(result.unwrap(), 0);
}

#[test]
fn mod_filtering_resets_the_cursor() {
    // Move down first; the filter must not leave the cursor out of range.
    let mut keys = vec![Key::Down, Key::Down];
    keys.extend(typed("dev"));
    keys.push(Key::Enter);
    let (result, _) = press(&keys, &["dev", "build", "test"]);
    assert_eq!(result.unwrap(), 0);
}

/// With nothing matching there is no cursor position, so Enter must not
/// commit anything.
#[test]
fn mod_enter_does_nothing_when_the_filter_matches_nothing() {
    let mut keys = typed("zzz");
    keys.push(Key::Enter);
    keys.push(Key::Enter);
    keys.push(Key::Cancel);
    let (result, term) = press(&keys, &["dev", "build"]);

    assert!(matches!(result, Err(Error::Cancelled)));
    assert!(term.last_frame().contains("nothing matches"));
}

#[test]
fn mod_recovering_from_an_empty_filter_still_selects() {
    let mut keys = typed("zzz");
    keys.extend([Key::Backspace; 3]);
    keys.extend([Key::Down, Key::Enter]);
    let (result, _) = press(&keys, &["dev", "build"]);
    assert_eq!(result.unwrap(), 1);
}

// -- scrolling ----------------------------------------------------------

#[test]
fn mod_the_window_scrolls_with_the_cursor() {
    let names: Vec<String> = (0..30).map(|i| format!("task{i:02}")).collect();
    let refs: Vec<&str> = names.iter().map(String::as_str).collect();

    // Walk past the bottom of the visible window.
    let mut keys = vec![Key::Down; 20];
    keys.push(Key::Enter);
    let (result, term) = press(&keys, &refs);

    assert_eq!(result.unwrap(), 20);

    let rows = rows(term.last_frame());
    assert_eq!(rows.len(), MAX_ROWS, "the list is capped at MAX_ROWS");
    assert_eq!(
        rows.last().unwrap(),
        ">task20",
        "the cursor should be the bottom visible row"
    );
    assert_eq!(
        rows.first().unwrap(),
        "task06",
        "window should have scrolled"
    );
}

#[test]
fn mod_scrolling_back_up_moves_the_window_with_it() {
    let names: Vec<String> = (0..30).map(|i| format!("task{i:02}")).collect();
    let refs: Vec<&str> = names.iter().map(String::as_str).collect();

    let mut keys = vec![Key::Down; 20];
    keys.extend(vec![Key::Up; 18]);
    keys.push(Key::Enter);
    let (result, term) = press(&keys, &refs);

    assert_eq!(result.unwrap(), 2);
    let rows = rows(term.last_frame());
    assert_eq!(rows.first().unwrap(), ">task02", "window follows back up");
}

#[test]
fn mod_end_on_a_long_list_shows_the_last_task() {
    let names: Vec<String> = (0..30).map(|i| format!("task{i:02}")).collect();
    let refs: Vec<&str> = names.iter().map(String::as_str).collect();

    let (result, term) = press(&[Key::End, Key::Enter], &refs);
    assert_eq!(result.unwrap(), 29);
    assert_eq!(rows(term.last_frame()).last().unwrap(), ">task29");
}

#[test]
fn mod_a_long_list_reports_how_many_are_hidden() {
    let names: Vec<String> = (0..30).map(|i| format!("task{i:02}")).collect();
    let refs: Vec<&str> = names.iter().map(String::as_str).collect();

    let (_, term) = press(&[Key::Enter], &refs);
    assert!(term
        .last_frame()
        .contains(&format!("... {} more", 30 - MAX_ROWS)));
}

// -- redraw bookkeeping -------------------------------------------------

/// Each redraw moves the cursor up by the line count of the previous frame.
/// If that count is wrong the picker eats scrollback or leaves debris.
#[test]
fn mod_each_frame_rewinds_exactly_the_previous_frame() {
    let keys = [Key::Down, Key::Down, Key::Enter];
    let (_, term) = press(&keys, &["dev", "build", "test"]);

    for pair in term.frames.windows(2) {
        let previous_lines = pair[0].lines().count();
        assert!(
            pair[1].starts_with(&format!("\x1b[{previous_lines}A\x1b[0J")),
            "frame should rewind {previous_lines} lines, got {:?}",
            &pair[1][..pair[1].len().min(16)]
        );
    }
}

#[test]
fn mod_the_first_frame_does_not_rewind() {
    let (_, term) = press(&[Key::Enter], &["a"]);
    // It opens with the bold title, not a cursor-up and erase: there is
    // nothing drawn yet to rewind over, and doing so would eat scrollback.
    assert!(term.frames[0].starts_with("\x1b[1m"));
    assert!(!term.frames[0].contains("\x1b[0J"));
}

#[test]
fn mod_the_filter_is_shown_once_typing_starts() {
    let mut keys = typed("de");
    keys.push(Key::Enter);
    let (_, term) = press(&keys, &["dev", "build"]);

    assert!(
        !term.frames[0].contains("filter:"),
        "no filter line when empty"
    );
    assert!(term.last_frame().contains("filter: de"));
}

#[test]
fn mod_label_pads_name_and_appends_command() {
    // "dev" padded to 5, then the two separating spaces.
    assert_eq!(label(&task("dev", "vite"), 5, 200), "dev    vite");
}

#[test]
fn mod_label_includes_description_when_present() {
    let t = Task {
        name: "build".into(),
        command: "tsc".into(),
        description: "Compile".into(),
    };
    assert_eq!(label(&t, 5, 200), "build  tsc  (Compile)");
}

#[test]
fn mod_label_falls_back_to_description() {
    let t = Task {
        name: "all".into(),
        command: String::new(),
        description: "Everything".into(),
    };
    assert_eq!(label(&t, 3, 200), "all  Everything");
}

#[test]
fn mod_label_is_bare_name_when_nothing_else() {
    assert_eq!(label(&task("solo", ""), 4, 200), "solo");
}

#[test]
fn mod_label_truncates_to_width() {
    let t = task("dev", &"x".repeat(200));
    let got = label(&t, 3, 40);
    assert_eq!(got.chars().count(), 36); // width - 4
    assert!(got.ends_with('…'));
}

#[test]
fn mod_label_truncates_on_character_boundaries() {
    let t = task("i18n", &"é".repeat(100));
    let got = label(&t, 4, 30);
    assert!(got.is_char_boundary(got.len()));
    assert!(got.chars().all(|c| c != '\u{FFFD}'));
}

#[test]
fn mod_filter_matches_name_and_command() {
    let tasks = vec![
        task("dev", "vite"),
        task("build", "tsc"),
        task("test", "vitest"),
    ];

    assert_eq!(matching(&tasks, ""), vec![0, 1, 2]);
    assert_eq!(matching(&tasks, "dev"), vec![0]);
    // "vit" appears in the command of both dev and test.
    assert_eq!(matching(&tasks, "vit"), vec![0, 2]);
    assert_eq!(matching(&tasks, "BUILD"), vec![1]); // case-insensitive
    assert!(matching(&tasks, "nope").is_empty());
}

/// Pins the deliberate trade: case is folded for ASCII only.
#[test]
fn mod_filter_folds_ascii_case_only() {
    let tasks = vec![task("déploy", "run"), task("ÉTAPE", "run")];

    // Non-ASCII text still matches when the case is the same...
    assert_eq!(matching(&tasks, "dépl"), vec![0]);
    assert_eq!(matching(&tasks, "ÉTA"), vec![1]);
    // ...and ASCII letters around it still fold.
    assert_eq!(matching(&tasks, "DÉPL"), Vec::<usize>::new());
    assert_eq!(matching(&tasks, "Éta"), vec![1]);
    // But non-ASCII letters themselves do not fold.
    assert!(matching(&tasks, "étape").is_empty());
}

#[test]
fn mod_contains_ignore_ascii_case_edges() {
    assert!(contains_ignore_ascii_case("anything", ""));
    assert!(!contains_ignore_ascii_case("", "a"));
    assert!(!contains_ignore_ascii_case("ab", "abc"));
    assert!(contains_ignore_ascii_case("Build:Prod", "d:p"));
}
