//! The picker's frames, letter by letter, and what holds of every run.

use pkgr::json::Task;
use pkgr::ui::scripted::{Event, Scripted};
use pkgr::ui::{
    columns, label, matching, render, run_picker, select, wipe, Console, Error, Frame, Key,
};

fn task(name: &str, command: &str) -> Task {
    Task {
        name: name.into(),
        command: command.into(),
        description: String::new(),
    }
}

const HELP: &str = "\x1b[2m  up/down move · type to filter · enter run · esc cancel\x1b[0m\n";

#[test]
fn a_frame_reads_as_it_is_drawn() {
    let tasks = [task("dev", "vite"), task("build", "tsc")];
    let (frame, lines) = render(&Frame {
        title: "Pick",
        filter: "",
        tasks: &tasks,
        shown: &[0, 1],
        cursor: 1,
        scroll: 0,
        rows: 2,
        pad: 5,
        width: 80,
        painted: 0,
    });
    assert_eq!(
        frame,
        format!("\x1b[1mPick\x1b[0m\n  dev    vite\n\x1b[7m> build  tsc\x1b[0m\n{HELP}")
    );
    assert_eq!(lines, 4);
}

#[test]
fn a_frame_rewinds_filters_and_counts_what_it_hides() {
    let tasks = [task("dev", "vite"), task("build", "tsc"), task("e", "")];
    let (frame, lines) = render(&Frame {
        title: "Pick",
        filter: "e",
        tasks: &tasks,
        shown: &[0, 2],
        cursor: 0,
        scroll: 0,
        rows: 1,
        pad: 5,
        width: 80,
        painted: 17,
    });
    assert_eq!(
        frame,
        format!(
            "\x1b[17A\x1b[0J\x1b[1mPick\x1b[0m  \x1b[2mfilter: e\x1b[0m\n\x1b[7m> dev    vite\x1b[0m\n  \x1b[2m... 1 more\x1b[0m\n{HELP}"
        )
    );
    assert_eq!(lines, 4);

    let (frame, lines) = render(&Frame {
        title: "Pick",
        filter: "z",
        tasks: &tasks,
        shown: &[],
        cursor: 0,
        scroll: 0,
        rows: 0,
        pad: 5,
        width: 80,
        painted: 0,
    });
    assert_eq!(
        frame,
        format!(
            "\x1b[1mPick\x1b[0m  \x1b[2mfilter: z\x1b[0m\n  \x1b[2m(nothing matches)\x1b[0m\n{HELP}"
        )
    );
    assert_eq!(lines, 3);
}

/// The frames among the events.
fn frames(events: &[Event]) -> Vec<&str> {
    events
        .iter()
        .filter_map(|event| match event {
            Event::Drawn(frame) => Some(frame.as_str()),
            _ => None,
        })
        .collect()
}

/// Checks that frames and keys take turns, and that each frame rewinds over
/// exactly the lines of the one before.
fn check_redraws(events: &[Event], keys: &[Key]) {
    assert_eq!(events.len(), 2 * keys.len() + 1);
    let mut lines = 0;
    for (i, event) in events.iter().enumerate() {
        match event {
            Event::Drawn(frame) => {
                assert_eq!(i % 2, 0);
                if i == 0 {
                    assert!(frame.starts_with("\x1b[1m"));
                } else {
                    assert!(frame.starts_with(&wipe(lines)), "frame {i}");
                }
                lines = frame.lines().count();
            }
            Event::Read(key) => {
                assert_eq!(i % 2, 1);
                assert_eq!(*key, keys[i / 2]);
            }
            Event::Cleared(cleared) => {
                assert_eq!(i, 2 * keys.len(), "only leaving clears");
                assert_eq!(*cleared, lines);
            }
            Event::RanDry => panic!("there were keys left"),
        }
    }
}

#[test]
fn redrawing_is_exact() {
    let names: Vec<String> = (0..40).map(|i| format!("task{i}")).collect();
    let tasks: Vec<Task> = names.iter().map(|n| task(n, "cmd")).collect();
    let keys = [
        Key::End,
        Key::Char('1'),
        Key::Char('z'),
        Key::Enter,
        Key::Backspace,
        Key::Down,
        Key::Ignored,
        Key::Up,
        Key::Home,
        Key::Cancel,
    ];
    let mut term = Scripted::new(&keys, 60);
    assert!(matches!(
        run_picker(&mut term, "Select a task", &tasks),
        Err(Error::Cancelled)
    ));
    check_redraws(&term.events, &keys);
}

/// A command or a path may hold line breaks of its own; the frame then takes
/// up more lines, and all of them have to be rewound.
#[test]
fn line_breaks_in_texts_count() {
    let tasks = [task("dev", "vite\nwatch")];
    let (frame, lines) = render(&Frame {
        title: "T",
        filter: "",
        tasks: &tasks,
        shown: &[0],
        cursor: 0,
        scroll: 0,
        rows: 1,
        pad: 3,
        width: 80,
        painted: 0,
    });
    assert_eq!(lines, 4);
    assert_eq!(lines, frame.lines().count());

    let tasks = [
        task("dev", "vite\nwatch"),
        task("a\n\nb", "c"),
        task("plain", "x"),
    ];
    let keys = [
        Key::Down,
        Key::Char('\n'),
        Key::Backspace,
        Key::Char('x'),
        Key::Enter,
    ];
    let mut term = Scripted::new(&keys, 80);
    assert_eq!(run_picker(&mut term, "two\nlines", &tasks).unwrap(), 2);
    check_redraws(&term.events, &keys);
    // Title 2, rows 2 + 3 + 1, help 1.
    assert_eq!(frames(&term.events)[0].lines().count(), 9);
}

/// What comes after the key that ends the run is left for whoever is next.
#[test]
fn keys_after_the_choice_stay() {
    let tasks = [task("a", ""), task("b", "")];
    let mut term = Scripted::new(&[Key::Down, Key::Enter, Key::Up, Key::Cancel], 80);
    assert_eq!(run_picker(&mut term, "t", &tasks).unwrap(), 1);
    assert_eq!(term.keys, [Key::Up, Key::Cancel]);
}

/// A console that fails at its `fails`th call, and counts the calls.
struct Failing {
    fails: usize,
    calls: usize,
    keys: Vec<Key>,
}

impl Failing {
    fn call(&mut self) -> std::io::Result<()> {
        self.calls += 1;
        if self.calls == self.fails {
            return Err(std::io::Error::from(std::io::ErrorKind::BrokenPipe));
        }
        Ok(())
    }
}

impl Console for Failing {
    fn width(&self) -> usize {
        80
    }
    fn write(&mut self, _s: &str) -> std::io::Result<()> {
        self.call()
    }
    fn clear(&mut self, _lines: usize) -> std::io::Result<()> {
        self.call()
    }
    fn read_key(&mut self) -> Result<Key, Error> {
        self.call()?;
        Ok(self.keys.remove(0))
    }
}

#[test]
fn the_first_failure_ends_the_run() {
    let tasks = [task("a", ""), task("b", "")];
    for last in [Key::Enter, Key::Cancel] {
        for fails in 1..=5 {
            let mut term = Failing {
                fails,
                calls: 0,
                keys: vec![Key::Down, last],
            };
            let r = run_picker(&mut term, "t", &tasks);
            assert!(matches!(r, Err(Error::Io(_))), "failing at {fails}");
            assert_eq!(term.calls, fails);
        }
    }
}

#[test]
fn the_marked_task_is_the_one_that_runs() {
    let tasks = [
        task("dev", "vite"),
        task("build", "tsc"),
        task("test", "vitest"),
        task("lint", "eslint"),
    ];
    let keys = [Key::Char('T'), Key::Down, Key::Down, Key::Enter];
    let mut term = Scripted::new(&keys, 80);
    assert_eq!(run_picker(&mut term, "t", &tasks).unwrap(), 2);
    assert!(frames(&term.events)[3].contains("\x1b[7m> test   vitest\x1b[0m\n"));
    assert_eq!(matching(&tasks, "T"), vec![0, 1, 2, 3]);
}

#[test]
fn backspace_undoes_typing() {
    let tasks = [task("dev", "vite"), task("build", "tsc")];
    let mut term = Scripted::new(
        &[Key::Char('é'), Key::Backspace, Key::Down, Key::Enter],
        80,
    );
    assert_eq!(run_picker(&mut term, "t", &tasks).unwrap(), 1);
    let frames = frames(&term.events);
    assert_eq!(frames[2], format!("\x1b[3A\x1b[0J{}", frames[0]));
}

#[test]
fn typing_narrows_and_case_does_not_matter() {
    let tasks = [
        task("Build", "tsc"),
        task("build:prod", "TSC -p"),
        task("lint", "eslint BUILD"),
    ];
    assert_eq!(matching(&tasks, ""), vec![0, 1, 2]);
    assert_eq!(matching(&tasks, "build"), vec![0, 1, 2]);
    assert_eq!(matching(&tasks, "BUILD:"), vec![1]);
    assert_eq!(matching(&tasks, "bUiLd:P"), vec![1]);
    assert_eq!(matching(&tasks, "tsc "), vec![1]);
}

#[test]
fn rows_fit_the_terminal() {
    let t = task("name", "command");
    assert_eq!(label(&t, 4, 17), "name  command");
    assert_eq!(label(&t, 4, 16), "name  comma…");
    assert_eq!(label(&t, 4, 6), "n…");
    // Too narrow to hold any text, so nothing is cut.
    assert_eq!(label(&t, 4, 5), "name  command");
    assert_eq!(label(&t, 4, 0), "name  command");
    assert_eq!(label(&t, 9, 80), "name       command");
}

#[test]
fn a_console_is_acquired_only_for_tasks() {
    let none: [Task; 0] = [];
    let r = select("t", &none, || -> Result<Scripted, Error> {
        panic!("there is nothing to show")
    });
    assert!(matches!(r, Err(Error::Cancelled)));

    let tasks = [task("a", ""), task("b", "")];
    let r = select("t", &tasks, || {
        Ok(Scripted::new(&[Key::Down, Key::Enter], 80))
    });
    assert_eq!(r.unwrap(), 1);

    let r = select("t", &tasks, || -> Result<Scripted, Error> {
        Err(Error::NotInteractive)
    });
    assert!(matches!(r, Err(Error::NotInteractive)));

    let r = select("t", &tasks, || -> Result<Scripted, Error> {
        Err(Error::from(std::io::Error::from(
            std::io::ErrorKind::BrokenPipe,
        )))
    });
    assert!(matches!(r, Err(Error::Io(_))));
}

#[test]
fn a_script_that_runs_dry_cancels() {
    let mut term = Scripted::new(&[Key::Down], 80);
    let tasks = [task("a", "")];
    assert!(matches!(
        run_picker(&mut term, "t", &tasks),
        Err(Error::Cancelled)
    ));
    assert_eq!(term.events.len(), 4);
    assert_eq!(term.events[3], Event::RanDry);
}

#[test]
fn widths_and_wiping() {
    assert_eq!(columns(Some(132)), 132);
    assert_eq!(columns(Some(0)), 80);
    assert_eq!(columns(None), 80);
    assert_eq!(wipe(0), "");
    assert_eq!(wipe(1), "\x1b[1A\x1b[0J");
    assert_eq!(wipe(120), "\x1b[120A\x1b[0J");
}
