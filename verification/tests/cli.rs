//! From the arguments to the exit code.

use pkgr::cli::{
    begin, choose_command, display_path, finish, list_tasks, load, locate, title, Exit, Launch,
    Picked, USAGE,
};
use pkgr::json;
use pkgr::manifest::{Kind, Manifest, Start};
use pkgr::run::Attempt;

fn args(list: &[&str]) -> Vec<String> {
    list.iter().map(|a| a.to_string()).collect()
}

fn failed(err: &str) -> Exit {
    Exit {
        out: String::new(),
        err: err.into(),
        code: 1,
    }
}

fn npm() -> Manifest {
    Manifest {
        path: "/p/package.json".into(),
        dir: "/p".into(),
        kind: Kind::Npm,
    }
}

fn parsed() -> json::Manifest {
    json::parse(
        r#"{"scripts":{"dev":"vite","a-name-of-its-own-length":"x"}}"#,
        "scripts",
    )
    .unwrap()
}

#[test]
fn arguments_say_where_to_start() {
    assert_eq!(begin(&args(&[]), "1.2.3"), Ok(String::new()));
    assert_eq!(begin(&args(&["."]), "1.2.3"), Ok(".".to_string()));
    assert_eq!(begin(&args(&["-v"]), "1.2.3"), Ok("-v".to_string()));
}

#[test]
fn flags_win_over_paths() {
    let version = Exit {
        out: "pkgr 1.2.3\n".into(),
        err: String::new(),
        code: 0,
    };
    let help = Exit {
        out: String::new(),
        err: USAGE.into(),
        code: 0,
    };
    for list in [&["-version"][..], &["--version"], &["a", "-h", "-version"]] {
        assert_eq!(begin(&args(list), "1.2.3").as_ref(), Err(&version));
    }
    for list in [&["-h"][..], &["--help"], &["-help"], &["a", "b", "-h"]] {
        assert_eq!(begin(&args(list), "1.2.3").as_ref(), Err(&help));
    }
}

#[test]
fn more_than_one_path_is_a_usage_error() {
    assert_eq!(
        begin(&args(&["a", "b", "c"]), "1.2.3"),
        Err(failed(&format!(
            "pkgr: expected at most one path, got 3\n{USAGE}"
        )))
    );
    assert!(USAGE.starts_with("pkgr - pick and run a script from package.json or deno.json\n\n"));
    assert!(USAGE.ends_with("  pkgr ./packages/api/package.json\n"));
}

#[test]
fn a_manifest_that_cannot_be_located_ends_it() {
    let start = Start::File {
        path: "/p/x.txt".into(),
        dir: "/p".into(),
        name: "x.txt".into(),
    };
    assert_eq!(
        locate(&start),
        Err(failed(
            "pkgr: x.txt is not a supported manifest (want package.json, deno.json or deno.jsonc)\n"
        ))
    );
    let start = Start::File {
        path: "/p/package.json".into(),
        dir: "/p".into(),
        name: "package.json".into(),
    };
    assert_eq!(locate(&start), Ok(npm()));
}

#[test]
fn a_manifest_that_cannot_be_read_ends_it() {
    assert_eq!(
        load(&npm(), &Err("Permission denied".to_string())),
        Err(failed("pkgr: cannot read /p/package.json: Permission denied\n"))
    );
    assert_eq!(
        load(&npm(), &Ok("[]".to_string())),
        Err(failed("pkgr: /p/package.json: expected '{' at byte 0\n"))
    );
    assert_eq!(
        load(&npm(), &Ok(r#"{"tasks":{"a":"b"}}"#.to_string())),
        Err(failed("pkgr: /p/package.json: no scripts or tasks declared\n"))
    );
    let read = load(&npm(), &Ok(r#"{"scripts":{"a":"b"}}"#.to_string())).unwrap();
    assert_eq!(read.tasks[0].command, "b");
}

#[test]
fn titles_show_the_shorter_path() {
    assert_eq!(display_path(Some("package.json"), "/p/package.json"), "package.json");
    assert_eq!(display_path(None, "/p/package.json"), "/p/package.json");
    assert_eq!(title("package.json"), "Select a task  (package.json)");
}

#[test]
fn a_choice_is_echoed_and_run() {
    let beside = args(&["yarn.lock"]);
    assert_eq!(
        choose_command(&npm(), &parsed(), &beside, &Picked::Chosen(0)),
        Ok(Launch {
            bin: "yarn".into(),
            args: args(&["run", "dev"]),
            echo: "\n> yarn run dev\n\n".into(),
        })
    );
}

#[test]
fn only_a_choice_runs_something() {
    let none = args(&[]);
    assert_eq!(
        choose_command(&npm(), &parsed(), &none, &Picked::Cancelled),
        Err(Exit {
            out: String::new(),
            err: String::new(),
            code: 130,
        })
    );
    assert_eq!(
        choose_command(&npm(), &parsed(), &none, &Picked::Failed("broken pipe".into())),
        Err(failed("pkgr: broken pipe\n"))
    );
}

#[test]
fn without_a_terminal_the_tasks_are_listed() {
    let none = args(&[]);
    let listing = "\nTasks in /p/package.json:\n  dev              npm run dev\n  a-name-of-its-own-length npm run a-name-of-its-own-length\n";
    assert_eq!(list_tasks(&npm(), &parsed(), &none), listing);
    assert_eq!(
        choose_command(&npm(), &parsed(), &none, &Picked::NotInteractive),
        Err(failed(&format!(
            "pkgr: pkgr needs an interactive terminal to choose a task\n{listing}"
        )))
    );
}

#[test]
fn the_end_is_the_tasks_end() {
    assert_eq!(
        finish("npm", &Attempt::Ended(Some(3))),
        Exit {
            out: String::new(),
            err: String::new(),
            code: 3,
        }
    );
    assert_eq!(finish("npm", &Attempt::Ended(None)).code, 130);
    assert_eq!(
        finish("npm", &Attempt::Missing),
        failed("pkgr: npm was not found on your PATH\n")
    );
    assert_eq!(
        finish("npm", &Attempt::NotStarted("why".into())),
        failed("pkgr: cannot start npm: why\n")
    );
}
