//! Looking a tool up and ending with its code.

use pkgr::run::{
    file_names, has_executable_extension, launchable, look_in, look_path, path_extensions, run,
    Attempt, Rules,
};

/// Answers for a `PATH` whose directories hold these files.
fn held<'a>(dirs: &'a [&'a [&'a str]]) -> impl Fn(usize, &str) -> bool + 'a {
    move |dir: usize, name: &str| dirs[dir].contains(&name)
}

fn windows(pathext: Option<&str>) -> Rules {
    Rules::Windows {
        extensions: path_extensions(pathext),
    }
}

#[test]
fn finds_a_tool_that_exists() {
    let dirs: [&[&str]; 3] = [&["ls"], &["rustc", "cargo"], &["cargo"]];
    assert_eq!(
        look_path("cargo", &Rules::Unix, 3, &held(&dirs)),
        Some((1, "cargo".to_string()))
    );
}

#[test]
fn missing_tool_is_none() {
    let dirs: [&[&str]; 2] = [&["ls"], &["cargo"]];
    assert!(look_path(
        "pkgr-definitely-not-a-real-binary",
        &Rules::Unix,
        2,
        &held(&dirs)
    )
    .is_none());
    // With no `PATH` at all there is nowhere to look.
    assert!(look_path("cargo", &Rules::Unix, 0, &held(&[])).is_none());
}

#[test]
fn missing_tool_reports_a_path_error() {
    let err = run("pkgr-definitely-not-a-real-binary", &Attempt::Missing).unwrap_err();
    assert!(err.contains("not found on your PATH"), "got {err}");
    assert_eq!(
        err,
        "pkgr-definitely-not-a-real-binary was not found on your PATH"
    );
}

/// npm ships a shell script named `npm` alongside `npm.cmd`.
#[test]
fn prefers_the_launchable_extension_over_a_shim_script() {
    let rules = windows(None);
    let dirs: [&[&str]; 2] = [
        &["onlyscript"],
        &["faketool", "faketool.cmd", "faketool.exe"],
    ];
    assert_eq!(
        look_path("faketool", &rules, 2, &held(&dirs)),
        Some((1, "faketool.exe".to_string()))
    );
    // An explicit extension is honoured as spelled.
    assert_eq!(
        look_path("faketool.cmd", &rules, 2, &held(&dirs)),
        Some((1, "faketool.cmd".to_string()))
    );
    // A bare script with no launchable sibling is not a usable result.
    assert!(look_path("onlyscript", &rules, 2, &held(&dirs)).is_none());
    // On unix the name is all there is.
    assert_eq!(
        look_path("onlyscript", &Rules::Unix, 2, &held(&dirs)),
        Some((0, "onlyscript".to_string()))
    );
}

#[test]
fn the_first_name_in_a_directory_counts() {
    let names = vec!["a.com".to_string(), "a.exe".to_string(), "a.bat".to_string()];
    let dirs: [&[&str]; 1] = [&["a.bat", "a.exe"]];
    assert_eq!(look_in(0, &names, &held(&dirs)), Some(1));
    let dirs: [&[&str]; 1] = [&["a"]];
    assert_eq!(look_in(0, &names, &held(&dirs)), None);
}

/// Without the execute bit a file must not shadow the real tool.
#[test]
fn a_file_that_cannot_be_executed_does_not_count() {
    assert!(!launchable(true, Some(0o644)));
    assert!(launchable(true, Some(0o755)));
    assert!(launchable(true, Some(0o100)));
    assert!(launchable(true, Some(0o001)));
    assert!(!launchable(false, Some(0o755)));
    assert!(launchable(true, None));
    assert!(!launchable(false, None));
}

#[test]
fn extensions_come_from_pathext() {
    assert_eq!(path_extensions(None), [".com", ".exe", ".bat", ".cmd"]);
    assert_eq!(path_extensions(Some(".EXE;;.Ps1;")), [".exe", ".ps1"]);
    assert_eq!(path_extensions(Some(".É")), [".É"]);
    assert!(path_extensions(Some("")).is_empty());
    assert!(path_extensions(Some(";;")).is_empty());
}

#[test]
fn extensions_are_found_at_the_end() {
    let exts = path_extensions(None);
    assert!(has_executable_extension("npm.CMD", &exts));
    assert!(has_executable_extension(".exe", &exts));
    assert!(!has_executable_extension("npm", &exts));
    assert!(!has_executable_extension("npm.cmd.txt", &exts));
    assert!(!has_executable_extension("cmd", &exts));
    assert!(!has_executable_extension("x.exe", &Vec::new()));
}

#[test]
fn windows_tries_launchable_names() {
    let rules = windows(Some(".EXE;.CMD"));
    assert_eq!(file_names("npm", &rules), ["npm.exe", "npm.cmd"]);
    assert_eq!(file_names("npm.Cmd", &rules), ["npm.Cmd"]);
    assert_eq!(file_names("npm", &Rules::Unix), ["npm"]);
}

#[test]
fn the_exit_code_is_the_tasks_own() {
    assert_eq!(run("npm", &Attempt::Ended(Some(0))), Ok(0));
    assert_eq!(run("npm", &Attempt::Ended(Some(5))), Ok(5));
    assert_eq!(run("npm", &Attempt::Ended(Some(-1073741510))), Ok(-1073741510));
    assert_eq!(run("npm", &Attempt::Ended(None)), Ok(130));
    assert_eq!(
        run("npm", &Attempt::NotStarted("Permission denied".into())),
        Err("cannot start npm: Permission denied".to_string())
    );
}
