//! Reading manifests.

use pkgr::json::{parse, Error, Manifest};

fn names(m: &Manifest) -> Vec<&str> {
    m.tasks.iter().map(|t| t.name.as_str()).collect()
}

#[test]
fn preserves_source_order() {
    let src = r#"{
        "name": "demo",
        "scripts": { "zebra": "z", "build": "b", "alpha": "a" },
        "devDependencies": { "nested": { "deep": [1, 2, {"x": true}] } }
    }"#;
    let m = parse(src, "scripts").unwrap();
    assert_eq!(names(&m), ["zebra", "build", "alpha"]);
    assert_eq!(m.tasks[1].command, "b");
}

#[test]
fn reads_package_manager() {
    let src = r#"{"packageManager":"pnpm@9.1.0","scripts":{"dev":"vite"}}"#;
    let m = parse(src, "scripts").unwrap();
    assert_eq!(m.package_manager, "pnpm@9.1.0");
}

#[test]
fn tolerates_non_string_package_manager() {
    let src = r#"{"packageManager":123,"scripts":{"dev":"vite"}}"#;
    let m = parse(src, "scripts").unwrap();
    assert_eq!(m.package_manager, "");
    assert_eq!(names(&m), ["dev"]);
}

#[test]
fn deno_object_tasks() {
    let src = r#"{
        "tasks": {
            "build": { "description": "Bundle it", "command": "deno bundle main.ts" },
            "all": { "dependencies": ["build", "test"] },
            "test": "deno test -A"
        }
    }"#;
    let m = parse(src, "tasks").unwrap();
    assert_eq!(names(&m), ["build", "all", "test"]);
    assert_eq!(m.tasks[0].command, "deno bundle main.ts");
    assert_eq!(m.tasks[0].description, "Bundle it");
    assert_eq!(m.tasks[1].command, "depends on: build, test");
}

#[test]
fn comments_and_trailing_commas() {
    let src = "{\n // leading\n \"tasks\": {\n \"dev\": \"deno run -A main.ts\", // inline\n /* block\n comment */\n \"fmt\": \"deno fmt\",\n },\n}";
    let m = parse(src, "tasks").unwrap();
    assert_eq!(names(&m), ["dev", "fmt"]);
    assert_eq!(m.tasks[0].command, "deno run -A main.ts");
}

#[test]
fn structural_bytes_inside_strings_are_data() {
    let src = r#"{"homepage":"https://x.com//docs","scripts":{"a":"echo }{,"},"z":1}"#;
    let m = parse(src, "scripts").unwrap();
    assert_eq!(names(&m), ["a"]);
    assert_eq!(m.tasks[0].command, "echo }{,");
}

#[test]
fn string_escapes() {
    let src = r#"{"scripts":{"a":"say \"hi\"\n\tdone \\ A 😀"}}"#;
    let m = parse(src, "scripts").unwrap();
    assert_eq!(m.tasks[0].command, "say \"hi\"\n\tdone \\ A 😀");
}

#[test]
fn multibyte_utf8_passes_through() {
    let src = r#"{"scripts":{"i18n":"echo héllo → 世界"}}"#;
    let m = parse(src, "scripts").unwrap();
    assert_eq!(m.tasks[0].command, "echo héllo → 世界");
}

#[test]
fn missing_key_reports_no_tasks() {
    let src = r#"{"name":"x","dependencies":{}}"#;
    assert_eq!(parse(src, "scripts").unwrap_err(), Error::NoTasks);
}

#[test]
fn empty_task_object_reports_no_tasks() {
    assert_eq!(
        parse(r#"{"scripts":{}}"#, "scripts").unwrap_err(),
        Error::NoTasks
    );
}

#[test]
fn wrong_key_for_kind_is_not_found() {
    // A deno.json read as npm must not pick up its tasks.
    assert_eq!(
        parse(r#"{"tasks":{"a":"b"}}"#, "scripts").unwrap_err(),
        Error::NoTasks
    );
}

#[test]
fn syntax_errors_carry_an_offset() {
    match parse(r#"{"scripts":{"a":}}"#, "scripts") {
        Err(Error::Syntax { at, .. }) => assert!(at > 0),
        other => panic!("expected a syntax error, got {other:?}"),
    }
}

#[test]
fn non_object_top_level_is_an_error() {
    assert!(matches!(
        parse("[1,2,3]", "scripts"),
        Err(Error::Syntax { .. })
    ));
}

#[test]
fn skips_arrays_and_scalars_before_the_target() {
    let src = r#"{"a":[1,[2,{"b":"}"}]],"b":null,"c":true,"d":-1.5e3,"scripts":{"x":"y"}}"#;
    let m = parse(src, "scripts").unwrap();
    assert_eq!(names(&m), ["x"]);
}
