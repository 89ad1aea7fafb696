//! Odd and malformed manifests.

use pkgr::json::{parse, Error, Manifest, Task};

fn fault(src: &str) -> (usize, String) {
    match parse(src, "scripts") {
        Err(Error::Syntax { at, msg }) => (at, msg),
        other => panic!("expected a syntax error, got {other:?}"),
    }
}

fn at(offset: usize, msg: &str) -> (usize, String) {
    (offset, msg.to_string())
}

fn task(name: &str, command: &str, description: &str) -> Task {
    Task {
        name: name.into(),
        command: command.into(),
        description: description.into(),
    }
}

#[test]
fn each_fault_says_what_and_where() {
    assert_eq!(fault(""), at(0, "expected '{'"));
    assert_eq!(fault("  [1]"), at(2, "expected '{'"));
    assert_eq!(fault("{a"), at(1, "expected '\"'"));
    assert_eq!(fault(r#"{"a" 1}"#), at(5, "expected ':'"));
    assert_eq!(fault(r#"{"a":1 2}"#), at(7, "expected '}'"));
    assert_eq!(fault(r#"{"scripts":1}"#), at(11, "expected '{'"));
    assert_eq!(fault(r#"{"scripts":{"a":}}"#), at(16, "expected a value"));
    assert_eq!(fault(r#"{"a":"#), at(5, "unexpected end of input"));
    assert_eq!(fault(r#"{"a":[1"#), at(7, "unterminated object or array"));
    assert_eq!(fault(r#"{"abc"#), at(5, "unterminated string"));
    assert_eq!(fault(r#"{"a\"#), at(4, "unterminated escape"));
    assert_eq!(fault(r#"{"\q""#), at(4, "bad escape 'q'"));
    assert_eq!(fault("{\"\\\u{e9}\""), at(4, "bad escape 'Ã'"));
    assert_eq!(fault(r#"{"\u12"#), at(6, "short \\u escape"));
    assert_eq!(fault(r#"{"\u12G4""#), at(6, "bad hex digit"));
    assert_eq!(fault(r#"{"\ud83d""#), at(8, "unpaired high surrogate"));
    assert_eq!(fault(r#"{"\ud83dA""#), at(8, "unpaired high surrogate"));
    assert_eq!(
        fault(r#"{"\ud83d\u0041""#),
        at(14, "unpaired high surrogate")
    );
    assert_eq!(fault(r#"{"\ude00""#), at(8, "invalid code point"));
}

#[test]
fn errors_read_as_messages() {
    assert_eq!(
        parse("[]", "scripts").unwrap_err().describe(),
        "expected '{' at byte 0"
    );
    assert_eq!(
        parse("{}", "scripts").unwrap_err().describe(),
        "no scripts or tasks declared"
    );
    let long = format!("{}[", " ".repeat(1234));
    assert_eq!(
        parse(&long, "scripts").unwrap_err().describe(),
        "expected '{' at byte 1234"
    );
}

#[test]
fn syntax_errors_point_into_the_text() {
    let src = r#"{"scripts": {"dev": "vité", "x": [1, {"y": "z\u00e9"}], }, "t": nul"#;
    for end in 0..src.len() {
        if let Some(cut) = src.get(..end) {
            match parse(cut, "scripts") {
                Err(Error::Syntax { at, .. }) => assert!(at <= cut.len(), "{cut:?}"),
                other => panic!("cut at {end}: {other:?}"),
            }
        }
    }
}

#[test]
fn every_spelling_of_a_string_reads_the_same() {
    let want = vec![task("a/b", "é \u{8}\u{c}\n\r\t\"\\ 😀", "")];
    for src in [
        r#"{"scripts":{"a/b":"é \b\f\n\r\t\"\\ 😀"}}"#,
        r#"{"scripts":{"a\/b":"\u00e9 \u0008\u000C\u000a\u000D\u0009\u0022\u005C \ud83d\uDE00"}}"#,
        r#"{"\u0073cripts":{"\u0061\/\u0062":"é \b\f\n\r\t\"\\ \uD83D\ude00"}}"#,
    ] {
        assert_eq!(parse(src, "scripts").unwrap().tasks, want, "{src}");
    }
}

#[test]
fn whitespace_comments_and_trailing_commas_make_no_difference() {
    let plain = r#"{"a":[1],"packageManager":"bun","tasks":{"x":"y","z":{"command":"c","dependencies":["p","q"]}}}"#;
    let spread = "// one\n/* two **/ {\r\n\"a\" /*,*/ : // }\n [ 1 , ] ,\t\"packageManager\"\n:\"bun\",/**/\"tasks\"//\n: { \"x\":\n\"y\" /* \"*/ , \"z\" : { \"command\" : \"c\" , \"dependencies\" : [ \"p\" , /* ] */ \"q\" , ] , } , } , } trailing";
    let want = Manifest {
        tasks: vec![task("x", "y", ""), task("z", "c", "")],
        package_manager: "bun".into(),
    };
    assert_eq!(parse(plain, "tasks").unwrap(), want);
    assert_eq!(parse(spread, "tasks").unwrap(), want);
}

#[test]
fn what_is_not_asked_for_is_passed_over() {
    let src = r#"{
        "files": ["}", "]", {"//": "/*", "deep": [[], {}, "\"}"]}],
        "version": 1.5e3, "private": true, "none": null,
        "scripts": {"only": "one"}
    } and then some"#;
    assert_eq!(
        parse(src, "scripts").unwrap().tasks,
        vec![task("only", "one", "")]
    );
}

#[test]
fn tasks_that_cannot_run_are_left_out() {
    let src = r#"{"tasks":{"a":1,"b":["x"],"c":null,"d":"run"}}"#;
    assert_eq!(
        parse(src, "tasks").unwrap().tasks,
        vec![task("d", "run", "")]
    );
}

#[test]
fn object_tasks_fill_in_what_they_have() {
    let src = r#"{"tasks":{
        "none": {},
        "text": {"description": "d"},
        "both": {"command": "c", "dependencies": ["x"]},
        "deps": {"dependencies": ["x", 1, "y"], "description": "d"},
        "odd": {"command": 1, "description": [], "dependencies": "x"}
    }}"#;
    assert_eq!(
        parse(src, "tasks").unwrap().tasks,
        vec![
            task("none", "", ""),
            task("text", "", "d"),
            task("both", "c", ""),
            task("deps", "depends on: x, y", "d"),
            task("odd", "", ""),
        ]
    );
}

#[test]
fn of_repeated_members_the_last_counts() {
    let src = r#"{"scripts":{"a":"1"},"packageManager":"npm","scripts":{"b":"2","b":"3"},"packageManager":"bun"}"#;
    let m = parse(src, "scripts").unwrap();
    assert_eq!(m.tasks, vec![task("b", "2", ""), task("b", "3", "")]);
    assert_eq!(m.package_manager, "bun");
}

#[test]
fn nothing_after_a_manifest_matters() {
    for src in [
        r#"{"scripts":{"a":"b"}}"#,
        "{}",
        "// c\n{\"x\":1,}",
        r#"{"scripts":{},"y":[1,{}]} "#,
    ] {
        let want = parse(src, "scripts");
        for tail in ["}", "/", "*/", "\"", "{\"scripts\":{\"z\":\"z\"}}", "é"] {
            assert_eq!(parse(&format!("{src}{tail}"), "scripts"), want, "{src}{tail}");
        }
    }
}
