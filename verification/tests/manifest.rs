//! Locating a manifest and choosing its tool.

use pkgr::manifest::{
    command, kind_of, package_manager, resolve, Error, Kind, Manifest, Start, CANDIDATES, LOCKFILES,
};

/// A directory with these of the candidates in it.
fn directory(files: &[&str]) -> Start {
    let found = CANDIDATES.map(|name| {
        if files.contains(&name) {
            Some(format!("/p/{name}"))
        } else {
            None
        }
    });
    Start::Directory {
        path: "/p".into(),
        found,
    }
}

fn file(name: &str) -> Start {
    Start::File {
        path: format!("/p/{name}"),
        dir: "/p".into(),
        name: name.into(),
    }
}

fn manifest_of(kind: Kind) -> Manifest {
    Manifest {
        path: "/p/package.json".into(),
        dir: "/p".into(),
        kind,
    }
}

fn beside(files: &[&str]) -> Vec<String> {
    files.iter().map(|f| f.to_string()).collect()
}

#[test]
fn resolves_package_json_in_a_directory() {
    let m = resolve(&directory(&["package.json"])).unwrap();
    assert_eq!(m.kind, Kind::Npm);
    assert_eq!(m.path, "/p/package.json");
    assert_eq!(m.dir, "/p");
    assert_eq!(m.task_key(), "scripts");
}

#[test]
fn prefers_package_json_over_deno_json() {
    let m = resolve(&directory(&["deno.jsonc", "deno.json", "package.json"])).unwrap();
    assert_eq!(m.path, "/p/package.json");
    let m = resolve(&directory(&["deno.jsonc", "deno.json"])).unwrap();
    assert_eq!(m.path, "/p/deno.json");
    assert_eq!(m.kind, Kind::Deno);
}

#[test]
fn resolves_deno_jsonc() {
    let m = resolve(&directory(&["deno.jsonc"])).unwrap();
    assert_eq!(m.kind, Kind::Deno);
    assert_eq!(m.task_key(), "tasks");
}

#[test]
fn resolves_an_explicit_file() {
    let m = resolve(&file("deno.json")).unwrap();
    assert_eq!(m.kind, Kind::Deno);
    assert_eq!(m.dir, "/p");
    assert_eq!(m.path, "/p/deno.json");
}

#[test]
fn empty_directory_is_not_found() {
    let e = resolve(&directory(&[])).unwrap_err();
    assert_eq!(e, Error::NotFound("/p".into()));
    assert_eq!(
        e.describe(),
        "/p: no package.json, deno.json or deno.jsonc found"
    );
}

#[test]
fn missing_path_is_an_io_error() {
    let e = resolve(&Start::Unreadable {
        path: "/p/nope".into(),
        msg: "No such file or directory".into(),
    })
    .unwrap_err();
    assert!(matches!(e, Error::Io { .. }));
    assert_eq!(e.describe(), "cannot read /p/nope: No such file or directory");
}

#[test]
fn unsupported_file_name_is_rejected() {
    let e = resolve(&file("tsconfig.json")).unwrap_err();
    assert_eq!(e, Error::Unsupported("tsconfig.json".into()));
    assert_eq!(
        e.describe(),
        "tsconfig.json is not a supported manifest (want package.json, deno.json or deno.jsonc)"
    );
}

#[test]
fn names_are_told_apart_letter_by_letter() {
    assert_eq!(kind_of("package.json"), Ok(Kind::Npm));
    assert_eq!(kind_of("deno.json"), Ok(Kind::Deno));
    assert_eq!(kind_of("deno.jsonc"), Ok(Kind::Deno));
    for other in ["", "Package.json", "deno.json5", "deno", "package.jsonc"] {
        assert_eq!(kind_of(other), Err(Error::Unsupported(other.to_string())));
    }
}

#[test]
fn package_manager_field_wins() {
    let m = manifest_of(Kind::Npm);
    let lock = beside(&["package-lock.json"]); // would say npm
    assert_eq!(package_manager(&m, "pnpm@9.1.0", &lock), "pnpm");
}

#[test]
fn junk_package_manager_field_falls_through_to_lockfile() {
    let m = manifest_of(Kind::Npm);
    assert_eq!(
        package_manager(&m, "notreal@1.0.0", &beside(&["yarn.lock"])),
        "yarn"
    );
    assert_eq!(package_manager(&m, "deno", &beside(&[])), "npm");
}

#[test]
fn lockfiles_are_detected() {
    for (name, want) in [
        ("pnpm-lock.yaml", "pnpm"),
        ("yarn.lock", "yarn"),
        ("bun.lock", "bun"),
        ("bun.lockb", "bun"),
        ("package-lock.json", "npm"),
    ] {
        assert!(LOCKFILES.contains(&name));
        let m = manifest_of(Kind::Npm);
        assert_eq!(package_manager(&m, "", &beside(&[name])), want, "for {name}");
    }
}

#[test]
fn earlier_lockfiles_win() {
    let m = manifest_of(Kind::Npm);
    let mut all = beside(&LOCKFILES);
    all.reverse();
    assert_eq!(package_manager(&m, "", &all), "pnpm");
    let some = beside(&["package-lock.json", "bun.lockb", "yarn.lock"]);
    assert_eq!(package_manager(&m, "", &some), "yarn");
}

#[test]
fn npm_is_the_fallback() {
    let m = manifest_of(Kind::Npm);
    assert_eq!(package_manager(&m, "", &beside(&[])), "npm");
}

#[test]
fn deno_ignores_lockfiles() {
    let m = manifest_of(Kind::Deno);
    let lock = beside(&["package-lock.json"]);
    assert_eq!(package_manager(&m, "pnpm@9", &lock), "deno");
}

#[test]
fn version_and_case_do_not_matter() {
    let m = manifest_of(Kind::Npm);
    let lock = beside(&["bun.lock"]);
    for field in ["yarn", "YARN", "Yarn@", "yarn@4.0.0@rc", "yArN@berry"] {
        assert_eq!(package_manager(&m, field, &lock), "yarn", "{field}");
    }
    for field in ["@yarn", " yarn", "yarn ", "yarn1", "YÄRN"] {
        assert_eq!(package_manager(&m, field, &lock), "bun", "{field}");
    }
}

#[test]
fn commands_match_what_you_would_type() {
    let none = beside(&[]);
    assert_eq!(
        command(&manifest_of(Kind::Npm), "", &none, "build"),
        (
            "npm".to_string(),
            vec!["run".to_string(), "build".to_string()]
        )
    );
    assert_eq!(
        command(&manifest_of(Kind::Deno), "", &none, "dev"),
        (
            "deno".to_string(),
            vec!["task".to_string(), "dev".to_string()]
        )
    );
    assert_eq!(
        command(&manifest_of(Kind::Npm), "bun@1", &none, "a b\"c"),
        ("bun".to_string(), vec!["run".to_string(), "a b\"c".to_string()])
    );
}
