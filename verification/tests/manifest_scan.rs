use ccidkit::manifest::{
    declared_bin_names, declared_dependencies, package_name, quoted_values, table_header,
    workspace_members, Declared,
};
use ccidkit::source_scan::{code_of, holds_token};

#[test]
fn reads_members_from_a_multi_line_array() {
    let manifest = "[workspace]\nresolver = \"3\"\nmembers = [\n  \"crates/a\",\n  \"xtask\",\n]\nexclude = [\"fuzz\"]\n";
    assert_eq!(workspace_members(manifest), ["crates/a", "xtask"]);
}

#[test]
fn reads_members_only_from_the_workspace_table() {
    let manifest = "[workspace.metadata]\nmembers = [\"decoy\"]\n\n[workspace]\nmembers = [\"crates/a\"]\n";
    assert_eq!(workspace_members(manifest), ["crates/a"]);
}

#[test]
fn a_commented_out_member_is_not_a_member() {
    let manifest = "[workspace]\nmembers = [\n  \"crates/a\",\n  # \"crates/b\",\n]\n";
    assert_eq!(workspace_members(manifest), ["crates/a"]);
}

#[test]
fn reads_the_package_name_and_not_another_tables_name() {
    let manifest =
        "[package]\nname = \"ccid-apdu\"\nedition = \"2024\"\n\n[lints]\nname = \"decoy\"\n";
    assert_eq!(package_name(manifest).as_deref(), Some("ccid-apdu"));
    assert_eq!(package_name("[lints]\nname = \"decoy\"\n"), None);
}

#[test]
fn a_table_header_is_a_whole_line() {
    assert_eq!(table_header("[package]").as_deref(), Some("package"));
    assert_eq!(table_header("[[bin]]"), None);
    assert_eq!(table_header("members = [\"crates/a\"]"), None);
    assert_eq!(quoted_values("name = \"a\" # \"b\""), ["a", "b"]);
}

#[test]
fn reads_dependencies_with_their_table_kind() {
    let manifest = "[dependencies]\nccid-apdu = { path = \"../ccid-apdu\" }\n\n[dev-dependencies]\nccid-testkit = { path = \"../ccid-testkit\" }\n";
    let names = declared_dependencies(manifest);
    assert!(names.contains(&Declared {
        dev: false,
        name: "ccid-apdu".to_owned()
    }));
    assert!(names.contains(&Declared {
        dev: true,
        name: "ccid-testkit".to_owned()
    }));
    assert_eq!(names.len(), 2);
}

#[test]
fn reads_dependencies_from_subtables_and_target_tables() {
    let names = declared_dependencies(
        "[dependencies.nusb]\nversion = \"0.2\"\n\n[target.'cfg(windows)'.dependencies]\nwindows-sys = \"0.61\"\n",
    );
    assert!(names.contains(&Declared {
        dev: false,
        name: "nusb".to_owned()
    }));
    assert!(names.contains(&Declared {
        dev: false,
        name: "windows-sys".to_owned()
    }));
    assert_eq!(names.len(), 2, "subtable keys are not dependencies");
}

#[test]
fn ignores_commented_and_empty_manifests() {
    assert!(declared_dependencies("").is_empty());
    assert!(declared_dependencies("[dependencies]\n").is_empty());
    assert!(declared_dependencies("[dependencies]\n# nusb = \"0.2\"\n").is_empty());
}

#[test]
fn code_of_strips_comments_and_strings() {
    assert_eq!(code_of("// unsafe in prose"), None);
    assert_eq!(
        code_of("let x = \"unsafe\"; call();").as_deref(),
        Some("let x = ; call();")
    );
}

#[test]
fn holds_token_matches_whole_words_only() {
    assert!(holds_token("unsafe {", "unsafe"));
    assert!(!holds_token("unsafely_named()", "unsafe"));
    assert!(!holds_token("an_unsafe_name", "unsafe"));
}

#[test]
fn reads_every_bin_table() {
    let manifest = "[package]\nname = \"x\"\n\n[[bin]]\nname = \"one\"\n\n[[bin]]\nname = \"two\"\npath = \"src/two.rs\"\n";
    assert_eq!(declared_bin_names(manifest), ["one", "two"]);
}

#[test]
fn a_lib_only_manifest_declares_no_bin() {
    assert!(declared_bin_names("[package]\nname = \"x\"\n").is_empty());
}
