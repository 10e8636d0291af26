use ccidkit::gates::{allowed, dev_only, non_pure_members, reaches, zero_dep};
use ccidkit::quirk_rules::{date_shaped, violations_in};
use ccidkit::source_scan::{check_inside, check_outside};

#[test]
fn the_matrix_is_transitively_closed() {
    let rows = allowed();
    for row in &rows {
        let krate = row.krate;
        for dep in &row.allowed {
            let deps_of_dep = &rows
                .iter()
                .find(|other| other.krate == *dep)
                .unwrap_or_else(|| panic!("{krate} may name {dep}, which has no row"))
                .allowed;
            for transitive in deps_of_dep {
                assert!(
                    row.allowed.contains(transitive),
                    "{krate} may name {dep}, which may name {transitive} — but \
                     {krate} may not. ALLOWED must be transitively closed."
                );
            }
        }
    }
}

#[test]
fn no_crate_may_name_itself() {
    for row in allowed() {
        let krate = row.krate;
        assert!(!row.allowed.contains(&krate), "{krate} names itself");
    }
}

#[test]
fn every_charter_crate_has_an_empty_row() {
    let rows = allowed();
    for krate in zero_dep() {
        let allowed = &rows
            .iter()
            .find(|row| row.krate == krate)
            .unwrap_or_else(|| panic!("{krate} is on the charter but has no ALLOWED row"))
            .allowed;
        assert!(
            allowed.is_empty(),
            "{krate} is on the charter but may name {allowed:?}"
        );
    }
}

#[test]
fn nothing_reaches_a_dev_only_crate() {
    for krate in dev_only() {
        for row in allowed() {
            let from = row.krate;
            assert!(
                !row.allowed.contains(&krate),
                "{from} may reach {krate}, which is dev-only"
            );
        }
    }
}

#[test]
fn the_intended_direct_edges_read_as_the_design_says() {
    assert!(reaches("ccid-cli", "ccidkit"), "the CLI sits on the facade");
    assert!(
        reaches("ccid-driverkit", "ccidkit"),
        "the driver tool proves the diagnostics facade"
    );
    assert!(
        !reaches("ccidkit", "ccid-cli"),
        "nothing depends on a binary"
    );
}

#[test]
fn the_denylist_is_paths_not_names() {
    for exempted in non_pure_members() {
        assert!(
            exempted == "xtask" || exempted.starts_with("crates/"),
            "{exempted} is spelled as Cargo.toml spells members"
        );
    }
}

const GOOD: &str = "[[reader]]\nvid = 0x08e6\npid = 0x3437\nname = \"Example Reader\"\nflags = [\"bogus-descriptor\"]\n\n[reader.provenance]\nsource = \"cassette\"\nevidence = \"cassettes/example-3437.toml\"\ndate = \"2026-08-11\"\n";

#[test]
fn a_comment_only_table_is_valid_and_empty() {
    assert!(violations_in("# only prose\n\n# more prose\n").is_empty());
}

#[test]
fn a_complete_entry_is_valid() {
    assert_eq!(violations_in(GOOD), Vec::<String>::new());
}

#[test]
fn a_missing_provenance_is_a_violation() {
    let text = "[[reader]]\nvid = 0x08e6\npid = 0x3437\nname = \"X\"\nflags = []\n";
    let found = violations_in(text);
    assert!(
        found
            .iter()
            .any(|violation| violation.contains("provenance.source")),
        "found {found:?}"
    );
}

#[test]
fn an_unknown_flag_is_a_violation() {
    let text = GOOD.replace("bogus-descriptor", "made-up-flag");
    let found = violations_in(&text);
    assert!(
        found
            .iter()
            .any(|violation| violation.contains("made-up-flag")),
        "found {found:?}"
    );
}

#[test]
fn order_and_duplicates_are_violations() {
    let two = format!("{GOOD}\n{GOOD}");
    let found = violations_in(&two);
    assert!(
        found
            .iter()
            .any(|violation| violation.contains("duplicate")),
        "found {found:?}"
    );

    let second = GOOD.replace("0x08e6", "0x0001");
    let unsorted = format!("{GOOD}\n{second}");
    let found = violations_in(&unsorted);
    assert!(
        found.iter().any(|violation| violation.contains("sorted")),
        "found {found:?}"
    );
}

#[test]
fn ids_must_fit_sixteen_bits() {
    let text = GOOD.replace("0x08e6", "0x10000");
    let found = violations_in(&text);
    assert!(
        found
            .iter()
            .any(|violation| violation.contains("sixteen bits")),
        "found {found:?}"
    );
}

#[test]
fn dates_are_shape_checked() {
    assert!(date_shaped("2026-08-11"));
    assert!(!date_shaped("2026-8-11"));
    assert!(!date_shaped("11 Aug 2026"));
}

#[test]
fn prose_may_name_the_token() {
    assert!(check_outside("a.rs", "// unsafe is discussed here\n").is_empty());
    assert!(check_outside("a.rs", "let s = \"unsafe\";\n").is_empty());
}

#[test]
fn code_outside_may_not() {
    let found = check_outside("a.rs", "fn f() { unsafe { g() } }\n");
    assert_eq!(found.len(), 1);
}

#[test]
fn a_block_needs_its_safety_comment() {
    let documented =
        "// SAFETY: the handle outlives the call\n// and the buffer is ours.\nunsafe { g() }\n";
    assert!(check_inside("a.rs", documented).is_empty());
    let undocumented = "// a comment that is not the required one\nunsafe { g() }\n";
    assert_eq!(check_inside("a.rs", undocumented).len(), 1);
    assert_eq!(check_inside("a.rs", "unsafe { g() }\n").len(), 1);
}
