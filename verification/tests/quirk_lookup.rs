use ccidkit::quirk_table::generate;

#[test]
fn generator_maps_transport_flags_and_ignores_incomplete_entries() {
    let table = "[[reader]]\nvid = 0x1234\npid = 0xabcd\nflags = [\"needs-zlp\", \"slow-power-on\"]\n\n[[reader]]\nvid = 7\n";
    let generated = generate(table);
    assert!(generated.contains("(0x1234, 0xABCD)"));
    assert!(generated.contains("force_short_apdu: false"));
    assert!(generated.contains("needs_zlp: true"));
    assert!(generated.contains("slow_power_on: true"));
    assert!(!generated.contains("0x0007"));
}

#[test]
fn empty_table_generates_a_total_default_lookup() {
    let generated = generate("# intentionally empty\n");
    assert!(generated.contains("let _ = (vid, pid)"));
    assert!(generated.contains("Quirks::default()"));
}
