use vortex_core::fbs_array::Version;

#[test]
fn known_version_has_a_name() {
    assert_eq!(Version(0).variant_name(), Some("V0"));
    assert!(Version::v0() == Version(0));
    assert_eq!(Version::ENUM_MIN, 0);
    assert_eq!(Version::ENUM_MAX, 0);
}

#[test]
fn unknown_version_has_no_name() {
    assert_eq!(Version(1).variant_name(), None);
    assert_eq!(Version(255).variant_name(), None);
}

#[test]
fn debug_text_names_or_flags_unknown_values() {
    assert_eq!(Version(0).debug_string(), "V0");
    assert_eq!(Version(3).debug_string(), "<UNKNOWN 3>");
    assert_eq!(Version(200).debug_string(), "<UNKNOWN 200>");
}

#[test]
fn follow_reads_one_byte() {
    let buf = [9u8, 0, 4];
    assert!(Version::follow(&buf, 1) == Version(0));
    assert!(Version::follow(&buf, 2) == Version(4));
}
