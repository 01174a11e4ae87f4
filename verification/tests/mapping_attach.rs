use plexus::sys::mapping::{mapping_metadata, profile_sddl, to_wide, validate_mapping_request};
use plexus::{MappingError, MappingSecurityProfile};

#[test]
fn rejects_invalid_mapping_name() {
    let result = validate_mapping_request("   ", 4096);
    assert!(matches!(result, Err(MappingError::InvalidName)));
}

#[test]
fn rejects_namespace_without_local_or_global_prefix() {
    let result = validate_mapping_request("plexus-test-no-prefix", 4096);
    assert!(matches!(result, Err(MappingError::InvalidNamespace)));
}

#[test]
fn rejects_zero_sized_mapping() {
    let result = validate_mapping_request("Local\\plexus-zero-size", 0);
    assert!(matches!(result, Err(MappingError::InvalidSize)));
}

#[test]
fn accepts_local_and_global_names() {
    assert!(validate_mapping_request("Local\\plexus-ok", 4096).is_ok());
    assert!(validate_mapping_request("Global\\plexus-ok", 1).is_ok());
    assert!(matches!(
        validate_mapping_request("local\\plexus", 1),
        Err(MappingError::InvalidNamespace)
    ));
}

#[test]
fn whitespace_only_names_are_blank() {
    assert!(matches!(
        validate_mapping_request("\t\n\u{3000}\u{2009}", 1),
        Err(MappingError::InvalidName)
    ));
    assert!(matches!(validate_mapping_request("", 1), Err(MappingError::InvalidName)));
}

#[test]
fn long_names_are_rejected_by_utf16_length() {
    let name = format!("Local\\{}", "a".repeat(243));
    assert_eq!(name.encode_utf16().count(), 249);
    assert!(validate_mapping_request(&name, 1).is_ok());
    let name = format!("Local\\{}", "a".repeat(244));
    assert!(matches!(validate_mapping_request(&name, 1), Err(MappingError::NameTooLong)));
    // A character outside the basic plane takes two UTF-16 units.
    let name = format!("Local\\{}\u{1F600}", "a".repeat(242));
    assert_eq!(name.encode_utf16().count(), 250);
    assert!(matches!(validate_mapping_request(&name, 1), Err(MappingError::NameTooLong)));
}

#[test]
fn wide_names_match_std_encoding() {
    for text in ["", "Local\\x", "Grüße \u{1F600} 東京"] {
        let mut expected: Vec<u16> = text.encode_utf16().collect();
        expected.push(0);
        assert_eq!(to_wide(text), expected);
    }
}

#[test]
fn profiles_have_their_descriptors() {
    assert_eq!(
        profile_sddl(MappingSecurityProfile::ProducerOwnerOnly),
        "D:P(A;;GA;;;OW)(A;;GA;;;SY)"
    );
    assert_eq!(
        profile_sddl(MappingSecurityProfile::ProducerConsumerLocalUsers),
        "D:P(A;;GA;;;OW)(A;;GA;;;SY)(A;;GR;;;AU)"
    );
    let meta = mapping_metadata(true, 4096);
    assert_eq!(meta.metadata_version, 1);
    assert!(meta.created_new);
    assert_eq!(meta.length, 4096);
}
