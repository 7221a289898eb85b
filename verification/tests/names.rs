use blastdns::names::{host_name, parse_optional_record_type, parse_record_type, zone_name};
use blastdns::BlastDNSError;

#[test]
fn hostnames_become_names() {
    let name = host_name("WWW.example.com.".to_string()).expect("usable hostname");
    assert_eq!(name.to_ascii(), "WWW.example.com.");
    assert!(name.is_fqdn());
    assert_eq!(name.num_labels(), 3);
}

#[test]
fn unusable_hostnames_are_rejected() {
    for host in ["two words.example", "a..b", "\u{fc}.example"] {
        let err = host_name(host.to_string()).expect_err("unusable hostname");
        assert!(matches!(err, BlastDNSError::InvalidHostname { .. }));
        assert_eq!(err.message(), format!("invalid hostname `{host}`"));
    }
}

#[test]
fn a_zone_needs_no_last_dot() {
    let bare = zone_name("example.com").expect("usable zone");
    let dotted = zone_name("example.com.").expect("usable zone");
    assert!(bare.is_fqdn());
    assert_eq!(bare, dotted);
    assert_eq!(bare.to_ascii(), "example.com.");
    assert!(zone_name("").expect("the root").is_root());
}

#[test]
fn unusable_zones_are_rejected() {
    let err = zone_name("two words").expect_err("unusable zone");
    assert_eq!(err.message(), "invalid hostname `two words`");
}

#[test]
fn record_types_are_read_in_either_case() {
    assert_eq!(parse_record_type("A"), Ok(1));
    assert_eq!(parse_record_type(" mx\n"), Ok(15));
    assert_eq!(parse_record_type("Aaaa"), Ok(28));
    assert_eq!(parse_record_type("aAAA"), Ok(28));
    assert_eq!(parse_record_type("*"), Ok(255));
}

#[test]
fn unknown_record_types_are_rejected() {
    assert_eq!(
        parse_record_type(" nope "),
        Err("invalid record type ` nope `".to_string())
    );
    assert_eq!(parse_record_type(""), Err("invalid record type ``".to_string()));
}

#[test]
fn a_missing_record_type_means_addresses() {
    assert_eq!(parse_optional_record_type(None), Ok(1));
    assert_eq!(parse_optional_record_type(Some("  ")), Ok(1));
    assert_eq!(parse_optional_record_type(Some("txt")), Ok(16));
    assert_eq!(
        parse_optional_record_type(Some("txt?")),
        Err("invalid record type `txt?`".to_string())
    );
}
