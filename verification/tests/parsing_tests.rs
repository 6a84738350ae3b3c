use dora::capabilities::entitlements_from_json;
use dora::capabilities::parse_dependencies_output;
use dora::capabilities::parse_identifier_output;
use dora::capabilities::parse_symbols_output;
use dora::descriptor::parse_service_plist;
use dora::is_macho_magic;
use dora::FileType;
use dora::value::DocValue;

#[test]
fn sniffer_rejects_empty_file() {
    let bytes: Vec<u8> = vec![];
    assert!(!bytes.is_macho());
}

#[test]
fn sniffer_accepts_exact_64_bit_signature() {
    let bytes: Vec<u8> = vec![0xFE, 0xED, 0xFA, 0xCF];
    assert!(bytes.is_macho());
}

#[test]
fn sniffer_rejects_truncated_file() {
    let bytes: Vec<u8> = vec![0xFE, 0xED, 0xFA];
    assert!(!bytes.is_macho());
}

#[test]
fn sniffer_accepts_all_known_signatures() {
    assert!(is_macho_magic(&[0xFE, 0xED, 0xFA, 0xCE, 0x00]));
    assert!(is_macho_magic(&[0xCE, 0xFA, 0xED, 0xFE, 0x0C]));
    assert!(is_macho_magic(&[0xFE, 0xED, 0xFA, 0xCF, 0xFF]));
    assert!(is_macho_magic(&[0xCF, 0xFA, 0xED, 0xFE, 0x07]));
    assert!(is_macho_magic(&[0xCA, 0xFE, 0xBA, 0xBE, 0x12]));
}

#[test]
fn sniffer_accepts_the_byte_swapped_32_bit_signature() {
    let bytes: Vec<u8> = vec![0xCE, 0xFA, 0xED, 0xFE];
    assert!(bytes.is_macho());
}

#[test]
fn sniffer_rejects_other_leading_bytes() {
    assert!(!is_macho_magic(b"#!/bin/sh\n"));
    assert!(!is_macho_magic(&[0x7F, 0x45, 0x4C, 0x46]));
}

#[test]
fn identifier_is_read_from_its_line() {
    let output = "Executable=/bin/ls\nIdentifier=com.apple.ls\nFormat=Mach-O universal\n";
    assert_eq!(parse_identifier_output(output), "com.apple.ls".to_string());
}

#[test]
fn identifier_defaults_to_unknown() {
    let output = "Executable=/bin/ls\nFormat=Mach-O universal\n";
    assert_eq!(parse_identifier_output(output), "Unknown".to_string());
}

#[test]
fn identifier_takes_what_stands_between_first_and_second_equals() {
    let output = "Identifier=com.apple.ls=extra\n";
    assert_eq!(parse_identifier_output(output), "com.apple.ls".to_string());
}

#[test]
fn dependencies_skip_the_self_line_and_keep_first_tokens() {
    let output = "/bin/ls:\n\t/usr/lib/libutil.dylib (compatibility version 1.0.0)\n\t/usr/lib/libSystem.B.dylib (compatibility version 1.0.0)\n";
    let deps = parse_dependencies_output(output);
    assert_eq!(
        deps,
        vec!["/usr/lib/libutil.dylib".to_string(), "/usr/lib/libSystem.B.dylib".to_string()]
    );
}

#[test]
fn dependencies_of_empty_output_are_empty() {
    assert_eq!(parse_dependencies_output(""), Vec::<String>::new());
    assert_eq!(parse_dependencies_output("/bin/true:\n"), Vec::<String>::new());
}

#[test]
fn symbols_are_trimmed_lines_without_blanks() {
    let output = "  _malloc\n_free\n\n\t_objc_msgSend  \n";
    let syms = parse_symbols_output(output);
    assert_eq!(
        syms,
        vec!["_malloc".to_string(), "_free".to_string(), "_objc_msgSend".to_string()]
    );
}

#[test]
fn empty_entitlement_output_is_an_empty_map_not_an_error() {
    let r = entitlements_from_json(&[]);
    match r {
        Ok(DocValue::Dict(entries)) => assert_eq!(entries.len(), 0),
        _ => panic!("empty output must yield an empty map"),
    }
}

#[test]
fn entitlement_json_is_parsed_into_a_map() {
    let json = br#"{"com.apple.security.app-sandbox":true,"com.apple.security.device.camera":false}"#;
    let v = entitlements_from_json(json).unwrap();
    match v {
        DocValue::Dict(entries) => {
            assert_eq!(entries.len(), 2);
            assert_eq!(entries[0].key, "com.apple.security.app-sandbox".to_string());
            match entries[0].val {
                DocValue::Bool(b) => assert!(b),
                _ => panic!("expected a boolean entitlement value"),
            }
        },
        _ => panic!("expected a dictionary"),
    }
}

#[test]
fn malformed_entitlement_json_is_an_error() {
    assert!(entitlements_from_json(b"{not json").is_err());
}

#[test]
fn malformed_descriptor_is_a_parse_error() {
    assert!(parse_service_plist(b"this is not a property list").is_err());
}

#[test]
fn descriptor_fields_are_extracted() {
    let xml = br#"<?xml version="1.0" encoding="UTF-8"?>
<plist version="1.0">
<dict>
    <key>Label</key><string>com.example.demo</string>
    <key>ProgramArguments</key>
    <array><string>/usr/libexec/demo</string><string>--flag</string></array>
    <key>RunAtLoad</key><true/>
</dict>
</plist>"#;
    let v = parse_service_plist(xml).unwrap();
    let d = v.to_descriptor();
    assert_eq!(d.label, "com.example.demo".to_string());
    assert_eq!(d.program_path, "/usr/libexec/demo".to_string());
    assert!(d.run_at_load);
    assert!(!d.keep_alive);
}

#[test]
fn program_field_wins_over_program_arguments() {
    let xml = br#"<?xml version="1.0" encoding="UTF-8"?>
<plist version="1.0">
<dict>
    <key>Label</key><string>com.example.both</string>
    <key>Program</key><string>/usr/bin/primary</string>
    <key>ProgramArguments</key><array><string>/usr/bin/secondary</string></array>
</dict>
</plist>"#;
    let v = parse_service_plist(xml).unwrap();
    assert_eq!(v.to_descriptor().program_path, "/usr/bin/primary".to_string());
}

#[test]
fn entitlement_values_collapse_to_canonical_strings() {
    let scalar = DocValue::Str("a value".to_string());
    assert_eq!(scalar.collapse_to_string(), "a value".to_string());
    let flag = DocValue::Bool(true);
    assert_eq!(flag.collapse_to_string(), "true".to_string());
    let number = DocValue::Num("42".to_string());
    assert_eq!(number.collapse_to_string(), "42".to_string());
    let list = DocValue::List(vec![
        DocValue::Str("x".to_string()),
        DocValue::Num("1".to_string()),
    ]);
    assert_eq!(list.collapse_to_string(), "\"x\", 1".to_string());
    let map = DocValue::Dict(vec![dora::value::DictEntry {
        key: "team".to_string(),
        val: DocValue::Str("ab".to_string()),
    }]);
    assert_eq!(map.collapse_to_string(), "team: \"ab\"".to_string());
}

#[test]
fn nested_values_render_compactly_with_escapes() {
    let nested = DocValue::List(vec![DocValue::List(vec![
        DocValue::Str("q\"q".to_string()),
        DocValue::Null,
    ])]);
    assert_eq!(nested.collapse_to_string(), "[\"q\\\"q\",null]".to_string());
}
