use dora::query::get_entitlements_value_by_service_label;
use dora::query::get_libraries_by_label;
use dora::query::get_mach_service_by_label;
use dora::query::get_service_by_label;
use dora::query::get_services_by_entitlement;
use dora::query::get_services_by_entitlement_and_symbol;
use dora::query::get_services_by_label_pattern;
use dora::query::get_services_by_library;
use dora::query::get_services_by_symbol;
use dora::query::get_symbols_by_label;
use dora::scan::process_and_save_macho_information;
use dora::scan::process_descriptor;
use dora::scan::process_sweep_binary;
use dora::store::Store;
use dora::utils::QueryChoice;
use dora::utils::select_query;

fn demo_store() -> Store {
    let mut store = Store::new();
    let sid_a = process_sweep_binary(&"com.example.alpha".to_string(), &"/usr/bin/alpha".to_string(), &mut store);
    let sid_b = process_sweep_binary(&"com.example.beta".to_string(), &"/usr/bin/beta".to_string(), &mut store);
    let ents_a = dora::capabilities::entitlements_from_json(
        br#"{"com.apple.security.network.client":true}"#,
    ).unwrap();
    let deps_a = vec!["/usr/lib/libz.1.dylib".to_string()];
    let syms_a = vec!["_malloc".to_string(), "_free".to_string()];
    process_and_save_macho_information(sid_a, Some(&ents_a), Some(&deps_a), Some(&syms_a), &mut store);
    let ents_b = dora::capabilities::entitlements_from_json(
        br#"{"com.apple.security.network.server":true}"#,
    ).unwrap();
    let deps_b = vec!["/usr/lib/libsqlite3.dylib".to_string()];
    let syms_b = vec!["_malloc".to_string()];
    process_and_save_macho_information(sid_b, Some(&ents_b), Some(&deps_b), Some(&syms_b), &mut store);
    store
}

#[test]
fn label_pattern_query_is_a_substring_glob() {
    let store = demo_store();
    let hits = get_services_by_label_pattern(&store, "alpha");
    assert_eq!(hits.len(), 1);
    assert_eq!(hits[0].label, "com.example.alpha".to_string());
    assert_eq!(hits[0].path, "/usr/bin/alpha".to_string());
    let all = get_services_by_label_pattern(&store, "example");
    assert_eq!(all.len(), 2);
    // ordered by label
    assert_eq!(all[0].label, "com.example.alpha".to_string());
    assert_eq!(all[1].label, "com.example.beta".to_string());
}

#[test]
fn label_pattern_matches_case_insensitively() {
    let store = demo_store();
    let hits = get_services_by_label_pattern(&store, "ALPHA");
    assert_eq!(hits.len(), 1);
    assert_eq!(hits[0].label, "com.example.alpha".to_string());
}

#[test]
fn label_pattern_without_match_is_an_empty_list() {
    let store = demo_store();
    let hits = get_services_by_label_pattern(&store, "nonexistent");
    assert_eq!(hits.len(), 0);
}

#[test]
fn entitlement_query_matches_substring_case_insensitively() {
    let store = demo_store();
    let hits = get_services_by_entitlement(&store, "NETWORK.CLIENT");
    assert_eq!(hits.len(), 1);
    assert_eq!(hits[0].label, "com.example.alpha".to_string());
    let both = get_services_by_entitlement(&store, "network");
    assert_eq!(both.len(), 2);
}

#[test]
fn symbol_query_uses_the_glob_grammar() {
    let store = demo_store();
    let both = get_services_by_symbol(&store, "malloc");
    assert_eq!(both.len(), 2);
    let alpha_only = get_services_by_symbol(&store, "free");
    assert_eq!(alpha_only.len(), 1);
    assert_eq!(alpha_only[0].label, "com.example.alpha".to_string());
    let question = get_services_by_symbol(&store, "_fre?");
    assert_eq!(question.len(), 1);
}

#[test]
fn library_query_matches_the_library_name() {
    let store = demo_store();
    let hits = get_services_by_library(&store, "SQLITE3");
    assert_eq!(hits.len(), 1);
    assert_eq!(hits[0].label, "com.example.beta".to_string());
}

#[test]
fn entitlement_and_symbol_query_is_the_intersection() {
    let store = demo_store();
    // both services import _malloc; only one holds the client entitlement
    let joint = get_services_by_entitlement_and_symbol(&store, "network", "malloc");
    assert_eq!(joint.len(), 2);
    let narrowed = get_services_by_entitlement_and_symbol(&store, "network.client", "malloc");
    assert_eq!(narrowed.len(), 1);
    assert_eq!(narrowed[0].label, "com.example.alpha".to_string());

    // the result agrees with intersecting the two single-filter queries
    let ents = get_services_by_entitlement(&store, "network.client");
    let syms = get_services_by_symbol(&store, "malloc");
    let mut expected: Vec<String> = Vec::new();
    for e in &ents {
        if syms.iter().any(|s| s.label == e.label) {
            expected.push(e.label.clone());
        }
    }
    let got: Vec<String> = narrowed.iter().map(|h| h.label.clone()).collect();
    assert_eq!(got, expected);
}

#[test]
fn daemon_descriptor_end_to_end() {
    let xml = br#"<?xml version="1.0" encoding="UTF-8"?>
<plist version="1.0">
<dict>
    <key>Label</key><string>com.example.foo</string>
    <key>Program</key><string>/usr/bin/foo</string>
    <key>RunAtLoad</key><true/>
    <key>KeepAlive</key><false/>
    <key>MachServices</key>
    <dict><key>com.example.mach</key><true/></dict>
</dict>
</plist>"#;
    let mut store = Store::new();
    let descriptor_path = "/System/Library/LaunchDaemons/com.example.foo.plist".to_string();
    let (sid, program) = process_descriptor(&descriptor_path, xml, &mut store).unwrap();
    assert_eq!(program, "/usr/bin/foo".to_string());

    let row = &store.services.rows[sid];
    assert_eq!(row.key, "com.example.foo".to_string());
    assert_eq!(row.cols[0], "/usr/bin/foo".to_string());
    assert_eq!(row.cols[1], "root".to_string());
    assert_eq!(row.cols[2], "1".to_string());
    assert_eq!(row.cols[3], "0".to_string());
    assert_eq!(row.cols[4], descriptor_path);

    assert_eq!(store.mach_endpoints.rows.len(), 1);
    assert_eq!(store.mach_endpoints.rows[0].service_id, sid);
    assert_eq!(store.mach_endpoints.rows[0].name, "com.example.mach".to_string());
    assert_eq!(store.mach_endpoints.rows[0].value, "true".to_string());

    let d = get_service_by_label(&store, "COM.EXAMPLE.FOO").unwrap();
    assert_eq!(d.label, "com.example.foo".to_string());
    assert_eq!(d.run_as_user, "root".to_string());
    assert_eq!(d.run_at_load, "1".to_string());
    assert_eq!(d.keep_alive, "0".to_string());
    let mach = get_mach_service_by_label(&store, "com.example.foo").unwrap();
    assert_eq!(mach, vec!["com.example.mach".to_string()]);
}

#[test]
fn agent_descriptor_runs_as_standard_user() {
    let xml = br#"<?xml version="1.0" encoding="UTF-8"?>
<plist version="1.0">
<dict>
    <key>Label</key><string>com.example.agent</string>
    <key>Program</key><string>/usr/bin/agent</string>
</dict>
</plist>"#;
    let mut store = Store::new();
    let descriptor_path = "/System/Library/LaunchAgents/com.example.agent.plist".to_string();
    let (sid, _) = process_descriptor(&descriptor_path, xml, &mut store).unwrap();
    assert_eq!(store.services.rows[sid].cols[1], "standard".to_string());
}

#[test]
fn detail_reads_cover_all_capabilities() {
    let store = demo_store();
    let d = get_service_by_label(&store, "com.example.alpha").unwrap();
    assert_eq!(d.path, "/usr/bin/alpha".to_string());
    // a sweep-discovered row has no descriptor columns
    assert_eq!(d.run_as_user, "NULL".to_string());
    assert_eq!(d.plist_path, "NULL".to_string());

    let ents = get_entitlements_value_by_service_label(&store, "com.example.alpha").unwrap();
    assert_eq!(ents.len(), 1);
    assert_eq!(ents[0].name, "com.apple.security.network.client".to_string());
    assert_eq!(ents[0].value, "true".to_string());

    let libs = get_libraries_by_label(&store, "com.example.alpha").unwrap();
    assert_eq!(libs.len(), 1);
    assert_eq!(libs[0].name, "libz.1.dylib".to_string());
    assert_eq!(libs[0].path, "/usr/lib/libz.1.dylib".to_string());

    let syms = get_symbols_by_label(&store, "com.example.alpha").unwrap();
    // ordered by name
    assert_eq!(syms, vec!["_free".to_string(), "_malloc".to_string()]);
}

#[test]
fn detail_reads_of_an_unknown_label_are_none() {
    let store = demo_store();
    assert!(get_service_by_label(&store, "no.such.label").is_none());
    assert!(get_mach_service_by_label(&store, "no.such.label").is_none());
    assert!(get_entitlements_value_by_service_label(&store, "no.such.label").is_none());
    assert!(get_libraries_by_label(&store, "no.such.label").is_none());
    assert!(get_symbols_by_label(&store, "no.such.label").is_none());
}

#[test]
fn query_dispatch_follows_the_precedence() {
    assert_eq!(select_query("x", "e", "l", "s"), QueryChoice::ByLabelPattern);
    assert_eq!(select_query("", "e", "l", "s"), QueryChoice::ByEntitlementAndSymbol);
    assert_eq!(select_query("", "e", "l", ""), QueryChoice::ByEntitlement);
    assert_eq!(select_query("", "", "l", "s"), QueryChoice::ByLibrary);
    assert_eq!(select_query("", "", "", "s"), QueryChoice::BySymbol);
    assert_eq!(select_query("", "", "", ""), QueryChoice::NoParameters);
}

#[test]
fn store_names_are_validated_and_generated() {
    assert!(dora::is_valid_db(&"dora_macOS_14.0_23A344.sqlite".to_string()));
    assert!(!dora::is_valid_db(&"".to_string()));
    assert!(!dora::is_valid_db(&"other_macOS.sqlite".to_string()));
    assert!(!dora::is_valid_db(&"dora_macOS".to_string()));
    assert!(!dora::is_valid_db(&"dora_../etc/passwd.sqlite".to_string()));
    let name = dora::generate_sqlite_filename("macOS\n", "14.0\n", "23A344\n");
    assert_eq!(name, "dora_macOS_14.0_23A344.sqlite".to_string());
    assert!(dora::is_valid_db(&name));
}

#[test]
fn entitlement_values_survive_to_the_detail_read() {
    let mut store = Store::new();
    let sid = process_sweep_binary(&"com.example.rich".to_string(), &"/usr/bin/rich".to_string(), &mut store);
    let ents = dora::capabilities::entitlements_from_json(
        br#"{"keychain-access-groups":["team.a","team.b"],"com.apple.developer.team-identifier":"TEAM01"}"#,
    ).unwrap();
    process_and_save_macho_information(sid, Some(&ents), None, None, &mut store);
    let read = get_entitlements_value_by_service_label(&store, "com.example.rich").unwrap();
    assert_eq!(read.len(), 2);
    // keys come back in the parsed document's order
    let mut by_name = std::collections::HashMap::new();
    for e in &read {
        by_name.insert(e.name.clone(), e.value.clone());
    }
    assert_eq!(by_name["keychain-access-groups"], "\"team.a\", \"team.b\"".to_string());
    assert_eq!(by_name["com.apple.developer.team-identifier"], "TEAM01".to_string());
}

#[test]
fn wildcard_grammars_match_exactly() {
    let store = demo_store();
    // percent and underscore belong to the textual grammar
    let under = get_services_by_entitlement(&store, "network_client");
    assert_eq!(under.len(), 1);
    // a glob question mark matches one character, not zero
    let miss = get_services_by_symbol(&store, "_malloc?");
    assert_eq!(miss.len(), 0);
}
