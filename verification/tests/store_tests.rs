use dora::store::KeyedTable;
use dora::store::Store;
use dora::scan::process_and_save_macho_information;
use dora::scan::process_sweep_binary;
use dora::scan::save_service_imported_symbols;
use dora::scan::save_services_dependencies;

#[test]
fn get_or_create_returns_same_id_for_same_key() {
    let mut table = KeyedTable::new();
    let first = table.insert_and_get_id("com.example.a", vec!["/bin/a".to_string()]);
    let second = table.insert_and_get_id("com.example.b", vec!["/bin/b".to_string()]);
    let again = table.insert_and_get_id("com.example.a", vec!["/bin/other".to_string()]);
    assert_eq!(first, 0);
    assert_eq!(second, 1);
    assert_eq!(again, first);
    assert_eq!(table.rows.len(), 2);
    // the row kept the columns it was first given
    assert_eq!(table.rows[0].cols[0], "/bin/a".to_string());
}

#[test]
fn populating_same_natural_keys_twice_doubles_nothing() {
    let mut store = Store::new();
    let sid = process_sweep_binary(&"com.example.tool".to_string(), &"/usr/bin/tool".to_string(), &mut store);
    let deps = vec!["/usr/lib/libz.1.dylib".to_string()];
    let syms = vec!["_malloc".to_string()];
    save_services_dependencies(sid, &deps, &mut store);
    save_service_imported_symbols(sid, &syms, &mut store);

    // a second population of the same natural keys
    let sid2 = process_sweep_binary(&"com.example.tool".to_string(), &"/usr/bin/tool".to_string(), &mut store);
    save_services_dependencies(sid2, &deps, &mut store);
    save_service_imported_symbols(sid2, &syms, &mut store);

    assert_eq!(sid, sid2);
    assert_eq!(store.services.rows.len(), 1);
    assert_eq!(store.libraries.rows.len(), 1);
    assert_eq!(store.symbols.rows.len(), 1);
    assert_eq!(store.service_libraries.pairs.len(), 1);
    assert_eq!(store.service_symbols.pairs.len(), 1);
}

#[test]
fn capability_isolation_keeps_other_contributions() {
    // Entitlements failed (None); dependencies and symbols succeeded.
    let mut store = Store::new();
    let sid = process_sweep_binary(&"com.example.iso".to_string(), &"/usr/bin/iso".to_string(), &mut store);
    let deps = vec!["/usr/lib/libSystem.B.dylib".to_string()];
    let syms = vec!["_objc_msgSend".to_string()];
    process_and_save_macho_information(sid, None, Some(&deps), Some(&syms), &mut store);

    assert_eq!(store.entitlements.rows.len(), 0);
    assert_eq!(store.service_entitlements.links.len(), 0);
    assert_eq!(store.libraries.rows.len(), 1);
    assert_eq!(store.libraries.rows[0].key, "/usr/lib/libSystem.B.dylib".to_string());
    assert_eq!(store.libraries.rows[0].cols[0], "libSystem.B.dylib".to_string());
    assert_eq!(store.symbols.rows.len(), 1);
    assert_eq!(store.symbols.rows[0].key, "_objc_msgSend".to_string());
    assert_eq!(store.service_libraries.pairs.len(), 1);
    assert_eq!(store.service_symbols.pairs.len(), 1);
    assert_eq!(store.service_libraries.pairs[0].service_id, sid);
    assert_eq!(store.service_symbols.pairs[0].service_id, sid);
}

#[test]
fn empty_collections_add_no_join_rows() {
    let mut store = Store::new();
    let sid = process_sweep_binary(&"com.example.empty".to_string(), &"/usr/bin/empty".to_string(), &mut store);
    let deps: Vec<String> = vec![];
    let syms: Vec<String> = vec![];
    process_and_save_macho_information(sid, None, Some(&deps), Some(&syms), &mut store);

    assert_eq!(store.services.rows.len(), 1);
    assert_eq!(store.libraries.rows.len(), 0);
    assert_eq!(store.symbols.rows.len(), 0);
    assert_eq!(store.service_libraries.pairs.len(), 0);
    assert_eq!(store.service_symbols.pairs.len(), 0);
}

#[test]
fn sweep_row_has_identifier_as_label_and_no_descriptor_fields() {
    let mut store = Store::new();
    let sid = process_sweep_binary(&"com.apple.ls".to_string(), &"/bin/ls".to_string(), &mut store);
    assert_eq!(store.services.rows[sid].key, "com.apple.ls".to_string());
    assert_eq!(store.services.rows[sid].cols.len(), 1);
    assert_eq!(store.services.rows[sid].cols[0], "/bin/ls".to_string());
}

#[test]
fn duplicate_entitlement_link_keeps_first_value() {
    let mut store = Store::new();
    let sid = process_sweep_binary(&"com.example.v".to_string(), &"/usr/bin/v".to_string(), &mut store);
    let eid = store.entitlements.insert_and_get_id("com.apple.security.cs.allow-jit", Vec::new());
    store.service_entitlements.insert_link(sid, eid, "true".to_string());
    store.service_entitlements.insert_link(sid, eid, "false".to_string());
    assert_eq!(store.service_entitlements.links.len(), 1);
    assert_eq!(store.service_entitlements.links[0].value, "true".to_string());
}
