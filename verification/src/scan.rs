//! The per-item steps of the two scan phases.
//!
//! Phase A hands each parsed descriptor document here to gain its service
//! row and endpoint rows; phase B hands each identified executable here to
//! gain its service row. The outputs of the introspection capabilities are
//! persisted by one function per capability, and one step that takes the
//! three of them as independent optional contributions: a capability that
//! failed contributes nothing and cannot keep another from contributing.

use vstd::prelude::*;

use crate::descriptor::ParseError;
use crate::descriptor::spec_bool_field;
use crate::descriptor::spec_label;
use crate::descriptor::spec_program_path;
use crate::descriptor::spec_runs_as_standard_user;
use crate::store::Store;
use crate::store::has_ent_link;
use crate::store::has_endpoint;
use crate::store::has_key;
use crate::store::has_pair;
use crate::store::key_index;
use crate::value::DictEntry;
use crate::value::DocValue;

verus! {

/// The non-key columns of a service row discovered through a descriptor:
/// program path, user class, the two supervision flags as `1`/`0`, and
/// the descriptor location.
pub open spec fn spec_service_cols(v: DocValue, descriptor_path: Seq<char>) -> Seq<Seq<char>> {
    seq![
        spec_program_path(v),
        if spec_runs_as_standard_user(descriptor_path) {
            "standard"@
        } else {
            "root"@
        },
        if spec_bool_field(v, "RunAtLoad"@) {
            "1"@
        } else {
            "0"@
        },
        if spec_bool_field(v, "KeepAlive"@) {
            "1"@
        } else {
            "0"@
        },
        descriptor_path,
    ]
}

/// The entries of the `MachServices` dictionary of a descriptor; empty
/// when the field is absent or not a dictionary.
pub open spec fn spec_mach_entries(v: DocValue) -> Seq<DictEntry> {
    match v.spec_get("MachServices"@) {
        Option::Some(m) => match m {
            DocValue::Dict(entries) => entries@,
            _ => Seq::empty(),
        },
        Option::None => Seq::empty(),
    }
}

/// The entries of a top-level dictionary value; empty for any other shape.
pub open spec fn spec_top_entries(v: DocValue) -> Seq<DictEntry> {
    match v {
        DocValue::Dict(entries) => entries@,
        _ => Seq::empty(),
    }
}

/// `row` declares one of `entries`: its name is an entry's key and its
/// value that entry's value in string form.
pub open spec fn endpoint_row_declared(
    row: crate::store::EndpointRow,
    entries: Seq<DictEntry>,
) -> bool {
    exists|k: int|
        0 <= k < entries.len() && row.name@ == entries[k].key@ && row.value@
            == entries[k].val.spec_endpoint_string()
}

/// `row`'s natural key is one of the dictionary keys of `entries`.
pub open spec fn key_among_entries(row: crate::store::KeyedRow, entries: Seq<DictEntry>) -> bool {
    exists|k: int| 0 <= k < entries.len() && row.key@ == entries[k].key@
}

/// `link` grants one of `entries`: it points at an entitlement row named
/// by an entry's key and carries that entry's value in its canonical
/// collapsed string rendering.
pub open spec fn ent_link_declared(
    ents: Seq<crate::store::KeyedRow>,
    link: crate::store::EntLink,
    entries: Seq<DictEntry>,
) -> bool {
    exists|k: int|
        0 <= k < entries.len() && link.entitlement_id < ents.len() && ents[link.entitlement_id as int].key@
            == entries[k].key@ && link.value@ == crate::value::spec_collapse(entries[k].val)
}

/// `row` is a library row for one of `paths`: its key is the path and its
/// one other column the path's final segment, the library name.
pub open spec fn library_row_of(row: crate::store::KeyedRow, paths: Seq<Seq<char>>) -> bool {
    (exists|k: int| 0 <= k < paths.len() && row.key@ == paths[k]) && row.cols.deep_view() == seq![
        crate::text::after_last(row.key@, '/'),
    ]
}

/// `row`'s natural key is one of `names`.
pub open spec fn key_among_names(row: crate::store::KeyedRow, names: Seq<Seq<char>>) -> bool {
    exists|k: int| 0 <= k < names.len() && row.key@ == names[k]
}

/// The store links `service_id` to an entitlement named `name`.
pub open spec fn has_entitlement_link(s: Store, service_id: usize, name: Seq<char>) -> bool {
    exists|eid: int|
        0 <= eid < s.entitlements.rows@.len() && s.entitlements.rows@[eid].key@ == name
            && has_ent_link(s.service_entitlements.links@, service_id, eid as usize)
}

/// The store links `service_id` to a library whose path is `path`.
pub open spec fn has_library_link(s: Store, service_id: usize, path: Seq<char>) -> bool {
    exists|lid: int|
        0 <= lid < s.libraries.rows@.len() && s.libraries.rows@[lid].key@ == path && has_pair(
            s.service_libraries.pairs@,
            service_id,
            lid as usize,
        )
}

/// The store links `service_id` to a symbol named `name`.
pub open spec fn has_symbol_link(s: Store, service_id: usize, name: Seq<char>) -> bool {
    exists|sid: int|
        0 <= sid < s.symbols.rows@.len() && s.symbols.rows@[sid].key@ == name && has_pair(
            s.service_symbols.pairs@,
            service_id,
            sid as usize,
        )
}

/// The `1`/`0` column form of a supervision flag.
fn bool_col(b: bool) -> (s: String)
    ensures
        b ==> s@ == "1"@,
        !b ==> s@ == "0"@,
{
    if b {
        crate::text::chars_to_string(&crate::text::str_chars("1"))
    } else {
        crate::text::chars_to_string(&crate::text::str_chars("0"))
    }
}

/// Establish the service row a parsed descriptor describes: get-or-create
/// on the label, the remaining columns taken from the document and the
/// descriptor location. Only the service table changes.
pub fn save_service(descriptor_path: &String, v: &DocValue, store: &mut Store) -> (id: usize)
    requires
        old(store).wf(),
    ensures
        final(store).wf(),
        final(store).entitlements == old(store).entitlements,
        final(store).libraries == old(store).libraries,
        final(store).symbols == old(store).symbols,
        final(store).service_entitlements == old(store).service_entitlements,
        final(store).service_libraries == old(store).service_libraries,
        final(store).service_symbols == old(store).service_symbols,
        final(store).mach_endpoints == old(store).mach_endpoints,
        id == key_index(old(store).services.rows@, spec_label(*v)),
        id < final(store).services.rows@.len(),
        final(store).services.rows@[id as int].key@ == spec_label(*v),
        has_key(old(store).services.rows@, spec_label(*v)) ==> final(store).services == old(
            store,
        ).services,
        !has_key(old(store).services.rows@, spec_label(*v)) ==> {
            &&& id == old(store).services.rows@.len()
            &&& final(store).services.rows@.len() == old(store).services.rows@.len() + 1
            &&& final(store).services.rows@[id as int].cols.deep_view() == spec_service_cols(
                *v,
                descriptor_path@,
            )
        },
        final(store).services.rows@.subrange(0, old(store).services.rows@.len() as int) == old(
            store,
        ).services.rows@,
{
    let d = v.to_descriptor();
    let user = crate::descriptor::run_as_user_for(descriptor_path.as_str());
    let mut cols: Vec<String> = Vec::new();
    cols.push(d.program_path);
    cols.push(user);
    cols.push(bool_col(d.run_at_load));
    cols.push(bool_col(d.keep_alive));
    cols.push(descriptor_path.clone());
    assert(cols.deep_view() =~~= spec_service_cols(*v, descriptor_path@));
    let id = store.services.insert_and_get_id(d.label.as_str(), cols);
    id
}

/// Establish the service row an identified executable from the raw sweep
/// describes: get-or-create on the code identity, the path the only other
/// column. Only the service table changes.
pub fn process_sweep_binary(identifier: &String, path: &String, store: &mut Store) -> (id: usize)
    requires
        old(store).wf(),
    ensures
        final(store).wf(),
        final(store).entitlements == old(store).entitlements,
        final(store).libraries == old(store).libraries,
        final(store).symbols == old(store).symbols,
        final(store).service_entitlements == old(store).service_entitlements,
        final(store).service_libraries == old(store).service_libraries,
        final(store).service_symbols == old(store).service_symbols,
        final(store).mach_endpoints == old(store).mach_endpoints,
        id == key_index(old(store).services.rows@, identifier@),
        id < final(store).services.rows@.len(),
        final(store).services.rows@[id as int].key@ == identifier@,
        has_key(old(store).services.rows@, identifier@) ==> final(store).services == old(
            store,
        ).services,
        !has_key(old(store).services.rows@, identifier@) ==> {
            &&& id == old(store).services.rows@.len()
            &&& final(store).services.rows@.len() == old(store).services.rows@.len() + 1
            &&& final(store).services.rows@[id as int].cols.deep_view() == seq![path@]
        },
        final(store).services.rows@.subrange(0, old(store).services.rows@.len() as int) == old(
            store,
        ).services.rows@,
{
    let mut cols: Vec<String> = Vec::new();
    cols.push(path.clone());
    assert(cols.deep_view() =~~= seq![path@]);
    let id = store.services.insert_and_get_id(identifier.as_str(), cols);
    id
}

/// Persist the endpoints a descriptor declares: one row per entry of its
/// `MachServices` dictionary, in the entry's string form, attached to the
/// given service. Only the endpoint table changes, and it only grows with
/// rows of this service carrying declared names and values.
pub fn save_mach_services(service_id: usize, v: &DocValue, store: &mut Store)
    requires
        old(store).wf(),
        service_id < old(store).services.rows@.len(),
    ensures
        final(store).wf(),
        final(store).services == old(store).services,
        final(store).entitlements == old(store).entitlements,
        final(store).libraries == old(store).libraries,
        final(store).symbols == old(store).symbols,
        final(store).service_entitlements == old(store).service_entitlements,
        final(store).service_libraries == old(store).service_libraries,
        final(store).service_symbols == old(store).service_symbols,
        forall|k: int|
            0 <= k < spec_mach_entries(*v).len() ==> has_endpoint(
                final(store).mach_endpoints.rows@,
                service_id,
                spec_mach_entries(*v)[k].key@,
            ),
        final(store).mach_endpoints.rows@.len() >= old(store).mach_endpoints.rows@.len(),
        final(store).mach_endpoints.rows@.subrange(
            0,
            old(store).mach_endpoints.rows@.len() as int,
        ) == old(store).mach_endpoints.rows@,
        forall|j: int|
            old(store).mach_endpoints.rows@.len() <= j < final(store).mach_endpoints.rows@.len()
                ==> (#[trigger] final(store).mach_endpoints.rows@[j]).service_id == service_id
                && endpoint_row_declared(
                final(store).mach_endpoints.rows@[j],
                spec_mach_entries(*v),
            ),
{
    let ghost rows0 = store.mach_endpoints.rows@;
    match v.get("MachServices") {
        Option::Some(m) => match m {
            DocValue::Dict(entries) => {
                assert(spec_mach_entries(*v) == entries@);
                let n = entries.len();
                let mut k: usize = 0;
                while k < n
                    invariant
                        n == entries@.len(),
                        k <= n,
                        spec_mach_entries(*v) == entries@,
                        service_id < store.services.rows@.len(),
                        store.wf(),
                        store.services == old(store).services,
                        store.entitlements == old(store).entitlements,
                        store.libraries == old(store).libraries,
                        store.symbols == old(store).symbols,
                        store.service_entitlements == old(store).service_entitlements,
                        store.service_libraries == old(store).service_libraries,
                        store.service_symbols == old(store).service_symbols,
                        rows0 == old(store).mach_endpoints.rows@,
                        store.mach_endpoints.rows@.len() >= rows0.len(),
                        store.mach_endpoints.rows@.subrange(0, rows0.len() as int) == rows0,
                        forall|m: int|
                            0 <= m < k ==> has_endpoint(
                                store.mach_endpoints.rows@,
                                service_id,
                                entries@[m].key@,
                            ),
                        forall|j: int|
                            rows0.len() <= j < store.mach_endpoints.rows@.len() ==> (
                            #[trigger] store.mach_endpoints.rows@[j]).service_id == service_id
                                && endpoint_row_declared(
                                store.mach_endpoints.rows@[j],
                                entries@,
                            ),
                    decreases n - k,
                {
                    let ghost mid = store.mach_endpoints.rows@;
                    let name = entries[k].key.clone();
                    let value = entries[k].val.endpoint_to_string();
                    store.mach_endpoints.insert_endpoint(service_id, name, value);
                    proof {
                        assert(store.mach_endpoints.rows@.subrange(0, rows0.len() as int) =~= rows0);
                        assert forall|j: int|
                            0 <= j < store.mach_endpoints.rows@.len() implies (
                        #[trigger] store.mach_endpoints.rows@[j]).service_id
                            < store.services.rows@.len() by {
                            if j < mid.len() {
                                assert(store.mach_endpoints.rows@[j] == mid[j]);
                            } else {
                                assert(j == store.mach_endpoints.rows@.len() - 1);
                            }
                        }
                        assert forall|j: int|
                            rows0.len() <= j < store.mach_endpoints.rows@.len() implies (
                        #[trigger] store.mach_endpoints.rows@[j]).service_id == service_id
                            && endpoint_row_declared(store.mach_endpoints.rows@[j], entries@) by {
                            if j < mid.len() {
                                assert(store.mach_endpoints.rows@[j] == mid[j]);
                            } else {
                                assert(store.mach_endpoints.rows@[j].name@ == entries@[k as int].key@);
                                assert(store.mach_endpoints.rows@[j].value@ == entries@[k as int].val.spec_endpoint_string());
                            }
                        }
                    }
                    k = k + 1;
                }
            },
            _ => {
                assert(spec_mach_entries(*v) =~= Seq::<DictEntry>::empty());
            },
        },
        Option::None => {
            assert(spec_mach_entries(*v) =~= Seq::<DictEntry>::empty());
        },
    }
}

/// Persist the entitlements of a binary against its service: each entry
/// of the entitlement map gains an identity row by name and a link from
/// the service carrying the entry's collapsed value. Only the entitlement
/// table and its association table change, the first only with rows named
/// by the map, the second only with links of this service.
pub fn save_service_entitlements(service_id: usize, entitlements: &DocValue, store: &mut Store)
    requires
        old(store).wf(),
        service_id < old(store).services.rows@.len(),
    ensures
        final(store).wf(),
        final(store).services == old(store).services,
        final(store).libraries == old(store).libraries,
        final(store).symbols == old(store).symbols,
        final(store).service_libraries == old(store).service_libraries,
        final(store).service_symbols == old(store).service_symbols,
        final(store).mach_endpoints == old(store).mach_endpoints,
        forall|k: int|
            0 <= k < spec_top_entries(*entitlements).len() ==> has_entitlement_link(
                *final(store),
                service_id,
                spec_top_entries(*entitlements)[k].key@,
            ),
        final(store).entitlements.rows@.len() >= old(store).entitlements.rows@.len(),
        final(store).entitlements.rows@.subrange(0, old(store).entitlements.rows@.len() as int)
            == old(store).entitlements.rows@,
        forall|j: int|
            old(store).entitlements.rows@.len() <= j < final(store).entitlements.rows@.len()
                ==> key_among_entries(
                #[trigger] final(store).entitlements.rows@[j],
                spec_top_entries(*entitlements),
            ),
        final(store).service_entitlements.links@.len() >= old(
            store,
        ).service_entitlements.links@.len(),
        final(store).service_entitlements.links@.subrange(
            0,
            old(store).service_entitlements.links@.len() as int,
        ) == old(store).service_entitlements.links@,
        forall|j: int|
            old(store).service_entitlements.links@.len() <= j
                < final(store).service_entitlements.links@.len() ==> (
            #[trigger] final(store).service_entitlements.links@[j]).service_id == service_id
                && ent_link_declared(
                final(store).entitlements.rows@,
                final(store).service_entitlements.links@[j],
                spec_top_entries(*entitlements),
            ),
{
    let ghost ents0 = store.entitlements.rows@;
    let ghost links0 = store.service_entitlements.links@;
    match entitlements {
        DocValue::Dict(entries) => {
            assert(spec_top_entries(*entitlements) == entries@);
            let n = entries.len();
            let mut k: usize = 0;
            while k < n
                invariant
                    n == entries@.len(),
                    k <= n,
                    spec_top_entries(*entitlements) == entries@,
                    service_id < store.services.rows@.len(),
                    store.wf(),
                    store.services == old(store).services,
                    store.libraries == old(store).libraries,
                    store.symbols == old(store).symbols,
                    store.service_libraries == old(store).service_libraries,
                    store.service_symbols == old(store).service_symbols,
                    store.mach_endpoints == old(store).mach_endpoints,
                    ents0 == old(store).entitlements.rows@,
                    links0 == old(store).service_entitlements.links@,
                    store.entitlements.rows@.len() >= ents0.len(),
                    store.entitlements.rows@.subrange(0, ents0.len() as int) == ents0,
                    store.service_entitlements.links@.len() >= links0.len(),
                    store.service_entitlements.links@.subrange(0, links0.len() as int) == links0,
                    forall|m: int|
                        0 <= m < k ==> has_entitlement_link(*store, service_id, entries@[m].key@),
                    forall|j: int|
                        ents0.len() <= j < store.entitlements.rows@.len() ==> key_among_entries(
                            #[trigger] store.entitlements.rows@[j],
                            entries@,
                        ),
                    forall|j: int|
                        links0.len() <= j < store.service_entitlements.links@.len() ==> (
                        #[trigger] store.service_entitlements.links@[j]).service_id == service_id
                            && ent_link_declared(
                            store.entitlements.rows@,
                            store.service_entitlements.links@[j],
                            entries@,
                        ),
                decreases n - k,
            {
                let ghost ents_mid = store.entitlements.rows@;
                let ghost links_mid = store.service_entitlements.links@;
                let eid = store.entitlements.insert_and_get_id(entries[k].key.as_str(), Vec::new());
                let value = entries[k].val.collapse_to_string();
                proof {
                    assert(store.entitlements.rows@.subrange(0, ents0.len() as int) =~= ents0);
                    assert forall|j: int|
                        ents0.len() <= j < store.entitlements.rows@.len() implies key_among_entries(
                        #[trigger] store.entitlements.rows@[j],
                        entries@,
                    ) by {
                        if j < ents_mid.len() {
                            assert(store.entitlements.rows@[j] == ents_mid[j]);
                        } else {
                            assert(store.entitlements.rows@[j].key@ == entries@[k as int].key@);
                        }
                    }
                    assert forall|j: int|
                        links0.len() <= j < store.service_entitlements.links@.len() implies
                        ent_link_declared(
                        store.entitlements.rows@,
                        #[trigger] store.service_entitlements.links@[j],
                        entries@,
                    ) by {
                        let link = store.service_entitlements.links@[j];
                        let w = choose|w: int|
                            0 <= w < entries@.len() && link.entitlement_id < ents_mid.len()
                                && ents_mid[link.entitlement_id as int].key@ == entries@[w].key@
                                && link.value@ == crate::value::spec_collapse(entries@[w].val);
                        assert(store.entitlements.rows@[link.entitlement_id as int]
                            == ents_mid[link.entitlement_id as int]);
                    }
                }
                store.service_entitlements.insert_link(service_id, eid, value);
                proof {
                    assert(store.service_entitlements.links@.subrange(0, links0.len() as int)
                        =~= links0);
                    let ghost links_after_row = store.service_entitlements.links@;
                    assert forall|j: int|
                        links0.len() <= j < store.service_entitlements.links@.len() implies (
                    #[trigger] store.service_entitlements.links@[j]).service_id == service_id
                        && ent_link_declared(
                        store.entitlements.rows@,
                        store.service_entitlements.links@[j],
                        entries@,
                    ) by {
                        if j < links_mid.len() {
                            assert(store.service_entitlements.links@[j] == links_mid[j]);
                        } else {
                            assert(j == store.service_entitlements.links@.len() - 1);
                            if j == links_mid.len() && links_after_row.len() > links_mid.len() {
                                assert(store.service_entitlements.links@[j].entitlement_id == eid);
                                assert(store.entitlements.rows@[eid as int].key@
                                    == entries@[k as int].key@);
                                assert(store.service_entitlements.links@[j].value@
                                    == crate::value::spec_collapse(entries@[k as int].val));
                            }
                        }
                    }
                    assert forall|i: int|
                        0 <= i < store.service_entitlements.links@.len() implies (
                    #[trigger] store.service_entitlements.links@[i]).service_id
                        < store.services.rows@.len() && store.service_entitlements.links@[i].entitlement_id
                        < store.entitlements.rows@.len() by {
                        if i < links_mid.len() {
                            assert(store.service_entitlements.links@[i] == links_mid[i]);
                        } else {
                            assert(i == store.service_entitlements.links@.len() - 1);
                        }
                    }
                    assert(has_entitlement_link(*store, service_id, entries@[k as int].key@)) by {
                        assert(store.entitlements.rows@[eid as int].key@ == entries@[k as int].key@);
                        assert(has_ent_link(store.service_entitlements.links@, service_id, eid));
                    }
                    assert forall|m: int|
                        0 <= m < k + 1 implies has_entitlement_link(
                        *store,
                        service_id,
                        entries@[m].key@,
                    ) by {
                        if m < k {
                            let w = choose|w: int|
                                0 <= w < ents_mid.len() && ents_mid[w].key@ == entries@[m].key@
                                    && has_ent_link(links_mid, service_id, w as usize);
                            assert(store.entitlements.rows@[w] == ents_mid[w]);
                            assert(has_ent_link(
                                store.service_entitlements.links@,
                                service_id,
                                w as usize,
                            ));
                        }
                    }
                }
                k = k + 1;
            }
        },
        _ => {
            assert(spec_top_entries(*entitlements) =~= Seq::<DictEntry>::empty());
        },
    }
}

/// Persist the linked libraries of a binary against its service: each
/// path gains an identity row keyed by the path, carrying the library
/// name — the path's final segment — and a link from the service. Only
/// the library table and its association table change, the first only
/// with rows of the given paths, the second only with pairs of this
/// service. An empty list changes nothing.
pub fn save_services_dependencies(service_id: usize, dependencies: &Vec<String>, store: &mut Store)
    requires
        old(store).wf(),
        service_id < old(store).services.rows@.len(),
    ensures
        final(store).wf(),
        final(store).services == old(store).services,
        final(store).entitlements == old(store).entitlements,
        final(store).symbols == old(store).symbols,
        final(store).service_entitlements == old(store).service_entitlements,
        final(store).service_symbols == old(store).service_symbols,
        final(store).mach_endpoints == old(store).mach_endpoints,
        forall|k: int|
            0 <= k < dependencies.deep_view().len() ==> has_library_link(
                *final(store),
                service_id,
                dependencies.deep_view()[k],
            ),
        final(store).libraries.rows@.len() >= old(store).libraries.rows@.len(),
        final(store).libraries.rows@.subrange(0, old(store).libraries.rows@.len() as int) == old(
            store,
        ).libraries.rows@,
        forall|j: int|
            old(store).libraries.rows@.len() <= j < final(store).libraries.rows@.len()
                ==> library_row_of(
                #[trigger] final(store).libraries.rows@[j],
                dependencies.deep_view(),
            ),
        final(store).service_libraries.pairs@.len() >= old(store).service_libraries.pairs@.len(),
        final(store).service_libraries.pairs@.subrange(
            0,
            old(store).service_libraries.pairs@.len() as int,
        ) == old(store).service_libraries.pairs@,
        forall|j: int|
            old(store).service_libraries.pairs@.len() <= j
                < final(store).service_libraries.pairs@.len() ==> (
            #[trigger] final(store).service_libraries.pairs@[j]).service_id == service_id,
        dependencies.deep_view().len() == 0 ==> *final(store) == *old(store),
{
    let ghost libs0 = store.libraries.rows@;
    let ghost pairs0 = store.service_libraries.pairs@;
    let ghost paths = dependencies.deep_view();
    let n = dependencies.len();
    let mut k: usize = 0;
    while k < n
        invariant
            n == dependencies@.len(),
            k <= n,
            paths == dependencies.deep_view(),
            service_id < store.services.rows@.len(),
            store.wf(),
            store.services == old(store).services,
            store.entitlements == old(store).entitlements,
            store.symbols == old(store).symbols,
            store.service_entitlements == old(store).service_entitlements,
            store.service_symbols == old(store).service_symbols,
            store.mach_endpoints == old(store).mach_endpoints,
            libs0 == old(store).libraries.rows@,
            pairs0 == old(store).service_libraries.pairs@,
            store.libraries.rows@.len() >= libs0.len(),
            store.libraries.rows@.subrange(0, libs0.len() as int) == libs0,
            store.service_libraries.pairs@.len() >= pairs0.len(),
            store.service_libraries.pairs@.subrange(0, pairs0.len() as int) == pairs0,
            forall|m: int| 0 <= m < k ==> has_library_link(*store, service_id, paths[m]),
            forall|j: int|
                libs0.len() <= j < store.libraries.rows@.len() ==> library_row_of(
                    #[trigger] store.libraries.rows@[j],
                    paths,
                ),
            forall|j: int|
                pairs0.len() <= j < store.service_libraries.pairs@.len() ==> (
                #[trigger] store.service_libraries.pairs@[j]).service_id == service_id,
            k == 0 ==> *store == *old(store),
        decreases n - k,
    {
        let ghost libs_mid = store.libraries.rows@;
        let ghost pairs_mid = store.service_libraries.pairs@;
        let dep_chars = crate::text::str_chars(dependencies[k].as_str());
        let name_chars = crate::text::after_last_exec(&dep_chars, '/');
        let name = crate::text::chars_to_string(&name_chars);
        let mut cols: Vec<String> = Vec::new();
        cols.push(name);
        assert(cols.deep_view() =~~= seq![crate::text::after_last(paths[k as int], '/')]);
        let lid = store.libraries.insert_and_get_id(dependencies[k].as_str(), cols);
        proof {
            assert(store.libraries.rows@.subrange(0, libs0.len() as int) =~= libs0);
            assert forall|j: int|
                libs0.len() <= j < store.libraries.rows@.len() implies library_row_of(
                #[trigger] store.libraries.rows@[j],
                paths,
            ) by {
                if j < libs_mid.len() {
                    assert(store.libraries.rows@[j] == libs_mid[j]);
                } else {
                    assert(store.libraries.rows@[j].key@ == paths[k as int]);
                    assert(store.libraries.rows@[j].cols.deep_view() == seq![
                        crate::text::after_last(paths[k as int], '/'),
                    ]);
                }
            }
        }
        store.service_libraries.insert_pair(service_id, lid);
        proof {
            assert(store.service_libraries.pairs@.subrange(0, pairs0.len() as int) =~= pairs0);
            assert forall|j: int|
                pairs0.len() <= j < store.service_libraries.pairs@.len() implies (
            #[trigger] store.service_libraries.pairs@[j]).service_id == service_id by {
                if j < pairs_mid.len() {
                    assert(store.service_libraries.pairs@[j] == pairs_mid[j]);
                } else {
                    assert(j == store.service_libraries.pairs@.len() - 1);
                }
            }
            assert forall|i: int|
                0 <= i < store.service_libraries.pairs@.len() implies (
            #[trigger] store.service_libraries.pairs@[i]).service_id < store.services.rows@.len()
                && store.service_libraries.pairs@[i].target_id < store.libraries.rows@.len() by {
                if i < pairs_mid.len() {
                    assert(store.service_libraries.pairs@[i] == pairs_mid[i]);
                } else {
                    assert(i == store.service_libraries.pairs@.len() - 1);
                }
            }
            assert(has_library_link(*store, service_id, paths[k as int])) by {
                assert(store.libraries.rows@[lid as int].key@ == paths[k as int]);
                assert(has_pair(store.service_libraries.pairs@, service_id, lid));
            }
            assert forall|m: int| 0 <= m < k + 1 implies has_library_link(
                *store,
                service_id,
                paths[m],
            ) by {
                if m < k {
                    let w = choose|w: int|
                        0 <= w < libs_mid.len() && libs_mid[w].key@ == paths[m] && has_pair(
                            pairs_mid,
                            service_id,
                            w as usize,
                        );
                    assert(store.libraries.rows@[w] == libs_mid[w]);
                    assert(has_pair(store.service_libraries.pairs@, service_id, w as usize));
                }
            }
        }
        k = k + 1;
    }
}

/// Persist the imported symbols of a binary against its service: each
/// name gains an identity row and a link from the service. Only the
/// symbol table and its association table change, the first only with
/// rows of the given names, the second only with pairs of this service.
/// An empty list changes nothing.
pub fn save_service_imported_symbols(service_id: usize, symbols: &Vec<String>, store: &mut Store)
    requires
        old(store).wf(),
        service_id < old(store).services.rows@.len(),
    ensures
        final(store).wf(),
        final(store).services == old(store).services,
        final(store).entitlements == old(store).entitlements,
        final(store).libraries == old(store).libraries,
        final(store).service_entitlements == old(store).service_entitlements,
        final(store).service_libraries == old(store).service_libraries,
        final(store).mach_endpoints == old(store).mach_endpoints,
        forall|k: int|
            0 <= k < symbols.deep_view().len() ==> has_symbol_link(
                *final(store),
                service_id,
                symbols.deep_view()[k],
            ),
        final(store).symbols.rows@.len() >= old(store).symbols.rows@.len(),
        final(store).symbols.rows@.subrange(0, old(store).symbols.rows@.len() as int) == old(
            store,
        ).symbols.rows@,
        forall|j: int|
            old(store).symbols.rows@.len() <= j < final(store).symbols.rows@.len()
                ==> key_among_names(#[trigger] final(store).symbols.rows@[j], symbols.deep_view()),
        final(store).service_symbols.pairs@.len() >= old(store).service_symbols.pairs@.len(),
        final(store).service_symbols.pairs@.subrange(
            0,
            old(store).service_symbols.pairs@.len() as int,
        ) == old(store).service_symbols.pairs@,
        forall|j: int|
            old(store).service_symbols.pairs@.len() <= j
                < final(store).service_symbols.pairs@.len() ==> (
            #[trigger] final(store).service_symbols.pairs@[j]).service_id == service_id,
        symbols.deep_view().len() == 0 ==> *final(store) == *old(store),
{
    let ghost syms0 = store.symbols.rows@;
    let ghost pairs0 = store.service_symbols.pairs@;
    let ghost names = symbols.deep_view();
    let n = symbols.len();
    let mut k: usize = 0;
    while k < n
        invariant
            n == symbols@.len(),
            k <= n,
            names == symbols.deep_view(),
            service_id < store.services.rows@.len(),
            store.wf(),
            store.services == old(store).services,
            store.entitlements == old(store).entitlements,
            store.libraries == old(store).libraries,
            store.service_entitlements == old(store).service_entitlements,
            store.service_libraries == old(store).service_libraries,
            store.mach_endpoints == old(store).mach_endpoints,
            syms0 == old(store).symbols.rows@,
            pairs0 == old(store).service_symbols.pairs@,
            store.symbols.rows@.len() >= syms0.len(),
            store.symbols.rows@.subrange(0, syms0.len() as int) == syms0,
            store.service_symbols.pairs@.len() >= pairs0.len(),
            store.service_symbols.pairs@.subrange(0, pairs0.len() as int) == pairs0,
            forall|m: int| 0 <= m < k ==> has_symbol_link(*store, service_id, names[m]),
            forall|j: int|
                syms0.len() <= j < store.symbols.rows@.len() ==> key_among_names(
                    #[trigger] store.symbols.rows@[j],
                    names,
                ),
            forall|j: int|
                pairs0.len() <= j < store.service_symbols.pairs@.len() ==> (
                #[trigger] store.service_symbols.pairs@[j]).service_id == service_id,
            k == 0 ==> *store == *old(store),
        decreases n - k,
    {
        let ghost syms_mid = store.symbols.rows@;
        let ghost pairs_mid = store.service_symbols.pairs@;
        let sid = store.symbols.insert_and_get_id(symbols[k].as_str(), Vec::new());
        proof {
            assert(store.symbols.rows@.subrange(0, syms0.len() as int) =~= syms0);
            assert forall|j: int|
                syms0.len() <= j < store.symbols.rows@.len() implies key_among_names(
                #[trigger] store.symbols.rows@[j],
                names,
            ) by {
                if j < syms_mid.len() {
                    assert(store.symbols.rows@[j] == syms_mid[j]);
                } else {
                    assert(store.symbols.rows@[j].key@ == names[k as int]);
                }
            }
        }
        store.service_symbols.insert_pair(service_id, sid);
        proof {
            assert(store.service_symbols.pairs@.subrange(0, pairs0.len() as int) =~= pairs0);
            assert forall|j: int|
                pairs0.len() <= j < store.service_symbols.pairs@.len() implies (
            #[trigger] store.service_symbols.pairs@[j]).service_id == service_id by {
                if j < pairs_mid.len() {
                    assert(store.service_symbols.pairs@[j] == pairs_mid[j]);
                } else {
                    assert(j == store.service_symbols.pairs@.len() - 1);
                }
            }
            assert forall|i: int|
                0 <= i < store.service_symbols.pairs@.len() implies (
            #[trigger] store.service_symbols.pairs@[i]).service_id < store.services.rows@.len()
                && store.service_symbols.pairs@[i].target_id < store.symbols.rows@.len() by {
                if i < pairs_mid.len() {
                    assert(store.service_symbols.pairs@[i] == pairs_mid[i]);
                } else {
                    assert(i == store.service_symbols.pairs@.len() - 1);
                }
            }
            assert(has_symbol_link(*store, service_id, names[k as int])) by {
                assert(store.symbols.rows@[sid as int].key@ == names[k as int]);
                assert(has_pair(store.service_symbols.pairs@, service_id, sid));
            }
            assert forall|m: int| 0 <= m < k + 1 implies has_symbol_link(
                *store,
                service_id,
                names[m],
            ) by {
                if m < k {
                    let w = choose|w: int|
                        0 <= w < syms_mid.len() && syms_mid[w].key@ == names[m] && has_pair(
                            pairs_mid,
                            service_id,
                            w as usize,
                        );
                    assert(store.symbols.rows@[w] == syms_mid[w]);
                    assert(has_pair(store.service_symbols.pairs@, service_id, w as usize));
                }
            }
        }
        k = k + 1;
    }
}

/// Persist whatever the three independent introspection capabilities
/// produced for one binary. Each argument is one capability's outcome:
/// its parsed output, or nothing when that capability failed. A failed
/// capability contributes nothing, and never keeps another capability's
/// rows out of the store: the dependency and symbol links appear whenever
/// their lists are given, whatever became of the entitlement extraction,
/// and likewise for each other pairing.
pub fn process_and_save_macho_information(
    service_id: usize,
    entitlements: Option<&DocValue>,
    dependencies: Option<&Vec<String>>,
    symbols: Option<&Vec<String>>,
    store: &mut Store,
)
    requires
        old(store).wf(),
        service_id < old(store).services.rows@.len(),
    ensures
        final(store).wf(),
        final(store).services == old(store).services,
        final(store).mach_endpoints == old(store).mach_endpoints,
        // what each given capability contributes is present
        entitlements matches Option::Some(e) ==> forall|k: int|
            0 <= k < spec_top_entries(*e).len() ==> has_entitlement_link(
                *final(store),
                service_id,
                spec_top_entries(*e)[k].key@,
            ),
        dependencies matches Option::Some(d) ==> forall|k: int|
            0 <= k < d.deep_view().len() ==> has_library_link(
                *final(store),
                service_id,
                d.deep_view()[k],
            ),
        symbols matches Option::Some(ss) ==> forall|k: int|
            0 <= k < ss.deep_view().len() ==> has_symbol_link(
                *final(store),
                service_id,
                ss.deep_view()[k],
            ),
        // the links of a given entitlement map only grow, each new one of
        // this service and carrying an entry's key and collapsed value
        entitlements matches Option::Some(e) ==> {
            &&& final(store).service_entitlements.links@.len() >= old(
                store,
            ).service_entitlements.links@.len()
            &&& final(store).service_entitlements.links@.subrange(
                0,
                old(store).service_entitlements.links@.len() as int,
            ) == old(store).service_entitlements.links@
            &&& forall|j: int|
                old(store).service_entitlements.links@.len() <= j
                    < final(store).service_entitlements.links@.len() ==> (
                #[trigger] final(store).service_entitlements.links@[j]).service_id == service_id
                    && ent_link_declared(
                    final(store).entitlements.rows@,
                    final(store).service_entitlements.links@[j],
                    spec_top_entries(*e),
                )
        },
        // the library and symbol tables likewise only grow, each new row
        // from the given list and each new pair of this service
        dependencies matches Option::Some(d) ==> {
            &&& final(store).libraries.rows@.len() >= old(store).libraries.rows@.len()
            &&& final(store).libraries.rows@.subrange(0, old(store).libraries.rows@.len() as int)
                == old(store).libraries.rows@
            &&& forall|j: int|
                old(store).libraries.rows@.len() <= j < final(store).libraries.rows@.len()
                    ==> library_row_of(#[trigger] final(store).libraries.rows@[j], d.deep_view())
            &&& final(store).service_libraries.pairs@.len() >= old(
                store,
            ).service_libraries.pairs@.len()
            &&& final(store).service_libraries.pairs@.subrange(
                0,
                old(store).service_libraries.pairs@.len() as int,
            ) == old(store).service_libraries.pairs@
            &&& forall|j: int|
                old(store).service_libraries.pairs@.len() <= j
                    < final(store).service_libraries.pairs@.len() ==> (
                #[trigger] final(store).service_libraries.pairs@[j]).service_id == service_id
        },
        symbols matches Option::Some(ss) ==> {
            &&& final(store).symbols.rows@.len() >= old(store).symbols.rows@.len()
            &&& final(store).symbols.rows@.subrange(0, old(store).symbols.rows@.len() as int)
                == old(store).symbols.rows@
            &&& forall|j: int|
                old(store).symbols.rows@.len() <= j < final(store).symbols.rows@.len()
                    ==> key_among_names(#[trigger] final(store).symbols.rows@[j], ss.deep_view())
            &&& final(store).service_symbols.pairs@.len() >= old(
                store,
            ).service_symbols.pairs@.len()
            &&& final(store).service_symbols.pairs@.subrange(
                0,
                old(store).service_symbols.pairs@.len() as int,
            ) == old(store).service_symbols.pairs@
            &&& forall|j: int|
                old(store).service_symbols.pairs@.len() <= j
                    < final(store).service_symbols.pairs@.len() ==> (
                #[trigger] final(store).service_symbols.pairs@[j]).service_id == service_id
        },
        // a missing capability leaves its tables exactly as they were
        entitlements is None ==> final(store).entitlements == old(store).entitlements && final(store).service_entitlements == old(store).service_entitlements,
        dependencies is None ==> final(store).libraries == old(store).libraries && final(store).service_libraries == old(store).service_libraries,
        symbols is None ==> final(store).symbols == old(store).symbols && final(store).service_symbols == old(store).service_symbols,
        // an empty contribution adds no rows either
        (dependencies matches Option::Some(d) && d.deep_view().len() == 0) ==> final(store).libraries == old(store).libraries && final(store).service_libraries == old(
            store,
        ).service_libraries,
        (symbols matches Option::Some(ss) && ss.deep_view().len() == 0) ==> final(store).symbols
            == old(store).symbols && final(store).service_symbols == old(store).service_symbols,
{
    match entitlements {
        Option::Some(e) => {
            save_service_entitlements(service_id, e, store);
        },
        Option::None => {},
    }
    let ghost after_ents = *store;
    match dependencies {
        Option::Some(d) => {
            save_services_dependencies(service_id, d, store);
        },
        Option::None => {},
    }
    let ghost after_deps = *store;
    match symbols {
        Option::Some(ss) => {
            save_service_imported_symbols(service_id, ss, store);
        },
        Option::None => {},
    }
    proof {
        if entitlements is Some {
            let e = entitlements->0;
            assert(store.entitlements == after_ents.entitlements);
            assert(store.service_entitlements == after_ents.service_entitlements);
            assert forall|k: int| 0 <= k < spec_top_entries(*e).len() implies has_entitlement_link(
                *store,
                service_id,
                spec_top_entries(*e)[k].key@,
            ) by {
                assert(has_entitlement_link(after_ents, service_id, spec_top_entries(*e)[k].key@));
            }
        }
        if dependencies is Some {
            let d = dependencies->0;
            assert(after_ents.libraries == old(store).libraries);
            assert(after_ents.service_libraries == old(store).service_libraries);
            assert(store.libraries == after_deps.libraries);
            assert(store.service_libraries == after_deps.service_libraries);
            assert forall|k: int| 0 <= k < d.deep_view().len() implies has_library_link(
                *store,
                service_id,
                d.deep_view()[k],
            ) by {
                assert(has_library_link(after_deps, service_id, d.deep_view()[k]));
            }
        }
        if symbols is Some {
            assert(after_deps.symbols == old(store).symbols);
            assert(after_deps.service_symbols == old(store).service_symbols);
        }
    }
}

/// One phase-A step: parse a descriptor document, establish its service
/// row, persist its declared endpoints, and hand back the service
/// identity with the program path the introspection capabilities should
/// be run against — an empty path meaning there is none. A document that
/// does not parse changes nothing and is reported as the error of that
/// one descriptor.
pub fn process_descriptor(descriptor_path: &String, bytes: &[u8], store: &mut Store) -> (r: Result<
    (usize, String),
    ParseError,
>)
    requires
        old(store).wf(),
    ensures
        final(store).wf(),
        match r {
            Result::Ok(sp) => {
                &&& crate::outside::parsed_descriptor_value(bytes@) matches Option::Some(v)
                &&& sp.0 < final(store).services.rows@.len()
                &&& final(store).services.rows@[sp.0 as int].key@ == spec_label(v)
                &&& sp.1@ == spec_program_path(v)
                &&& sp.0 == key_index(old(store).services.rows@, spec_label(v))
                &&& !has_key(old(store).services.rows@, spec_label(v)) ==> final(store).services.rows@[sp.0 as int].cols.deep_view() == spec_service_cols(
                    v,
                    descriptor_path@,
                )
                &&& forall|k: int|
                    0 <= k < spec_mach_entries(v).len() ==> has_endpoint(
                        final(store).mach_endpoints.rows@,
                        sp.0,
                        spec_mach_entries(v)[k].key@,
                    )
                &&& final(store).mach_endpoints.rows@.len() >= old(
                    store,
                ).mach_endpoints.rows@.len()
                &&& final(store).mach_endpoints.rows@.subrange(
                    0,
                    old(store).mach_endpoints.rows@.len() as int,
                ) == old(store).mach_endpoints.rows@
                &&& forall|j: int|
                    old(store).mach_endpoints.rows@.len() <= j
                        < final(store).mach_endpoints.rows@.len() ==> (
                    #[trigger] final(store).mach_endpoints.rows@[j]).service_id == sp.0
                        && endpoint_row_declared(
                        final(store).mach_endpoints.rows@[j],
                        spec_mach_entries(v),
                    )
                &&& final(store).entitlements == old(store).entitlements
                &&& final(store).libraries == old(store).libraries
                &&& final(store).symbols == old(store).symbols
                &&& final(store).service_entitlements == old(store).service_entitlements
                &&& final(store).service_libraries == old(store).service_libraries
                &&& final(store).service_symbols == old(store).service_symbols
                &&& final(store).services.rows@.subrange(
                    0,
                    old(store).services.rows@.len() as int,
                ) == old(store).services.rows@
            },
            Result::Err(_) => {
                &&& crate::outside::parsed_descriptor_value(bytes@) is None
                &&& *final(store) == *old(store)
            },
        },
{
    let parsed = crate::descriptor::parse_service_plist(bytes);
    match parsed {
        Result::Ok(v) => {
            let service_id = save_service(descriptor_path, &v, store);
            save_mach_services(service_id, &v, store);
            let d = v.to_descriptor();
            Result::Ok((service_id, d.program_path))
        },
        Result::Err(e) => Result::Err(e),
    }
}

} // verus!
