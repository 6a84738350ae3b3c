//! The normalized relational store.
//!
//! Four entity tables (services, entitlements, libraries, symbols) resolve
//! identity by a natural key through one idempotent get-or-create
//! primitive; three association tables (service/entitlement with a value,
//! service/library, service/symbol) and the endpoint table refuse
//! duplicate pairs. Rows are only ever appended: an identity, once handed
//! out, never moves and is never updated.

use vstd::prelude::*;

verus! {

/// One row of an entity table: the natural key and the remaining columns,
/// in declaration order.
pub struct KeyedRow {
    pub key: String,
    pub cols: Vec<String>,
}

/// An entity table. The row identity is the row's position.
pub struct KeyedTable {
    pub rows: Vec<KeyedRow>,
}

/// No two rows share a natural key.
pub open spec fn keys_unique(rows: Seq<KeyedRow>) -> bool {
    forall|i: int, j: int|
        0 <= i < rows.len() && 0 <= j < rows.len() && i != j ==> rows[i].key@ != rows[j].key@
}

/// Some row carries the key.
pub open spec fn has_key(rows: Seq<KeyedRow>, key: Seq<char>) -> bool {
    exists|i: int| 0 <= i < rows.len() && rows[i].key@ == key
}

/// The position of the first row carrying `key`, or `rows.len()` when no
/// row does. Under `keys_unique` it is the position of the only such row.
pub open spec fn key_index(rows: Seq<KeyedRow>, key: Seq<char>) -> int {
    key_index_from(rows, key, 0)
}

pub open spec fn key_index_from(rows: Seq<KeyedRow>, key: Seq<char>, i: int) -> int
    decreases rows.len() - i,
{
    if i < 0 || i >= rows.len() {
        rows.len() as int
    } else if rows[i].key@ == key {
        i
    } else {
        key_index_from(rows, key, i + 1)
    }
}

/// What one get-or-create step leaves behind: the rows unchanged when the
/// key is already present, else the rows with `row` appended.
pub open spec fn spec_get_or_create(rows: Seq<KeyedRow>, key: Seq<char>, row: KeyedRow) -> Seq<
    KeyedRow,
> {
    if has_key(rows, key) {
        rows
    } else {
        rows.push(row)
    }
}

pub proof fn lemma_key_index_from(rows: Seq<KeyedRow>, key: Seq<char>, i: int)
    requires
        0 <= i <= rows.len(),
    ensures
        i <= key_index_from(rows, key, i) <= rows.len(),
        key_index_from(rows, key, i) < rows.len() ==> rows[key_index_from(rows, key, i)].key@
            == key,
        forall|k: int| i <= k < key_index_from(rows, key, i) ==> rows[k].key@ != key,
        key_index_from(rows, key, i) == rows.len() ==> forall|k: int|
            i <= k < rows.len() ==> rows[k].key@ != key,
    decreases rows.len() - i,
{
    if i < rows.len() && rows[i].key@ != key {
        lemma_key_index_from(rows, key, i + 1);
    }
}

impl KeyedTable {
    /// A table is well formed when its natural keys are pairwise distinct.
    pub open spec fn wf(self) -> bool {
        keys_unique(self.rows@)
    }

    pub open spec fn spec_len(self) -> nat {
        self.rows@.len()
    }

    /// An empty table.
    pub fn new() -> (t: KeyedTable)
        ensures
            t.wf(),
            t.rows@.len() == 0,
    {
        KeyedTable { rows: Vec::new() }
    }

    pub fn len(&self) -> (n: usize)
        ensures
            n == self.rows@.len(),
    {
        self.rows.len()
    }

    /// The position of the row carrying `key`, when one does.
    pub fn find_key(&self, key: &str) -> (r: Option<usize>)
        ensures
            match r {
                Option::Some(i) => i < self.rows@.len() && self.rows@[i as int].key@ == key@ && i
                    == key_index(self.rows@, key@),
                Option::None => !has_key(self.rows@, key@) && key_index(self.rows@, key@)
                    == self.rows@.len(),
            },
    {
        let key_chars = crate::text::str_chars(key);
        let n = self.rows.len();
        let mut i: usize = 0;
        while i < n
            invariant
                n == self.rows@.len(),
                i <= n,
                key_chars@ == key@,
                forall|k: int| 0 <= k < i ==> self.rows@[k].key@ != key@,
            decreases n - i,
        {
            let row_chars = crate::text::str_chars(self.rows[i].key.as_str());
            if crate::text::chars_eq(&row_chars, &key_chars) {
                proof {
                    lemma_key_index_is(self.rows@, key@, i as int);
                }
                return Option::Some(i);
            }
            i = i + 1;
        }
        proof {
            lemma_key_index_is(self.rows@, key@, n as int);
        }
        Option::None
    }

    /// The get-or-create primitive: attempt an insert that is ignored when
    /// the natural key is already present, then return the row identity
    /// resolved on the key. Two calls with equal keys return the same
    /// identity, whichever branch each one took, and the second leaves the
    /// table exactly as the first did.
    pub fn insert_and_get_id(&mut self, key: &str, cols: Vec<String>) -> (id: usize)
        requires
            old(self).wf(),
        ensures
            final(self).wf(),
            id == key_index(old(self).rows@, key@),
            id < final(self).rows@.len(),
            final(self).rows@[id as int].key@ == key@,
            old(self).spec_len() <= final(self).spec_len(),
            has_key(old(self).rows@, key@) ==> *final(self) == *old(self),
            !has_key(old(self).rows@, key@) ==> {
                &&& id == old(self).rows@.len()
                &&& final(self).rows@.len() == old(self).rows@.len() + 1
                &&& final(self).rows@[id as int].cols == cols
                &&& final(self).rows@ == spec_get_or_create(
                    old(self).rows@,
                    key@,
                    final(self).rows@[id as int],
                )
            },
            final(self).rows@.subrange(0, old(self).rows@.len() as int) == old(self).rows@,
            forall|k: Seq<char>| has_key(old(self).rows@, k) ==> has_key(final(self).rows@, k),
            forall|k: Seq<char>|
                has_key(final(self).rows@, k) ==> has_key(old(self).rows@, k) || k == key@,
    {
        let found = self.find_key(key);
        match found {
            Option::Some(i) => {
                assert(final(self).rows@.subrange(0, old(self).rows@.len() as int) =~= old(
                    self,
                ).rows@);
                i
            },
            Option::None => {
                let ghost rows0 = self.rows@;
                let id = self.rows.len();
                let row = KeyedRow { key: key.to_owned(), cols };
                self.rows.push(row);
                proof {
                    assert(self.rows@.subrange(0, rows0.len() as int) =~= rows0);
                    assert forall|i: int, j: int|
                        0 <= i < self.rows@.len() && 0 <= j < self.rows@.len() && i
                            != j implies self.rows@[i].key@ != self.rows@[j].key@ by {
                        if i < rows0.len() && j < rows0.len() {
                        } else if i == rows0.len() {
                            assert(self.rows@[j].key@ != key@);
                        } else if j == rows0.len() {
                            assert(self.rows@[i].key@ != key@);
                        }
                    }
                }
                id
            },
        }
    }
}

/// A position that carries `key` after key-free positions, or the length
/// after only key-free positions, is exactly `key_index`.
proof fn lemma_key_index_is(rows: Seq<KeyedRow>, key: Seq<char>, j: int)
    requires
        0 <= j <= rows.len(),
        forall|k: int| 0 <= k < j ==> rows[k].key@ != key,
        j < rows.len() ==> rows[j].key@ == key,
    ensures
        key_index(rows, key) == j,
        j < rows.len() ==> has_key(rows, key),
        j == rows.len() ==> !has_key(rows, key),
{
    lemma_key_index_from_is(rows, key, 0, j);
}

proof fn lemma_key_index_from_is(rows: Seq<KeyedRow>, key: Seq<char>, i: int, j: int)
    requires
        0 <= i <= j <= rows.len(),
        forall|k: int| i <= k < j ==> rows[k].key@ != key,
        j < rows.len() ==> rows[j].key@ == key,
    ensures
        key_index_from(rows, key, i) == j,
        j == rows.len() ==> forall|k: int| i <= k < rows.len() ==> rows[k].key@ != key,
    decreases j - i,
{
    if i < j {
        lemma_key_index_from_is(rows, key, i + 1, j);
    }
}

/// Populating the same natural key twice yields exactly one identity row
/// for it, under the same identity, and the second step changes nothing.
pub proof fn lemma_get_or_create_idempotent(
    rows: Seq<KeyedRow>,
    key: Seq<char>,
    row1: KeyedRow,
    row2: KeyedRow,
)
    requires
        keys_unique(rows),
        row1.key@ == key,
        row2.key@ == key,
    ensures
        ({
            let once = spec_get_or_create(rows, key, row1);
            let twice = spec_get_or_create(once, key, row2);
            &&& twice == once
            &&& key_index(once, key) == key_index(twice, key)
            &&& exists|i: int|
                0 <= i < once.len() && once[i].key@ == key && forall|j: int|
                    0 <= j < once.len() && once[j].key@ == key ==> j == i
        }),
{
    let once = spec_get_or_create(rows, key, row1);
    lemma_key_index_from(rows, key, 0);
    if has_key(rows, key) {
        let w = key_index(rows, key);
        assert(0 <= w < once.len() && once[w].key@ == key);
        assert(forall|j: int| 0 <= j < once.len() && once[j].key@ == key ==> j == w);
    } else {
        let w = rows.len() as int;
        assert(once == rows.push(row1));
        assert(once[w].key@ == key);
        assert(has_key(once, key));
        assert(forall|j: int| 0 <= j < w ==> once[j] == rows[j] && once[j].key@ != key);
        assert(forall|j: int| 0 <= j < once.len() && once[j].key@ == key ==> j == w);
    }
}

/// An identity, once handed out, never moves: however many rows an
/// append-only table gains afterwards, a key that was present keeps the
/// identity it resolved to, so any two get-or-create calls with an equal
/// key return the same identity whatever stood between them.
pub proof fn lemma_identity_stable(rows1: Seq<KeyedRow>, rows2: Seq<KeyedRow>, key: Seq<char>)
    requires
        rows1.len() <= rows2.len(),
        rows2.subrange(0, rows1.len() as int) == rows1,
        has_key(rows1, key),
    ensures
        key_index(rows2, key) == key_index(rows1, key),
        rows2[key_index(rows2, key)].key@ == key,
{
    lemma_key_index_from(rows1, key, 0);
    let w = key_index(rows1, key);
    assert(forall|k: int| 0 <= k < rows1.len() ==> rows2[k] == rows1[k]);
    lemma_key_index_is(rows2, key, w);
}

/// One association row: a service identity and a target identity.
#[derive(PartialEq, Eq, Structural)]
pub struct IdPair {
    pub service_id: usize,
    pub target_id: usize,
}

/// A plain association table, unique on its pairs.
pub struct PairTable {
    pub pairs: Vec<IdPair>,
}

pub open spec fn pairs_unique(pairs: Seq<IdPair>) -> bool {
    forall|i: int, j: int|
        0 <= i < pairs.len() && 0 <= j < pairs.len() && i != j ==> pairs[i] != pairs[j]
}

pub open spec fn has_pair(pairs: Seq<IdPair>, service_id: usize, target_id: usize) -> bool {
    exists|i: int|
        0 <= i < pairs.len() && pairs[i] == (IdPair { service_id, target_id })
}

impl PairTable {
    pub open spec fn wf(self) -> bool {
        pairs_unique(self.pairs@)
    }

    pub fn new() -> (t: PairTable)
        ensures
            t.wf(),
            t.pairs@.len() == 0,
    {
        PairTable { pairs: Vec::new() }
    }

    /// Insert the association unless it is already present: the table
    /// never holds a duplicate pair, so inserting a pair twice leaves
    /// exactly what inserting it once left.
    pub fn insert_pair(&mut self, service_id: usize, target_id: usize)
        requires
            old(self).wf(),
        ensures
            final(self).wf(),
            has_pair(old(self).pairs@, service_id, target_id) ==> *final(self) == *old(self),
            !has_pair(old(self).pairs@, service_id, target_id) ==> final(self).pairs@ == old(
                self,
            ).pairs@.push(IdPair { service_id, target_id }),
            has_pair(final(self).pairs@, service_id, target_id),
            forall|s: usize, t: usize|
                has_pair(old(self).pairs@, s, t) ==> has_pair(final(self).pairs@, s, t),
            forall|s: usize, t: usize|
                has_pair(final(self).pairs@, s, t) ==> has_pair(old(self).pairs@, s, t) || (s
                    == service_id && t == target_id),
    {
        let n = self.pairs.len();
        let mut i: usize = 0;
        while i < n
            invariant
                old(self).wf(),
                *self == *old(self),
                n == self.pairs@.len(),
                i <= n,
                forall|k: int|
                    0 <= k < i ==> self.pairs@[k] != (IdPair { service_id, target_id }),
            decreases n - i,
        {
            if self.pairs[i].service_id == service_id && self.pairs[i].target_id == target_id {
                assert(self.pairs@[i as int] == (IdPair { service_id, target_id }));
                assert(forall|s: usize, t: usize|
                    has_pair(self.pairs@, s, t) ==> has_pair(self.pairs@, s, t));
                return ;
            }
            i = i + 1;
        }
        let ghost p0 = self.pairs@;
        self.pairs.push(IdPair { service_id, target_id });
        proof {
            assert(!has_pair(p0, service_id, target_id));
            assert(self.pairs@[p0.len() as int] == (IdPair { service_id, target_id }));
            assert forall|s: usize, t: usize|
                has_pair(p0, s, t) implies has_pair(self.pairs@, s, t) by {
                let w = choose|w: int| 0 <= w < p0.len() && p0[w] == (IdPair {
                    service_id: s,
                    target_id: t,
                });
                assert(self.pairs@[w] == p0[w]);
            }
        }
    }
}

/// One service/entitlement association, carrying the canonical string
/// rendering of the granted value.
pub struct EntLink {
    pub service_id: usize,
    pub entitlement_id: usize,
    pub value: String,
}

/// The service/entitlement association table, unique on the pair of
/// identities; the value stored with the first insertion stays.
pub struct EntLinkTable {
    pub links: Vec<EntLink>,
}

pub open spec fn ent_links_unique(links: Seq<EntLink>) -> bool {
    forall|i: int, j: int|
        0 <= i < links.len() && 0 <= j < links.len() && i != j ==> !(links[i].service_id
            == links[j].service_id && links[i].entitlement_id == links[j].entitlement_id)
}

pub open spec fn has_ent_link(links: Seq<EntLink>, service_id: usize, entitlement_id: usize) -> bool {
    exists|i: int|
        0 <= i < links.len() && links[i].service_id == service_id && links[i].entitlement_id
            == entitlement_id
}

/// The value recorded for a service/entitlement pair: that of the first
/// (and under well-formedness only) link with those identities.
pub open spec fn ent_link_value(
    links: Seq<EntLink>,
    service_id: usize,
    entitlement_id: usize,
) -> Seq<char> {
    links[choose|i: int|
        0 <= i < links.len() && links[i].service_id == service_id && links[i].entitlement_id
            == entitlement_id].value@
}

impl EntLinkTable {
    pub open spec fn wf(self) -> bool {
        ent_links_unique(self.links@)
    }

    pub fn new() -> (t: EntLinkTable)
        ensures
            t.wf(),
            t.links@.len() == 0,
    {
        EntLinkTable { links: Vec::new() }
    }

    /// Insert the association with its value unless the pair is already
    /// present; a present pair keeps the value it was first given.
    pub fn insert_link(&mut self, service_id: usize, entitlement_id: usize, value: String)
        requires
            old(self).wf(),
        ensures
            final(self).wf(),
            has_ent_link(old(self).links@, service_id, entitlement_id) ==> *final(self) == *old(
                self,
            ),
            !has_ent_link(old(self).links@, service_id, entitlement_id) ==> {
                &&& final(self).links@.len() == old(self).links@.len() + 1
                &&& final(self).links@.subrange(0, old(self).links@.len() as int) == old(
                    self,
                ).links@
                &&& final(self).links@.last().service_id == service_id
                &&& final(self).links@.last().entitlement_id == entitlement_id
                &&& final(self).links@.last().value == value
            },
            has_ent_link(final(self).links@, service_id, entitlement_id),
            forall|s: usize, e: usize|
                has_ent_link(old(self).links@, s, e) ==> has_ent_link(final(self).links@, s, e),
            forall|s: usize, e: usize|
                has_ent_link(final(self).links@, s, e) ==> has_ent_link(old(self).links@, s, e)
                    || (s == service_id && e == entitlement_id),
    {
        let n = self.links.len();
        let mut i: usize = 0;
        while i < n
            invariant
                old(self).wf(),
                *self == *old(self),
                n == self.links@.len(),
                i <= n,
                forall|k: int|
                    0 <= k < i ==> !(self.links@[k].service_id == service_id
                        && self.links@[k].entitlement_id == entitlement_id),
            decreases n - i,
        {
            if self.links[i].service_id == service_id && self.links[i].entitlement_id
                == entitlement_id {
                return ;
            }
            i = i + 1;
        }
        let ghost l0 = self.links@;
        self.links.push(EntLink { service_id, entitlement_id, value });
        proof {
            assert(self.links@.subrange(0, l0.len() as int) =~= l0);
            assert(self.links@.last().service_id == service_id);
            assert forall|s: usize, e: usize|
                has_ent_link(l0, s, e) implies has_ent_link(self.links@, s, e) by {
                let w = choose|w: int|
                    0 <= w < l0.len() && l0[w].service_id == s && l0[w].entitlement_id == e;
                assert(self.links@[w] == l0[w]);
            }
        }
    }
}

/// One declared inter-process endpoint: its name and value, attached to a
/// service.
pub struct EndpointRow {
    pub service_id: usize,
    pub name: String,
    pub value: String,
}

/// The endpoint table, unique on (service, name).
pub struct EndpointTable {
    pub rows: Vec<EndpointRow>,
}

pub open spec fn endpoints_unique(rows: Seq<EndpointRow>) -> bool {
    forall|i: int, j: int|
        0 <= i < rows.len() && 0 <= j < rows.len() && i != j ==> !(rows[i].service_id
            == rows[j].service_id && rows[i].name@ == rows[j].name@)
}

pub open spec fn has_endpoint(rows: Seq<EndpointRow>, service_id: usize, name: Seq<char>) -> bool {
    exists|i: int|
        0 <= i < rows.len() && rows[i].service_id == service_id && rows[i].name@ == name
}

impl EndpointTable {
    pub open spec fn wf(self) -> bool {
        endpoints_unique(self.rows@)
    }

    pub fn new() -> (t: EndpointTable)
        ensures
            t.wf(),
            t.rows@.len() == 0,
    {
        EndpointTable { rows: Vec::new() }
    }

    /// Insert the endpoint unless the service already declares one of
    /// that name.
    pub fn insert_endpoint(&mut self, service_id: usize, name: String, value: String)
        requires
            old(self).wf(),
        ensures
            final(self).wf(),
            has_endpoint(old(self).rows@, service_id, name@) ==> *final(self) == *old(self),
            !has_endpoint(old(self).rows@, service_id, name@) ==> {
                &&& final(self).rows@.len() == old(self).rows@.len() + 1
                &&& final(self).rows@.subrange(0, old(self).rows@.len() as int) == old(self).rows@
                &&& final(self).rows@.last().service_id == service_id
                &&& final(self).rows@.last().name == name
                &&& final(self).rows@.last().value == value
            },
            has_endpoint(final(self).rows@, service_id, name@),
            forall|s: usize, m: Seq<char>|
                has_endpoint(old(self).rows@, s, m) ==> has_endpoint(final(self).rows@, s, m),
            forall|s: usize, m: Seq<char>|
                has_endpoint(final(self).rows@, s, m) ==> has_endpoint(old(self).rows@, s, m) || (
                s == service_id && m == name@),
    {
        let name_chars = crate::text::str_chars(name.as_str());
        let n = self.rows.len();
        let mut i: usize = 0;
        while i < n
            invariant
                old(self).wf(),
                *self == *old(self),
                n == self.rows@.len(),
                i <= n,
                name_chars@ == name@,
                forall|k: int|
                    0 <= k < i ==> !(self.rows@[k].service_id == service_id && self.rows@[k].name@
                        == name@),
            decreases n - i,
        {
            if self.rows[i].service_id == service_id {
                let row_chars = crate::text::str_chars(self.rows[i].name.as_str());
                if crate::text::chars_eq(&row_chars, &name_chars) {
                    return ;
                }
            }
            i = i + 1;
        }
        let ghost r0 = self.rows@;
        self.rows.push(EndpointRow { service_id, name, value });
        proof {
            assert(self.rows@.subrange(0, r0.len() as int) =~= r0);
            assert(self.rows@.last().service_id == service_id);
        }
    }
}

/// The whole store: the four entity tables, the three association tables,
/// and the endpoint table.
pub struct Store {
    pub services: KeyedTable,
    pub entitlements: KeyedTable,
    pub libraries: KeyedTable,
    pub symbols: KeyedTable,
    pub service_entitlements: EntLinkTable,
    pub service_libraries: PairTable,
    pub service_symbols: PairTable,
    pub mach_endpoints: EndpointTable,
}

impl Store {
    /// Every table is well formed and every association points at rows
    /// that exist.
    pub open spec fn wf(self) -> bool {
        &&& self.services.wf()
        &&& self.entitlements.wf()
        &&& self.libraries.wf()
        &&& self.symbols.wf()
        &&& self.service_entitlements.wf()
        &&& self.service_libraries.wf()
        &&& self.service_symbols.wf()
        &&& self.mach_endpoints.wf()
        &&& forall|i: int|
            0 <= i < self.service_entitlements.links@.len() ==> (
            #[trigger] self.service_entitlements.links@[i]).service_id
                < self.services.rows@.len() && self.service_entitlements.links@[i].entitlement_id
                < self.entitlements.rows@.len()
        &&& forall|i: int|
            0 <= i < self.service_libraries.pairs@.len() ==> (
            #[trigger] self.service_libraries.pairs@[i]).service_id < self.services.rows@.len()
                && self.service_libraries.pairs@[i].target_id < self.libraries.rows@.len()
        &&& forall|i: int|
            0 <= i < self.service_symbols.pairs@.len() ==> (
            #[trigger] self.service_symbols.pairs@[i]).service_id < self.services.rows@.len()
                && self.service_symbols.pairs@[i].target_id < self.symbols.rows@.len()
        &&& forall|i: int|
            0 <= i < self.mach_endpoints.rows@.len() ==> (
            #[trigger] self.mach_endpoints.rows@[i]).service_id < self.services.rows@.len()
    }

    /// An empty store.
    pub fn new() -> (s: Store)
        ensures
            s.wf(),
            s.services.rows@.len() == 0,
            s.entitlements.rows@.len() == 0,
            s.libraries.rows@.len() == 0,
            s.symbols.rows@.len() == 0,
            s.service_entitlements.links@.len() == 0,
            s.service_libraries.pairs@.len() == 0,
            s.service_symbols.pairs@.len() == 0,
            s.mach_endpoints.rows@.len() == 0,
    {
        Store {
            services: KeyedTable::new(),
            entitlements: KeyedTable::new(),
            libraries: KeyedTable::new(),
            symbols: KeyedTable::new(),
            service_entitlements: EntLinkTable::new(),
            service_libraries: PairTable::new(),
            service_symbols: PairTable::new(),
            mach_endpoints: EndpointTable::new(),
        }
    }
}

} // verus!
