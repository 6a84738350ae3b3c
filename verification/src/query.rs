//! The read-only query facade over a populated store.
//!
//! Every listing operation returns `(label, path)` pairs, ordered by label
//! and free of duplicates, for exactly the services its filter matches.
//! Textual filters match case-insensitively by substring through the
//! percent/underscore grammar; symbol and label filters go through the
//! asterisk/question-mark grammar. An empty result is an ordinary empty
//! list, never an error.

use vstd::prelude::*;

use crate::pattern::bracket_pattern;
use crate::pattern::glob_matches;
use crate::pattern::like_matches;
use crate::store::Store;
use crate::text::lex_le;
use crate::text::lower;

verus! {

/// One listing entry: a service's label and path.
pub struct QueryHit {
    pub label: String,
    pub path: String,
}

/// The path column of a service row; empty when the row has no columns.
pub open spec fn spec_row_path(row: crate::store::KeyedRow) -> Seq<char> {
    if row.cols.deep_view().len() > 0 {
        row.cols.deep_view()[0]
    } else {
        Seq::empty()
    }
}

/// A copy of the path column of a service row.
fn row_path(row: &crate::store::KeyedRow) -> (p: String)
    ensures
        p@ == spec_row_path(*row),
{
    if row.cols.len() > 0 {
        row.cols[0].clone()
    } else {
        crate::text::chars_to_string(&Vec::new())
    }
}

/// A filter of the query facade, as the contracts state it: each variant
/// carries the full, already case-folded pattern its grammar matches.
pub enum QuerySelector {
    LabelGlob(Seq<char>),
    EntitlementLike(Seq<char>),
    SymbolGlob(Seq<char>),
    LibraryLike(Seq<char>),
    EntitlementAndSymbol(Seq<char>, Seq<char>),
}

/// Some link ties service `sid` to an entitlement whose name the folded
/// pattern matches.
pub open spec fn spec_ent_matches(s: Store, sid: int, pat: Seq<char>) -> bool {
    exists|j: int|
        0 <= j < s.service_entitlements.links@.len() && (
        #[trigger] s.service_entitlements.links@[j]).service_id as int == sid && like_matches(
            pat,
            lower(s.entitlements.rows@[s.service_entitlements.links@[j].entitlement_id as int].key@),
        )
}

/// Some pair ties service `sid` to a symbol whose name the pattern
/// matches.
pub open spec fn spec_sym_matches(s: Store, sid: int, pat: Seq<char>) -> bool {
    exists|j: int|
        0 <= j < s.service_symbols.pairs@.len() && (
        #[trigger] s.service_symbols.pairs@[j]).service_id as int == sid && glob_matches(
            pat,
            s.symbols.rows@[s.service_symbols.pairs@[j].target_id as int].key@,
        )
}

/// Some pair ties service `sid` to a library whose name the folded
/// pattern matches. A library's name is its row's one column.
pub open spec fn spec_lib_matches(s: Store, sid: int, pat: Seq<char>) -> bool {
    exists|j: int|
        0 <= j < s.service_libraries.pairs@.len() && (
        #[trigger] s.service_libraries.pairs@[j]).service_id as int == sid && like_matches(
            pat,
            lower(lib_name(s.libraries.rows@[s.service_libraries.pairs@[j].target_id as int])),
        )
}

/// The name column of a library row; empty when the row has no columns.
pub open spec fn lib_name(row: crate::store::KeyedRow) -> Seq<char> {
    if row.cols.deep_view().len() > 0 {
        row.cols.deep_view()[0]
    } else {
        Seq::empty()
    }
}

/// Whether the service at `sid` satisfies the selector. The label
/// pattern matches case-insensitively: it is applied to the folded label
/// and is itself already folded.
pub open spec fn sid_matches(s: Store, sid: int, q: QuerySelector) -> bool {
    match q {
        QuerySelector::LabelGlob(p) => glob_matches(p, lower(s.services.rows@[sid].key@)),
        QuerySelector::EntitlementLike(p) => spec_ent_matches(s, sid, p),
        QuerySelector::SymbolGlob(p) => spec_sym_matches(s, sid, p),
        QuerySelector::LibraryLike(p) => spec_lib_matches(s, sid, p),
        QuerySelector::EntitlementAndSymbol(pe, ps) => spec_ent_matches(s, sid, pe)
            && spec_sym_matches(s, sid, ps),
    }
}

/// `h` lists a service below `bound` that the selector matches.
pub open spec fn query_hit(s: Store, h: QueryHit, q: QuerySelector, bound: int) -> bool {
    exists|sid: int|
        0 <= sid < bound && sid < s.services.rows@.len() && (#[trigger] s.services.rows@[sid]).key@
            == h.label@ && h.path@ == spec_row_path(s.services.rows@[sid]) && sid_matches(s, sid, q)
}

/// Some entry of `hits` carries the label `l`.
pub open spec fn label_in_hits(hits: Seq<QueryHit>, l: Seq<char>) -> bool {
    exists|i: int| 0 <= i < hits.len() && (#[trigger] hits[i]).label@ == l
}

/// Every matching service below `bound` is listed.
pub open spec fn query_complete(s: Store, hits: Seq<QueryHit>, q: QuerySelector, bound: int) -> bool {
    forall|sid: int|
        0 <= sid < bound && sid < s.services.rows@.len() && sid_matches(s, sid, q)
            ==> label_in_hits(hits, (#[trigger] s.services.rows@[sid]).key@)
}

/// The listing is ordered by label.
pub open spec fn hits_sorted(hits: Seq<QueryHit>) -> bool {
    forall|i: int, j: int|
        0 <= i < j < hits.len() ==> lex_le((#[trigger] hits[i]).label@, (#[trigger] hits[j]).label@)
}

/// No label is listed twice.
pub open spec fn hits_distinct(hits: Seq<QueryHit>) -> bool {
    forall|i: int, j: int|
        0 <= i < hits.len() && 0 <= j < hits.len() && i != j ==> (#[trigger] hits[i]).label@ != (
        #[trigger] hits[j]).label@
}

/// What every listing operation returns: an ordered, duplicate-free list
/// of the labels and paths of exactly the services the selector matches.
pub open spec fn query_result(s: Store, hits: Seq<QueryHit>, q: QuerySelector) -> bool {
    &&& hits_sorted(hits)
    &&& hits_distinct(hits)
    &&& forall|i: int| 0 <= i < hits.len() ==> query_hit(s, #[trigger] hits[i], q, s.services.rows@.len() as int)
    &&& query_complete(s, hits, q, s.services.rows@.len() as int)
}

/// Whether some link ties `sid` to an entitlement matching the folded
/// pattern.
fn ent_matches_exec(store: &Store, sid: usize, pat: &Vec<char>) -> (b: bool)
    requires
        store.wf(),
    ensures
        b == spec_ent_matches(*store, sid as int, pat@),
{
    let n = store.service_entitlements.links.len();
    let mut j: usize = 0;
    while j < n
        invariant
            store.wf(),
            n == store.service_entitlements.links@.len(),
            j <= n,
            forall|k: int|
                0 <= k < j ==> !((#[trigger] store.service_entitlements.links@[k]).service_id as int
                    == sid as int && like_matches(
                    pat@,
                    lower(
                        store.entitlements.rows@[store.service_entitlements.links@[k].entitlement_id as int].key@,
                    ),
                )),
        decreases n - j,
    {
        if store.service_entitlements.links[j].service_id == sid {
            let eid = store.service_entitlements.links[j].entitlement_id;
            let name_chars = crate::text::str_chars(store.entitlements.rows[eid].key.as_str());
            let folded = crate::text::lower_chars(&name_chars);
            if crate::pattern::like_matches_exec(pat, &folded) {
                return true;
            }
        }
        j = j + 1;
    }
    false
}

/// Whether some pair ties `sid` to a symbol matching the pattern.
fn sym_matches_exec(store: &Store, sid: usize, pat: &Vec<char>) -> (b: bool)
    requires
        store.wf(),
    ensures
        b == spec_sym_matches(*store, sid as int, pat@),
{
    let n = store.service_symbols.pairs.len();
    let mut j: usize = 0;
    while j < n
        invariant
            store.wf(),
            n == store.service_symbols.pairs@.len(),
            j <= n,
            forall|k: int|
                0 <= k < j ==> !((#[trigger] store.service_symbols.pairs@[k]).service_id as int
                    == sid as int && glob_matches(
                    pat@,
                    store.symbols.rows@[store.service_symbols.pairs@[k].target_id as int].key@,
                )),
        decreases n - j,
    {
        if store.service_symbols.pairs[j].service_id == sid {
            let tid = store.service_symbols.pairs[j].target_id;
            let name_chars = crate::text::str_chars(store.symbols.rows[tid].key.as_str());
            if crate::pattern::glob_matches_exec(pat, &name_chars) {
                return true;
            }
        }
        j = j + 1;
    }
    false
}

/// Whether some pair ties `sid` to a library whose name matches the
/// folded pattern.
fn lib_matches_exec(store: &Store, sid: usize, pat: &Vec<char>) -> (b: bool)
    requires
        store.wf(),
    ensures
        b == spec_lib_matches(*store, sid as int, pat@),
{
    let n = store.service_libraries.pairs.len();
    let mut j: usize = 0;
    while j < n
        invariant
            store.wf(),
            n == store.service_libraries.pairs@.len(),
            j <= n,
            forall|k: int|
                0 <= k < j ==> !((#[trigger] store.service_libraries.pairs@[k]).service_id as int
                    == sid as int && like_matches(
                    pat@,
                    lower(
                        lib_name(
                            store.libraries.rows@[store.service_libraries.pairs@[k].target_id as int],
                        ),
                    ),
                )),
        decreases n - j,
    {
        if store.service_libraries.pairs[j].service_id == sid {
            let tid = store.service_libraries.pairs[j].target_id;
            let row = &store.libraries.rows[tid];
            let name = if row.cols.len() > 0 {
                crate::text::str_chars(row.cols[0].as_str())
            } else {
                Vec::new()
            };
            assert(name@ == lib_name(store.libraries.rows@[tid as int]));
            let folded = crate::text::lower_chars(&name);
            if crate::pattern::like_matches_exec(pat, &folded) {
                return true;
            }
        }
        j = j + 1;
    }
    false
}

/// Insert `hit` into an ordered listing at its place.
fn insert_sorted(r: &mut Vec<QueryHit>, hit: QueryHit)
    requires
        hits_sorted(old(r)@),
    ensures
        hits_sorted(final(r)@),
        exists|p: int| 0 <= p <= old(r)@.len() && final(r)@ == old(r)@.insert(p, hit),
{
    let hit_chars = crate::text::str_chars(hit.label.as_str());
    let n = r.len();
    let mut p: usize = 0;
    loop
        invariant_except_break
            hits_sorted(r@),
            *r == *old(r),
            n == r@.len(),
            p <= n,
            hit_chars@ == hit.label@,
            forall|k: int| 0 <= k < p ==> lex_le((#[trigger] r@[k]).label@, hit.label@),
        ensures
            hits_sorted(r@),
            *r == *old(r),
            n == r@.len(),
            p <= n,
            forall|k: int| 0 <= k < p ==> lex_le((#[trigger] r@[k]).label@, hit.label@),
            p < n ==> !lex_le(r@[p as int].label@, hit.label@),
        decreases n - p,
    {
        if p == n {
            break ;
        }
        let row_chars = crate::text::str_chars(r[p].label.as_str());
        if !crate::text::lex_le_exec(&row_chars, &hit_chars) {
            break ;
        }
        p = p + 1;
    }
    let ghost r0 = r@;
    let ghost pp = p as int;
    r.insert(p, hit);
    proof {
        assert(r@ == r0.insert(pp, hit));
        assert forall|i: int, j: int| 0 <= i < j < r@.len() implies lex_le(
            (#[trigger] r@[i]).label@,
            (#[trigger] r@[j]).label@,
        ) by {
            if i == pp || j == pp {
                if j == pp && i < pp {
                    assert(r@[i] == r0[i]);
                } else if i == pp && j > pp {
                    assert(r@[j] == r0[j - 1]);
                    assert(pp <= j - 1 < r0.len());
                    crate::text::lemma_lex_le_total(hit.label@, r0[j - 1].label@);
                    if j - 1 > pp {
                        crate::text::lemma_lex_le_total(hit.label@, r0[pp].label@);
                        crate::text::lemma_lex_le_trans(hit.label@, r0[pp].label@, r0[j - 1].label@);
                    } else {
                        crate::text::lemma_lex_le_total(hit.label@, r0[pp].label@);
                    }
                }
            } else if i < pp && j > pp {
                assert(r@[i] == r0[i]);
                assert(r@[j] == r0[j - 1]);
            } else if i > pp && j > pp {
                assert(r@[i] == r0[i - 1]);
                assert(r@[j] == r0[j - 1]);
            } else {
                assert(r@[i] == r0[i]);
                assert(r@[j] == r0[j]);
            }
        }
    }
}

/// One step of a listing loop: adding the hit of a matching service at
/// `sid` to a listing of the services below `sid` leaves a listing of the
/// services below `sid + 1`, still free of duplicate labels.
proof fn lemma_listing_insert(
    s: Store,
    hits0: Seq<QueryHit>,
    hits1: Seq<QueryHit>,
    p: int,
    h: QueryHit,
    q: QuerySelector,
    sid: int,
)
    requires
        s.wf(),
        0 <= sid < s.services.rows@.len(),
        0 <= p <= hits0.len(),
        hits1 == hits0.insert(p, h),
        hits_distinct(hits0),
        forall|i: int| 0 <= i < hits0.len() ==> query_hit(s, #[trigger] hits0[i], q, sid),
        query_complete(s, hits0, q, sid),
        h.label@ == s.services.rows@[sid].key@,
        h.path@ == spec_row_path(s.services.rows@[sid]),
        sid_matches(s, sid, q),
    ensures
        hits_distinct(hits1),
        forall|i: int| 0 <= i < hits1.len() ==> query_hit(s, #[trigger] hits1[i], q, sid + 1),
        query_complete(s, hits1, q, sid + 1),
{
    assert forall|i: int| 0 <= i < hits1.len() implies query_hit(
        s,
        #[trigger] hits1[i],
        q,
        sid + 1,
    ) by {
        if i < p {
            assert(hits1[i] == hits0[i]);
        } else if i == p {
            assert(hits1[i] == h);
        } else {
            assert(hits1[i] == hits0[i - 1]);
        }
    }
    assert forall|i: int, j: int|
        0 <= i < hits1.len() && 0 <= j < hits1.len() && i != j implies (
    #[trigger] hits1[i]).label@ != (#[trigger] hits1[j]).label@ by {
        let oi: int = if i < p {
            i
        } else {
            i - 1
        };
        let oj: int = if j < p {
            j
        } else {
            j - 1
        };
        if i == p {
            assert(hits1[j] == hits0[oj]);
            let w = choose|w: int|
                0 <= w < sid && w < s.services.rows@.len() && (
                #[trigger] s.services.rows@[w]).key@ == hits0[oj].label@ && hits0[oj].path@
                    == spec_row_path(s.services.rows@[w]) && sid_matches(s, w, q);
            assert(s.services.rows@[w].key@ != s.services.rows@[sid].key@);
        } else if j == p {
            assert(hits1[i] == hits0[oi]);
            let w = choose|w: int|
                0 <= w < sid && w < s.services.rows@.len() && (
                #[trigger] s.services.rows@[w]).key@ == hits0[oi].label@ && hits0[oi].path@
                    == spec_row_path(s.services.rows@[w]) && sid_matches(s, w, q);
            assert(s.services.rows@[w].key@ != s.services.rows@[sid].key@);
        } else {
            assert(hits1[i] == hits0[oi]);
            assert(hits1[j] == hits0[oj]);
        }
    }
    assert forall|w: int|
        0 <= w < sid + 1 && w < s.services.rows@.len() && sid_matches(s, w, q) implies label_in_hits(
        hits1,
        (#[trigger] s.services.rows@[w]).key@,
    ) by {
        if w < sid {
            let i = choose|i: int|
                0 <= i < hits0.len() && (#[trigger] hits0[i]).label@ == s.services.rows@[w].key@;
            if i < p {
                assert(hits1[i] == hits0[i]);
            } else {
                assert(hits1[i + 1] == hits0[i]);
            }
        } else {
            assert(hits1[p] == h);
        }
    }
}

/// A filter with its pattern in executable form; its view is the
/// [`QuerySelector`] the contracts speak of.
enum ExecSelector {
    LabelGlob(Vec<char>),
    EntitlementLike(Vec<char>),
    SymbolGlob(Vec<char>),
    LibraryLike(Vec<char>),
    EntitlementAndSymbol(Vec<char>, Vec<char>),
}

spec fn sel_view(e: ExecSelector) -> QuerySelector {
    match e {
        ExecSelector::LabelGlob(p) => QuerySelector::LabelGlob(p@),
        ExecSelector::EntitlementLike(p) => QuerySelector::EntitlementLike(p@),
        ExecSelector::SymbolGlob(p) => QuerySelector::SymbolGlob(p@),
        ExecSelector::LibraryLike(p) => QuerySelector::LibraryLike(p@),
        ExecSelector::EntitlementAndSymbol(pe, ps) => QuerySelector::EntitlementAndSymbol(pe@, ps@),
    }
}

/// Whether the service at `sid` satisfies the selector.
fn matches_exec(store: &Store, sid: usize, sel: &ExecSelector) -> (b: bool)
    requires
        store.wf(),
        sid < store.services.rows@.len(),
    ensures
        b == sid_matches(*store, sid as int, sel_view(*sel)),
{
    match sel {
        ExecSelector::LabelGlob(p) => {
            let label_chars = crate::text::str_chars(store.services.rows[sid].key.as_str());
            let folded = crate::text::lower_chars(&label_chars);
            crate::pattern::glob_matches_exec(p, &folded)
        },
        ExecSelector::EntitlementLike(p) => ent_matches_exec(store, sid, p),
        ExecSelector::SymbolGlob(p) => sym_matches_exec(store, sid, p),
        ExecSelector::LibraryLike(p) => lib_matches_exec(store, sid, p),
        ExecSelector::EntitlementAndSymbol(pe, ps) => {
            let e = ent_matches_exec(store, sid, pe);
            if e {
                sym_matches_exec(store, sid, ps)
            } else {
                false
            }
        },
    }
}

/// Walk the service table in identity order and gather the ordered,
/// duplicate-free listing of the services the selector matches.
fn collect_hits(store: &Store, sel: &ExecSelector) -> (r: Vec<QueryHit>)
    requires
        store.wf(),
    ensures
        query_result(*store, r@, sel_view(*sel)),
{
    let ghost q = sel_view(*sel);
    let n = store.services.rows.len();
    let mut r: Vec<QueryHit> = Vec::new();
    let mut sid: usize = 0;
    while sid < n
        invariant
            store.wf(),
            q == sel_view(*sel),
            n == store.services.rows@.len(),
            sid <= n,
            hits_sorted(r@),
            hits_distinct(r@),
            forall|i: int| 0 <= i < r@.len() ==> query_hit(*store, #[trigger] r@[i], q, sid as int),
            query_complete(*store, r@, q, sid as int),
        decreases n - sid,
    {
        if matches_exec(store, sid, sel) {
            let hit = QueryHit {
                label: store.services.rows[sid].key.clone(),
                path: row_path(&store.services.rows[sid]),
            };
            let ghost r0 = r@;
            let ghost h = hit;
            insert_sorted(&mut r, hit);
            proof {
                let p = choose|p: int| 0 <= p <= r0.len() && r@ == r0.insert(p, h);
                lemma_listing_insert(*store, r0, r@, p, h, q, sid as int);
            }
        }
        sid = sid + 1;
    }
    r
}

/// List the services whose label the asterisk/question-mark pattern
/// `*label_pattern*` matches, case-insensitively, ordered by label. No
/// match is an empty list, not an error.
pub fn get_services_by_label_pattern(store: &Store, label_pattern: &str) -> (r: Vec<QueryHit>)
    requires
        store.wf(),
    ensures
        query_result(
            *store,
            r@,
            QuerySelector::LabelGlob(lower(bracket_pattern(label_pattern@, '*'))),
        ),
{
    let chars = crate::text::str_chars(label_pattern);
    let pat = crate::pattern::bracket_pattern_exec(&chars, '*');
    let sel = ExecSelector::LabelGlob(crate::text::lower_chars(&pat));
    collect_hits(store, &sel)
}

/// List the services holding an entitlement whose name contains
/// `entitlement`, case-insensitively, ordered by label.
pub fn get_services_by_entitlement(store: &Store, entitlement: &str) -> (r: Vec<QueryHit>)
    requires
        store.wf(),
    ensures
        query_result(
            *store,
            r@,
            QuerySelector::EntitlementLike(lower(bracket_pattern(entitlement@, '%'))),
        ),
{
    let chars = crate::text::str_chars(entitlement);
    let pat = crate::pattern::bracket_pattern_exec(&chars, '%');
    let sel = ExecSelector::EntitlementLike(crate::text::lower_chars(&pat));
    collect_hits(store, &sel)
}

/// List the services importing a symbol the asterisk/question-mark
/// pattern `*symbol*` matches, ordered by label.
pub fn get_services_by_symbol(store: &Store, symbol: &str) -> (r: Vec<QueryHit>)
    requires
        store.wf(),
    ensures
        query_result(*store, r@, QuerySelector::SymbolGlob(bracket_pattern(symbol@, '*'))),
{
    let chars = crate::text::str_chars(symbol);
    let sel = ExecSelector::SymbolGlob(crate::pattern::bracket_pattern_exec(&chars, '*'));
    collect_hits(store, &sel)
}

/// List the services linking a library whose name contains `library`,
/// case-insensitively, ordered by label.
pub fn get_services_by_library(store: &Store, library: &str) -> (r: Vec<QueryHit>)
    requires
        store.wf(),
    ensures
        query_result(*store, r@, QuerySelector::LibraryLike(lower(bracket_pattern(library@, '%')))),
{
    let chars = crate::text::str_chars(library);
    let pat = crate::pattern::bracket_pattern_exec(&chars, '%');
    let sel = ExecSelector::LibraryLike(crate::text::lower_chars(&pat));
    collect_hits(store, &sel)
}

/// List the services that both hold a matching entitlement and import a
/// matching symbol, ordered by label.
pub fn get_services_by_entitlement_and_symbol(store: &Store, entitlement: &str, symbol: &str) -> (r:
    Vec<QueryHit>)
    requires
        store.wf(),
    ensures
        query_result(
            *store,
            r@,
            QuerySelector::EntitlementAndSymbol(
                lower(bracket_pattern(entitlement@, '%')),
                bracket_pattern(symbol@, '*'),
            ),
        ),
{
    let echars = crate::text::str_chars(entitlement);
    let epat = crate::pattern::bracket_pattern_exec(&echars, '%');
    let schars = crate::text::str_chars(symbol);
    let sel = ExecSelector::EntitlementAndSymbol(
        crate::text::lower_chars(&epat),
        crate::pattern::bracket_pattern_exec(&schars, '*'),
    );
    collect_hits(store, &sel)
}

/// The labels of the services a selector matches.
pub open spec fn matching_labels(s: Store, q: QuerySelector) -> Set<Seq<char>> {
    Set::new(
        |l: Seq<char>|
            exists|sid: int|
                0 <= sid < s.services.rows@.len() && (#[trigger] s.services.rows@[sid]).key@ == l
                    && sid_matches(s, sid, q),
    )
}

/// A listing carries exactly the matching labels: a label stands in the
/// listing if and only if the selector matches the service so labelled.
pub proof fn lemma_query_result_labels(s: Store, hits: Seq<QueryHit>, q: QuerySelector)
    requires
        query_result(s, hits, q),
    ensures
        forall|l: Seq<char>| label_in_hits(hits, l) <==> matching_labels(s, q).contains(l),
{
    assert forall|l: Seq<char>| label_in_hits(hits, l) implies matching_labels(s, q).contains(
        l,
    ) by {
        let i = choose|i: int| 0 <= i < hits.len() && (#[trigger] hits[i]).label@ == l;
        assert(query_hit(s, hits[i], q, s.services.rows@.len() as int));
    }
}

/// The intersection law: the services matched by an entitlement filter
/// and a symbol filter together are, by label, exactly those matched by
/// the entitlement filter and also by the symbol filter.
pub proof fn lemma_entitlement_symbol_intersection(s: Store, pe: Seq<char>, ps: Seq<char>)
    requires
        s.wf(),
    ensures
        matching_labels(s, QuerySelector::EntitlementAndSymbol(pe, ps)) == matching_labels(
            s,
            QuerySelector::EntitlementLike(pe),
        ).intersect(matching_labels(s, QuerySelector::SymbolGlob(ps))),
{
    let both = matching_labels(s, QuerySelector::EntitlementAndSymbol(pe, ps));
    let ents = matching_labels(s, QuerySelector::EntitlementLike(pe));
    let syms = matching_labels(s, QuerySelector::SymbolGlob(ps));
    assert forall|l: Seq<char>| ents.intersect(syms).contains(l) implies both.contains(l) by {
        let sid1 = choose|sid: int|
            0 <= sid < s.services.rows@.len() && (#[trigger] s.services.rows@[sid]).key@ == l
                && sid_matches(s, sid, QuerySelector::EntitlementLike(pe));
        let sid2 = choose|sid: int|
            0 <= sid < s.services.rows@.len() && (#[trigger] s.services.rows@[sid]).key@ == l
                && sid_matches(s, sid, QuerySelector::SymbolGlob(ps));
        assert(sid1 == sid2);
        assert(sid_matches(s, sid1, QuerySelector::EntitlementAndSymbol(pe, ps)));
    }
    assert forall|l: Seq<char>| both.contains(l) implies ents.intersect(syms).contains(l) by {
        let sid = choose|sid: int|
            0 <= sid < s.services.rows@.len() && (#[trigger] s.services.rows@[sid]).key@ == l
                && sid_matches(s, sid, QuerySelector::EntitlementAndSymbol(pe, ps));
        assert(sid_matches(s, sid, QuerySelector::EntitlementLike(pe)));
        assert(sid_matches(s, sid, QuerySelector::SymbolGlob(ps)));
    }
    assert(both =~= ents.intersect(syms));
}

/// Case-insensitive equality of two labels, as the exact-label reads
/// match them.
pub open spec fn ci_eq(a: Seq<char>, b: Seq<char>) -> bool {
    lower(a) == lower(b)
}

fn ci_eq_exec(a: &Vec<char>, b_folded: &Vec<char>) -> (r: bool)
    ensures
        r == (lower(a@) == b_folded@),
{
    let fa = crate::text::lower_chars(a);
    crate::text::chars_eq(&fa, b_folded)
}

/// Some service row's label matches `l` case-insensitively.
pub open spec fn has_ci_label(rows: Seq<crate::store::KeyedRow>, l: Seq<char>) -> bool {
    exists|i: int| 0 <= i < rows.len() && ci_eq((#[trigger] rows[i]).key@, l)
}

/// The first service row whose label matches `l` case-insensitively, or
/// `rows.len()` when none does.
pub open spec fn ci_label_index(rows: Seq<crate::store::KeyedRow>, l: Seq<char>) -> int {
    ci_label_index_from(rows, l, 0)
}

pub open spec fn ci_label_index_from(
    rows: Seq<crate::store::KeyedRow>,
    l: Seq<char>,
    i: int,
) -> int
    decreases rows.len() - i,
{
    if i < 0 || i >= rows.len() {
        rows.len() as int
    } else if ci_eq(rows[i].key@, l) {
        i
    } else {
        ci_label_index_from(rows, l, i + 1)
    }
}

proof fn lemma_ci_label_index_is(rows: Seq<crate::store::KeyedRow>, l: Seq<char>, j: int)
    requires
        0 <= j <= rows.len(),
        forall|k: int| 0 <= k < j ==> !ci_eq((#[trigger] rows[k]).key@, l),
        j < rows.len() ==> ci_eq(rows[j].key@, l),
    ensures
        ci_label_index(rows, l) == j,
        j < rows.len() ==> has_ci_label(rows, l),
        j == rows.len() ==> !has_ci_label(rows, l),
{
    lemma_ci_label_index_from_is(rows, l, 0, j);
}

proof fn lemma_ci_label_index_from_is(
    rows: Seq<crate::store::KeyedRow>,
    l: Seq<char>,
    i: int,
    j: int,
)
    requires
        0 <= i <= j <= rows.len(),
        forall|k: int| i <= k < j ==> !ci_eq((#[trigger] rows[k]).key@, l),
        j < rows.len() ==> ci_eq(rows[j].key@, l),
    ensures
        ci_label_index_from(rows, l, i) == j,
    decreases j - i,
{
    if i < j {
        lemma_ci_label_index_from_is(rows, l, i + 1, j);
    }
}

/// The column at `k`, or `NULL` where the row does not reach it — the
/// rendering an absent column is read back as.
pub open spec fn spec_col_or_null(row: crate::store::KeyedRow, k: int) -> Seq<char> {
    if 0 <= k < row.cols.deep_view().len() {
        row.cols.deep_view()[k]
    } else {
        "NULL"@
    }
}

fn col_or_null(row: &crate::store::KeyedRow, k: usize) -> (c: String)
    ensures
        c@ == spec_col_or_null(*row, k as int),
{
    if k < row.cols.len() {
        row.cols[k].clone()
    } else {
        crate::text::chars_to_string(&crate::text::str_chars("NULL"))
    }
}

/// Every column of one service row, absent columns read as `NULL`.
pub struct ServiceDetails {
    pub label: String,
    pub path: String,
    pub run_as_user: String,
    pub run_at_load: String,
    pub keep_alive: String,
    pub plist_path: String,
}

/// The full row of the first service whose label equals `label` case-
/// insensitively; nothing when no label matches.
pub fn get_service_by_label(store: &Store, label: &str) -> (r: Option<ServiceDetails>)
    requires
        store.wf(),
    ensures
        match r {
            Option::Some(d) => {
                let w = ci_label_index(store.services.rows@, label@);
                &&& has_ci_label(store.services.rows@, label@)
                &&& 0 <= w < store.services.rows@.len()
                &&& d.label@ == store.services.rows@[w].key@
                &&& d.path@ == spec_col_or_null(store.services.rows@[w], 0)
                &&& d.run_as_user@ == spec_col_or_null(store.services.rows@[w], 1)
                &&& d.run_at_load@ == spec_col_or_null(store.services.rows@[w], 2)
                &&& d.keep_alive@ == spec_col_or_null(store.services.rows@[w], 3)
                &&& d.plist_path@ == spec_col_or_null(store.services.rows@[w], 4)
            },
            Option::None => !has_ci_label(store.services.rows@, label@),
        },
{
    let label_chars = crate::text::str_chars(label);
    let folded = crate::text::lower_chars(&label_chars);
    let n = store.services.rows.len();
    let mut i: usize = 0;
    while i < n
        invariant
            store.wf(),
            n == store.services.rows@.len(),
            i <= n,
            folded@ == lower(label@),
            forall|k: int|
                0 <= k < i ==> !ci_eq((#[trigger] store.services.rows@[k]).key@, label@),
        decreases n - i,
    {
        let row_chars = crate::text::str_chars(store.services.rows[i].key.as_str());
        if ci_eq_exec(&row_chars, &folded) {
            proof {
                lemma_ci_label_index_is(store.services.rows@, label@, i as int);
            }
            let row = &store.services.rows[i];
            return Option::Some(
                ServiceDetails {
                    label: row.key.clone(),
                    path: col_or_null(row, 0),
                    run_as_user: col_or_null(row, 1),
                    run_at_load: col_or_null(row, 2),
                    keep_alive: col_or_null(row, 3),
                    plist_path: col_or_null(row, 4),
                },
            );
        }
        i = i + 1;
    }
    proof {
        lemma_ci_label_index_is(store.services.rows@, label@, n as int);
    }
    Option::None
}

/// The endpoint names declared by the services whose label matches `l`
/// case-insensitively, in table order, from position `i` on.
pub open spec fn spec_mach_names(s: Store, l: Seq<char>, i: int) -> Seq<Seq<char>>
    decreases s.mach_endpoints.rows@.len() - i,
{
    if i < 0 || i >= s.mach_endpoints.rows@.len() {
        Seq::empty()
    } else {
        let row = s.mach_endpoints.rows@[i];
        let rest = spec_mach_names(s, l, i + 1);
        if row.service_id < s.services.rows@.len() && ci_eq(
            s.services.rows@[row.service_id as int].key@,
            l,
        ) {
            seq![row.name@] + rest
        } else {
            rest
        }
    }
}

/// The endpoint names of the services labelled `label`, case-
/// insensitively, in table order; nothing when there are none.
pub fn get_mach_service_by_label(store: &Store, label: &str) -> (r: Option<Vec<String>>)
    requires
        store.wf(),
    ensures
        match r {
            Option::Some(v) => v.deep_view() == spec_mach_names(*store, label@, 0) && v@.len() > 0,
            Option::None => spec_mach_names(*store, label@, 0).len() == 0,
        },
{
    let label_chars = crate::text::str_chars(label);
    let folded = crate::text::lower_chars(&label_chars);
    let n = store.mach_endpoints.rows.len();
    let mut v: Vec<String> = Vec::new();
    let mut i: usize = 0;
    while i < n
        invariant
            store.wf(),
            n == store.mach_endpoints.rows@.len(),
            i <= n,
            folded@ == lower(label@),
            spec_mach_names(*store, label@, 0) =~~= v.deep_view() + spec_mach_names(
                *store,
                label@,
                i as int,
            ),
        decreases n - i,
    {
        let ghost v0 = v.deep_view();
        let row = &store.mach_endpoints.rows[i];
        let sid = row.service_id;
        if sid < store.services.rows.len() {
            let key_chars = crate::text::str_chars(store.services.rows[sid].key.as_str());
            if ci_eq_exec(&key_chars, &folded) {
                v.push(row.name.clone());
                assert(v.deep_view() =~~= v0 + seq![row.name@]);
            }
        }
        i = i + 1;
    }
    assert(v.deep_view() =~~= spec_mach_names(*store, label@, 0));
    if v.len() == 0 {
        assert(spec_mach_names(*store, label@, 0).len() == 0);
        Option::None
    } else {
        Option::Some(v)
    }
}

/// One entitlement of a service: the entitlement's name and the granted
/// value in its canonical string rendering.
pub struct EntitlementValue {
    pub name: String,
    pub value: String,
}

/// The name and value a detail entry denotes.
pub open spec fn pair_view(e: EntitlementValue) -> (Seq<char>, Seq<char>) {
    (e.name@, e.value@)
}

/// The (name, value) pairs granted to the services whose label matches
/// `l` case-insensitively, in association-table order, from position `i`
/// on.
pub open spec fn spec_entitlement_pairs(s: Store, l: Seq<char>, i: int) -> Seq<
    (Seq<char>, Seq<char>),
>
    decreases s.service_entitlements.links@.len() - i,
{
    if i < 0 || i >= s.service_entitlements.links@.len() {
        Seq::empty()
    } else {
        let link = s.service_entitlements.links@[i];
        let rest = spec_entitlement_pairs(s, l, i + 1);
        if link.service_id < s.services.rows@.len() && link.entitlement_id
            < s.entitlements.rows@.len() && ci_eq(
            s.services.rows@[link.service_id as int].key@,
            l,
        ) {
            seq![(s.entitlements.rows@[link.entitlement_id as int].key@, link.value@)] + rest
        } else {
            rest
        }
    }
}

/// The entitlements granted to the services labelled `service_label`,
/// case-insensitively, with their values; nothing when there are none.
pub fn get_entitlements_value_by_service_label(store: &Store, service_label: &str) -> (r: Option<
    Vec<EntitlementValue>,
>)
    requires
        store.wf(),
    ensures
        match r {
            Option::Some(v) => v@.map_values(|e: EntitlementValue| pair_view(e))
                == spec_entitlement_pairs(*store, service_label@, 0) && v@.len() > 0,
            Option::None => spec_entitlement_pairs(*store, service_label@, 0).len() == 0,
        },
{
    let label_chars = crate::text::str_chars(service_label);
    let folded = crate::text::lower_chars(&label_chars);
    let n = store.service_entitlements.links.len();
    let mut v: Vec<EntitlementValue> = Vec::new();
    let mut i: usize = 0;
    while i < n
        invariant
            store.wf(),
            n == store.service_entitlements.links@.len(),
            i <= n,
            folded@ == lower(service_label@),
            spec_entitlement_pairs(*store, service_label@, 0) =~~= v@.map_values(
                |e: EntitlementValue| pair_view(e),
            ) + spec_entitlement_pairs(*store, service_label@, i as int),
        decreases n - i,
    {
        let ghost v0 = v@.map_values(|e: EntitlementValue| pair_view(e));
        let link = &store.service_entitlements.links[i];
        let sid = link.service_id;
        let eid = link.entitlement_id;
        if sid < store.services.rows.len() && eid < store.entitlements.rows.len() {
            let key_chars = crate::text::str_chars(store.services.rows[sid].key.as_str());
            if ci_eq_exec(&key_chars, &folded) {
                let entry = EntitlementValue {
                    name: store.entitlements.rows[eid].key.clone(),
                    value: link.value.clone(),
                };
                let ghost pv = pair_view(entry);
                v.push(entry);
                assert(v@.map_values(|e: EntitlementValue| pair_view(e)) =~~= v0 + seq![pv]);
            }
        }
        i = i + 1;
    }
    assert(v@.map_values(|e: EntitlementValue| pair_view(e)) =~~= spec_entitlement_pairs(
        *store,
        service_label@,
        0,
    ));
    if v.len() == 0 {
        assert(v@.map_values(|e: EntitlementValue| pair_view(e)).len() == 0);
        Option::None
    } else {
        Option::Some(v)
    }
}

/// One library of a service: its name and its load path.
pub struct LibraryEntry {
    pub name: String,
    pub path: String,
}

/// The association at `j` ties a service labelled `l` (case-
/// insensitively) to a library, with both identities in range.
pub open spec fn lib_pair_matches(s: Store, l: Seq<char>, j: int) -> bool {
    0 <= j < s.service_libraries.pairs@.len() && {
        let pr = s.service_libraries.pairs@[j];
        pr.service_id < s.services.rows@.len() && pr.target_id < s.libraries.rows@.len() && ci_eq(
            s.services.rows@[pr.service_id as int].key@,
            l,
        )
    }
}

/// The name and path listed for the library of association `j`.
pub open spec fn lib_pair_name(s: Store, j: int) -> Seq<char> {
    lib_name(s.libraries.rows@[s.service_libraries.pairs@[j].target_id as int])
}

pub open spec fn lib_pair_path(s: Store, j: int) -> Seq<char> {
    s.libraries.rows@[s.service_libraries.pairs@[j].target_id as int].key@
}

/// `h` carries the name and path of some matching association below
/// `bound`.
spec fn lib_hit_below(s: Store, l: Seq<char>, h: QueryHit, bound: int) -> bool {
    exists|j: int|
        0 <= j < bound && #[trigger] lib_pair_matches(s, l, j) && h.label@ == lib_pair_name(s, j)
            && h.path@ == lib_pair_path(s, j)
}

spec fn lib_pair_in_hits(hits: Seq<QueryHit>, name: Seq<char>, path: Seq<char>) -> bool {
    exists|i: int| 0 <= i < hits.len() && (#[trigger] hits[i]).label@ == name && hits[i].path@ == path
}

spec fn lib_complete_below(s: Store, l: Seq<char>, hits: Seq<QueryHit>, bound: int) -> bool {
    forall|j: int|
        0 <= j < bound && #[trigger] lib_pair_matches(s, l, j) ==> lib_pair_in_hits(
            hits,
            lib_pair_name(s, j),
            lib_pair_path(s, j),
        )
}

proof fn lemma_lib_insert(
    s: Store,
    l: Seq<char>,
    hits0: Seq<QueryHit>,
    hits1: Seq<QueryHit>,
    p: int,
    h: QueryHit,
    j: int,
)
    requires
        lib_pair_matches(s, l, j),
        0 <= p <= hits0.len(),
        hits1 == hits0.insert(p, h),
        forall|i: int| 0 <= i < hits0.len() ==> lib_hit_below(s, l, #[trigger] hits0[i], j),
        lib_complete_below(s, l, hits0, j),
        h.label@ == lib_pair_name(s, j),
        h.path@ == lib_pair_path(s, j),
    ensures
        forall|i: int| 0 <= i < hits1.len() ==> lib_hit_below(s, l, #[trigger] hits1[i], j + 1),
        lib_complete_below(s, l, hits1, j + 1),
{
    assert forall|i: int| 0 <= i < hits1.len() implies lib_hit_below(
        s,
        l,
        #[trigger] hits1[i],
        j + 1,
    ) by {
        if i < p {
            assert(hits1[i] == hits0[i]);
        } else if i == p {
            assert(hits1[i] == h);
        } else {
            assert(hits1[i] == hits0[i - 1]);
        }
    }
    assert forall|w: int| 0 <= w < j + 1 && #[trigger] lib_pair_matches(s, l, w) implies
        lib_pair_in_hits(hits1, lib_pair_name(s, w), lib_pair_path(s, w)) by {
        if w < j {
            let i = choose|i: int|
                0 <= i < hits0.len() && (#[trigger] hits0[i]).label@ == lib_pair_name(s, w)
                    && hits0[i].path@ == lib_pair_path(s, w);
            if i < p {
                assert(hits1[i] == hits0[i]);
            } else {
                assert(hits1[i + 1] == hits0[i]);
            }
        } else {
            assert(hits1[p] == h);
        }
    }
}

/// `e` lists the name and path of some matching library association.
pub open spec fn library_listing_entry(s: Store, l: Seq<char>, e: LibraryEntry) -> bool {
    exists|j: int|
        #[trigger] lib_pair_matches(s, l, j) && e.name@ == lib_pair_name(s, j) && e.path@
            == lib_pair_path(s, j)
}

pub open spec fn lib_listed(entries: Seq<LibraryEntry>, name: Seq<char>, path: Seq<char>) -> bool {
    exists|i: int|
        0 <= i < entries.len() && (#[trigger] entries[i]).name@ == name && entries[i].path@ == path
}

/// Every matching association's library is listed.
pub open spec fn library_listing_complete(s: Store, l: Seq<char>, entries: Seq<LibraryEntry>) -> bool {
    forall|j: int|
        #[trigger] lib_pair_matches(s, l, j) ==> lib_listed(
            entries,
            lib_pair_name(s, j),
            lib_pair_path(s, j),
        )
}

/// Some library association matches the label.
pub open spec fn has_lib_pair(s: Store, l: Seq<char>) -> bool {
    exists|j: int| #[trigger] lib_pair_matches(s, l, j)
}

/// The libraries linked by the services labelled `label`, case-
/// insensitively, ordered by library name; nothing when there are none.
pub fn get_libraries_by_label(store: &Store, label: &str) -> (r: Option<Vec<LibraryEntry>>)
    requires
        store.wf(),
    ensures
        match r {
            Option::Some(v) => {
                &&& v@.len() > 0
                &&& forall|i: int, j: int|
                    0 <= i < j < v@.len() ==> lex_le(
                        (#[trigger] v@[i]).name@,
                        (#[trigger] v@[j]).name@,
                    )
                &&& forall|i: int|
                    0 <= i < v@.len() ==> library_listing_entry(*store, label@, #[trigger] v@[i])
                &&& library_listing_complete(*store, label@, v@)
            },
            Option::None => !has_lib_pair(*store, label@),
        },
{
    let label_chars = crate::text::str_chars(label);
    let folded = crate::text::lower_chars(&label_chars);
    let n = store.service_libraries.pairs.len();
    let mut hits: Vec<QueryHit> = Vec::new();
    let mut j: usize = 0;
    while j < n
        invariant
            store.wf(),
            n == store.service_libraries.pairs@.len(),
            j <= n,
            folded@ == lower(label@),
            hits_sorted(hits@),
            forall|i: int| 0 <= i < hits@.len() ==> lib_hit_below(*store, label@, #[trigger] hits@[i], j as int),
            lib_complete_below(*store, label@, hits@, j as int),
        decreases n - j,
    {
        let pr = &store.service_libraries.pairs[j];
        let sid = pr.service_id;
        let tid = pr.target_id;
        if sid < store.services.rows.len() && tid < store.libraries.rows.len() {
            let key_chars = crate::text::str_chars(store.services.rows[sid].key.as_str());
            if ci_eq_exec(&key_chars, &folded) {
                assert(lib_pair_matches(*store, label@, j as int));
                let row = &store.libraries.rows[tid];
                let name = if row.cols.len() > 0 {
                    row.cols[0].clone()
                } else {
                    crate::text::chars_to_string(&Vec::new())
                };
                assert(name@ == lib_pair_name(*store, j as int));
                let hit = QueryHit { label: name, path: row.key.clone() };
                let ghost h0 = hits@;
                let ghost hh = hit;
                insert_sorted(&mut hits, hit);
                proof {
                    let p = choose|p: int| 0 <= p <= h0.len() && hits@ == h0.insert(p, hh);
                    lemma_lib_insert(*store, label@, h0, hits@, p, hh, j as int);
                }
            }
        }
        j = j + 1;
    }
    if hits.len() == 0 {
        assert(!has_lib_pair(*store, label@)) by {
            if has_lib_pair(*store, label@) {
                let w = choose|w: int| #[trigger] lib_pair_matches(*store, label@, w);
            }
        }
        return Option::None;
    }
    let m = hits.len();
    let mut v: Vec<LibraryEntry> = Vec::new();
    let mut i: usize = 0;
    while i < m
        invariant
            m == hits@.len(),
            i <= m,
            v@.len() == i,
            forall|k: int|
                0 <= k < i ==> (#[trigger] v@[k]).name@ == hits@[k].label@ && v@[k].path@
                    == hits@[k].path@,
        decreases m - i,
    {
        v.push(LibraryEntry { name: hits[i].label.clone(), path: hits[i].path.clone() });
        i = i + 1;
    }
    proof {
        assert forall|i0: int| 0 <= i0 < v@.len() implies library_listing_entry(
            *store,
            label@,
            #[trigger] v@[i0],
        ) by {
            assert(lib_hit_below(*store, label@, hits@[i0], n as int));
            let w = choose|w: int|
                0 <= w < n && #[trigger] lib_pair_matches(*store, label@, w) && hits@[i0].label@
                    == lib_pair_name(*store, w) && hits@[i0].path@ == lib_pair_path(*store, w);
        }
        assert forall|w: int| #[trigger] lib_pair_matches(*store, label@, w) implies lib_listed(
            v@,
            lib_pair_name(*store, w),
            lib_pair_path(*store, w),
        ) by {
            assert(lib_pair_in_hits(hits@, lib_pair_name(*store, w), lib_pair_path(*store, w)));
            let i0 = choose|i0: int|
                0 <= i0 < hits@.len() && (#[trigger] hits@[i0]).label@ == lib_pair_name(*store, w)
                    && hits@[i0].path@ == lib_pair_path(*store, w);
            assert(v@[i0].name@ == lib_pair_name(*store, w));
        }
    }
    Option::Some(v)
}

/// The association at `j` ties a service labelled `l` (case-
/// insensitively) to a symbol, with both identities in range.
pub open spec fn sym_pair_matches(s: Store, l: Seq<char>, j: int) -> bool {
    0 <= j < s.service_symbols.pairs@.len() && {
        let pr = s.service_symbols.pairs@[j];
        pr.service_id < s.services.rows@.len() && pr.target_id < s.symbols.rows@.len() && ci_eq(
            s.services.rows@[pr.service_id as int].key@,
            l,
        )
    }
}

/// The name listed for the symbol of association `j`.
pub open spec fn sym_pair_name(s: Store, j: int) -> Seq<char> {
    s.symbols.rows@[s.service_symbols.pairs@[j].target_id as int].key@
}

spec fn sym_hit_below(s: Store, l: Seq<char>, h: QueryHit, bound: int) -> bool {
    exists|j: int|
        0 <= j < bound && #[trigger] sym_pair_matches(s, l, j) && h.label@ == sym_pair_name(s, j)
}

spec fn sym_name_in_hits(hits: Seq<QueryHit>, name: Seq<char>) -> bool {
    exists|i: int| 0 <= i < hits.len() && (#[trigger] hits[i]).label@ == name
}

spec fn sym_complete_below(s: Store, l: Seq<char>, hits: Seq<QueryHit>, bound: int) -> bool {
    forall|j: int|
        0 <= j < bound && #[trigger] sym_pair_matches(s, l, j) ==> sym_name_in_hits(
            hits,
            sym_pair_name(s, j),
        )
}

proof fn lemma_sym_insert(
    s: Store,
    l: Seq<char>,
    hits0: Seq<QueryHit>,
    hits1: Seq<QueryHit>,
    p: int,
    h: QueryHit,
    j: int,
)
    requires
        sym_pair_matches(s, l, j),
        0 <= p <= hits0.len(),
        hits1 == hits0.insert(p, h),
        forall|i: int| 0 <= i < hits0.len() ==> sym_hit_below(s, l, #[trigger] hits0[i], j),
        sym_complete_below(s, l, hits0, j),
        h.label@ == sym_pair_name(s, j),
    ensures
        forall|i: int| 0 <= i < hits1.len() ==> sym_hit_below(s, l, #[trigger] hits1[i], j + 1),
        sym_complete_below(s, l, hits1, j + 1),
{
    assert forall|i: int| 0 <= i < hits1.len() implies sym_hit_below(
        s,
        l,
        #[trigger] hits1[i],
        j + 1,
    ) by {
        if i < p {
            assert(hits1[i] == hits0[i]);
        } else if i == p {
            assert(hits1[i] == h);
        } else {
            assert(hits1[i] == hits0[i - 1]);
        }
    }
    assert forall|w: int| 0 <= w < j + 1 && #[trigger] sym_pair_matches(s, l, w) implies
        sym_name_in_hits(hits1, sym_pair_name(s, w)) by {
        if w < j {
            let i = choose|i: int|
                0 <= i < hits0.len() && (#[trigger] hits0[i]).label@ == sym_pair_name(s, w);
            if i < p {
                assert(hits1[i] == hits0[i]);
            } else {
                assert(hits1[i + 1] == hits0[i]);
            }
        } else {
            assert(hits1[p] == h);
        }
    }
}

/// `name` is the name of some matching symbol association.
pub open spec fn symbol_listing_name(s: Store, l: Seq<char>, name: Seq<char>) -> bool {
    exists|j: int| #[trigger] sym_pair_matches(s, l, j) && name == sym_pair_name(s, j)
}

pub open spec fn name_listed(names: Seq<Seq<char>>, name: Seq<char>) -> bool {
    exists|i: int| 0 <= i < names.len() && names[i] == name
}

/// Every matching association's symbol name is listed.
pub open spec fn symbol_listing_complete(s: Store, l: Seq<char>, names: Seq<Seq<char>>) -> bool {
    forall|j: int|
        #[trigger] sym_pair_matches(s, l, j) ==> name_listed(names, sym_pair_name(s, j))
}

/// Some symbol association matches the label.
pub open spec fn has_sym_pair(s: Store, l: Seq<char>) -> bool {
    exists|j: int| #[trigger] sym_pair_matches(s, l, j)
}

/// The symbols imported by the services labelled `label`, case-
/// insensitively, ordered by name; nothing when there are none.
pub fn get_symbols_by_label(store: &Store, label: &str) -> (r: Option<Vec<String>>)
    requires
        store.wf(),
    ensures
        match r {
            Option::Some(v) => {
                &&& v@.len() > 0
                &&& forall|i: int, j: int|
                    0 <= i < j < v.deep_view().len() ==> lex_le(
                        v.deep_view()[i],
                        v.deep_view()[j],
                    )
                &&& forall|i: int|
                    0 <= i < v.deep_view().len() ==> symbol_listing_name(
                        *store,
                        label@,
                        v.deep_view()[i],
                    )
                &&& symbol_listing_complete(*store, label@, v.deep_view())
            },
            Option::None => !has_sym_pair(*store, label@),
        },
{
    let label_chars = crate::text::str_chars(label);
    let folded = crate::text::lower_chars(&label_chars);
    let n = store.service_symbols.pairs.len();
    let mut hits: Vec<QueryHit> = Vec::new();
    let mut j: usize = 0;
    while j < n
        invariant
            store.wf(),
            n == store.service_symbols.pairs@.len(),
            j <= n,
            folded@ == lower(label@),
            hits_sorted(hits@),
            forall|i: int| 0 <= i < hits@.len() ==> sym_hit_below(*store, label@, #[trigger] hits@[i], j as int),
            sym_complete_below(*store, label@, hits@, j as int),
        decreases n - j,
    {
        let pr = &store.service_symbols.pairs[j];
        let sid = pr.service_id;
        let tid = pr.target_id;
        if sid < store.services.rows.len() && tid < store.symbols.rows.len() {
            let key_chars = crate::text::str_chars(store.services.rows[sid].key.as_str());
            if ci_eq_exec(&key_chars, &folded) {
                assert(sym_pair_matches(*store, label@, j as int));
                let hit = QueryHit {
                    label: store.symbols.rows[tid].key.clone(),
                    path: crate::text::chars_to_string(&Vec::new()),
                };
                let ghost h0 = hits@;
                let ghost hh = hit;
                insert_sorted(&mut hits, hit);
                proof {
                    let p = choose|p: int| 0 <= p <= h0.len() && hits@ == h0.insert(p, hh);
                    lemma_sym_insert(*store, label@, h0, hits@, p, hh, j as int);
                }
            }
        }
        j = j + 1;
    }
    if hits.len() == 0 {
        assert(!has_sym_pair(*store, label@)) by {
            if has_sym_pair(*store, label@) {
                let w = choose|w: int| #[trigger] sym_pair_matches(*store, label@, w);
            }
        }
        return Option::None;
    }
    let m = hits.len();
    let mut v: Vec<String> = Vec::new();
    let mut i: usize = 0;
    while i < m
        invariant
            m == hits@.len(),
            i <= m,
            v@.len() == i,
            forall|k: int| 0 <= k < i ==> v.deep_view()[k] == hits@[k].label@,
        decreases m - i,
    {
        let ghost dv0 = v.deep_view();
        v.push(hits[i].label.clone());
        assert(v.deep_view() =~~= dv0.push(hits@[i as int].label@));
        i = i + 1;
    }
    proof {
        assert forall|i0: int| 0 <= i0 < v.deep_view().len() implies symbol_listing_name(
            *store,
            label@,
            v.deep_view()[i0],
        ) by {
            assert(sym_hit_below(*store, label@, hits@[i0], n as int));
        }
        assert forall|w: int| #[trigger] sym_pair_matches(*store, label@, w) implies name_listed(
            v.deep_view(),
            sym_pair_name(*store, w),
        ) by {
            assert(sym_name_in_hits(hits@, sym_pair_name(*store, w)));
            let i0 = choose|i0: int|
                0 <= i0 < hits@.len() && (#[trigger] hits@[i0]).label@ == sym_pair_name(*store, w);
            assert(v.deep_view()[i0] == sym_pair_name(*store, w));
        }
    }
    Option::Some(v)
}

} // verus!
