//! Naming and dispatch rules around the store files.

use vstd::prelude::*;

use crate::text::ends_with_seq;
use crate::text::starts_with_seq;
use crate::text::trim;

verus! {

/// A store file name is valid when it is non-empty, carries the tool's
/// prefix and the store suffix, and names no directory.
pub open spec fn spec_is_valid_db(s: Seq<char>) -> bool {
    s.len() > 0 && starts_with_seq(s, "dora_"@) && ends_with_seq(s, ".sqlite"@) && !s.contains('/')
}

/// Validate a store file name offered by an outside caller.
pub fn is_valid_db(db: &String) -> (r: bool)
    ensures
        r == spec_is_valid_db(db@),
{
    let chars = crate::text::str_chars(db.as_str());
    if chars.len() == 0 {
        return false;
    }
    let prefix = crate::text::str_chars("dora_");
    if !crate::text::starts_with_exec(&chars, &prefix) {
        return false;
    }
    let suffix = crate::text::str_chars(".sqlite");
    if !crate::text::ends_with_exec(&chars, &suffix) {
        return false;
    }
    let slash = crate::text::find_char_exec(&chars, '/');
    proof {
        crate::text::lemma_find_char(db@, '/');
    }
    if slash < chars.len() {
        assert(db@.contains('/'));
        return false;
    }
    assert(!db@.contains('/')) by {
        if db@.contains('/') {
            let w = choose|w: int| 0 <= w < db@.len() && db@[w] == '/';
        }
    }
    true
}

/// The name of the store file for a host: the tool's prefix, then the
/// host's product name, product version and build version — each as its
/// tool reported it, trimmed — and the store suffix.
pub open spec fn spec_sqlite_filename(
    product_name: Seq<char>,
    product_version: Seq<char>,
    build_version: Seq<char>,
) -> Seq<char> {
    "dora_"@ + trim(product_name) + "_"@ + trim(product_version) + "_"@ + trim(build_version)
        + ".sqlite"@
}

/// Build the store file name out of the three version strings the host
/// reports, trimming the line ending each one carries.
pub fn generate_sqlite_filename(
    product_name: &str,
    product_version: &str,
    build_version: &str,
) -> (r: String)
    ensures
        r@ == spec_sqlite_filename(product_name@, product_version@, build_version@),
{
    let mut chars = crate::text::str_chars("dora_");
    let mut pn = crate::text::trim_exec(&crate::text::str_chars(product_name));
    chars.append(&mut pn);
    let mut us1 = crate::text::str_chars("_");
    chars.append(&mut us1);
    let mut pv = crate::text::trim_exec(&crate::text::str_chars(product_version));
    chars.append(&mut pv);
    let mut us2 = crate::text::str_chars("_");
    chars.append(&mut us2);
    let mut bv = crate::text::trim_exec(&crate::text::str_chars(build_version));
    chars.append(&mut bv);
    let mut sfx = crate::text::str_chars(".sqlite");
    chars.append(&mut sfx);
    crate::text::chars_to_string(&chars)
}

/// Which query operation a set of submitted filters selects.
#[derive(Debug, PartialEq, Eq, Structural)]
pub enum QueryChoice {
    ByLabelPattern,
    ByEntitlementAndSymbol,
    ByEntitlement,
    ByLibrary,
    BySymbol,
    NoParameters,
}

/// The dispatch rule of the query surface: a service filter wins; else an
/// entitlement filter, joined with a symbol filter when both are given;
/// else a library filter; else a symbol filter; else nothing was asked.
pub open spec fn spec_select_query(
    service: Seq<char>,
    entitlement: Seq<char>,
    library: Seq<char>,
    symbol: Seq<char>,
) -> QueryChoice {
    if service.len() > 0 {
        QueryChoice::ByLabelPattern
    } else if entitlement.len() > 0 && symbol.len() > 0 {
        QueryChoice::ByEntitlementAndSymbol
    } else if entitlement.len() > 0 {
        QueryChoice::ByEntitlement
    } else if library.len() > 0 {
        QueryChoice::ByLibrary
    } else if symbol.len() > 0 {
        QueryChoice::BySymbol
    } else {
        QueryChoice::NoParameters
    }
}

/// Choose the query operation for the submitted filters.
pub fn select_query(service: &str, entitlement: &str, library: &str, symbol: &str) -> (r:
    QueryChoice)
    ensures
        r == spec_select_query(service@, entitlement@, library@, symbol@),
{
    if !service.is_empty() {
        QueryChoice::ByLabelPattern
    } else if !entitlement.is_empty() && !symbol.is_empty() {
        QueryChoice::ByEntitlementAndSymbol
    } else if !entitlement.is_empty() {
        QueryChoice::ByEntitlement
    } else if !library.is_empty() {
        QueryChoice::ByLibrary
    } else if !symbol.is_empty() {
        QueryChoice::BySymbol
    } else {
        QueryChoice::NoParameters
    }
}

} // verus!
