//! The parsing half of the four introspection capabilities.
//!
//! Each capability wraps one external tool; the tool is run outside the
//! library, and the text it produced is handed here. These parsers state
//! exactly what each capability contributes: a code-identity string, a
//! structured entitlement map, a list of linked library paths, a list of
//! imported symbol names.

use vstd::prelude::*;

use crate::descriptor::ParseError;
use crate::text::first_token;
use crate::text::split_on;
use crate::text::starts_with_seq;
use crate::text::trim;
use crate::value::DocValue;

verus! {

/// The identity in the first line of `ls` at or after `i` that starts
/// with `Identifier=`: what stands between the first and second `=` of
/// that line, trimmed. `Unknown` when no line matches.
pub open spec fn spec_ident_from(ls: Seq<Seq<char>>, i: int) -> Seq<char>
    decreases ls.len() - i,
{
    if i < 0 || i >= ls.len() {
        "Unknown"@
    } else if starts_with_seq(ls[i], "Identifier="@) {
        let pieces = split_on(ls[i], '=');
        if pieces.len() > 1 {
            trim(pieces[1])
        } else {
            "Unknown"@
        }
    } else {
        spec_ident_from(ls, i + 1)
    }
}

/// The code identity the identify capability reads out of its tool's
/// diagnostic output.
pub open spec fn spec_identifier_of(s: Seq<char>) -> Seq<char> {
    spec_ident_from(split_on(s, '\n'), 0)
}

/// Extract the code-identity string from the identify tool's diagnostic
/// output: the value of the first `Identifier=` line, or `Unknown` when
/// the output has none.
pub fn parse_identifier_output(output: &str) -> (r: String)
    ensures
        r@ == spec_identifier_of(output@),
{
    let chars = crate::text::str_chars(output);
    let lines = crate::text::split_on_exec(&chars, '\n');
    let prefix = crate::text::str_chars("Identifier=");
    let n = lines.len();
    let ghost ls = lines.deep_view();
    let mut i: usize = 0;
    while i < n
        invariant
            n == lines@.len(),
            ls == lines.deep_view(),
            chars@ == output@,
            ls == split_on(output@, '\n'),
            prefix@ == "Identifier="@,
            i <= n,
            spec_identifier_of(output@) == spec_ident_from(ls, i as int),
        decreases n - i,
    {
        assert(ls[i as int] == lines@[i as int]@);
        if crate::text::starts_with_exec(&lines[i], &prefix) {
            let pieces = crate::text::split_on_exec(&lines[i], '=');
            assert(pieces.deep_view() == split_on(ls[i as int], '='));
            if pieces.len() > 1 {
                assert(pieces.deep_view()[1] == pieces@[1]@);
                let trimmed = crate::text::trim_exec(&pieces[1]);
                return crate::text::chars_to_string(&trimmed);
            }
            return crate::text::chars_to_string(&crate::text::str_chars("Unknown"));
        }
        i = i + 1;
    }
    crate::text::chars_to_string(&crate::text::str_chars("Unknown"))
}

/// The non-empty first tokens of the lines of `ls` at or after `i`: each
/// line names one linked library by its load path, the path standing
/// first on the line.
pub open spec fn spec_dep_paths_from(ls: Seq<Seq<char>>, i: int) -> Seq<Seq<char>>
    decreases ls.len() - i,
{
    if i < 0 || i >= ls.len() {
        Seq::empty()
    } else {
        let t = first_token(ls[i]);
        let rest = spec_dep_paths_from(ls, i + 1);
        if t.len() > 0 {
            seq![t] + rest
        } else {
            rest
        }
    }
}

/// The library paths the dependencies capability reads out of its tool's
/// output: the first token of every line but the first, which names the
/// inspected binary itself; blank lines contribute nothing.
pub open spec fn spec_dependency_paths(s: Seq<char>) -> Seq<Seq<char>> {
    spec_dep_paths_from(split_on(s, '\n'), 1)
}

/// Extract the linked library paths from the dependency tool's output.
/// An empty result is valid: a binary may link nothing.
pub fn parse_dependencies_output(output: &str) -> (r: Vec<String>)
    ensures
        r.deep_view() == spec_dependency_paths(output@),
{
    let chars = crate::text::str_chars(output);
    let lines = crate::text::split_on_exec(&chars, '\n');
    let n = lines.len();
    let ghost ls = lines.deep_view();
    let mut r: Vec<String> = Vec::new();
    let mut i: usize = 1;
    while i < n
        invariant
            n == lines@.len(),
            ls == lines.deep_view(),
            ls == split_on(output@, '\n'),
            1 <= i <= n || (n < 1 && i == 1),
            spec_dependency_paths(output@) =~~= r.deep_view() + spec_dep_paths_from(ls, i as int),
        decreases n - i,
    {
        assert(ls[i as int] == lines@[i as int]@);
        let ghost r0 = r.deep_view();
        let token = crate::text::first_token_exec(&lines[i]);
        if token.len() > 0 {
            r.push(crate::text::chars_to_string(&token));
            assert(r.deep_view() =~~= r0 + seq![token@]);
        }
        i = i + 1;
    }
    assert(r.deep_view() =~~= spec_dependency_paths(output@));
    r
}

/// The non-empty trimmed lines of `ls` at or after `i`: each line names
/// one imported symbol.
pub open spec fn spec_symbols_from(ls: Seq<Seq<char>>, i: int) -> Seq<Seq<char>>
    decreases ls.len() - i,
{
    if i < 0 || i >= ls.len() {
        Seq::empty()
    } else {
        let t = trim(ls[i]);
        let rest = spec_symbols_from(ls, i + 1);
        if t.len() > 0 {
            seq![t] + rest
        } else {
            rest
        }
    }
}

/// The symbol names the imported-symbols capability reads out of its
/// tool's output: every line, trimmed, blank lines contributing nothing.
pub open spec fn spec_symbol_names(s: Seq<char>) -> Seq<Seq<char>> {
    spec_symbols_from(split_on(s, '\n'), 0)
}

/// Extract the imported symbol names from the symbol tool's output. An
/// empty result is valid: a binary may import nothing.
pub fn parse_symbols_output(output: &str) -> (r: Vec<String>)
    ensures
        r.deep_view() == spec_symbol_names(output@),
{
    let chars = crate::text::str_chars(output);
    let lines = crate::text::split_on_exec(&chars, '\n');
    let n = lines.len();
    let ghost ls = lines.deep_view();
    let mut r: Vec<String> = Vec::new();
    let mut i: usize = 0;
    while i < n
        invariant
            n == lines@.len(),
            ls == lines.deep_view(),
            ls == split_on(output@, '\n'),
            i <= n,
            spec_symbol_names(output@) =~~= r.deep_view() + spec_symbols_from(ls, i as int),
        decreases n - i,
    {
        assert(ls[i as int] == lines@[i as int]@);
        let ghost r0 = r.deep_view();
        let trimmed = crate::text::trim_exec(&lines[i]);
        if trimmed.len() > 0 {
            r.push(crate::text::chars_to_string(&trimmed));
            assert(r.deep_view() =~~= r0 + seq![trimmed@]);
        }
        i = i + 1;
    }
    assert(r.deep_view() =~~= spec_symbol_names(output@));
    r
}

/// Convert the serialized entitlement document of the two-stage
/// entitlement extraction. An empty document means the binary embeds no
/// entitlements and yields the empty map — that is not a failure; bytes
/// that do not form a well-formed document are one.
pub fn entitlements_from_json(bytes: &[u8]) -> (r: Result<DocValue, ParseError>)
    ensures
        bytes@.len() == 0 ==> (r matches Result::Ok(v) && (v matches DocValue::Dict(entries)
            && entries@.len() == 0)),
        bytes@.len() > 0 ==> match r {
            Result::Ok(v) => crate::outside::parsed_json_value(bytes@) == Option::Some(v),
            Result::Err(_) => crate::outside::parsed_json_value(bytes@) is None,
        },
{
    if bytes.len() == 0 {
        return Result::Ok(DocValue::Dict(Vec::new()));
    }
    crate::descriptor::parse_json_document(bytes)
}

} // verus!
