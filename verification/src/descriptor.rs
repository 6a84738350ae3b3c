//! Loading one service-descriptor document.
//!
//! The document bytes are parsed into a generic [`DocValue`] by the outside
//! parsers; everything read out of that value afterwards — the label, the
//! program path, the supervision flags, the declared endpoints — is
//! extracted by verified code with exact contracts.

use vstd::prelude::*;

use crate::value::DocValue;

verus! {

/// A descriptor document could not be opened as a property list.
#[derive(Debug)]
pub struct ParseError;

pub use crate::outside::parsed_descriptor_value;
pub use crate::outside::parsed_json_value;

/// Parse one service-descriptor document. Fails exactly on the bytes that
/// do not form a well-formed property list.
pub fn parse_service_plist(bytes: &[u8]) -> (r: Result<DocValue, ParseError>)
    ensures
        match r {
            Result::Ok(v) => parsed_descriptor_value(bytes@) == Option::Some(v),
            Result::Err(_) => parsed_descriptor_value(bytes@) is None,
        },
{
    match crate::outside::parse_plist_bytes(bytes) {
        Option::Some(v) => Result::Ok(v),
        Option::None => Result::Err(ParseError),
    }
}

/// Parse a JSON document into a generic value. Fails exactly on the bytes
/// that do not form well-formed JSON.
pub fn parse_json_document(bytes: &[u8]) -> (r: Result<DocValue, ParseError>)
    ensures
        match r {
            Result::Ok(v) => parsed_json_value(bytes@) == Option::Some(v),
            Result::Err(_) => parsed_json_value(bytes@) is None,
        },
{
    match crate::outside::parse_json_bytes(bytes) {
        Option::Some(v) => Result::Ok(v),
        Option::None => Result::Err(ParseError),
    }
}

/// The fields the pipeline reads out of a parsed descriptor.
pub struct Descriptor {
    pub label: String,
    pub program_path: String,
    pub run_at_load: bool,
    pub keep_alive: bool,
}

/// The top-level string field `Label`; empty when absent or not a string.
pub open spec fn spec_label(v: DocValue) -> Seq<char> {
    match v.spec_get("Label"@) {
        Option::Some(l) => match l.spec_as_str() {
            Option::Some(s) => s,
            Option::None => Seq::empty(),
        },
        Option::None => Seq::empty(),
    }
}

/// The first element of the `ProgramArguments` array, when it is a string;
/// empty otherwise.
pub open spec fn spec_first_program_argument(v: DocValue) -> Seq<char> {
    match v.spec_get("ProgramArguments"@) {
        Option::Some(pa) => match pa {
            DocValue::List(items) => if items@.len() > 0 {
                match items@[0].spec_as_str() {
                    Option::Some(s) => s,
                    Option::None => Seq::empty(),
                }
            } else {
                Seq::empty()
            },
            _ => Seq::empty(),
        },
        Option::None => Seq::empty(),
    }
}

/// The program path: the `Program` string when present and non-empty, else
/// the first `ProgramArguments` element, else empty.
pub open spec fn spec_program_path(v: DocValue) -> Seq<char> {
    let p = match v.spec_get("Program"@) {
        Option::Some(pv) => match pv.spec_as_str() {
            Option::Some(s) => s,
            Option::None => Seq::empty(),
        },
        Option::None => Seq::empty(),
    };
    if p.len() > 0 {
        p
    } else {
        spec_first_program_argument(v)
    }
}

/// A boolean field, false when absent or not a boolean.
pub open spec fn spec_bool_field(v: DocValue, name: Seq<char>) -> bool {
    match v.spec_get(name) {
        Option::Some(b) => match b.spec_as_bool() {
            Option::Some(x) => x,
            Option::None => false,
        },
        Option::None => false,
    }
}

impl DocValue {
    /// The descriptor fields this parsed document denotes.
    pub fn to_descriptor(&self) -> (d: Descriptor)
        ensures
            d.label@ == spec_label(*self),
            d.program_path@ == spec_program_path(*self),
            d.run_at_load == spec_bool_field(*self, "RunAtLoad"@),
            d.keep_alive == spec_bool_field(*self, "KeepAlive"@),
    {
        let label = match self.get("Label") {
            Option::Some(l) => match l.as_str() {
                Option::Some(s) => s.clone(),
                Option::None => crate::text::chars_to_string(&Vec::new()),
            },
            Option::None => crate::text::chars_to_string(&Vec::new()),
        };
        let program = match self.get("Program") {
            Option::Some(pv) => match pv.as_str() {
                Option::Some(s) => s.clone(),
                Option::None => crate::text::chars_to_string(&Vec::new()),
            },
            Option::None => crate::text::chars_to_string(&Vec::new()),
        };
        let program_path = if program.as_str().is_empty() {
            self.first_program_argument()
        } else {
            program
        };
        Descriptor {
            label,
            program_path,
            run_at_load: self.bool_field("RunAtLoad"),
            keep_alive: self.bool_field("KeepAlive"),
        }
    }

    /// The first `ProgramArguments` element, when it is a string.
    fn first_program_argument(&self) -> (p: String)
        ensures
            p@ == spec_first_program_argument(*self),
    {
        match self.get("ProgramArguments") {
            Option::Some(pa) => match pa {
                DocValue::List(items) => if items.len() > 0 {
                    match items[0].as_str() {
                        Option::Some(s) => s.clone(),
                        Option::None => crate::text::chars_to_string(&Vec::new()),
                    }
                } else {
                    crate::text::chars_to_string(&Vec::new())
                },
                _ => crate::text::chars_to_string(&Vec::new()),
            },
            Option::None => crate::text::chars_to_string(&Vec::new()),
        }
    }

    /// A boolean field, false when absent or not a boolean.
    fn bool_field(&self, name: &str) -> (b: bool)
        ensures
            b == spec_bool_field(*self, name@),
    {
        match self.get(name) {
            Option::Some(v) => match v.as_bool() {
                Option::Some(x) => x,
                Option::None => false,
            },
            Option::None => false,
        }
    }
}

/// Whether a descriptor found at `path` launches its program as the
/// standard user: agent-class descriptor directories carry `LaunchAgents`
/// in their path; everything else is daemon-class and runs as root.
pub open spec fn spec_runs_as_standard_user(path: Seq<char>) -> bool {
    crate::text::contains_seq(path, "LaunchAgents"@)
}

/// The user class a descriptor location implies, as stored: `standard`
/// for agent-class locations, `root` for daemon-class ones.
pub fn run_as_user_for(descriptor_path: &str) -> (r: String)
    ensures
        spec_runs_as_standard_user(descriptor_path@) ==> r@ == "standard"@,
        !spec_runs_as_standard_user(descriptor_path@) ==> r@ == "root"@,
{
    let path_chars = crate::text::str_chars(descriptor_path);
    let needle = crate::text::str_chars("LaunchAgents");
    if crate::text::contains_exec(&path_chars, &needle) {
        crate::text::chars_to_string(&crate::text::str_chars("standard"))
    } else {
        crate::text::chars_to_string(&crate::text::str_chars("root"))
    }
}

} // verus!
