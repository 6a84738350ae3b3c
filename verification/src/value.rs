//! The tagged value a parsed descriptor or entitlement document yields.
//!
//! A heterogeneous document value is one of: null, boolean, number, string,
//! list, or dictionary. Numbers keep the decimal rendering the parser
//! produced, as text, so no information is lost before the value is
//! collapsed to a string at the point of persistence.

use vstd::prelude::*;

verus! {

/// One key/value pair of a dictionary value.
pub struct DictEntry {
    pub key: String,
    pub val: DocValue,
}

/// A parsed document value.
pub enum DocValue {
    Null,
    Bool(bool),
    Num(String),
    Str(String),
    List(Vec<DocValue>),
    Dict(Vec<DictEntry>),
}

impl DocValue {
    /// The value of the first entry named `key`, when the value is a
    /// dictionary with such an entry.
    pub open spec fn spec_get(self, key: Seq<char>) -> Option<DocValue> {
        match self {
            DocValue::Dict(entries) => spec_entries_get(entries@, key, 0),
            _ => Option::None,
        }
    }

    /// The string content, when the value is a string.
    pub open spec fn spec_as_str(self) -> Option<Seq<char>> {
        match self {
            DocValue::Str(s) => Option::Some(s@),
            _ => Option::None,
        }
    }

    /// The boolean content, when the value is a boolean.
    pub open spec fn spec_as_bool(self) -> Option<bool> {
        match self {
            DocValue::Bool(b) => Option::Some(b),
            _ => Option::None,
        }
    }

    /// Look a key up in a dictionary value. Returns nothing when the value
    /// is not a dictionary or has no entry so named.
    pub fn get<'a>(&'a self, key: &str) -> (r: Option<&'a DocValue>)
        ensures
            match r {
                Option::Some(v) => self.spec_get(key@) == Option::Some(*v),
                Option::None => self.spec_get(key@) is None,
            },
    {
        let key_chars = crate::text::str_chars(key);
        match self {
            DocValue::Dict(entries) => {
                assert(self.spec_get(key@) == spec_entries_get(entries@, key@, 0));
                let n = entries.len();
                let mut i: usize = 0;
                while i < n
                    invariant
                        n == entries@.len(),
                        i <= n,
                        self.spec_get(key@) == spec_entries_get(entries@, key@, i as int),
                        key_chars@ == key@,
                    decreases n - i,
                {
                    let entry_chars = crate::text::str_chars(entries[i].key.as_str());
                    if crate::text::chars_eq(&entry_chars, &key_chars) {
                        assert(entries@[i as int].key@ == key@);
                        assert(spec_entries_get(entries@, key@, i as int) == Option::Some(
                            entries@[i as int].val,
                        ));
                        return Option::Some(&entries[i].val);
                    }
                    i = i + 1;
                }
                Option::None
            },
            _ => Option::None,
        }
    }

    /// The string content, when the value is a string.
    pub fn as_str<'a>(&'a self) -> (r: Option<&'a String>)
        ensures
            match r {
                Option::Some(s) => self.spec_as_str() == Option::Some(s@),
                Option::None => self.spec_as_str() is None,
            },
    {
        match self {
            DocValue::Str(s) => Option::Some(s),
            _ => Option::None,
        }
    }

    /// The boolean content, when the value is a boolean.
    pub fn as_bool(&self) -> (r: Option<bool>)
        ensures
            match r {
                Option::Some(b) => self.spec_as_bool() == Option::Some(b),
                Option::None => self.spec_as_bool() is None,
            },
    {
        match self {
            DocValue::Bool(b) => Option::Some(*b),
            _ => Option::None,
        }
    }
}

/// The value of the first entry named `key` at or after position `i`.
pub open spec fn spec_entries_get(entries: Seq<DictEntry>, key: Seq<char>, i: int) -> Option<DocValue>
    decreases entries.len() - i,
{
    if i < 0 || i >= entries.len() {
        Option::None
    } else if entries[i].key@ == key {
        Option::Some(entries[i].val)
    } else {
        spec_entries_get(entries, key, i + 1)
    }
}

/// The lowercase hexadecimal digit for `n`, for `n` below sixteen.
pub open spec fn spec_hex_digit(n: u32) -> char {
    if n < 10 {
        (('0' as u32) + n) as char
    } else {
        (('a' as u32) + (n - 10)) as char
    }
}

fn hex_digit_exec(n: u32) -> (c: char)
    requires
        n < 16,
    ensures
        c == spec_hex_digit(n),
{
    if n == 0 {
        '0'
    } else if n == 1 {
        '1'
    } else if n == 2 {
        '2'
    } else if n == 3 {
        '3'
    } else if n == 4 {
        '4'
    } else if n == 5 {
        '5'
    } else if n == 6 {
        '6'
    } else if n == 7 {
        '7'
    } else if n == 8 {
        '8'
    } else if n == 9 {
        '9'
    } else if n == 10 {
        'a'
    } else if n == 11 {
        'b'
    } else if n == 12 {
        'c'
    } else if n == 13 {
        'd'
    } else if n == 14 {
        'e'
    } else {
        'f'
    }
}

/// How one character is written inside a rendered string literal: the quote
/// and the backslash get a backslash escape, the named control characters
/// their short escapes, every other control character a `\u00..` escape,
/// and all else stands as itself.
pub open spec fn spec_escape_char(c: char) -> Seq<char> {
    if c == '"' {
        seq!['\\', '"']
    } else if c == '\\' {
        seq!['\\', '\\']
    } else if c as u32 == 8 {
        seq!['\\', 'b']
    } else if c as u32 == 12 {
        seq!['\\', 'f']
    } else if c == '\n' {
        seq!['\\', 'n']
    } else if c == '\r' {
        seq!['\\', 'r']
    } else if c == '\t' {
        seq!['\\', 't']
    } else if (c as u32) < 32 {
        seq!['\\', 'u', '0', '0', spec_hex_digit((c as u32) / 16), spec_hex_digit((c as u32) % 16)]
    } else {
        seq![c]
    }
}

/// The escaped form of the first `i` characters of `s`.
pub open spec fn spec_escape_upto(s: Seq<char>, i: int) -> Seq<char>
    decreases i,
{
    if i <= 0 {
        Seq::empty()
    } else {
        spec_escape_upto(s, i - 1) + spec_escape_char(s[i - 1])
    }
}

/// The escaped form of a whole string body.
pub open spec fn spec_escape(s: Seq<char>) -> Seq<char> {
    spec_escape_upto(s, s.len() as int)
}

/// Append the escaped form of `c` to `acc`.
fn escape_char_push(acc: &mut Vec<char>, c: char)
    ensures
        final(acc)@ == old(acc)@ + spec_escape_char(c),
{
    let ghost a0 = acc@;
    let u = c as u32;
    if c == '"' {
        acc.push('\\');
        acc.push('"');
    } else if c == '\\' {
        acc.push('\\');
        acc.push('\\');
    } else if u == 8 {
        acc.push('\\');
        acc.push('b');
    } else if u == 12 {
        acc.push('\\');
        acc.push('f');
    } else if c == '\n' {
        acc.push('\\');
        acc.push('n');
    } else if c == '\r' {
        acc.push('\\');
        acc.push('r');
    } else if c == '\t' {
        acc.push('\\');
        acc.push('t');
    } else if u < 32 {
        acc.push('\\');
        acc.push('u');
        acc.push('0');
        acc.push('0');
        acc.push(hex_digit_exec(u / 16));
        acc.push(hex_digit_exec(u % 16));
    } else {
        acc.push(c);
    }
    assert(acc@ =~= a0 + spec_escape_char(c));
}

/// Append the escaped form of every character of `s` to `acc`.
fn escape_append(acc: &mut Vec<char>, s: &str)
    ensures
        final(acc)@ == old(acc)@ + spec_escape(s@),
{
    let chars = crate::text::str_chars(s);
    let n = chars.len();
    let mut i: usize = 0;
    while i < n
        invariant
            n == chars@.len(),
            chars@ == s@,
            i <= n,
            acc@ == old(acc)@ + spec_escape_upto(s@, i as int),
        decreases n - i,
    {
        escape_char_push(acc, chars[i]);
        i = i + 1;
    }
}

/// The compact rendering of a value: `null`, `true`/`false`, the number
/// text, a quoted and escaped string, a bracketed comma-separated list, or
/// a braced comma-separated dictionary with quoted keys.
pub open spec fn spec_json(v: DocValue) -> Seq<char>
    decreases v, 1int, 0int,
{
    match v {
        DocValue::Null => "null"@,
        DocValue::Bool(b) => if b {
            "true"@
        } else {
            "false"@
        },
        DocValue::Num(s) => s@,
        DocValue::Str(s) => seq!['"'] + spec_escape(s@) + seq!['"'],
        DocValue::List(items) => seq!['['] + spec_json_items(items@, 0) + seq![']'],
        DocValue::Dict(entries) => seq!['{'] + spec_json_entries(entries@, 0) + seq!['}'],
    }
}

/// The comma-separated renderings of `items[i..]`.
pub open spec fn spec_json_items(items: Seq<DocValue>, i: int) -> Seq<char>
    decreases items, 0int, items.len() - i,
{
    if i < 0 || i >= items.len() {
        Seq::empty()
    } else if i + 1 < items.len() {
        spec_json(items[i]) + seq![','] + spec_json_items(items, i + 1)
    } else {
        spec_json(items[i])
    }
}

/// The comma-separated `"key":value` renderings of `entries[i..]`.
pub open spec fn spec_json_entries(entries: Seq<DictEntry>, i: int) -> Seq<char>
    decreases entries, 0int, entries.len() - i,
{
    if i < 0 || i >= entries.len() {
        Seq::empty()
    } else {
        let one = seq!['"'] + spec_escape(entries[i].key@) + seq!['"', ':'] + spec_json(
            entries[i].val,
        );
        if i + 1 < entries.len() {
            one + seq![','] + spec_json_entries(entries, i + 1)
        } else {
            one
        }
    }
}

fn render_json(v: &DocValue) -> (r: Vec<char>)
    ensures
        r@ == spec_json(*v),
    decreases *v, 1int, 0int,
{
    match v {
        DocValue::Null => crate::text::str_chars("null"),
        DocValue::Bool(b) => if *b {
            crate::text::str_chars("true")
        } else {
            crate::text::str_chars("false")
        },
        DocValue::Num(s) => crate::text::str_chars(s.as_str()),
        DocValue::Str(s) => {
            let mut r: Vec<char> = Vec::new();
            r.push('"');
            escape_append(&mut r, s.as_str());
            r.push('"');
            assert(r@ =~= spec_json(*v));
            r
        },
        DocValue::List(items) => {
            let mut r: Vec<char> = Vec::new();
            r.push('[');
            let mut mid = render_json_items(items, 0);
            r.append(&mut mid);
            r.push(']');
            assert(r@ =~= spec_json(*v));
            r
        },
        DocValue::Dict(entries) => {
            let mut r: Vec<char> = Vec::new();
            r.push('{');
            let mut mid = render_json_entries(entries, 0);
            r.append(&mut mid);
            r.push('}');
            assert(r@ =~= spec_json(*v));
            r
        },
    }
}

fn render_json_items(items: &Vec<DocValue>, i: usize) -> (r: Vec<char>)
    requires
        i <= items@.len(),
    ensures
        r@ == spec_json_items(items@, i as int),
    decreases items@, 0int, items@.len() - i,
{
    if i >= items.len() {
        Vec::new()
    } else {
        let mut r = render_json(&items[i]);
        if i + 1 < items.len() {
            r.push(',');
            let mut rest = render_json_items(items, i + 1);
            r.append(&mut rest);
            assert(r@ =~= spec_json_items(items@, i as int));
        }
        r
    }
}

fn render_json_entries(entries: &Vec<DictEntry>, i: usize) -> (r: Vec<char>)
    requires
        i <= entries@.len(),
    ensures
        r@ == spec_json_entries(entries@, i as int),
    decreases entries@, 0int, entries@.len() - i,
{
    if i >= entries.len() {
        Vec::new()
    } else {
        let mut r: Vec<char> = Vec::new();
        r.push('"');
        escape_append(&mut r, entries[i].key.as_str());
        r.push('"');
        r.push(':');
        let mut val = render_json(&entries[i].val);
        r.append(&mut val);
        if i + 1 < entries.len() {
            r.push(',');
            let mut rest = render_json_entries(entries, i + 1);
            r.append(&mut rest);
        }
        assert(r@ =~= spec_json_entries(entries@, i as int));
        r
    }
}

/// The canonical collapse of a heterogeneous value to one string, applied
/// at the point of persistence: a string stands as itself, a boolean or a
/// number as its text, a list as the comma-and-space-separated renderings
/// of its items, a dictionary as comma-and-space-separated `key: value`
/// pairs, and anything else as an explicit unhandled marker.
pub open spec fn spec_collapse(v: DocValue) -> Seq<char>
    decreases v, 2int, 0int,
{
    match v {
        DocValue::Str(s) => s@,
        DocValue::Bool(b) => if b {
            "true"@
        } else {
            "false"@
        },
        DocValue::Num(s) => s@,
        DocValue::List(items) => spec_collapse_items(items@, 0),
        DocValue::Dict(entries) => spec_collapse_entries(entries@, 0),
        DocValue::Null => "!!! Not handled !!!"@,
    }
}

/// The renderings of `items[i..]`, joined by a comma and a space.
pub open spec fn spec_collapse_items(items: Seq<DocValue>, i: int) -> Seq<char>
    decreases items, 1int, items.len() - i,
{
    if i < 0 || i >= items.len() {
        Seq::empty()
    } else if i + 1 < items.len() {
        spec_json(items[i]) + seq![',', ' '] + spec_collapse_items(items, i + 1)
    } else {
        spec_json(items[i])
    }
}

/// The `key: value` renderings of `entries[i..]`, joined by a comma and a
/// space; the key stands bare, the value in its compact rendering.
pub open spec fn spec_collapse_entries(entries: Seq<DictEntry>, i: int) -> Seq<char>
    decreases entries, 1int, entries.len() - i,
{
    if i < 0 || i >= entries.len() {
        Seq::empty()
    } else {
        let one = entries[i].key@ + seq![':', ' '] + spec_json(entries[i].val);
        if i + 1 < entries.len() {
            one + seq![',', ' '] + spec_collapse_entries(entries, i + 1)
        } else {
            one
        }
    }
}

fn collapse_items(items: &Vec<DocValue>, i: usize) -> (r: Vec<char>)
    requires
        i <= items@.len(),
    ensures
        r@ == spec_collapse_items(items@, i as int),
    decreases items@, 1int, items@.len() - i,
{
    if i >= items.len() {
        Vec::new()
    } else {
        let mut r = render_json(&items[i]);
        if i + 1 < items.len() {
            r.push(',');
            r.push(' ');
            let mut rest = collapse_items(items, i + 1);
            r.append(&mut rest);
            assert(r@ =~= spec_collapse_items(items@, i as int));
        }
        r
    }
}

fn collapse_entries(entries: &Vec<DictEntry>, i: usize) -> (r: Vec<char>)
    requires
        i <= entries@.len(),
    ensures
        r@ == spec_collapse_entries(entries@, i as int),
    decreases entries@, 1int, entries@.len() - i,
{
    if i >= entries.len() {
        Vec::new()
    } else {
        let mut r = crate::text::str_chars(entries[i].key.as_str());
        r.push(':');
        r.push(' ');
        let mut val = render_json(&entries[i].val);
        r.append(&mut val);
        if i + 1 < entries.len() {
            r.push(',');
            r.push(' ');
            let mut rest = collapse_entries(entries, i + 1);
            r.append(&mut rest);
        }
        assert(r@ =~= spec_collapse_entries(entries@, i as int));
        r
    }
}

impl DocValue {
    /// The canonical one-string form of this value, as persisted with an
    /// entitlement.
    pub fn collapse_to_string(&self) -> (s: String)
        ensures
            s@ == spec_collapse(*self),
    {
        let chars: Vec<char> = match self {
            DocValue::Str(s) => crate::text::str_chars(s.as_str()),
            DocValue::Bool(b) => if *b {
                crate::text::str_chars("true")
            } else {
                crate::text::str_chars("false")
            },
            DocValue::Num(s) => crate::text::str_chars(s.as_str()),
            DocValue::List(items) => collapse_items(items, 0),
            DocValue::Dict(entries) => collapse_entries(entries, 0),
            DocValue::Null => crate::text::str_chars("!!! Not handled !!!"),
        };
        crate::text::chars_to_string(&chars)
    }

    /// The string form an endpoint value is stored in: a string stands as
    /// itself, a boolean or a number as its text; any other shape is
    /// stored as the empty string.
    pub open spec fn spec_endpoint_string(self) -> Seq<char> {
        match self {
            DocValue::Str(s) => s@,
            DocValue::Bool(b) => if b {
                "true"@
            } else {
                "false"@
            },
            DocValue::Num(s) => s@,
            _ => Seq::empty(),
        }
    }

    /// The string form of a declared endpoint value.
    pub fn endpoint_to_string(&self) -> (s: String)
        ensures
            s@ == self.spec_endpoint_string(),
    {
        match self {
            DocValue::Str(s) => s.clone(),
            DocValue::Bool(b) => if *b {
                crate::text::chars_to_string(&crate::text::str_chars("true"))
            } else {
                crate::text::chars_to_string(&crate::text::str_chars("false"))
            },
            DocValue::Num(s) => s.clone(),
            _ => crate::text::chars_to_string(&Vec::new()),
        }
    }
}

} // verus!
