//! JSON values as the shop and usage services send them, with the accessors
//! the logic reads them by and their compact text rendering.

use vstd::prelude::*;
use vstd::string::StringExecFns;
use crate::text::{decimal, push_decimal, push_signed_decimal, signed_decimal, str_eq};

verus! {

/// A JSON number: a non-negative integer, a negative integer, or any other
/// number held as its textual rendering.
#[derive(Debug)]
pub enum JsonNumber {
    PosInt(u64),
    NegInt(i64),
    Float(String),
}

/// A JSON value. Object entries keep the order in which the object lists
/// them.
#[derive(Debug)]
pub enum Json {
    Null,
    Bool(bool),
    Number(JsonNumber),
    String(String),
    Array(Vec<Json>),
    Object(Vec<(String, Json)>),
}

/// The value of the first entry called `key` of an object; `None` for a
/// missing key or a value that is not an object.
pub open spec fn json_get(j: Json, key: Seq<char>) -> Option<Json> {
    match j {
        Json::Object(entries) => entry_get(entries@, key),
        _ => None,
    }
}

/// The value of the first entry called `key`.
pub open spec fn entry_get(entries: Seq<(String, Json)>, key: Seq<char>) -> Option<Json>
    decreases entries.len(),
{
    if entries.len() == 0 {
        None
    } else if entries[0].0@ == key {
        Some(entries[0].1)
    } else {
        entry_get(entries.drop_first(), key)
    }
}

/// `j[key]`: the entry's value, or `null` when there is none.
pub open spec fn json_index(j: Json, key: Seq<char>) -> Json {
    match json_get(j, key) {
        Some(v) => v,
        None => Json::Null,
    }
}

/// The string a value holds, if it is a string.
pub open spec fn json_str(j: Json) -> Option<Seq<char>> {
    match j {
        Json::String(s) => Some(s@),
        _ => None,
    }
}

/// The value as a `u64`: only a non-negative integer has one.
pub open spec fn json_u64(j: Json) -> Option<u64> {
    match j {
        Json::Number(JsonNumber::PosInt(n)) => Some(n),
        _ => None,
    }
}

/// The value as an `i64`: an integer that fits.
pub open spec fn json_i64(j: Json) -> Option<i64> {
    match j {
        Json::Number(JsonNumber::PosInt(n)) => if n <= i64::MAX {
            Some(n as i64)
        } else {
            None
        },
        Json::Number(JsonNumber::NegInt(n)) => Some(n),
        _ => None,
    }
}

/// The value as a boolean, if it is one.
pub open spec fn json_bool(j: Json) -> Option<bool> {
    match j {
        Json::Bool(b) => Some(b),
        _ => None,
    }
}

proof fn lemma_entry_get_suffix(entries: Seq<(String, Json)>, key: Seq<char>, i: int)
    requires
        0 <= i <= entries.len(),
        forall|j: int| 0 <= j < i ==> entries[j].0@ != key,
    ensures
        entry_get(entries, key) == entry_get(entries.subrange(i, entries.len() as int), key),
    decreases i,
{
    if i > 0 {
        lemma_entry_get_suffix(entries.drop_first(), key, i - 1);
        assert(entries.drop_first().subrange(i - 1, entries.len() - 1) =~= entries.subrange(
            i,
            entries.len() as int,
        ));
    } else {
        assert(entries.subrange(0, entries.len() as int) =~= entries);
    }
}

impl Json {
    /// The value of entry `key` of an object (see [`json_get`]).
    pub fn get(&self, key: &str) -> (r: Option<&Json>)
        ensures
            match r {
                Some(v) => json_get(*self, key@) == Some(*v),
                None => json_get(*self, key@) is None,
            },
    {
        match self {
            Json::Object(entries) => {
                let n = entries.len();
                let mut i: usize = 0;
                while i < n
                    invariant
                        n == entries@.len(),
                        json_get(*self, key@) == entry_get(entries@, key@),
                        i <= n,
                        forall|j: int| 0 <= j < i ==> entries@[j].0@ != key@,
                    decreases n - i,
                {
                    if str_eq(entries[i].0.as_str(), key) {
                        proof {
                            lemma_entry_get_suffix(entries@, key@, i as int);
                            assert(entries@.subrange(i as int, n as int)[0] == entries@[i as int]);
                        }
                        return Some(&entries[i].1);
                    }
                    i = i + 1;
                }
                proof {
                    lemma_entry_get_suffix(entries@, key@, n as int);
                }
                None
            },
            _ => None,
        }
    }

    /// The string this value holds, if it is a string.
    pub fn as_str(&self) -> (r: Option<&str>)
        ensures
            match r {
                Some(s) => json_str(*self) == Some(s@),
                None => json_str(*self) is None,
            },
    {
        match self {
            Json::String(s) => Some(s.as_str()),
            _ => None,
        }
    }

    /// This value as a `u64` (see [`json_u64`]).
    pub fn as_u64(&self) -> (r: Option<u64>)
        ensures
            r == json_u64(*self),
    {
        match self {
            Json::Number(JsonNumber::PosInt(n)) => Some(*n),
            _ => None,
        }
    }

    /// This value as an `i64` (see [`json_i64`]).
    pub fn as_i64(&self) -> (r: Option<i64>)
        ensures
            r == json_i64(*self),
    {
        match self {
            Json::Number(JsonNumber::PosInt(n)) => if *n <= 9223372036854775807u64 {
                Some(*n as i64)
            } else {
                None
            },
            Json::Number(JsonNumber::NegInt(n)) => Some(*n),
            _ => None,
        }
    }

    /// This value as a boolean, if it is one.
    pub fn as_bool(&self) -> (r: Option<bool>)
        ensures
            r == json_bool(*self),
    {
        match self {
            Json::Bool(b) => Some(*b),
            _ => None,
        }
    }

    /// The elements of an array.
    pub fn as_array(&self) -> (r: Option<&Vec<Json>>)
        ensures
            match *self {
                Json::Array(items) => r == Some(&items),
                _ => r is None,
            },
    {
        match self {
            Json::Array(items) => Some(items),
            _ => None,
        }
    }

    /// Whether this value is an object.
    pub fn is_object(&self) -> (r: bool)
        ensures
            r == (*self is Object),
    {
        match self {
            Json::Object(_) => true,
            _ => false,
        }
    }
}

/// Lower-case hexadecimal digit for a value below 16.
pub open spec fn hex_digit_lower(d: nat) -> char {
    if d < 10 {
        ((d + 0x30) as u8) as char
    } else {
        ((d + 0x57) as u8) as char
    }
}

/// How one character appears inside a JSON string: quote and backslash are
/// escaped, the control characters with a short escape use it, the other
/// control characters are `\u00XX`, and everything else is itself.
pub open spec fn escape_char(c: char) -> Seq<char> {
    if c == '"' {
        seq!['\\', '"']
    } else if c == '\\' {
        seq!['\\', '\\']
    } else if c == '\x08' {
        seq!['\\', 'b']
    } else if c == '\x0c' {
        seq!['\\', 'f']
    } else if c == '\n' {
        seq!['\\', 'n']
    } else if c == '\r' {
        seq!['\\', 'r']
    } else if c == '\t' {
        seq!['\\', 't']
    } else if (c as u32) < 0x20 {
        seq![
            '\\',
            'u',
            '0',
            '0',
            hex_digit_lower((c as u32 / 16) as nat),
            hex_digit_lower((c as u32 % 16) as nat),
        ]
    } else {
        seq![c]
    }
}

/// The escaped form of a character sequence.
pub open spec fn escape_chars(s: Seq<char>) -> Seq<char>
    decreases s.len(),
{
    if s.len() == 0 {
        Seq::empty()
    } else {
        escape_chars(s.drop_last()) + escape_char(s.last())
    }
}

/// A JSON string literal for `s`.
pub open spec fn quoted(s: Seq<char>) -> Seq<char> {
    seq!['"'] + escape_chars(s) + seq!['"']
}

/// The text of a number.
pub open spec fn render_number(n: JsonNumber) -> Seq<char> {
    match n {
        JsonNumber::PosInt(u) => decimal(u as nat),
        JsonNumber::NegInt(i) => signed_decimal(i as int),
        JsonNumber::Float(t) => t@,
    }
}

/// Compact JSON text of a value: no whitespace, object entries in their
/// order.
pub open spec fn render(j: Json) -> Seq<char>
    decreases j,
{
    match j {
        Json::Null => "null"@,
        Json::Bool(b) => if b {
            "true"@
        } else {
            "false"@
        },
        Json::Number(n) => render_number(n),
        Json::String(s) => quoted(s@),
        Json::Array(items) => seq!['['] + render_items(items@) + seq![']'],
        Json::Object(entries) => seq!['{'] + render_entries(entries@) + seq!['}'],
    }
}

/// Array elements, comma-separated.
pub open spec fn render_items(items: Seq<Json>) -> Seq<char>
    decreases items,
{
    if items.len() == 0 {
        Seq::empty()
    } else if items.len() == 1 {
        render(items[0])
    } else {
        render_items(items.drop_last()) + seq![','] + render(items.last())
    }
}

/// Object entries as `"key":value`, comma-separated.
pub open spec fn render_entries(entries: Seq<(String, Json)>) -> Seq<char>
    decreases entries,
{
    if entries.len() == 0 {
        Seq::empty()
    } else if entries.len() == 1 {
        quoted(entries[0].0@) + seq![':'] + render(entries[0].1)
    } else {
        render_entries(entries.drop_last()) + seq![','] + quoted(entries.last().0@) + seq![':']
            + render(entries.last().1)
    }
}

fn push_hex_lower(out: &mut String, d: u32)
    requires
        d < 16,
    ensures
        final(out)@ == old(out)@.push(hex_digit_lower(d as nat)),
{
    if d < 10 {
        out.push(((d as u8) + 0x30) as char);
    } else {
        out.push(((d as u8) + 0x57) as char);
    }
}

/// Appends `s` as a JSON string literal.
pub fn push_quoted(out: &mut String, s: &str)
    ensures
        final(out)@ == old(out)@ + quoted(s@),
{
    let ghost start = out@;
    out.push('"');
    let n = s.unicode_len();
    let mut i: usize = 0;
    while i < n
        invariant
            n == s@.len(),
            i <= n,
            out@ == start + seq!['"'] + escape_chars(s@.subrange(0, i as int)),
        decreases n - i,
    {
        let c = s.get_char(i);
        proof {
            assert(s@.subrange(0, i + 1).drop_last() =~= s@.subrange(0, i as int));
        }
        if c == '"' {
            out.push('\\');
            out.push('"');
        } else if c == '\\' {
            out.push('\\');
            out.push('\\');
        } else if c == '\x08' {
            out.push('\\');
            out.push('b');
        } else if c == '\x0c' {
            out.push('\\');
            out.push('f');
        } else if c == '\n' {
            out.push('\\');
            out.push('n');
        } else if c == '\r' {
            out.push('\\');
            out.push('r');
        } else if c == '\t' {
            out.push('\\');
            out.push('t');
        } else if (c as u32) < 0x20 {
            out.push('\\');
            out.push('u');
            out.push('0');
            out.push('0');
            push_hex_lower(out, (c as u32) / 16);
            push_hex_lower(out, (c as u32) % 16);
        } else {
            out.push(c);
        }
        i = i + 1;
        assert(out@ =~= start + seq!['"'] + escape_chars(s@.subrange(0, i as int)));
    }
    assert(s@.subrange(0, n as int) =~= s@);
    out.push('"');
    assert(out@ =~= start + quoted(s@));
}

impl Json {
    /// Appends the compact JSON text of this value (see [`render`]).
    pub fn render_into(&self, out: &mut String)
        ensures
            final(out)@ == old(out)@ + render(*self),
        decreases self,
    {
        match self {
            Json::Null => out.append("null"),
            Json::Bool(b) => if *b {
                out.append("true")
            } else {
                out.append("false")
            },
            Json::Number(JsonNumber::PosInt(u)) => push_decimal(out, *u),
            Json::Number(JsonNumber::NegInt(i)) => push_signed_decimal(out, *i),
            Json::Number(JsonNumber::Float(t)) => out.append(t.as_str()),
            Json::String(s) => push_quoted(out, s.as_str()),
            Json::Array(items) => {
                let ghost start = out@;
                out.push('[');
                let n = items.len();
                let mut i: usize = 0;
                while i < n
                    invariant
                        n == items@.len(),
                        *self == Json::Array(*items),
                        i <= n,
                        out@ == start + seq!['['] + render_items(items@.subrange(0, i as int)),
                    decreases n - i,
                {
                    proof {
                        assert(items@.subrange(0, i + 1).drop_last() =~= items@.subrange(0, i as int));
                        assert(decreases_to!(*self => (*self)->Array_0));
                        assert(decreases_to!(*items => items@));
                        assert(decreases_to!(items@ => items@[i as int]));
                        assert(decreases_to!(*self => items@[i as int]));
                    }
                    if i > 0 {
                        out.push(',');
                    }
                    items[i].render_into(out);
                    i = i + 1;
                    assert(out@ =~= start + seq!['['] + render_items(items@.subrange(0, i as int)));
                }
                assert(items@.subrange(0, n as int) =~= items@);
                out.push(']');
                assert(out@ =~= start + render(*self));
            },
            Json::Object(entries) => {
                let ghost start = out@;
                out.push('{');
                let n = entries.len();
                let mut i: usize = 0;
                while i < n
                    invariant
                        n == entries@.len(),
                        *self == Json::Object(*entries),
                        i <= n,
                        out@ == start + seq!['{'] + render_entries(entries@.subrange(0, i as int)),
                    decreases n - i,
                {
                    proof {
                        assert(entries@.subrange(0, i + 1).drop_last() =~= entries@.subrange(0, i as int));
                        assert(decreases_to!(*self => (*self)->Object_0));
                        assert(decreases_to!(*entries => entries@));
                        assert(decreases_to!(entries@ => entries@[i as int]));
                        assert(decreases_to!(entries@[i as int] => entries@[i as int].1));
                        assert(decreases_to!(*self => entries@[i as int].1));
                    }
                    if i > 0 {
                        out.push(',');
                    }
                    push_quoted(out, entries[i].0.as_str());
                    out.push(':');
                    entries[i].1.render_into(out);
                    i = i + 1;
                    assert(out@ =~= start + seq!['{'] + render_entries(entries@.subrange(0, i as int)));
                }
                assert(entries@.subrange(0, n as int) =~= entries@);
                out.push('}');
                assert(out@ =~= start + render(*self));
            },
        }
    }

    /// The compact JSON text of this value.
    pub fn render(&self) -> (r: String)
        ensures
            r@ == render(*self),
    {
        let mut out = String::new();
        self.render_into(&mut out);
        assert(out@ =~= render(*self));
        out
    }
}

} // verus!
