use vstd::prelude::*;

use vstd::utf8::encode_utf8;
use vstd::string::StringSliceAdditionalSpecFns;

use crate::text::str_eq;

verus! {

broadcast use vstd::std_specs::vec::axiom_vec_index_decreases, vstd::std_specs::vec::axiom_vec_decreases_to_view;

/// The mathematical value of a JSON document: strings as character sequences, an object as its
/// entries in stored order (a parsed document stores them sorted by key and without repeats).
pub enum JsonV {
    Null,
    Bool(bool),
    /// A non-negative integer.
    UInt(u64),
    /// A negative integer.
    NegInt(i64),
    /// A non-integral number, held as its shortest round-trip decimal text.
    Float(Seq<char>),
    Str(Seq<char>),
    Array(Seq<JsonV>),
    Object(Seq<(Seq<char>, JsonV)>),
}

/// A JSON document.
#[derive(Debug)]
pub enum Json {
    Null,
    Bool(bool),
    /// A non-negative integer.
    UInt(u64),
    /// A negative integer.
    NegInt(i64),
    /// A non-integral number, held as its shortest round-trip decimal text.
    Float(String),
    Str(String),
    Array(Vec<Json>),
    Object(Vec<(String, Json)>),
}

/// The value of a document.
pub open spec fn jv(j: Json) -> JsonV
    decreases j, 0nat,
{
    match j {
        Json::Null => JsonV::Null,
        Json::Bool(b) => JsonV::Bool(b),
        Json::UInt(n) => JsonV::UInt(n),
        Json::NegInt(n) => JsonV::NegInt(n),
        Json::Float(t) => JsonV::Float(t@),
        Json::Str(s) => JsonV::Str(s@),
        Json::Array(items) => JsonV::Array(jv_items(items@, items@.len())),
        Json::Object(entries) => JsonV::Object(jv_entries(entries@, entries@.len())),
    }
}

/// The values of the first `n` items.
pub open spec fn jv_items(items: Seq<Json>, n: nat) -> Seq<JsonV>
    decreases items, n,
{
    if n == 0 || n > items.len() {
        Seq::empty()
    } else {
        jv_items(items, (n - 1) as nat).push(jv(items[n - 1]))
    }
}

/// The values of the first `n` entries.
pub open spec fn jv_entries(entries: Seq<(String, Json)>, n: nat) -> Seq<(Seq<char>, JsonV)>
    decreases entries, n,
{
    if n == 0 || n > entries.len() {
        Seq::empty()
    } else {
        jv_entries(entries, (n - 1) as nat).push((entries[n - 1].0@, jv(entries[n - 1].1)))
    }
}

impl View for Json {
    type V = JsonV;

    open spec fn view(&self) -> JsonV {
        jv(*self)
    }
}

/// The values of a vector of documents.
pub open spec fn items_view(items: Seq<Json>) -> Seq<JsonV> {
    jv_items(items, items.len())
}

/// The values of a vector of object entries.
pub open spec fn entries_view(entries: Seq<(String, Json)>) -> Seq<(Seq<char>, JsonV)> {
    jv_entries(entries, entries.len())
}

pub proof fn lemma_items(items: Seq<Json>, n: nat)
    requires
        n <= items.len(),
    ensures
        jv_items(items, n).len() == n,
        forall|i: int| 0 <= i < n ==> #[trigger] jv_items(items, n)[i] == jv(items[i]),
    decreases n,
{
    if n > 0 {
        lemma_items(items, (n - 1) as nat);
    }
}

pub proof fn lemma_entries(entries: Seq<(String, Json)>, n: nat)
    requires
        n <= entries.len(),
    ensures
        jv_entries(entries, n).len() == n,
        forall|i: int| 0 <= i < n ==> #[trigger] jv_entries(entries, n)[i] == (entries[i].0@, jv(entries[i].1)),
    decreases n,
{
    if n > 0 {
        lemma_entries(entries, (n - 1) as nat);
    }
}

pub proof fn lemma_items_push(items: Seq<Json>, x: Json)
    ensures
        items_view(items.push(x)) == items_view(items).push(jv(x)),
{
    lemma_items(items, items.len());
    lemma_items(items.push(x), items.len() + 1);
    assert(items_view(items.push(x)) =~= items_view(items).push(jv(x)));
}

/// The value of the first entry with the given key.
pub open spec fn find(entries: Seq<(Seq<char>, JsonV)>, key: Seq<char>) -> Option<JsonV>
    decreases entries.len(),
{
    if entries.len() == 0 {
        None
    } else if entries[0].0 == key {
        Some(entries[0].1)
    } else {
        find(entries.drop_first(), key)
    }
}

/// The value under `key` in an object, as `Value::get` returns it.
pub open spec fn get(v: JsonV, key: Seq<char>) -> Option<JsonV> {
    match v {
        JsonV::Object(entries) => find(entries, key),
        _ => None,
    }
}

/// The value under `key`, or null when there is none, as `value[key]` reads it.
pub open spec fn at(v: JsonV, key: Seq<char>) -> JsonV {
    match get(v, key) {
        Some(x) => x,
        None => JsonV::Null,
    }
}

/// Whether some entry has the given key.
pub open spec fn has_key(entries: Seq<(Seq<char>, JsonV)>, key: Seq<char>) -> bool {
    exists|i: int| 0 <= i < entries.len() && (#[trigger] entries[i]).0 == key
}

pub proof fn lemma_find(entries: Seq<(Seq<char>, JsonV)>, key: Seq<char>)
    ensures
        find(entries, key) is Some <==> has_key(entries, key),
        find(entries, key) matches Some(v) ==> exists|i: int| 0 <= i < entries.len()
            && (#[trigger] entries[i]).0 == key && entries[i].1 == v
            && forall|j: int| 0 <= j < i ==> entries[j].0 != key,
    decreases entries.len(),
{
    if entries.len() > 0 {
        lemma_find(entries.drop_first(), key);
        if entries[0].0 != key {
            if has_key(entries, key) {
                let i = choose|i: int| 0 <= i < entries.len() && (#[trigger] entries[i]).0 == key;
                assert(entries.drop_first()[i - 1].0 == key);
            }
            if has_key(entries.drop_first(), key) {
                let i = choose|i: int| 0 <= i < entries.drop_first().len() && (#[trigger] entries.drop_first()[i]).0 == key;
                assert(entries[i + 1].0 == key);
            }
            if find(entries, key) is Some {
                let v = find(entries, key)->0;
                let i = choose|i: int| 0 <= i < entries.drop_first().len()
                    && (#[trigger] entries.drop_first()[i]).0 == key && entries.drop_first()[i].1 == v
                    && forall|j: int| 0 <= j < i ==> entries.drop_first()[j].0 != key;
                assert(entries[i + 1].0 == key);
                assert forall|j: int| 0 <= j < i + 1 implies entries[j].0 != key by {
                    if j > 0 {
                        assert(entries.drop_first()[j - 1] == entries[j]);
                    }
                }
            }
        } else {
            assert(entries[0].0 == key);
        }
    }
}

/// `find` over the suffix after entries that do not carry the key.
pub proof fn lemma_find_skip(entries: Seq<(Seq<char>, JsonV)>, key: Seq<char>, i: int)
    requires
        0 <= i <= entries.len(),
        forall|j: int| 0 <= j < i ==> entries[j].0 != key,
    ensures
        find(entries, key) == find(entries.skip(i), key),
    decreases i,
{
    if i > 0 {
        assert(entries[0].0 != key);
        lemma_find_skip(entries.drop_first(), key, i - 1);
        assert(entries.drop_first().skip(i - 1) == entries.skip(i));
    } else {
        assert(entries.skip(0) == entries);
    }
}

impl Json {
    /// The value under `key`, when this is an object that has one.
    pub fn get<'a>(&'a self, key: &str) -> (r: Option<&'a Json>)
        ensures
            r matches Some(v) ==> get(self@, key@) == Some(v@),
            r is None ==> get(self@, key@) is None,
    {
        match self {
            Json::Object(entries) => {
                let ghost values = entries_view(entries@);
                proof {
                    lemma_entries(entries@, entries@.len());
                    assert(self@ == JsonV::Object(values));
                }
                let mut i: usize = 0;
                while i < entries.len()
                    invariant
                        i <= entries@.len(),
                        values == entries_view(entries@),
                        self@ == JsonV::Object(values),
                        values.len() == entries@.len(),
                        forall|k: int| 0 <= k < entries@.len() ==> #[trigger] values[k] == (entries@[k].0@, jv(entries@[k].1)),
                        forall|j: int| 0 <= j < i ==> values[j].0 != key@,
                    decreases entries@.len() - i,
                {
                    if str_eq(entries[i].0.as_str(), key) {
                        proof {
                            lemma_find_skip(values, key@, i as int);
                            assert(values.skip(i as int)[0] == values[i as int]);
                        }
                        return Some(&entries[i].1);
                    }
                    i = i + 1;
                }
                proof {
                    lemma_find_skip(values, key@, i as int);
                    assert(values.skip(i as int).len() == 0);
                }
                None
            },
            _ => None,
        }
    }

    /// The text of a string value.
    pub fn as_str(&self) -> (r: Option<&str>)
        ensures
            r matches Some(s) ==> self@ == JsonV::Str(s@),
            r is None ==> !(self@ is Str),
    {
        match self {
            Json::Str(s) => Some(s.as_str()),
            _ => None,
        }
    }

    /// The value of a non-negative integer.
    pub fn as_u64(&self) -> (r: Option<u64>)
        ensures
            r matches Some(n) ==> self@ == JsonV::UInt(n),
            r is None ==> !(self@ is UInt),
    {
        match self {
            Json::UInt(n) => Some(*n),
            _ => None,
        }
    }

    /// The value of a Boolean.
    pub fn as_bool(&self) -> (r: Option<bool>)
        ensures
            r matches Some(b) ==> self@ == JsonV::Bool(b),
            r is None ==> !(self@ is Bool),
    {
        match self {
            Json::Bool(b) => Some(*b),
            _ => None,
        }
    }

    /// Whether this is null.
    pub fn is_null(&self) -> (r: bool)
        ensures
            r == (self@ is Null),
    {
        match self {
            Json::Null => true,
            _ => false,
        }
    }

    /// The items of an array.
    pub fn as_array(&self) -> (r: Option<&Vec<Json>>)
        ensures
            r matches Some(items) ==> self@ == JsonV::Array(items_view(items@)),
            r is None ==> !(self@ is Array),
    {
        match self {
            Json::Array(items) => Some(items),
            _ => None,
        }
    }

    /// The entries of an object.
    pub fn as_object(&self) -> (r: Option<&Vec<(String, Json)>>)
        ensures
            r matches Some(entries) ==> self@ == JsonV::Object(entries_view(entries@)),
            r is None ==> !(self@ is Object),
    {
        match self {
            Json::Object(entries) => Some(entries),
            _ => None,
        }
    }
}


/// The lowercase hexadecimal digit byte for a value below sixteen.
pub open spec fn hex_digit_byte(v: nat) -> u8 {
    if v < 10 { (48 + v) as u8 } else { (87 + v) as u8 }
}

/// How `serde_json` writes one byte of a string's UTF-8 encoding.
pub open spec fn escape_byte(b: u8) -> Seq<u8> {
    if b == 0x22 {
        seq![0x5cu8, 0x22u8]
    } else if b == 0x5c {
        seq![0x5cu8, 0x5cu8]
    } else if b == 0x08 {
        seq![0x5cu8, 0x62u8]
    } else if b == 0x09 {
        seq![0x5cu8, 0x74u8]
    } else if b == 0x0a {
        seq![0x5cu8, 0x6eu8]
    } else if b == 0x0c {
        seq![0x5cu8, 0x66u8]
    } else if b == 0x0d {
        seq![0x5cu8, 0x72u8]
    } else if b < 0x20 {
        seq![0x5cu8, 0x75u8, 0x30u8, 0x30u8, hex_digit_byte(b as nat / 16), hex_digit_byte(b as nat % 16)]
    } else {
        seq![b]
    }
}

/// The escaped form of a string's bytes.
pub open spec fn escape_bytes(s: Seq<u8>) -> Seq<u8>
    decreases s.len(),
{
    if s.len() == 0 {
        Seq::empty()
    } else {
        escape_bytes(s.drop_last()) + escape_byte(s.last())
    }
}

/// A JSON string literal.
pub open spec fn encode_string(s: Seq<char>) -> Seq<u8> {
    seq![0x22u8] + escape_bytes(encode_utf8(s)) + seq![0x22u8]
}

/// The ASCII bytes of the shortest decimal text of `n`.
pub open spec fn decimal_bytes(n: nat) -> Seq<u8>
    decreases n,
{
    if n < 10 {
        seq![(48 + n) as u8]
    } else {
        decimal_bytes(n / 10).push((48 + n % 10) as u8)
    }
}

/// The compact encoding of a value, as `serde_json::to_vec` writes it.
pub open spec fn encode(v: JsonV) -> Seq<u8>
    decreases v, 0nat,
{
    match v {
        JsonV::Null => seq![0x6eu8, 0x75u8, 0x6cu8, 0x6cu8],
        JsonV::Bool(b) => if b {
            seq![0x74u8, 0x72u8, 0x75u8, 0x65u8]
        } else {
            seq![0x66u8, 0x61u8, 0x6cu8, 0x73u8, 0x65u8]
        },
        JsonV::UInt(n) => decimal_bytes(n as nat),
        JsonV::NegInt(n) => if n < 0 {
            seq![0x2du8] + decimal_bytes((-n) as nat)
        } else {
            decimal_bytes(n as nat)
        },
        JsonV::Float(t) => encode_utf8(t),
        JsonV::Str(s) => encode_string(s),
        JsonV::Array(items) => seq![0x5bu8] + encode_items(items, items.len()) + seq![0x5du8],
        JsonV::Object(entries) => seq![0x7bu8] + encode_entries(entries, entries.len()) + seq![0x7du8],
    }
}

/// The comma-separated encodings of the first `n` items.
pub open spec fn encode_items(items: Seq<JsonV>, n: nat) -> Seq<u8>
    decreases items, n,
{
    if n == 0 || n > items.len() {
        Seq::empty()
    } else if n == 1 {
        encode(items[0])
    } else {
        encode_items(items, (n - 1) as nat) + seq![0x2cu8] + encode(items[n - 1])
    }
}

/// The comma-separated `"key":value` encodings of the first `n` entries.
pub open spec fn encode_entries(entries: Seq<(Seq<char>, JsonV)>, n: nat) -> Seq<u8>
    decreases entries, n,
{
    if n == 0 || n > entries.len() {
        Seq::empty()
    } else if n == 1 {
        encode_string(entries[0].0) + seq![0x3au8] + encode(entries[0].1)
    } else {
        encode_entries(entries, (n - 1) as nat) + seq![0x2cu8] + encode_string(entries[n - 1].0)
            + seq![0x3au8] + encode(entries[n - 1].1)
    }
}

fn hex_digit_exec(v: u8) -> (b: u8)
    requires
        v < 16,
    ensures
        b == hex_digit_byte(v as nat),
{
    if v < 10 { v + 48 } else { v + 87 }
}

fn write_escaped_byte(b: u8, out: &mut Vec<u8>)
    ensures
        final(out)@ == old(out)@ + escape_byte(b),
{
    let ghost start = out@;
    if b == 0x22 {
        out.push(0x5c);
        out.push(0x22);
    } else if b == 0x5c {
        out.push(0x5c);
        out.push(0x5c);
    } else if b == 0x08 {
        out.push(0x5c);
        out.push(0x62);
    } else if b == 0x09 {
        out.push(0x5c);
        out.push(0x74);
    } else if b == 0x0a {
        out.push(0x5c);
        out.push(0x6e);
    } else if b == 0x0c {
        out.push(0x5c);
        out.push(0x66);
    } else if b == 0x0d {
        out.push(0x5c);
        out.push(0x72);
    } else if b < 0x20 {
        out.push(0x5c);
        out.push(0x75);
        out.push(0x30);
        out.push(0x30);
        out.push(hex_digit_exec(b / 16));
        out.push(hex_digit_exec(b % 16));
    } else {
        out.push(b);
    }
    proof {
        assert(out@ =~= start + escape_byte(b));
    }
}

/// Writes a JSON string literal.
pub fn write_string(s: &str, out: &mut Vec<u8>)
    ensures
        final(out)@ == old(out)@ + encode_string(s@),
{
    let ghost start = out@;
    let bytes = s.as_bytes();
    out.push(0x22);
    let mut i: usize = 0;
    while i < bytes.len()
        invariant
            i <= bytes@.len(),
            bytes@ == encode_utf8(s@),
            out@ == start + seq![0x22u8] + escape_bytes(bytes@.take(i as int)),
        decreases bytes@.len() - i,
    {
        proof {
            assert(bytes@.take(i + 1).drop_last() == bytes@.take(i as int));
        }
        write_escaped_byte(bytes[i], out);
        i = i + 1;
    }
    proof {
        assert(bytes@.take(bytes@.len() as int) == bytes@);
    }
    out.push(0x22);
    proof {
        assert(out@ =~= start + encode_string(s@));
    }
}

/// Writes the decimal digits of `n`.
pub fn write_decimal(n: u64, out: &mut Vec<u8>)
    ensures
        final(out)@ == old(out)@ + decimal_bytes(n as nat),
    decreases n,
{
    let ghost start = out@;
    if n >= 10 {
        write_decimal(n / 10, out);
    }
    out.push((n % 10) as u8 + 48);
    proof {
        assert(out@ =~= start + decimal_bytes(n as nat));
    }
}

fn write_bytes(bytes: &[u8], out: &mut Vec<u8>)
    ensures
        final(out)@ == old(out)@ + bytes@,
{
    let ghost start = out@;
    let mut i: usize = 0;
    while i < bytes.len()
        invariant
            i <= bytes@.len(),
            out@ == start + bytes@.take(i as int),
        decreases bytes@.len() - i,
    {
        out.push(bytes[i]);
        proof {
            assert(bytes@.take(i + 1) == bytes@.take(i as int).push(bytes@[i as int]));
        }
        i = i + 1;
    }
    proof {
        assert(bytes@.take(bytes@.len() as int) == bytes@);
    }
}

/// Writes the compact encoding of `j`.
pub fn write_json(j: &Json, out: &mut Vec<u8>)
    ensures
        final(out)@ == old(out)@ + encode(j@),
    decreases j,
{
    let ghost start = out@;
    match j {
        Json::Null => {
            out.push(0x6e);
            out.push(0x75);
            out.push(0x6c);
            out.push(0x6c);
        },
        Json::Bool(b) => {
            if *b {
                out.push(0x74);
                out.push(0x72);
                out.push(0x75);
                out.push(0x65);
            } else {
                out.push(0x66);
                out.push(0x61);
                out.push(0x6c);
                out.push(0x73);
                out.push(0x65);
            }
        },
        Json::UInt(n) => {
            write_decimal(*n, out);
        },
        Json::NegInt(n) => {
            if *n < 0 {
                out.push(0x2d);
                let magnitude: u64 = if *n == i64::MIN { 9223372036854775808u64 } else { (-*n) as u64 };
                write_decimal(magnitude, out);
            } else {
                write_decimal(*n as u64, out);
            }
        },
        Json::Float(t) => {
            write_bytes(t.as_str().as_bytes(), out);
        },
        Json::Str(s) => {
            write_string(s.as_str(), out);
        },
        Json::Array(items) => {
            let ghost values = items_view(items@);
            proof {
                lemma_items(items@, items@.len());
            }
            out.push(0x5b);
            let mut i: usize = 0;
            while i < items.len()
                invariant
                    i <= items@.len(),
                    values == items_view(items@),
                    *j == Json::Array(*items),
                    values.len() == items@.len(),
                    forall|k: int| 0 <= k < items@.len() ==> #[trigger] values[k] == jv(items@[k]),
                    out@ == start + seq![0x5bu8] + encode_items(values, i as nat),
                decreases items@.len() - i,
            {
                let ghost before = out@;
                if i > 0 {
                    out.push(0x2c);
                }
                proof {
                    assert(decreases_to!(*j => (*j)->Array_0));
                    assert(decreases_to!(*items => items[i as int]));
                    assert(decreases_to!(*j => items@[i as int]));
                }
                write_json(&items[i], out);
                proof {
                    if i > 0 {
                        assert(out@ =~= before + seq![0x2cu8] + encode(values[i as int]));
                    } else {
                        assert(out@ =~= before + encode(values[i as int]));
                    }
                }
                i = i + 1;
            }
            out.push(0x5d);
            proof {
                assert(values == jv_items(items@, items@.len()));
            }
        },
        Json::Object(entries) => {
            let ghost values = entries_view(entries@);
            proof {
                lemma_entries(entries@, entries@.len());
            }
            out.push(0x7b);
            let mut i: usize = 0;
            while i < entries.len()
                invariant
                    i <= entries@.len(),
                    values == entries_view(entries@),
                    *j == Json::Object(*entries),
                    values.len() == entries@.len(),
                    forall|k: int| 0 <= k < entries@.len() ==> #[trigger] values[k] == (entries@[k].0@, jv(entries@[k].1)),
                    out@ == start + seq![0x7bu8] + encode_entries(values, i as nat),
                decreases entries@.len() - i,
            {
                let ghost before = out@;
                if i > 0 {
                    out.push(0x2c);
                }
                write_string(entries[i].0.as_str(), out);
                out.push(0x3a);
                proof {
                    assert(decreases_to!(*j => (*j)->Object_0));
                    assert(decreases_to!(*entries => entries[i as int]));
                    assert(decreases_to!(entries[i as int] => entries[i as int].1));
                    assert(decreases_to!(*j => entries@[i as int].1));
                }
                write_json(&entries[i].1, out);
                proof {
                    if i > 0 {
                        assert(out@ =~= before + seq![0x2cu8] + encode_string(values[i as int].0) + seq![0x3au8]
                            + encode(values[i as int].1));
                    } else {
                        assert(out@ =~= before + encode_string(values[i as int].0) + seq![0x3au8]
                            + encode(values[i as int].1));
                    }
                }
                i = i + 1;
            }
            out.push(0x7d);
            proof {
                assert(values == jv_entries(entries@, entries@.len()));
            }
        },
    }
    proof {
        assert(out@ =~= start + encode(j@));
    }
}

/// The compact encoding of `j`, as `serde_json::to_vec` produces it.
pub fn to_bytes(j: &Json) -> (bytes: Vec<u8>)
    ensures
        bytes@ == encode(j@),
{
    let mut out: Vec<u8> = Vec::new();
    write_json(j, &mut out);
    proof {
        assert(out@ =~= encode(j@));
    }
    out
}

/// A copy of a document with the same value.
pub fn clone_json(j: &Json) -> (r: Json)
    ensures
        r@ == j@,
    decreases j,
{
    match j {
        Json::Null => Json::Null,
        Json::Bool(b) => Json::Bool(*b),
        Json::UInt(n) => Json::UInt(*n),
        Json::NegInt(n) => Json::NegInt(*n),
        Json::Float(t) => Json::Float(t.as_str().to_owned()),
        Json::Str(s) => Json::Str(s.as_str().to_owned()),
        Json::Array(items) => {
            let mut out: Vec<Json> = Vec::new();
            let mut i: usize = 0;
            while i < items.len()
                invariant
                    i <= items@.len(),
                    *j == Json::Array(*items),
                    out@.len() == i,
                    forall|k: int| 0 <= k < i ==> #[trigger] jv(out@[k]) == jv(items@[k]),
                decreases items@.len() - i,
            {
                proof {
                    assert(decreases_to!(*j => (*j)->Array_0));
                    assert(decreases_to!(*items => items[i as int]));
                    assert(decreases_to!(*j => items@[i as int]));
                }
                let c = clone_json(&items[i]);
                out.push(c);
                i = i + 1;
            }
            proof {
                lemma_items(items@, items@.len());
                lemma_items(out@, out@.len());
                assert(jv_items(out@, out@.len()) =~= jv_items(items@, items@.len()));
            }
            Json::Array(out)
        },
        Json::Object(entries) => {
            let mut out: Vec<(String, Json)> = Vec::new();
            let mut i: usize = 0;
            while i < entries.len()
                invariant
                    i <= entries@.len(),
                    *j == Json::Object(*entries),
                    out@.len() == i,
                    forall|k: int| 0 <= k < i ==> #[trigger] out@[k].0@ == entries@[k].0@
                        && jv(out@[k].1) == jv(entries@[k].1),
                decreases entries@.len() - i,
            {
                proof {
                    assert(decreases_to!(*j => (*j)->Object_0));
                    assert(decreases_to!(*entries => entries[i as int]));
                    assert(decreases_to!(entries[i as int] => entries[i as int].1));
                    assert(decreases_to!(*j => entries@[i as int].1));
                }
                let key = entries[i].0.as_str().to_owned();
                let c = clone_json(&entries[i].1);
                out.push((key, c));
                i = i + 1;
            }
            proof {
                lemma_entries(entries@, entries@.len());
                lemma_entries(out@, out@.len());
                assert(jv_entries(out@, out@.len()) =~= jv_entries(entries@, entries@.len()));
            }
            Json::Object(out)
        },
    }
}

/// The lowercase hexadecimal digit character for a value below sixteen.
pub open spec fn hex_digit_char(v: nat) -> char {
    if v < 10 { (48 + v) as char } else { (87 + v) as char }
}

/// How `serde_json` writes one character of a string.
pub open spec fn escape_char(c: char) -> Seq<char> {
    if c == '"' {
        seq!['\\', '"']
    } else if c == '\\' {
        seq!['\\', '\\']
    } else if c == '\u{8}' {
        seq!['\\', 'b']
    } else if c == '\t' {
        seq!['\\', 't']
    } else if c == '\n' {
        seq!['\\', 'n']
    } else if c == '\u{c}' {
        seq!['\\', 'f']
    } else if c == '\r' {
        seq!['\\', 'r']
    } else if (c as u32) < 0x20 {
        seq!['\\', 'u', '0', '0', hex_digit_char(c as nat / 16), hex_digit_char(c as nat % 16)]
    } else {
        seq![c]
    }
}

/// The escaped characters of a string.
pub open spec fn escape_chars(s: Seq<char>) -> Seq<char>
    decreases s.len(),
{
    if s.len() == 0 {
        Seq::empty()
    } else {
        escape_chars(s.drop_last()) + escape_char(s.last())
    }
}

/// A JSON string literal as text.
pub open spec fn quoted(s: Seq<char>) -> Seq<char> {
    seq!['"'] + escape_chars(s) + seq!['"']
}

/// The compact JSON text of a value, as `serde_json::Value::to_string` writes it.
pub open spec fn text_of(v: JsonV) -> Seq<char>
    decreases v, 0nat,
{
    match v {
        JsonV::Null => "null"@,
        JsonV::Bool(b) => if b { "true"@ } else { "false"@ },
        JsonV::UInt(n) => crate::text::decimal(n as nat),
        JsonV::NegInt(n) => if n < 0 { seq!['-'] + crate::text::decimal((-n) as nat) } else { crate::text::decimal(n as nat) },
        JsonV::Float(t) => t,
        JsonV::Str(s) => quoted(s),
        JsonV::Array(items) => seq!['['] + text_items(items, items.len()) + seq![']'],
        JsonV::Object(entries) => seq!['{'] + text_entries(entries, entries.len()) + seq!['}'],
    }
}

/// The comma-separated texts of the first `n` items.
pub open spec fn text_items(items: Seq<JsonV>, n: nat) -> Seq<char>
    decreases items, n,
{
    if n == 0 || n > items.len() {
        Seq::empty()
    } else if n == 1 {
        text_of(items[0])
    } else {
        text_items(items, (n - 1) as nat) + seq![','] + text_of(items[n - 1])
    }
}

/// The comma-separated `"key":value` texts of the first `n` entries.
pub open spec fn text_entries(entries: Seq<(Seq<char>, JsonV)>, n: nat) -> Seq<char>
    decreases entries, n,
{
    if n == 0 || n > entries.len() {
        Seq::empty()
    } else if n == 1 {
        quoted(entries[0].0) + seq![':'] + text_of(entries[0].1)
    } else {
        text_entries(entries, (n - 1) as nat) + seq![','] + quoted(entries[n - 1].0) + seq![':'] + text_of(
            entries[n - 1].1,
        )
    }
}

fn hex_char_exec(v: u32) -> (c: char)
    requires
        v < 16,
    ensures
        c == hex_digit_char(v as nat),
{
    let b: u8 = if v < 10 { v as u8 + 48 } else { v as u8 + 87 };
    b as char
}

fn write_escaped_char(c: char, out: &mut String)
    ensures
        final(out)@ == old(out)@ + escape_char(c),
{
    let ghost start = out@;
    if c == '"' {
        crate::text::push_str(out, "\\\"");
    } else if c == '\\' {
        crate::text::push_str(out, "\\\\");
    } else if c == '\u{8}' {
        crate::text::push_str(out, "\\b");
    } else if c == '\t' {
        crate::text::push_str(out, "\\t");
    } else if c == '\n' {
        crate::text::push_str(out, "\\n");
    } else if c == '\u{c}' {
        crate::text::push_str(out, "\\f");
    } else if c == '\r' {
        crate::text::push_str(out, "\\r");
    } else if (c as u32) < 0x20 {
        crate::text::push_str(out, "\\u00");
        crate::text::push_char(out, hex_char_exec(c as u32 / 16));
        crate::text::push_char(out, hex_char_exec(c as u32 % 16));
    } else {
        crate::text::push_char(out, c);
    }
    proof {
        reveal_strlit("\\\"");
        reveal_strlit("\\\\");
        reveal_strlit("\\b");
        reveal_strlit("\\t");
        reveal_strlit("\\n");
        reveal_strlit("\\f");
        reveal_strlit("\\r");
        reveal_strlit("\\u00");
        assert(out@ =~= start + escape_char(c));
    }
}

/// Writes a JSON string literal as text.
pub fn write_quoted(s: &str, out: &mut String)
    ensures
        final(out)@ == old(out)@ + quoted(s@),
{
    let ghost start = out@;
    let chars = crate::text::chars_of(s);
    crate::text::push_char(out, '"');
    let mut i: usize = 0;
    while i < chars.len()
        invariant
            i <= chars@.len(),
            chars@ == s@,
            out@ == start + seq!['"'] + escape_chars(chars@.take(i as int)),
        decreases chars@.len() - i,
    {
        proof {
            assert(chars@.take(i + 1).drop_last() == chars@.take(i as int));
        }
        write_escaped_char(chars[i], out);
        i = i + 1;
    }
    proof {
        assert(chars@.take(chars@.len() as int) == chars@);
    }
    crate::text::push_char(out, '"');
    proof {
        assert(out@ =~= start + quoted(s@));
    }
}

/// Writes the compact JSON text of `j`.
pub fn write_text(j: &Json, out: &mut String)
    ensures
        final(out)@ == old(out)@ + text_of(j@),
    decreases j,
{
    let ghost start = out@;
    match j {
        Json::Null => {
            crate::text::push_str(out, "null");
        },
        Json::Bool(b) => {
            if *b {
                crate::text::push_str(out, "true");
            } else {
                crate::text::push_str(out, "false");
            }
        },
        Json::UInt(n) => {
            let t = crate::text::u64_text(*n);
            crate::text::push_str(out, t.as_str());
        },
        Json::NegInt(n) => {
            if *n < 0 {
                crate::text::push_char(out, '-');
                let magnitude: u64 = if *n == i64::MIN { 9223372036854775808u64 } else { (-*n) as u64 };
                let t = crate::text::u64_text(magnitude);
                crate::text::push_str(out, t.as_str());
            } else {
                let t = crate::text::u64_text(*n as u64);
                crate::text::push_str(out, t.as_str());
            }
        },
        Json::Float(t) => {
            crate::text::push_str(out, t.as_str());
        },
        Json::Str(s) => {
            write_quoted(s.as_str(), out);
        },
        Json::Array(items) => {
            let ghost values = items_view(items@);
            proof {
                lemma_items(items@, items@.len());
            }
            crate::text::push_char(out, '[');
            let mut i: usize = 0;
            while i < items.len()
                invariant
                    i <= items@.len(),
                    values == items_view(items@),
                    *j == Json::Array(*items),
                    values.len() == items@.len(),
                    forall|k: int| 0 <= k < items@.len() ==> #[trigger] values[k] == jv(items@[k]),
                    out@ == start + seq!['['] + text_items(values, i as nat),
                decreases items@.len() - i,
            {
                let ghost before = out@;
                if i > 0 {
                    crate::text::push_char(out, ',');
                }
                proof {
                    assert(decreases_to!(*j => (*j)->Array_0));
                    assert(decreases_to!(*items => items[i as int]));
                    assert(decreases_to!(*j => items@[i as int]));
                }
                write_text(&items[i], out);
                proof {
                    if i > 0 {
                        assert(out@ =~= before + seq![','] + text_of(values[i as int]));
                    } else {
                        assert(out@ =~= before + text_of(values[i as int]));
                    }
                }
                i = i + 1;
            }
            crate::text::push_char(out, ']');
            proof {
                assert(values == jv_items(items@, items@.len()));
            }
        },
        Json::Object(entries) => {
            let ghost values = entries_view(entries@);
            proof {
                lemma_entries(entries@, entries@.len());
            }
            crate::text::push_char(out, '{');
            let mut i: usize = 0;
            while i < entries.len()
                invariant
                    i <= entries@.len(),
                    values == entries_view(entries@),
                    *j == Json::Object(*entries),
                    values.len() == entries@.len(),
                    forall|k: int| 0 <= k < entries@.len() ==> #[trigger] values[k] == (entries@[k].0@, jv(entries@[k].1)),
                    out@ == start + seq!['{'] + text_entries(values, i as nat),
                decreases entries@.len() - i,
            {
                let ghost before = out@;
                if i > 0 {
                    crate::text::push_char(out, ',');
                }
                write_quoted(entries[i].0.as_str(), out);
                crate::text::push_char(out, ':');
                proof {
                    assert(decreases_to!(*j => (*j)->Object_0));
                    assert(decreases_to!(*entries => entries[i as int]));
                    assert(decreases_to!(entries[i as int] => entries[i as int].1));
                    assert(decreases_to!(*j => entries@[i as int].1));
                }
                write_text(&entries[i].1, out);
                proof {
                    if i > 0 {
                        assert(out@ =~= before + seq![','] + quoted(values[i as int].0) + seq![':'] + text_of(values[i as int].1));
                    } else {
                        assert(out@ =~= before + quoted(values[i as int].0) + seq![':'] + text_of(values[i as int].1));
                    }
                }
                i = i + 1;
            }
            crate::text::push_char(out, '}');
            proof {
                assert(values == jv_entries(entries@, entries@.len()));
            }
        },
    }
    proof {
        reveal_strlit("null");
        reveal_strlit("true");
        reveal_strlit("false");
        assert(out@ =~= start + text_of(j@));
    }
}

} // verus!
