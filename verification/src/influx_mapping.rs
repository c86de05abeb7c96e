//! Mapping of JSON-like DDS samples to InfluxDB tags and fields.
use vstd::prelude::*;
use crate::influx_line::FieldValue;
use crate::text::{chars_of, chars_eq, push_str, push_signed_decimal, signed_decimal, string_from_chars};

verus! {

/// A JSON number as the mapping reads it: one that `serde_json` gives as an
/// `i64`, or any other (a larger integer or a float), held by its JSON text
/// (`Number`'s `Display`) and by the text of its `f64` value (Rust's `{}`).
pub enum JsonNumber {
    Int(i64),
    Other { text: String, float_text: String },
}

/// A JSON value, as DDS samples are given to the sink.
pub enum JsonValue {
    Null,
    Bool(bool),
    Number(JsonNumber),
    String(String),
    Array(Vec<JsonValue>),
    Object(Vec<(String, JsonValue)>),
}

/// The value under `key` among an object's entries (the first such entry).
pub open spec fn entry_lookup(entries: Seq<(String, JsonValue)>, key: Seq<char>) -> Option<JsonValue>
    decreases entries.len(),
{
    if entries.len() == 0 {
        None
    } else if entries[0].0@ == key {
        Some(entries[0].1)
    } else {
        entry_lookup(entries.drop_first(), key)
    }
}

/// `json[key]`: the member of an object; nothing for any other value.
pub open spec fn object_get(v: JsonValue, key: Seq<char>) -> Option<JsonValue> {
    match v {
        JsonValue::Object(entries) => entry_lookup(entries@, key),
        _ => None,
    }
}

/// `s.split(c)`: the pieces between occurrences of `c`, empty ones
/// included; there is always at least one.
pub open spec fn split_on(s: Seq<char>, c: char) -> Seq<Seq<char>>
    decreases s.len(),
{
    if s.len() == 0 {
        seq![Seq::empty()]
    } else {
        let r = split_on(s.drop_last(), c);
        if s.last() == c {
            r.push(Seq::empty())
        } else {
            r.update(r.len() - 1, r.last().push(s.last()))
        }
    }
}

/// The value reached from `v` through the members named by `parts`.
pub open spec fn resolve(v: JsonValue, parts: Seq<Seq<char>>) -> Option<JsonValue>
    decreases parts.len(),
{
    if parts.len() == 0 {
        Some(v)
    } else {
        match object_get(v, parts[0]) {
            Some(child) => resolve(child, parts.drop_first()),
            None => None,
        }
    }
}

/// The value at a dot-separated path such as `location.lat`.
pub open spec fn resolve_path(v: JsonValue, path: Seq<char>) -> Option<JsonValue> {
    resolve(v, split_on(path, '.'))
}

/// The text of a value used as a tag: a string as it is, a number as JSON
/// writes it, a boolean as `true` or `false`; none for null, arrays and
/// objects.
pub open spec fn json_text(v: JsonValue) -> Option<Seq<char>> {
    match v {
        JsonValue::String(s) => Some(s@),
        JsonValue::Number(JsonNumber::Int(i)) => Some(signed_decimal(i as int)),
        JsonValue::Number(JsonNumber::Other { text, .. }) => Some(text@),
        JsonValue::Bool(b) => Some(
            if b {
                "true"@
            } else {
                "false"@
            },
        ),
        _ => None,
    }
}

/// The field value of a JSON value: an `i64` number as an integer, another
/// number as a float, strings and booleans as themselves; none for null,
/// arrays and objects.
pub open spec fn json_field(v: JsonValue) -> Option<FieldValue> {
    match v {
        JsonValue::Number(JsonNumber::Int(i)) => Some(FieldValue::Integer(i)),
        JsonValue::Number(JsonNumber::Other { float_text, .. }) => Some(FieldValue::Float(float_text)),
        JsonValue::String(s) => Some(FieldValue::String(s)),
        JsonValue::Bool(b) => Some(FieldValue::Boolean(b)),
        _ => None,
    }
}

/// The tags of a sample: for each name in order whose path resolves to a
/// value with a tag text, the name and that text.
pub open spec fn mapped_tags(sample: JsonValue, names: Seq<Seq<char>>) -> Seq<(Seq<char>, Seq<char>)>
    decreases names.len(),
{
    if names.len() == 0 {
        Seq::empty()
    } else {
        let r = mapped_tags(sample, names.drop_last());
        match resolve_path(sample, names.last()) {
            Some(v) => match json_text(v) {
                Some(t) => r.push((names.last(), t)),
                None => r,
            },
            None => r,
        }
    }
}

/// The fields of a sample: for each name in order whose path resolves to a
/// value with a field value, the name and that value.
pub open spec fn mapped_fields(sample: JsonValue, names: Seq<Seq<char>>) -> Seq<(Seq<char>, FieldValue)>
    decreases names.len(),
{
    if names.len() == 0 {
        Seq::empty()
    } else {
        let r = mapped_fields(sample, names.drop_last());
        match resolve_path(sample, names.last()) {
            Some(v) => match json_field(v) {
                Some(f) => r.push((names.last(), f)),
                None => r,
            },
            None => r,
        }
    }
}

pub open spec fn strings_view(v: Seq<String>) -> Seq<Seq<char>> {
    v.map_values(|s: String| s@)
}

pub open spec fn string_pairs_view(v: Seq<(String, String)>) -> Seq<(Seq<char>, Seq<char>)> {
    v.map_values(|p: (String, String)| (p.0@, p.1@))
}

pub open spec fn field_pairs_view(v: Seq<(String, FieldValue)>) -> Seq<(Seq<char>, FieldValue)> {
    v.map_values(|p: (String, FieldValue)| (p.0@, p.1))
}

// ---------------------------------------------------------------------------
// Lemmas on paths

proof fn lemma_resolve_push(v: JsonValue, parts: Seq<Seq<char>>, last: Seq<char>)
    ensures
        resolve(v, parts.push(last)) == (match resolve(v, parts) {
            Some(c) => object_get(c, last),
            None => None,
        }),
    decreases parts.len(),
{
    if parts.len() == 0 {
        assert(parts.push(last)[0] == last);
        assert(parts.push(last).drop_first() =~= Seq::<Seq<char>>::empty());
        match object_get(v, last) {
            Some(c) => {
                assert(resolve(c, Seq::<Seq<char>>::empty()) == Some(c));
            },
            None => {},
        }
    } else {
        assert(parts.push(last)[0] == parts[0]);
        assert(parts.push(last).drop_first() =~= parts.drop_first().push(last));
        match object_get(v, parts[0]) {
            Some(child) => lemma_resolve_push(child, parts.drop_first(), last),
            None => {},
        }
    }
}

proof fn lemma_resolve_none_extends(v: JsonValue, parts: Seq<Seq<char>>, more: Seq<Seq<char>>)
    requires
        resolve(v, parts) is None,
    ensures
        resolve(v, parts + more) is None,
    decreases parts.len(),
{
    if parts.len() > 0 {
        assert((parts + more)[0] == parts[0]);
        assert((parts + more).drop_first() =~= parts.drop_first() + more);
        match object_get(v, parts[0]) {
            Some(child) => lemma_resolve_none_extends(child, parts.drop_first(), more),
            None => {},
        }
    }
}

proof fn lemma_split_len(s: Seq<char>, c: char)
    ensures
        split_on(s, c).len() >= 1,
    decreases s.len(),
{
    if s.len() > 0 {
        lemma_split_len(s.drop_last(), c);
    }
}

/// The pieces of a prefix, but its last, are pieces of every longer prefix.
proof fn lemma_split_prefix(s: Seq<char>, i: int, j: int, c: char)
    requires
        0 <= i <= j <= s.len(),
    ensures
        split_on(s.take(i), c).len() <= split_on(s.take(j), c).len(),
        forall|k: int|
            0 <= k < split_on(s.take(i), c).len() - 1 ==> #[trigger] split_on(s.take(j), c)[k]
                == split_on(s.take(i), c)[k],
    decreases j - i,
{
    lemma_split_len(s.take(i), c);
    if i < j {
        lemma_split_prefix(s, i, j - 1, c);
        let t = s.take(j);
        assert(t.drop_last() =~= s.take(j - 1));
        lemma_split_len(s.take(j - 1), c);
    }
}

// ---------------------------------------------------------------------------
// Executable mapping

/// The member `key` of `v` when `v` is an object that has it.
fn object_member<'a>(v: &'a JsonValue, key: &[char]) -> (r: Option<&'a JsonValue>)
    ensures
        match r {
            Some(x) => object_get(*v, key@) == Some(*x),
            None => object_get(*v, key@) is None,
        },
{
    match v {
        JsonValue::Object(entries) => {
            let mut i: usize = 0;
            assert(entries@.skip(0) =~= entries@);
            while i < entries.len()
                invariant
                    i <= entries@.len(),
                    object_get(*v, key@) == entry_lookup(entries@, key@),
                    entry_lookup(entries@, key@) == entry_lookup(entries@.skip(i as int), key@),
                decreases entries@.len() - i,
            {
                assert(entries@.skip(i as int)[0] == entries@[i as int]);
                assert(entries@.skip(i as int).drop_first() =~= entries@.skip(i + 1));
                let k = chars_of(entries[i].0.as_str());
                if chars_eq(k.as_slice(), key) {
                    assert(entries@.skip(i as int)[0].0@ == key@);
                    assert(entry_lookup(entries@.skip(i as int), key@) == Some(entries@[i as int].1));
                    return Some(&entries[i].1);
                }
                i = i + 1;
            }
            None
        },
        _ => None,
    }
}

/// Resolves a dot-separated field path, e.g. `location.lat` is
/// `json["location"]["lat"]`.
pub fn resolve_field<'a>(json: &'a JsonValue, path: &str) -> (r: Option<&'a JsonValue>)
    ensures
        match r {
            Some(x) => resolve_path(*json, path@) == Some(*x),
            None => resolve_path(*json, path@) is None,
        },
{
    let s = chars_of(path);
    let ghost full = split_on(s@, '.');
    let mut cur: &JsonValue = json;
    let mut part: Vec<char> = Vec::new();
    let ghost mut done: Seq<Seq<char>> = Seq::empty();
    let mut i: usize = 0;
    assert(s@.take(0) =~= Seq::<char>::empty());
    assert(split_on(Seq::<char>::empty(), '.') =~= done.push(part@));
    while i < s.len()
        invariant
            i <= s@.len(),
            s@ == path@,
            full == split_on(s@, '.'),
            split_on(s@.take(i as int), '.') == done.push(part@),
            resolve(*json, done) == Some(*cur),
        decreases s@.len() - i,
    {
        let c = s[i];
        let ghost t = s@.take(i + 1);
        assert(t.drop_last() =~= s@.take(i as int));
        assert(t.last() == c);
        if c == '.' {
            proof {
                lemma_resolve_push(*json, done, part@);
            }
            match object_member(cur, part.as_slice()) {
                Some(next) => {
                    cur = next;
                },
                None => {
                    proof {
                        let d2 = done.push(part@);
                        assert(resolve(*json, d2) is None);
                        lemma_split_prefix(s@, i + 1, s@.len() as int, '.');
                        assert(s@.take(s@.len() as int) =~= s@);
                        assert(split_on(t, '.') == d2.push(Seq::empty()));
                        assert(full.subrange(0, d2.len() as int) =~= d2);
                        lemma_resolve_none_extends(*json, d2, full.skip(d2.len() as int));
                        assert(d2 + full.skip(d2.len() as int) =~= full);
                    }
                    return None;
                },
            }
            proof {
                done = done.push(part@);
            }
            part = Vec::new();
            assert(split_on(t, '.') =~= done.push(part@));
        } else {
            part.push(c);
            assert(split_on(t, '.') =~= done.push(part@));
        }
        i = i + 1;
    }
    assert(s@.take(s@.len() as int) =~= s@);
    proof {
        lemma_resolve_push(*json, done, part@);
    }
    object_member(cur, part.as_slice())
}

/// The text of a value used as a tag; none for null, arrays and objects.
pub fn json_to_string(val: &JsonValue) -> (r: Option<String>)
    ensures
        match r {
            Some(s) => json_text(*val) == Some(s@),
            None => json_text(*val) is None,
        },
{
    match val {
        JsonValue::String(s) => Some(s.clone()),
        JsonValue::Number(JsonNumber::Int(i)) => {
            let mut out = String::new();
            push_signed_decimal(&mut out, *i);
            Some(out)
        },
        JsonValue::Number(JsonNumber::Other { text, .. }) => Some(text.clone()),
        JsonValue::Bool(b) => {
            if *b {
                Some(String::from_str("true"))
            } else {
                Some(String::from_str("false"))
            }
        },
        _ => None,
    }
}

/// The field value of a JSON value; none for null, arrays and objects.
pub fn json_to_field_value(val: &JsonValue) -> (r: Option<FieldValue>)
    ensures
        r == json_field(*val),
{
    match val {
        JsonValue::Number(JsonNumber::Int(i)) => Some(FieldValue::Integer(*i)),
        JsonValue::Number(JsonNumber::Other { float_text, .. }) => Some(FieldValue::Float(float_text.clone())),
        JsonValue::String(s) => Some(FieldValue::String(s.clone())),
        JsonValue::Bool(b) => Some(FieldValue::Boolean(*b)),
        _ => None,
    }
}

/// Maps DDS sample fields to InfluxDB tags (always strings) and fields
/// (their JSON type kept).
pub struct FieldMapper {
    pub tag_fields: Vec<String>,
    pub value_fields: Vec<String>,
}

impl FieldMapper {
    pub fn new(tags: Vec<String>, fields: Vec<String>) -> (m: Self)
        ensures
            m.tag_fields == tags,
            m.value_fields == fields,
    {
        FieldMapper { tag_fields: tags, value_fields: fields }
    }

    /// The tags and fields of a sample; names whose path is missing or whose
    /// value has no tag text (or field value) are skipped.
    pub fn map_sample(&self, sample_json: &JsonValue) -> (r: (Vec<(String, String)>, Vec<(String, FieldValue)>))
        ensures
            string_pairs_view(r.0@) == mapped_tags(*sample_json, strings_view(self.tag_fields@)),
            field_pairs_view(r.1@) == mapped_fields(*sample_json, strings_view(self.value_fields@)),
    {
        let mut tags: Vec<(String, String)> = Vec::new();
        let ghost names = strings_view(self.tag_fields@);
        let mut i: usize = 0;
        while i < self.tag_fields.len()
            invariant
                i <= self.tag_fields@.len(),
                names == strings_view(self.tag_fields@),
                string_pairs_view(tags@) == mapped_tags(*sample_json, names.take(i as int)),
            decreases self.tag_fields@.len() - i,
        {
            let name = &self.tag_fields[i];
            let ghost before = tags@;
            assert(names.take(i + 1).drop_last() =~= names.take(i as int));
            assert(names.take(i + 1).last() == name@);
            match resolve_field(sample_json, name.as_str()) {
                Some(val) => match json_to_string(val) {
                    Some(s) => {
                        tags.push((name.clone(), s));
                        assert(string_pairs_view(tags@) =~= string_pairs_view(before).push(
                            (name@, s@),
                        ));
                    },
                    None => {},
                },
                None => {},
            }
            i = i + 1;
        }
        assert(names.take(names.len() as int) =~= names);
        let mut fields: Vec<(String, FieldValue)> = Vec::new();
        let ghost fnames = strings_view(self.value_fields@);
        let mut j: usize = 0;
        while j < self.value_fields.len()
            invariant
                j <= self.value_fields@.len(),
                fnames == strings_view(self.value_fields@),
                field_pairs_view(fields@) == mapped_fields(*sample_json, fnames.take(j as int)),
            decreases self.value_fields@.len() - j,
        {
            let name = &self.value_fields[j];
            let ghost before = fields@;
            assert(fnames.take(j + 1).drop_last() =~= fnames.take(j as int));
            assert(fnames.take(j + 1).last() == name@);
            match resolve_field(sample_json, name.as_str()) {
                Some(val) => match json_to_field_value(val) {
                    Some(fv) => {
                        let ghost f = fv;
                        fields.push((name.clone(), fv));
                        assert(field_pairs_view(fields@) =~= field_pairs_view(before).push(
                            (name@, f),
                        ));
                    },
                    None => {},
                },
                None => {},
            }
            j = j + 1;
        }
        assert(fnames.take(fnames.len() as int) =~= fnames);
        (tags, fields)
    }
}

} // verus!
