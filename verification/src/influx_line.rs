//! InfluxDB v2 Line Protocol:
//! `measurement,tag1=val1,tag2=val2 field1=val1,field2=val2 timestamp_ns`.
use vstd::prelude::*;
use crate::text::{chars_of, push_char, push_decimal, push_signed_decimal, push_str, decimal, signed_decimal};

verus! {

/// A value of an InfluxDB field. A float is held by its decimal rendering
/// (Rust's `{}` form of the `f64`), which is what the line carries.
#[derive(Debug)]
pub enum FieldValue {
    Float(String),
    Integer(i64),
    String(String),
    Boolean(bool),
}

/// `c` escaped with a backslash when it is one of `specials`.
pub open spec fn escape_char(c: char, specials: Seq<char>) -> Seq<char> {
    if specials.contains(c) {
        seq!['\\', c]
    } else {
        seq![c]
    }
}

/// `s` with every character of `specials` escaped by a backslash.
pub open spec fn escaped(s: Seq<char>, specials: Seq<char>) -> Seq<char>
    decreases s.len(),
{
    if s.len() == 0 {
        Seq::empty()
    } else {
        escaped(s.drop_last(), specials) + escape_char(s.last(), specials)
    }
}

/// Measurement names escape commas and spaces.
pub open spec fn measurement_specials() -> Seq<char> {
    seq![',', ' ']
}

/// Tag keys, tag values and field keys escape commas, equals signs and spaces.
pub open spec fn key_specials() -> Seq<char> {
    seq![',', '=', ' ']
}

/// String field values escape backslashes and double quotes.
pub open spec fn string_specials() -> Seq<char> {
    seq!['\\', '"']
}

fn escape_with(s: &str, specials: &[char]) -> (r: String)
    ensures
        r@ == escaped(s@, specials@),
{
    let v = chars_of(s);
    let mut out = String::new();
    let mut i: usize = 0;
    while i < v.len()
        invariant
            i <= v@.len(),
            v@ == s@,
            out@ == escaped(v@.take(i as int), specials@),
        decreases v@.len() - i,
    {
        let c = v[i];
        let mut special = false;
        let mut j: usize = 0;
        while j < specials.len()
            invariant
                j <= specials@.len(),
                special == (exists|k: int| 0 <= k < j && specials@[k] == c),
            decreases specials@.len() - j,
        {
            if specials[j] == c {
                special = true;
            }
            j = j + 1;
        }
        assert(special == specials@.contains(c));
        if special {
            push_char(&mut out, '\\');
        }
        push_char(&mut out, c);
        assert(v@.take(i + 1).drop_last() =~= v@.take(i as int));
        i = i + 1;
        assert(out@ =~= escaped(v@.take(i as int), specials@));
    }
    assert(v@.take(v@.len() as int) =~= v@);
    out
}

/// Escapes a measurement name (commas and spaces).
pub fn escape_measurement(s: &str) -> (r: String)
    ensures
        r@ == escaped(s@, measurement_specials()),
{
    let specials: [char; 2] = [',', ' '];
    assert(specials@ =~= measurement_specials());
    escape_with(s, &specials)
}

/// Escapes a tag key (commas, equals signs and spaces).
pub fn escape_tag_key(s: &str) -> (r: String)
    ensures
        r@ == escaped(s@, key_specials()),
{
    let specials: [char; 3] = [',', '=', ' '];
    assert(specials@ =~= key_specials());
    escape_with(s, &specials)
}

/// Escapes a tag value (commas, equals signs and spaces).
pub fn escape_tag_value(s: &str) -> (r: String)
    ensures
        r@ == escaped(s@, key_specials()),
{
    let specials: [char; 3] = [',', '=', ' '];
    assert(specials@ =~= key_specials());
    escape_with(s, &specials)
}

/// Escapes a field key (commas, equals signs and spaces).
pub fn escape_field_key(s: &str) -> (r: String)
    ensures
        r@ == escaped(s@, key_specials()),
{
    let specials: [char; 3] = [',', '=', ' '];
    assert(specials@ =~= key_specials());
    escape_with(s, &specials)
}

/// The Line Protocol text of a field value: a float as written, an integer
/// with an `i` suffix, a string quoted with `\` and `"` escaped, a boolean
/// as `true` or `false`.
pub open spec fn field_text(v: FieldValue) -> Seq<char> {
    match v {
        FieldValue::Float(t) => t@,
        FieldValue::Integer(i) => signed_decimal(i as int).push('i'),
        FieldValue::String(s) => seq!['"'] + escaped(s@, string_specials()) + seq!['"'],
        FieldValue::Boolean(b) => if b {
            "true"@
        } else {
            "false"@
        },
    }
}

impl FieldValue {
    /// Formats the value for Line Protocol.
    pub fn to_line_protocol(&self) -> (r: String)
        ensures
            r@ == field_text(*self),
    {
        match self {
            FieldValue::Float(t) => {
                let mut out = String::new();
                push_str(&mut out, t.as_str());
                out
            },
            FieldValue::Integer(v) => {
                let mut out = String::new();
                push_signed_decimal(&mut out, *v);
                push_char(&mut out, 'i');
                out
            },
            FieldValue::String(v) => {
                let specials: [char; 2] = ['\\', '"'];
                assert(specials@ =~= string_specials());
                let mut out = String::new();
                push_char(&mut out, '"');
                push_str(&mut out, escape_with(v.as_str(), &specials).as_str());
                push_char(&mut out, '"');
                assert(out@ =~= seq!['"'] + escaped(v@, string_specials()) + seq!['"']);
                out
            },
            FieldValue::Boolean(v) => {
                if *v {
                    String::from_str("true")
                } else {
                    String::from_str("false")
                }
            },
        }
    }

    /// A copy of the value.
    pub fn duplicate(&self) -> (r: FieldValue)
        ensures
            field_text(r) == field_text(*self),
            r == *self,
    {
        match self {
            FieldValue::Float(t) => FieldValue::Float(t.clone()),
            FieldValue::Integer(v) => FieldValue::Integer(*v),
            FieldValue::String(s) => FieldValue::String(s.clone()),
            FieldValue::Boolean(b) => FieldValue::Boolean(*b),
        }
    }
}

// ---------------------------------------------------------------------------
// Tag order

/// `a` comes before or with `b` in character order (as `str` orders them:
/// for UTF-8 the byte order and the character order agree).
pub open spec fn chars_le(a: Seq<char>, b: Seq<char>) -> bool
    decreases a.len(),
{
    if a.len() == 0 {
        true
    } else if b.len() == 0 {
        false
    } else if a[0] != b[0] {
        (a[0] as int) < (b[0] as int)
    } else {
        chars_le(a.drop_first(), b.drop_first())
    }
}

/// `tags` with `t` inserted after every tag whose key is not greater than its own.
pub open spec fn insert_tag(tags: Seq<(Seq<char>, Seq<char>)>, t: (Seq<char>, Seq<char>)) -> Seq<
    (Seq<char>, Seq<char>),
>
    decreases tags.len(),
{
    if tags.len() == 0 {
        seq![t]
    } else if chars_le(tags.last().0, t.0) {
        tags.push(t)
    } else {
        insert_tag(tags.drop_last(), t).push(tags.last())
    }
}

/// The tags in key order; tags with equal keys keep their order (a stable
/// sort by key).
pub open spec fn sorted_tags(tags: Seq<(Seq<char>, Seq<char>)>) -> Seq<(Seq<char>, Seq<char>)>
    decreases tags.len(),
{
    if tags.len() == 0 {
        Seq::empty()
    } else {
        insert_tag(sorted_tags(tags.drop_last()), tags.last())
    }
}

pub fn chars_le_exec(a: &[char], b: &[char]) -> (r: bool)
    ensures
        r == chars_le(a@, b@),
{
    let mut i: usize = 0;
    assert(a@.skip(0) =~= a@);
    assert(b@.skip(0) =~= b@);
    while i < a.len() && i < b.len() && a[i] == b[i]
        invariant
            i <= a@.len(),
            i <= b@.len(),
            chars_le(a@, b@) == chars_le(a@.skip(i as int), b@.skip(i as int)),
        decreases a@.len() - i,
    {
        assert(a@.skip(i as int).drop_first() =~= a@.skip(i + 1));
        assert(b@.skip(i as int).drop_first() =~= b@.skip(i + 1));
        i = i + 1;
    }
    if i == a.len() {
        return true;
    }
    if i == b.len() {
        return false;
    }
    a[i] < b[i]
}

pub open spec fn pair_view(p: (&str, &str)) -> (Seq<char>, Seq<char>) {
    (p.0@, p.1@)
}

/// Sorts tags by key, stably.
fn sort_tags<'a>(tags: &[(&'a str, &'a str)]) -> (r: Vec<(&'a str, &'a str)>)
    ensures
        r@.map_values(|p: (&str, &str)| pair_view(p)) == sorted_tags(
            tags@.map_values(|p: (&str, &str)| pair_view(p)),
        ),
{
    let ghost all = tags@.map_values(|p: (&str, &str)| pair_view(p));
    let mut out: Vec<(&'a str, &'a str)> = Vec::new();
    let mut i: usize = 0;
    while i < tags.len()
        invariant
            i <= tags@.len(),
            all == tags@.map_values(|p: (&str, &str)| pair_view(p)),
            out@.map_values(|p: (&str, &str)| pair_view(p)) == sorted_tags(all.take(i as int)),
        decreases tags@.len() - i,
    {
        let t = tags[i];
        let key = chars_of(t.0);
        // Find the insertion point: after the last tag whose key is not greater.
        let ghost before = out@.map_values(|p: (&str, &str)| pair_view(p));
        let mut pos = out.len();
        assert(before.take(pos as int) =~= before);
        assert(before.skip(pos as int) =~= Seq::<(Seq<char>, Seq<char>)>::empty());
        while pos > 0
            invariant
                pos <= out@.len(),
                before.len() == out@.len(),
                out@.map_values(|p: (&str, &str)| pair_view(p)) == before,
                key@ == t.0@,
                insert_tag(before, pair_view(t)) == insert_tag(before.take(pos as int), pair_view(t))
                    + before.skip(pos as int),
            ensures
                pos <= out@.len(),
                insert_tag(before, pair_view(t)) == insert_tag(before.take(pos as int), pair_view(t))
                    + before.skip(pos as int),
                pos == 0 || chars_le(before[pos - 1].0, t.0@),
            decreases pos,
        {
            let k = chars_of(out[pos - 1].0);
            assert(before[pos - 1] == pair_view(out@[pos - 1]));
            if chars_le_exec(k.as_slice(), key.as_slice()) {
                break;
            }
            proof {
                let b = before.take(pos as int);
                assert(b.last() == before[pos - 1]);
                assert(b.drop_last() =~= before.take(pos - 1));
                assert(before.skip(pos - 1) =~= seq![before[pos - 1]] + before.skip(pos as int));
                assert(insert_tag(b, pair_view(t)) == insert_tag(b.drop_last(), pair_view(t)).push(
                    b.last(),
                ));
                assert(insert_tag(before.take(pos - 1), pair_view(t)) + before.skip(pos - 1)
                    =~= insert_tag(b, pair_view(t)) + before.skip(pos as int));
            }
            pos = pos - 1;
        }
        proof {
            let b = before.take(pos as int);
            if pos > 0 {
                assert(b.last() == before[pos - 1]);
            }
            assert(b.len() == 0 ==> insert_tag(b, pair_view(t)) == seq![pair_view(t)]);
        }
        out.insert(pos, t);
        proof {
            assert(all.take(i + 1).drop_last() =~= all.take(i as int));
            assert(all.take(i + 1).last() == pair_view(t));
            let b = before.take(pos as int);
            assert(insert_tag(b, pair_view(t)) =~= b.push(pair_view(t)));
            assert(out@.map_values(|p: (&str, &str)| pair_view(p)) =~= b.push(pair_view(t))
                + before.skip(pos as int));
        }
        i = i + 1;
    }
    assert(all.take(tags@.len() as int) =~= all);
    out
}

// ---------------------------------------------------------------------------
// Lines

/// `,key=value` for each tag, in order.
pub open spec fn tags_text(tags: Seq<(Seq<char>, Seq<char>)>) -> Seq<char>
    decreases tags.len(),
{
    if tags.len() == 0 {
        Seq::empty()
    } else {
        tags_text(tags.drop_last()) + seq![','] + escaped(tags.last().0, key_specials()) + seq![
            '=',
        ] + escaped(tags.last().1, key_specials())
    }
}

/// `key=value` for each field, separated by commas.
pub open spec fn fields_text(fields: Seq<(Seq<char>, FieldValue)>) -> Seq<char>
    decreases fields.len(),
{
    if fields.len() == 0 {
        Seq::empty()
    } else {
        let last = escaped(fields.last().0, key_specials()) + seq!['='] + field_text(
            fields.last().1,
        );
        if fields.len() == 1 {
            last
        } else {
            fields_text(fields.drop_last()) + seq![','] + last
        }
    }
}

/// The Line Protocol line of a point: the escaped measurement, the tags
/// sorted by key, a space, the fields in their order, a space and the
/// timestamp in nanoseconds.
pub open spec fn line_text(
    measurement: Seq<char>,
    tags: Seq<(Seq<char>, Seq<char>)>,
    fields: Seq<(Seq<char>, FieldValue)>,
    timestamp_ns: u64,
) -> Seq<char> {
    escaped(measurement, measurement_specials()) + tags_text(sorted_tags(tags)) + seq![' ']
        + fields_text(fields) + seq![' '] + decimal(timestamp_ns as nat)
}

pub open spec fn field_view(p: (&str, FieldValue)) -> (Seq<char>, FieldValue) {
    (p.0@, p.1)
}

/// InfluxDB v2 Line Protocol writer: accumulates lines until flushed.
pub struct LineProtocolWriter {
    pub buffer: Vec<String>,
}

pub open spec fn lines_view(v: Seq<String>) -> Seq<Seq<char>> {
    v.map_values(|s: String| s@)
}

impl View for LineProtocolWriter {
    type V = Seq<Seq<char>>;

    open spec fn view(&self) -> Seq<Seq<char>> {
        lines_view(self.buffer@)
    }
}

impl LineProtocolWriter {
    pub fn new() -> (w: Self)
        ensures
            w@ == Seq::<Seq<char>>::empty(),
    {
        let w = LineProtocolWriter { buffer: Vec::new() };
        assert(w@ =~= Seq::<Seq<char>>::empty());
        w
    }

    /// Appends the line of one point; InfluxDB needs at least one field.
    pub fn write_point(
        &mut self,
        measurement: &str,
        tags: &[(&str, &str)],
        fields: &[(&str, FieldValue)],
        timestamp_ns: u64,
    )
        requires
            fields@.len() > 0,
        ensures
            final(self)@ == old(self)@.push(
                line_text(
                    measurement@,
                    tags@.map_values(|p: (&str, &str)| pair_view(p)),
                    fields@.map_values(|p: (&str, FieldValue)| field_view(p)),
                    timestamp_ns,
                ),
            ),
    {
        let mut line = escape_measurement(measurement);
        let sorted = sort_tags(tags);
        let ghost st = sorted@.map_values(|p: (&str, &str)| pair_view(p));
        let ghost m = line@;
        let mut i: usize = 0;
        while i < sorted.len()
            invariant
                i <= sorted@.len(),
                st == sorted@.map_values(|p: (&str, &str)| pair_view(p)),
                line@ == m + tags_text(st.take(i as int)),
            decreases sorted@.len() - i,
        {
            let (key, value) = sorted[i];
            push_char(&mut line, ',');
            push_str(&mut line, escape_tag_key(key).as_str());
            push_char(&mut line, '=');
            push_str(&mut line, escape_tag_value(value).as_str());
            proof {
                assert(st.take(i + 1).drop_last() =~= st.take(i as int));
                assert(st.take(i + 1).last() == (key@, value@));
            }
            i = i + 1;
            assert(line@ =~= m + tags_text(st.take(i as int)));
        }
        assert(st.take(st.len() as int) =~= st);
        push_char(&mut line, ' ');
        let ghost fv = fields@.map_values(|p: (&str, FieldValue)| field_view(p));
        let ghost m2 = line@;
        let mut j: usize = 0;
        while j < fields.len()
            invariant
                j <= fields@.len(),
                fv == fields@.map_values(|p: (&str, FieldValue)| field_view(p)),
                line@ == m2 + fields_text(fv.take(j as int)),
            decreases fields@.len() - j,
        {
            if j > 0 {
                push_char(&mut line, ',');
            }
            let (key, value) = &fields[j];
            push_str(&mut line, escape_field_key(key).as_str());
            push_char(&mut line, '=');
            push_str(&mut line, value.to_line_protocol().as_str());
            proof {
                assert(fv.take(j + 1).drop_last() =~= fv.take(j as int));
                assert(fv.take(j + 1).last() == (key@, *value));
            }
            j = j + 1;
            assert(line@ =~= m2 + fields_text(fv.take(j as int)));
        }
        assert(fv.take(fv.len() as int) =~= fv);
        push_char(&mut line, ' ');
        push_decimal(&mut line, timestamp_ns);
        assert(line@ =~= line_text(
            measurement@,
            tags@.map_values(|p: (&str, &str)| pair_view(p)),
            fv,
            timestamp_ns,
        ));
        let ghost before = self.buffer@;
        self.buffer.push(line);
        assert(lines_view(self.buffer@) =~= lines_view(before).push(line@));
    }

    /// Returns all accumulated lines and empties the writer.
    pub fn flush(&mut self) -> (lines: Vec<String>)
        ensures
            lines_view(lines@) == old(self)@,
            final(self)@ == Seq::<Seq<char>>::empty(),
    {
        let mut lines: Vec<String> = Vec::new();
        std::mem::swap(&mut lines, &mut self.buffer);
        assert(lines_view(self.buffer@) =~= Seq::<Seq<char>>::empty());
        lines
    }

    /// The number of buffered lines.
    pub fn len(&self) -> (n: usize)
        ensures
            n == self@.len(),
    {
        self.buffer.len()
    }

    /// Whether no line is buffered.
    pub fn is_empty(&self) -> (b: bool)
        ensures
            b == (self@.len() == 0),
    {
        self.buffer.len() == 0
    }
}

impl Default for LineProtocolWriter {
    fn default() -> (w: Self)
        ensures
            w@ == Seq::<Seq<char>>::empty(),
    {
        LineProtocolWriter::new()
    }
}

/// Keys of sorted tags never decrease.
pub proof fn law_sorted_tags_ordered(tags: Seq<(Seq<char>, Seq<char>)>, i: int)
    requires
        0 <= i < sorted_tags(tags).len() - 1,
    ensures
        chars_le(sorted_tags(tags)[i].0, sorted_tags(tags)[i + 1].0),
        sorted_tags(tags).len() == tags.len(),
{
    lemma_sorted(tags);
}

pub open spec fn keys_sorted(s: Seq<(Seq<char>, Seq<char>)>) -> bool {
    forall|i: int| 0 <= i < s.len() - 1 ==> chars_le(#[trigger] s[i].0, s[i + 1].0)
}

proof fn lemma_chars_le_total(a: Seq<char>, b: Seq<char>)
    ensures
        chars_le(a, b) || chars_le(b, a),
    decreases a.len(),
{
    if a.len() > 0 && b.len() > 0 {
        if a[0] == b[0] {
            lemma_chars_le_total(a.drop_first(), b.drop_first());
        } else {
            assert(a[0] as int != b[0] as int);
        }
    }
}

proof fn lemma_insert_sorted(tags: Seq<(Seq<char>, Seq<char>)>, t: (Seq<char>, Seq<char>))
    requires
        keys_sorted(tags),
    ensures
        keys_sorted(insert_tag(tags, t)),
        insert_tag(tags, t).len() == tags.len() + 1,
        tags.len() > 0 ==> (insert_tag(tags, t).last() == tags.last() || insert_tag(tags, t).last()
            == t),
    decreases tags.len(),
{
    if tags.len() > 0 {
        if chars_le(tags.last().0, t.0) {
            assert(keys_sorted(tags.push(t)));
        } else {
            let rest = tags.drop_last();
            assert(keys_sorted(rest));
            lemma_insert_sorted(rest, t);
            let ins = insert_tag(rest, t);
            lemma_chars_le_total(tags.last().0, t.0);
            if rest.len() > 0 {
                assert(chars_le(rest.last().0, tags.last().0));
            }
            assert(keys_sorted(ins.push(tags.last())));
        }
    }
}

proof fn lemma_sorted(tags: Seq<(Seq<char>, Seq<char>)>)
    ensures
        keys_sorted(sorted_tags(tags)),
        sorted_tags(tags).len() == tags.len(),
    decreases tags.len(),
{
    if tags.len() > 0 {
        lemma_sorted(tags.drop_last());
        lemma_insert_sorted(sorted_tags(tags.drop_last()), tags.last());
    }
}

} // verus!
