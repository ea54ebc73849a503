//! The JSON Schema of a project file, derived from the protobuf
//! descriptors of its messages: lowerCamelCase field names, a oneof as
//! `{ <member>: value }` with at most one member set, unknown fields
//! rejected, `null` accepted for message and proto3 `optional` fields,
//! and each message's and field's comment as its description.

use vstd::prelude::*;

use crate::content::{trim_range, trimmed};
use crate::frontmatter::{after_first_line, first_line, find_newline_in, lemma_first_newline};
use crate::icons::{joined, split_on, split_ranges};
use crate::keyed::{entries_map, KeyedMap};
use crate::project::strings_view;
use crate::text::{chars_eq, chars_of, extend_from_str, string_from_chars};

verus! {

/// What follows the last `.` of a fully qualified name (all of it
/// without one).
pub open spec fn short_name_of(full: Seq<char>) -> Seq<char> {
    match crate::content::last_index_of(full, '.') {
        Some(i) => full.skip(i + 1),
        None => full,
    }
}

/// A message's name without its package.
pub fn short_name(full: &str) -> (res: String)
    ensures
        res@ == short_name_of(full@),
{
    let v = chars_of(full);
    let n = v.len();
    let mut e = n;
    proof {
        assert(v@.take(n as int) =~= v@);
    }
    while e > 0 && v[e - 1] != '.'
        invariant
            e <= n == v@.len(),
            crate::content::last_index_of(v@, '.') == crate::content::last_index_of(v@.take(e as int), '.'),
        decreases e,
    {
        proof {
            assert(v@.take(e as int).drop_last() =~= v@.take(e - 1));
        }
        e = e - 1;
    }
    proof {
        if e == 0 {
            assert(v@.take(0) =~= Seq::<char>::empty());
            assert(v@.subrange(0, n as int) =~= v@);
        } else {
            assert(v@.skip(e as int) =~= v@.subrange(e as int, n as int));
        }
    }
    crate::text::string_from_range(v.as_slice(), e, n)
}

/// What `char::to_uppercase` gives for `c` (one or more characters).
pub uninterp spec fn unicode_uppercase(c: char) -> Seq<char>;

/// `char::to_uppercase`, collected. Claims only that the result is the
/// one `unicode_uppercase` names for `c`.
#[verifier::external_body]
fn to_uppercase(c: char) -> (res: String)
    ensures
        res@ == unicode_uppercase(c),
{
    c.to_uppercase().collect::<String>()
}

/// A `snake_case` field name in `lowerCamelCase`: each `_` dropped and
/// the character after it upper-cased.
pub open spec fn camel_case(name: Seq<char>) -> Seq<char> {
    camel_from(name, false)
}

pub open spec fn camel_from(name: Seq<char>, upper: bool) -> Seq<char>
    decreases name.len(),
{
    if name.len() == 0 {
        Seq::empty()
    } else if name[0] == '_' {
        camel_from(name.drop_first(), true)
    } else if upper {
        unicode_uppercase(name[0]) + camel_from(name.drop_first(), false)
    } else {
        seq![name[0]] + camel_from(name.drop_first(), false)
    }
}

/// The JSON name of a field: the one its descriptor gives, else its name
/// in `lowerCamelCase`.
pub fn json_name(name: &str, declared: &Option<String>) -> (res: String)
    ensures
        res@ == match declared {
            Some(d) => d@,
            None => camel_case(name@),
        },
{
    if let Some(d) = declared {
        return d.clone();
    }
    let v = chars_of(name);
    let mut out: Vec<char> = Vec::new();
    let mut upper = false;
    let mut i: usize = 0;
    proof {
        assert(v@.skip(0) =~= v@);
        assert(out@ + camel_from(v@.skip(0), false) =~= camel_from(v@, false));
    }
    while i < v.len()
        invariant
            i <= v@.len(),
            camel_case(v@) == out@ + camel_from(v@.skip(i as int), upper),
        decreases v@.len() - i,
    {
        let c = v[i];
        let ghost rest = v@.skip(i as int);
        proof {
            assert(rest[0] == c);
            assert(rest.drop_first() =~= v@.skip(i + 1));
        }
        let ghost prev = out@;
        if c == '_' {
            upper = true;
        } else if upper {
            let u = to_uppercase(c);
            extend_from_str(&mut out, u.as_str());
            upper = false;
            proof {
                assert(prev + (unicode_uppercase(c) + camel_from(v@.skip(i + 1), false)) =~= out@
                    + camel_from(v@.skip(i + 1), false));
            }
        } else {
            out.push(c);
            proof {
                assert(prev + (seq![c] + camel_from(v@.skip(i + 1), false)) =~= out@ + camel_from(
                    v@.skip(i + 1),
                    false,
                ));
            }
        }
        i = i + 1;
    }
    proof {
        assert(v@.skip(v@.len() as int) =~= Seq::<char>::empty());
        assert(out@ + Seq::<char>::empty() =~= out@);
        assert(v@.skip(0) =~= v@);
    }
    string_from_chars(out.as_slice())
}

/// `str::lines`: the lines of `s`, without their line endings.
pub open spec fn lines_of(s: Seq<char>) -> Seq<Seq<char>>
    decreases s.len(),
{
    if s.len() == 0 {
        Seq::empty()
    } else {
        proof {
            lemma_first_newline(s);
        }
        seq![first_line(s)] + lines_of(after_first_line(s))
    }
}

/// One paragraph as a single line: its lines trimmed and joined by spaces.
pub open spec fn one_line(para: Seq<char>) -> Seq<char> {
    joined(lines_of(para).map_values(|l: Seq<char>| trimmed(l)), seq![' '])
}

/// A comment block with each paragraph on one line, paragraphs still
/// separated by a blank line.
pub open spec fn cleaned_comment(text: Seq<char>) -> Seq<char> {
    joined(
        split_on(text, seq!['\n', '\n']).map_values(|p: Seq<char>| one_line(p)),
        seq!['\n', '\n'],
    )
}

/// `one_line` of `v[start..end]`, appended to `out`.
fn append_one_line(out: &mut Vec<char>, v: &[char], start: usize, end: usize)
    requires
        start <= end <= v@.len(),
    ensures
        final(out)@ == old(out)@ + one_line(v@.subrange(start as int, end as int)),
{
    let ghost whole = lines_of(v@.subrange(start as int, end as int)).map_values(
        |l: Seq<char>| trimmed(l),
    );
    let ghost init = out@;
    let mut pos = start;
    let ghost mut done: Seq<Seq<char>> = Seq::empty();
    let mut first = true;
    while pos < end
        invariant
            start <= pos <= end <= v@.len(),
            first == (done.len() == 0),
            whole == lines_of(v@.subrange(start as int, end as int)).map_values(
                |l: Seq<char>| trimmed(l),
            ),
            whole == done + lines_of(v@.subrange(pos as int, end as int)).map_values(
                |l: Seq<char>| trimmed(l),
            ),
            out@ == init + joined(done, seq![' ']),
        decreases end - pos,
    {
        let ghost s = v@.subrange(pos as int, end as int);
        let j = find_newline_in(v, pos, end);
        proof {
            lemma_first_newline(s);
        }
        let line_end = if j < end && j > pos && v[j - 1] == '\r' {
            j - 1
        } else {
            j
        };
        proof {
            if j < end && j > pos {
                assert(s[j - pos - 1] == v@[j - 1]);
            }
            assert(first_line(s) =~= v@.subrange(pos as int, line_end as int));
        }
        let next = if j < end {
            j + 1
        } else {
            end
        };
        proof {
            if j < end {
                assert(after_first_line(s) =~= v@.subrange(next as int, end as int));
            } else {
                assert(after_first_line(s) =~= v@.subrange(next as int, end as int));
            }
        }
        let t = trim_range(v, pos, line_end);
        let ghost prev = out@;
        if !first {
            out.push(' ');
        }
        first = false;
        extend_from_str(out, t.as_str());
        proof {
            let line = trimmed(first_line(s));
            assert(lines_of(s).map_values(|l: Seq<char>| trimmed(l)) =~= seq![line] + lines_of(
                after_first_line(s),
            ).map_values(|l: Seq<char>| trimmed(l)));
            let nd = done.push(line);
            assert(nd.drop_last() =~= done);
            if done.len() == 0 {
                assert(joined(nd, seq![' ']) == nd[0]);
            }
            assert(out@ =~= init + joined(nd, seq![' ']));
            assert(whole =~= nd + lines_of(v@.subrange(next as int, end as int)).map_values(
                |l: Seq<char>| trimmed(l),
            ));
            done = nd;
        }
        pos = next;
    }
    proof {
        assert(v@.subrange(pos as int, end as int) =~= Seq::<char>::empty());
        assert(whole =~= done);
    }
}

/// A proto comment block as one paragraph-preserving string.
pub fn clean_comment(text: &str) -> (res: String)
    ensures
        res@ == cleaned_comment(text@),
{
    let v = chars_of(text);
    let mut sep: Vec<char> = Vec::new();
    sep.push('\n');
    sep.push('\n');
    proof {
        assert(sep@ =~= seq!['\n', '\n']);
    }
    let ranges = split_ranges(v.as_slice(), sep.as_slice());
    let ghost paras = split_on(v@, seq!['\n', '\n']).map_values(|p: Seq<char>| one_line(p));
    let mut out: Vec<char> = Vec::new();
    let mut k: usize = 0;
    while k < ranges.len()
        invariant
            k <= ranges@.len(),
            ranges@.len() == split_on(v@, seq!['\n', '\n']).len(),
            paras == split_on(v@, seq!['\n', '\n']).map_values(|p: Seq<char>| one_line(p)),
            forall|j: int|
                0 <= j < ranges@.len() ==> {
                    let (a, b) = #[trigger] ranges@[j];
                    a <= b <= v@.len() && v@.subrange(a as int, b as int) == split_on(
                        v@,
                        seq!['\n', '\n'],
                    )[j]
                },
            out@ == joined(paras.take(k as int), seq!['\n', '\n']),
        decreases ranges@.len() - k,
    {
        let (a, b) = ranges[k];
        let ghost prev = out@;
        if k > 0 {
            out.push('\n');
            out.push('\n');
        }
        append_one_line(&mut out, v.as_slice(), a, b);
        proof {
            assert(paras.take(k + 1).drop_last() =~= paras.take(k as int));
            assert(paras.take(k + 1).last() == paras[k as int]);
            if k == 0 {
                assert(joined(paras.take(1), seq!['\n', '\n']) == paras.take(1)[0]);
            }
            assert(out@ =~= joined(paras.take(k + 1), seq!['\n', '\n']));
        }
        k = k + 1;
    }
    proof {
        assert(paras.take(ranges@.len() as int) =~= paras);
    }
    string_from_chars(out.as_slice())
}

/// A JSON value as the schema is built: objects keep their keys in
/// insertion order, each key once.
#[derive(Debug, PartialEq)]
pub enum Json {
    Null,
    Bool(bool),
    Int(u64),
    Str(String),
    Array(Vec<Json>),
    Object(Vec<(String, Json)>),
}

/// The mathematical value of a [`Json`].
pub enum JsonView {
    Null,
    Bool(bool),
    Int(int),
    Str(Seq<char>),
    Array(Seq<JsonView>),
    Object(Seq<(Seq<char>, JsonView)>),
}

pub open spec fn json_view(j: Json) -> JsonView
    decreases j,
{
    match j {
        Json::Null => JsonView::Null,
        Json::Bool(b) => JsonView::Bool(b),
        Json::Int(n) => JsonView::Int(n as int),
        Json::Str(s) => JsonView::Str(s@),
        Json::Array(items) => JsonView::Array(
            Seq::new(
                items@.len(),
                |i: int|
                    if 0 <= i < items@.len() {
                        json_view(items@[i])
                    } else {
                        JsonView::Null
                    },
            ),
        ),
        Json::Object(entries) => JsonView::Object(
            Seq::new(
                entries@.len(),
                |i: int|
                    if 0 <= i < entries@.len() {
                        (entries@[i].0@, json_view(entries@[i].1))
                    } else {
                        (Seq::empty(), JsonView::Null)
                    },
            ),
        ),
    }
}

impl View for Json {
    type V = JsonView;

    open spec fn view(&self) -> JsonView {
        json_view(*self)
    }
}

/// The entries of an object, as values.
pub open spec fn entries_view(v: Seq<(String, Json)>) -> Seq<(Seq<char>, JsonView)> {
    Seq::new(v.len(), |i: int| (v[i].0@, json_view(v[i].1)))
}

/// The items of an array, as values.
pub open spec fn items_view(v: Seq<Json>) -> Seq<JsonView> {
    Seq::new(v.len(), |i: int| json_view(v[i]))
}

proof fn lemma_object_view(entries: Vec<(String, Json)>)
    ensures
        json_view(Json::Object(entries)) == JsonView::Object(entries_view(entries@)),
{
    let lhs = json_view(Json::Object(entries));
    if let JsonView::Object(s) = lhs {
        assert(s =~= entries_view(entries@));
    }
}

proof fn lemma_array_view(items: Vec<Json>)
    ensures
        json_view(Json::Array(items)) == JsonView::Array(items_view(items@)),
{
    let lhs = json_view(Json::Array(items));
    if let JsonView::Array(s) = lhs {
        assert(s =~= items_view(items@));
    }
}

/// The place of key `k` among `entries`, the first if several.
pub open spec fn entry_index(entries: Seq<(Seq<char>, JsonView)>, k: Seq<char>) -> Option<int>
    decreases entries.len(),
{
    if entries.len() == 0 {
        None
    } else if entries[0].0 == k {
        Some(0)
    } else {
        match entry_index(entries.drop_first(), k) {
            Some(i) => Some(i + 1),
            None => None,
        }
    }
}

/// `entries` with `k` set to `v`: in place if the key is there, else
/// added last.
pub open spec fn obj_insert(entries: Seq<(Seq<char>, JsonView)>, k: Seq<char>, v: JsonView) -> Seq<
    (Seq<char>, JsonView),
> {
    match entry_index(entries, k) {
        Some(i) => entries.update(i, (k, v)),
        None => entries.push((k, v)),
    }
}

proof fn lemma_entry_index(entries: Seq<(Seq<char>, JsonView)>, k: Seq<char>, n: int)
    requires
        0 <= n <= entries.len(),
        forall|j: int| 0 <= j < n ==> entries[j].0 != k,
    ensures
        n < entries.len() && entries[n].0 == k ==> entry_index(entries, k) == Some(n),
        n == entries.len() ==> entry_index(entries, k) is None,
    decreases n,
{
    if n > 0 {
        lemma_entry_index(entries.drop_first(), k, n - 1);
    } else if entries.len() > 0 {
    }
}

/// A string holding `s`.
fn owned(s: &str) -> (res: String)
    ensures
        res@ == s@,
{
    string_from_chars(chars_of(s).as_slice())
}

/// Sets `key` to `value` in an object's entries: in place if the key is
/// there, else last.
fn object_insert(entries: &mut Vec<(String, Json)>, key: String, value: Json)
    ensures
        entries_view(final(entries)@) == obj_insert(entries_view(old(entries)@), key@, value@),
{
    let ghost before = entries_view(entries@);
    let k = chars_of(key.as_str());
    let mut i: usize = 0;
    while i < entries.len()
        invariant
            i <= entries@.len(),
            k@ == key@,
            before == entries_view(entries@),
            before == entries_view(old(entries)@),
            forall|j: int| 0 <= j < i ==> before[j].0 != key@,
        decreases entries@.len() - i,
    {
        if chars_eq(chars_of(entries[i].0.as_str()).as_slice(), k.as_slice()) {
            proof {
                assert(before[i as int].0 == key@);
                lemma_entry_index(before, key@, i as int);
            }
            let ghost v = value@;
            entries.set(i, (key, value));
            proof {
                assert(entries_view(entries@) =~= before.update(i as int, (key@, v)));
            }
            return;
        }
        i = i + 1;
    }
    proof {
        lemma_entry_index(before, key@, i as int);
    }
    let ghost v = value@;
    entries.push((key, value));
    proof {
        assert(entries_view(entries@) =~= before.push((key@, v)));
    }
}

/// Adds `key` with `value` last.
fn push_entry(entries: &mut Vec<(String, Json)>, key: &str, value: Json)
    ensures
        entries_view(final(entries)@) == entries_view(old(entries)@).push((key@, value@)),
{
    let ghost before = entries_view(entries@);
    let ghost v = value@;
    entries.push((owned(key), value));
    proof {
        assert(entries_view(entries@) =~= before.push((key@, v)));
    }
}

/// Adds `item` last.
fn push_item(items: &mut Vec<Json>, item: Json)
    ensures
        items_view(final(items)@) == items_view(old(items)@).push(item@),
{
    let ghost before = items_view(items@);
    let ghost v = item@;
    items.push(item);
    proof {
        assert(items_view(items@) =~= before.push(v));
    }
}

/// `{ "type": t }`.
pub open spec fn typed(t: Seq<char>) -> JsonView {
    JsonView::Object(seq![("type"@, JsonView::Str(t))])
}

fn typed_json(t: &str) -> (res: Json)
    ensures
        res@ == typed(t@),
{
    let mut e: Vec<(String, Json)> = Vec::new();
    push_entry(&mut e, "type", Json::Str(owned(t)));
    proof {
        lemma_object_view(e);
        assert(entries_view(e@) =~= seq![("type"@, JsonView::Str(t@))]);
    }
    Json::Object(e)
}

/// One-entry object `{ key: value }`.
fn single(key: &str, value: Json) -> (res: Json)
    ensures
        res@ == JsonView::Object(seq![(key@, value@)]),
{
    let ghost v = value@;
    let mut e: Vec<(String, Json)> = Vec::new();
    push_entry(&mut e, key, value);
    proof {
        lemma_object_view(e);
        assert(entries_view(e@) =~= seq![(key@, v)]);
    }
    Json::Object(e)
}

/// Two-item array `[a, b]`.
fn pair(a: Json, b: Json) -> (res: Json)
    ensures
        res@ == JsonView::Array(seq![a@, b@]),
{
    let ghost (va, vb) = (a@, b@);
    let mut items: Vec<Json> = Vec::new();
    push_item(&mut items, a);
    push_item(&mut items, b);
    proof {
        lemma_array_view(items);
        assert(items_view(items@) =~= seq![va, vb]);
    }
    Json::Array(items)
}

/// A field's protobuf type.
#[derive(Clone, Copy, Debug, PartialEq, Eq, Structural)]
pub enum FieldType {
    Double,
    Float,
    Int64,
    Uint64,
    Int32,
    Fixed64,
    Fixed32,
    Bool,
    /// `string`
    Text,
    Group,
    Message,
    Bytes,
    Uint32,
    Enum,
    Sfixed32,
    Sfixed64,
    Sint32,
    Sint64,
}

/// What the schema reads of one field of a message descriptor.
#[derive(Debug)]
pub struct FieldDesc {
    pub name: String,
    /// The JSON name the descriptor declares, if any.
    pub json_name: Option<String>,
    pub field_type: FieldType,
    /// The referenced message or enum, fully qualified (`.pkg.Name`).
    pub type_ref: String,
    pub repeated: bool,
    pub oneof_index: Option<i32>,
    pub proto3_optional: bool,
}

/// What the schema reads of a message descriptor.
#[derive(Debug)]
pub struct MessageDesc {
    pub name: String,
    pub fields: Vec<FieldDesc>,
    /// How many oneofs it declares (proto3 `optional`'s included).
    pub oneof_count: usize,
}

/// A comment the source info attaches to a path into the file's
/// descriptor: `[4, i]` is the i-th message, `[4, i, 2, j]` its j-th
/// field.
#[derive(Debug)]
pub struct SourceComment {
    pub path: Vec<i32>,
    pub leading: String,
}

/// What the schema reads of one file of a descriptor set.
#[derive(Debug)]
pub struct FileDesc {
    pub package: String,
    pub messages: Vec<MessageDesc>,
    pub comments: Vec<SourceComment>,
}

/// A field that refers to another message.
pub open spec fn is_message_type(t: FieldType) -> bool {
    t == FieldType::Message || t == FieldType::Group
}

/// `{ "$ref": "#/definitions/<short name>" }`.
pub open spec fn def_ref(type_ref: Seq<char>) -> JsonView {
    JsonView::Object(seq![("$ref"@, JsonView::Str("#/definitions/"@ + short_name_of(type_ref)))])
}

/// The schema of one value of field `f`.
pub open spec fn item_schema(f: FieldDesc) -> JsonView {
    match f.field_type {
        FieldType::Double | FieldType::Float => typed("number"@),
        FieldType::Int32 | FieldType::Uint32 | FieldType::Sint32 | FieldType::Fixed32
        | FieldType::Sfixed32 => typed("integer"@),
        FieldType::Int64 | FieldType::Uint64 | FieldType::Sint64 | FieldType::Fixed64
        | FieldType::Sfixed64 => JsonView::Object(
            seq![("type"@, JsonView::Array(seq![JsonView::Str("integer"@), JsonView::Str("string"@)]))],
        ),
        FieldType::Bool => typed("boolean"@),
        FieldType::Text | FieldType::Bytes | FieldType::Enum => typed("string"@),
        FieldType::Message | FieldType::Group => def_ref(f.type_ref@),
    }
}

/// The schema of field `f`: an array of its values when repeated; its
/// value or `null` when it is a message or a proto3 `optional`.
pub open spec fn field_schema_of(f: FieldDesc) -> JsonView {
    if f.repeated {
        JsonView::Object(seq![("type"@, JsonView::Str("array"@)), ("items"@, item_schema(f))])
    } else if f.field_type == FieldType::Message || f.proto3_optional {
        JsonView::Object(seq![("anyOf"@, JsonView::Array(seq![item_schema(f), typed("null"@)]))])
    } else {
        item_schema(f)
    }
}

fn item_json(f: &FieldDesc) -> (res: Json)
    ensures
        res@ == item_schema(*f),
{
    match f.field_type {
        FieldType::Double | FieldType::Float => typed_json("number"),
        FieldType::Int32 | FieldType::Uint32 | FieldType::Sint32 | FieldType::Fixed32
        | FieldType::Sfixed32 => typed_json("integer"),
        FieldType::Int64 | FieldType::Uint64 | FieldType::Sint64 | FieldType::Fixed64
        | FieldType::Sfixed64 => single("type", pair(Json::Str(owned("integer")), Json::Str(owned("string")))),
        FieldType::Bool => typed_json("boolean"),
        FieldType::Text | FieldType::Bytes | FieldType::Enum => typed_json("string"),
        FieldType::Message | FieldType::Group => {
            let mut r: Vec<char> = Vec::new();
            extend_from_str(&mut r, "#/definitions/");
            let short = short_name(f.type_ref.as_str());
            extend_from_str(&mut r, short.as_str());
            single("$ref", Json::Str(string_from_chars(r.as_slice())))
        },
    }
}

/// The JSON Schema of a field's value, as the descriptor's JSON mapping
/// reads and writes it.
pub fn field_schema(f: &FieldDesc) -> (res: Json)
    ensures
        res@ == field_schema_of(*f),
{
    let item = item_json(f);
    if f.repeated {
        let ghost it = item@;
        let mut e: Vec<(String, Json)> = Vec::new();
        push_entry(&mut e, "type", Json::Str(owned("array")));
        push_entry(&mut e, "items", item);
        proof {
            lemma_object_view(e);
            assert(entries_view(e@) =~= seq![("type"@, JsonView::Str("array"@)), ("items"@, it)]);
        }
        return Json::Object(e);
    }
    if f.field_type == FieldType::Message || f.proto3_optional {
        return single("anyOf", pair(item, typed_json("null")));
    }
    item
}

/// The descriptors a schema is built from: messages by fully qualified
/// name (`.pkg.Name`), and the comments of messages (`.pkg.Name`) and
/// fields (`.pkg.Name.field`).
pub struct Schema {
    pub messages: KeyedMap<MessageDesc>,
    pub docs: KeyedMap<String>,
}

/// The comment kept for `key`, if any.
pub open spec fn doc_of(docs: Map<Seq<char>, String>, key: Seq<char>) -> Option<Seq<char>> {
    if docs.dom().contains(key) {
        Some(docs[key]@)
    } else {
        None
    }
}

/// Where a field's comment is kept.
pub open spec fn field_doc_key(full: Seq<char>, f: FieldDesc) -> Seq<char> {
    full + "."@ + f.name@
}

/// The JSON name of `f`.
pub open spec fn json_name_of(f: FieldDesc) -> Seq<char> {
    match f.json_name {
        Some(d) => d@,
        None => camel_case(f.name@),
    }
}

/// `s` with a `description` when there is a comment for it.
pub open spec fn described(s: JsonView, doc: Option<Seq<char>>) -> JsonView {
    match doc {
        Some(d) => match s {
            JsonView::Object(e) => JsonView::Object(obj_insert(e, "description"@, JsonView::Str(d))),
            _ => s,
        },
        None => s,
    }
}

/// A message's `properties`: each field's schema under its JSON name,
/// in field order (a later field with the same JSON name replacing).
pub open spec fn properties_of(docs: Map<Seq<char>, String>, full: Seq<char>, fields: Seq<FieldDesc>) -> Seq<
    (Seq<char>, JsonView),
>
    decreases fields.len(),
{
    if fields.len() == 0 {
        Seq::empty()
    } else {
        let f = fields.last();
        obj_insert(
            properties_of(docs, full, fields.drop_last()),
            json_name_of(f),
            described(field_schema_of(f), doc_of(docs, field_doc_key(full, f))),
        )
    }
}

/// `f` is a member of the `index`-th oneof (not a proto3 `optional`).
pub open spec fn in_oneof(f: FieldDesc, index: int) -> bool {
    &&& f.oneof_index matches Some(k) && k == index
    &&& !f.proto3_optional
}

/// The JSON names of the `index`-th oneof's members, in field order.
pub open spec fn oneof_members(fields: Seq<FieldDesc>, index: int) -> Seq<Seq<char>> {
    fields.filter(|f: FieldDesc| in_oneof(f, index)).map_values(|f: FieldDesc| json_name_of(f))
}

/// `{ "required": [a, b] }`.
pub open spec fn required_pair(a: Seq<char>, b: Seq<char>) -> JsonView {
    JsonView::Object(seq![("required"@, JsonView::Array(seq![JsonView::Str(a), JsonView::Str(b)]))])
}

/// The `required` pairs of `m[a]` with each later member, then those of
/// the members after it.
pub open spec fn pairs_from(m: Seq<Seq<char>>, a: int) -> Seq<JsonView>
    decreases m.len() - a,
{
    if a < 0 || a >= m.len() {
        Seq::empty()
    } else {
        m.skip(a + 1).map_values(|b: Seq<char>| required_pair(m[a], b)) + pairs_from(m, a + 1)
    }
}

/// Every two members `a` before `b`, as `required` pairs, in order.
pub open spec fn member_pairs(m: Seq<Seq<char>>) -> Seq<JsonView> {
    pairs_from(m, 0)
}

/// At most one of the members set: `{ "not": { "anyOf": pairs } }`.
pub open spec fn exclusive(m: Seq<Seq<char>>) -> JsonView {
    JsonView::Object(
        seq![("not"@, JsonView::Object(seq![("anyOf"@, JsonView::Array(member_pairs(m)))]))],
    )
}

/// One `exclusive` clause per oneof among the first `n` with at least two
/// members.
pub open spec fn oneof_clauses(fields: Seq<FieldDesc>, n: int) -> Seq<JsonView>
    decreases n,
{
    if n <= 0 {
        Seq::empty()
    } else {
        let m = oneof_members(fields, n - 1);
        oneof_clauses(fields, n - 1) + if m.len() >= 2 {
            seq![exclusive(m)]
        } else {
            Seq::empty()
        }
    }
}

/// Some oneof among the first `n` has at least two members and is the
/// whole message.
pub open spec fn whole_oneof(fields: Seq<FieldDesc>, n: int) -> bool
    decreases n,
{
    if n <= 0 {
        false
    } else {
        let m = oneof_members(fields, n - 1);
        whole_oneof(fields, n - 1) || (m.len() >= 2 && m.len() == fields.len())
    }
}

/// The definition of message `m` named `full`: an object with exactly
/// its fields, its comment as description, and, for each real oneof, a
/// clause allowing at most one member (at least one property when a
/// oneof is all the message has).
pub open spec fn definition_of(docs: Map<Seq<char>, String>, full: Seq<char>, m: MessageDesc) -> JsonView {
    let clauses = oneof_clauses(m.fields@, m.oneof_count as int);
    JsonView::Object(
        seq![
            ("type"@, JsonView::Str("object"@)),
            ("properties"@, JsonView::Object(properties_of(docs, full, m.fields@))),
            ("additionalProperties"@, JsonView::Bool(false)),
        ] + match doc_of(docs, full) {
            Some(d) => seq![("description"@, JsonView::Str(d))],
            None => Seq::empty(),
        } + if whole_oneof(m.fields@, m.oneof_count as int) {
            seq![("minProperties"@, JsonView::Int(1))]
        } else {
            Seq::empty()
        } + if clauses.len() > 0 {
            seq![("allOf"@, JsonView::Array(clauses))]
        } else {
            Seq::empty()
        },
    )
}

/// `s` with `description` set to `doc` if it is an object.
fn with_description(s: Json, doc: &String) -> (res: Json)
    ensures
        res@ == described(s@, Some(doc@)),
{
    match s {
        Json::Object(mut e) => {
            proof {
                lemma_object_view(e);
            }
            object_insert(&mut e, owned("description"), Json::Str(doc.clone()));
            proof {
                lemma_object_view(e);
            }
            Json::Object(e)
        },
        other => other,
    }
}

/// The `required` pairs of `members`, every two in order.
fn pairs_json(members: &Vec<String>) -> (res: Vec<Json>)
    ensures
        items_view(res@) == member_pairs(strings_view(members@)),
{
    let ghost m = strings_view(members@);
    let mut out: Vec<Json> = Vec::new();
    let n = members.len();
    let mut a: usize = 0;
    while a < n
        invariant
            n == members@.len() == m.len(),
            m == strings_view(members@),
            a <= n,
            items_view(out@) + pairs_from(m, a as int) == member_pairs(m),
        decreases n - a,
    {
        let mut b = a + 1;
        proof {
            assert(pairs_from(m, a as int) == m.skip(a + 1).map_values(
                |x: Seq<char>| required_pair(m[a as int], x),
            ) + pairs_from(m, a + 1));
        }
        while b < n
            invariant
                n == members@.len() == m.len(),
                m == strings_view(members@),
                a < n,
                a + 1 <= b <= n,
                items_view(out@) + m.skip(b as int).map_values(
                    |x: Seq<char>| required_pair(m[a as int], x),
                ) + pairs_from(m, a + 1) == member_pairs(m),
            decreases n - b,
        {
            let ghost before = items_view(out@);
            let ghost tail = m.skip(b as int).map_values(|x: Seq<char>| required_pair(m[a as int], x));
            let ghost rest = m.skip(b + 1).map_values(|x: Seq<char>| required_pair(m[a as int], x));
            proof {
                assert(tail =~= seq![required_pair(m[a as int], m[b as int])] + rest);
            }
            let req = single("required", pair(Json::Str(members[a].clone()), Json::Str(members[b].clone())));
            push_item(&mut out, req);
            proof {
                assert(items_view(out@) + rest + pairs_from(m, a + 1) =~= before + tail + pairs_from(
                    m,
                    a + 1,
                ));
            }
            b = b + 1;
        }
        proof {
            assert(m.skip(n as int).map_values(|x: Seq<char>| required_pair(m[a as int], x))
                =~= Seq::<JsonView>::empty());
            assert(items_view(out@) + pairs_from(m, a + 1) =~= items_view(out@) + Seq::<JsonView>::empty()
                + pairs_from(m, a + 1));
        }
        a = a + 1;
    }
    proof {
        assert(items_view(out@) + Seq::<JsonView>::empty() =~= items_view(out@));
    }
    out
}

/// Whether `f` is a member of the `index`-th oneof.
fn member_of(f: &FieldDesc, index: usize) -> (res: bool)
    ensures
        res == in_oneof(*f, index as int),
{
    let listed = match f.oneof_index {
        Some(k) => k >= 0 && k as usize == index,
        None => false,
    };
    listed && !f.proto3_optional
}

/// The JSON names of the `index`-th oneof's members.
fn members_of(fields: &Vec<FieldDesc>, index: usize) -> (res: Vec<String>)
    ensures
        strings_view(res@) == oneof_members(fields@, index as int),
{
    let ghost pred = |f: FieldDesc| in_oneof(f, index as int);
    let mut out: Vec<String> = Vec::new();
    let mut j: usize = 0;
    while j < fields.len()
        invariant
            j <= fields@.len(),
            pred == (|f: FieldDesc| in_oneof(f, index as int)),
            strings_view(out@) == fields@.take(j as int).filter(pred).map_values(
                |f: FieldDesc| json_name_of(f),
            ),
        decreases fields@.len() - j,
    {
        let f = &fields[j];
        proof {
            assert(fields@.take(j + 1) =~= fields@.take(j as int).push(*f));
            fields@.take(j as int).lemma_filter_push(*f, pred);
        }
        if member_of(f, index) {
            let ghost before = out@;
            let name = json_name(f.name.as_str(), &f.json_name);
            out.push(name);
            proof {
                let fl = fields@.take(j as int).filter(pred);
                assert(fl.push(*f).map_values(|g: FieldDesc| json_name_of(g)) =~= fl.map_values(
                    |g: FieldDesc| json_name_of(g),
                ).push(json_name_of(*f)));
                assert(strings_view(out@) =~= strings_view(before).push(name@));
            }
        }
        j = j + 1;
    }
    proof {
        assert(fields@.take(fields@.len() as int) =~= fields@);
    }
    out
}

/// `left` followed by `.` and `right`.
fn dotted(left: &str, right: &str) -> (res: String)
    ensures
        res@ == left@ + "."@ + right@,
{
    let mut v: Vec<char> = Vec::new();
    extend_from_str(&mut v, left);
    extend_from_str(&mut v, ".");
    extend_from_str(&mut v, right);
    string_from_chars(v.as_slice())
}

impl Schema {
    /// Message `m`'s definition, `full` being its fully qualified name.
    pub fn message_definition(&self, full: &str, m: &MessageDesc) -> (res: Json)
        ensures
            res@ == definition_of(self.docs.map(), full@, *m),
    {
        let ghost docs = self.docs.map();
        let fields = &m.fields;
        // properties
        let mut props: Vec<(String, Json)> = Vec::new();
        let mut j: usize = 0;
        while j < fields.len()
            invariant
                j <= fields@.len(),
                docs == self.docs.map(),
                entries_view(props@) == properties_of(docs, full@, fields@.take(j as int)),
            decreases fields@.len() - j,
        {
            let f = &fields[j];
            let mut schema = field_schema(f);
            let key = dotted(full, f.name.as_str());
            match self.docs.get(key.as_str()) {
                Some(doc) => {
                    schema = with_description(schema, doc);
                },
                None => {},
            }
            proof {
                assert(fields@.take(j + 1).drop_last() =~= fields@.take(j as int));
                assert(fields@.take(j + 1).last() == *f);
            }
            object_insert(&mut props, json_name(f.name.as_str(), &f.json_name), schema);
            j = j + 1;
        }
        proof {
            assert(fields@.take(fields@.len() as int) =~= fields@);
        }
        // oneofs
        let mut clauses: Vec<Json> = Vec::new();
        let mut whole = false;
        let mut index: usize = 0;
        while index < m.oneof_count
            invariant
                index <= m.oneof_count,
                fields == &m.fields,
                items_view(clauses@) == oneof_clauses(fields@, index as int),
                whole == whole_oneof(fields@, index as int),
            decreases m.oneof_count - index,
        {
            let members = members_of(fields, index);
            let ghost before = items_view(clauses@);
            if members.len() >= 2 {
                let pairs = pairs_json(&members);
                proof {
                    lemma_array_view(pairs);
                }
                let clause = single("not", single("anyOf", Json::Array(pairs)));
                push_item(&mut clauses, clause);
                if members.len() == fields.len() {
                    whole = true;
                }
                proof {
                    assert(items_view(clauses@) =~= before + seq![exclusive(strings_view(members@))]);
                }
            } else {
                proof {
                    assert(items_view(clauses@) =~= before + Seq::<JsonView>::empty());
                }
            }
            index = index + 1;
        }
        // the definition
        let ghost clause_views = items_view(clauses@);
        let mut def: Vec<(String, Json)> = Vec::new();
        push_entry(&mut def, "type", Json::Str(owned("object")));
        proof {
            lemma_object_view(props);
        }
        push_entry(&mut def, "properties", Json::Object(props));
        push_entry(&mut def, "additionalProperties", Json::Bool(false));
        let ghost base = entries_view(def@);
        let doc = self.docs.get(full);
        match doc {
            Some(d) => {
                push_entry(&mut def, "description", Json::Str(d.clone()));
            },
            None => {},
        }
        let ghost with_doc = entries_view(def@);
        if whole {
            push_entry(&mut def, "minProperties", Json::Int(1));
        }
        let ghost with_min = entries_view(def@);
        if clauses.len() > 0 {
            proof {
                lemma_array_view(clauses);
            }
            push_entry(&mut def, "allOf", Json::Array(clauses));
        }
        proof {
            lemma_object_view(def);
            assert(base =~= seq![
                ("type"@, JsonView::Str("object"@)),
                ("properties"@, JsonView::Object(properties_of(docs, full@, m.fields@))),
                ("additionalProperties"@, JsonView::Bool(false)),
            ]);
            let tail_doc = match doc_of(docs, full@) {
                Some(x) => seq![("description"@, JsonView::Str(x))],
                None => Seq::<(Seq<char>, JsonView)>::empty(),
            };
            assert(with_doc =~= base + tail_doc);
            let tail_min = if whole_oneof(fields@, m.oneof_count as int) {
                seq![("minProperties"@, JsonView::Int(1))]
            } else {
                Seq::<(Seq<char>, JsonView)>::empty()
            };
            assert(with_min =~= base + tail_doc + tail_min);
            let tail_all = if clause_views.len() > 0 {
                seq![("allOf"@, JsonView::Array(clause_views))]
            } else {
                Seq::<(Seq<char>, JsonView)>::empty()
            };
            assert(entries_view(def@) =~= base + tail_doc + tail_min + tail_all);
        }
        Json::Object(def)
    }
}

impl Schema {
    /// Every message-typed field of every message names a message of the
    /// schema.
    pub open spec fn closed(self) -> bool {
        messages_closed(self.messages.map())
    }

    /// Message `a` has a field of message type `b`.
    pub open spec fn refers_to(self, a: Seq<char>, b: Seq<char>) -> bool {
        &&& self.messages.map().dom().contains(a)
        &&& exists|j: int|
            0 <= j < self.messages.map()[a].fields@.len() && is_message_type(
                #[trigger] self.messages.map()[a].fields@[j].field_type,
            ) && self.messages.map()[a].fields@[j].type_ref@ == b
    }

    /// `b` is `d` field references away from `a`.
    pub open spec fn reaches(self, a: Seq<char>, b: Seq<char>, d: nat) -> bool
        decreases d,
    {
        if d == 0 {
            a == b
        } else {
            exists|c: Seq<char>| #[trigger] self.refers_to(a, c) && self.reaches(c, b, (d - 1) as nat)
        }
    }

    /// `b` is some number of field references away from `a`.
    pub open spec fn reachable(self, a: Seq<char>, b: Seq<char>) -> bool {
        exists|d: nat| #[trigger] self.reaches(a, b, d)
    }

    /// Every message `n` refers to has a definition in `out`.
    pub open spec fn refs_defined(self, out: Map<Seq<char>, Json>, n: Seq<char>) -> bool {
        forall|j: int|
            0 <= j < self.messages.map()[n].fields@.len() && is_message_type(
                #[trigger] self.messages.map()[n].fields@[j].field_type,
            ) ==> out.dom().contains(short_name_of(self.messages.map()[n].fields@[j].type_ref@))
    }

    /// `out[k]` is the definition of a message `n` reachable from `root`
    /// whose short name is `k`, and whatever `n` refers to is in `out`.
    pub open spec fn defined_at(self, out: Map<Seq<char>, Json>, k: Seq<char>, root: Seq<char>) -> bool {
        exists|n: Seq<char>|
            #![trigger self.reachable(root, n)]
            short_name_of(n) == k && self.messages.map().dom().contains(n) && self.reachable(root, n)
                && out[k]@ == definition_of(self.docs.map(), n, self.messages.map()[n])
                && self.refs_defined(out, n)
    }

    /// The messages whose short names `out` has no entry for yet.
    pub open spec fn unreserved_set(self, out: Map<Seq<char>, Json>) -> Set<Seq<char>> {
        self.messages.map().dom().filter(|n: Seq<char>| !out.dom().contains(short_name_of(n)))
    }

    pub open spec fn unreserved(self, out: Map<Seq<char>, Json>) -> nat {
        self.unreserved_set(out).len()
    }

    proof fn lemma_fewer_unreserved(
        self,
        before: Map<Seq<char>, Json>,
        after: Map<Seq<char>, Json>,
        full: Seq<char>,
    )
        requires
            self.messages.map().dom().contains(full),
            !before.dom().contains(short_name_of(full)),
            after.dom().contains(short_name_of(full)),
            before.dom().subset_of(after.dom()),
        ensures
            self.unreserved(after) < self.unreserved(before),
    {
        self.messages.lemma_finite();
        let dom = self.messages.map().dom();
        let a = self.unreserved_set(before);
        let b = self.unreserved_set(after);
        dom.lemma_len_filter(|n: Seq<char>| !before.dom().contains(short_name_of(n)));
        assert(a.contains(full));
        assert(b.subset_of(a.remove(full)));
        vstd::set_lib::lemma_len_subset(b, a.remove(full));
    }

    proof fn lemma_reach_step(self, a: Seq<char>, c: Seq<char>, b: Seq<char>)
        requires
            self.refers_to(a, c),
            self.reachable(c, b),
        ensures
            self.reachable(a, b),
    {
        let d = choose|d: nat| #[trigger] self.reaches(c, b, d);
        assert(self.reaches(a, b, d + 1));
    }

    proof fn lemma_reach_self(self, a: Seq<char>)
        ensures
            self.reachable(a, a),
    {
        assert(self.reaches(a, a, 0));
    }

    /// Adds to `out` (keyed by short name) the definition of message
    /// `full_name` and of every message it reaches, unless already there.
    fn definition(&self, full_name: &str, out: &mut KeyedMap<Json>)
        requires
            self.closed(),
            self.messages.map().dom().contains(full_name@),
        ensures
            forall|k: Seq<char>|
                #![trigger old(out).map().dom().contains(k)]
                old(out).map().dom().contains(k) ==> final(out).map().dom().contains(k)
                    && final(out).map()[k] == old(out).map()[k],
            final(out).map().dom().contains(short_name_of(full_name@)),
            forall|k: Seq<char>|
                #![trigger final(out).map().dom().contains(k)]
                final(out).map().dom().contains(k) && !old(out).map().dom().contains(k)
                    ==> self.defined_at(final(out).map(), k, full_name@),
        decreases self.unreserved(old(out).map()),
    {
        let short = short_name(full_name);
        if out.get(short.as_str()).is_some() {
            return;
        }
        let ghost start = out.map();
        out.insert(short.clone(), Json::Null);
        let message = self.messages.get(full_name).unwrap();
        let fields = &message.fields;
        let mut j: usize = 0;
        while j < fields.len()
            invariant
                self.closed(),
                self.messages.map().dom().contains(full_name@),
                *message == self.messages.map()[full_name@],
                fields == &message.fields,
                j <= fields@.len(),
                start == old(out).map(),
                !start.dom().contains(short@),
                short@ == short_name_of(full_name@),
                out.map().dom().contains(short@),
                out.map()[short@] == Json::Null,
                forall|k: Seq<char>|
                    #![trigger start.dom().contains(k)]
                    start.dom().contains(k) ==> out.map().dom().contains(k) && out.map()[k] == start[k],
                forall|k: Seq<char>|
                    #![trigger out.map().dom().contains(k)]
                    out.map().dom().contains(k) && !start.dom().contains(k) && k != short@
                        ==> self.defined_at(out.map(), k, full_name@),
                forall|i: int|
                    0 <= i < j && is_message_type(#[trigger] fields@[i].field_type)
                        ==> out.map().dom().contains(short_name_of(fields@[i].type_ref@)),
            decreases fields@.len() - j,
        {
            let f = &fields[j];
            if f.field_type == FieldType::Message || f.field_type == FieldType::Group {
                let ghost before = out.map();
                proof {
                    assert(self.messages.map()[full_name@].fields@[j as int] == *f);
                    assert(before.dom().contains(short@));
                    assert(start.dom().subset_of(before.dom()));
                    self.lemma_fewer_unreserved(start, before, full_name@);
                }
                self.definition(f.type_ref.as_str(), out);
                proof {
                    assert(self.refers_to(full_name@, f.type_ref@));
                    assert forall|k: Seq<char>|
                        #![trigger out.map().dom().contains(k)]
                        out.map().dom().contains(k) && !start.dom().contains(k) && k != short@
                            implies self.defined_at(out.map(), k, full_name@) by {
                        if before.dom().contains(k) {
                            assert(self.defined_at(before, k, full_name@));
                            let n = choose|n: Seq<char>|
                                #![trigger self.reachable(full_name@, n)]
                                short_name_of(n) == k && self.messages.map().dom().contains(n)
                                    && self.reachable(full_name@, n) && before[k]@ == definition_of(
                                    self.docs.map(),
                                    n,
                                    self.messages.map()[n],
                                ) && self.refs_defined(before, n);
                            assert(self.refs_defined(out.map(), n));
                        } else {
                            assert(self.defined_at(out.map(), k, f.type_ref@));
                            let n = choose|n: Seq<char>|
                                #![trigger self.reachable(f.type_ref@, n)]
                                short_name_of(n) == k && self.messages.map().dom().contains(n)
                                    && self.reachable(f.type_ref@, n) && out.map()[k]@ == definition_of(
                                    self.docs.map(),
                                    n,
                                    self.messages.map()[n],
                                ) && self.refs_defined(out.map(), n);
                            self.lemma_reach_step(full_name@, f.type_ref@, n);
                        }
                    }
                }
            }
            j = j + 1;
        }
        let def = self.message_definition(full_name, message);
        let ghost before = out.map();
        out.insert(short, def);
        proof {
            let fin = out.map();
            assert(self.refs_defined(fin, full_name@));
            self.lemma_reach_self(full_name@);
            assert(self.defined_at(fin, short_name_of(full_name@), full_name@));
            assert forall|k: Seq<char>|
                #![trigger fin.dom().contains(k)]
                fin.dom().contains(k) && !start.dom().contains(k) implies self.defined_at(fin, k, full_name@) by {
                if k != short@ {
                    assert(before.dom().contains(k));
                    assert(self.defined_at(before, k, full_name@));
                    let n = choose|n: Seq<char>|
                        #![trigger self.reachable(full_name@, n)]
                        short_name_of(n) == k && self.messages.map().dom().contains(n)
                            && self.reachable(full_name@, n) && before[k]@ == definition_of(
                            self.docs.map(),
                            n,
                            self.messages.map()[n],
                        ) && self.refs_defined(before, n);
                    assert(self.refs_defined(fin, n));
                }
            }
        }
    }
}

/// A message's fully qualified name: `.package.Name`.
pub open spec fn qualified(package: Seq<char>, name: Seq<char>) -> Seq<char> {
    "."@ + package + "."@ + name
}

/// A source-info path as integers.
pub open spec fn path_view(p: Seq<i32>) -> Seq<int> {
    p.map_values(|x: i32| x as int)
}

/// The comment recorded for `path`: of the non-blank ones, the last,
/// trimmed and with each paragraph on one line.
pub open spec fn comment_at(comments: Seq<SourceComment>, path: Seq<int>) -> Option<Seq<char>>
    decreases comments.len(),
{
    if comments.len() == 0 {
        None
    } else {
        let c = comments.last();
        if path_view(c.path@) == path && trimmed(c.leading@).len() > 0 {
            Some(cleaned_comment(trimmed(c.leading@)))
        } else {
            comment_at(comments.drop_last(), path)
        }
    }
}

/// `m` with the file's first messages added under their qualified names.
pub open spec fn add_messages(m: Map<Seq<char>, MessageDesc>, package: Seq<char>, msgs: Seq<MessageDesc>) -> Map<
    Seq<char>,
    MessageDesc,
>
    decreases msgs.len(),
{
    if msgs.len() == 0 {
        m
    } else {
        add_messages(m, package, msgs.drop_last()).insert(qualified(package, msgs.last().name@), msgs.last())
    }
}

/// The messages of a descriptor set, file after file, a later one of the
/// same name replacing an earlier one.
pub open spec fn loaded_messages(files: Seq<FileDesc>) -> Map<Seq<char>, MessageDesc>
    decreases files.len(),
{
    if files.len() == 0 {
        Map::empty()
    } else {
        add_messages(loaded_messages(files.drop_last()), files.last().package@, files.last().messages@)
    }
}

/// `d` with the comment recorded for `path`, if any, kept under `key`.
pub open spec fn with_doc(d: Map<Seq<char>, Seq<char>>, comments: Seq<SourceComment>, path: Seq<int>, key: Seq<char>) -> Map<
    Seq<char>,
    Seq<char>,
> {
    match comment_at(comments, path) {
        Some(c) => d.insert(key, c),
        None => d,
    }
}

/// `d` with the comments of the first fields of the `i`-th message,
/// named `name`.
pub open spec fn field_docs(
    d: Map<Seq<char>, Seq<char>>,
    comments: Seq<SourceComment>,
    i: int,
    name: Seq<char>,
    fields: Seq<FieldDesc>,
) -> Map<Seq<char>, Seq<char>>
    decreases fields.len(),
{
    if fields.len() == 0 {
        d
    } else {
        let j = fields.len() - 1;
        with_doc(
            field_docs(d, comments, i, name, fields.drop_last()),
            comments,
            seq![4, i, 2, j],
            name + "."@ + fields.last().name@,
        )
    }
}

/// `d` with the comments of a file's first messages and their fields.
pub open spec fn message_docs(
    d: Map<Seq<char>, Seq<char>>,
    package: Seq<char>,
    comments: Seq<SourceComment>,
    msgs: Seq<MessageDesc>,
) -> Map<Seq<char>, Seq<char>>
    decreases msgs.len(),
{
    if msgs.len() == 0 {
        d
    } else {
        let i = msgs.len() - 1;
        let name = qualified(package, msgs.last().name@);
        field_docs(
            with_doc(message_docs(d, package, comments, msgs.drop_last()), comments, seq![4, i], name),
            comments,
            i,
            name,
            msgs.last().fields@,
        )
    }
}

/// The comments of a descriptor set's messages and fields, file after
/// file, by qualified name (`.pkg.Name`, `.pkg.Name.field`).
pub open spec fn loaded_docs(files: Seq<FileDesc>) -> Map<Seq<char>, Seq<char>>
    decreases files.len(),
{
    if files.len() == 0 {
        Map::empty()
    } else {
        let f = files.last();
        message_docs(loaded_docs(files.drop_last()), f.package@, f.comments@, f.messages@)
    }
}

/// The comments kept, as values.
pub open spec fn docs_view(d: Map<Seq<char>, String>) -> Map<Seq<char>, Seq<char>> {
    d.map_values(|s: String| s@)
}

/// Whether `p` is the path `target`.
fn path_is(p: &Vec<i32>, target: &Vec<usize>) -> (res: bool)
    ensures
        res == (path_view(p@) == target@.map_values(|x: usize| x as int)),
{
    let ghost t = target@.map_values(|x: usize| x as int);
    if p.len() != target.len() {
        proof {
            assert(path_view(p@).len() != t.len());
        }
        return false;
    }
    let mut k: usize = 0;
    while k < p.len()
        invariant
            k <= p@.len() == target@.len(),
            t == target@.map_values(|x: usize| x as int),
            forall|i: int| 0 <= i < k ==> path_view(p@)[i] == t[i],
        decreases p@.len() - k,
    {
        if p[k] < 0 || p[k] as usize != target[k] {
            proof {
                assert(path_view(p@)[k as int] != t[k as int]);
            }
            return false;
        }
        k = k + 1;
    }
    proof {
        assert(path_view(p@) =~= t);
    }
    true
}

/// The comment recorded for `path`.
fn comment_for(comments: &Vec<SourceComment>, path: &Vec<usize>) -> (res: Option<String>)
    ensures
        match res {
            Some(c) => comment_at(comments@, path@.map_values(|x: usize| x as int)) == Some(c@),
            None => comment_at(comments@, path@.map_values(|x: usize| x as int)) is None,
        },
{
    let ghost t = path@.map_values(|x: usize| x as int);
    let mut k = comments.len();
    proof {
        assert(comments@.take(k as int) =~= comments@);
    }
    while k > 0
        invariant
            k <= comments@.len(),
            t == path@.map_values(|x: usize| x as int),
            comment_at(comments@, t) == comment_at(comments@.take(k as int), t),
        decreases k,
    {
        let c = &comments[k - 1];
        let lv = chars_of(c.leading.as_str());
        proof {
            assert(comments@.take(k as int).last() == *c);
            assert(comments@.take(k as int).drop_last() =~= comments@.take(k - 1));
            assert(lv@.subrange(0, lv@.len() as int) =~= lv@);
        }
        let text = trim_range(lv.as_slice(), 0, lv.len());
        if path_is(&c.path, path) && !text.as_str().is_empty() {
            return Some(clean_comment(text.as_str()));
        }
        k = k - 1;
    }
    None
}

/// `"." + package + "." + name`.
fn qualified_name(package: &str, name: &str) -> (res: String)
    ensures
        res@ == qualified(package@, name@),
{
    let mut v: Vec<char> = Vec::new();
    extend_from_str(&mut v, ".");
    extend_from_str(&mut v, package);
    extend_from_str(&mut v, ".");
    extend_from_str(&mut v, name);
    proof {
        assert(v@ =~= qualified(package@, name@));
    }
    string_from_chars(v.as_slice())
}

/// Keeps the comment recorded for `path`, if any, under `key`.
fn keep_doc(docs: &mut KeyedMap<String>, comments: &Vec<SourceComment>, path: &Vec<usize>, key: String)
    ensures
        docs_view(final(docs).map()) == with_doc(
            docs_view(old(docs).map()),
            comments@,
            path@.map_values(|x: usize| x as int),
            key@,
        ),
{
    match comment_for(comments, path) {
        Some(c) => {
            let ghost before = docs.map();
            let ghost cv = c@;
            docs.insert(key, c);
            proof {
                assert(docs_view(docs.map()) =~= docs_view(before).insert(key@, cv));
            }
        },
        None => {},
    }
}

/// Adds one file's messages, and the comments of those messages and of
/// their fields.
fn load_file(
    messages: &mut KeyedMap<MessageDesc>,
    docs: &mut KeyedMap<String>,
    package: &str,
    msgs: Vec<MessageDesc>,
    comments: &Vec<SourceComment>,
)
    ensures
        final(messages).map() == add_messages(old(messages).map(), package@, msgs@),
        docs_view(final(docs).map()) == message_docs(docs_view(old(docs).map()), package@, comments@, msgs@),
{
    let ghost orig = msgs@;
    let ghost m0 = messages.map();
    let ghost d0 = docs_view(docs.map());
    let n = msgs.len();
    let mut rest = msgs;
    let mut i: usize = 0;
    proof {
        assert(orig.take(0) =~= Seq::<MessageDesc>::empty());
        assert(orig.skip(0) =~= orig);
    }
    while rest.len() > 0
        invariant
            i <= orig.len() == n,
            rest@ == orig.skip(i as int),
            m0 == old(messages).map(),
            d0 == docs_view(old(docs).map()),
            messages.map() == add_messages(m0, package@, orig.take(i as int)),
            docs_view(docs.map()) == message_docs(d0, package@, comments@, orig.take(i as int)),
        decreases rest@.len(),
    {
        let m = rest.remove(0);
        proof {
            assert(m == orig[i as int]);
            assert(orig.take(i + 1).drop_last() =~= orig.take(i as int));
            assert(orig.take(i + 1).last() == orig[i as int]);
            assert(rest@ =~= orig.skip(i + 1));
        }
        let name = qualified_name(package, m.name.as_str());
        let mut path: Vec<usize> = Vec::new();
        path.push(4);
        path.push(i);
        proof {
            assert(path@.map_values(|x: usize| x as int) =~= seq![4int, i as int]);
        }
        let ghost after_msg = with_doc(
            message_docs(d0, package@, comments@, orig.take(i as int)),
            comments@,
            seq![4int, i as int],
            name@,
        );
        keep_doc(docs, comments, &path, name.clone());
        let fields = &m.fields;
        let mut j: usize = 0;
        proof {
            assert(fields@.take(0) =~= Seq::<FieldDesc>::empty());
        }
        while j < fields.len()
            invariant
                j <= fields@.len(),
                fields == &m.fields,
                docs_view(docs.map()) == field_docs(after_msg, comments@, i as int, name@, fields@.take(j as int)),
            decreases fields@.len() - j,
        {
            let mut fpath: Vec<usize> = Vec::new();
            fpath.push(4);
            fpath.push(i);
            fpath.push(2);
            fpath.push(j);
            proof {
                assert(fpath@.map_values(|x: usize| x as int) =~= seq![4int, i as int, 2int, j as int]);
                assert(fields@.take(j + 1).drop_last() =~= fields@.take(j as int));
                assert(fields@.take(j + 1).last() == fields@[j as int]);
            }
            keep_doc(docs, comments, &fpath, dotted(name.as_str(), fields[j].name.as_str()));
            j = j + 1;
        }
        proof {
            assert(fields@.take(fields@.len() as int) =~= fields@);
        }
        messages.insert(name, m);
        i = i + 1;
    }
    proof {
        assert(orig.take(i as int) =~= orig);
    }
}

impl Schema {
    /// The messages and comments of a descriptor set's files, in order (a
    /// later message or comment under the same name replacing an earlier
    /// one).
    pub fn load(files: Vec<FileDesc>) -> (res: Schema)
        ensures
            res.messages.map() == loaded_messages(files@),
            docs_view(res.docs.map()) == loaded_docs(files@),
    {
        let ghost orig = files@;
        let n = files.len();
        let mut rest = files;
        let mut messages: KeyedMap<MessageDesc> = KeyedMap::new();
        let mut docs: KeyedMap<String> = KeyedMap::new();
        let mut done: usize = 0;
        proof {
            assert(orig.take(0) =~= Seq::<FileDesc>::empty());
            assert(orig.skip(0) =~= orig);
            assert(docs_view(docs.map()) =~= Map::<Seq<char>, Seq<char>>::empty());
        }
        while rest.len() > 0
            invariant
                done <= orig.len() == n,
                rest@ == orig.skip(done as int),
                messages.map() == loaded_messages(orig.take(done as int)),
                docs_view(docs.map()) == loaded_docs(orig.take(done as int)),
            decreases rest@.len(),
        {
            let file = rest.remove(0);
            proof {
                assert(file == orig[done as int]);
                assert(orig.take(done + 1).drop_last() =~= orig.take(done as int));
                assert(orig.take(done + 1).last() == orig[done as int]);
                assert(rest@ =~= orig.skip(done + 1));
            }
            let FileDesc { package, messages: file_messages, comments } = file;
            load_file(&mut messages, &mut docs, package.as_str(), file_messages, &comments);
            done = done + 1;
        }
        proof {
            assert(orig.take(done as int) =~= orig);
        }
        Schema { messages, docs }
    }
}

/// The fully qualified name of a project's message.
pub open spec fn root_name() -> Seq<char> {
    ".hexen.v1.HexenProject"@
}

/// The schema document around its `definitions`.
pub open spec fn schema_document(defs: Seq<(Seq<char>, JsonView)>) -> JsonView {
    JsonView::Object(
        seq![
            ("$schema"@, JsonView::Str("http://json-schema.org/draft-07/schema#"@)),
            ("title"@, JsonView::Str("Hex Enductor project (.hexen.yml)"@)),
            (
                "description"@,
                JsonView::Str(
                    "Generated from schema/hexen/v1/*.proto by `cargo run -p hexen-cli -- schema`. Don't edit by hand."@,
                ),
            ),
            ("$ref"@, JsonView::Str("#/definitions/"@ + short_name_of(root_name()))),
            ("definitions"@, JsonView::Object(defs)),
        ],
    )
}

/// The `definitions` of a schema document.
pub open spec fn definitions_in(doc: JsonView) -> Seq<(Seq<char>, JsonView)> {
    match doc {
        JsonView::Object(e) => if e.len() == 5 {
            match e[4].1 {
                JsonView::Object(d) => d,
                _ => Seq::empty(),
            }
        } else {
            Seq::empty()
        },
        _ => Seq::empty(),
    }
}

impl Schema {
    /// Every message `n` refers to is listed in `defs`.
    pub open spec fn refs_listed(self, defs: Seq<(Seq<char>, JsonView)>, n: Seq<char>) -> bool {
        forall|j: int|
            0 <= j < self.messages.map()[n].fields@.len() && is_message_type(
                #[trigger] self.messages.map()[n].fields@[j].field_type,
            ) ==> exists|i: int|
                0 <= i < defs.len() && (#[trigger] defs[i]).0 == short_name_of(
                    self.messages.map()[n].fields@[j].type_ref@,
                )
    }

    /// `defs` holds, each under its short name once, the definitions of
    /// messages reachable from the project's message, that one included,
    /// and of whatever those refer to.
    pub open spec fn definitions_ok(self, defs: Seq<(Seq<char>, JsonView)>) -> bool {
        &&& forall|i: int, j: int| 0 <= i < j < defs.len() ==> (#[trigger] defs[i]).0 != (#[trigger] defs[j]).0
        &&& exists|i: int| 0 <= i < defs.len() && (#[trigger] defs[i]).0 == short_name_of(root_name())
        &&& forall|i: int|
            0 <= i < defs.len() ==> exists|n: Seq<char>|
                #![trigger self.reachable(root_name(), n)]
                short_name_of(n) == (#[trigger] defs[i]).0 && self.messages.map().dom().contains(n)
                    && self.reachable(root_name(), n) && defs[i].1 == definition_of(
                    self.docs.map(),
                    n,
                    self.messages.map()[n],
                ) && self.refs_listed(defs, n)
    }

    /// The JSON Schema of a project file: the project's message and every
    /// message it reaches, each defined once under its short name.
    pub fn generate(&self) -> (res: Json)
        requires
            self.closed(),
            self.messages.map().dom().contains(root_name()),
        ensures
            res@ == schema_document(definitions_in(res@)),
            self.definitions_ok(definitions_in(res@)),
    {
        let root = owned(".hexen.v1.HexenProject");
        proof {
            reveal_strlit(".hexen.v1.HexenProject");
        }
        let mut out: KeyedMap<Json> = KeyedMap::new();
        self.definition(root.as_str(), &mut out);
        let ghost map = out.map();
        let entries = out.into_entries();
        let ghost defs = entries_view(entries@);
        proof {
            let s = entries@;
            assert forall|i: int, j: int| 0 <= i < j < defs.len() implies (#[trigger] defs[i]).0
                != (#[trigger] defs[j]).0 by {
            }
            crate::keyed::lemma_listed_key(s, short_name_of(root_name()));
            let r = choose|i: int| 0 <= i < s.len() && (#[trigger] s[i]).0@ == short_name_of(root_name());
            assert(defs[r].0 == short_name_of(root_name()));
            assert forall|i: int| 0 <= i < defs.len() implies exists|n: Seq<char>|
                #![trigger self.reachable(root_name(), n)]
                short_name_of(n) == (#[trigger] defs[i]).0 && self.messages.map().dom().contains(n)
                    && self.reachable(root_name(), n) && defs[i].1 == definition_of(
                    self.docs.map(),
                    n,
                    self.messages.map()[n],
                ) && self.refs_listed(defs, n) by {
                let k = s[i].0@;
                crate::keyed::lemma_present_key(s, i);
                assert(map.dom().contains(k));
                assert(self.defined_at(map, k, root_name()));
                let n = choose|n: Seq<char>|
                    #![trigger self.reachable(root_name(), n)]
                    short_name_of(n) == k && self.messages.map().dom().contains(n)
                        && self.reachable(root_name(), n) && map[k]@ == definition_of(
                        self.docs.map(),
                        n,
                        self.messages.map()[n],
                    ) && self.refs_defined(map, n);
                assert forall|j: int|
                    0 <= j < self.messages.map()[n].fields@.len() && is_message_type(
                        #[trigger] self.messages.map()[n].fields@[j].field_type,
                    ) implies exists|i2: int|
                        0 <= i2 < defs.len() && (#[trigger] defs[i2]).0 == short_name_of(
                            self.messages.map()[n].fields@[j].type_ref@,
                        ) by {
                    let t = short_name_of(self.messages.map()[n].fields@[j].type_ref@);
                    crate::keyed::lemma_listed_key(s, t);
                    let i2 = choose|i2: int| 0 <= i2 < s.len() && (#[trigger] s[i2]).0@ == t;
                    assert(defs[i2].0 == t);
                }
            }
        }
        let mut doc: Vec<(String, Json)> = Vec::new();
        push_entry(&mut doc, "$schema", Json::Str(owned("http://json-schema.org/draft-07/schema#")));
        push_entry(&mut doc, "title", Json::Str(owned("Hex Enductor project (.hexen.yml)")));
        push_entry(
            &mut doc,
            "description",
            Json::Str(
                owned(
                    "Generated from schema/hexen/v1/*.proto by `cargo run -p hexen-cli -- schema`. Don't edit by hand.",
                ),
            ),
        );
        let mut r: Vec<char> = Vec::new();
        extend_from_str(&mut r, "#/definitions/");
        let short = short_name(root.as_str());
        extend_from_str(&mut r, short.as_str());
        push_entry(&mut doc, "$ref", Json::Str(string_from_chars(r.as_slice())));
        proof {
            lemma_object_view(entries);
        }
        push_entry(&mut doc, "definitions", Json::Object(entries));
        proof {
            lemma_object_view(doc);
            assert(entries_view(doc@) =~= match schema_document(defs) {
                JsonView::Object(e) => e,
                _ => Seq::empty(),
            });
            assert(definitions_in(json_view(Json::Object(doc))) == defs);
        }
        Json::Object(doc)
    }
}

impl Schema {
    /// Whether the schema can be generated: the project's message is
    /// there, and every message-typed field names a message that is.
    pub fn is_complete(&self) -> (res: bool)
        ensures
            res == (self.closed() && self.messages.map().dom().contains(root_name())),
    {
        let entries = self.messages.entries();
        let ghost map = self.messages.map();
        let mut i: usize = 0;
        while i < entries.len()
            invariant
                i <= entries@.len(),
                entries_map(entries@) == map,
                map == self.messages.map(),
                crate::keyed::distinct_keys(entries@),
                forall|a: int, j: int|
                    0 <= a < i && 0 <= j < entries@[a].1.fields@.len() && is_message_type(
                        #[trigger] entries@[a].1.fields@[j].field_type,
                    ) ==> map.dom().contains(entries@[a].1.fields@[j].type_ref@),
            decreases entries@.len() - i,
        {
            let fields = &entries[i].1.fields;
            let mut j: usize = 0;
            while j < fields.len()
                invariant
                    i < entries@.len(),
                    entries_map(entries@) == map,
                    crate::keyed::distinct_keys(entries@),
                    fields == &entries@[i as int].1.fields,
                    j <= fields@.len(),
                    map == self.messages.map(),
                    forall|b: int|
                        0 <= b < j && is_message_type(#[trigger] fields@[b].field_type)
                            ==> map.dom().contains(fields@[b].type_ref@),
                decreases fields@.len() - j,
            {
                let f = &fields[j];
                if f.field_type == FieldType::Message || f.field_type == FieldType::Group {
                    if self.messages.get(f.type_ref.as_str()).is_none() {
                        proof {
                            crate::keyed::lemma_present_key(entries@, i as int);
                            let n = entries@[i as int].0@;
                            assert(map[n].fields@[j as int] == *f);
                        }
                        return false;
                    }
                }
                j = j + 1;
            }
            proof {
                assert forall|a: int, b: int|
                    0 <= a < i + 1 && 0 <= b < entries@[a].1.fields@.len() && is_message_type(
                        #[trigger] entries@[a].1.fields@[b].field_type,
                    ) implies map.dom().contains(entries@[a].1.fields@[b].type_ref@) by {
                    if a == i {
                        assert(entries@[a].1.fields@[b] == fields@[b]);
                    }
                }
            }
            i = i + 1;
        }
        proof {
            assert forall|n: Seq<char>, j: int|
                map.dom().contains(n) && 0 <= j < map[n].fields@.len() && is_message_type(
                    #[trigger] map[n].fields@[j].field_type,
                ) implies map.dom().contains(map[n].fields@[j].type_ref@) by {
                crate::keyed::lemma_listed_key(entries@, n);
                let a = choose|a: int| 0 <= a < entries@.len() && (#[trigger] entries@[a]).0@ == n;
                crate::keyed::lemma_present_key(entries@, a);
                assert(entries@[a].1.fields@[j].field_type == map[n].fields@[j].field_type);
            }
        }
        let root = owned(".hexen.v1.HexenProject");
        proof {
            reveal_strlit(".hexen.v1.HexenProject");
        }
        self.messages.get(root.as_str()).is_some()
    }
}

/// Every message-typed field of every message of `m` names a message of
/// `m`.
pub open spec fn messages_closed(m: Map<Seq<char>, MessageDesc>) -> bool {
    forall|n: Seq<char>, j: int|
        m.dom().contains(n) && 0 <= j < m[n].fields@.len() && is_message_type(
            #[trigger] m[n].fields@[j].field_type,
        ) ==> m.dom().contains(m[n].fields@[j].type_ref@)
}

/// The schema can be generated from these files: the project's message
/// is among their messages, and every message-typed field names one.
pub open spec fn files_complete(files: Seq<FileDesc>) -> bool {
    messages_closed(loaded_messages(files)) && loaded_messages(files).dom().contains(root_name())
}

/// `doc` is the JSON Schema generated from a schema holding these files'
/// messages and comments.
pub open spec fn generated_from(files: Seq<FileDesc>, doc: JsonView) -> bool {
    exists|s: Schema|
        #![trigger s.definitions_ok(definitions_in(doc))]
        s.messages.map() == loaded_messages(files) && docs_view(s.docs.map()) == loaded_docs(files)
            && s.closed() && doc == schema_document(definitions_in(doc)) && s.definitions_ok(
            definitions_in(doc),
        )
}

/// The JSON Schema of a project file from a descriptor set's files; a
/// refusal when the project's message, or one a field names, is missing.
pub fn schema_of_files(files: Vec<FileDesc>) -> (res: Result<Json, String>)
    ensures
        res is Ok <==> files_complete(files@),
        res matches Ok(j) ==> generated_from(files@, j@),
{
    let ghost fs = files@;
    let schema = Schema::load(files);
    if !schema.is_complete() {
        return Err(owned("the descriptor set lacks .hexen.v1.HexenProject or a message one of its fields names"));
    }
    let doc = schema.generate();
    proof {
        assert(schema.definitions_ok(definitions_in(doc@)));
    }
    Ok(doc)
}

} // verus!
