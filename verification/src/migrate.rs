//! Old "type:"-discriminated project files to the current format. Only
//! the oneof-shaped blocks change shape: the project's `content`, and
//! each Location's `grid` and `content`, go from `{ type: X, ...rest }`
//! to `{ X: { ...rest } }`. Everything else is identical in both.

use vstd::prelude::*;

use crate::text::{chars_eq, chars_of};

verus! {

/// A YAML document as parsed: mappings are string-keyed, each key once,
/// in document order; numbers are kept as written.
#[derive(Debug, PartialEq)]
pub enum Yaml {
    Null,
    Bool(bool),
    Number(String),
    Str(String),
    List(Vec<Yaml>),
    Mapping(Vec<(String, Yaml)>),
    Tagged(String, Box<Yaml>),
}

/// Where key `key` sits among a mapping's entries.
pub open spec fn key_index(entries: Seq<(String, Yaml)>, key: Seq<char>) -> Option<int>
    decreases entries.len(),
{
    if entries.len() == 0 {
        None
    } else if entries[0].0@ == key {
        Some(0)
    } else {
        match key_index(entries.drop_first(), key) {
            Some(i) => Some(i + 1),
            None => None,
        }
    }
}

pub open spec fn type_key() -> Seq<char> {
    "type"@
}

/// `after` is `before` with its oneof spelled the current way: a mapping
/// with a string `type` becomes a one-entry mapping from that string to
/// the rest of the mapping (in order); a `type` that is not a string is
/// just dropped; anything else is left as it is.
pub open spec fn is_oneof_of(before: Yaml, after: Yaml) -> bool {
    match before {
        Yaml::Mapping(entries) => match key_index(entries@, type_key()) {
            None => after == before,
            Some(i) => match entries@[i].1 {
                Yaml::Str(kind) => {
                    &&& after matches Yaml::Mapping(w)
                    &&& w@.len() == 1
                    &&& w@[0].0@ == kind@
                    &&& w@[0].1 matches Yaml::Mapping(rest)
                    &&& rest@ == entries@.remove(i)
                },
                _ => after matches Yaml::Mapping(rest) && rest@ == entries@.remove(i),
            },
        },
        _ => after == before,
    }
}

/// `after` has the same keys as `before`, in the same order, and each
/// new value relates to the old one at its place by `rel`.
pub open spec fn entries_changed(
    before: Seq<(String, Yaml)>,
    after: Seq<(String, Yaml)>,
    rel: spec_fn(int, Yaml, Yaml) -> bool,
) -> bool {
    &&& after.len() == before.len()
    &&& forall|j: int|
        0 <= j < before.len() ==> (#[trigger] after[j]).0 == before[j].0 && rel(j, before[j].1, after[j].1)
}

/// A Location migrated: its `grid` and `content` oneofs respelled.
pub open spec fn is_migrated_location(before: Yaml, after: Yaml) -> bool {
    match before {
        Yaml::Mapping(entries) => after matches Yaml::Mapping(e2) && entries_changed(
            entries@,
            e2@,
            |j: int, b: Yaml, a: Yaml|
                if key_index(entries@, "grid"@) == Some(j) || key_index(entries@, "content"@) == Some(j) {
                    is_oneof_of(b, a)
                } else {
                    a == b
                },
        ),
        _ => after == before,
    }
}

/// Every Location of a `locations` sequence migrated; anything else kept.
pub open spec fn is_migrated_locations(before: Yaml, after: Yaml) -> bool {
    match before {
        Yaml::List(items) => after matches Yaml::List(items2) && items2@.len() == items@.len() && forall|
            k: int,
        |
            0 <= k < items@.len() ==> is_migrated_location(#[trigger] items@[k], items2@[k]),
        _ => after == before,
    }
}

/// A whole old-format document migrated: the project's `content` and each
/// Location respelled, everything else kept.
pub open spec fn is_migrated_document(before: Yaml, after: Yaml) -> bool {
    match before {
        Yaml::Mapping(entries) => after matches Yaml::Mapping(e2) && entries_changed(
            entries@,
            e2@,
            |j: int, b: Yaml, a: Yaml|
                if key_index(entries@, "content"@) == Some(j) {
                    is_oneof_of(b, a)
                } else if key_index(entries@, "locations"@) == Some(j) {
                    is_migrated_locations(b, a)
                } else {
                    a == b
                },
        ),
        _ => after == before,
    }
}

/// The first place of `key` among `entries`.
fn find_key(entries: &Vec<(String, Yaml)>, key: &str) -> (res: Option<usize>)
    ensures
        match res {
            Some(r) => key_index(entries@, key@) == Some(r as int) && r < entries@.len()
                && entries@[r as int].0@ == key@,
            None => key_index(entries@, key@) is None,
        },
{
    let k = chars_of(key);
    let mut i: usize = 0;
    proof {
        assert(entries@.skip(0) =~= entries@);
    }
    while i < entries.len()
        invariant
            i <= entries@.len(),
            k@ == key@,
            key_index(entries@, key@) == match key_index(entries@.skip(i as int), key@) {
                Some(j) => Some(j + i),
                None => None,
            },
        decreases entries@.len() - i,
    {
        let ghost rest = entries@.skip(i as int);
        proof {
            assert(rest[0] == entries@[i as int]);
            assert(rest.drop_first() =~= entries@.skip(i + 1));
        }
        if chars_eq(chars_of(entries[i].0.as_str()).as_slice(), k.as_slice()) {
            return Some(i);
        }
        i = i + 1;
    }
    proof {
        assert(entries@.skip(i as int) =~= Seq::<(String, Yaml)>::empty());
    }
    None
}

/// `{ type: X, ...rest }` as `{ X: { ...rest } }`; anything else as is.
pub fn oneof_from_type(value: Yaml) -> (res: Yaml)
    ensures
        is_oneof_of(value, res),
{
    proof {
        reveal_strlit("type");
        assert(type_key() == "type"@);
    }
    match value {
        Yaml::Mapping(mut entries) => match find_key(&entries, "type") {
            None => Yaml::Mapping(entries),
            Some(i) => {
                let (_, kind) = entries.remove(i);
                match kind {
                    Yaml::Str(k) => {
                        let mut wrapped: Vec<(String, Yaml)> = Vec::new();
                        wrapped.push((k, Yaml::Mapping(entries)));
                        Yaml::Mapping(wrapped)
                    },
                    _ => Yaml::Mapping(entries),
                }
            },
        },
        other => other,
    }
}

/// The value at `entries[i]` replaced by what `oneof_from_type` makes of
/// it.
fn respell_at(entries: &mut Vec<(String, Yaml)>, i: usize)
    requires
        i < old(entries)@.len(),
    ensures
        final(entries)@.len() == old(entries)@.len(),
        final(entries)@[i as int].0 == old(entries)@[i as int].0,
        is_oneof_of(old(entries)@[i as int].1, final(entries)@[i as int].1),
        forall|j: int| 0 <= j < old(entries)@.len() && j != i ==> final(entries)@[j] == old(entries)@[j],
{
    let (k, v) = entries.remove(i);
    let v2 = oneof_from_type(v);
    entries.insert(i, (k, v2));
}

/// A Location with its `grid` and `content` respelled.
pub fn migrate_location(location: Yaml) -> (res: Yaml)
    ensures
        is_migrated_location(location, res),
{
    match location {
        Yaml::Mapping(mut entries) => {
            let ghost before = entries@;
            let g = find_key(&entries, "grid");
            if let Some(i) = g {
                respell_at(&mut entries, i);
            }
            let ghost mid = entries@;
            let c = find_key(&entries, "content");
            proof {
                assert(key_index(mid, "content"@) == key_index(before, "content"@)) by {
                    lemma_key_index_same_keys(before, mid, "content"@);
                }
            }
            if let Some(i) = c {
                respell_at(&mut entries, i);
            }
            proof {
                reveal_strlit("grid");
                reveal_strlit("content");
                assert("grid"@.len() != "content"@.len());
            }
            Yaml::Mapping(entries)
        },
        other => other,
    }
}

proof fn lemma_key_index_same_keys(a: Seq<(String, Yaml)>, b: Seq<(String, Yaml)>, key: Seq<char>)
    requires
        a.len() == b.len(),
        forall|j: int| 0 <= j < a.len() ==> (#[trigger] b[j]).0 == a[j].0,
    ensures
        key_index(b, key) == key_index(a, key),
    decreases a.len(),
{
    if a.len() > 0 {
        assert(b[0].0 == a[0].0);
        lemma_key_index_same_keys(a.drop_first(), b.drop_first(), key);
    }
}

/// Every Location of a `locations` sequence migrated.
fn migrate_locations(value: Yaml) -> (res: Yaml)
    ensures
        is_migrated_locations(value, res),
{
    match value {
        Yaml::List(mut items) => {
            let ghost before = items@;
            let n = items.len();
            let mut k: usize = 0;
            while k < n
                invariant
                    n == before.len(),
                    items@.len() == n,
                    k <= n,
                    forall|j: int| 0 <= j < k ==> is_migrated_location(#[trigger] before[j], items@[j]),
                    forall|j: int| k <= j < n ==> #[trigger] items@[j] == before[j],
                decreases n - k,
            {
                let item = items.remove(k);
                let migrated = migrate_location(item);
                items.insert(k, migrated);
                k = k + 1;
            }
            Yaml::List(items)
        },
        other => other,
    }
}

/// An old-format document in the current format: the project's `content`
/// and each Location's `grid` and `content` respelled.
pub fn migrate_document(doc: Yaml) -> (res: Yaml)
    ensures
        is_migrated_document(doc, res),
{
    match doc {
        Yaml::Mapping(mut entries) => {
            let ghost before = entries@;
            let c = find_key(&entries, "content");
            if let Some(i) = c {
                respell_at(&mut entries, i);
            }
            let ghost mid = entries@;
            let l = find_key(&entries, "locations");
            proof {
                lemma_key_index_same_keys(before, mid, "locations"@);
            }
            if let Some(i) = l {
                let (key, value) = entries.remove(i);
                let migrated = migrate_locations(value);
                entries.insert(i, (key, migrated));
            }
            proof {
                reveal_strlit("content");
                reveal_strlit("locations");
                assert("locations"@.len() != "content"@.len());
            }
            Yaml::Mapping(entries)
        },
        other => other,
    }
}

/// The mathematical value of a [`Yaml`] tree.
pub enum YamlView {
    Null,
    Bool(bool),
    Number(Seq<char>),
    Str(Seq<char>),
    List(Seq<YamlView>),
    Mapping(Seq<(Seq<char>, YamlView)>),
    Tagged(Seq<char>, Box<YamlView>),
}

pub open spec fn yaml_view(y: Yaml) -> YamlView
    decreases y,
{
    match y {
        Yaml::Null => YamlView::Null,
        Yaml::Bool(b) => YamlView::Bool(b),
        Yaml::Number(n) => YamlView::Number(n@),
        Yaml::Str(s) => YamlView::Str(s@),
        Yaml::List(items) => YamlView::List(
            Seq::new(
                items@.len(),
                |i: int|
                    if 0 <= i < items@.len() {
                        yaml_view(items@[i])
                    } else {
                        YamlView::Null
                    },
            ),
        ),
        Yaml::Mapping(entries) => YamlView::Mapping(
            Seq::new(
                entries@.len(),
                |i: int|
                    if 0 <= i < entries@.len() {
                        (entries@[i].0@, yaml_view(entries@[i].1))
                    } else {
                        (Seq::empty(), YamlView::Null)
                    },
            ),
        ),
        Yaml::Tagged(tag, inner) => YamlView::Tagged(tag@, Box::new(yaml_view(*inner))),
    }
}

impl View for Yaml {
    type V = YamlView;

    open spec fn view(&self) -> YamlView {
        yaml_view(*self)
    }
}

#[verifier::external_type_specification]
#[verifier::external_body]
pub struct ExYamlValue(serde_yml::Value);

/// The tree `serde_yml::from_str` parses `text` into, as a [`Yaml`];
/// `None` when the text is not YAML.
pub uninterp spec fn yaml_tree(text: Seq<char>) -> Option<YamlView>;

/// A parsed `serde_yml::Value` as the library's tree, variant by variant.
#[verifier::external_body]
fn tree_of(value: &serde_yml::Value) -> Yaml {
    match value {
        serde_yml::Value::Null => Yaml::Null,
        serde_yml::Value::Bool(b) => Yaml::Bool(*b),
        serde_yml::Value::Number(n) => Yaml::Number(n.to_string()),
        serde_yml::Value::String(s) => Yaml::Str(s.clone()),
        serde_yml::Value::Sequence(items) => Yaml::List(items.iter().map(tree_of).collect()),
        serde_yml::Value::Mapping(map) => Yaml::Mapping(map.iter().map(|(k, v)| (k.clone(), tree_of(v))).collect()),
        serde_yml::Value::Tagged(t) => Yaml::Tagged(t.tag().as_str().to_string(), Box::new(tree_of(t.value()))),
    }
}

/// `serde_yml::from_str` into a `serde_yml::Value`, as the library's
/// tree; the parser's message when the text is not YAML. Claims only
/// that the tree is the one `yaml_tree` names for `text`.
#[verifier::external_body]
fn parse_yaml(text: &str) -> (res: Result<Yaml, String>)
    ensures
        match res {
            Ok(t) => yaml_tree(text@) == Some(t@),
            Err(_) => yaml_tree(text@) is None,
        },
{
    match serde_yml::from_str::<serde_yml::Value>(text) {
        Ok(v) => Ok(tree_of(&v)),
        Err(e) => Err(e.to_string()),
    }
}

/// An old-format document's text in the current format: the parsed tree
/// with its oneofs respelled; the parser's message when the text is not
/// YAML.
pub fn migrate_text(old: &str) -> (res: Result<Yaml, String>)
    ensures
        res is Ok <==> yaml_tree(old@) is Some,
        res matches Ok(after) ==> exists|before: Yaml|
            #![trigger is_migrated_document(before, after)]
            Some(before@) == yaml_tree(old@) && is_migrated_document(before, after),
{
    match parse_yaml(old) {
        Ok(before) => {
            let ghost b = before;
            let after = migrate_document(before);
            proof {
                assert(is_migrated_document(b, after));
            }
            Ok(after)
        },
        Err(e) => Err(e),
    }
}

} // verus!
