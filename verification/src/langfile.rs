//! Language files: a YAML mapping that declares `_version: 1` and whose leaves are the messages,
//! keyed by their dotted paths.
use vstd::prelude::*;

use crate::path::{chars_le, chars_le_exec};
use crate::text::{chars_of, concat, str_eq};

verus! {

#[verifier::external_type_specification]
#[verifier::external_body]
pub struct ExYamlValue(serde_yaml::Value);

/// A YAML value, variant by variant: a number is held as its canonical text, a mapping keeps
/// its entries in order, and a tagged value keeps its tag.
#[derive(Debug)]
pub enum YamlNode {
    Null,
    Bool(bool),
    Number(String),
    Text(String),
    Sequence(Vec<YamlNode>),
    Mapping(Vec<(YamlNode, YamlNode)>),
    Tagged(String, Box<YamlNode>),
}

/// What `serde_yaml::from_str` reads from `raw` as a `serde_yaml::Value`, as a node; `None`
/// where it is not YAML.
pub uninterp spec fn yaml_of(raw: Seq<char>) -> Option<YamlNode>;

/// `serde_yaml::from_str::<serde_yaml::Value>` on `raw`, read as a node.
#[verifier::external_body]
fn parse_yaml(raw: &str) -> (res: Option<YamlNode>)
    ensures
        res == yaml_of(raw@),
{
    match serde_yaml::from_str::<serde_yaml::Value>(raw) {
        Ok(value) => Some(yaml_node(&value)),
        Err(_) => None,
    }
}

/// A `serde_yaml::Value` as a node, variant by variant; a number by its `Display` text.
#[verifier::external_body]
fn yaml_node(value: &serde_yaml::Value) -> YamlNode {
    match value {
        serde_yaml::Value::Null => YamlNode::Null,
        serde_yaml::Value::Bool(b) => YamlNode::Bool(*b),
        serde_yaml::Value::Number(number) => YamlNode::Number(number.to_string()),
        serde_yaml::Value::String(text) => YamlNode::Text(text.clone()),
        serde_yaml::Value::Sequence(items) => YamlNode::Sequence(items.iter().map(yaml_node).collect()),
        serde_yaml::Value::Mapping(mapping) => YamlNode::Mapping(mapping.iter().map(|(k, v)| (yaml_node(k), yaml_node(v))).collect()),
        serde_yaml::Value::Tagged(tagged) => YamlNode::Tagged(tagged.tag.to_string(), Box::new(yaml_node(&tagged.value))),
    }
}

/// Why a language file is refused.
#[derive(Debug, Clone, PartialEq, Eq)]
pub enum LanguageFileError {
    NotYaml,
    NotAMapping,
    MissingVersion,
    NotText { key: String },
}

/// The message for a refused language file.
pub open spec fn language_file_error_text(e: LanguageFileError) -> Seq<char> {
    match e {
        LanguageFileError::NotYaml => "language file is not valid YAML"@,
        LanguageFileError::NotAMapping => "language file root must be a YAML mapping"@,
        LanguageFileError::MissingVersion => "language file must declare _version: 1"@,
        LanguageFileError::NotText { key } => "translation value "@ + key@ + " must be a string or mapping"@,
    }
}

impl LanguageFileError {
    /// The message shown to the user.
    pub fn message(&self) -> (res: String)
        ensures
            res@ == language_file_error_text(*self),
    {
        match self {
            LanguageFileError::NotYaml => "language file is not valid YAML".to_owned(),
            LanguageFileError::NotAMapping => "language file root must be a YAML mapping".to_owned(),
            LanguageFileError::MissingVersion => "language file must declare _version: 1".to_owned(),
            LanguageFileError::NotText { key } => {
                let head = concat("translation value ", key.as_str());
                concat(head.as_str(), " must be a string or mapping")
            },
        }
    }
}

/// The messages of a language file, sorted by key, with its optional name and version.
#[derive(Debug, Clone, PartialEq, Eq)]
pub struct ParsedLanguage {
    pub messages: Vec<(String, String)>,
    pub name: Option<String>,
    pub version: Option<String>,
}

// ---------------------------------------------------------------- metadata

/// The value of the first entry whose key is `key`.
pub open spec fn entry_value(entries: Seq<(YamlNode, YamlNode)>, key: Seq<char>) -> Option<YamlNode>
    decreases entries.len(),
{
    if entries.len() == 0 {
        None
    } else if entries[0].0 matches YamlNode::Text(k) && k@ == key {
        Some(entries[0].1)
    } else {
        entry_value(entries.drop_first(), key)
    }
}

/// `t` is a non-empty run of decimal digits, as a non-negative integer prints.
pub open spec fn all_digits(t: Seq<char>) -> bool {
    t.len() > 0 && forall|i: int| 0 <= i < t.len() ==> '0' <= #[trigger] t[i] <= '9'
}

/// The value of the decimal digits `t`.
pub open spec fn digits_value(t: Seq<char>) -> nat
    decreases t.len(),
{
    if t.len() == 0 {
        0
    } else {
        digits_value(t.drop_last()) * 10 + ((t.last() as int) - ('0' as int)) as nat
    }
}

/// An optional `u32` field: absent or null is `Some(None)`, a non-negative integer within
/// `u32` is `Some(Some(n))`, anything else does not read (`None`).
pub open spec fn optional_u32(v: Option<YamlNode>) -> Option<Option<u64>> {
    match v {
        None => Some(None),
        Some(YamlNode::Null) => Some(None),
        Some(YamlNode::Number(t)) => if all_digits(t@) && digits_value(t@) <= u32::MAX {
            Some(Some(digits_value(t@) as u64))
        } else {
            None
        },
        _ => None,
    }
}

/// An optional text field: absent or null is `Some(None)`, a string `Some(Some(s))`, anything
/// else does not read (`None`).
pub open spec fn optional_text(v: Option<YamlNode>) -> Option<Option<String>> {
    match v {
        None => Some(None),
        Some(YamlNode::Null) => Some(None),
        Some(YamlNode::Text(s)) => Some(Some(s)),
        _ => None,
    }
}

/// The metadata of a file: `_version`, `name` and `version`, read from the entries with those
/// string keys; where one of them does not read, none of them is taken. Entries whose key is not
/// a string are passed over here.
pub open spec fn metadata_of(entries: Seq<(YamlNode, YamlNode)>) -> (Option<u64>, Option<String>, Option<String>) {
    match (optional_u32(entry_value(entries, "_version"@)), optional_text(entry_value(entries, "name"@)), optional_text(entry_value(entries, "version"@))) {
        (Some(v), Some(n), Some(t)) => (v, n, t),
        _ => (None, None, None),
    }
}

fn find_entry<'a>(entries: &'a Vec<(YamlNode, YamlNode)>, key: &str) -> (res: Option<&'a YamlNode>)
    ensures
        match entry_value(entries@, key@) {
            Some(v) => res matches Some(r) && *r == v,
            None => res is None,
        },
{
    let mut i: usize = 0;
    assert(entries@.skip(0) =~= entries@);
    while i < entries.len()
        invariant
            i <= entries@.len(),
            entry_value(entries@, key@) == entry_value(entries@.skip(i as int), key@),
        decreases entries.len() - i,
    {
        assert(entries@.skip(i as int).drop_first() =~= entries@.skip(i + 1));
        assert(entries@.skip(i as int)[0] == entries@[i as int]);
        match &entries[i].0 {
            YamlNode::Text(k) => {
                if str_eq(k.as_str(), key) {
                    return Some(&entries[i].1);
                }
            },
            _ => {},
        }
        i = i + 1;
    }
    None
}

/// The value of the decimal digits `t` where it fits in `u32`.
fn decimal_u32(t: &str) -> (res: Option<u64>)
    ensures
        res == if all_digits(t@) && digits_value(t@) <= u32::MAX { Some(digits_value(t@) as u64) } else { None::<u64> },
{
    let chars = chars_of(t);
    let mut acc: u64 = 0;
    let mut over = false;
    let mut digits = true;
    let mut i: usize = 0;
    assert(chars@.take(0) =~= Seq::<char>::empty());
    while i < chars.len()
        invariant
            chars@ == t@,
            i <= chars@.len(),
            digits == (forall|k: int| 0 <= k < i ==> '0' <= #[trigger] chars@[k] <= '9'),
            digits && !over ==> acc == digits_value(chars@.take(i as int)) && acc <= u32::MAX,
            digits && over ==> digits_value(chars@.take(i as int)) > u32::MAX,
        decreases chars.len() - i,
    {
        let c = chars[i];
        assert(chars@.take(i + 1).drop_last() =~= chars@.take(i as int));
        assert(chars@.take(i + 1).last() == c);
        if '0' <= c && c <= '9' {
            if digits && !over {
                let d = (c as u32 - '0' as u32) as u64;
                let next = acc * 10 + d;
                if next > 4294967295 {
                    over = true;
                } else {
                    acc = next;
                }
            }
        } else {
            digits = false;
        }
        i = i + 1;
    }
    assert(chars@.take(chars@.len() as int) =~= chars@);
    if digits && !over && chars.len() > 0 {
        Some(acc)
    } else {
        None
    }
}

fn read_u32(v: Option<&YamlNode>) -> (res: Option<Option<u64>>)
    ensures
        res == optional_u32(match v { Some(n) => Some(*n), None => None }),
{
    match v {
        None => Some(None),
        Some(YamlNode::Null) => Some(None),
        Some(YamlNode::Number(t)) => match decimal_u32(t.as_str()) {
            Some(n) => Some(Some(n)),
            None => None,
        },
        _ => None,
    }
}

fn read_text(v: Option<&YamlNode>) -> (res: Option<Option<String>>)
    ensures
        res == optional_text(match v { Some(n) => Some(*n), None => None }),
{
    match v {
        None => Some(None),
        Some(YamlNode::Null) => Some(None),
        Some(YamlNode::Text(s)) => Some(Some(s.clone())),
        _ => None,
    }
}

// ---------------------------------------------------------------- messages

/// The dotted key of `key` below `prefix`.
pub open spec fn dotted(prefix: Seq<char>, key: Seq<char>) -> Seq<char> {
    if prefix.len() == 0 { key } else { prefix + seq!['.'] + key }
}

/// A key that is metadata, not a message: it begins with `_`, or is `name` or `version`.
pub open spec fn metadata_key(key: Seq<char>) -> bool {
    (key.len() > 0 && key[0] == '_') || key == "name"@ || key == "version"@
}

/// The leaves of `entries` below `prefix`, in order, as dotted keys and texts; or the first key
/// whose value is neither text, a mapping, nor metadata.
pub open spec fn flatten_entries(entries: Seq<(YamlNode, YamlNode)>, prefix: Seq<char>) -> Result<Seq<(Seq<char>, Seq<char>)>, Seq<char>>
    decreases entries,
{
    if entries.len() == 0 {
        Ok(Seq::empty())
    } else {
        match flatten_entries(entries.drop_last(), prefix) {
            Err(k) => Err(k),
            Ok(done) => {
                let entry = entries.last();
                match entry.0 {
                    YamlNode::Text(key) => {
                        let full = dotted(prefix, key@);
                        match entry.1 {
                            YamlNode::Text(t) => Ok(done.push((full, t@))),
                            YamlNode::Mapping(nested) => match flatten_entries(nested@, full) {
                                Err(k) => Err(k),
                                Ok(more) => Ok(done + more),
                            },
                            _ => if metadata_key(full) { Ok(done) } else { Err(full) },
                        }
                    },
                    _ => Ok(done),
                }
            },
        }
    }
}

/// The text last given to each key of `pairs`.
pub open spec fn last_values(pairs: Seq<(Seq<char>, Seq<char>)>) -> Map<Seq<char>, Seq<char>>
    decreases pairs.len(),
{
    if pairs.len() == 0 {
        Map::empty()
    } else {
        last_values(pairs.drop_last()).insert(pairs.last().0, pairs.last().1)
    }
}

/// `messages` holds, in strictly ascending key order, each key of `pairs` that is not metadata
/// with the text last given to it.
pub open spec fn messages_of(pairs: Seq<(Seq<char>, Seq<char>)>, messages: Seq<(String, String)>) -> bool {
    &&& forall|i: int, j: int| 0 <= i < j < messages.len() ==> chars_le((#[trigger] messages[i]).0@, (#[trigger] messages[j]).0@)
        && messages[i].0@ != messages[j].0@
    &&& forall|i: int| 0 <= i < messages.len() ==> !metadata_key((#[trigger] messages[i]).0@)
        && last_values(pairs).contains_key(messages[i].0@) && last_values(pairs)[messages[i].0@] == messages[i].1@
    &&& forall|k: Seq<char>| #[trigger] last_values(pairs).contains_key(k) && !metadata_key(k)
        ==> exists|i: int| 0 <= i < messages.len() && (#[trigger] messages[i]).0@ == k
}

/// What validating the YAML value `v` gives: a mapping that declares `_version: 1` and whose
/// leaves are texts, read as its messages, name and version.
pub open spec fn language_result(v: YamlNode, res: Result<ParsedLanguage, LanguageFileError>) -> bool {
    match v {
        YamlNode::Mapping(entries) => {
            let meta = metadata_of(entries@);
            if meta.0 != Some(1u64) {
                res == Err::<ParsedLanguage, LanguageFileError>(LanguageFileError::MissingVersion)
            } else {
                match flatten_entries(entries@, Seq::empty()) {
                    Err(k) => res matches Err(LanguageFileError::NotText { key }) && key@ == k,
                    Ok(pairs) => res matches Ok(parsed) && messages_of(pairs, parsed.messages@)
                        && parsed.name == meta.1 && parsed.version == meta.2,
                }
            }
        },
        _ => res == Err::<ParsedLanguage, LanguageFileError>(LanguageFileError::NotAMapping),
    }
}

fn is_metadata_key(key: &str) -> (res: bool)
    ensures
        res == metadata_key(key@),
{
    let chars = chars_of(key);
    (chars.len() > 0 && chars[0] == '_') || str_eq(key, "name") || str_eq(key, "version")
}

spec fn pair_views(v: Seq<(String, String)>) -> Seq<(Seq<char>, Seq<char>)> {
    Seq::new(v.len(), |i: int| (v[i].0@, v[i].1@))
}

/// Append the leaves of `entries` below `prefix` to `out`.
fn flatten_into(entries: &Vec<(YamlNode, YamlNode)>, prefix: &str, out: &mut Vec<(String, String)>) -> (res: Result<(), String>)
    ensures
        match flatten_entries(entries@, prefix@) {
            Ok(p) => res is Ok && pair_views(final(out)@) == pair_views(old(out)@) + p,
            Err(k) => res matches Err(e) && e@ == k,
        },
    decreases entries@,
{
    let ghost start = pair_views(out@);
    let mut i: usize = 0;
    assert(entries@.take(0) =~= Seq::<(YamlNode, YamlNode)>::empty());
    while i < entries.len()
        invariant
            i <= entries@.len(),
            flatten_entries(entries@.take(i as int), prefix@) matches Ok(p) && pair_views(out@) == start + p,
        decreases entries.len() - i,
    {
        let ghost done = pair_views(out@);
        assert(entries@.take(i + 1).drop_last() =~= entries@.take(i as int));
        assert(entries@.take(i + 1).last() == entries@[i as int]);
        let entry = &entries[i];
        match &entry.0 {
            YamlNode::Text(key) => {
                let full: String = if chars_of(prefix).len() == 0 { key.clone() } else {
                    let with_dot = concat(prefix, ".");
                    proof {
                        reveal_strlit(".");
                        assert("."@ =~= seq!['.']);
                    }
                    concat(with_dot.as_str(), key.as_str())
                };
                assert(full@ =~= dotted(prefix@, key@));
                match &entry.1 {
                    YamlNode::Text(t) => {
                        out.push((full, t.clone()));
                        assert(pair_views(out@) =~= done.push((full@, t@)));
                    },
                    YamlNode::Mapping(nested) => {
                        proof {
                            assert(decreases_to!(entries@ => entries@[i as int]));
                        }
                        let r = flatten_into(nested, full.as_str(), out);
                        proof {
                            match flatten_entries(nested@, full@) {
                                Ok(more) => {
                                    assert(pair_views(out@) =~= done + more);
                                },
                                Err(_) => {},
                            }
                        }
                        if let Err(e) = r {
                            proof {
                                assert(flatten_entries(entries@.take(i + 1), prefix@) is Err);
                                lemma_flatten_err_prefix(entries@, prefix@, i + 1);
                            }
                            return Err(e);
                        }
                    },
                    _ => {
                        if !is_metadata_key(full.as_str()) {
                            proof {
                                lemma_flatten_err_prefix(entries@, prefix@, i + 1);
                            }
                            return Err(full);
                        }
                    },
                }
            },
            _ => {},
        }
        i = i + 1;
    }
    assert(entries@.take(entries@.len() as int) =~= entries@);
    Ok(())
}

/// Once the leaves of a prefix of `entries` fail, those of `entries` fail the same way.
proof fn lemma_flatten_err_prefix(entries: Seq<(YamlNode, YamlNode)>, prefix: Seq<char>, k: int)
    requires
        0 <= k <= entries.len(),
        flatten_entries(entries.take(k), prefix) is Err,
    ensures
        flatten_entries(entries, prefix) == flatten_entries(entries.take(k), prefix),
    decreases entries.len() - k,
{
    if k < entries.len() {
        assert(entries.take(k + 1).drop_last() =~= entries.take(k));
        lemma_flatten_err_prefix(entries, prefix, k + 1);
    } else {
        assert(entries.take(k) =~= entries);
    }
}

/// `v` holds the message `(k, t)`.
pub open spec fn has_message(v: Seq<(String, String)>, k: Seq<char>, t: Seq<char>) -> bool {
    exists|i: int| 0 <= i < v.len() && #[trigger] v[i].0@ == k && v[i].1@ == t
}

/// Record `(key, text)` in the key-sorted `acc`, replacing the text of an equal key.
fn put_message(acc: &mut Vec<(String, String)>, key: String, text: String)
    requires
        forall|i: int, j: int| 0 <= i < j < old(acc)@.len() ==> chars_le((#[trigger] old(acc)@[i]).0@, (#[trigger] old(acc)@[j]).0@)
            && old(acc)@[i].0@ != old(acc)@[j].0@,
    ensures
        forall|i: int, j: int| 0 <= i < j < final(acc)@.len() ==> chars_le((#[trigger] final(acc)@[i]).0@, (#[trigger] final(acc)@[j]).0@)
            && final(acc)@[i].0@ != final(acc)@[j].0@,
        forall|k: Seq<char>, t: Seq<char>| #[trigger] has_message(final(acc)@, k, t)
            <==> (if k == key@ { t == text@ } else { has_message(old(acc)@, k, t) }),
{
    let ghost before = acc@;
    let kc = chars_of(key.as_str());
    let mut pos: usize = 0;
    while pos < acc.len() && !chars_le_exec(&kc, &chars_of(acc[pos].0.as_str()))
        invariant
            pos <= before.len(),
            acc@ == before,
            kc@ == key@,
            forall|m: int| 0 <= m < pos ==> chars_le(#[trigger] before[m].0@, key@) && before[m].0@ != key@,
        decreases before.len() - pos,
    {
        proof {
            crate::path::lemma_chars_le_total(before[pos as int].0@, key@);
        }
        pos = pos + 1;
    }
    if pos < acc.len() && str_eq(acc[pos].0.as_str(), key.as_str()) {
        acc.set(pos, (key, text));
        proof {
            let after = acc@;
            assert forall|i: int, j: int| 0 <= i < j < after.len() implies chars_le((#[trigger] after[i]).0@, (#[trigger] after[j]).0@)
                && after[i].0@ != after[j].0@ by {
                assert(after[i].0@ == before[i].0@ && after[j].0@ == before[j].0@);
            }
            assert forall|k: Seq<char>, t: Seq<char>| #[trigger] has_message(after, k, t)
                <==> (if k == key@ { t == text@ } else { has_message(before, k, t) }) by {
                if exists|i: int| 0 <= i < after.len() && #[trigger] after[i].0@ == k && after[i].1@ == t {
                    let i = choose|i: int| 0 <= i < after.len() && #[trigger] after[i].0@ == k && after[i].1@ == t;
                    if i != pos {
                        assert(before[i] == after[i]);
                        assert(before[i].0@ != before[pos as int].0@);
                    }
                }
                if k == key@ && t == text@ {
                    assert(after[pos as int].0@ == k);
                }
                if k != key@ && exists|i: int| 0 <= i < before.len() && #[trigger] before[i].0@ == k && before[i].1@ == t {
                    let i = choose|i: int| 0 <= i < before.len() && #[trigger] before[i].0@ == k && before[i].1@ == t;
                    assert(i != pos);
                    assert(after[i] == before[i]);
                }
            }
        }
        return;
    }
    proof {
        if pos < before.len() {
            assert(chars_le(key@, before[pos as int].0@) && before[pos as int].0@ != key@);
        }
        assert forall|m: int| pos <= m < before.len() implies chars_le(key@, #[trigger] before[m].0@) && before[m].0@ != key@ by {
            if m > pos {
                crate::path::lemma_chars_le_transitive(key@, before[pos as int].0@, before[m].0@);
                if before[m].0@ == key@ {
                    crate::path::lemma_chars_le_total(before[pos as int].0@, before[m].0@);
                }
            }
        }
    }
    acc.insert(pos, (key, text));
    proof {
        let after = acc@;
        assert(after == before.insert(pos as int, (key, text)));
        assert forall|i: int, j: int| 0 <= i < j < after.len() implies chars_le((#[trigger] after[i]).0@, (#[trigger] after[j]).0@)
            && after[i].0@ != after[j].0@ by {
            if j < pos {
                assert(after[i] == before[i] && after[j] == before[j]);
            } else if j == pos {
                assert(after[i] == before[i]);
            } else if i < pos {
                assert(after[i] == before[i] && after[j] == before[j - 1]);
                if i < pos {
                    crate::path::lemma_chars_le_transitive(before[i].0@, key@, before[j - 1].0@);
                    if before[i].0@ == before[j - 1].0@ {
                        crate::path::lemma_chars_le_total(key@, before[j - 1].0@);
                    }
                }
            } else if i == pos {
                assert(after[j] == before[j - 1]);
            } else {
                assert(after[i] == before[i - 1] && after[j] == before[j - 1]);
            }
        }
        assert forall|k: Seq<char>, t: Seq<char>| #[trigger] has_message(after, k, t)
            <==> (if k == key@ { t == text@ } else { has_message(before, k, t) }) by {
            if exists|i: int| 0 <= i < after.len() && #[trigger] after[i].0@ == k && after[i].1@ == t {
                let i = choose|i: int| 0 <= i < after.len() && #[trigger] after[i].0@ == k && after[i].1@ == t;
                if i < pos {
                    assert(after[i] == before[i]);
                } else if i > pos {
                    assert(after[i] == before[i - 1]);
                }
            }
            if k == key@ && t == text@ {
                assert(after[pos as int].0@ == k);
            }
            if k != key@ && exists|i: int| 0 <= i < before.len() && #[trigger] before[i].0@ == k && before[i].1@ == t {
                let i = choose|i: int| 0 <= i < before.len() && #[trigger] before[i].0@ == k && before[i].1@ == t;
                if i < pos {
                    assert(after[i] == before[i]);
                } else {
                    assert(after[i + 1] == before[i]);
                }
            }
        }
    }
}

/// Check a language file's YAML value and read its messages, name and version.
pub fn validate_language_value(v: &YamlNode) -> (res: Result<ParsedLanguage, LanguageFileError>)
    ensures
        language_result(*v, res),
{
    let entries = match v {
        YamlNode::Mapping(entries) => entries,
        _ => {
            return Err(LanguageFileError::NotAMapping);
        },
    };
    let schema = read_u32(find_entry(entries, "_version"));
    let name = read_text(find_entry(entries, "name"));
    let version = read_text(find_entry(entries, "version"));
    let (schema, name, version) = match (schema, name, version) {
        (Some(s), Some(n), Some(t)) => (s, n, t),
        _ => (None, None, None),
    };
    if schema != Some(1u64) {
        return Err(LanguageFileError::MissingVersion);
    }
    let mut pairs: Vec<(String, String)> = Vec::new();
    proof {
        reveal_strlit("");
        assert(""@ =~= Seq::<char>::empty());
    }
    match flatten_into(entries, "", &mut pairs) {
        Err(key) => {
            return Err(LanguageFileError::NotText { key });
        },
        Ok(()) => {},
    }
    let ghost all = pair_views(pairs@);
    assert(all =~= pair_views(Seq::<(String, String)>::empty()) + all);
    let mut messages: Vec<(String, String)> = Vec::new();
    let mut i: usize = 0;
    while i < pairs.len()
        invariant
            i <= pairs@.len(),
            all == pair_views(pairs@),
            forall|a: int, b: int| 0 <= a < b < messages@.len() ==> chars_le((#[trigger] messages@[a]).0@, (#[trigger] messages@[b]).0@)
                && messages@[a].0@ != messages@[b].0@,
            forall|a: int| 0 <= a < messages@.len() ==> !metadata_key((#[trigger] messages@[a]).0@),
            forall|k: Seq<char>, t: Seq<char>| #[trigger] has_message(messages@, k, t)
                <==> (!metadata_key(k) && last_values(all.take(i as int)).contains_key(k) && last_values(all.take(i as int))[k] == t),
        decreases pairs.len() - i,
    {
        let ghost before = messages@;
        assert(all.take(i + 1).drop_last() =~= all.take(i as int));
        assert(all.take(i + 1).last() == all[i as int]);
        if !is_metadata_key(pairs[i].0.as_str()) {
            put_message(&mut messages, pairs[i].0.clone(), pairs[i].1.clone());
            proof {
                assert forall|a: int| 0 <= a < messages@.len() implies !metadata_key((#[trigger] messages@[a]).0@) by {
                    let k = messages@[a].0@;
                    let t = messages@[a].1@;
                    assert(has_message(messages@, k, t));
                    if k != all[i as int].0 {
                        assert(has_message(before, k, t));
                        let q = choose|q: int| 0 <= q < before.len() && #[trigger] before[q].0@ == k && before[q].1@ == t;
                        assert(!metadata_key(before[q].0@));
                    }
                }
            }
        } else {
            proof {
                assert forall|k: Seq<char>, t: Seq<char>| #[trigger] has_message(messages@, k, t)
                    <==> (!metadata_key(k) && last_values(all.take(i + 1)).contains_key(k) && last_values(all.take(i + 1))[k] == t) by {
                    if k == all[i as int].0 {
                        if exists|a: int| 0 <= a < messages@.len() && #[trigger] messages@[a].0@ == k && messages@[a].1@ == t {
                            let a = choose|a: int| 0 <= a < messages@.len() && #[trigger] messages@[a].0@ == k && messages@[a].1@ == t;
                            assert(!metadata_key(messages@[a].0@));
                        }
                    }
                }
            }
        }
        i = i + 1;
    }
    assert(all.take(all.len() as int) =~= all);
    proof {
        let m = last_values(all);
        assert forall|a: int| 0 <= a < messages@.len() implies !metadata_key((#[trigger] messages@[a]).0@)
            && m.contains_key(messages@[a].0@) && m[messages@[a].0@] == messages@[a].1@ by {
            let k = messages@[a].0@;
            let t = messages@[a].1@;
            assert(has_message(messages@, k, t));
        }
        assert forall|k: Seq<char>| #[trigger] m.contains_key(k) && !metadata_key(k)
            implies exists|a: int| 0 <= a < messages@.len() && (#[trigger] messages@[a]).0@ == k by {
            let t = m[k];
            assert(has_message(messages@, k, t));
            let a = choose|a: int| 0 <= a < messages@.len() && #[trigger] messages@[a].0@ == k && messages@[a].1@ == t;
            assert(messages@[a].0@ == k);
        }
    }
    Ok(ParsedLanguage { messages, name, version })
}

/// Read and check a language file from its text: it must be YAML, and then as
/// [`validate_language_value`] says.
pub fn validate_language_yaml(raw: &str) -> (res: Result<ParsedLanguage, LanguageFileError>)
    ensures
        match yaml_of(raw@) {
            None => res == Err::<ParsedLanguage, LanguageFileError>(LanguageFileError::NotYaml),
            Some(v) => language_result(v, res),
        },
{
    match parse_yaml(raw) {
        None => Err(LanguageFileError::NotYaml),
        Some(v) => validate_language_value(&v),
    }
}

} // verus!
