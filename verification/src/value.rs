//! Structured documents: what JSON, YAML and TOML texts hold.

use crate::text;
use serde_json::Value as Json;
use serde_yaml::Value as Yaml;
use toml::Value as Toml;
use vstd::prelude::*;

verus! {

/// A value of a structured document. A number is kept as its parser writes it, which is not always as
/// the document does. A value that YAML gives a tag is kept under it: read as a text, a list or a
/// table it is what stands behind the tag, but it is none of them itself.
#[derive(Debug)]
pub enum Value {
    Null,
    Bool(bool),
    Number(String),
    Text(String),
    List(Vec<Value>),
    Table(Vec<(Value, Value)>),
    Tagged(String, Box<Value>),
    /// A date or a time, which only TOML has.
    Moment(String),
}

impl Value {
    /// The value behind any tags.
    pub open spec fn untagged(self) -> Value
        decreases self,
    {
        match self {
            Value::Tagged(_, value) => value.untagged(),
            _ => self,
        }
    }

    /// The text this value is.
    pub open spec fn text_of(self) -> Option<Seq<char>> {
        match self.untagged() {
            Value::Text(s) => Some(s@),
            _ => None,
        }
    }

    /// The flag this value is.
    pub open spec fn flag_of(self) -> Option<bool> {
        match self.untagged() {
            Value::Bool(b) => Some(b),
            _ => None,
        }
    }

    /// The elements of this value, where it is a list.
    pub open spec fn items_of(self) -> Seq<Value> {
        match self.untagged() {
            Value::List(items) => items@,
            _ => Seq::empty(),
        }
    }

    /// The entries of this value, where it is a table.
    pub open spec fn entries_of(self) -> Seq<(Value, Value)> {
        match self.untagged() {
            Value::Table(entries) => entries@,
            _ => Seq::empty(),
        }
    }

    /// The value under `key`, where this value is a table.
    pub open spec fn get_of(self, key: Seq<char>) -> Option<Value> {
        find_entry(self.entries_of(), key, 0)
    }

    /// The text under `key`.
    pub open spec fn text_under(self, key: Seq<char>) -> Option<Seq<char>> {
        match self.get_of(key) {
            Some(v) => v.text_of(),
            None => None,
        }
    }

    /// The entries under `key`.
    pub open spec fn entries_under(self, key: Seq<char>) -> Seq<(Value, Value)> {
        match self.get_of(key) {
            Some(v) => v.entries_of(),
            None => Seq::empty(),
        }
    }

    /// The elements under `key`.
    pub open spec fn items_under(self, key: Seq<char>) -> Seq<Value> {
        match self.get_of(key) {
            Some(v) => v.items_of(),
            None => Seq::empty(),
        }
    }
}

/// Whether a key is the text `key`, with no tag before it.
pub open spec fn is_key(value: Value, key: Seq<char>) -> bool {
    value matches Value::Text(s) && s@ == key
}

/// The value of the first entry from `i` on whose key is the text `key`.
pub open spec fn find_entry(entries: Seq<(Value, Value)>, key: Seq<char>, i: int) -> Option<Value>
    decreases entries.len() - i,
{
    if i < 0 || i >= entries.len() {
        None
    } else if is_key(entries[i].0, key) {
        Some(entries[i].1)
    } else {
        find_entry(entries, key, i + 1)
    }
}

impl Value {
    fn untag(&self) -> (r: &Value)
        ensures
            *r == self.untagged(),
            !(*r is Tagged),
        decreases self,
    {
        match self {
            Value::Tagged(_, value) => value.untag(),
            _ => self,
        }
    }

    pub fn as_text(&self) -> (r: Option<&String>)
        ensures
            match r {
                Some(s) => self.text_of() == Some(s@),
                None => self.text_of() is None,
            },
    {
        match self.untag() {
            Value::Text(s) => Some(s),
            _ => None,
        }
    }

    pub fn as_flag(&self) -> (r: Option<bool>)
        ensures
            r == self.flag_of(),
    {
        match self.untag() {
            Value::Bool(b) => Some(*b),
            _ => None,
        }
    }

    pub fn is_table(&self) -> (r: bool)
        ensures
            r == (self.untagged() is Table),
    {
        match self.untag() {
            Value::Table(_) => true,
            _ => false,
        }
    }

    pub fn is_list(&self) -> (r: bool)
        ensures
            r == (*self is List),
    {
        match self {
            Value::List(_) => true,
            _ => false,
        }
    }

    /// The number of elements.
    pub fn item_count(&self) -> (r: usize)
        ensures
            r == self.items_of().len(),
    {
        match self.untag() {
            Value::List(items) => items.len(),
            _ => 0,
        }
    }

    pub fn item(&self, i: usize) -> (r: &Value)
        requires
            i < self.items_of().len(),
        ensures
            *r == self.items_of()[i as int],
    {
        match self.untag() {
            Value::List(items) => &items[i],
            _ => self,
        }
    }

    /// The number of entries.
    pub fn entry_count(&self) -> (r: usize)
        ensures
            r == self.entries_of().len(),
    {
        match self.untag() {
            Value::Table(entries) => entries.len(),
            _ => 0,
        }
    }

    pub fn key(&self, i: usize) -> (r: &Value)
        requires
            i < self.entries_of().len(),
        ensures
            *r == self.entries_of()[i as int].0,
    {
        match self.untag() {
            Value::Table(entries) => &entries[i].0,
            _ => self,
        }
    }

    pub fn under(&self, i: usize) -> (r: &Value)
        requires
            i < self.entries_of().len(),
        ensures
            *r == self.entries_of()[i as int].1,
    {
        match self.untag() {
            Value::Table(entries) => &entries[i].1,
            _ => self,
        }
    }

    /// The value under `key`.
    pub fn get(&self, key: &str) -> (r: Option<&Value>)
        ensures
            match r {
                Some(v) => self.get_of(key@) == Some(*v),
                None => self.get_of(key@) is None,
            },
    {
        let n: usize = self.entry_count();
        let mut i: usize = 0;
        while i < n
            invariant
                n == self.entries_of().len(),
                i <= n,
                self.get_of(key@) == find_entry(self.entries_of(), key@, i as int),
            decreases n - i,
        {
            if let Value::Text(s) = self.key(i) {
                if text::same(s, key) {
                    return Some(self.under(i));
                }
            }
            i += 1;
        }
        None
    }

    /// The text under `key`.
    pub fn get_text(&self, key: &str) -> (r: Option<&String>)
        ensures
            match r {
                Some(s) => self.text_under(key@) == Some(s@),
                None => self.text_under(key@) is None,
            },
    {
        match self.get(key) {
            Some(v) => v.as_text(),
            None => None,
        }
    }
}

// ---------------------------------------------------------------------------
// Reading documents
// ---------------------------------------------------------------------------

/// A JSON document as `serde_json` holds it.
#[verifier::external_type_specification]
#[verifier::external_body]
pub struct JsonDocument(Json);

/// What a `serde_json::Value` holds.
pub uninterp spec fn json_content(document: Json) -> Value;

/// What an optional `serde_json::Value` holds.
pub open spec fn json_held(document: Option<Json>) -> Option<Value> {
    match document {
        Some(document) => Some(json_content(document)),
        None => None,
    }
}

/// What the document holds that `serde_json::from_str` reads in a text; none where it is not JSON.
pub uninterp spec fn json_value(raw: Seq<char>) -> Option<Value>;

/// `serde_json::from_str`. The result holds the value that [`json_value`] names.
#[verifier::external_body]
fn read_json(raw: &str) -> (r: Option<Json>)
    ensures
        json_held(r) == json_value(raw@),
{
    serde_json::from_str(raw).ok()
}

/// The variants of a `serde_json::Value`, taken over one for one. The result is the value that
/// [`json_content`] names. The keys of an object come in the order in which `serde_json` keeps them.
#[verifier::external_body]
fn take_json(document: &Json) -> (r: Value)
    ensures
        r == json_content(*document),
{
    match document {
        Json::Null => Value::Null,
        Json::Bool(b) => Value::Bool(*b),
        Json::Number(n) => Value::Number(n.to_string()),
        Json::String(s) => Value::Text(s.clone()),
        Json::Array(items) => Value::List(items.iter().map(take_json).collect()),
        Json::Object(entries) => Value::Table(
            entries.iter().map(|(k, v)| (Value::Text(k.clone()), take_json(v))).collect(),
        ),
    }
}

/// What a JSON text holds; none where it is not JSON.
pub fn parse_json(raw: &str) -> (r: Option<Value>)
    ensures
        r == json_value(raw@),
{
    match read_json(raw) {
        Some(document) => Some(take_json(&document)),
        None => None,
    }
}

/// A YAML document as `serde_yaml` holds it.
#[verifier::external_type_specification]
#[verifier::external_body]
pub struct YamlDocument(Yaml);

/// What a `serde_yaml::Value` holds.
pub uninterp spec fn yaml_content(document: Yaml) -> Value;

/// What an optional `serde_yaml::Value` holds.
pub open spec fn yaml_held(document: Option<Yaml>) -> Option<Value> {
    match document {
        Some(document) => Some(yaml_content(document)),
        None => None,
    }
}

/// What the document holds that `serde_yaml::from_str` reads in a text; none where it is not YAML.
pub uninterp spec fn yaml_value(raw: Seq<char>) -> Option<Value>;

/// `serde_yaml::from_str`. The result holds the value that [`yaml_value`] names.
#[verifier::external_body]
fn read_yaml(raw: &str) -> (r: Option<Yaml>)
    ensures
        yaml_held(r) == yaml_value(raw@),
{
    serde_yaml::from_str(raw).ok()
}

/// The variants of a `serde_yaml::Value`, taken over one for one, a tagged value with its tag. The
/// result is the value that [`yaml_content`] names. The entries of a mapping come in the order of the
/// document.
#[verifier::external_body]
fn take_yaml(document: &Yaml) -> (r: Value)
    ensures
        r == yaml_content(*document),
{
    match document {
        Yaml::Null => Value::Null,
        Yaml::Bool(b) => Value::Bool(*b),
        Yaml::Number(n) => Value::Number(n.to_string()),
        Yaml::String(s) => Value::Text(s.clone()),
        Yaml::Tagged(t) => Value::Tagged(t.tag.to_string(), Box::new(take_yaml(&t.value))),
        Yaml::Sequence(items) => Value::List(items.iter().map(take_yaml).collect()),
        Yaml::Mapping(entries) => Value::Table(
            entries.iter().map(|(k, v)| (take_yaml(k), take_yaml(v))).collect(),
        ),
    }
}

/// What a YAML text holds; none where it is not YAML.
pub fn parse_yaml(raw: &str) -> (r: Option<Value>)
    ensures
        r == yaml_value(raw@),
{
    match read_yaml(raw) {
        Some(document) => Some(take_yaml(&document)),
        None => None,
    }
}

/// A TOML document as `toml` holds it.
#[verifier::external_type_specification]
#[verifier::external_body]
pub struct TomlDocument(Toml);

/// What a `toml::Value` holds.
pub uninterp spec fn toml_content(document: Toml) -> Value;

/// What an optional `toml::Value` holds.
pub open spec fn toml_held(document: Option<Toml>) -> Option<Value> {
    match document {
        Some(document) => Some(toml_content(document)),
        None => None,
    }
}

/// What the document holds that `toml::from_str` reads in a text; none where it is not TOML.
pub uninterp spec fn toml_value(raw: Seq<char>) -> Option<Value>;

/// `toml::from_str`. The result holds the value that [`toml_value`] names.
#[verifier::external_body]
fn read_toml(raw: &str) -> (r: Option<Toml>)
    ensures
        toml_held(r) == toml_value(raw@),
{
    toml::from_str(raw).ok()
}

/// The variants of a `toml::Value`, taken over one for one. The result is the value that
/// [`toml_content`] names. A number that is not whole is written with its point or its exponent, and
/// the keys of a table come in the order in which `toml` keeps them.
#[verifier::external_body]
fn take_toml(document: &Toml) -> (r: Value)
    ensures
        r == toml_content(*document),
{
    match document {
        Toml::String(s) => Value::Text(s.clone()),
        Toml::Integer(n) => Value::Number(n.to_string()),
        Toml::Float(n) => Value::Number(format!("{n:?}")),
        Toml::Boolean(b) => Value::Bool(*b),
        Toml::Datetime(d) => Value::Moment(d.to_string()),
        Toml::Array(items) => Value::List(items.iter().map(take_toml).collect()),
        Toml::Table(entries) => Value::Table(
            entries.iter().map(|(k, v)| (Value::Text(k.clone()), take_toml(v))).collect(),
        ),
    }
}

/// What a TOML text holds; none where it is not TOML.
pub fn parse_toml(raw: &str) -> (r: Option<Value>)
    ensures
        r == toml_value(raw@),
{
    match read_toml(raw) {
        Some(document) => Some(take_toml(&document)),
        None => None,
    }
}

} // verus!
