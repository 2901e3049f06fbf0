//! Configuration management utilities.
//!
//! A configuration is TOML text. The `toml` crate reads it; which value a
//! dotted key names in what it read is worked out here.

use crate::text::{split, split_on, views};
use vstd::prelude::*;
use vstd::string::StringExecFns;

verus! {

/// `toml::Value`: a value of a TOML document. What it holds is named by
/// `value_items`.
#[verifier::external_type_specification]
#[verifier::external_body]
pub struct ExTomlValue(toml::Value);

/// `toml::map::Map`: a TOML table, from keys to values. What it holds is
/// named by `table_entries`.
#[verifier::external_type_specification]
#[verifier::external_body]
#[verifier::reject_recursive_types(K)]
#[verifier::reject_recursive_types(V)]
pub struct ExTomlMap<K, V>(toml::map::Map<K, V>);

/// A TOML table from keys to values.
pub type TomlTable = toml::map::Map<String, toml::Value>;

/// What stands at one place of a TOML document.
pub enum TomlItem {
    String(Seq<char>),
    Integer(i64),
    Boolean(bool),
    Float,
    Datetime,
    Array,
    Table,
}

/// What a TOML value holds: the item at every path of table keys that leads
/// somewhere in it. The empty path leads to the value itself.
pub uninterp spec fn value_items(value: toml::Value) -> Map<Seq<Seq<char>>, TomlItem>;

/// What a TOML text holds when `toml::from_str` reads it as a value, item by
/// item; `None` where it is no TOML.
pub uninterp spec fn document_items(content: Seq<char>) -> Option<Map<Seq<Seq<char>>, TomlItem>>;

/// What a TOML table holds: the item under each of its keys.
pub uninterp spec fn table_entries(table: toml::map::Map<String, toml::Value>) -> Map<
    Seq<char>,
    TomlItem,
>;

/// The TOML text that `toml::to_string_pretty` writes for a table of
/// strings, integers and booleans; `None` where it writes none.
pub uninterp spec fn pretty_text(entries: Map<Seq<char>, TomlItem>) -> Option<Seq<char>>;

/// The entries of the empty table.
pub open spec fn no_entries() -> Map<Seq<char>, TomlItem> {
    Map::empty()
}

/// The items of `items` below `path`, each under the rest of its path.
pub open spec fn items_under(items: Map<Seq<Seq<char>>, TomlItem>, path: Seq<Seq<char>>) -> Map<
    Seq<Seq<char>>,
    TomlItem,
> {
    Map::new(
        |rest: Seq<Seq<char>>| items.contains_key(path + rest),
        |rest: Seq<Seq<char>>| items[path + rest],
    )
}

/// The item that a value is itself.
pub open spec fn root_item(value: toml::Value) -> TomlItem {
    value_items(value)[Seq::empty()]
}

/// Whether a table holds strings, integers and booleans only.
pub open spec fn only_scalars(entries: Map<Seq<char>, TomlItem>) -> bool {
    forall|key: Seq<char>| #[trigger]
        entries.contains_key(key) ==> entries[key] is String || entries[key] is Integer
            || entries[key] is Boolean
}

/// Calls `toml::from_str` at the type `toml::Value`. Taken on trust: whether
/// the text is TOML, and what the value holds if it is, are functions of the
/// text alone, the ones that `document_items` names.
#[verifier::external_body]
fn parse_document(content: &str) -> (document: Option<toml::Value>)
    ensures
        match document {
            Some(value) => document_items(content@) == Some(value_items(value)),
            None => document_items(content@) is None,
        },
{
    toml::from_str::<toml::Value>(content).ok()
}

/// Calls `toml::Value::get` with a string index. Taken on trust: the result
/// is the value under `key` where `value` is a table that has the key, and
/// `None` where it is no table or has no such key; the value under `key`
/// holds what `value` holds below `key`.
#[verifier::external_body]
fn value_get<'a>(value: &'a toml::Value, key: &str) -> (child: Option<&'a toml::Value>)
    ensures
        match child {
            Some(found) => value_items(*value).contains_key(seq![key@]) && value_items(*found)
                == items_under(value_items(*value), seq![key@]),
            None => !value_items(*value).contains_key(seq![key@]),
        },
{
    value.get(key)
}

/// Calls `toml::Value::as_str`. Taken on trust: the result is the text of a
/// string value and `None` for any other.
#[verifier::external_body]
fn value_as_str<'a>(value: &'a toml::Value) -> (text: Option<&'a str>)
    ensures
        match text {
            Some(t) => root_item(*value) == TomlItem::String(t@),
            None => !(root_item(*value) is String),
        },
{
    value.as_str()
}

/// Calls `toml::Value::as_integer`. Taken on trust: the result is the
/// number of an integer value and `None` for any other.
#[verifier::external_body]
fn value_as_integer(value: &toml::Value) -> (number: Option<i64>)
    ensures
        match number {
            Some(n) => root_item(*value) == TomlItem::Integer(n),
            None => !(root_item(*value) is Integer),
        },
{
    value.as_integer()
}

/// Calls `toml::Value::as_bool`. Taken on trust: the result is the flag of
/// a boolean value and `None` for any other.
#[verifier::external_body]
fn value_as_bool(value: &toml::Value) -> (flag: Option<bool>)
    ensures
        match flag {
            Some(b) => root_item(*value) == TomlItem::Boolean(b),
            None => !(root_item(*value) is Boolean),
        },
{
    value.as_bool()
}

/// Calls `toml::Value::clone`. Taken on trust: the copy holds the same
/// items.
#[verifier::external_body]
fn value_clone(value: &toml::Value) -> (copy: toml::Value)
    ensures
        value_items(copy) == value_items(*value),
{
    value.clone()
}

/// Configuration held as TOML text.
#[derive(Debug, Clone)]
pub struct Config {
    /// Raw TOML content.
    content: String,
}

impl View for Config {
    type V = Seq<char>;

    /// The TOML text.
    closed spec fn view(&self) -> Seq<char> {
        self.content@
    }
}

impl Config {
    /// Create a new configuration from TOML string content.
    pub fn new(content: &str) -> (config: Self)
        ensures
            config@ == content@,
    {
        Config { content: content.to_owned() }
    }

    /// Get the raw TOML content.
    pub fn raw(&self) -> (content: &str)
        ensures
            content@ == self@,
    {
        self.content.as_str()
    }
}

/// Error type for configuration operations.
#[derive(Debug)]
pub enum ConfigError {
    /// Failed to read configuration file.
    FileRead(String),
    /// Failed to parse configuration.
    Parse(String),
    /// Missing required configuration key.
    MissingKey(String),
}

impl ConfigError {
    /// The text of the error.
    pub open spec fn message_text(self) -> Seq<char> {
        match self {
            ConfigError::FileRead(detail) => "Failed to read config file: "@ + detail@,
            ConfigError::Parse(detail) => "Failed to parse config: "@ + detail@,
            ConfigError::MissingKey(key) => "Missing required config key: "@ + key@,
        }
    }

    /// Renders the error as text.
    pub fn message(&self) -> (text: String)
        ensures
            text@ == self.message_text(),
    {
        match self {
            ConfigError::FileRead(detail) => "Failed to read config file: ".to_owned().concat(
                detail.as_str(),
            ),
            ConfigError::Parse(detail) => "Failed to parse config: ".to_owned().concat(
                detail.as_str(),
            ),
            ConfigError::MissingKey(key) => "Missing required config key: ".to_owned().concat(
                key.as_str(),
            ),
        }
    }
}

/// A string, an integer or a boolean to put in a table.
pub enum TomlScalar {
    String(String),
    Integer(i64),
    Boolean(bool),
}

impl TomlScalar {
    /// The item that the scalar is in a table.
    pub open spec fn item(self) -> TomlItem {
        match self {
            TomlScalar::String(text) => TomlItem::String(text@),
            TomlScalar::Integer(n) => TomlItem::Integer(n),
            TomlScalar::Boolean(b) => TomlItem::Boolean(b),
        }
    }
}

/// Calls `toml::map::Map::new`. Taken on trust: the table is empty.
#[verifier::external_body]
fn table_new() -> (table: TomlTable)
    ensures
        table_entries(table) == no_entries(),
{
    toml::map::Map::new()
}

/// Calls `toml::map::Map::insert` with the scalar as a `toml::Value`. Taken
/// on trust: the table is as before but for the key, under which the scalar
/// now stands.
#[verifier::external_body]
fn table_insert(table: &mut TomlTable, key: &str, value: TomlScalar)
    ensures
        table_entries(*final(table)) == table_entries(*old(table)).insert(key@, value.item()),
{
    let value = match value {
        TomlScalar::String(text) => toml::Value::String(text),
        TomlScalar::Integer(n) => toml::Value::Integer(n),
        TomlScalar::Boolean(b) => toml::Value::Boolean(b),
    };
    table.insert(key.to_string(), value);
}

/// Calls `toml::to_string_pretty` on the table as a `toml::Value`. Taken on
/// trust: for a table of strings, integers and booleans, whether text comes
/// out and what it is are functions of the entries alone, the ones that
/// `pretty_text` names.
#[verifier::external_body]
fn table_to_text(table: TomlTable) -> (text: Option<String>)
    ensures
        only_scalars(table_entries(table)) ==> match text {
            Some(t) => pretty_text(table_entries(table)) == Some(t@),
            None => pretty_text(table_entries(table)) is None,
        },
{
    toml::to_string_pretty(&toml::Value::Table(table)).ok()
}

/// Builder for creating configurations programmatically.
#[derive(Debug)]
pub struct ConfigBuilder {
    values: TomlTable,
}

impl ConfigBuilder {
    #[verifier::type_invariant]
    spec fn holds_scalars(self) -> bool {
        only_scalars(table_entries(self.values))
    }

    /// The values that were set, by their keys.
    pub closed spec fn entries(self) -> Map<Seq<char>, TomlItem> {
        table_entries(self.values)
    }

    /// Create a new configuration builder, with nothing set.
    pub fn new() -> (builder: Self)
        ensures
            builder.entries() == no_entries(),
    {
        ConfigBuilder { values: table_new() }
    }

    /// The builder with `value` under `key`.
    fn set(self, key: &str, value: TomlScalar) -> (builder: Self)
        ensures
            builder.entries() == self.entries().insert(key@, value.item()),
    {
        proof {
            use_type_invariant(&self);
        }
        let mut values = self.values;
        table_insert(&mut values, key, value);
        ConfigBuilder { values }
    }

    /// Set a string value.
    pub fn set_string(self, key: &str, value: &str) -> (builder: Self)
        ensures
            builder.entries() == self.entries().insert(key@, TomlItem::String(value@)),
    {
        self.set(key, TomlScalar::String(value.to_owned()))
    }

    /// Set an integer value.
    pub fn set_int(self, key: &str, value: i64) -> (builder: Self)
        ensures
            builder.entries() == self.entries().insert(key@, TomlItem::Integer(value)),
    {
        self.set(key, TomlScalar::Integer(value))
    }

    /// Set a boolean value.
    pub fn set_bool(self, key: &str, value: bool) -> (builder: Self)
        ensures
            builder.entries() == self.entries().insert(key@, TomlItem::Boolean(value)),
    {
        self.set(key, TomlScalar::Boolean(value))
    }

    /// Build the configuration: the TOML text of what was set, or the empty
    /// text where that cannot be written.
    pub fn build(self) -> (config: Config)
        ensures
            config@ == match pretty_text(self.entries()) {
                Some(text) => text,
                None => Seq::empty(),
            },
    {
        proof {
            use_type_invariant(&self);
        }
        let content = match table_to_text(self.values) {
            Some(text) => text,
            None => String::new(),
        };
        Config { content }
    }
}

impl Default for ConfigBuilder {
    fn default() -> (builder: Self)
        ensures
            builder.entries() == no_entries(),
    {
        ConfigBuilder::new()
    }
}

/// Trait for converting TOML values to Rust types.
pub trait FromTomlValue: Sized {
    /// Whether `result` is what the conversion makes of `value`.
    spec fn converts(value: toml::Value, result: Option<Self>) -> bool;

    /// Convert from a TOML value.
    fn from_toml_value(value: &toml::Value) -> (result: Option<Self>)
        ensures
            Self::converts(*value, result),
    ;
}

impl FromTomlValue for String {
    /// A TOML string converts to its text, nothing else converts.
    open spec fn converts(value: toml::Value, result: Option<Self>) -> bool {
        match root_item(value) {
            TomlItem::String(text) => result matches Some(s) && s@ == text,
            _ => result is None,
        }
    }

    fn from_toml_value(value: &toml::Value) -> (result: Option<Self>) {
        match value_as_str(value) {
            Some(text) => Some(text.to_owned()),
            None => None,
        }
    }
}

impl FromTomlValue for i64 {
    /// A TOML integer converts to its number, nothing else converts.
    open spec fn converts(value: toml::Value, result: Option<Self>) -> bool {
        match root_item(value) {
            TomlItem::Integer(n) => result == Some(n),
            _ => result is None,
        }
    }

    fn from_toml_value(value: &toml::Value) -> (result: Option<Self>) {
        value_as_integer(value)
    }
}

impl FromTomlValue for bool {
    /// A TOML boolean converts to its flag, nothing else converts.
    open spec fn converts(value: toml::Value, result: Option<Self>) -> bool {
        match root_item(value) {
            TomlItem::Boolean(b) => result == Some(b),
            _ => result is None,
        }
    }

    fn from_toml_value(value: &toml::Value) -> (result: Option<Self>) {
        value_as_bool(value)
    }
}

impl FromTomlValue for toml::Value {
    /// Every TOML value converts to a value that holds the same items.
    open spec fn converts(value: toml::Value, result: Option<Self>) -> bool {
        result matches Some(copy) && value_items(copy) == value_items(value)
    }

    fn from_toml_value(value: &toml::Value) -> (result: Option<Self>) {
        Some(value_clone(value))
    }
}

/// Whether every key of `path` leads somewhere in `items`, one after the
/// other.
pub open spec fn path_exists(items: Map<Seq<Seq<char>>, TomlItem>, path: Seq<Seq<char>>) -> bool {
    forall|n: int| 1 <= n <= path.len() ==> items.contains_key(#[trigger] path.take(n))
}

/// Going down by `key` from what lies under `path` is lying under `path`
/// with `key` behind it.
proof fn lemma_items_under_step(
    items: Map<Seq<Seq<char>>, TomlItem>,
    path: Seq<Seq<char>>,
    key: Seq<char>,
)
    ensures
        items_under(items_under(items, path), seq![key]) == items_under(items, path.push(key)),
        items_under(items, path).contains_key(seq![key]) == items.contains_key(path.push(key)),
{
    assert(path + seq![key] =~= path.push(key));
    assert forall|rest: Seq<Seq<char>>| path + (seq![key] + rest) == path.push(key) + rest by {
        assert(path + (seq![key] + rest) =~= path.push(key) + rest);
    }
    assert(items_under(items_under(items, path), seq![key]) =~= items_under(items, path.push(key)));
}

impl Config {
    /// What `get` answers for `key`: where the text is TOML and the parts
    /// of `key` between dots lead from table to table to a value, what `T`
    /// makes of that value; else `None`.
    pub open spec fn answers<T: FromTomlValue>(self, key: Seq<char>, result: Option<T>) -> bool {
        let path = split(key, '.');
        match document_items(self@) {
            Some(items) => if path_exists(items, path) {
                exists|value: toml::Value|
                    #[trigger] value_items(value) == items_under(items, path) && T::converts(
                        value,
                        result,
                    )
            } else {
                result is None
            },
            None => result is None,
        }
    }

    /// Get a value from the configuration by key path.
    ///
    /// Supports nested keys using dot notation: "section.key"
    pub fn get<T: FromTomlValue>(&self, key: &str) -> (result: Option<T>)
        ensures
            self.answers(key@, result),
    {
        let document = match parse_document(self.content.as_str()) {
            Some(document) => document,
            None => {
                return None;
            },
        };
        let parts = split_on(key, '.');
        let ghost items = value_items(document);
        let ghost path = split(key@, '.');
        let mut current = &document;
        let mut i: usize = 0;
        assert(path.take(0) =~= Seq::empty());
        assert(items_under(items, Seq::empty()) =~= items) by {
            assert forall|rest: Seq<Seq<char>>| Seq::<Seq<char>>::empty() + rest == rest by {
                assert(Seq::<Seq<char>>::empty() + rest =~= rest);
            }
        }
        while i < parts.len()
            invariant
                i <= parts@.len(),
                views(parts@) == path,
                path == split(key@, '.'),
                document_items(self@) == Some(items),
                value_items(*current) == items_under(items, path.take(i as int)),
                forall|n: int| 1 <= n <= i ==> items.contains_key(#[trigger] path.take(n)),
            decreases parts@.len() - i,
        {
            let part = parts[i];
            proof {
                assert(part@ == path[i as int]);
                lemma_items_under_step(items, path.take(i as int), part@);
                assert(path.take(i as int).push(part@) =~= path.take(i + 1));
            }
            match value_get(current, part) {
                Some(child) => {
                    current = child;
                },
                None => {
                    assert(path.len() == parts@.len());
                    assert(!items.contains_key(path.take(i + 1)));
                    return None;
                },
            }
            i += 1;
        }
        assert(path.take(path.len() as int) =~= path);
        T::from_toml_value(current)
    }

    /// Check if a key exists in the configuration.
    pub fn has_key(&self, key: &str) -> (found: bool)
        ensures
            found == (document_items(self@) matches Some(items) && path_exists(
                items,
                split(key@, '.'),
            )),
    {
        self.get::<toml::Value>(key).is_some()
    }
}

} // verus!
