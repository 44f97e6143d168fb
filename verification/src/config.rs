//! TOML runtime configuration held as a document, without a fixed schema.
//! Reading and writing TOML text is the toml crate's; files are the
//! caller's.

use vstd::prelude::*;

use crate::paths::path_extension;
use crate::text::{ends_with, push_char, str_eq};

verus! {

#[verifier::external_type_specification]
#[verifier::external_body]
#[verifier::reject_recursive_types(K)]
#[verifier::reject_recursive_types(V)]
pub struct ExTomlMap<K, V>(toml::map::Map<K, V>);

#[verifier::external_type_specification]
#[verifier::external_body]
pub struct ExTomlValue(toml::Value);

#[derive(Debug, Clone, PartialEq, Eq)]
pub enum ConfigError {
    InvalidExtension(String),
    Io(String),
    Parse(String),
    Serialize(String),
    Persist(String),
}

/// The top-level keys a TOML table holds.
pub uninterp spec fn table_keys(table: toml::map::Map<String, toml::Value>) -> Set<Seq<char>>;

/// Whether the toml crate reads the text as a table.
pub uninterp spec fn toml_accepts(text: Seq<char>) -> bool;

/// The top-level keys of the table `toml::from_str` reads from the text.
pub uninterp spec fn toml_keys(text: Seq<char>) -> Set<Seq<char>>;

/// The text `toml::to_string_pretty` writes for a table, where it writes
/// one.
pub uninterp spec fn pretty_toml(table: toml::map::Map<String, toml::Value>) -> Option<Seq<char>>;

/// `toml::from_str` into a table. Claimed: it succeeds exactly where the
/// text is accepted, which depends on the text alone, and the table holds
/// the keys the text gives it.
#[verifier::external_body]
fn parse_table(text: &str) -> (result: Result<toml::map::Map<String, toml::Value>, String>)
    ensures
        result is Ok == toml_accepts(text@),
        result matches Ok(table) ==> table_keys(table) == toml_keys(text@),
{
    toml::from_str::<toml::Table>(text).map_err(|error| error.to_string())
}

/// `toml::to_string_pretty` of a table. Claimed: the text, or an error
/// exactly where there is none, as a function of the table.
#[verifier::external_body]
fn pretty_text(table: &toml::map::Map<String, toml::Value>) -> (result: Result<String, String>)
    ensures
        match result {
            Ok(text) => pretty_toml(*table) == Some(text@),
            Err(_) => pretty_toml(*table) is None,
        },
{
    toml::to_string_pretty(table).map_err(|error| error.to_string())
}

/// `Map::get`. Claimed: a value comes back exactly for a key the table
/// holds.
#[verifier::external_body]
fn table_get<'a>(table: &'a toml::map::Map<String, toml::Value>, key: &str) -> (value: Option<&'a toml::Value>)
    ensures
        value is Some == table_keys(*table).contains(key@),
{
    table.get(key)
}

/// `Map::insert`. Claimed: the key joins the keys, the other keys stay,
/// and the previous value comes back exactly when the key was there.
#[verifier::external_body]
fn table_insert(table: &mut toml::map::Map<String, toml::Value>, key: String, value: toml::Value) -> (previous:
    Option<toml::Value>)
    ensures
        table_keys(*final(table)) == table_keys(*old(table)).insert(key@),
        previous is Some == table_keys(*old(table)).contains(key@),
{
    table.insert(key, value)
}

/// A configuration document: one TOML table, unknown keys included.
#[derive(Debug)]
pub struct ConfigDocument {
    values: toml::map::Map<String, toml::Value>,
}

/// What `to_toml_string` gives for a table: the pretty text, ending in a
/// newline.
pub open spec fn document_text(table: toml::map::Map<String, toml::Value>) -> Option<Seq<char>> {
    match pretty_toml(table) {
        Some(text) => Some(
            if text.len() > 0 && text.last() == '\n' {
                text
            } else {
                text.push('\n')
            },
        ),
        None => None,
    }
}

impl ConfigDocument {
    pub closed spec fn table(&self) -> toml::map::Map<String, toml::Value> {
        self.values
    }

    pub fn new(values: toml::map::Map<String, toml::Value>) -> (document: Self)
        ensures
            document.table() == values,
    {
        ConfigDocument { values }
    }

    /// Reads a document from TOML text.
    pub fn parse(text: &str) -> (result: Result<Self, ConfigError>)
        ensures
            result is Ok == toml_accepts(text@),
            result matches Ok(document) ==> table_keys(document.table()) == toml_keys(text@),
            result matches Err(e) ==> e is Parse,
    {
        match parse_table(text) {
            Ok(values) => Ok(ConfigDocument { values }),
            Err(message) => Err(ConfigError::Parse(message)),
        }
    }

    /// The document as pretty TOML, always ending in a newline.
    pub fn to_toml_string(&self) -> (result: Result<String, ConfigError>)
        ensures
            match document_text(self.table()) {
                Some(text) => result matches Ok(t) && t@ == text,
                None => result matches Err(ConfigError::Serialize(_)),
            },
    {
        let mut text = match pretty_text(&self.values) {
            Ok(text) => text,
            Err(message) => {
                return Err(ConfigError::Serialize(message));
            },
        };
        proof {
            reveal_strlit("\n");
            if text@.len() > 0 {
                let tail = text@.subrange(text@.len() - 1, text@.len() as int);
                assert(tail[0] == text@.last());
                if text@.last() == '\n' {
                    assert(tail =~= "\n"@);
                }
            }
        }
        if !ends_with(text.as_str(), "\n") {
            push_char(&mut text, '\n');
        }
        Ok(text)
    }

    pub fn get(&self, key: &str) -> (value: Option<&toml::Value>)
        ensures
            value is Some == table_keys(self.table()).contains(key@),
    {
        table_get(&self.values, key)
    }

    pub fn insert(&mut self, key: String, value: toml::Value) -> (previous: Option<toml::Value>)
        ensures
            table_keys(final(self).table()) == table_keys(old(self).table()).insert(key@),
            previous is Some == table_keys(old(self).table()).contains(key@),
    {
        table_insert(&mut self.values, key, value)
    }

    pub fn values(&self) -> (values: &toml::map::Map<String, toml::Value>)
        ensures
            *values == self.table(),
    {
        &self.values
    }
}

/// Configuration files use the `.toml` extension.
pub fn ensure_toml_path(path: &str) -> (result: Result<(), ConfigError>)
    ensures
        path_extension(path@) == Some("toml"@) ==> result is Ok,
        path_extension(path@) != Some("toml"@) ==> (result matches Err(ConfigError::InvalidExtension(p))
            && p@ == path@),
{
    let valid = match crate::paths::extension_of(path) {
        Some(extension) => {
            let text = crate::text::string_of(&extension, 0, extension.len());
            assert(extension@.subrange(0, extension@.len() as int) =~= extension@);
            str_eq(text.as_str(), "toml")
        },
        None => false,
    };
    if valid {
        Ok(())
    } else {
        Err(ConfigError::InvalidExtension(String::from_str(path)))
    }
}

} // verus!
