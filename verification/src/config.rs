//! The settings of a run, read from a TOML document.

use vstd::prelude::*;

verus! {

/// A table of the `toml` crate: keys and the values that stand under them.
/// Nothing of its inside is visible here.
#[verifier::external_type_specification]
#[verifier::external_body]
#[verifier::reject_recursive_types(K)]
#[verifier::reject_recursive_types(V)]
pub struct ExTomlMap<K, V>(toml::map::Map<K, V>);

/// A value of the `toml` crate. Nothing of its inside is visible here.
#[verifier::external_type_specification]
#[verifier::external_body]
pub struct ExTomlValue(toml::Value);

/// The error with which the `toml` crate turns a document down. Nothing of
/// its inside is visible here.
#[verifier::external_type_specification]
#[verifier::external_body]
pub struct ExTomlError(toml::de::Error);

/// The settings that a run needs, each under the key of its name.
#[derive(Clone, Copy, Debug, PartialEq, Eq, Structural)]
pub enum Key {
    /// The number of rows.
    Generations,
    /// The title of the window.
    Name,
    /// The width of the window, in pixels.
    Width,
    /// The height of the window, in pixels.
    Height,
    /// The number of the rule, 0 to 255.
    Rule,
    /// The width from which the grid grows no more.
    MaxComputingLength,
    /// The number of columns that a picture should show.
    MaxDrawingLength,
    /// The length of the sides of a cell's square, in pixels.
    CellSize,
}

/// Why a document gives no settings.
#[derive(Clone, Copy, Debug, PartialEq, Eq, Structural)]
pub enum ConfigError {
    /// The document is not valid TOML.
    Syntax,
    /// The document has no such key.
    Missing(Key),
    /// The value under the key is of the wrong type.
    WrongType(Key),
    /// The number under the key is negative or too large.
    OutOfRange(Key),
}

/// What a document holds under one key, as far as the settings go.
pub enum Field {
    /// An integer.
    Integer(i64),
    /// A string.
    Text(Seq<char>),
    /// A value of any other type.
    Other,
}

/// What a lookup in a table found.
#[derive(Debug)]
pub enum Entry {
    /// The table has no such key.
    Missing,
    /// An integer.
    Integer(i64),
    /// A string.
    Text(String),
    /// A value of any other type.
    Other,
}

impl View for Entry {
    type V = Option<Field>;

    open spec fn view(&self) -> Option<Field> {
        match self {
            Entry::Missing => None,
            Entry::Integer(number) => Some(Field::Integer(*number)),
            Entry::Text(text) => Some(Field::Text(text@)),
            Entry::Other => Some(Field::Other),
        }
    }
}

/// The settings of a run.
#[derive(Debug)]
pub struct Config {
    /// The number of rows.
    pub generations: usize,
    /// The title of the window.
    pub name: String,
    /// The width of the window, in pixels.
    pub width: u32,
    /// The height of the window, in pixels.
    pub height: u32,
    /// The number of the rule.
    pub rule: u8,
    /// The width from which the grid grows no more.
    pub max_computing_length: usize,
    /// The number of columns that a picture should show.
    pub max_drawing_length: usize,
    /// The length of the sides of a cell's square, in pixels.
    pub cell_size: u32,
}

/// The settings of a run, as plain values.
pub struct Settings {
    pub generations: int,
    pub name: Seq<char>,
    pub width: int,
    pub height: int,
    pub rule: int,
    pub max_computing_length: int,
    pub max_drawing_length: int,
    pub cell_size: int,
}

impl View for Config {
    type V = Settings;

    open spec fn view(&self) -> Settings {
        Settings {
            generations: self.generations as int,
            name: self.name@,
            width: self.width as int,
            height: self.height as int,
            rule: self.rule as int,
            max_computing_length: self.max_computing_length as int,
            max_drawing_length: self.max_drawing_length as int,
            cell_size: self.cell_size as int,
        }
    }
}

/// What `table` holds: for each of its keys, the value under it.
pub uninterp spec fn table_fields(table: toml::map::Map<String, toml::Value>) -> Map<
    Seq<char>,
    Field,
>;

/// What the TOML document `text` holds at its top level: for each key, the
/// value under it; nothing if `text` is not a valid document.
pub uninterp spec fn document_fields(text: Seq<char>) -> Option<Map<Seq<char>, Field>>;

/// What stands under `key` in `fields`, if anything.
pub open spec fn field(fields: Map<Seq<char>, Field>, key: Seq<char>) -> Option<Field> {
    if fields.contains_key(key) {
        Some(fields[key])
    } else {
        None
    }
}

/// Reads `text` as a TOML document, by the `FromStr` impl of `toml::Table`.
/// Trusted: the call succeeds on the valid documents and on no others, and
/// the table it gives holds what the document holds at its top level.
#[verifier::external_body]
fn parse_document(text: &str) -> (parsed: Result<toml::Table, toml::de::Error>)
    ensures
        parsed matches Ok(table) ==> document_fields(text@) == Some(table_fields(table)),
        parsed is Err ==> document_fields(text@) is None,
{
    text.parse::<toml::Table>()
}

/// Looks `key` up in `table`, by `toml::map::Map::get`. Trusted: the entry
/// tells what the table holds under that key, an integer and a string with
/// their values, any other value by its presence alone.
#[verifier::external_body]
fn lookup(table: &toml::Table, key: &str) -> (entry: Entry)
    ensures
        entry@ == field(table_fields(*table), key@),
{
    match table.get(key) {
        None => Entry::Missing,
        Some(toml::Value::Integer(number)) => Entry::Integer(*number),
        Some(toml::Value::String(text)) => Entry::Text(text.clone()),
        Some(_) => Entry::Other,
    }
}

impl Key {
    /// The key as it is written in a document.
    pub open spec fn spelling(self) -> Seq<char> {
        match self {
            Key::Generations => "generations"@,
            Key::Name => "name"@,
            Key::Width => "width"@,
            Key::Height => "height"@,
            Key::Rule => "rule"@,
            Key::MaxComputingLength => "max_computing_length"@,
            Key::MaxDrawingLength => "max_drawing_length"@,
            Key::CellSize => "cell_size"@,
        }
    }

    /// The largest number that the setting can take.
    pub open spec fn limit(self) -> int {
        match self {
            Key::Generations | Key::MaxComputingLength | Key::MaxDrawingLength => usize::MAX as int,
            Key::Width | Key::Height | Key::CellSize => u32::MAX as int,
            Key::Rule => 255,
            Key::Name => 0,
        }
    }

    /// The key as it is written in a document.
    pub fn as_str(self) -> (text: &'static str)
        ensures
            text@ == self.spelling(),
    {
        match self {
            Key::Generations => "generations",
            Key::Name => "name",
            Key::Width => "width",
            Key::Height => "height",
            Key::Rule => "rule",
            Key::MaxComputingLength => "max_computing_length",
            Key::MaxDrawingLength => "max_drawing_length",
            Key::CellSize => "cell_size",
        }
    }
}

/// The number that an entry gives the setting `key`: the integer found, if it
/// lies between 0 and the setting's limit.
pub open spec fn number_in(found: Option<Field>, key: Key) -> Result<int, ConfigError> {
    match found {
        None => Err(ConfigError::Missing(key)),
        Some(Field::Integer(value)) => if 0 <= value <= key.limit() {
            Ok(value as int)
        } else {
            Err(ConfigError::OutOfRange(key))
        },
        Some(_) => Err(ConfigError::WrongType(key)),
    }
}

/// The text that an entry gives the setting `key`: the string found.
pub open spec fn text_in(found: Option<Field>, key: Key) -> Result<Seq<char>, ConfigError> {
    match found {
        None => Err(ConfigError::Missing(key)),
        Some(Field::Text(value)) => Ok(value),
        Some(_) => Err(ConfigError::WrongType(key)),
    }
}

/// The number that `fields` gives the setting `key`.
pub open spec fn number(fields: Map<Seq<char>, Field>, key: Key) -> Result<int, ConfigError> {
    number_in(field(fields, key.spelling()), key)
}

/// The text that `fields` gives the setting `key`.
pub open spec fn text(fields: Map<Seq<char>, Field>, key: Key) -> Result<Seq<char>, ConfigError> {
    text_in(field(fields, key.spelling()), key)
}

/// What is wrong with the setting `key` in `fields`, if anything.
pub open spec fn fault(fields: Map<Seq<char>, Field>, key: Key) -> Option<ConfigError> {
    if key == Key::Name {
        match text(fields, key) {
            Ok(_) => None,
            Err(error) => Some(error),
        }
    } else {
        match number(fields, key) {
            Ok(_) => None,
            Err(error) => Some(error),
        }
    }
}

/// The first fault in `fields`, the settings taken in the order in which
/// `Key` lists them.
pub open spec fn first_fault(fields: Map<Seq<char>, Field>) -> Option<ConfigError> {
    if fault(fields, Key::Generations) is Some {
        fault(fields, Key::Generations)
    } else if fault(fields, Key::Name) is Some {
        fault(fields, Key::Name)
    } else if fault(fields, Key::Width) is Some {
        fault(fields, Key::Width)
    } else if fault(fields, Key::Height) is Some {
        fault(fields, Key::Height)
    } else if fault(fields, Key::Rule) is Some {
        fault(fields, Key::Rule)
    } else if fault(fields, Key::MaxComputingLength) is Some {
        fault(fields, Key::MaxComputingLength)
    } else if fault(fields, Key::MaxDrawingLength) is Some {
        fault(fields, Key::MaxDrawingLength)
    } else {
        fault(fields, Key::CellSize)
    }
}

/// The settings that `fields` gives, where it has no fault.
pub open spec fn settings(fields: Map<Seq<char>, Field>) -> Settings {
    Settings {
        generations: number(fields, Key::Generations)->Ok_0,
        name: text(fields, Key::Name)->Ok_0,
        width: number(fields, Key::Width)->Ok_0,
        height: number(fields, Key::Height)->Ok_0,
        rule: number(fields, Key::Rule)->Ok_0,
        max_computing_length: number(fields, Key::MaxComputingLength)->Ok_0,
        max_drawing_length: number(fields, Key::MaxDrawingLength)->Ok_0,
        cell_size: number(fields, Key::CellSize)->Ok_0,
    }
}

/// What reading the settings from `fields` gives: the first fault, or the
/// settings if there is none.
pub open spec fn reading(fields: Map<Seq<char>, Field>) -> Result<Settings, ConfigError> {
    match first_fault(fields) {
        Some(error) => Err(error),
        None => Ok(settings(fields)),
    }
}

/// What reading the settings from the document `text` gives.
pub open spec fn document_reading(text: Seq<char>) -> Result<Settings, ConfigError> {
    match document_fields(text) {
        None => Err(ConfigError::Syntax),
        Some(fields) => reading(fields),
    }
}

/// The number that `entry` gives the setting `key`.
pub fn entry_number(entry: &Entry, key: Key) -> (result: Result<u64, ConfigError>)
    ensures
        result matches Ok(value) ==> number_in(entry@, key) == Ok::<int, ConfigError>(value as int),
        result matches Err(error) ==> number_in(entry@, key) == Err::<int, ConfigError>(error),
{
    let limit: u64 = match key {
        Key::Generations | Key::MaxComputingLength | Key::MaxDrawingLength => usize::MAX as u64,
        Key::Width | Key::Height | Key::CellSize => u32::MAX as u64,
        Key::Rule => 255,
        Key::Name => 0,
    };
    match entry {
        Entry::Missing => Err(ConfigError::Missing(key)),
        Entry::Integer(found) => {
            if *found < 0 || *found as u64 > limit {
                Err(ConfigError::OutOfRange(key))
            } else {
                Ok(*found as u64)
            }
        },
        _ => Err(ConfigError::WrongType(key)),
    }
}

/// The text that `entry` gives the setting `key`.
pub fn entry_text(entry: Entry, key: Key) -> (result: Result<String, ConfigError>)
    ensures
        result matches Ok(value) ==> text_in(entry@, key) == Ok::<Seq<char>, ConfigError>(value@),
        result matches Err(error) ==> text_in(entry@, key) == Err::<Seq<char>, ConfigError>(
            error,
        ),
{
    match entry {
        Entry::Missing => Err(ConfigError::Missing(key)),
        Entry::Text(found) => Ok(found),
        _ => Err(ConfigError::WrongType(key)),
    }
}

impl Config {
    /// Reads the settings from a table. Every setting must stand under its
    /// key, the title as a string and the others as integers that are not
    /// negative and no larger than the setting allows; the first setting of
    /// which this does not hold is reported.
    pub fn from_table(table: &toml::Table) -> (result: Result<Config, ConfigError>)
        ensures
            result matches Ok(config) ==> reading(table_fields(*table)) == Ok::<
                Settings,
                ConfigError,
            >(config@),
            result matches Err(error) ==> reading(table_fields(*table)) == Err::<
                Settings,
                ConfigError,
            >(error),
    {
        let generations = entry_number(
            &lookup(table, Key::Generations.as_str()),
            Key::Generations,
        )?;
        let name = entry_text(lookup(table, Key::Name.as_str()), Key::Name)?;
        let width = entry_number(&lookup(table, Key::Width.as_str()), Key::Width)?;
        let height = entry_number(&lookup(table, Key::Height.as_str()), Key::Height)?;
        let rule = entry_number(&lookup(table, Key::Rule.as_str()), Key::Rule)?;
        let max_computing_length = entry_number(
            &lookup(table, Key::MaxComputingLength.as_str()),
            Key::MaxComputingLength,
        )?;
        let max_drawing_length = entry_number(
            &lookup(table, Key::MaxDrawingLength.as_str()),
            Key::MaxDrawingLength,
        )?;
        let cell_size = entry_number(&lookup(table, Key::CellSize.as_str()), Key::CellSize)?;
        Ok(
            Config {
                generations: generations as usize,
                name,
                width: width as u32,
                height: height as u32,
                rule: rule as u8,
                max_computing_length: max_computing_length as usize,
                max_drawing_length: max_drawing_length as usize,
                cell_size: cell_size as u32,
            },
        )
    }

    /// Reads the settings from a TOML document.
    pub fn parse(text: &str) -> (result: Result<Config, ConfigError>)
        ensures
            result matches Ok(config) ==> document_reading(text@) == Ok::<Settings, ConfigError>(
                config@,
            ),
            result matches Err(error) ==> document_reading(text@) == Err::<Settings, ConfigError>(
                error,
            ),
    {
        match parse_document(text) {
            Ok(table) => Config::from_table(&table),
            Err(_) => Err(ConfigError::Syntax),
        }
    }
}

} // verus!
