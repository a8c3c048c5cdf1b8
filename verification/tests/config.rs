use cellular_automaton::config::{entry_number, entry_text, Config, ConfigError, Entry, Key};

const DOCUMENT: &str = "
name = \"Rule 30\"
width = 800
height = 600
generations = 100
rule = 30
max_computing_length = 300
max_drawing_length = 200
cell_size = 4
";

fn without(key: &str) -> String {
    DOCUMENT
        .lines()
        .filter(|line| !line.starts_with(&format!("{} =", key)))
        .collect::<Vec<_>>()
        .join("\n")
}

fn with(key: &str, value: &str) -> String {
    format!("{}\n{} = {}\n", without(key), key, value)
}

fn table(document: &str) -> toml::Table {
    match document.parse::<toml::Table>() {
        Ok(table) => table,
        Err(error) => panic!("no table: {}", error),
    }
}

#[test]
fn parse_reads_every_setting() {
    let config = match Config::parse(DOCUMENT) {
        Ok(config) => config,
        Err(error) => panic!("no settings: {:?}", error),
    };
    assert_eq!(config.name, "Rule 30");
    assert_eq!(config.width, 800);
    assert_eq!(config.height, 600);
    assert_eq!(config.generations, 100);
    assert_eq!(config.rule, 30);
    assert_eq!(config.max_computing_length, 300);
    assert_eq!(config.max_drawing_length, 200);
    assert_eq!(config.cell_size, 4);
}

#[test]
fn parse_ignores_other_keys() {
    let document = format!("{}\nauthor = \"nobody\"\n[extra]\ndepth = 1.5\n", DOCUMENT);
    let config = match Config::parse(&document) {
        Ok(config) => config,
        Err(error) => panic!("no settings: {:?}", error),
    };
    assert_eq!(config.rule, 30);
}

#[test]
fn parse_rejects_what_is_not_toml() {
    assert_eq!(Config::parse("generations = ").err(), Some(ConfigError::Syntax));
    assert_eq!(Config::parse("rule = 30\nrule = 31").err(), Some(ConfigError::Syntax));
    assert_eq!(Config::parse("[[[").err(), Some(ConfigError::Syntax));
}

#[test]
fn parse_of_an_empty_document_misses_the_first_setting() {
    assert_eq!(Config::parse("").err(), Some(ConfigError::Missing(Key::Generations)));
}

#[test]
fn parse_reports_each_missing_key() {
    for key in [
        Key::Generations,
        Key::Name,
        Key::Width,
        Key::Height,
        Key::Rule,
        Key::MaxComputingLength,
        Key::MaxDrawingLength,
        Key::CellSize,
    ] {
        let document = without(key.as_str());
        assert_eq!(Config::parse(&document).err(), Some(ConfigError::Missing(key)));
    }
}

#[test]
fn parse_reports_each_value_of_the_wrong_type() {
    for key in [
        Key::Generations,
        Key::Width,
        Key::Height,
        Key::Rule,
        Key::MaxComputingLength,
        Key::MaxDrawingLength,
        Key::CellSize,
    ] {
        for value in ["\"12\"", "1.5", "true", "[1, 2]", "{ inner = 1 }", "1979-05-27"] {
            let document = with(key.as_str(), value);
            assert_eq!(Config::parse(&document).err(), Some(ConfigError::WrongType(key)));
        }
    }
    for value in ["12", "1.5", "false", "[\"a\"]"] {
        let document = with("name", value);
        assert_eq!(Config::parse(&document).err(), Some(ConfigError::WrongType(Key::Name)));
    }
}

#[test]
fn parse_reports_the_first_fault() {
    let document = with("rule", "\"thirty\"").replace("width = 800", "");
    assert_eq!(Config::parse(&document).err(), Some(ConfigError::Missing(Key::Width)));
    let document = with("cell_size", "-1").replace("rule = 30", "rule = 300");
    assert_eq!(Config::parse(&document).err(), Some(ConfigError::OutOfRange(Key::Rule)));
}

#[test]
fn parse_rejects_a_rule_out_of_range() {
    assert_eq!(Config::parse(&with("rule", "256")).err(), Some(ConfigError::OutOfRange(Key::Rule)));
    assert_eq!(Config::parse(&with("rule", "-1")).err(), Some(ConfigError::OutOfRange(Key::Rule)));
    assert_eq!(Config::parse(&with("rule", "286")).err(), Some(ConfigError::OutOfRange(Key::Rule)));
    assert_eq!(Config::parse(&with("rule", "255")).map(|config| config.rule), Ok(255));
    assert_eq!(Config::parse(&with("rule", "0")).map(|config| config.rule), Ok(0));
}

#[test]
fn parse_rejects_negative_numbers() {
    for key in [
        Key::Generations,
        Key::Width,
        Key::Height,
        Key::MaxComputingLength,
        Key::MaxDrawingLength,
        Key::CellSize,
    ] {
        let document = with(key.as_str(), "-1");
        assert_eq!(Config::parse(&document).err(), Some(ConfigError::OutOfRange(key)));
    }
}

#[test]
fn parse_rejects_pixels_beyond_32_bits() {
    for key in [Key::Width, Key::Height, Key::CellSize] {
        let document = with(key.as_str(), "4294967296");
        assert_eq!(Config::parse(&document).err(), Some(ConfigError::OutOfRange(key)));
        let document = with(key.as_str(), "4294967295");
        assert!(Config::parse(&document).is_ok());
    }
}

#[test]
fn parse_accepts_zero() {
    let document = with("generations", "0");
    assert_eq!(Config::parse(&document).map(|config| config.generations), Ok(0));
    let document = with("max_computing_length", "0");
    assert_eq!(Config::parse(&document).map(|config| config.max_computing_length), Ok(0));
}

#[test]
fn from_table_reads_what_the_table_holds() {
    let mut settings = toml::Table::new();
    settings.insert("name".to_string(), toml::Value::String("Sierpinski".to_string()));
    settings.insert("width".to_string(), toml::Value::Integer(640));
    settings.insert("height".to_string(), toml::Value::Integer(480));
    settings.insert("generations".to_string(), toml::Value::Integer(64));
    settings.insert("rule".to_string(), toml::Value::Integer(90));
    settings.insert("max_computing_length".to_string(), toml::Value::Integer(129));
    settings.insert("max_drawing_length".to_string(), toml::Value::Integer(127));
    assert_eq!(Config::from_table(&settings).err(), Some(ConfigError::Missing(Key::CellSize)));
    settings.insert("cell_size".to_string(), toml::Value::Boolean(true));
    assert_eq!(Config::from_table(&settings).err(), Some(ConfigError::WrongType(Key::CellSize)));
    settings.insert("cell_size".to_string(), toml::Value::Integer(5));
    let config = match Config::from_table(&settings) {
        Ok(config) => config,
        Err(error) => panic!("no settings: {:?}", error),
    };
    assert_eq!(config.name, "Sierpinski");
    assert_eq!(config.width, 640);
    assert_eq!(config.height, 480);
    assert_eq!(config.generations, 64);
    assert_eq!(config.rule, 90);
    assert_eq!(config.max_computing_length, 129);
    assert_eq!(config.max_drawing_length, 127);
    assert_eq!(config.cell_size, 5);
}

#[test]
fn from_table_agrees_with_parse() {
    let from_table = Config::from_table(&table(DOCUMENT)).map(|config| config.generations);
    assert_eq!(from_table, Ok(100));
    let broken = with("height", "\"tall\"");
    assert_eq!(
        Config::from_table(&table(&broken)).err(),
        Config::parse(&broken).err()
    );
}

#[test]
fn entry_number_checks_the_range_of_the_setting() {
    assert_eq!(entry_number(&Entry::Integer(30), Key::Rule), Ok(30));
    assert_eq!(entry_number(&Entry::Integer(255), Key::Rule), Ok(255));
    assert_eq!(
        entry_number(&Entry::Integer(256), Key::Rule),
        Err(ConfigError::OutOfRange(Key::Rule))
    );
    assert_eq!(entry_number(&Entry::Integer(256), Key::CellSize), Ok(256));
    assert_eq!(
        entry_number(&Entry::Integer(-5), Key::Generations),
        Err(ConfigError::OutOfRange(Key::Generations))
    );
    assert_eq!(
        entry_number(&Entry::Integer(i64::MIN), Key::Width),
        Err(ConfigError::OutOfRange(Key::Width))
    );
}

#[test]
fn entry_number_tells_missing_from_mistyped() {
    assert_eq!(
        entry_number(&Entry::Missing, Key::Height),
        Err(ConfigError::Missing(Key::Height))
    );
    assert_eq!(
        entry_number(&Entry::Other, Key::Height),
        Err(ConfigError::WrongType(Key::Height))
    );
    assert_eq!(
        entry_number(&Entry::Text("600".to_string()), Key::Height),
        Err(ConfigError::WrongType(Key::Height))
    );
}

#[test]
fn entry_text_takes_strings_only() {
    assert_eq!(entry_text(Entry::Text("title".to_string()), Key::Name), Ok("title".to_string()));
    assert_eq!(entry_text(Entry::Text(String::new()), Key::Name), Ok(String::new()));
    assert_eq!(entry_text(Entry::Missing, Key::Name), Err(ConfigError::Missing(Key::Name)));
    assert_eq!(entry_text(Entry::Integer(5), Key::Name), Err(ConfigError::WrongType(Key::Name)));
    assert_eq!(entry_text(Entry::Other, Key::Name), Err(ConfigError::WrongType(Key::Name)));
}

#[test]
fn keys_are_spelled_as_in_the_document() {
    assert_eq!(Key::Generations.as_str(), "generations");
    assert_eq!(Key::Name.as_str(), "name");
    assert_eq!(Key::Width.as_str(), "width");
    assert_eq!(Key::Height.as_str(), "height");
    assert_eq!(Key::Rule.as_str(), "rule");
    assert_eq!(Key::MaxComputingLength.as_str(), "max_computing_length");
    assert_eq!(Key::MaxDrawingLength.as_str(), "max_drawing_length");
    assert_eq!(Key::CellSize.as_str(), "cell_size");
}
