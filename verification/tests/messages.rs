use options::{Config, Error, Expected, ListEdit, ListEditAction, OptionId, RawValue, Table};

fn to_toml(value: &RawValue) -> toml::Value {
    match value {
        RawValue::String(text) => toml::Value::String(text.clone()),
        RawValue::Integer(number) => toml::Value::Integer(*number),
        RawValue::Float(bits) => toml::Value::Float(f64::from_bits(*bits)),
        RawValue::Boolean(flag) => toml::Value::Boolean(*flag),
        RawValue::Datetime(text) => toml::Value::Datetime(text.parse().unwrap()),
        RawValue::Array(items) => toml::Value::Array(items.iter().map(to_toml).collect()),
        RawValue::Table(table) => {
            let mut entries = toml::Table::new();
            for index in 0..table.len() {
                entries.insert(table.key(index).to_owned(), to_toml(table.value(index)));
            }
            toml::Value::Table(entries)
        }
    }
}

fn show(value: &RawValue) -> String {
    to_toml(value).to_string()
}

fn layer(text: &str) -> Config {
    Config::parse("test.toml", text).unwrap()
}

fn id(scope: &str, name: &str) -> OptionId {
    OptionId::new(scope, name, &format!("[{}] {}", scope, name))
}

fn no_parser(_text: &str) -> Result<Vec<ListEdit>, String> {
    panic!("the parser of list edits must not be called")
}

#[test]
fn message_of_a_syntax_error() {
    let error = Error::Parse { file: "a.toml".to_owned(), detail: "bad line".to_owned() };
    assert_eq!(error.message(show), "Failed to parse config file a.toml: bad line");
}

#[test]
fn message_of_a_root_that_is_no_table() {
    let error = Config::from_value("a.toml", RawValue::Array(vec![RawValue::Integer(1)]))
        .unwrap_err();
    assert_eq!(
        error.message(show),
        "Expected the config file a.toml to contain a table but contained a array: [1]"
    );
}

#[test]
fn message_of_a_scope_that_is_no_table() {
    let error = Config::parse("a.toml", "top = \"oops\"\n").unwrap_err();
    assert_eq!(
        error.message(show),
        "Expected the config file a.toml to contain tables per section, but section top \
         contained a string: \"oops\""
    );
}

#[test]
fn message_of_a_value_that_is_no_string() {
    let error = layer("[s]\nname = 5\n").get_string(&id("s", "name")).unwrap_err();
    assert_eq!(error.message(show), "Expected [s] name to be a string but given 5.");
}

#[test]
fn message_of_a_value_that_is_no_bool() {
    let error = layer("[s]\non = \"yes\"\n").get_bool(&id("s", "on")).unwrap_err();
    assert_eq!(error.message(show), "Expected [s] on to be a bool but given \"yes\".");
}

#[test]
fn message_of_a_value_that_is_no_int() {
    let error = layer("[s]\nn = 1.5\n").get_int(&id("s", "n")).unwrap_err();
    assert_eq!(error.message(show), "Expected [s] n to be an int but given 1.5.");
}

#[test]
fn message_of_a_value_that_is_no_float() {
    let error = layer("[s]\nn = true\n").get_float(&id("s", "n")).unwrap_err();
    assert_eq!(error.message(show), "Expected [s] n to be a float but given true.");
}

#[test]
fn message_of_a_list_that_is_no_array() {
    let error = layer("[s]\nlist = 7\n").get_string_list(&id("s", "list"), no_parser).unwrap_err();
    assert_eq!(
        error.message(show),
        "Expected [s] list to be a toml array or Python sequence, but given 7."
    );
}

#[test]
fn message_of_an_add_that_is_no_array() {
    let error = layer("[s]\nlist = { add = 7 }\n")
        .get_string_list(&id("s", "list"), no_parser)
        .unwrap_err();
    assert_eq!(
        error.message(show),
        "Expected [s] list.add to be a toml array or Python sequence, but given 7."
    );
}

#[test]
fn message_of_an_item_that_is_no_string() {
    let error = layer("[s]\nlist = { remove = [\"x\", 3] }\n")
        .get_string_list(&id("s", "list"), no_parser)
        .unwrap_err();
    assert_eq!(
        error.message(show),
        "Expected [s] list.remove to be an array of strings but given [\"x\", 3] containing \
         non string item 3"
    );
}

#[test]
fn message_of_a_table_with_another_key() {
    let error = layer("[s]\nlist = { bogus = [\"y\"] }\n")
        .get_string_list(&id("s", "list"), no_parser)
        .unwrap_err();
    assert_eq!(
        error.message(show),
        "Expected [s] list to contain an 'add' element, a 'remove' element or both but found: \
         { bogus = [\"y\"] }"
    );
}

#[test]
fn message_of_a_value_that_is_no_dict() {
    let error = layer("[s]\nd = 12\n").get_string_dict(&id("s", "d")).unwrap_err();
    assert_eq!(
        error.message(show),
        "Expected [s] d to be of type string or table, but was a integer: 12"
    );
}

#[test]
fn message_of_a_list_string_that_is_refused() {
    let error = Error::ListSyntax { option: "[s] list".to_owned(), detail: "no bracket".to_owned() };
    assert_eq!(error.message(show), "Problem parsing [s] list as a list of strings: no bracket");
}

#[test]
fn message_with_takes_the_texts_as_they_are() {
    let error = Error::TypeMismatch {
        option: "opt".to_owned(),
        expected: Expected::Strings { action: ListEditAction::Replace, first: 0 },
        actual: RawValue::Array(vec![RawValue::Integer(1)]),
    };
    assert_eq!(
        error.message_with("<all>", "<one>"),
        "Expected opt to be an array of strings but given <all> containing non string item <one>"
    );
}

#[test]
fn message_shows_nothing_for_an_item_that_is_not_there() {
    let error = Error::TypeMismatch {
        option: "opt".to_owned(),
        expected: Expected::Strings { action: ListEditAction::Add, first: 5 },
        actual: RawValue::Table(Table::new()),
    };
    assert_eq!(
        error.message(show),
        "Expected opt.add to be an array of strings but given {} containing non string item "
    );
}

#[test]
fn type_str_names_every_shape() {
    assert_eq!(RawValue::String(String::new()).type_str(), "string");
    assert_eq!(RawValue::Integer(0).type_str(), "integer");
    assert_eq!(RawValue::Float(0).type_str(), "float");
    assert_eq!(RawValue::Boolean(true).type_str(), "boolean");
    assert_eq!(RawValue::Datetime("1979-05-27".to_owned()).type_str(), "datetime");
    assert_eq!(RawValue::Array(Vec::new()).type_str(), "array");
    assert_eq!(RawValue::Table(Table::new()).type_str(), "table");
}
