use options::{Config, Error, OptionId, RawValue, Table};

fn layer(text: &str) -> Config {
    Config::parse("test.toml", text).unwrap()
}

fn id(scope: &str, name: &str) -> OptionId {
    OptionId::new(scope, name, &format!("[{}] {}", scope, name))
}

fn scope_names(config: &Config) -> Vec<String> {
    let scopes = config.scopes();
    let mut names = Vec::new();
    for index in 0..scopes.len() {
        names.push(scopes.key(index).to_owned());
    }
    names
}

#[test]
fn default_has_no_scopes() {
    let config = Config::default();
    assert!(config.scopes().is_empty());
    assert_eq!(config.get_string(&id("a", "b")), Ok(None));
}

#[test]
fn parse_reads_scopes_in_document_order() {
    let config = layer("[zeta]\nx = 1\n[alpha]\ny = 2\n[mid]\nz = 3\n");
    assert_eq!(scope_names(&config), vec!["zeta", "alpha", "mid"]);
}

#[test]
fn parse_keeps_options_in_document_order() {
    let config = layer("[s]\nzz = 1\naa = 2\nmm = 3\n");
    let options = match config.scopes().value(0) {
        RawValue::Table(options) => options,
        other => panic!("not a table: {:?}", other),
    };
    assert_eq!(options.len(), 3);
    assert_eq!(options.key(0), "zz");
    assert_eq!(options.key(1), "aa");
    assert_eq!(options.key(2), "mm");
}

#[test]
fn parse_reports_a_syntax_error() {
    match Config::parse("broken.toml", "[scope\nx = 1\n") {
        Err(Error::Parse { file, detail }) => {
            assert_eq!(file, "broken.toml");
            assert!(detail.contains("line 1"), "{}", detail);
        }
        other => panic!("not a parse error: {:?}", other),
    }
}

#[test]
fn from_parsed_passes_the_syntax_error_on() {
    let outcome = Config::from_parsed("f", Err("bad syntax at line 3".to_owned()));
    assert_eq!(
        outcome,
        Err(Error::Parse { file: "f".to_owned(), detail: "bad syntax at line 3".to_owned() })
    );
}

#[test]
fn from_parsed_builds_the_layer_of_a_tree() {
    let mut options = Table::new();
    options.insert("level".to_owned(), RawValue::Integer(3));
    let mut scopes = Table::new();
    scopes.insert("GLOBAL".to_owned(), RawValue::Table(options));
    let config = Config::from_parsed("f", Ok(RawValue::Table(scopes))).unwrap();
    assert_eq!(config.get_int(&id("GLOBAL", "level")), Ok(Some(3)));
}

#[test]
fn root_that_is_an_array_is_a_shape_error() {
    let tree = RawValue::Array(vec![RawValue::Integer(1)]);
    assert_eq!(
        Config::from_value("cfg.toml", tree),
        Err(Error::Shape {
            file: "cfg.toml".to_owned(),
            section: None,
            actual: RawValue::Array(vec![RawValue::Integer(1)]),
        })
    );
}

#[test]
fn root_that_is_a_scalar_is_a_shape_error() {
    assert_eq!(
        Config::from_value("cfg.toml", RawValue::Boolean(true)),
        Err(Error::Shape {
            file: "cfg.toml".to_owned(),
            section: None,
            actual: RawValue::Boolean(true),
        })
    );
}

#[test]
fn scope_that_is_a_string_is_a_shape_error() {
    assert_eq!(
        Config::parse("cfg.toml", "top = \"oops\"\n[ok]\nx = 1\n"),
        Err(Error::Shape {
            file: "cfg.toml".to_owned(),
            section: Some("top".to_owned()),
            actual: RawValue::String("oops".to_owned()),
        })
    );
}

#[test]
fn the_first_scope_that_is_no_table_is_named() {
    let mut scopes = Table::new();
    scopes.insert("good".to_owned(), RawValue::Table(Table::new()));
    scopes.insert("first".to_owned(), RawValue::Integer(1));
    scopes.insert("second".to_owned(), RawValue::Integer(2));
    assert_eq!(
        Config::from_value("f", RawValue::Table(scopes)),
        Err(Error::Shape {
            file: "f".to_owned(),
            section: Some("first".to_owned()),
            actual: RawValue::Integer(1),
        })
    );
}

#[test]
fn empty_document_is_an_empty_layer() {
    let config = layer("");
    assert_eq!(config, Config::default());
}

#[test]
fn merge_with_empty_on_the_left_is_identity() {
    let text = "[b]\nx = 1\n[a]\ny = [\"p\"]\n";
    assert_eq!(Config::default().merge(layer(text)), layer(text));
}

#[test]
fn merge_with_empty_on_the_right_is_identity() {
    let text = "[b]\nx = 1\n[a]\ny = [\"p\"]\n";
    assert_eq!(layer(text).merge(Config::default()), layer(text));
}

#[test]
fn merge_gives_precedence_to_the_second_layer() {
    let low = layer("[s]\nlevel = \"info\"\n");
    let high = layer("[s]\nlevel = \"debug\"\n");
    let merged = low.merge(high);
    assert_eq!(merged.get_string(&id("s", "level")), Ok(Some("debug".to_owned())));
}

#[test]
fn merge_keeps_options_of_both_sides_of_a_scope() {
    let low = layer("[s]\nonly_low = 1\nboth = 2\n");
    let high = layer("[s]\nboth = 20\nonly_high = 30\n");
    let merged = low.merge(high);
    assert_eq!(merged.get_int(&id("s", "only_low")), Ok(Some(1)));
    assert_eq!(merged.get_int(&id("s", "both")), Ok(Some(20)));
    assert_eq!(merged.get_int(&id("s", "only_high")), Ok(Some(30)));
    assert_eq!(merged, layer("[s]\nonly_low = 1\nboth = 20\nonly_high = 30\n"));
}

#[test]
fn merge_puts_the_scopes_of_the_first_layer_first() {
    let low = layer("[c]\nx = 1\n[a]\nx = 1\n");
    let high = layer("[d]\nx = 2\n[a]\ny = 2\n[b]\nx = 2\n");
    let merged = low.merge(high);
    assert_eq!(scope_names(&merged), vec!["c", "a", "d", "b"]);
    assert_eq!(merged, layer("[c]\nx = 1\n[a]\nx = 1\ny = 2\n[d]\nx = 2\n[b]\nx = 2\n"));
}

#[test]
fn merge_replaces_a_value_whole() {
    let low = layer("[s]\nlist = { add = [\"a\"] }\n");
    let high = layer("[s]\nlist = [\"z\"]\n");
    let merged = low.merge(high);
    assert_eq!(merged, layer("[s]\nlist = [\"z\"]\n"));
}

#[test]
fn merge_of_disjoint_scopes_keeps_both() {
    let merged = layer("[a]\nx = 1\n").merge(layer("[b]\ny = 2\n"));
    assert_eq!(merged.get_int(&id("a", "x")), Ok(Some(1)));
    assert_eq!(merged.get_int(&id("b", "y")), Ok(Some(2)));
    assert_eq!(merged.get_int(&id("a", "y")), Ok(None));
}

#[test]
fn merged_of_nothing_is_empty() {
    assert_eq!(Config::merged(Vec::new()), Config::default());
}

#[test]
fn merged_gives_the_last_layer_the_highest_precedence() {
    let merged = Config::merged(vec![
        layer("[s]\nx = 1\ny = 1\n"),
        layer("[s]\nx = 2\n[t]\nz = 2\n"),
        layer("[s]\nx = 3\n[t]\nw = 3\n"),
    ]);
    assert_eq!(merged.get_int(&id("s", "x")), Ok(Some(3)));
    assert_eq!(merged.get_int(&id("s", "y")), Ok(Some(1)));
    assert_eq!(merged.get_int(&id("t", "z")), Ok(Some(2)));
    assert_eq!(merged.get_int(&id("t", "w")), Ok(Some(3)));
    assert_eq!(scope_names(&merged), vec!["s", "t"]);
}

#[test]
fn merged_of_one_layer_is_that_layer() {
    let text = "[s]\nx = 1\n";
    assert_eq!(Config::merged(vec![layer(text)]), layer(text));
}
