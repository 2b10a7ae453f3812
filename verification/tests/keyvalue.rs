use rhc::config::Config;
use rhc::request_definition::Method;
use rhc::request_definition::Request;
use rhc::request_definition::RequestDefinition;
use rhc::choice::Choice;
use rhc::choice::DefinitionCatalog;
use rhc::environment::Environment;
use rhc::keyvalue::sort_by_name_ascending;
use rhc::keyvalue::upsert_binding;
use rhc::keyvalue::KeyValue;

#[test]
fn parse_accepts_single_equals() {
    let kv = KeyValue::parse("key=value").unwrap();
    assert_eq!(kv.name, "key");
    assert_eq!(kv.value, "value");
}

#[test]
fn parse_keeps_key_untrimmed_and_allows_empty_value() {
    let kv = KeyValue::parse("k =").unwrap();
    assert_eq!(kv.name, "k ");
    assert_eq!(kv.value, "");
}

#[test]
fn parse_rejects_malformed_bindings() {
    assert!(KeyValue::parse("noequals").is_err());
    assert!(KeyValue::parse("a=b=c").is_err());
    assert!(KeyValue::parse("  =v").is_err());
    assert!(KeyValue::parse("=v").is_err());
}

#[test]
fn bindings_overwrite_sorted_variables() {
    let mut vars = vec![
        KeyValue::new("something", "a_value"),
        KeyValue::new("var1", "original"),
    ];
    sort_by_name_ascending(&mut vars);
    upsert_binding(&mut vars, KeyValue::new("var1", "new"));
    upsert_binding(&mut vars, KeyValue::new("var3", "aaa"));
    let pairs: Vec<(&str, &str)> =
        vars.iter().map(|kv| (kv.name.as_str(), kv.value.as_str())).collect();
    assert_eq!(pairs, vec![("something", "a_value"), ("var1", "new"), ("var3", "aaa")]);
}

#[test]
fn sort_orders_by_name() {
    let mut vars = vec![
        KeyValue::new("c", "3"),
        KeyValue::new("a", "1"),
        KeyValue::new("b", "2"),
    ];
    sort_by_name_ascending(&mut vars);
    let names: Vec<&str> = vars.iter().map(|kv| kv.name.as_str()).collect();
    assert_eq!(names, vec!["a", "b", "c"]);
}

#[test]
fn duplicate_environment_bindings_are_reported() {
    let env = Environment {
        name: "test_env".to_owned(),
        variables: vec![
            KeyValue::new("var1", "original"),
            KeyValue::new("var1", "duplicate"),
            KeyValue::new("other", "x"),
        ],
    };
    assert_eq!(env.duplicate_names(), vec!["var1"]);

    let clean = Environment {
        name: "test_env".to_owned(),
        variables: vec![KeyValue::new("var1", "original"), KeyValue::new("other", "x")],
    };
    assert!(clean.duplicate_names().is_empty());
}

#[test]
fn default_config_points_at_home_directories() {
    let config = Config::default();
    assert_eq!(config.request_definition_directory, "~/rhc/definitions");
    assert_eq!(config.environment_directory, "~/rhc/environments");
    assert_eq!(config.history_file, "~/.rhc_history");
    assert!(config.theme.is_none());
    assert!(config.max_history_items.is_none());
}

#[test]
fn catalog_sorts_paths_and_starts_unparsed() {
    let paths = vec![
        "/defs/zeta.toml".to_owned(),
        "/defs/alpha.toml".to_owned(),
        "/defs/mid.toml".to_owned(),
    ];
    let catalog = DefinitionCatalog::from_paths(paths, 5);
    let got: Vec<&str> = catalog.choices.iter().map(|c| c.path.as_str()).collect();
    assert_eq!(got, vec!["/defs/alpha.toml", "/defs/mid.toml", "/defs/zeta.toml"]);
    assert!(catalog.choices.iter().all(|c| c.request_definition.is_none()));
    assert_eq!(catalog.choices[0].trimmed_path(), "alpha");
}

#[test]
fn background_parse_annotates_one_entry() {
    let paths = vec!["/d/a.toml".to_owned(), "/d/b.toml".to_owned()];
    let mut catalog = DefinitionCatalog::from_paths(paths, 2);
    let def = RequestDefinition {
        metadata: None,
        request: Request { url: "http://host/{v}".to_owned(), method: Method::GET },
        query: None,
        body: None,
        headers: None,
    };
    catalog.set_parsed(1, Ok(def));
    assert!(catalog.choices[0].request_definition.is_none());
    assert!(matches!(catalog.choices[1].request_definition, Some(Ok(_))));
    let vars = vec![KeyValue::new("v", "users")];
    assert_eq!(catalog.choices[1].url_or_blank(Some(&vars)), "http://host/users");
    assert_eq!(catalog.choices[1].url_or_blank(None), "http://host/{v}");
}

#[test]
fn choice_search_target_composes_path_url_description() {
    let choice = Choice::new("/defs/get-user.toml".to_owned(), 5);
    assert_eq!(choice.trimmed_path(), "get-user");
    assert_eq!(choice.url_or_blank(None), "");
    assert_eq!(choice.description_or_blank(), "");
    assert_eq!(choice.search_target(None), "get-user");
}
