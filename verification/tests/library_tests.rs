use conftier::{
    deep_update, get_project_config_path, is_project_marker, parse_scalar, update_nested_value,
    ConfigError, ConfigManager, ConfigModel, TierFile, Value,
};

fn txt(s: &str) -> Value {
    Value::Text(s.to_string())
}

fn map(pairs: Vec<(&str, Value)>) -> Value {
    Value::Dict(pairs.into_iter().map(|(k, v)| (k.to_string(), v)).collect())
}

fn field<'a>(v: &'a Value, key: &str) -> &'a Value {
    match v {
        Value::Dict(entries) => match entries.iter().find(|e| e.0 == key) {
            Some(e) => &e.1,
            None => panic!("missing key {}", key),
        },
        _ => panic!("expected a mapping"),
    }
}

fn app_schema() -> Value {
    map(vec![(
        "app",
        map(vec![("name", txt("")), ("debug", Value::Bool(false))]),
    )])
}

#[test]
fn merge_with_empty_update_keeps_base() {
    let base = map(vec![("a", txt("x")), ("b", Value::Int(3))]);
    let merged = deep_update(base.clone(), map(vec![]));
    assert_eq!(merged, base);
}

#[test]
fn empty_string_override_is_suppressed() {
    let base = map(vec![("k", txt("x"))]);
    let update = map(vec![("k", txt(""))]);
    let merged = deep_update(base.clone(), update);
    assert_eq!(merged, base);
}

#[test]
fn zero_and_false_do_override() {
    let base = map(vec![("n", Value::Int(7)), ("b", Value::Bool(true))]);
    let update = map(vec![("n", Value::Int(0)), ("b", Value::Bool(false))]);
    let merged = deep_update(base, update);
    assert_eq!(field(&merged, "n"), &Value::Int(0));
    assert_eq!(field(&merged, "b"), &Value::Bool(false));
}

#[test]
fn lists_are_replaced_whole() {
    let base = map(vec![("l", Value::List(vec![Value::Int(1), Value::Int(2)]))]);
    let update = map(vec![("l", Value::List(vec![Value::Int(3)]))]);
    let merged = deep_update(base, update);
    assert_eq!(field(&merged, "l"), &Value::List(vec![Value::Int(3)]));
}

#[test]
fn update_only_keys_are_added() {
    let base = map(vec![("a", Value::Int(1))]);
    let update = map(vec![("b", Value::Int(2))]);
    let merged = deep_update(base, update);
    assert_eq!(field(&merged, "a"), &Value::Int(1));
    assert_eq!(field(&merged, "b"), &Value::Int(2));
}

#[test]
fn mapping_over_scalar_is_adopted_whole() {
    let base = map(vec![("k", txt("scalar"))]);
    let update = map(vec![("k", map(vec![("inner", Value::Int(1))]))]);
    let merged = deep_update(base, update);
    assert_eq!(field(field(&merged, "k"), "inner"), &Value::Int(1));
}

#[test]
fn decode_encode_round_trip() {
    let schema = app_schema();
    let data = map(vec![(
        "app",
        map(vec![("name", txt("Roundtrip")), ("debug", Value::Bool(true))]),
    )]);
    let model = ConfigModel::from_schema(schema.clone(), Some(data));
    let encoded = model.to_dict();
    let decoded = ConfigModel::from_schema(schema, Some(encoded));
    assert_eq!(decoded.model(), model.model());
}

#[test]
fn from_schema_none_gives_defaults() {
    let schema = app_schema();
    let model = ConfigModel::from_schema(schema.clone(), None);
    assert_eq!(model.model(), &schema);
}

#[test]
fn decode_fills_missing_fields_with_defaults() {
    let schema = app_schema();
    let partial = map(vec![("app", map(vec![("name", txt("OnlyName"))]))]);
    let model = ConfigModel::from_schema(schema, Some(partial));
    assert_eq!(field(field(model.model(), "app"), "name"), &txt("OnlyName"));
    assert_eq!(field(field(model.model(), "app"), "debug"), &Value::Bool(false));
}

#[test]
fn decode_drops_unknown_keys() {
    let schema = app_schema();
    let data = map(vec![
        ("app", map(vec![("name", txt("Kept")), ("debug", Value::Bool(true))])),
        ("stray", txt("dropped")),
    ]);
    let model = ConfigModel::from_schema(schema, Some(data));
    assert_eq!(field(field(model.model(), "app"), "name"), &txt("Kept"));
    assert_eq!(field(field(model.model(), "app"), "debug"), &Value::Bool(true));
    match model.model() {
        Value::Dict(entries) => assert_eq!(entries.len(), 1),
        _ => panic!("expected a mapping"),
    }
}

#[test]
fn undecodable_data_degrades_to_defaults() {
    // a field of the wrong kind makes the document undecodable: the model
    // falls back to the defaults rather than failing
    let schema = app_schema();
    let data = map(vec![(
        "app",
        map(vec![("name", Value::Int(9)), ("debug", Value::Bool(true))]),
    )]);
    let model = ConfigModel::from_schema(schema.clone(), Some(data));
    assert_eq!(model.model(), &schema);
}

#[test]
fn undecodable_update_is_a_silent_no_op() {
    let schema = app_schema();
    let start = map(vec![("app", map(vec![("name", txt("Kept"))]))]);
    let mut model = ConfigModel::from_schema(schema, Some(start));
    // the merged tree would put an integer where a string belongs, so the
    // update leaves the value untouched
    model.update(map(vec![("app", map(vec![("name", Value::Int(3))]))]));
    assert_eq!(field(field(model.model(), "app"), "name"), &txt("Kept"));
    // a well-typed update then lands
    model.update(map(vec![("app", map(vec![("name", txt("Changed"))]))]));
    assert_eq!(field(field(model.model(), "app"), "name"), &txt("Changed"));
}

#[test]
fn scenario_three_tier_resolution() {
    let mut manager = ConfigManager::new("myapp", "1.0.0", false, false, app_schema(), None);
    manager.project_config_path = Some("proj/.myapp/config.yaml".to_string());
    let user = map(vec![("app", map(vec![("name", txt("Acme"))]))]);
    let project = map(vec![("app", map(vec![("debug", Value::Bool(true))]))]);
    let resolved = manager
        .load(TierFile::Present(user), TierFile::Present(project))
        .unwrap();
    assert_eq!(field(field(&resolved, "app"), "name"), &txt("Acme"));
    assert_eq!(field(field(&resolved, "app"), "debug"), &Value::Bool(true));
}

#[test]
fn scenario_user_template_then_load() {
    // User file absent, project file present, user auto-creation on.
    let mut manager = ConfigManager::new("myapp", "1.0.0", true, false, app_schema(), None);
    let (create_user, create_project) = manager.load_plan(false, true);
    assert!(create_user);
    assert!(!create_project);

    let (path, template_doc) = manager.create_user_config_template();
    assert_eq!(path, manager.user_config_path);
    assert_eq!(template_doc, app_schema());

    // After the template is written the user file holds the defaults.
    let project = map(vec![("app", map(vec![("name", txt("FromProject"))]))]);
    let resolved = manager
        .load(TierFile::Present(template_doc), TierFile::Present(project))
        .unwrap();
    assert_eq!(field(field(&resolved, "app"), "name"), &txt("FromProject"));
    assert_eq!(field(field(&resolved, "app"), "debug"), &Value::Bool(false));
}

#[test]
fn scenario_no_config_anywhere_is_fatal() {
    let mut manager = ConfigManager::new("myapp", "1.0.0", false, false, app_schema(), None);
    let r = manager.load(TierFile::Absent, TierFile::Absent);
    assert_eq!(r, Err(ConfigError::MissingConfig));
}

#[test]
fn invalid_files_lose_their_tier_but_are_not_fatal() {
    let mut manager = ConfigManager::new("myapp", "1.0.0", false, false, app_schema(), None);
    manager.project_config_path = Some("proj/.myapp/config.yaml".to_string());
    let resolved = manager.load(TierFile::Invalid, TierFile::Invalid).unwrap();
    assert_eq!(resolved, app_schema());
    assert!(manager.user_config.is_none());
    assert!(manager.project_config.is_none());
}

#[test]
fn scenario_update_user_then_config() {
    let mut manager = ConfigManager::new("myapp", "1.0.0", false, false, app_schema(), None);
    manager.project_config_path = Some("proj/.myapp/config.yaml".to_string());
    let user = map(vec![("app", map(vec![("name", txt("OldName"))]))]);
    let project = map(vec![("app", map(vec![("debug", Value::Bool(true))]))]);
    manager
        .load(TierFile::Present(user), TierFile::Present(project))
        .unwrap();

    let to_persist =
        manager.update_user_config(map(vec![("app", map(vec![("name", txt("NewName"))]))]), None);
    assert_eq!(field(field(&to_persist, "app"), "name"), &txt("NewName"));

    // The resolved configuration reflects the update and keeps the cached
    // project override, without any re-read of the project tier.
    let resolved = manager.config().unwrap();
    assert_eq!(field(field(&resolved, "app"), "name"), &txt("NewName"));
    assert_eq!(field(field(&resolved, "app"), "debug"), &Value::Bool(true));
}

#[test]
fn scenario_dotted_key_creates_nested_mapping() {
    let mut tree = map(vec![]);
    update_nested_value(
        &mut tree,
        &vec!["database".to_string(), "pool_size".to_string()],
        Value::Int(5),
    );
    assert_eq!(field(field(&tree, "database"), "pool_size"), &Value::Int(5));

    // An existing mapping gains the key without losing its own.
    let mut tree2 = map(vec![("database", map(vec![("url", txt("db_url"))]))]);
    update_nested_value(
        &mut tree2,
        &vec!["database".to_string(), "pool_size".to_string()],
        Value::Int(5),
    );
    assert_eq!(field(field(&tree2, "database"), "url"), &txt("db_url"));
    assert_eq!(field(field(&tree2, "database"), "pool_size"), &Value::Int(5));
}

#[test]
fn update_project_without_root_is_fatal() {
    let mut manager = ConfigManager::new("myapp", "1.0.0", false, false, app_schema(), None);
    let r = manager.update_project_config(map(vec![]), None);
    assert_eq!(r, Err(ConfigError::MissingProjectRoot));
}

#[test]
fn update_project_with_root_persists() {
    let mut manager = ConfigManager::new(
        "myapp",
        "1.0.0",
        false,
        false,
        app_schema(),
        Some("/repo".to_string()),
    );
    let r = manager
        .update_project_config(map(vec![("app", map(vec![("name", txt("Proj"))]))]), None)
        .unwrap();
    assert_eq!(field(field(&r, "app"), "name"), &txt("Proj"));
    assert!(manager.config.is_none());
}

#[test]
fn parse_scalar_rules() {
    assert_eq!(parse_scalar("true"), Value::Bool(true));
    assert_eq!(parse_scalar("TRUE"), Value::Bool(true));
    assert_eq!(parse_scalar("TrUe"), Value::Bool(true));
    assert_eq!(parse_scalar("false"), Value::Bool(false));
    assert_eq!(parse_scalar("False"), Value::Bool(false));
    assert_eq!(parse_scalar("42"), Value::Int(42));
    assert_eq!(parse_scalar("-7"), Value::Int(-7));
    assert_eq!(parse_scalar("+10"), Value::Int(10));
    assert_eq!(parse_scalar("hello"), txt("hello"));
    assert_eq!(parse_scalar(""), txt(""));
    // too large for i64, and fractional: both stay text here
    assert_eq!(parse_scalar("99999999999999999999"), txt("99999999999999999999"));
    assert_eq!(parse_scalar("3.25"), txt("3.25"));
}

#[test]
fn project_config_path_needs_a_root() {
    assert_eq!(
        get_project_config_path("myapp", Some("/repo")),
        Some("/repo/.myapp/config.yaml".to_string())
    );
    assert_eq!(get_project_config_path("myapp", None), None);
}

#[test]
fn project_markers() {
    assert!(is_project_marker(".git"));
    assert!(is_project_marker("pyproject.toml"));
    assert!(is_project_marker("setup.py"));
    assert!(is_project_marker("package.json"));
    assert!(is_project_marker("Cargo.toml"));
    assert!(!is_project_marker("README.md"));
}

#[test]
fn manager_lazy_accessors() {
    let mut manager = ConfigManager::new("myapp", "1.0.0", false, false, app_schema(), None);
    // nothing loaded yet: no resolved configuration
    assert_eq!(manager.config(), None);
    // the default tier materializes on demand
    assert_eq!(manager.get_default_config(), app_schema());
    // a user tier decoded lazily from a file state
    let user_doc = map(vec![("app", map(vec![("name", txt("Lazy"))]))]);
    let got = manager.get_user_config(TierFile::Present(user_doc)).unwrap();
    assert_eq!(field(field(&got, "app"), "name"), &txt("Lazy"));
    // absent project path, absent file: no project tier
    assert_eq!(manager.get_project_config(TierFile::Absent), None);
}

#[test]
fn template_paths_and_contents() {
    let manager = ConfigManager::new(
        "myapp",
        "1.0.0",
        true,
        true,
        app_schema(),
        Some("/repo".to_string()),
    );
    let (create_user, create_project) = manager.initialize();
    assert!(create_user);
    assert!(create_project);
    let (project_file, doc) = manager.create_project_config_template("/somewhere");
    assert_eq!(project_file, "/somewhere/.myapp/config.yaml");
    assert_eq!(doc, app_schema());
}

#[test]
fn version_string() {
    assert_eq!(conftier::version(), "0.1.0");
}
