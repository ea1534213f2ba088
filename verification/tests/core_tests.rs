use conftier::{deep_update, merge_configs_dict, ConfigManager, ConfigModel, SchemaType, TierFile, Value};

fn text(s: &str) -> Value {
    Value::Text(s.to_string())
}

fn dict(pairs: Vec<(&str, Value)>) -> Value {
    Value::Dict(pairs.into_iter().map(|(k, v)| (k.to_string(), v)).collect())
}

fn entry<'a>(v: &'a Value, key: &str) -> &'a Value {
    match v {
        Value::Dict(entries) => match entries.iter().find(|e| e.0 == key) {
            Some(e) => &e.1,
            None => panic!("missing key {}", key),
        },
        _ => panic!("Expected a mapping"),
    }
}

// The schema of a simple two-field configuration.
fn simple_schema() -> Value {
    dict(vec![("name", text("")), ("value", Value::Int(0))])
}

// The schema of the test configuration: application settings and database
// settings, all fields defaulting to empty or false.
fn test_schema() -> Value {
    dict(vec![
        (
            "app",
            dict(vec![("name", text("")), ("debug", Value::Bool(false))]),
        ),
        (
            "database",
            dict(vec![
                ("url", text("")),
                ("username", text("")),
                ("password", text("")),
            ]),
        ),
    ])
}

#[test]
fn test_simple_config_model() {
    let data = dict(vec![("name", text("test_name")), ("value", Value::Int(42))]);

    // Decoding the data directly against the schema keeps both fields.
    let direct: ConfigModel = ConfigModel::from_schema(simple_schema(), Some(data.clone()));
    assert_eq!(entry(direct.model(), "name"), &text("test_name"));
    assert_eq!(entry(direct.model(), "value"), &Value::Int(42));

    // The same through a fresh model.
    let model: ConfigModel = ConfigModel::from_schema(simple_schema(), Some(data));
    assert_eq!(entry(model.model(), "name"), &text("test_name"));
    assert_eq!(entry(model.model(), "value"), &Value::Int(42));
}

#[test]
fn test_config_model_from_schema() {
    // 1. Default values
    let model: ConfigModel = ConfigModel::from_schema(test_schema(), None);
    assert_eq!(model.schema_type, SchemaType::Struct);
    assert_eq!(entry(entry(model.model(), "app"), "name"), &text(""));
    assert_eq!(entry(entry(model.model(), "database"), "url"), &text(""));

    // 2. Loading values
    let data = dict(vec![
        (
            "app",
            dict(vec![("name", text("TestApp")), ("debug", Value::Bool(true))]),
        ),
        (
            "database",
            dict(vec![("url", text("")), ("username", text("")), ("password", text(""))]),
        ),
    ]);
    let model: ConfigModel = ConfigModel::from_schema(test_schema(), Some(data));
    assert_eq!(entry(entry(model.model(), "app"), "name"), &text("TestApp"));
    assert_eq!(entry(entry(model.model(), "app"), "debug"), &Value::Bool(true));
}

#[test]
fn test_config_model_to_dict() {
    let data = dict(vec![
        (
            "app",
            dict(vec![("name", text("TestApp")), ("debug", Value::Bool(true))]),
        ),
        (
            "database",
            dict(vec![
                ("url", text("test_url")),
                ("username", text("user")),
                ("password", text("pass")),
            ]),
        ),
    ]);
    let model = ConfigModel::from_schema(test_schema(), Some(data));
    let d = model.to_dict();

    match entry(&d, "app") {
        Value::Dict(_) => {
            match entry(entry(&d, "app"), "name") {
                Value::Text(name) => assert_eq!(name, "TestApp"),
                _ => panic!("Expected app.name to be a string"),
            }
            match entry(entry(&d, "app"), "debug") {
                Value::Bool(debug) => assert!(*debug),
                _ => panic!("Expected app.debug to be a boolean"),
            }
        }
        _ => panic!("Expected app to be a mapping"),
    }
}

#[test]
fn test_config_model_update() {
    let mut model = ConfigModel::from_schema(test_schema(), None);

    let update_data = dict(vec![(
        "app",
        dict(vec![("name", text("UpdatedApp")), ("debug", Value::Bool(true))]),
    )]);

    model.update(update_data);

    assert_eq!(entry(entry(model.model(), "app"), "name"), &text("UpdatedApp"));
    assert_eq!(entry(entry(model.model(), "app"), "debug"), &Value::Bool(true));
}

#[test]
fn test_config_model_merge() {
    let base_data = dict(vec![
        (
            "app",
            dict(vec![("name", text("BaseApp")), ("debug", Value::Bool(false))]),
        ),
        (
            "database",
            dict(vec![
                ("url", text("base_url")),
                ("username", text("base_user")),
                ("password", text("base_pass")),
            ]),
        ),
    ]);
    let base_model = ConfigModel::from_schema(test_schema(), Some(base_data));

    // Empty strings keep the base value; everything else overrides.
    let other_data = dict(vec![
        (
            "app",
            dict(vec![("name", text("")), ("debug", Value::Bool(true))]),
        ),
        (
            "database",
            dict(vec![
                ("url", text("other_url")),
                ("username", text("")),
                ("password", text("")),
            ]),
        ),
    ]);
    let other_model = ConfigModel::from_schema(test_schema(), Some(other_data));

    let merged_model = base_model.merge(&other_model);

    assert_eq!(entry(entry(merged_model.model(), "app"), "name"), &text("BaseApp"));
    assert_eq!(entry(entry(merged_model.model(), "app"), "debug"), &Value::Bool(true));
    assert_eq!(entry(entry(merged_model.model(), "database"), "url"), &text("other_url"));
    assert_eq!(
        entry(entry(merged_model.model(), "database"), "username"),
        &text("base_user")
    );
}

#[test]
fn test_deep_update() {
    let base_dict = dict(vec![
        (
            "app",
            dict(vec![("name", text("BaseApp")), ("debug", Value::Bool(false))]),
        ),
        (
            "database",
            dict(vec![("url", text("base_url")), ("username", text("base_user"))]),
        ),
    ]);

    let update_dict = dict(vec![
        ("app", dict(vec![("debug", Value::Bool(true))])),
        ("database", dict(vec![("url", text("new_url"))])),
    ]);

    let result = deep_update(base_dict, update_dict);

    match entry(&result, "app") {
        Value::Dict(_) => {
            match entry(entry(&result, "app"), "name") {
                Value::Text(name) => assert_eq!(name, "BaseApp"),
                _ => panic!("Expected app.name to be a string"),
            }
            match entry(entry(&result, "app"), "debug") {
                Value::Bool(debug) => assert!(*debug),
                _ => panic!("Expected app.debug to be a boolean"),
            }
        }
        _ => panic!("Expected app to be a mapping"),
    }

    match entry(&result, "database") {
        Value::Dict(_) => {
            match entry(entry(&result, "database"), "url") {
                Value::Text(url) => assert_eq!(url, "new_url"),
                _ => panic!("Expected database.url to be a string"),
            }
            match entry(entry(&result, "database"), "username") {
                Value::Text(username) => assert_eq!(username, "base_user"),
                _ => panic!("Expected database.username to be a string"),
            }
        }
        _ => panic!("Expected database to be a mapping"),
    }
}

#[test]
fn test_config_manager_basic() {
    let mut manager = ConfigManager::new(
        "test_app", "1.0.0", false, // Do not auto-create user config
        false, // Do not auto-create project config
        test_schema(),
        None,
    );

    // Point the manager at test locations.
    manager.user_config_path = "conftier_test/user/test_app/config.yaml".to_string();
    manager.project_config_path =
        Some("conftier_test/project/.test_app/config.yaml".to_string());

    let user_config = dict(vec![
        (
            "app",
            dict(vec![("name", text("UserApp")), ("debug", Value::Bool(false))]),
        ),
        (
            "database",
            dict(vec![
                ("url", text("user_db_url")),
                ("username", text("user")),
                ("password", text("secret")),
            ]),
        ),
    ]);

    // Partial overrides: empty strings keep the user's values.
    let project_config = dict(vec![
        (
            "app",
            dict(vec![("name", text("")), ("debug", Value::Bool(true))]),
        ),
        (
            "database",
            dict(vec![
                ("url", text("project_db_url")),
                ("username", text("")),
                ("password", text("")),
            ]),
        ),
    ]);

    let config = manager
        .load(TierFile::Present(user_config), TierFile::Present(project_config))
        .unwrap();

    assert_eq!(entry(entry(&config, "app"), "name"), &text("UserApp"));
    assert_eq!(entry(entry(&config, "app"), "debug"), &Value::Bool(true));
    assert_eq!(entry(entry(&config, "database"), "url"), &text("project_db_url"));
    assert_eq!(entry(entry(&config, "database"), "username"), &text("user"));
    assert_eq!(entry(entry(&config, "database"), "password"), &text("secret"));
}

#[test]
fn test_merge_configs_dict() {
    let default_config = dict(vec![
        ("key1", text("default1")),
        ("key2", text("default2")),
        ("key3", text("default3")),
    ]);

    let user_config = dict(vec![("key1", text("user1")), ("key2", text("user2"))]);

    let project_config = dict(vec![("key1", text("project1"))]);

    let merged = merge_configs_dict(default_config, Some(user_config), Some(project_config));

    // Priority: project > user > default
    assert_eq!(entry(&merged, "key1"), &text("project1"));
    assert_eq!(entry(&merged, "key2"), &text("user2"));
    assert_eq!(entry(&merged, "key3"), &text("default3"));
}
