use iris::config::{Mode, Target, ValidationError};
use iris::validate::{
    process_general, process_presets, resolve_path, validate_config, validate_general, validate_presets,
    ConfigDocument, Field, FieldValue, PresetTable,
};
use toml::Value;

fn fields_of(table: &toml::map::Map<String, Value>) -> Vec<Field> {
    table
        .iter()
        .map(|(key, v)| Field {
            key: key.clone(),
            value: match v {
                Value::String(s) => FieldValue::Str(s.clone()),
                Value::Boolean(b) => FieldValue::Bool(*b),
                Value::Array(items) => FieldValue::Array(items.iter().map(|i| i.as_str().map(str::to_string)).collect()),
                _ => FieldValue::Other,
            },
            rendered: v.to_string(),
        })
        .collect()
}

// Parses TOML text into the document the checks read.
fn parse_toml(toml: &str) -> ConfigDocument {
    let value: Value = toml::from_str(toml).unwrap();
    ConfigDocument {
        general: value.get("general").and_then(Value::as_table).map(fields_of),
        presets: value.get("preset").and_then(Value::as_table).map(|t| {
            t.iter()
                .map(|(name, v)| PresetTable { name: name.clone(), fields: v.as_table().map(fields_of) })
                .collect()
        }),
    }
}

#[test]
fn general_valid_cases() {
    let minimal = r#"
[general]
mode = "relative"
"#;
    let full = r#"
[general]
mode = "absolute"
target = "downloads"
presets_path = "./presets"
"#;
    validate_general(&parse_toml(minimal)).unwrap();
    validate_general(&parse_toml(full)).unwrap();
}

#[test]
fn general_missing_required_key() {
    let toml = r#"
[general]
target = "downloads"
"#;
    let result = validate_general(&parse_toml(toml));
    assert!(matches!(result, Err(ValidationError::MissingKey { key: _, section: _ })));
}

#[test]
fn general_invalid_value() {
    let toml = r#"
[general]
mode = "invalid"
"#;
    let result = validate_general(&parse_toml(toml));
    assert!(matches!(result, Err(ValidationError::InvalidValue { key: _, value: _ })));
}

#[test]
fn general_extra_invalid_key() {
    let toml = r#"
[general]
mode = "relative"
extra = "oops"
"#;
    let result = validate_general(&parse_toml(toml));
    assert!(matches!(result, Err(ValidationError::InvalidKey { preset: _, key: _ })));
}

#[test]
fn general_empty_section() {
    let toml = r#"[general]"#;
    let result = validate_general(&parse_toml(toml));
    assert!(matches!(result, Err(ValidationError::NoEntries { section: _ })));
}

#[test]
fn presets_valid_case() {
    let toml = r#"
        [preset.docs]
        enabled = true
        extension = ["txt", "pdf"]
        relative_path = "docs"
        absolute_path = "/home/user/docs"
    "#;
    validate_presets(&parse_toml(toml)).unwrap();
}

#[test]
fn presets_missing_required_key() {
    let toml = r#"
        [preset.docs]
        extension = ["txt"]
        relative_path = "docs"
        absolute_path = "/home/user/docs"
    "#;
    let result = validate_presets(&parse_toml(toml));
    assert!(matches!(result, Err(ValidationError::MissingKey { key: _, section: _ })));
}

#[test]
fn presets_invalid_value() {
    let toml = r#"
        [preset.docs]
        enabled = "maybe"
        extension = ["txt"]
        relative_path = "docs"
        absolute_path = "/home/user/docs"
    "#;
    let result = validate_presets(&parse_toml(toml));
    assert!(matches!(result, Err(ValidationError::InvalidValue { key: _, value: _ })));
}

#[test]
fn presets_extra_invalid_key() {
    let toml = r#"
        [preset.docs]
        enabled = true
        extension = ["txt"]
        relative_path = "docs"
        absolute_path = "/home/user/docs"
        foo = "bar"
    "#;
    let result = validate_presets(&parse_toml(toml));
    assert!(matches!(result, Err(ValidationError::InvalidKey { preset: _, key: _ })));
}

#[test]
fn presets_empty_table() {
    let toml = r#"[preset.docs]"#;
    let result = validate_presets(&parse_toml(toml));
    assert!(matches!(result, Err(ValidationError::NoEntries { section: _ })));
}

#[test]
fn presets_no_presets_table() {
    let toml = r#""#;
    let result = validate_presets(&parse_toml(toml));
    assert!(matches!(result, Err(ValidationError::MissingSection { section: _ })));
}

fn message(r: Result<(), ValidationError>) -> String {
    r.unwrap_err().message()
}

#[test]
fn validation_messages_name_the_problem() {
    let doc = parse_toml("[general]\nmode = \"relative\"\n[preset.docs]\nenabled = 1\n");
    assert_eq!(message(validate_config(&doc)), "invalid value '1' for key 'enabled'");
    let doc = parse_toml("[general]\nmode = \"relative\"\n[preset.docs]\nenabled = false\nextension = []\n");
    assert_eq!(message(validate_config(&doc)), "invalid value 'array cannot be empty' for key 'extension'");
    let doc = parse_toml("[general]\nmode = \"relative\"\n[preset.docs]\nenabled = false\nextension = [1]\n");
    assert_eq!(message(validate_config(&doc)), "invalid value 'array must contain only strings' for key 'extension'");
    let doc = parse_toml("[general]\nmode = \"relative\"\n[preset.docs]\nenabled = false\nextension = \"txt\"\n");
    assert_eq!(message(validate_config(&doc)), "invalid value 'must be an array' for key 'extension'");
    let doc = parse_toml("[general]\nmode = \"relative\"\n[preset.docs]\nenabled = true\nextension = [\"txt\"]\n");
    assert_eq!(message(validate_config(&doc)), "missing key 'relative_path' in [preset.docs] section");
    let doc = parse_toml(
        "[general]\nmode = \"relative\"\n[preset.docs]\nenabled = false\nextension = [\"txt\"]\nrelative_path = \"d\"\nabsolute_path = \"/d\"\n",
    );
    assert_eq!(message(validate_config(&doc)), "There are no enabled presets in the [preset] section of the config file.");
    let doc = parse_toml("[preset.docs]\nenabled = true\n");
    assert_eq!(message(validate_config(&doc)), "missing general section in config file");
    let doc = parse_toml("[general]\nmode = \"relative\"\ntarget = \"nowhere\"\n");
    assert_eq!(message(validate_general(&doc)), "invalid value 'nowhere' for key 'target'");
}

#[test]
fn processing_types_a_checked_file() {
    let doc = parse_toml(
        r#"
[general]
mode = "absolute"
target = "current"
presets_path = "~/presets"

[preset.docs]
enabled = true
extension = ["txt", "pdf"]
relative_path = "./Docs"
absolute_path = "~/Documents"

[preset.off]
enabled = false
extension = ["x"]
relative_path = ""
absolute_path = "/abs"
"#,
    );
    validate_config(&doc).unwrap();
    let home = Some("/home/u".to_string());
    let general = process_general(&doc, &home, "/cfg", false).unwrap();
    assert_eq!(general.mode, Mode::Absolute);
    assert_eq!(general.target, Some(Target::CurrentDir));
    assert_eq!(general.presets_path, Some("/home/u/presets".to_string()));
    let presets = process_presets(&doc, &home, "/cfg", false);
    assert_eq!(presets.len(), 2);
    assert_eq!(presets[0].name, "docs");
    assert!(presets[0].enabled);
    assert_eq!(presets[0].extension, vec!["txt".to_string(), "pdf".to_string()]);
    assert_eq!(presets[0].relative_path, Some("/cfg/Docs".to_string()));
    assert_eq!(presets[0].absolute_path, Some("/home/u/Documents".to_string()));
    assert!(!presets[1].enabled);
    assert_eq!(presets[1].relative_path, None);
    assert_eq!(presets[1].absolute_path, Some("/abs".to_string()));
}

#[test]
fn processing_rejects_unknown_mode() {
    let doc = parse_toml("[general]\nmode = 3\n");
    assert!(process_general(&doc, &None, "/cfg", false).is_none());
}

#[test]
fn config_paths() {
    let home = Some("/home/u".to_string());
    assert_eq!(resolve_path("~/x", &home, "/cfg", false), Some("/home/u/x".to_string()));
    assert_eq!(resolve_path("~/x", &None, "/cfg", false), None);
    assert_eq!(resolve_path("././y", &home, "/cfg", false), Some("/cfg/y".to_string()));
    assert_eq!(resolve_path("plain/z", &home, "/cfg", false), Some("plain/z".to_string()));
    assert_eq!(resolve_path("  ", &home, "/cfg", false), None);
}

#[test]
fn non_string_mode_or_target_is_invalid() {
    let doc = parse_toml("[general]\nmode = 1\n");
    assert_eq!(message(validate_general(&doc)), "invalid value '1' for key 'mode'");
    let doc = parse_toml("[general]\nmode = \"relative\"\ntarget = true\n");
    assert_eq!(message(validate_general(&doc)), "invalid value 'true' for key 'target'");
}

#[test]
fn preset_entry_that_is_not_a_table_is_invalid() {
    let doc = parse_toml("[preset]\ndocs = 5\n");
    assert_eq!(message(validate_presets(&doc)), "invalid value 'must be a table' for key 'docs'");
}

#[test]
fn presets_keep_file_order() {
    let doc = parse_toml(
        "[preset.zeta]\nenabled = true\nextension = [\"png\"]\nrelative_path = \"Z\"\nabsolute_path = \"/z\"\n\
         [preset.alpha]\nenabled = true\nextension = [\"png\"]\nrelative_path = \"A\"\nabsolute_path = \"/a\"\n",
    );
    let presets = process_presets(&doc, &None, "/cfg", false);
    assert_eq!(presets[0].name, "zeta");
    assert_eq!(presets[1].name, "alpha");
}

#[test]
fn windows_config_paths_use_backslashes() {
    let home = Some("C:\\Users\\u".to_string());
    assert_eq!(resolve_path("~/x/y", &home, "C:\\cfg", true), Some("C:\\Users\\u\\x\\y".to_string()));
    assert_eq!(resolve_path("D:/data/pics", &home, "C:\\cfg", true), Some("D:\\data\\pics".to_string()));
}
