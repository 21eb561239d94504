use iris::path::{candidate_path, file_extension, join_path, path_first_component};
use iris::resolve::{anchor_expanded, dequote, normalize_components, resolve_path_permissive, lookup_var, PathEnv};
use iris::text::{capitalize_first, to_lower};

#[test]
fn test_capitalize_first() {
    assert_eq!(capitalize_first("iris"), "Iris");
    assert_eq!(capitalize_first(""), "");
    assert_eq!(capitalize_first("a"), "A");
    assert_eq!(capitalize_first("IRIS"), "IRIS");
}

#[test]
fn test_dequote_surrounding_quotes_and_spaces_preserved() {
    let s = r#""C:\\path with spaces""#;
    let dq = dequote(s);
    assert_eq!(dq, r#"C:\\path with spaces"#);
}

#[test]
fn test_dequote_stray_trailing_quote_removed() {
    let s = r#"C:\\Program Files\\""#;
    let dq = dequote(s);
    assert_eq!(dq, r#"C:\\Program Files\\"#);
}

#[test]
fn test_dequote_embedded_quote_unchanged() {
    let s = r#"C:\\foo\"bar"#;
    let dq = dequote(s);
    assert_eq!(dq, s);
}

#[test]
fn test_dequote_noop_preserves_whitespace_and_quotes() {
    let s = r#" "/path with spaces" "#;
    let dq = dequote(s);
    assert_eq!(dq, s);
}

#[test]
fn dequote_single_quotes() {
    assert_eq!(dequote("'abc'"), "abc");
    assert_eq!(dequote("\""), "");
}

#[test]
fn capitalize_first_multichar_uppercase() {
    assert_eq!(capitalize_first("ßa"), "SSa");
}

#[test]
fn lowercase_is_unicode() {
    assert_eq!(to_lower("PNG"), "png");
    assert_eq!(to_lower("ÄB"), "äb");
}

#[test]
fn join_inserts_one_separator() {
    assert_eq!(join_path("/tmp/t", "Pictures"), "/tmp/t/Pictures");
    assert_eq!(join_path("/tmp/t/", "Pictures"), "/tmp/t/Pictures");
    assert_eq!(join_path("/tmp/t", "/abs"), "/abs");
    assert_eq!(join_path("", "x"), "x");
}

#[test]
fn extension_follows_last_dot() {
    assert_eq!(file_extension("a.png"), Some("png".to_string()));
    assert_eq!(file_extension("archive.tar.gz"), Some("gz".to_string()));
    assert_eq!(file_extension("a."), Some("".to_string()));
    assert_eq!(file_extension(".bashrc"), None);
    assert_eq!(file_extension("README"), None);
    assert_eq!(file_extension(".."), None);
}

#[test]
fn candidates_insert_number_before_extension() {
    assert_eq!(candidate_path("/d", "a.png", 0, false), "/d/a.png");
    assert_eq!(candidate_path("/d", "a.png", 1, false), "/d/a-1.png");
    assert_eq!(candidate_path("/d", "a.tar.gz", 12, false), "/d/a.tar-12.gz");
    assert_eq!(candidate_path("/d", "a.", 2, false), "/d/a-2");
    assert_eq!(candidate_path("/d", "my.dir", 3, true), "/d/my.dir-3");
}

#[test]
fn first_component_of_relative_paths() {
    assert_eq!(path_first_component("Pictures/raw"), Some("Pictures".to_string()));
    assert_eq!(path_first_component("docs"), Some("docs".to_string()));
    assert_eq!(path_first_component("./docs"), None);
    assert_eq!(path_first_component("../docs"), None);
    assert_eq!(path_first_component("/abs/docs"), None);
    assert_eq!(path_first_component(""), None);
}

#[test]
fn normalization_collapses_dots() {
    assert_eq!(normalize_components("/a/./b/../c", false), "/a/c");
    assert_eq!(normalize_components("/../x", false), "/x");
    assert_eq!(normalize_components("../x", false), "../x");
    assert_eq!(normalize_components("a//b/", false), "a/b");
    assert_eq!(normalize_components("./", false), ".");
    assert_eq!(normalize_components("/", false), "/");
}

fn unix_env() -> PathEnv {
    PathEnv {
        windows: false,
        home: Some("/home/u".to_string()),
        cwd: Ok("/work/dir".to_string()),
        vars: vec![
            ("TEST_VAR".to_string(), "/tmp".to_string()),
            ("TEST_VAR2".to_string(), "/var".to_string()),
            ("PROJECT".to_string(), "myapp".to_string()),
        ],
    }
}

#[test]
fn lookup_takes_first_binding() {
    let vars = vec![("A".to_string(), "1".to_string()), ("A".to_string(), "2".to_string())];
    assert_eq!(lookup_var(&vars, "A"), Some("1".to_string()));
    assert_eq!(lookup_var(&vars, "B"), None);
}

#[test]
fn permissive_resolution_expands_and_normalizes() {
    let env = unix_env();
    assert_eq!(resolve_path_permissive("$TEST_VAR/file", &env), Ok("/tmp/file".to_string()));
    assert_eq!(resolve_path_permissive("${TEST_VAR2}/log/app.log", &env), Ok("/var/log/app.log".to_string()));
    assert_eq!(resolve_path_permissive("~/test", &env), Ok("/home/u/test".to_string()));
    assert_eq!(resolve_path_permissive("~/Documents/../Downloads", &env), Ok("/home/u/Downloads".to_string()));
    assert_eq!(resolve_path_permissive("~/projects/$PROJECT/src", &env), Ok("/home/u/projects/myapp/src".to_string()));
    assert_eq!(resolve_path_permissive("./foo/../bar/./baz", &env), Ok("/work/dir/bar/baz".to_string()));
    assert_eq!(resolve_path_permissive("./foo\\bar/baz", &env), Ok("/work/dir/foo/bar/baz".to_string()));
    assert_eq!(resolve_path_permissive("../", &env), Ok("/work".to_string()));
    assert_eq!(resolve_path_permissive("/usr/bin", &env), Ok("/usr/bin".to_string()));
}

#[test]
fn permissive_resolution_errors() {
    let env = unix_env();
    assert_eq!(resolve_path_permissive("", &env), Err("empty path provided".to_string()));
    assert_eq!(resolve_path_permissive("   ", &env), Err("empty path provided".to_string()));
    let missing = resolve_path_permissive("$NOPE/x", &env).unwrap_err();
    assert_eq!(missing, "failed to expand '$NOPE/x': error looking key 'NOPE' up: environment variable not found");
    let no_cwd = PathEnv { cwd: Err("gone".to_string()), ..unix_env() };
    assert_eq!(resolve_path_permissive("rel", &no_cwd), Err("failed to get current directory: gone".to_string()));
}

#[test]
fn windows_resolution_dequotes_and_expands_percent() {
    let env = PathEnv {
        windows: true,
        home: None,
        cwd: Ok("C:\\work".to_string()),
        vars: vec![("MYTESTVAR".to_string(), "C:/tmp".to_string())],
    };
    assert_eq!(resolve_path_permissive("%MYTESTVAR%/file.txt", &env), Ok("C:\\tmp\\file.txt".to_string()));
    assert_eq!(resolve_path_permissive("\"/quoted path\"", &env), Ok("\\quoted path".to_string()));
    assert_eq!(resolve_path_permissive("%UNSET%/x", &env), Ok("\\x".to_string()));
}

#[test]
fn unresolvable_parent_components_are_kept() {
    assert_eq!(normalize_components("../..", false), "../..");
    assert_eq!(normalize_components("a/../../b", false), "../b");
    assert_eq!(normalize_components("../a/..", false), "..");
    assert_eq!(normalize_components("/a/../../b", false), "/b");
}

#[test]
fn windows_normalization() {
    assert_eq!(normalize_components("C:/tmp\\a\\..\\file.txt", true), "C:\\tmp\\file.txt");
    assert_eq!(normalize_components("C:\\..\\x", true), "C:\\x");
    assert_eq!(normalize_components("C:some\\dir", true), "C:some\\dir");
    assert_eq!(normalize_components("\\\\server\\share\\folder\\file.txt", true), "\\\\server\\share\\folder\\file.txt");
    assert_eq!(normalize_components("a\\b", false), "a\\b");
}

#[test]
fn anchoring_an_expanded_path() {
    let env = unix_env();
    assert_eq!(anchor_expanded("rel\\x/../y", &env), Ok("/work/dir/rel/y".to_string()));
    assert_eq!(anchor_expanded("~\\odd", &env), Ok("/work/dir/~/odd".to_string()));
    let win = PathEnv { windows: true, home: None, cwd: Ok("D:\\work".to_string()), vars: vec![] };
    assert_eq!(anchor_expanded("\\top\\x", &win), Ok("D:\\top\\x".to_string()));
    assert_eq!(anchor_expanded("sub/x", &win), Ok("D:\\work\\sub\\x".to_string()));
}
