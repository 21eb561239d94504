use iris::rcfile::{has_text, is_already_sourced, remove_lines_containing};

#[test]
fn removes_every_line_that_mentions_the_text() {
    let content = "export A=1\nsource \"/c/iris.bash\"\nalias x=y\nsource \"/c/iris.bash\" # again\n";
    assert_eq!(remove_lines_containing(content, "source \"/c/iris.bash\""), "export A=1\nalias x=y");
}

#[test]
fn line_removal_follows_str_lines() {
    assert_eq!(remove_lines_containing("a\r\nb\r\n", "zzz"), "a\nb");
    assert_eq!(remove_lines_containing("a\n\nb", "zzz"), "a\n\nb");
    assert_eq!(remove_lines_containing("", "x"), "");
    assert_eq!(remove_lines_containing("only x here", "x"), "");
}

#[test]
fn sourcing_line_detection() {
    assert!(is_already_sourced("foo\nsource \"/c/iris.bash\"\n", "source \"/c/iris.bash\""));
    assert!(!is_already_sourced("foo\n", "source \"/c/iris.bash\""));
    let zsh = "fpath=(\"/c/completions\" $fpath)\nautoload -U compinit; compinit";
    assert!(is_already_sourced("fpath=(\"/c/completions\" $fpath)\n", zsh));
    assert!(!is_already_sourced("fpath=(\"/other\" $fpath)\n", zsh));
}

#[test]
fn text_search() {
    assert!(has_text("hello world", "o w"));
    assert!(has_text("abc", ""));
    assert!(!has_text("abc", "abcd"));
    assert!(!has_text("abc", "acb"));
}

#[test]
fn bare_trailing_carriage_return_is_kept() {
    assert_eq!(remove_lines_containing("a\r\nb\r", "zzz"), "a\nb\r");
    assert_eq!("a\r\nb\r".lines().collect::<Vec<_>>().join("\n"), "a\nb\r");
}
