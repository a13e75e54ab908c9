use codemux::shell_escape::shell_escape;

#[test]
fn shell_escape_test_empty_string() {
    assert_eq!(shell_escape(""), "''");
}

#[test]
fn test_simple_string() {
    assert_eq!(shell_escape("foo"), "'foo'");
}

#[test]
fn test_with_single_quote() {
    assert_eq!(shell_escape("it's"), "'it'\"'\"'s'");
}

#[test]
fn test_path_with_spaces() {
    assert_eq!(shell_escape("/path with spaces"), "'/path with spaces'");
}

#[test]
fn test_multiple_single_quotes() {
    assert_eq!(shell_escape("don't"), "'don'\"'\"'t'");
}

#[test]
fn test_only_single_quote() {
    assert_eq!(shell_escape("'"), "''\"'\"''");
}

#[test]
fn test_special_chars_no_quotes() {
    assert_eq!(shell_escape("$HOME"), "'$HOME'");
    assert_eq!(shell_escape("`echo hi`"), "'`echo hi`'");
    assert_eq!(shell_escape("back\\slash"), "'back\\slash'");
}

#[test]
fn unicode_is_kept_inside_the_quotes() {
    assert_eq!(shell_escape("项目 🚀"), "'项目 🚀'");
}
