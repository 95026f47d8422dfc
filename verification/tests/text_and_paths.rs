use unitctl::paths::{join_path, path_extension, path_file_name};
use unitctl::text::{
    decimal_string, find_char_in, pad_right_str, starts_with_str, str_eq, strip_prefix_str,
    trim_str,
};

#[test]
fn trim_removes_ascii_and_unicode_whitespace() {
    assert_eq!(trim_str("  a b \t"), "a b");
    assert_eq!(trim_str("\u{3000}x\u{a0}\u{2009}"), "x");
    assert_eq!(trim_str(" \r\n "), "");
    assert_eq!(trim_str("abc"), "abc");
    assert_eq!(trim_str(""), "");
}

#[test]
fn trim_matches_std_trim() {
    for s in ["  x  ", "\u{85}y\u{1680}", "\u{200b}z", " a\u{202f}", "\u{b}v\u{c}"] {
        assert_eq!(trim_str(s), s.trim());
    }
}

#[test]
fn string_comparisons() {
    assert!(str_eq("abc", "abc"));
    assert!(!str_eq("abc", "abd"));
    assert!(!str_eq("abc", "ab"));
    assert!(starts_with_str("SourcePath=/x", "SourcePath="));
    assert!(!starts_with_str("Source", "SourcePath="));
    assert_eq!(strip_prefix_str("SourcePath= /a ", "SourcePath="), Some(" /a ".to_string()));
    assert_eq!(strip_prefix_str("Path=/a", "SourcePath="), None);
    assert_eq!(find_char_in("a=b=c", '='), Some(1));
    assert_eq!(find_char_in("abc", '='), None);
}

#[test]
fn padding_and_decimals() {
    assert_eq!(pad_right_str("ab", 5), "ab   ");
    assert_eq!(pad_right_str("abcdef", 3), "abcdef");
    assert_eq!(pad_right_str("é", 3), "é  ");
    assert_eq!(decimal_string(0), "0");
    assert_eq!(decimal_string(7), "7");
    assert_eq!(decimal_string(12345), "12345");
    assert_eq!(decimal_string(usize::MAX), usize::MAX.to_string());
}

#[test]
fn join_follows_path_join() {
    assert_eq!(join_path("a", "b"), "a/b");
    assert_eq!(join_path("a/", "b"), "a/b");
    assert_eq!(join_path("", "b"), "b");
    assert_eq!(join_path("a", "/b"), "/b");
    assert_eq!(join_path("a", ""), "a/");
    for (b, r) in [("x", "y/z"), ("/x/", "y"), ("", ""), ("x", "/")] {
        let expected = std::path::Path::new(b).join(r);
        assert_eq!(join_path(b, r), expected.to_str().unwrap());
    }
}

#[test]
fn file_name_follows_path_file_name() {
    assert_eq!(path_file_name("/a/b.service"), Some("b.service".to_string()));
    assert_eq!(path_file_name("a/."), Some("a".to_string()));
    assert_eq!(path_file_name("foo/"), Some("foo".to_string()));
    assert_eq!(path_file_name("a/.."), None);
    assert_eq!(path_file_name("/"), None);
    assert_eq!(path_file_name("."), None);
    assert_eq!(path_file_name(""), None);
    for p in ["x", "./x", "x/./", "/x//y", "..", "a/./..", ".hidden", "...", "./."] {
        let expected = std::path::Path::new(p).file_name().map(|s| s.to_str().unwrap().to_string());
        assert_eq!(path_file_name(p), expected, "{}", p);
    }
}

#[test]
fn extension_follows_path_extension() {
    assert_eq!(path_extension("dir/x.service"), Some("service".to_string()));
    assert_eq!(path_extension("dir/.service"), None);
    assert_eq!(path_extension("a.b.c"), Some("c".to_string()));
    assert_eq!(path_extension(".."), None);
    assert_eq!(path_extension("foo."), Some("".to_string()));
    for p in ["x", "x.tar.gz", "/a/b.service/", "a.service/.", ".x.y", "a/..", "d.ir/file"] {
        let expected = std::path::Path::new(p).extension().map(|s| s.to_str().unwrap().to_string());
        assert_eq!(path_extension(p), expected, "{}", p);
    }
}
