use slate::entries::descriptor;
use slate::entries::is_markdown_file;
use slate::entries::RawEntry;
use slate::paths::base_name;
use slate::paths::contains_hidden_component;
use slate::paths::has_markdown_extension;
use slate::paths::is_hidden;
use slate::paths::join_path;
use slate::paths::str_lex_le;
use slate::paths::strip_root_prefix;

fn raw(name: &str, path: &str, is_file: bool) -> RawEntry {
    RawEntry { name: Some(name.to_string()), path: path.to_string(), is_file }
}

#[test]
fn hidden_names() {
    assert!(is_hidden(".git"));
    assert!(is_hidden(".note.md"));
    assert!(!is_hidden("notes"));
    assert!(!is_hidden(""));
    assert!(!is_hidden("a.hidden"));
}

#[test]
fn markdown_extension() {
    assert!(has_markdown_extension("a.md"));
    assert!(has_markdown_extension("draft.old.md"));
    assert!(has_markdown_extension("..md"));
    assert!(!has_markdown_extension(".md"));
    assert!(!has_markdown_extension("md"));
    assert!(!has_markdown_extension("a.mdx"));
    assert!(!has_markdown_extension("a.MD"));
    assert!(!has_markdown_extension("amd"));
}

#[test]
fn markdown_file_filter() {
    assert!(is_markdown_file(&raw("a.md", "/v/a.md", true)));
    assert!(!is_markdown_file(&raw("a.md", "/v/a.md", false)));
    assert!(!is_markdown_file(&raw("a.txt", "/v/a.txt", true)));
    assert!(!is_markdown_file(&raw(".md", "/v/.md", true)));
}

#[test]
fn base_names() {
    assert_eq!(base_name("/home/user/vault"), "vault");
    assert_eq!(base_name("vault"), "vault");
    assert_eq!(base_name("/a/b/c.md"), "c.md");
    assert_eq!(base_name("/a/b/"), "");
    assert_eq!(base_name(""), "");
}

#[test]
fn hidden_components() {
    assert!(contains_hidden_component(".a"));
    assert!(contains_hidden_component("a/.b/c"));
    assert!(contains_hidden_component("a/b/.c.md"));
    assert!(!contains_hidden_component("a/b/c.md"));
    assert!(!contains_hidden_component(""));
    assert!(!contains_hidden_component("a.b/c"));
}

#[test]
fn joining_paths() {
    assert_eq!(join_path("/home/user", "vault"), "/home/user/vault");
    assert_eq!(join_path("/home/user/", "vault"), "/home/user/vault");
    assert_eq!(join_path("/home/user", "/absolute"), "/absolute");
    assert_eq!(join_path("/home/user", ""), "/home/user/");
}

#[test]
fn stripping_the_root() {
    assert_eq!(strip_root_prefix("/a/b/c.md", "/a/b"), Some("c.md".to_string()));
    assert_eq!(strip_root_prefix("/a/b/sub/c.md", "/a/b"), Some("sub/c.md".to_string()));
    assert_eq!(strip_root_prefix("/a/b", "/a/b"), Some("".to_string()));
    assert_eq!(strip_root_prefix("/a/b/c.md", "/a/b/"), Some("c.md".to_string()));
    assert_eq!(strip_root_prefix("/a/bc", "/a/b"), None);
    assert_eq!(strip_root_prefix("/elsewhere/c.md", "/a/b"), None);
}

#[test]
fn descriptor_falls_back_to_name() {
    let entry = raw("x.md", "/elsewhere/x.md", true);
    let d = descriptor("/home/user/vault", &entry);
    assert_eq!(d.relative_path, "x.md");
    assert_eq!(d.name, "x.md");
    assert_eq!(d.path, "/elsewhere/x.md");
}

#[test]
fn lexicographic_order() {
    assert!(str_lex_le("a", "b"));
    assert!(str_lex_le("a", "ab"));
    assert!(str_lex_le("", ""));
    assert!(str_lex_le("", "a"));
    assert!(str_lex_le("B", "a"));
    assert!(!str_lex_le("b", "a"));
    assert!(!str_lex_le("ab", "a"));
    assert!(str_lex_le("a/b", "a0b") == ('/' < '0'));
}
