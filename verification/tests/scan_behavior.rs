use slate::entries::FileEntry;
use slate::entries::RawEntry;
use slate::scan::scan_entries;
use slate::scan::scan_vault;
use slate::scan::scan_vault_from;

fn raw(name: &str, path: &str, is_file: bool) -> RawEntry {
    RawEntry { name: Some(name.to_string()), path: path.to_string(), is_file }
}

fn rel_paths(entries: &[FileEntry]) -> Vec<String> {
    entries.iter().map(|e| e.relative_path.clone()).collect()
}

const ROOT: &str = "/home/user/vault";

#[test]
fn example_tree_scan() {
    let entries = vec![
        raw("vault", "/home/user/vault", false),
        raw("a.md", "/home/user/vault/a.md", true),
        raw("b.txt", "/home/user/vault/b.txt", true),
        raw(".hidden", "/home/user/vault/.hidden", false),
        raw("c.md", "/home/user/vault/.hidden/c.md", true),
        raw("sub", "/home/user/vault/sub", false),
        raw("d.md", "/home/user/vault/sub/d.md", true),
    ];
    let result = scan_entries(ROOT, &entries);
    assert_eq!(rel_paths(&result), vec!["a.md".to_string(), "sub/d.md".to_string()]);
    assert_eq!(result[0].name, "a.md");
    assert_eq!(result[0].path, "/home/user/vault/a.md");
    assert_eq!(result[1].name, "d.md");
    assert_eq!(result[1].path, "/home/user/vault/sub/d.md");
}

#[test]
fn keeps_only_matching_files() {
    let entries = vec![
        raw("vault", "/home/user/vault", false),
        raw("note.md", "/home/user/vault/note.md", true),
        raw("readme.txt", "/home/user/vault/readme.txt", true),
        raw("folder.md", "/home/user/vault/folder.md", false),
        raw("docs", "/home/user/vault/docs", false),
        raw("guide.md", "/home/user/vault/docs/guide.md", true),
        raw("data.json", "/home/user/vault/docs/data.json", true),
    ];
    let result = scan_entries(ROOT, &entries);
    assert_eq!(rel_paths(&result), vec!["docs/guide.md".to_string(), "note.md".to_string()]);
}

#[test]
fn prunes_hidden_directories_at_every_depth() {
    let entries = vec![
        raw("vault", "/home/user/vault", false),
        raw(".git", "/home/user/vault/.git", false),
        raw("x.md", "/home/user/vault/.git/x.md", true),
        raw("a", "/home/user/vault/a", false),
        raw(".b", "/home/user/vault/a/.b", false),
        raw("deep.md", "/home/user/vault/a/.b/deep.md", true),
        raw("kept.md", "/home/user/vault/a/kept.md", true),
    ];
    let result = scan_entries(ROOT, &entries);
    assert_eq!(rel_paths(&result), vec!["a/kept.md".to_string()]);
}

#[test]
fn excludes_hidden_markdown_files() {
    let entries = vec![
        raw("vault", "/home/user/vault", false),
        raw(".note.md", "/home/user/vault/.note.md", true),
        raw("sub", "/home/user/vault/sub", false),
        raw(".draft.md", "/home/user/vault/sub/.draft.md", true),
        raw("note.md", "/home/user/vault/note.md", true),
    ];
    let result = scan_entries(ROOT, &entries);
    assert_eq!(rel_paths(&result), vec!["note.md".to_string()]);
}

#[test]
fn result_sorted_by_relative_path_oracle() {
    let entries = vec![
        raw("vault", "/home/user/vault", false),
        raw("z.md", "/home/user/vault/z.md", true),
        raw("sub", "/home/user/vault/sub", false),
        raw("m.md", "/home/user/vault/sub/m.md", true),
        raw("a.md", "/home/user/vault/a.md", true),
        raw("B.md", "/home/user/vault/B.md", true),
        raw("aa.md", "/home/user/vault/aa.md", true),
    ];
    let result = scan_entries(ROOT, &entries);
    let mut oracle = rel_paths(&result);
    oracle.sort();
    assert_eq!(rel_paths(&result), oracle);
    let expected = vec![
        "B.md".to_string(),
        "a.md".to_string(),
        "aa.md".to_string(),
        "sub/m.md".to_string(),
        "z.md".to_string(),
    ];
    assert_eq!(rel_paths(&result), expected);
}

#[test]
fn scan_twice_yields_identical_results() {
    let entries = vec![
        raw("vault", "/home/user/vault", false),
        raw("b.md", "/home/user/vault/b.md", true),
        raw("a.md", "/home/user/vault/a.md", true),
        raw("sub", "/home/user/vault/sub", false),
        raw("c.md", "/home/user/vault/sub/c.md", true),
    ];
    let first = scan_entries(ROOT, &entries);
    let second = scan_entries(ROOT, &entries);
    assert_eq!(first, second);
}

#[test]
fn missing_root_error_names_the_path() {
    let result = scan_vault_from("/nonexistent_base_dir_for_tests", "missing_vault");
    match result {
        Ok(_) => panic!("a vault under a nonexistent base must not scan"),
        Err(message) => {
            assert_eq!(
                message,
                "Vault path does not exist: /nonexistent_base_dir_for_tests/missing_vault"
            );
            assert!(message.contains("/nonexistent_base_dir_for_tests/missing_vault"));
        }
    }
}

#[test]
fn scan_vault_rejects_missing_relative_path() {
    let result = scan_vault("nonexistent_vault_dir_for_tests_0193".to_string());
    assert!(result.is_err());
}

#[test]
fn no_matches_yields_empty_result() {
    let entries = vec![
        raw("vault", "/home/user/vault", false),
        raw("a.txt", "/home/user/vault/a.txt", true),
        raw("sub", "/home/user/vault/sub", false),
    ];
    let result = scan_entries(ROOT, &entries);
    assert!(result.is_empty());
    let no_entries: Vec<RawEntry> = Vec::new();
    assert!(scan_entries(ROOT, &no_entries).is_empty());
}

#[test]
fn hidden_root_yields_nothing() {
    let root = "/home/user/.vault";
    let entries = vec![
        raw(".vault", "/home/user/.vault", false),
        raw("a.md", "/home/user/.vault/a.md", true),
    ];
    let result = scan_entries(root, &entries);
    assert!(result.is_empty());
}

#[test]
fn root_itself_a_markdown_file() {
    let root = "/home/user/vault/v.md";
    let entries = vec![raw("v.md", "/home/user/vault/v.md", true)];
    let result = scan_entries(root, &entries);
    assert_eq!(result.len(), 1);
    assert_eq!(result[0].name, "v.md");
    assert_eq!(result[0].path, "/home/user/vault/v.md");
    assert_eq!(result[0].relative_path, "");
}

#[test]
fn undecodable_name_becomes_empty() {
    let entries = vec![
        RawEntry { name: None, path: "/home/user/vault/x.md".to_string(), is_file: true },
    ];
    let result = scan_entries(ROOT, &entries);
    assert_eq!(result.len(), 1);
    assert_eq!(result[0].name, "");
    assert_eq!(result[0].relative_path, "x.md");
}
